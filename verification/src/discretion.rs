//! What notifications keep to themselves, and when they give up.
use vstd::prelude::*;

use crate::notification::{location, CourierModel, SendFailure};
use crate::text::{decimal, has_prefix, replace};
use crate::webhook::WebhookModel;

verus! {

/// Whether a text occurs in another.
pub open spec fn occurs(part: Seq<char>, text: Seq<char>) -> bool {
    exists|i: int| 0 <= i <= text.len() && has_prefix(#[trigger] text.skip(i), part)
}

proof fn lemma_occurrence(part: Seq<char>, text: Seq<char>, i: int, k: int)
    requires
        0 <= i <= text.len(),
        has_prefix(text.skip(i), part),
        0 <= k < part.len(),
    ensures
        i + k < text.len(),
        text[i + k] == part[k],
{
    assert(text.skip(i).take(part.len() as int)[k] == part[k]);
}

/// A text does not occur where one of its characters does not.
proof fn lemma_missing_character(part: Seq<char>, text: Seq<char>, c: char)
    requires
        part.contains(c),
        !text.contains(c),
    ensures
        !occurs(part, text),
{
    if occurs(part, text) {
        let i = choose|i: int|
            0 <= i <= text.len() && has_prefix(#[trigger] text.skip(i), part);
        let k = part.index_of(c);
        lemma_occurrence(part, text, i, k);
        assert(text[i + k] == c);
    }
}

/// Whether one text can end with the start of another.
pub open spec fn overlaps(text: Seq<char>, next: Seq<char>) -> bool {
    exists|k: int|
        0 < k <= text.len() && k <= next.len() && text.skip(text.len() - k) == #[trigger] next.take(k)
}

/// Nothing has been replaced in a start of the result that ends the replaced
/// text.
proof fn lemma_plain_start(text: Seq<char>, part: Seq<char>, by: Seq<char>, k: int)
    requires
        by.len() > 0,
        0 <= k < part.len(),
        k <= replace(text, part, by).len(),
        replace(text, part, by).take(k) == part.skip(part.len() - k),
        !occurs(by, part),
        !overlaps(part, by),
    ensures
        k <= text.len(),
        text.take(k) == part.skip(part.len() - k),
    decreases text.len(),
{
    let result = replace(text, part, by);
    let tail = part.skip(part.len() - k);
    if k == 0 {
        assert(text.take(0) =~= tail);
    } else if has_prefix(text, part) {
        let rest = replace(text.skip(part.len() as int), part, by);
        assert(result =~= by + rest);
        if k <= by.len() {
            assert(by.take(k) =~= result.take(k));
            assert(overlaps(part, by));
        } else {
            assert(tail.take(by.len() as int) =~= by);
            assert(has_prefix(part.skip(part.len() - k), by));
            assert(occurs(by, part));
        }
    } else {
        assert(text.len() > 0);
        let rest = replace(text.drop_first(), part, by);
        assert(result =~= seq![text[0]] + rest);
        assert forall|i: int| 0 <= i < k - 1 implies rest[i] == part.skip(part.len() - (k - 1))[i] by {
            assert(result.take(k)[i + 1] == tail[i + 1]);
        }
        assert(rest.take(k - 1) =~= part.skip(part.len() - (k - 1)));
        lemma_plain_start(text.drop_first(), part, by, k - 1);
        assert forall|i: int| 0 <= i < k implies text[i] == tail[i] by {
            if i == 0 {
                assert(result.take(k)[0] == tail[0]);
            } else {
                assert(text.drop_first().take(k - 1)[i - 1] == part.skip(part.len() - (k - 1))[i - 1]);
            }
        }
        assert(text.take(k) =~= tail);
    }
}

/// What is replaced by a marker that it does not run into does not occur any
/// more.
proof fn lemma_replaced(text: Seq<char>, part: Seq<char>, by: Seq<char>)
    requires
        part.len() > 0,
        by.len() > 0,
        !occurs(part, by),
        !occurs(by, part),
        !overlaps(part, by),
        !overlaps(by, part),
    ensures
        !occurs(part, replace(text, part, by)),
    decreases text.len(),
{
    let result = replace(text, part, by);
    let n = part.len() as int;
    if occurs(part, result) {
        let i = choose|i: int|
            0 <= i <= result.len() && has_prefix(#[trigger] result.skip(i), part);
        lemma_occurrence(part, result, i, n - 1);
        if has_prefix(text, part) {
            let rest = replace(text.skip(n), part, by);
            lemma_replaced(text.skip(n), part, by);
            assert(result =~= by + rest);
            if i >= by.len() {
                assert(rest.skip(i - by.len()) =~= result.skip(i));
                assert(has_prefix(rest.skip(i - by.len()), part));
            } else if i + n <= by.len() {
                assert(by.skip(i).take(n) =~= result.skip(i).take(n));
                assert(has_prefix(by.skip(i), part));
            } else {
                let k = by.len() - i;
                assert forall|j: int| 0 <= j < k implies by[i + j] == part[j] by {
                    lemma_occurrence(part, result, i, j);
                }
                assert(by.skip(by.len() - k) =~= part.take(k));
                assert(overlaps(by, part));
            }
        } else if text.len() > 0 {
            let rest = replace(text.drop_first(), part, by);
            lemma_replaced(text.drop_first(), part, by);
            assert(result =~= seq![text[0]] + rest);
            if i > 0 {
                assert(rest.skip(i - 1) =~= result.skip(i));
                assert(has_prefix(rest.skip(i - 1), part));
            } else {
                assert forall|j: int| 0 <= j < n - 1 implies rest[j] == part.skip(1)[j] by {
                    lemma_occurrence(part, result, 0, j + 1);
                }
                assert(rest.take(n - 1) =~= part.skip(1));
                lemma_plain_start(text.drop_first(), part, by, n - 1);
                lemma_occurrence(part, result, 0, 0);
                assert forall|j: int| 0 <= j < n implies text[j] == part[j] by {
                    if j > 0 {
                        assert(text.drop_first().take(n - 1)[j - 1] == part.skip(1)[j - 1]);
                    }
                }
                assert(text.take(n) =~= part);
                assert(has_prefix(text, part));
            }
        }
    }
}

proof fn lemma_decimal_has_no_colon(n: nat)
    ensures
        !decimal(n).contains(':'),
    decreases n,
{
    if n >= 10 {
        lemma_decimal_has_no_colon(n / 10);
    }
}

/// Whether a text stays apart from the marker that stands for it: neither
/// holds the other, and neither ends with a start of the other.
pub open spec fn stands_apart(url: Seq<char>) -> bool {
    &&& !occurs("[redacted-url]"@, url)
    &&& !overlaps(url, "[redacted-url]"@)
    &&& !overlaps("[redacted-url]"@, url)
}

/// The words for a failed request never show the URL. That is said of every
/// URL with a colon, as one with a scheme has, that stays apart from the marker
/// put in its place.
pub proof fn law_failures_hide_the_url(failure: SendFailure, url: Seq<char>)
    requires
        url.contains(':'),
        stands_apart(url),
    ensures
        !occurs(url, failure.words(url)),
{
    reveal_strlit("[redacted-url]");
    reveal_strlit("remote endpoint returned HTTP ");
    reveal_strlit("request timed out");
    reveal_strlit("webhook host could not be resolved");
    reveal_strlit("a non-HTTPS URL or redirect was refused");
    reveal_strlit("TLS connection or certificate validation failed");
    let marker = "[redacted-url]"@;
    lemma_missing_character(url, marker, ':');
    match failure {
        SendFailure::Status(code) => {
            lemma_decimal_has_no_colon(code as nat);
            lemma_missing_character(url, failure.words(url), ':');
        },
        SendFailure::Timeout => lemma_missing_character(url, failure.words(url), ':'),
        SendFailure::HostNotFound => lemma_missing_character(url, failure.words(url), ':'),
        SendFailure::RequireHttpsOnly => lemma_missing_character(url, failure.words(url), ':'),
        SendFailure::Tls => lemma_missing_character(url, failure.words(url), ':'),
        SendFailure::BadUri(text) => lemma_replaced(text@, url, marker),
        SendFailure::Http(text) => lemma_replaced(text@, url, marker),
        SendFailure::RedirectFailed(text) => lemma_replaced(text@, url, marker),
        SendFailure::TooManyRedirects(text) => lemma_replaced(text@, url, marker),
        SendFailure::Other(text) => lemma_replaced(text@, url, marker),
    }
}

/// A URL that starts as `https` does, does not end with an opening bracket and
/// has no opening bracket before an `r` stays apart from the marker:
/// `https://host/path` does, and so does `https://[::1]/path`.
pub proof fn law_usual_urls_stand_apart(url: Seq<char>)
    requires
        url.len() > 0,
        url[0] == 'h' || url[0] == 'H',
        url.last() != '[',
        forall|i: int| 0 <= i < url.len() - 1 && url[i] == '[' ==> #[trigger] url[i + 1] != 'r',
    ensures
        stands_apart(url),
{
    reveal_strlit("[redacted-url]");
    let marker = "[redacted-url]"@;
    if occurs(marker, url) {
        let i = choose|i: int| 0 <= i <= url.len() && has_prefix(#[trigger] url.skip(i), marker);
        lemma_occurrence(marker, url, i, 0);
        lemma_occurrence(marker, url, i, 1);
        assert(url[i + 1] == 'r');
    }
    if overlaps(url, marker) {
        let k = choose|k: int|
            0 < k <= url.len() && k <= marker.len() && url.skip(url.len() - k)
                == #[trigger] marker.take(k);
        let i = url.len() - k;
        assert(url.skip(i)[0] == marker.take(k)[0]);
        if k > 1 {
            assert(url.skip(i)[1] == marker.take(k)[1]);
            assert(url[i + 1] == 'r');
        }
    }
    if overlaps(marker, url) {
        let k = choose|k: int|
            0 < k <= marker.len() && k <= url.len() && marker.skip(marker.len() - k)
                == #[trigger] url.take(k);
        assert(marker.skip(marker.len() - k)[0] == url.take(k)[0]);
    }
}

/// A value of the process environment comes before one of the environment
/// file.
pub proof fn law_process_environment_comes_first(
    hook: WebhookModel,
    value: Seq<char>,
    file: Seq<(Seq<char>, Seq<char>)>,
)
    requires
        hook.url is None,
        hook.url_env is Some,
    ensures
        location(hook, Some(value), file) == Ok::<Seq<char>, Seq<char>>(value),
{
}

/// A delivery counts as failed exactly when its last request failed: a message
/// that comes through on a later attempt was delivered.
pub proof fn law_last_attempt_decides(courier: CourierModel, outcome: Result<(), SendFailure>)
    ensures
        courier.after(outcome).delivery.error is None <==> outcome is Ok,
        outcome is Ok ==> !courier.after(outcome).pending,
{
}

/// A delivery goes on only after a failure that may pass, and only while
/// attempts are left; each request is one attempt.
pub proof fn law_delivery_gives_up(courier: CourierModel, outcome: Result<(), SendFailure>)
    requires
        courier.well_formed(),
        courier.pending,
    ensures
        courier.after(outcome).well_formed(),
        courier.after(outcome).delivery.attempts == courier.delivery.attempts + 1,
        courier.after(outcome).pending <==> (outcome matches Err(failure) && failure.may_pass()
            && courier.delivery.attempts + 1 < courier.max_attempts),
{
}

} // verus!
