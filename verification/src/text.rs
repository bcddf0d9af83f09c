//! Text primitives over the character sequence of a string.
//!
//! Every function here has a specification over `Seq<char>`, so that the rest
//! of the crate reasons about strings as plain mathematical sequences.
use vstd::prelude::*;

verus! {

broadcast use vstd::string::group_string_axioms;

/// `String::push` appends one character.
pub assume_specification[ String::push ](text: &mut String, c: char)
    ensures
        final(text)@ == old(text)@.push(c),
;

/// The text that `format!("{:?}", text)` gives for a string: the text in
/// double quotes, with the escapes of the standard `Debug` rendering.
pub uninterp spec fn debug_text(text: Seq<char>) -> Seq<char>;

/// Renders a string with the standard `Debug` formatting of `str`.
///
/// The escape rules are those of the standard library; they are left unsaid
/// here, beyond the fact that the result depends on the text alone.
#[verifier::external_body]
pub(crate) fn quoted(text: &str) -> (res: String)
    ensures
        res@ == debug_text(text@),
{
    format!("{:?}", text)
}

// ---------------------------------------------------------------------------
// Sequences of strings
// ---------------------------------------------------------------------------

/// The character sequences of a sequence of strings.
pub open spec fn texts(v: Seq<String>) -> Seq<Seq<char>> {
    v.map_values(|t: String| t@)
}

pub proof fn lemma_texts_push(v: Seq<String>, t: String)
    ensures
        texts(v.push(t)) == texts(v).push(t@),
{
    assert(texts(v.push(t)) =~= texts(v).push(t@));
}

/// Copies a vector of strings.
pub fn copy_texts(v: &Vec<String>) -> (res: Vec<String>)
    ensures
        texts(res@) == texts(v@),
        res@.len() == v@.len(),
{
    let mut res: Vec<String> = Vec::new();
    let mut i: usize = 0;
    while i < v.len()
        invariant
            i <= v@.len(),
            res@.len() == i,
            texts(res@) == texts(v@).take(i as int),
        decreases v.len() - i,
    {
        proof {
            lemma_texts_push(res@, v@[i as int]);
            assert(texts(v@).take(i + 1) =~= texts(v@).take(i as int).push(v@[i as int]@));
        }
        res.push(v[i].clone());
        i += 1;
    }
    assert(texts(v@).take(i as int) =~= texts(v@));
    res
}

/// Whether two lists hold the same texts in the same order.
pub fn same_texts(a: &Vec<String>, b: &Vec<String>) -> (res: bool)
    ensures
        res == (texts(a@) == texts(b@)),
{
    if a.len() != b.len() {
        assert(texts(a@).len() != texts(b@).len());
        return false;
    }
    let mut i: usize = 0;
    while i < a.len()
        invariant
            i <= a@.len(),
            a@.len() == b@.len(),
            forall|j: int| 0 <= j < i ==> a@[j]@ == b@[j]@,
        decreases a.len() - i,
    {
        if a[i] != b[i] {
            assert(texts(a@)[i as int] != texts(b@)[i as int]);
            return false;
        }
        i += 1;
    }
    assert(texts(a@) =~= texts(b@));
    true
}

/// Whether a list of strings holds a text.
pub fn list_contains(list: &Vec<String>, text: &str) -> (res: bool)
    ensures
        res == texts(list@).contains(text@),
{
    let mut i: usize = 0;
    while i < list.len()
        invariant
            i <= list@.len(),
            forall|j: int| 0 <= j < i ==> list@[j]@ != text@,
        decreases list.len() - i,
    {
        if same(list[i].as_str(), text) {
            assert(texts(list@)[i as int] == text@);
            return true;
        }
        i += 1;
    }
    assert forall|j: int| 0 <= j < texts(list@).len() implies texts(list@)[j] != text@ by {
        assert(list@[j]@ != text@);
    }
    false
}

// ---------------------------------------------------------------------------
// Characters
// ---------------------------------------------------------------------------

/// The characters with the Unicode `White_Space` property.
pub open spec fn is_space(c: char) -> bool {
    ||| '\u{9}' <= c <= '\u{d}'
    ||| c == ' '
    ||| c == '\u{85}'
    ||| c == '\u{a0}'
    ||| c == '\u{1680}'
    ||| '\u{2000}' <= c <= '\u{200a}'
    ||| c == '\u{2028}'
    ||| c == '\u{2029}'
    ||| c == '\u{202f}'
    ||| c == '\u{205f}'
    ||| c == '\u{3000}'
}

pub fn is_whitespace(c: char) -> (res: bool)
    ensures
        res == is_space(c),
{
    ('\u{9}' <= c && c <= '\u{d}') || c == ' ' || c == '\u{85}' || c == '\u{a0}' || c == '\u{1680}'
        || ('\u{2000}' <= c && c <= '\u{200a}') || c == '\u{2028}' || c == '\u{2029}' || c
        == '\u{202f}' || c == '\u{205f}' || c == '\u{3000}'
}

/// An ASCII letter or digit.
pub open spec fn is_alphanumeric(c: char) -> bool {
    ||| '0' <= c <= '9'
    ||| 'A' <= c <= 'Z'
    ||| 'a' <= c <= 'z'
}

pub fn is_ascii_alphanumeric(c: char) -> (res: bool)
    ensures
        res == is_alphanumeric(c),
{
    ('0' <= c && c <= '9') || ('A' <= c && c <= 'Z') || ('a' <= c && c <= 'z')
}

/// The ASCII lower-case form of a character; other characters stay.
pub open spec fn lower(c: char) -> char {
    if 'A' <= c <= 'Z' {
        (c as u8 + 32) as u8 as char
    } else {
        c
    }
}

fn lower_char(c: char) -> (res: char)
    ensures
        res == lower(c),
{
    if 'A' <= c && c <= 'Z' {
        (c as u8 + 32) as char
    } else {
        c
    }
}

/// The characters of a string.
pub fn characters(text: &str) -> (res: Vec<char>)
    ensures
        res@ == text@,
{
    let mut res: Vec<char> = Vec::new();
    for c in it: text.chars()
        invariant
            res@ == text@.take(it.index() as int),
            it.seq() == text@,
    {
        res.push(c);
    }
    res
}

/// The string of the characters `from..to`.
pub fn from_range(chars: &Vec<char>, from: usize, to: usize) -> (res: String)
    requires
        from <= to <= chars@.len(),
    ensures
        res@ == chars@.subrange(from as int, to as int),
{
    let mut res = String::new();
    let mut i: usize = from;
    while i < to
        invariant
            from <= i <= to <= chars@.len(),
            res@ == chars@.subrange(from as int, i as int),
        decreases to - i,
    {
        res.push(chars[i]);
        i += 1;
        assert(chars@.subrange(from as int, i as int) =~= chars@.subrange(
            from as int,
            i - 1,
        ).push(chars@[i - 1]));
    }
    res
}

// ---------------------------------------------------------------------------
// Comparison
// ---------------------------------------------------------------------------

pub fn same(a: &str, b: &str) -> (res: bool)
    ensures
        res == (a@ == b@),
{
    let x = characters(a);
    let y = characters(b);
    if x.len() != y.len() {
        return false;
    }
    let mut i: usize = 0;
    while i < x.len()
        invariant
            i <= x@.len(),
            x@.len() == y@.len(),
            x@ == a@,
            y@ == b@,
            forall|j: int| 0 <= j < i ==> x@[j] == y@[j],
        decreases x.len() - i,
    {
        if x[i] != y[i] {
            return false;
        }
        i += 1;
    }
    assert(a@ =~= b@);
    true
}

/// Lexicographic order by Unicode scalar value, the order of `str`.
pub open spec fn text_lt(a: Seq<char>, b: Seq<char>) -> bool
    decreases a.len(),
{
    if b.len() == 0 {
        false
    } else if a.len() == 0 {
        true
    } else if a[0] != b[0] {
        a[0] < b[0]
    } else {
        text_lt(a.drop_first(), b.drop_first())
    }
}

pub open spec fn text_le(a: Seq<char>, b: Seq<char>) -> bool {
    !text_lt(b, a)
}

pub proof fn lemma_lt_irreflexive(a: Seq<char>)
    ensures
        !text_lt(a, a),
    decreases a.len(),
{
    if a.len() > 0 {
        lemma_lt_irreflexive(a.drop_first());
    }
}

pub proof fn lemma_lt_transitive(a: Seq<char>, b: Seq<char>, c: Seq<char>)
    requires
        text_lt(a, b),
        text_lt(b, c),
    ensures
        text_lt(a, c),
    decreases a.len(),
{
    if a.len() > 0 && b.len() > 0 && c.len() > 0 && a[0] == b[0] && b[0] == c[0] {
        lemma_lt_transitive(a.drop_first(), b.drop_first(), c.drop_first());
    }
}

pub proof fn lemma_lt_total(a: Seq<char>, b: Seq<char>)
    ensures
        text_lt(a, b) || a == b || text_lt(b, a),
    decreases a.len(),
{
    if a.len() == 0 {
        if b.len() == 0 {
            assert(a =~= b);
        }
    } else if b.len() > 0 && a[0] == b[0] {
        lemma_lt_total(a.drop_first(), b.drop_first());
        if a.drop_first() == b.drop_first() {
            assert(a =~= seq![a[0]] + a.drop_first());
            assert(b =~= seq![b[0]] + b.drop_first());
        }
    }
}

pub proof fn lemma_lt_asymmetric(a: Seq<char>, b: Seq<char>)
    requires
        text_lt(a, b),
    ensures
        !text_lt(b, a),
        a != b,
{
    lemma_lt_irreflexive(a);
    if text_lt(b, a) {
        lemma_lt_transitive(a, b, a);
    }
}

/// Whether `a` comes strictly before `b`.
pub fn before(a: &str, b: &str) -> (res: bool)
    ensures
        res == text_lt(a@, b@),
{
    let x = characters(a);
    let y = characters(b);
    let mut i: usize = 0;
    assert(x@.skip(0) =~= x@);
    assert(y@.skip(0) =~= y@);
    while i < x.len() && i < y.len()
        invariant
            i <= x@.len(),
            i <= y@.len(),
            x@ == a@,
            y@ == b@,
            text_lt(x@, y@) == text_lt(x@.skip(i as int), y@.skip(i as int)),
        decreases x.len() - i,
    {
        assert(x@.skip(i as int).drop_first() =~= x@.skip(i + 1));
        assert(y@.skip(i as int).drop_first() =~= y@.skip(i + 1));
        if x[i] != y[i] {
            return x[i] < y[i];
        }
        i += 1;
    }
    i < y.len()
}

// ---------------------------------------------------------------------------
// Trimming and case
// ---------------------------------------------------------------------------

pub open spec fn trim_start(s: Seq<char>) -> Seq<char>
    decreases s.len(),
{
    if s.len() > 0 && is_space(s[0]) {
        trim_start(s.drop_first())
    } else {
        s
    }
}

pub open spec fn trim_end(s: Seq<char>) -> Seq<char>
    decreases s.len(),
{
    if s.len() > 0 && is_space(s.last()) {
        trim_end(s.drop_last())
    } else {
        s
    }
}

/// The text without leading and trailing white space.
pub open spec fn trim(s: Seq<char>) -> Seq<char> {
    trim_end(trim_start(s))
}

pub fn trimmed(text: &str) -> (res: String)
    ensures
        res@ == trim(text@),
{
    let x = characters(text);
    let mut i: usize = 0;
    assert(x@.skip(0) =~= x@);
    while i < x.len() && is_whitespace(x[i])
        invariant
            i <= x@.len(),
            trim_start(x@) == trim_start(x@.skip(i as int)),
        decreases x.len() - i,
    {
        assert(x@.skip(i as int).drop_first() =~= x@.skip(i + 1));
        i += 1;
    }
    let mut j: usize = x.len();
    assert(x@.subrange(i as int, j as int) =~= x@.skip(i as int));
    assert(trim_start(x@) == x@.skip(i as int));
    while j > i && is_whitespace(x[j - 1])
        invariant
            i <= j <= x@.len(),
            trim(x@) == trim_end(x@.subrange(i as int, j as int)),
        decreases j,
    {
        assert(x@.subrange(i as int, j as int).drop_last() =~= x@.subrange(i as int, j - 1));
        j -= 1;
    }
    from_range(&x, i, j)
}

/// The leading white space of a text and what follows it.
pub fn split_indentation(text: &str) -> (res: (String, String))
    ensures
        res.1@ == trim_start(text@),
        res.0@ + res.1@ == text@,
{
    let x = characters(text);
    let mut i: usize = 0;
    assert(x@.skip(0) =~= x@);
    while i < x.len() && is_whitespace(x[i])
        invariant
            i <= x@.len(),
            trim_start(x@) == trim_start(x@.skip(i as int)),
        decreases x.len() - i,
    {
        assert(x@.skip(i as int).drop_first() =~= x@.skip(i + 1));
        i += 1;
    }
    let head = from_range(&x, 0, i);
    let tail = from_range(&x, i, x.len());
    assert(tail@ =~= x@.skip(i as int));
    assert(head@ + tail@ =~= text@);
    (head, tail)
}

/// A text without the run of one character at its end.
pub open spec fn drop_run(s: Seq<char>, c: char) -> Seq<char>
    decreases s.len(),
{
    if s.len() > 0 && s.last() == c {
        drop_run(s.drop_last(), c)
    } else {
        s
    }
}

pub fn trim_run(text: &str, c: char) -> (res: String)
    ensures
        res@ == drop_run(text@, c),
{
    let x = characters(text);
    let mut end: usize = x.len();
    assert(x@.take(end as int) =~= x@);
    while end > 0 && x[end - 1] == c
        invariant
            end <= x@.len(),
            x@ == text@,
            drop_run(x@.take(end as int), c) == drop_run(x@, c),
        decreases end,
    {
        assert(x@.take(end as int).drop_last() =~= x@.take(end - 1));
        end -= 1;
    }
    let res = from_range(&x, 0, end);
    assert(res@ =~= x@.take(end as int));
    res
}

pub open spec fn lowercase(s: Seq<char>) -> Seq<char> {
    s.map_values(|c: char| lower(c))
}

pub fn lowercased(text: &str) -> (res: String)
    ensures
        res@ == lowercase(text@),
{
    let x = characters(text);
    let mut res = String::new();
    let mut i: usize = 0;
    while i < x.len()
        invariant
            i <= x@.len(),
            res@ == lowercase(x@).take(i as int),
        decreases x.len() - i,
    {
        assert(lowercase(x@).take(i + 1) =~= lowercase(x@).take(i as int).push(
            lowercase(x@)[i as int],
        ));
        res.push(lower_char(x[i]));
        i += 1;
    }
    assert(lowercase(x@).take(i as int) =~= lowercase(x@));
    res
}

// ---------------------------------------------------------------------------
// Prefixes, suffixes, searching
// ---------------------------------------------------------------------------

pub open spec fn has_prefix(s: Seq<char>, p: Seq<char>) -> bool {
    p.len() <= s.len() && s.take(p.len() as int) == p
}

pub open spec fn has_suffix(s: Seq<char>, p: Seq<char>) -> bool {
    p.len() <= s.len() && s.skip(s.len() - p.len()) == p
}

pub open spec fn drop_prefix(s: Seq<char>, p: Seq<char>) -> Option<Seq<char>> {
    if has_prefix(s, p) {
        Some(s.skip(p.len() as int))
    } else {
        None
    }
}

pub open spec fn drop_suffix(s: Seq<char>, p: Seq<char>) -> Option<Seq<char>> {
    if has_suffix(s, p) {
        Some(s.take(s.len() - p.len()))
    } else {
        None
    }
}

/// Whether `part` stands in `x` at position `at`.
fn matches_at(x: &Vec<char>, at: usize, part: &Vec<char>) -> (res: bool)
    requires
        at <= x@.len(),
    ensures
        res == (at + part@.len() <= x@.len() && x@.subrange(at as int, at + part@.len()) == part@),
{
    if part.len() > x.len() - at {
        return false;
    }
    let mut i: usize = 0;
    while i < part.len()
        invariant
            i <= part@.len(),
            at + part@.len() <= x@.len() <= usize::MAX,
            forall|j: int| 0 <= j < i ==> x@[at + j] == part@[j],
        decreases part.len() - i,
    {
        if x[at + i] != part[i] {
            assert(x@.subrange(at as int, at + part@.len())[i as int] != part@[i as int]);
            return false;
        }
        i += 1;
    }
    assert(x@.subrange(at as int, at + part@.len()) =~= part@);
    true
}

pub fn starts_with(text: &str, prefix: &str) -> (res: bool)
    ensures
        res == has_prefix(text@, prefix@),
{
    let x = characters(text);
    let p = characters(prefix);
    proof {
        if p@.len() <= x@.len() {
            assert(x@.subrange(0, p@.len() as int) =~= x@.take(p@.len() as int));
        }
    }
    matches_at(&x, 0, &p)
}

pub fn ends_with(text: &str, suffix: &str) -> (res: bool)
    ensures
        res == has_suffix(text@, suffix@),
{
    let x = characters(text);
    let p = characters(suffix);
    if p.len() > x.len() {
        return false;
    }
    assert(x@.subrange(x@.len() - p@.len(), x@.len() - p@.len() + p@.len()) =~= x@.skip(
        x@.len() - p@.len(),
    ));
    matches_at(&x, x.len() - p.len(), &p)
}

pub fn strip_prefix(text: &str, prefix: &str) -> (res: Option<String>)
    ensures
        match res {
            Some(rest) => drop_prefix(text@, prefix@) == Some(rest@),
            None => drop_prefix(text@, prefix@) is None,
        },
{
    if starts_with(text, prefix) {
        let x = characters(text);
        let p = characters(prefix);
        let rest = from_range(&x, p.len(), x.len());
        assert(rest@ =~= text@.skip(prefix@.len() as int));
        Some(rest)
    } else {
        None
    }
}

pub fn strip_suffix(text: &str, suffix: &str) -> (res: Option<String>)
    ensures
        match res {
            Some(rest) => drop_suffix(text@, suffix@) == Some(rest@),
            None => drop_suffix(text@, suffix@) is None,
        },
{
    if ends_with(text, suffix) {
        let x = characters(text);
        let p = characters(suffix);
        let rest = from_range(&x, 0, x.len() - p.len());
        assert(rest@ =~= text@.take(text@.len() - suffix@.len()));
        Some(rest)
    } else {
        None
    }
}

/// The position of the first `c`, or the length where there is none.
pub open spec fn position(s: Seq<char>, c: char) -> int
    decreases s.len(),
{
    if s.len() == 0 || s[0] == c {
        0
    } else {
        1 + position(s.drop_first(), c)
    }
}

/// What `position` means: no earlier `c`, and a `c` there unless it is the end.
pub proof fn lemma_position(s: Seq<char>, c: char)
    ensures
        0 <= position(s, c) <= s.len(),
        forall|j: int| 0 <= j < position(s, c) ==> s[j] != c,
        position(s, c) < s.len() ==> s[position(s, c)] == c,
        s.contains(c) <==> position(s, c) < s.len(),
    decreases s.len(),
{
    if s.len() > 0 && s[0] != c {
        lemma_position(s.drop_first(), c);
        assert forall|j: int| 0 <= j < position(s, c) implies s[j] != c by {
            if j > 0 {
                assert(s.drop_first()[j - 1] == s[j]);
            }
        }
        assert(s.contains(c) <==> position(s, c) < s.len()) by {
            if s.contains(c) {
                let j = choose|j: int| 0 <= j < s.len() && s[j] == c;
                assert(s.drop_first()[j - 1] == c);
            }
            if position(s, c) < s.len() {
                assert(s[position(s, c)] == c);
            }
        }
    } else if s.len() > 0 {
        assert(s[0] == c);
    }
}

/// The first position at or after `from` that holds `c`, or the length.
fn find_from(x: &Vec<char>, from: usize, c: char) -> (res: usize)
    requires
        from <= x@.len(),
    ensures
        from <= res <= x@.len(),
        res == from + position(x@.skip(from as int), c),
{
    let mut i: usize = from;
    while i < x.len() && x[i] != c
        invariant
            from <= i <= x@.len(),
            from + position(x@.skip(from as int), c) == i + position(x@.skip(i as int), c),
        decreases x.len() - i,
    {
        assert(x@.skip(i as int).drop_first() =~= x@.skip(i + 1));
        i += 1;
    }
    i
}

pub fn has_char(text: &str, c: char) -> (res: bool)
    ensures
        res == text@.contains(c),
{
    let x = characters(text);
    proof {
        lemma_position(x@, c);
        assert(x@.skip(0) =~= x@);
    }
    find_from(&x, 0, c) < x.len()
}

/// The parts before and after the first `c`.
pub open spec fn cut(s: Seq<char>, c: char) -> Option<(Seq<char>, Seq<char>)> {
    if position(s, c) < s.len() {
        Some((s.take(position(s, c)), s.skip(position(s, c) + 1)))
    } else {
        None
    }
}

pub fn split_once(text: &str, c: char) -> (res: Option<(String, String)>)
    ensures
        match res {
            Some(parts) => cut(text@, c) == Some((parts.0@, parts.1@)),
            None => cut(text@, c) is None,
        },
{
    let x = characters(text);
    assert(x@.skip(0) =~= x@);
    let p: usize = find_from(&x, 0, c);
    if p < x.len() {
        let head = from_range(&x, 0, p);
        let tail = from_range(&x, p + 1, x.len());
        assert(head@ =~= x@.take(p as int));
        assert(tail@ =~= x@.skip(p + 1));
        Some((head, tail))
    } else {
        None
    }
}

/// The position of the first occurrence of `part`, or the length of `s` plus
/// one where there is none.
pub open spec fn part_position(s: Seq<char>, part: Seq<char>) -> int
    decreases s.len(),
{
    if has_prefix(s, part) {
        0
    } else if s.len() == 0 {
        1
    } else {
        1 + part_position(s.drop_first(), part)
    }
}

/// The parts before and after the first occurrence of `part`.
pub open spec fn cut_part(s: Seq<char>, part: Seq<char>) -> Option<(Seq<char>, Seq<char>)> {
    let p = part_position(s, part);
    if p + part.len() <= s.len() {
        Some((s.take(p), s.skip(p + part.len())))
    } else {
        None
    }
}

proof fn lemma_part_position(s: Seq<char>, part: Seq<char>)
    ensures
        0 <= part_position(s, part) <= s.len() + 1,
        part_position(s, part) <= s.len() ==> part_position(s, part) + part.len() <= s.len(),
    decreases s.len(),
{
    if !has_prefix(s, part) && s.len() > 0 {
        lemma_part_position(s.drop_first(), part);
    }
}

pub fn split_once_part(text: &str, part: &str) -> (res: Option<(String, String)>)
    ensures
        match res {
            Some(parts) => cut_part(text@, part@) == Some((parts.0@, parts.1@)),
            None => cut_part(text@, part@) is None,
        },
{
    let x = characters(text);
    let p = characters(part);
    let mut i: usize = 0;
    assert(x@.skip(0) =~= x@);
    loop
        invariant
            i <= x@.len(),
            x@ == text@,
            p@ == part@,
            part_position(x@, p@) == i + part_position(x@.skip(i as int), p@),
        decreases x.len() - i,
    {
        let found = matches_at(&x, i, &p);
        proof {
            if i + p@.len() <= x@.len() {
                assert(x@.skip(i as int).take(p@.len() as int) =~= x@.subrange(
                    i as int,
                    i + p@.len(),
                ));
            }
            lemma_part_position(x@, p@);
        }
        if found {
            let head = from_range(&x, 0, i);
            let tail = from_range(&x, i + p.len(), x.len());
            assert(head@ =~= x@.take(i as int));
            assert(tail@ =~= x@.skip(i + p@.len()));
            return Some((head, tail));
        }
        if i >= x.len() {
            assert(!has_prefix(x@.skip(i as int), p@));
            return None;
        }
        assert(x@.skip(i as int).drop_first() =~= x@.skip(i + 1));
        i += 1;
    }
}

// ---------------------------------------------------------------------------
// Splitting and joining
// ---------------------------------------------------------------------------

/// The parts between the separators; always at least one part.
pub open spec fn split(s: Seq<char>, c: char) -> Seq<Seq<char>>
    decreases s.len(),
{
    let p = position(s, c);
    if p < s.len() {
        proof {
            lemma_position(s, c);
        }
        seq![s.take(p)] + split(s.skip(p + 1), c)
    } else {
        seq![s]
    }
}

pub fn split_char(text: &str, c: char) -> (res: Vec<String>)
    ensures
        texts(res@) == split(text@, c),
        res@.len() >= 1,
{
    let x = characters(text);
    let mut res: Vec<String> = Vec::new();
    let mut i: usize = 0;
    assert(x@.skip(0) =~= x@);
    assert(texts(res@) + split(x@, c) =~= split(x@, c));
    loop
        invariant
            i <= x@.len(),
            x@ == text@,
            texts(res@) + split(x@.skip(i as int), c) == split(x@, c),
        decreases x.len() - i,
    {
        let p: usize = find_from(&x, i, c);
        let ghost rest = x@.skip(i as int);
        let ghost done = texts(res@);
        let piece = from_range(&x, i, p);
        assert(piece@ =~= rest.take(p - i));
        proof {
            lemma_position(rest, c);
            lemma_texts_push(res@, piece);
        }
        res.push(piece);
        if p >= x.len() {
            assert(rest.take(p - i) =~= rest);
            assert(done + seq![rest] =~= done.push(rest));
            return res;
        }
        assert(rest.skip(p - i + 1) =~= x@.skip(p + 1));
        assert(done + (seq![rest.take(p - i)] + split(x@.skip(p + 1), c)) =~= done.push(
            rest.take(p - i),
        ) + split(x@.skip(p + 1), c));
        i = p + 1;
    }
}

/// A line without its terminator: the part before a line feed loses one
/// carriage return at its end.
pub open spec fn chomp(s: Seq<char>) -> Seq<char> {
    if s.len() > 0 && s.last() == '\r' {
        s.drop_last()
    } else {
        s
    }
}

/// The lines of a text, as `str::lines` gives them: a final line feed starts
/// no further line, and only a carriage return before a line feed is dropped.
pub open spec fn lines(s: Seq<char>) -> Seq<Seq<char>>
    decreases s.len(),
{
    let p = position(s, '\n');
    if s.len() == 0 {
        seq![]
    } else if p < s.len() {
        proof {
            lemma_position(s, '\n');
        }
        seq![chomp(s.take(p))] + lines(s.skip(p + 1))
    } else {
        seq![s]
    }
}

pub fn split_lines(text: &str) -> (res: Vec<String>)
    ensures
        texts(res@) == lines(text@),
{
    let x = characters(text);
    let mut res: Vec<String> = Vec::new();
    let mut i: usize = 0;
    assert(x@.skip(0) =~= x@);
    assert(texts(res@) + lines(x@) =~= lines(x@));
    proof {
        lemma_position(x@, '\n');
    }
    while i < x.len()
        invariant
            i <= x@.len(),
            x@ == text@,
            texts(res@) + lines(x@.skip(i as int)) == lines(x@),
        decreases x.len() - i,
    {
        let p: usize = find_from(&x, i, '\n');
        let ghost rest = x@.skip(i as int);
        let ghost done = texts(res@);
        proof {
            lemma_position(rest, '\n');
        }
        if p >= x.len() {
            let piece = from_range(&x, i, p);
            assert(piece@ =~= rest);
            proof {
                lemma_texts_push(res@, piece);
            }
            res.push(piece);
            assert(done + seq![rest] =~= done.push(rest));
            return res;
        }
        let mut end: usize = p;
        if p > i && x[p - 1] == '\r' {
            end = p - 1;
        }
        let piece = from_range(&x, i, end);
        assert(piece@ =~= chomp(rest.take(p - i)));
        proof {
            lemma_texts_push(res@, piece);
        }
        res.push(piece);
        assert(rest.skip(p - i + 1) =~= x@.skip(p + 1));
        assert(done + (seq![chomp(rest.take(p - i))] + lines(x@.skip(p + 1))) =~= done.push(
            chomp(rest.take(p - i)),
        ) + lines(x@.skip(p + 1)));
        i = p + 1;
    }
    assert(x@.skip(i as int) =~= seq![]);
    assert(lines(seq![]) =~= seq![]);
    assert(texts(res@) + lines(x@.skip(i as int)) =~= texts(res@));
    res
}

/// The parts with the separator between them.
pub open spec fn join(parts: Seq<Seq<char>>, sep: Seq<char>) -> Seq<char>
    decreases parts.len(),
{
    if parts.len() == 0 {
        seq![]
    } else if parts.len() == 1 {
        parts[0]
    } else {
        join(parts.drop_last(), sep) + sep + parts.last()
    }
}

pub fn joined(parts: &Vec<String>, sep: &str) -> (res: String)
    ensures
        res@ == join(texts(parts@), sep@),
{
    let mut res = String::new();
    let mut i: usize = 0;
    while i < parts.len()
        invariant
            i <= parts@.len(),
            res@ == join(texts(parts@).take(i as int), sep@),
        decreases parts.len() - i,
    {
        let ghost all = texts(parts@);
        assert(all.take(i + 1).drop_last() =~= all.take(i as int));
        if i > 0 {
            res.append(sep);
            res.append(parts[i].as_str());
        } else {
            res = parts[i].clone();
        }
        i += 1;
    }
    assert(texts(parts@).take(i as int) =~= texts(parts@));
    res
}

/// The first word of a text: the characters up to white space, after leading
/// white space.
pub open spec fn until_space(s: Seq<char>) -> Seq<char>
    decreases s.len(),
{
    if s.len() == 0 || is_space(s[0]) {
        seq![]
    } else {
        seq![s[0]] + until_space(s.drop_first())
    }
}

pub open spec fn first_word(s: Seq<char>) -> Seq<char> {
    until_space(trim_start(s))
}

pub fn word(text: &str) -> (res: String)
    ensures
        res@ == first_word(text@),
{
    let (_, rest) = split_indentation(text);
    let x = characters(rest.as_str());
    let mut res = String::new();
    let mut i: usize = 0;
    assert(x@.skip(0) =~= x@);
    assert(res@ + until_space(x@) =~= until_space(x@));
    while i < x.len() && !is_whitespace(x[i])
        invariant
            i <= x@.len(),
            res@ + until_space(x@.skip(i as int)) == until_space(x@),
        decreases x.len() - i,
    {
        assert(x@.skip(i as int).drop_first() =~= x@.skip(i + 1));
        assert(res@ + (seq![x@[i as int]] + until_space(x@.skip(i + 1))) =~= res@.push(
            x@[i as int],
        ) + until_space(x@.skip(i + 1)));
        res.push(x[i]);
        i += 1;
    }
    assert(res@ + Seq::<char>::empty() =~= res@);
    res
}

/// Every occurrence of `part`, from the left and without overlaps, replaced.
pub open spec fn replace(s: Seq<char>, part: Seq<char>, by: Seq<char>) -> Seq<char>
    decreases s.len(),
{
    if part.len() == 0 {
        if s.len() == 0 {
            by
        } else {
            by + seq![s[0]] + replace(s.drop_first(), part, by)
        }
    } else if has_prefix(s, part) {
        by + replace(s.skip(part.len() as int), part, by)
    } else if s.len() == 0 {
        s
    } else {
        seq![s[0]] + replace(s.drop_first(), part, by)
    }
}

pub fn replaced(text: &str, part: &str, by: &str) -> (res: String)
    ensures
        res@ == replace(text@, part@, by@),
{
    let x = characters(text);
    let p = characters(part);
    let mut res = String::new();
    let mut i: usize = 0;
    assert(x@.skip(0) =~= x@);
    assert(res@ + replace(x@, p@, by@) =~= replace(x@, p@, by@));
    while i < x.len()
        invariant
            i <= x@.len(),
            x@ == text@,
            p@ == part@,
            res@ + replace(x@.skip(i as int), p@, by@) == replace(x@, p@, by@),
        decreases x.len() - i,
    {
        let ghost rest = x@.skip(i as int);
        let ghost done = res@;
        assert(rest.drop_first() =~= x@.skip(i + 1));
        if p.len() == 0 {
            res.append(by);
            res.push(x[i]);
            assert(done + (by@ + seq![rest[0]] + replace(x@.skip(i + 1), p@, by@)) =~= res@
                + replace(x@.skip(i + 1), p@, by@));
            i += 1;
        } else {
            let found = matches_at(&x, i, &p);
            proof {
                if i + p@.len() <= x@.len() {
                    assert(rest.take(p@.len() as int) =~= x@.subrange(i as int, i + p@.len()));
                    assert(rest.skip(p@.len() as int) =~= x@.skip(i + p@.len()));
                }
            }
            if found {
                res.append(by);
                assert(done + (by@ + replace(x@.skip(i + p@.len()), p@, by@)) =~= res@ + replace(
                    x@.skip(i + p@.len()),
                    p@,
                    by@,
                ));
                i += p.len();
            } else {
                res.push(x[i]);
                assert(done + (seq![rest[0]] + replace(x@.skip(i + 1), p@, by@)) =~= res@ + replace(
                    x@.skip(i + 1),
                    p@,
                    by@,
                ));
                i += 1;
            }
        }
    }
    assert(x@.skip(i as int) =~= Seq::<char>::empty());
    if p.len() == 0 {
        res.append(by);
    } else {
        assert(res@ + Seq::<char>::empty() =~= res@);
    }
    res
}

// ---------------------------------------------------------------------------
// Numbers
// ---------------------------------------------------------------------------

pub open spec fn digit(d: int) -> char {
    ('0' as int + d) as char
}

/// The decimal numeral of a number.
pub open spec fn decimal(n: nat) -> Seq<char>
    decreases n,
{
    if n < 10 {
        seq![digit(n as int)]
    } else {
        decimal(n / 10).push(digit((n % 10) as int))
    }
}

fn digit_char(d: u64) -> (res: char)
    requires
        d < 10,
    ensures
        res == digit(d as int),
{
    (48u8 + d as u8) as char
}

pub fn number(n: u64) -> (res: String)
    ensures
        res@ == decimal(n as nat),
    decreases n,
{
    if n < 10 {
        let mut res = String::new();
        res.push(digit_char(n));
        assert(res@ =~= seq![digit(n as int)]);
        res
    } else {
        let mut res = number(n / 10);
        res.push(digit_char(n % 10));
        res
    }
}

/// The decimal numeral of a number, with zeros in front up to `width`.
pub open spec fn padded(n: nat, width: nat) -> Seq<char>
    decreases width,
{
    if width <= 1 {
        decimal(n)
    } else {
        padded(n / 10, (width - 1) as nat).push(digit((n % 10) as int))
    }
}

pub fn zero_padded(n: u64, width: u64) -> (res: String)
    ensures
        res@ == padded(n as nat, width as nat),
    decreases width,
{
    if width <= 1 {
        number(n)
    } else {
        let mut res = zero_padded(n / 10, width - 1);
        res.push(digit_char(n % 10));
        res
    }
}

pub open spec fn is_digit(c: char) -> bool {
    '0' <= c <= '9'
}

pub open spec fn all_digits(s: Seq<char>) -> bool {
    forall|i: int| 0 <= i < s.len() ==> is_digit(#[trigger] s[i])
}

/// The value of a string of decimal digits.
pub open spec fn digits_value(s: Seq<char>) -> nat
    decreases s.len(),
{
    if s.len() == 0 {
        0
    } else {
        digits_value(s.drop_last()) * 10 + (s.last() as int - '0' as int) as nat
    }
}

proof fn lemma_digits_grow(s: Seq<char>, n: int)
    requires
        0 <= n <= s.len(),
    ensures
        digits_value(s.take(n)) <= digits_value(s),
    decreases s.len(),
{
    if n == s.len() {
        assert(s.take(n) =~= s);
    } else {
        lemma_digits_grow(s.drop_last(), n);
        assert(s.drop_last().take(n) =~= s.take(n));
    }
}

/// One or more digits whose value is at most `max`.
pub open spec fn parse_digits(s: Seq<char>, max: nat) -> Option<nat> {
    if s.len() > 0 && all_digits(s) && digits_value(s) <= max {
        Some(digits_value(s))
    } else {
        None
    }
}

/// An unsigned decimal number with an optional plus sign, as the integer
/// types of the standard library parse it.
pub open spec fn parse_unsigned(s: Seq<char>, max: nat) -> Option<nat> {
    if s.len() > 0 && s[0] == '+' {
        parse_digits(s.drop_first(), max)
    } else {
        parse_digits(s, max)
    }
}

/// A signed decimal number with an optional sign in the range of `i64`.
pub open spec fn parse_signed(s: Seq<char>) -> Option<int> {
    if s.len() > 0 && s[0] == '-' {
        match parse_digits(s.drop_first(), 0x8000_0000_0000_0000) {
            Some(n) => Some(-(n as int)),
            None => None,
        }
    } else {
        match parse_unsigned(s, i64::MAX as nat) {
            Some(n) => Some(n as int),
            None => None,
        }
    }
}

fn read_digits(x: &Vec<char>, from: usize, max: u64) -> (res: Option<u64>)
    requires
        from <= x@.len(),
    ensures
        match res {
            Some(n) => parse_digits(x@.skip(from as int), max as nat) == Some(n as nat),
            None => parse_digits(x@.skip(from as int), max as nat) is None,
        },
{
    let ghost s = x@.skip(from as int);
    if from >= x.len() {
        return None;
    }
    let mut value: u64 = 0;
    let mut i: usize = from;
    while i < x.len()
        invariant
            from <= i <= x@.len(),
            s == x@.skip(from as int),
            value <= max,
            all_digits(s.take(i - from)),
            value == digits_value(s.take(i - from)),
        decreases x.len() - i,
    {
        let c = x[i];
        assert(s[i - from] == c);
        if !('0' <= c && c <= '9') {
            return None;
        }
        let wide: u128 = value as u128 * 10 + (c as u8 - 48) as u128;
        assert(s.take(i - from + 1).drop_last() =~= s.take(i - from));
        assert(wide == digits_value(s.take(i - from + 1)));
        if wide > max as u128 {
            proof {
                lemma_digits_grow(s, i - from + 1);
            }
            return None;
        }
        value = wide as u64;
        i += 1;
    }
    assert(s.take(i - from) =~= s);
    Some(value)
}

pub fn unsigned(text: &str, max: u64) -> (res: Option<u64>)
    ensures
        match res {
            Some(n) => parse_unsigned(text@, max as nat) == Some(n as nat),
            None => parse_unsigned(text@, max as nat) is None,
        },
        res matches Some(n) ==> n <= max,
{
    let x = characters(text);
    if x.len() > 0 && x[0] == '+' {
        assert(x@.skip(1) =~= x@.drop_first());
        read_digits(&x, 1, max)
    } else {
        assert(x@.skip(0) =~= x@);
        read_digits(&x, 0, max)
    }
}

pub fn signed(text: &str) -> (res: Option<i64>)
    ensures
        match res {
            Some(n) => parse_signed(text@) == Some(n as int),
            None => parse_signed(text@) is None,
        },
{
    let x = characters(text);
    if x.len() > 0 && x[0] == '-' {
        assert(x@.skip(1) =~= x@.drop_first());
        match read_digits(&x, 1, 0x8000_0000_0000_0000) {
            Some(n) => {
                if n == 0x8000_0000_0000_0000 {
                    Some(i64::MIN)
                } else {
                    Some(-(n as i64))
                }
            },
            None => None,
        }
    } else {
        match unsigned(text, i64::MAX as u64) {
            Some(n) => Some(n as i64),
            None => None,
        }
    }
}

} // verus!
