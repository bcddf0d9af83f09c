//! The environment file beside a configuration: values for variables that the
//! process environment does not set.
use vstd::prelude::*;

use crate::names::{put, NameMap};
use crate::text::{characters, cut, from_range, has_prefix, lines, split_lines, split_once, starts_with, texts, trim, trimmed};
use crate::webhook::{is_portable, is_portable_environment_name};

verus! {

/// Whether a text stands between two of these quotes.
pub open spec fn in_quotes(text: Seq<char>, quote: char) -> bool {
    text.len() >= 2 && text[0] == quote && text.last() == quote
}

/// A value without the quotes around it.
pub open spec fn unquoted(text: Seq<char>) -> Seq<char> {
    if in_quotes(text, '\'') || in_quotes(text, '"') {
        text.subrange(1, text.len() - 1)
    } else {
        text
    }
}

fn without_quotes(text: &str) -> (res: String)
    ensures
        res@ == unquoted(text@),
{
    let x = characters(text);
    let n: usize = x.len();
    if n >= 2 && (x[0] == '\'' && x[n - 1] == '\'' || x[0] == '"' && x[n - 1] == '"') {
        from_range(&x, 1, n - 1)
    } else {
        text.to_owned()
    }
}

/// The name and the value of an assignment: `NAME=value`, with or without
/// quotes around the value. Other lines assign nothing.
pub open spec fn assignment(line: Seq<char>) -> Option<(Seq<char>, Seq<char>)> {
    let text = trim(line);
    if has_prefix(text, "#"@) {
        None
    } else {
        match cut(text, '=') {
            None => None,
            Some((name, value)) => if is_portable(trim(name)) {
                Some((trim(name), unquoted(trim(value))))
            } else {
                None
            },
        }
    }
}

pub open spec fn optional_pair(pair: Option<(String, String)>) -> Option<(Seq<char>, Seq<char>)> {
    match pair {
        Some((name, value)) => Some((name@, value@)),
        None => None,
    }
}

pub fn parse_assignment(line: &str) -> (res: Option<(String, String)>)
    ensures
        optional_pair(res) == assignment(line@),
{
    let text = trimmed(line);
    if starts_with(text.as_str(), "#") {
        return None;
    }
    match split_once(text.as_str(), '=') {
        None => None,
        Some((name, value)) => {
            let name = trimmed(name.as_str());
            if is_portable_environment_name(name.as_str()) {
                Some((name, without_quotes(trimmed(value.as_str()).as_str())))
            } else {
                None
            }
        },
    }
}

/// The values that the lines from `i` on assign; a later assignment replaces
/// an earlier one.
pub open spec fn assigned(
    source: Seq<Seq<char>>,
    i: int,
    values: Seq<(Seq<char>, Seq<char>)>,
) -> Seq<(Seq<char>, Seq<char>)>
    decreases source.len() - i,
{
    if i >= source.len() {
        values
    } else {
        assigned(
            source,
            i + 1,
            match assignment(source[i]) {
                Some((name, value)) => put(values, name, value),
                None => values,
            },
        )
    }
}

/// Reads an environment file.
pub fn parse_environment(raw: &str) -> (res: NameMap<String>)
    ensures
        res@ == assigned(lines(raw@), 0, Seq::empty()),
{
    let source = split_lines(raw);
    let ghost all = lines(raw@);
    let mut values: NameMap<String> = NameMap::new();
    let mut i: usize = 0;
    while i < source.len()
        invariant
            i <= source@.len(),
            all == lines(raw@),
            texts(source@) == all,
            assigned(all, 0, Seq::empty()) == assigned(all, i as int, values@),
        decreases source.len() - i,
    {
        assert(all[i as int] == source@[i as int]@);
        if let Some((name, value)) = parse_assignment(source[i].as_str()) {
            values.insert(name, value);
        }
        i += 1;
    }
    values
}

/// The part of a path up to its last slash.
pub open spec fn directory(path: Seq<char>) -> Seq<char>
    decreases path.len(),
{
    if path.len() == 0 || path.last() == '/' {
        path
    } else {
        directory(path.drop_last())
    }
}

/// The environment file that belongs to a configuration: `webhooks.env` in the
/// same directory.
pub fn environment_file_for_config(config: &str) -> (res: String)
    ensures
        res@ == directory(config@) + "webhooks.env"@,
{
    let x = characters(config);
    let mut n: usize = x.len();
    assert(x@.take(n as int) =~= x@);
    while n > 0 && x[n - 1] != '/'
        invariant
            n <= x@.len(),
            x@ == config@,
            directory(config@) == directory(x@.take(n as int)),
        decreases n,
    {
        assert(x@.take(n as int).drop_last() =~= x@.take(n - 1));
        n -= 1;
    }
    let mut res = from_range(&x, 0, n);
    assert(x@.subrange(0, n as int) =~= x@.take(n as int));
    res.append("webhooks.env");
    res
}

} // verus!
