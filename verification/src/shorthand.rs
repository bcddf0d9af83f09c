//! The shorthands of the configuration file: bare dataset headers, template
//! headers, and bare template names.
use vstd::prelude::*;

use crate::document::{document_of, find, find_entry, lemma_model, parse_document, quote_toml, toml_text, Toml, TomlModel};
use crate::error::{error, on_top, plain, yields, Error, Fault};
use crate::text::{characters, cut, decimal, drop_prefix, from_range, has_char, has_prefix, is_alphanumeric, is_ascii_alphanumeric, is_space, join, joined, lemma_position, lemma_texts_push, lines, number, same, split, split_char, split_indentation, split_lines, split_once, starts_with, strip_prefix, texts, trim, trim_end, trim_start, trimmed};
use crate::webhook::optional_text;

verus! {

/// The characters of a template name that needs no quotes.
pub open spec fn is_bare(c: char) -> bool {
    is_alphanumeric(c) || c == '-' || c == '_'
}

pub open spec fn all_bare(name: Seq<char>) -> bool {
    forall|i: int| 0 <= i < name.len() ==> is_bare(#[trigger] name[i])
}

fn is_bare_template_character(c: char) -> (res: bool)
    ensures
        res == is_bare(c),
{
    is_ascii_alphanumeric(c) || c == '-' || c == '_'
}

pub fn has_only_bare_characters(name: &str) -> (res: bool)
    ensures
        res == all_bare(name@),
{
    let x = characters(name);
    let mut i: usize = 0;
    while i < x.len()
        invariant
            i <= x@.len(),
            x@ == name@,
            forall|j: int| 0 <= j < i ==> is_bare(#[trigger] x@[j]),
        decreases x.len() - i,
    {
        if !is_bare_template_character(x[i]) {
            return false;
        }
        i += 1;
    }
    true
}

/// A text in brackets, cut at the first closing one: what the brackets hold,
/// and what follows them.
pub open spec fn bracketed(line: Seq<char>) -> Option<(Seq<char>, Seq<char>)> {
    if !has_prefix(line, "["@) {
        None
    } else {
        match cut(line, ']') {
            None => None,
            Some((before_close, after_close)) => Some(
                (before_close.skip(1), trim(after_close)),
            ),
        }
    }
}

fn split_brackets(line: &str) -> (res: Option<(String, String)>)
    ensures
        match res {
            Some((inside, trailing)) => bracketed(line@) == Some((inside@, trailing@)),
            None => bracketed(line@) is None,
        },
{
    if !starts_with(line, "[") {
        return None;
    }
    match split_once(line, ']') {
        None => None,
        Some((before_close, after_close)) => {
            proof {
                lemma_opening_bracket(line@);
            }
            let x = characters(before_close.as_str());
            let inside = from_range(&x, 1, x.len());
            assert(inside@ =~= before_close@.skip(1));
            Some((inside, trimmed(after_close.as_str())))
        },
    }
}

/// The opening bracket stands before the closing one.
proof fn lemma_opening_bracket(line: Seq<char>)
    requires
        has_prefix(line, "["@),
    ensures
        cut(line, ']') matches Some((before_close, _)) ==> before_close.len() >= 1,
{
    reveal_strlit("[");
    lemma_position(line, ']');
    assert(line.take(1)[0] == '[');
    assert(line[0] == '[');
}

/// Nothing or a comment may follow a header or a list.
pub open spec fn is_trailer(text: Seq<char>) -> bool {
    text.len() == 0 || has_prefix(text, "#"@)
}

/// A comment, set off by a space.
pub open spec fn comment(text: Seq<char>) -> Seq<char> {
    if text.len() == 0 {
        ""@
    } else {
        " "@ + text
    }
}

fn is_trailing_comment(text: &str) -> (res: bool)
    ensures
        res == is_trailer(text@),
{
    text.is_empty() || starts_with(text, "#")
}

fn comment_after(text: &str) -> (res: String)
    ensures
        res@ == comment(text@),
{
    if text.is_empty() {
        "".to_owned()
    } else {
        let mut spaced = " ".to_owned();
        spaced.append(text);
        spaced
    }
}

/// An error about a line.
pub open spec fn line_message(at: nat, text: Seq<char>) -> Seq<char> {
    "line "@ + decimal(at) + text
}

fn line_text(at: usize, text: &str) -> (res: String)
    ensures
        res@ == line_message(at as nat, text@),
{
    let mut message = "line ".to_owned();
    message.append(number(at as u64).as_str());
    message.append(text);
    message
}

fn line_error(at: usize, text: &str) -> (res: Error)
    ensures
        res@ == plain(line_message(at as nat, text@)),
{
    Error::new(line_text(at, text))
}

/// An optional text or a message, as a specification gives it.
pub open spec fn offers(
    res: Result<Option<String>, Error>,
    expected: Result<Option<Seq<char>>, Fault>,
) -> bool {
    match (res, expected) {
        (Ok(text), Ok(model)) => optional_text(text) == model,
        (Err(e), Err(message)) => e@ == message,
        _ => false,
    }
}

/// `[template_NAME]` as the header of a table under `templates`; nothing where
/// the line is something else.
pub open spec fn template_header(line: Seq<char>, at: nat) -> Result<Option<Seq<char>>, Fault> {
    if has_prefix(line, "[["@) {
        Ok(None)
    } else {
        match bracketed(line) {
            None => Ok(None),
            Some((inside, trailing)) => match drop_prefix(trim(inside), "template_"@) {
                None => Ok(None),
                Some(name) => if name.contains('/') || !is_trailer(trailing) {
                    Ok(None)
                } else if name.len() == 0 || !all_bare(name) {
                    Err(plain(
                        line_message(
                            at,
                            ": template headers must use [template_NAME], where NAME contains only ASCII letters, numbers, '-' and '_'"@,
                        ),
                    ))
                } else {
                    Ok(Some("[templates."@ + toml_text(name) + "]"@ + comment(trailing)))
                },
            },
        }
    }
}

pub fn friendly_template_header(line: &str, at: usize) -> (res: Result<Option<String>, Error>)
    ensures
        offers(res, template_header(line@, at as nat)),
{
    if starts_with(line, "[[") {
        return Ok(None);
    }
    let (inside, trailing) = match split_brackets(line) {
        Some(parts) => parts,
        None => {
            return Ok(None);
        },
    };
    let name = match strip_prefix(trimmed(inside.as_str()).as_str(), "template_") {
        Some(name) => name,
        None => {
            return Ok(None);
        },
    };
    if has_char(name.as_str(), '/') || !is_trailing_comment(trailing.as_str()) {
        return Ok(None);
    }
    if name.as_str().is_empty() || !has_only_bare_characters(name.as_str()) {
        return Err(
            line_error(
                at,
                ": template headers must use [template_NAME], where NAME contains only ASCII letters, numbers, '-' and '_'",
            ),
        );
    }
    let mut header = "[templates.".to_owned();
    header.append(quote_toml(name.as_str()).as_str());
    header.append("]");
    header.append(comment_after(trailing.as_str()).as_str());
    Ok(Some(header))
}

/// The names of the other tables, which no bare dataset header can have.
pub open spec fn is_reserved(name: Seq<char>) -> bool {
    ||| is_under(name, "settings"@)
    ||| is_under(name, "notifications"@)
    ||| is_under(name, "templates"@)
    ||| is_under(name, "datasets"@)
    ||| is_under(name, "version"@)
}

pub open spec fn is_under(name: Seq<char>, table: Seq<char>) -> bool {
    name == table || has_prefix(name, table + "."@)
}

fn names_table(name: &str, table: &str) -> (res: bool)
    ensures
        res == is_under(name@, table@),
{
    let mut prefix = table.to_owned();
    prefix.append(".");
    same(name, table) || starts_with(name, prefix.as_str())
}

pub fn is_reserved_config_header(name: &str) -> (res: bool)
    ensures
        res == is_reserved(name@),
{
    names_table(name, "settings") || names_table(name, "notifications") || names_table(
        name,
        "templates",
    ) || names_table(name, "datasets") || names_table(name, "version")
}

/// The dataset that a quoted header names, from the document that assigns the
/// quoted name to the key `dataset`.
pub open spec fn dataset_in(document: Result<TomlModel, Fault>, at: nat) -> Result<
    Seq<char>,
    Fault,
> {
    match document {
        Err(beneath) => Err(
            on_top(line_message(at, ": invalid quoted dataset section name"@), beneath),
        ),
        Ok(TomlModel::Table(entries)) => match find(entries, "dataset"@) {
            Some(TomlModel::Text(name)) => Ok(name),
            _ => Err(plain("quoted dataset section name must be a string"@)),
        },
        Ok(_) => Err(plain("quoted dataset section name must be a string"@)),
    }
}

/// The model of a document or its error.
pub open spec fn outcome(document: Result<Toml, Error>) -> Result<TomlModel, Fault> {
    match document {
        Ok(value) => Ok(value@),
        Err(e) => Err(e@),
    }
}

pub fn quoted_dataset(document: Result<Toml, Error>, at: usize) -> (res: Result<String, Error>)
    ensures
        yields(res, dataset_in(outcome(document), at as nat)),
{
    match document {
        Err(e) => Err(
            Error::on_top_of(line_text(at, ": invalid quoted dataset section name"), &e),
        ),
        Ok(value) => {
            proof {
                lemma_model(value);
            }
            if let Toml::Table(entries) = &value {
                if let Some(Toml::Text(name)) = find_entry(entries, "dataset") {
                    return Ok(name.clone());
                }
            }
            Err(error("quoted dataset section name must be a string"))
        },
    }
}

/// The dataset that a header names: the text itself, or the text between
/// quotes.
pub open spec fn dataset_named(name: Seq<char>, at: nat) -> Result<Seq<char>, Fault> {
    if has_prefix(name, "\""@) || has_prefix(name, "'"@) {
        dataset_in(document_of("dataset = "@ + name), at)
    } else {
        Ok(name)
    }
}

/// `[NAME]` as the header of a table under `datasets`; nothing where the line
/// is something else.
pub open spec fn dataset_header(line: Seq<char>, at: nat) -> Result<Option<Seq<char>>, Fault> {
    if has_prefix(line, "[["@) {
        Ok(None)
    } else {
        match bracketed(line) {
            None => Ok(None),
            Some((inside, trailing)) => if is_reserved(trim(inside)) || !is_trailer(trailing) {
                Ok(None)
            } else {
                match dataset_named(trim(inside), at) {
                    Err(message) => Err(message),
                    Ok(dataset) => Ok(
                        Some("[datasets."@ + toml_text(dataset) + "]"@ + comment(trailing)),
                    ),
                }
            },
        }
    }
}

pub fn friendly_dataset_header(line: &str, at: usize) -> (res: Result<Option<String>, Error>)
    ensures
        offers(res, dataset_header(line@, at as nat)),
{
    if starts_with(line, "[[") {
        return Ok(None);
    }
    let (inside, trailing) = match split_brackets(line) {
        Some(parts) => parts,
        None => {
            return Ok(None);
        },
    };
    let name = trimmed(inside.as_str());
    if is_reserved_config_header(name.as_str()) || !is_trailing_comment(trailing.as_str()) {
        return Ok(None);
    }
    let dataset = if starts_with(name.as_str(), "\"") || starts_with(name.as_str(), "'") {
        let mut probe = "dataset = ".to_owned();
        probe.append(name.as_str());
        match quoted_dataset(parse_document(probe.as_str()), at) {
            Ok(dataset) => dataset,
            Err(e) => {
                return Err(e);
            },
        }
    } else {
        name
    };
    let mut header = "[datasets.".to_owned();
    header.append(quote_toml(dataset.as_str()).as_str());
    header.append("]");
    header.append(comment_after(trailing.as_str()).as_str());
    Ok(Some(header))
}

/// The names of a bare list, quoted, from name `i` on.
pub open spec fn quoted_names(names: Seq<Seq<char>>, at: nat, i: int, done: Seq<Seq<char>>) -> Result<
    Seq<Seq<char>>,
    Fault,
>
    decreases names.len() - i,
{
    if i >= names.len() {
        Ok(done)
    } else {
        let name = trim(names[i]);
        if name.len() == 0 || !all_bare(name) {
            Err(plain(
                line_message(
                    at,
                    ": bare template names may contain only ASCII letters, numbers, '-' and '_'"@,
                ),
            ))
        } else {
            quoted_names(names, at, i + 1, done.push(toml_text(name)))
        }
    }
}

fn quote_names(list: &str, at: usize) -> (res: Result<Vec<String>, Error>)
    ensures
        match (res, quoted_names(split(list@, ','), at as nat, 0, Seq::empty())) {
            (Ok(names), Ok(expected)) => texts(names@) == expected,
            (Err(e), Err(message)) => e@ == message,
            _ => false,
        },
{
    let names = split_char(list, ',');
    let ghost all = split(list@, ',');
    let mut done: Vec<String> = Vec::new();
    let mut i: usize = 0;
    assert(texts(done@) =~= Seq::<Seq<char>>::empty());
    while i < names.len()
        invariant
            i <= names@.len(),
            texts(names@) == all,
            all == split(list@, ','),
            quoted_names(all, at as nat, 0, Seq::empty()) == quoted_names(
                all,
                at as nat,
                i as int,
                texts(done@),
            ),
        decreases names.len() - i,
    {
        assert(all[i as int] == names@[i as int]@);
        let name = trimmed(names[i].as_str());
        if name.as_str().is_empty() || !has_only_bare_characters(name.as_str()) {
            return Err(
                line_error(
                    at,
                    ": bare template names may contain only ASCII letters, numbers, '-' and '_'",
                ),
            );
        }
        let quoted = quote_toml(name.as_str());
        proof {
            lemma_texts_push(done@, quoted);
        }
        done.push(quoted);
        i += 1;
    }
    Ok(done)
}

/// The white space at the start of a line.
pub open spec fn indentation(line: Seq<char>) -> Seq<char> {
    line.take(line.len() - trim_start(line).len())
}

/// A list of bare template names as a list of strings; nothing where the line
/// is something else.
pub open spec fn template_list(line: Seq<char>, at: nat) -> Result<Option<Seq<char>>, Fault> {
    match cut(trim_start(line), '=') {
        None => Ok(None),
        Some((key, value)) => {
            let key = trim(key);
            if !(key == "use_templates"@ || key == "use_template"@) {
                Ok(None)
            } else {
                match bracketed(trim(value)) {
                    None => Ok(None),
                    Some((names, trailing)) => if names.contains('"') || names.contains('\'')
                        || !is_trailer(trailing) || trim(names).len() == 0 {
                        Ok(None)
                    } else {
                        match quoted_names(split(names, ','), at, 0, Seq::empty()) {
                            Err(message) => Err(message),
                            Ok(quoted) => Ok(
                                Some(
                                    indentation(line) + key + " = ["@ + join(quoted, ", "@)
                                        + "]"@ + comment(trailing),
                                ),
                            ),
                        }
                    },
                }
            }
        },
    }
}

pub fn friendly_template_list(line: &str, at: usize) -> (res: Result<Option<String>, Error>)
    ensures
        offers(res, template_list(line@, at as nat)),
{
    let (space, content) = split_indentation(line);
    assert(space@ =~= indentation(line@)) by {
        assert((space@ + content@).take(space@.len() as int) =~= space@);
    }
    let (key, value) = match split_once(content.as_str(), '=') {
        Some(parts) => parts,
        None => {
            return Ok(None);
        },
    };
    let key = trimmed(key.as_str());
    if !(same(key.as_str(), "use_templates") || same(key.as_str(), "use_template")) {
        return Ok(None);
    }
    let (names, trailing) = match split_brackets(trimmed(value.as_str()).as_str()) {
        Some(parts) => parts,
        None => {
            return Ok(None);
        },
    };
    if has_char(names.as_str(), '"') || has_char(names.as_str(), '\'') || !is_trailing_comment(
        trailing.as_str(),
    ) || trimmed(names.as_str()).as_str().is_empty() {
        return Ok(None);
    }
    let quoted = match quote_names(names.as_str(), at) {
        Ok(quoted) => quoted,
        Err(e) => {
            return Err(e);
        },
    };
    let mut list = space;
    list.append(key.as_str());
    list.append(" = [");
    list.append(joined(&quoted, ", ").as_str());
    list.append("]");
    list.append(comment_after(trailing.as_str()).as_str());
    Ok(Some(list))
}

/// A line without shorthand.
pub open spec fn expanded_line(line: Seq<char>, at: nat) -> Result<Seq<char>, Fault> {
    match template_header(trim(line), at) {
        Err(message) => Err(message),
        Ok(Some(header)) => Ok(header),
        Ok(None) => match dataset_header(trim(line), at) {
            Err(message) => Err(message),
            Ok(Some(header)) => Ok(header),
            Ok(None) => match template_list(line, at) {
                Err(message) => Err(message),
                Ok(Some(list)) => Ok(list),
                Ok(None) => Ok(line),
            },
        },
    }
}

fn expand_line(line: &String, at: usize) -> (res: Result<String, Error>)
    ensures
        yields(res, expanded_line(line@, at as nat)),
{
    let content = trimmed(line.as_str());
    match friendly_template_header(content.as_str(), at) {
        Err(e) => {
            return Err(e);
        },
        Ok(Some(header)) => {
            return Ok(header);
        },
        Ok(None) => {},
    }
    match friendly_dataset_header(content.as_str(), at) {
        Err(e) => {
            return Err(e);
        },
        Ok(Some(header)) => {
            return Ok(header);
        },
        Ok(None) => {},
    }
    match friendly_template_list(line.as_str(), at) {
        Err(e) => Err(e),
        Ok(Some(list)) => Ok(list),
        Ok(None) => Ok(line.clone()),
    }
}

/// The lines from `i` on without shorthand, after the text before them.
pub open spec fn expanded_from(source: Seq<Seq<char>>, i: int, done: Seq<char>) -> Result<
    Seq<char>,
    Fault,
>
    decreases source.len() - i,
{
    if i >= source.len() {
        Ok(done)
    } else {
        match expanded_line(source[i], (i + 1) as nat) {
            Err(message) => Err(message),
            Ok(line) => expanded_from(source, i + 1, done + line + "\n"@),
        }
    }
}

/// A configuration without shorthand.
pub open spec fn expanded(raw: Seq<char>) -> Result<Seq<char>, Fault> {
    expanded_from(lines(raw), 0, ""@)
}

pub fn expand_config_shorthand(raw: &str) -> (res: Result<String, Error>)
    ensures
        yields(res, expanded(raw@)),
{
    let source = split_lines(raw);
    let ghost all = lines(raw@);
    let mut done = "".to_owned();
    let mut i: usize = 0;
    while i < source.len()
        invariant
            i <= source@.len(),
            texts(source@) == all,
            all == lines(raw@),
            expanded(raw@) == expanded_from(all, i as int, done@),
        decreases source.len() - i,
    {
        assert(all[i as int] == source@[i as int]@);
        match expand_line(&source[i], i + 1) {
            Err(e) => {
                return Err(e);
            },
            Ok(line) => {
                done.append(line.as_str());
                done.append("\n");
            },
        }
        i += 1;
    }
    Ok(done)
}

// ---------------------------------------------------------------------------
// What is no shorthand
// ---------------------------------------------------------------------------

/// Trimming the end takes nothing off the start.
proof fn lemma_trim_end_start(s: Seq<char>)
    ensures
        trim_end(s).len() <= s.len(),
        trim_end(s).len() > 0 ==> trim_end(s)[0] == s[0],
        s.len() > 0 && !is_space(s[0]) ==> trim_end(s).len() > 0,
    decreases s.len(),
{
    if s.len() > 0 && is_space(s.last()) {
        lemma_trim_end_start(s.drop_last());
    }
}

/// No name of a reserved table starts like a template header.
proof fn lemma_reserved_is_no_template(name: Seq<char>)
    requires
        is_reserved(name),
    ensures
        !has_prefix(name, "template_"@),
{
    reveal_strlit("template_");
    reveal_strlit("settings");
    reveal_strlit("notifications");
    reveal_strlit("templates");
    reveal_strlit("datasets");
    reveal_strlit("version");
    reveal_strlit(".");
    if has_prefix(name, "template_"@) {
        assert(name.take(9)[0] == 't');
        assert(name.take(9)[8] == '_');
        if has_prefix(name, "settings"@ + "."@) {
            assert(name.take(9)[0] == ("settings"@ + "."@)[0]);
        }
        if has_prefix(name, "notifications"@ + "."@) {
            assert(name.take(14)[0] == ("notifications"@ + "."@)[0]);
        }
        if has_prefix(name, "templates"@ + "."@) {
            assert(name.take(10)[8] == ("templates"@ + "."@)[8]);
        }
        if has_prefix(name, "datasets"@ + "."@) {
            assert(name.take(9)[0] == ("datasets"@ + "."@)[0]);
        }
        if has_prefix(name, "version"@ + "."@) {
            assert(name.take(8)[0] == ("version"@ + "."@)[0]);
        }
    }
}

/// The header of a reserved table is no shorthand: `[settings]`,
/// `[datasets."pool/dataset"]`, `[templates.name]` and the like stay as they
/// are.
pub proof fn law_reserved_headers_stay(line: Seq<char>, at: nat)
    requires
        bracketed(trim(line)) is Some,
        is_reserved(trim(bracketed(trim(line)).unwrap().0)),
    ensures
        expanded_line(line, at) == Ok::<Seq<char>, Fault>(line),
{
    let content = trim_start(line);
    lemma_reserved_is_no_template(trim(bracketed(trim(line)).unwrap().0));
    reveal_strlit("[");
    assert(trim(line).take(1)[0] == '[');
    lemma_trim_end_start(content);
    assert(content[0] == '[');
    lemma_position(content, '=');
    if let Some((key, value)) = cut(content, '=') {
        assert(key.len() > 0 && key[0] == '[');
        assert(trim_start(key) == key);
        lemma_trim_end_start(key);
        assert(trim(key)[0] == '[');
        reveal_strlit("use_templates");
        reveal_strlit("use_template");
        assert(trim(key) != "use_templates"@ && trim(key) != "use_template"@);
    }
}

/// A list of template names with a quoted one is no shorthand: it stays as it
/// is.
pub proof fn law_quoted_names_stay(line: Seq<char>, at: nat, key: Seq<char>, value: Seq<char>)
    requires
        !has_prefix(trim(line), "["@),
        cut(trim_start(line), '=') == Some((key, value)),
        bracketed(trim(value)) matches Some((names, _)) ==> names.contains('"') || names.contains(
            '\'',
        ),
    ensures
        expanded_line(line, at) == Ok::<Seq<char>, Fault>(line),
{
}

} // verus!
