//! TOML documents as plain values.
//!
//! The `toml` crate parses a text; its values are then opened into a tree of
//! this crate's own, which the rest of the configuration code reads.
use vstd::prelude::*;

use crate::error::{plain, yields, Error, Fault};
use crate::text::same;

verus! {

/// A value of a TOML document.
pub enum Toml {
    Text(String),
    Integer(i64),
    Boolean(bool),
    Float,
    /// A date or a time, as the text it is written in.
    Datetime(String),
    Array(Vec<Toml>),
    Table(Vec<(String, Toml)>),
}

/// The model of a [`Toml`] value.
pub enum TomlModel {
    Text(Seq<char>),
    Integer(i64),
    Boolean(bool),
    Float,
    Datetime(Seq<char>),
    Array(Seq<TomlModel>),
    Table(Seq<(Seq<char>, TomlModel)>),
}

impl Toml {
    pub open spec fn model(self) -> TomlModel
        decreases self,
    {
        match self {
            Toml::Text(text) => TomlModel::Text(text@),
            Toml::Integer(number) => TomlModel::Integer(number),
            Toml::Boolean(value) => TomlModel::Boolean(value),
            Toml::Float => TomlModel::Float,
            Toml::Datetime(text) => TomlModel::Datetime(text@),
            Toml::Array(items) => TomlModel::Array(
                Seq::new(
                    items@.len(),
                    |i: int|
                        if 0 <= i < items@.len() {
                            items@[i].model()
                        } else {
                            arbitrary()
                        },
                ),
            ),
            Toml::Table(entries) => TomlModel::Table(
                Seq::new(
                    entries@.len(),
                    |i: int|
                        if 0 <= i < entries@.len() {
                            (entries@[i].0@, entries@[i].1.model())
                        } else {
                            arbitrary()
                        },
                ),
            ),
        }
    }
}

impl View for Toml {
    type V = TomlModel;

    open spec fn view(&self) -> TomlModel {
        self.model()
    }
}

/// The models of a list of values.
pub open spec fn item_models(items: Seq<Toml>) -> Seq<TomlModel> {
    items.map_values(|item: Toml| item@)
}

/// The models of the entries of a table.
pub open spec fn entry_models(entries: Seq<(String, Toml)>) -> Seq<(Seq<char>, TomlModel)> {
    entries.map_values(|entry: (String, Toml)| (entry.0@, entry.1@))
}

pub proof fn lemma_model(value: Toml)
    ensures
        value matches Toml::Array(items) ==> value@ == TomlModel::Array(item_models(items@)),
        value matches Toml::Table(entries) ==> value@ == TomlModel::Table(entry_models(entries@)),
{
    match value {
        Toml::Array(items) => {
            assert(value@->Array_0 =~= item_models(items@));
        },
        Toml::Table(entries) => {
            assert(value@->Table_0 =~= entry_models(entries@));
        },
        _ => {},
    }
}

/// The value of the first entry under a key.
pub open spec fn find(entries: Seq<(Seq<char>, TomlModel)>, key: Seq<char>) -> Option<TomlModel>
    decreases entries.len(),
{
    if entries.len() == 0 {
        None
    } else if entries[0].0 == key {
        Some(entries[0].1)
    } else {
        find(entries.drop_first(), key)
    }
}

/// The value of the first entry under a key.
pub fn find_entry<'a>(entries: &'a Vec<(String, Toml)>, key: &str) -> (res: Option<&'a Toml>)
    ensures
        match res {
            Some(value) => find(entry_models(entries@), key@) == Some(value@),
            None => find(entry_models(entries@), key@) is None,
        },
{
    let ghost all = entry_models(entries@);
    let mut i: usize = 0;
    assert(all.skip(0) =~= all);
    while i < entries.len()
        invariant
            i <= entries@.len(),
            all == entry_models(entries@),
            find(all, key@) == find(all.skip(i as int), key@),
        decreases entries.len() - i,
    {
        assert(all.skip(i as int)[0] == (entries@[i as int].0@, entries@[i as int].1@));
        if same(entries[i].0.as_str(), key) {
            return Some(&entries[i].1);
        }
        assert(all.skip(i as int).drop_first() =~= all.skip(i + 1));
        i += 1;
    }
    None
}

// ---------------------------------------------------------------------------
// Values of the `toml` crate
// ---------------------------------------------------------------------------

/// A value of the `toml` crate.
#[verifier::external_type_specification]
#[verifier::external_body]
pub struct ExTomlValue(toml::Value);

/// What a value of the `toml` crate holds.
pub uninterp spec fn held(value: toml::Value) -> TomlModel;

/// What `toml::from_str` makes of a text: the value it holds, or the message
/// of the parse error.
pub uninterp spec fn parsed(text: Seq<char>) -> Result<TomlModel, Seq<char>>;

/// One level of a value of the `toml` crate.
pub enum Shape {
    Text(String),
    Integer(i64),
    Boolean(bool),
    Float,
    Datetime(String),
    Array(Vec<toml::Value>),
    Table(Vec<(String, toml::Value)>),
}

pub open spec fn held_items(items: Seq<toml::Value>) -> Seq<TomlModel> {
    items.map_values(|item: toml::Value| held(item))
}

pub open spec fn held_entries(entries: Seq<(String, toml::Value)>) -> Seq<(Seq<char>, TomlModel)> {
    entries.map_values(|entry: (String, toml::Value)| (entry.0@, held(entry.1)))
}

pub open spec fn shape_model(shape: Shape) -> TomlModel {
    match shape {
        Shape::Text(text) => TomlModel::Text(text@),
        Shape::Integer(number) => TomlModel::Integer(number),
        Shape::Boolean(value) => TomlModel::Boolean(value),
        Shape::Float => TomlModel::Float,
        Shape::Datetime(text) => TomlModel::Datetime(text@),
        Shape::Array(items) => TomlModel::Array(held_items(items@)),
        Shape::Table(entries) => TomlModel::Table(held_entries(entries@)),
    }
}

/// Opens one level of a `toml::Value`: its variants one for one. The entries of
/// a table come in the order of the crate's `Map`, and a date or a time as its
/// `Display` text.
#[verifier::external_body]
fn open_value(value: toml::Value) -> (res: Shape)
    ensures
        shape_model(res) == held(value),
{
    match value {
        toml::Value::String(text) => Shape::Text(text),
        toml::Value::Integer(number) => Shape::Integer(number),
        toml::Value::Boolean(value) => Shape::Boolean(value),
        toml::Value::Float(_) => Shape::Float,
        toml::Value::Datetime(moment) => Shape::Datetime(moment.to_string()),
        toml::Value::Array(items) => Shape::Array(items),
        toml::Value::Table(entries) => Shape::Table(entries.into_iter().collect()),
    }
}

/// Parses a TOML document with `toml::from_str`. The grammar is that of the
/// crate; it is left unsaid here, beyond the fact that the value and the
/// message of an error depend on the text alone.
#[verifier::external_body]
fn parse_toml(text: &str) -> (res: Result<toml::Value, String>)
    ensures
        match res {
            Ok(value) => parsed(text@) == Ok::<TomlModel, Seq<char>>(held(value)),
            Err(message) => parsed(text@) == Err::<TomlModel, Seq<char>>(message@),
        },
{
    match toml::from_str::<toml::Value>(text) {
        Ok(value) => Ok(value),
        Err(e) => Err(e.to_string()),
    }
}

/// A text as a TOML string.
pub uninterp spec fn toml_text(text: Seq<char>) -> Seq<char>;

/// Renders a text as a TOML string with the `Display` of `toml::Value::String`.
/// The quoting rules are those of the crate; they are left unsaid here, beyond
/// the fact that the result depends on the text alone.
#[verifier::external_body]
pub(crate) fn quote_toml(text: &str) -> (res: String)
    ensures
        res@ == toml_text(text@),
{
    toml::Value::String(text.to_owned()).to_string()
}

/// Reads a value of the `toml` crate into a tree.
fn read(value: toml::Value) -> (res: Toml)
    ensures
        res@ == held(value),
    decreases held(value),
{
    match open_value(value) {
        Shape::Text(text) => Toml::Text(text),
        Shape::Integer(number) => Toml::Integer(number),
        Shape::Boolean(value) => Toml::Boolean(value),
        Shape::Float => Toml::Float,
        Shape::Datetime(text) => Toml::Datetime(text),
        Shape::Array(items) => {
            let ghost all = items@;
            let mut rest = items;
            let mut read_items: Vec<Toml> = Vec::new();
            let mut backwards: Vec<toml::Value> = Vec::new();
            while rest.len() > 0
                invariant
                    rest@ == all.take(rest@.len() as int),
                    backwards@ == all.skip(rest@.len() as int).reverse(),
                    rest@.len() <= all.len(),
                decreases rest.len(),
            {
                let ghost n = rest@.len() as int;
                if let Some(item) = rest.pop() {
                    assert(rest@ =~= all.take(n - 1));
                    assert(all.skip(n - 1).reverse() =~= all.skip(n).reverse().push(all[n - 1]));
                    backwards.push(item);
                }
            }
            assert(all.skip(0) =~= all);
            while backwards.len() > 0
                invariant
                    held(value) == TomlModel::Array(held_items(all)),
                    read_items@.len() + backwards@.len() == all.len(),
                    backwards@ == all.skip(read_items@.len() as int).reverse(),
                    forall|i: int|
                        0 <= i < read_items@.len() ==> (#[trigger] read_items@[i])@ == held(all[i]),
                decreases backwards.len(),
            {
                let ghost n = read_items@.len() as int;
                if let Some(item) = backwards.pop() {
                    assert(item == all[n]);
                    assert(all.skip(n).reverse().drop_last() =~= all.skip(n + 1).reverse());
                    assert(held_items(all)[n] == held(item));
                    assert(decreases_to!(held(value) => held(value)->Array_0));
                    assert(decreases_to!(held_items(all) => held_items(all)[n]));
                    read_items.push(read(item));
                }
            }
            let res = Toml::Array(read_items);
            proof {
                lemma_model(res);
                assert(item_models(read_items@) =~= held_items(all));
            }
            res
        },
        Shape::Table(entries) => {
            let ghost all = entries@;
            let mut rest = entries;
            let mut read_entries: Vec<(String, Toml)> = Vec::new();
            let mut backwards: Vec<(String, toml::Value)> = Vec::new();
            while rest.len() > 0
                invariant
                    rest@ == all.take(rest@.len() as int),
                    backwards@ == all.skip(rest@.len() as int).reverse(),
                    rest@.len() <= all.len(),
                decreases rest.len(),
            {
                let ghost n = rest@.len() as int;
                if let Some(entry) = rest.pop() {
                    assert(rest@ =~= all.take(n - 1));
                    assert(all.skip(n - 1).reverse() =~= all.skip(n).reverse().push(all[n - 1]));
                    backwards.push(entry);
                }
            }
            assert(all.skip(0) =~= all);
            while backwards.len() > 0
                invariant
                    held(value) == TomlModel::Table(held_entries(all)),
                    read_entries@.len() + backwards@.len() == all.len(),
                    backwards@ == all.skip(read_entries@.len() as int).reverse(),
                    forall|i: int|
                        0 <= i < read_entries@.len() ==> (#[trigger] read_entries@[i]).0@
                            == all[i].0@ && read_entries@[i].1@ == held(all[i].1),
                decreases backwards.len(),
            {
                let ghost n = read_entries@.len() as int;
                if let Some((name, entry)) = backwards.pop() {
                    assert((name, entry) == all[n]);
                    assert(all.skip(n).reverse().drop_last() =~= all.skip(n + 1).reverse());
                    assert(held_entries(all)[n] == (name@, held(entry)));
                    assert(decreases_to!(held(value) => held(value)->Table_0));
                    assert(decreases_to!(held_entries(all) => held_entries(all)[n]));
                    assert(decreases_to!(held_entries(all)[n] => held_entries(all)[n].1));
                    read_entries.push((name, read(entry)));
                }
            }
            let res = Toml::Table(read_entries);
            proof {
                lemma_model(res);
                assert(entry_models(read_entries@) =~= held_entries(all));
            }
            res
        },
    }
}

/// What a text gives as a TOML document, or the fault in it.
pub open spec fn document_of(text: Seq<char>) -> Result<TomlModel, Fault> {
    match parsed(text) {
        Ok(value) => Ok(value),
        Err(message) => Err(plain(message)),
    }
}

/// Parses a TOML document.
pub fn parse_document(text: &str) -> (res: Result<Toml, Error>)
    ensures
        yields(res, document_of(text@)),
{
    match parse_toml(text) {
        Ok(value) => Ok(read(value)),
        Err(message) => Err(Error::new(message)),
    }
}

} // verus!
