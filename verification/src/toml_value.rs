//! TOML documents as the preferences logic reads them: tables of named
//! members, looked up by key, and string values.
use vstd::prelude::*;

use crate::text::text_equals;

verus! {

/// A TOML value. Tables keep their members in order as key-value pairs;
/// floating-point numbers and date-times are kept in their textual form.
#[derive(Debug, PartialEq)]
pub enum TomlValue {
    String(String),
    Integer(i64),
    Float(String),
    Boolean(bool),
    Datetime(String),
    Array(Vec<TomlValue>),
    Table(Vec<(String, TomlValue)>),
}

/// The mathematical form of a [`TomlValue`].
pub enum TomlView {
    Str(Seq<char>),
    Integer(i64),
    Float(Seq<char>),
    Boolean(bool),
    Datetime(Seq<char>),
    Array(Seq<TomlView>),
    Table(Seq<(Seq<char>, TomlView)>),
}

pub open spec fn toml_view(v: TomlValue) -> TomlView
    decreases v,
{
    match v {
        TomlValue::String(s) => TomlView::Str(s@),
        TomlValue::Integer(i) => TomlView::Integer(i),
        TomlValue::Float(f) => TomlView::Float(f@),
        TomlValue::Boolean(b) => TomlView::Boolean(b),
        TomlValue::Datetime(d) => TomlView::Datetime(d@),
        TomlValue::Array(items) => TomlView::Array(toml_items_view(items@)),
        TomlValue::Table(entries) => TomlView::Table(toml_entries_view(entries@)),
    }
}

pub open spec fn toml_items_view(s: Seq<TomlValue>) -> Seq<TomlView>
    decreases s,
{
    if s.len() == 0 {
        seq![]
    } else {
        seq![toml_view(s[0])] + toml_items_view(s.drop_first())
    }
}

pub open spec fn toml_entries_view(s: Seq<(String, TomlValue)>) -> Seq<(Seq<char>, TomlView)>
    decreases s,
{
    if s.len() == 0 {
        seq![]
    } else {
        seq![(s[0].0@, toml_view(s[0].1))] + toml_entries_view(s.drop_first())
    }
}

impl View for TomlValue {
    type V = TomlView;

    open spec fn view(&self) -> TomlView {
        toml_view(*self)
    }
}

proof fn lemma_toml_entries_view(s: Seq<(String, TomlValue)>)
    ensures
        toml_entries_view(s).len() == s.len(),
        forall|k: int|
            0 <= k < s.len() ==> #[trigger] toml_entries_view(s)[k] == (s[k].0@, toml_view(s[k].1)),
    decreases s.len(),
{
    if s.len() > 0 {
        lemma_toml_entries_view(s.drop_first());
        assert forall|k: int| 0 <= k < s.len() implies #[trigger] toml_entries_view(s)[k] == (
            s[k].0@,
            toml_view(s[k].1),
        ) by {
            if k > 0 {
                assert(toml_entries_view(s)[k] == toml_entries_view(s.drop_first())[k - 1]);
            }
        }
    }
}

/// The value of the first member of `entries` named `key`.
pub open spec fn member_named(entries: Seq<(Seq<char>, TomlView)>, key: Seq<char>) -> Option<
    TomlView,
>
    decreases entries.len(),
{
    if entries.len() == 0 {
        None
    } else if entries[0].0 == key {
        Some(entries[0].1)
    } else {
        member_named(entries.drop_first(), key)
    }
}

/// The member of a table named `key`; other values have no members.
pub open spec fn toml_member(value: TomlView, key: Seq<char>) -> Option<TomlView> {
    match value {
        TomlView::Table(entries) => member_named(entries, key),
        _ => None,
    }
}

/// The text of a string value; other values have none.
pub open spec fn toml_text(value: TomlView) -> Option<Seq<char>> {
    match value {
        TomlView::Str(s) => Some(s),
        _ => None,
    }
}

/// The text of an optional `&str`.
pub open spec fn opt_str_view(o: Option<&str>) -> Option<Seq<char>> {
    match o {
        Some(s) => Some(s@),
        None => None,
    }
}

/// The member of a table named `key`, if any.
pub fn toml_member_of<'a>(value: &'a TomlValue, key: &str) -> (res: Option<&'a TomlValue>)
    ensures
        match res {
            Some(m) => toml_member(value@, key@) == Some(m@),
            None => toml_member(value@, key@) is None,
        },
{
    match value {
        TomlValue::Table(entries) => {
            let ghost ev = toml_entries_view(entries@);
            proof {
                lemma_toml_entries_view(entries@);
                assert(ev.skip(0) =~= ev);
            }
            let mut i: usize = 0;
            while i < entries.len()
                invariant
                    i <= entries.len(),
                    ev == toml_entries_view(entries@),
                    value@ == TomlView::Table(ev),
                    ev.len() == entries.len(),
                    forall|k: int|
                        0 <= k < entries.len() ==> #[trigger] ev[k] == (
                            entries@[k].0@,
                            toml_view(entries@[k].1),
                        ),
                    member_named(ev, key@) == member_named(ev.skip(i as int), key@),
                decreases entries.len() - i,
            {
                proof {
                    let w = ev.skip(i as int);
                    assert(w[0] == ev[i as int]);
                    assert(w.drop_first() =~= ev.skip(i + 1));
                }
                if text_equals(entries[i].0.as_str(), key) {
                    proof {
                        let w = ev.skip(i as int);
                        assert(w[0].0 == key@);
                        assert(member_named(w, key@) == Some(toml_view(entries@[i as int].1)));
                    }
                    return Some(&entries[i].1);
                }
                i += 1;
            }
            None
        },
        _ => None,
    }
}

/// The text of a string value, if it is one.
pub fn toml_text_of(value: &TomlValue) -> (res: Option<&str>)
    ensures
        opt_str_view(res) == toml_text(value@),
{
    match value {
        TomlValue::String(s) => Some(s.as_str()),
        _ => None,
    }
}

/// `toml::Value`, a TOML document as `toml` parses it; opaque here.
#[verifier::external_type_specification]
#[verifier::external_body]
pub struct ExTomlValue(toml::Value);

/// The document `toml::from_str::<toml::Value>` parses `text` into, as a
/// [`TomlView`] (numbers and date-times other than integers in `toml`'s
/// text form, table members in its key order), or `None` when it refuses
/// the text; a function of the text alone.
pub uninterp spec fn spec_toml_parse(text: Seq<char>) -> Option<TomlView>;

/// The library's form of a parsed document: variant for variant, floats and
/// date-times as their text, table members in the table's order.
#[verifier::external_body]
fn toml_value_of(value: toml::Value) -> TomlValue {
    match value {
        toml::Value::String(s) => TomlValue::String(s),
        toml::Value::Integer(i) => TomlValue::Integer(i),
        toml::Value::Float(f) => TomlValue::Float(f.to_string()),
        toml::Value::Boolean(b) => TomlValue::Boolean(b),
        toml::Value::Datetime(d) => TomlValue::Datetime(d.to_string()),
        toml::Value::Array(items) => TomlValue::Array(items.into_iter().map(toml_value_of).collect()),
        toml::Value::Table(members) => TomlValue::Table(
            members.into_iter().map(|(key, member)| (key, toml_value_of(member))).collect(),
        ),
    }
}

/// Calls `toml::from_str::<toml::Value>` and converts the document with
/// [`toml_value_of`]. Trusted: the result is the named [`spec_toml_parse`]
/// of the text.
#[verifier::external_body]
pub(crate) fn toml_parse(text: &str) -> (res: Option<TomlValue>)
    ensures
        match res {
            Some(value) => spec_toml_parse(text@) == Some(value@),
            None => spec_toml_parse(text@) is None,
        },
{
    match toml::from_str::<toml::Value>(text) {
        Ok(value) => Some(toml_value_of(value)),
        Err(_) => None,
    }
}

} // verus!
