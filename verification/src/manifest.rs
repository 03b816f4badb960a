//! Manifests as trees of TOML values.
use vstd::prelude::*;

use crate::order::text_eq;

verus! {

/// A TOML value, as far as a manifest is read: text, truth values and tables.
/// Numbers, dates and arrays are `Other`.
pub enum TomlValue {
    Text(String),
    Flag(bool),
    Table(Vec<TomlEntry>),
    Other,
}

/// A key of a table with its value.
pub struct TomlEntry {
    pub key: String,
    pub value: TomlValue,
}

/// What a TOML value says.
pub enum TomlView {
    Text(Seq<char>),
    Flag(bool),
    Table(Seq<(Seq<char>, TomlView)>),
    Other,
}

impl TomlValue {
    /// What the value says.
    pub open spec fn tree(self) -> TomlView
        decreases self,
    {
        match self {
            TomlValue::Text(s) => TomlView::Text(s@),
            TomlValue::Flag(b) => TomlView::Flag(b),
            TomlValue::Table(entries) => TomlView::Table(
                Seq::new(
                    entries@.len(),
                    |i: int|
                        if 0 <= i < entries@.len() {
                            (entries@[i].key@, entries@[i].value.tree())
                        } else {
                            arbitrary()
                        },
                ),
            ),
            TomlValue::Other => TomlView::Other,
        }
    }
}

impl View for TomlValue {
    type V = TomlView;

    open spec fn view(&self) -> TomlView {
        self.tree()
    }
}

/// The document that the `toml` crate reads from `text`; none where it reports
/// an error.
pub uninterp spec fn toml_document(text: Seq<char>) -> Option<TomlView>;

/// What a `toml::Value` says.
pub uninterp spec fn toml_tree(value: toml::Value) -> TomlView;

/// `toml::Value` is a TOML value with every kind of content.
#[verifier::external_type_specification]
#[verifier::external_body]
pub struct ExTomlValue(toml::Value);

/// `toml::de::Error` says why a text is not a TOML document.
#[verifier::external_type_specification]
#[verifier::external_body]
pub struct ExTomlError(toml::de::Error);

/// `<toml::Value as FromStr>::from_str` reads a document; what it reads depends
/// on the text alone.
#[verifier::external_body]
fn toml_parse(text: &str) -> (r: Result<toml::Value, toml::de::Error>)
    ensures
        match r {
            Ok(value) => toml_document(text@) == Some(toml_tree(value)),
            Err(_) => toml_document(text@) is None,
        },
{
    text.parse::<toml::Value>()
}

/// The outermost layer of a `toml::Value`.
enum TomlLayer {
    Text(String),
    Flag(bool),
    Table(Vec<(String, toml::Value)>),
    Other,
}

impl TomlLayer {
    spec fn tree(self) -> TomlView {
        match self {
            TomlLayer::Text(s) => TomlView::Text(s@),
            TomlLayer::Flag(b) => TomlView::Flag(b),
            TomlLayer::Table(entries) => TomlView::Table(
                entries@.map_values(|e: (String, toml::Value)| (e.0@, toml_tree(e.1))),
            ),
            TomlLayer::Other => TomlView::Other,
        }
    }
}

/// Takes a `toml::Value` apart by its variant; a table gives its keys and
/// values in the order of its iterator.
#[verifier::external_body]
fn toml_layer(value: toml::Value) -> (layer: TomlLayer)
    ensures
        layer.tree() == toml_tree(value),
{
    match value {
        toml::Value::String(s) => TomlLayer::Text(s),
        toml::Value::Boolean(b) => TomlLayer::Flag(b),
        toml::Value::Table(table) => TomlLayer::Table(table.into_iter().collect()),
        toml::Value::Integer(_) => TomlLayer::Other,
        toml::Value::Float(_) => TomlLayer::Other,
        toml::Value::Datetime(_) => TomlLayer::Other,
        toml::Value::Array(_) => TomlLayer::Other,
    }
}

fn to_manifest(value: toml::Value) -> (r: TomlValue)
    ensures
        r@ == toml_tree(value),
    decreases toml_tree(value),
{
    let ghost tree = toml_tree(value);
    match toml_layer(value) {
        TomlLayer::Text(s) => TomlValue::Text(s),
        TomlLayer::Flag(b) => TomlValue::Flag(b),
        TomlLayer::Table(list) => {
            let ghost all = list@;
            let ghost pairs = all.map_values(|e: (String, toml::Value)| (e.0@, toml_tree(e.1)));
            let mut entries: Vec<TomlEntry> = Vec::new();
            for pair in iter: list
                invariant
                    iter.seq() == all,
                    tree == toml_tree(value),
                    tree == TomlView::Table(pairs),
                    pairs == all.map_values(
                        |e: (String, toml::Value)| (e.0@, toml_tree(e.1)),
                    ),
                    entries@.len() == iter.index(),
                    forall|i: int|
                        0 <= i < entries@.len() ==> ((#[trigger] entries@[i]).key@, entries@[i].value@)
                            == pairs[i],
            {
                let ghost index = iter.index() as int;
                let (key, inner) = pair;
                proof {
                    assert(pairs[index] == (key@, toml_tree(inner)));
                    assert(decreases_to!(tree => tree->Table_0));
                    assert(decreases_to!(pairs => pairs[index]));
                    assert(decreases_to!(pairs[index] => pairs[index].1));
                }
                entries.push(TomlEntry { key, value: to_manifest(inner) });
            }
            let r = TomlValue::Table(entries);
            assert(r@->Table_0 =~= pairs);
            r
        },
        TomlLayer::Other => TomlValue::Other,
    }
}

/// Read a manifest; `None` where the text is not a TOML document.
pub fn parse_manifest(text: &str) -> (r: Option<TomlValue>)
    ensures
        toml_document(text@) == match r {
            Some(value) => Some(value@),
            None => None,
        },
{
    match toml_parse(text) {
        Ok(value) => Some(to_manifest(value)),
        Err(_) => None,
    }
}

/// The value of the first entry with the key.
pub open spec fn lookup(entries: Seq<(Seq<char>, TomlView)>, key: Seq<char>) -> Option<TomlView>
    decreases entries.len(),
{
    if entries.len() == 0 {
        None
    } else if entries[0].0 == key {
        Some(entries[0].1)
    } else {
        lookup(entries.drop_first(), key)
    }
}

impl TomlView {
    /// The value of a key; none where this is no table or has no such key.
    pub open spec fn get(self, key: Seq<char>) -> Option<TomlView> {
        match self {
            TomlView::Table(entries) => lookup(entries, key),
            _ => None,
        }
    }

    /// The text, where this is one.
    pub open spec fn text(self) -> Option<Seq<char>> {
        match self {
            TomlView::Text(s) => Some(s),
            _ => None,
        }
    }

    /// The entries, where this is a table.
    pub open spec fn entries(self) -> Option<Seq<(Seq<char>, TomlView)>> {
        match self {
            TomlView::Table(entries) => Some(entries),
            _ => None,
        }
    }
}

/// The value of a key in what may be a table.
pub open spec fn get_in(value: Option<TomlView>, key: Seq<char>) -> Option<TomlView> {
    match value {
        Some(v) => v.get(key),
        None => None,
    }
}

/// The text of what may be one.
pub open spec fn text_in(value: Option<TomlView>) -> Option<Seq<char>> {
    match value {
        Some(v) => v.text(),
        None => None,
    }
}

/// The entries of what may be a table; none of anything else.
pub open spec fn entries_in(value: Option<TomlView>) -> Seq<(Seq<char>, TomlView)> {
    match value {
        Some(TomlView::Table(entries)) => entries,
        _ => Seq::empty(),
    }
}

impl TomlValue {
    /// The value of a key; `None` where this is no table or has no such key.
    pub fn get(&self, key: &str) -> (r: Option<&TomlValue>)
        ensures
            self@.get(key@) == match r {
                Some(value) => Some(value@),
                None => None,
            },
    {
        match self {
            TomlValue::Table(entries) => {
                let ghost pairs = self@->Table_0;
                assert(pairs.skip(0) =~= pairs);
                for i in 0..entries.len()
                    invariant
                        self@ == TomlView::Table(pairs),
                        pairs.len() == entries.len(),
                        forall|k: int|
                            0 <= k < pairs.len() ==> #[trigger] pairs[k] == (
                                entries@[k].key@,
                                entries@[k].value@,
                            ),
                        lookup(pairs, key@) == lookup(pairs.skip(i as int), key@),
                {
                    assert(pairs.skip(i as int)[0] == pairs[i as int]);
                    if text_eq(entries[i].key.as_str(), key) {
                        return Some(&entries[i].value);
                    }
                    assert(pairs.skip(i as int).drop_first() =~= pairs.skip(i + 1));
                }
                None
            },
            _ => None,
        }
    }

    /// The text, where this is one.
    pub fn as_str(&self) -> (r: Option<&str>)
        ensures
            self@.text() == match r {
                Some(s) => Some(s@),
                None => None,
            },
    {
        match self {
            TomlValue::Text(s) => Some(s.as_str()),
            _ => None,
        }
    }

    /// The truth value, where this is one.
    pub fn as_bool(&self) -> (r: Option<bool>)
        ensures
            r == match self@ {
                TomlView::Flag(b) => Some(b),
                _ => None,
            },
    {
        match self {
            TomlValue::Flag(b) => Some(*b),
            _ => None,
        }
    }

    /// The entries, where this is a table.
    pub fn as_table(&self) -> (r: Option<&Vec<TomlEntry>>)
        ensures
            match r {
                Some(entries) => self@ matches TomlView::Table(pairs) && pairs.len()
                    == entries@.len() && (forall|i: int|
                    0 <= i < pairs.len() ==> #[trigger] pairs[i] == (
                        entries@[i].key@,
                        entries@[i].value@,
                    )),
                None => !(self@ is Table),
            },
    {
        match self {
            TomlValue::Table(entries) => Some(entries),
            _ => None,
        }
    }
}

/// The value of a key in what may be a table.
pub fn get_from<'a>(value: Option<&'a TomlValue>, key: &str) -> (r: Option<&'a TomlValue>)
    ensures
        get_in(
            match value {
                Some(v) => Some(v@),
                None => None,
            },
            key@,
        ) == match r {
            Some(v) => Some(v@),
            None => None,
        },
{
    match value {
        Some(v) => v.get(key),
        None => None,
    }
}

/// The text of what may be one.
pub fn str_from<'a>(value: Option<&'a TomlValue>) -> (r: Option<&'a str>)
    ensures
        text_in(
            match value {
                Some(v) => Some(v@),
                None => None,
            },
        ) == match r {
            Some(s) => Some(s@),
            None => None,
        },
{
    match value {
        Some(v) => v.as_str(),
        None => None,
    }
}

} // verus!
