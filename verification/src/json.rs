//! What the console reads of a JSON document: records of fields with plain values.

use serde_json::{from_str, Value};
use vstd::prelude::*;
use crate::real64::Real64;
use crate::text;

verus! {

/// A plain value: a string, a number, or anything else.
#[derive(Debug)]
pub enum Scalar {
    Text(String),
    /// A number, as a whole one where it is one that fits, and in binary64.
    Number { whole: Option<i64>, bits: Option<u64> },
    Other,
}

/// A named value of an object.
#[derive(Debug)]
pub struct Field {
    pub key: String,
    pub value: Scalar,
}

/// An object's fields, or a value that is not an object.
#[derive(Debug)]
pub enum Item {
    Record(Vec<Field>),
    Scalar(Scalar),
}

/// A document: an array of items, or one item.
#[derive(Debug)]
pub enum Json {
    List(Vec<Item>),
    One(Item),
}

/// What a plain value holds.
pub enum ScalarView {
    Text(Seq<char>),
    Number { whole: Option<i64>, bits: Option<u64> },
    Other,
}

/// What a field holds.
pub struct FieldView {
    pub key: Seq<char>,
    pub value: ScalarView,
}

/// What an item holds.
pub enum ItemView {
    Record(Seq<FieldView>),
    Scalar(ScalarView),
}

/// What a document holds.
pub enum JsonView {
    List(Seq<ItemView>),
    One(ItemView),
}

impl View for Scalar {
    type V = ScalarView;

    open spec fn view(&self) -> ScalarView {
        match *self {
            Scalar::Text(s) => ScalarView::Text(s@),
            Scalar::Number { whole, bits } => ScalarView::Number { whole, bits },
            Scalar::Other => ScalarView::Other,
        }
    }
}

impl View for Field {
    type V = FieldView;

    open spec fn view(&self) -> FieldView {
        FieldView { key: self.key@, value: self.value@ }
    }
}

impl View for Item {
    type V = ItemView;

    open spec fn view(&self) -> ItemView {
        match *self {
            Item::Record(f) => ItemView::Record(text::views(f@)),
            Item::Scalar(s) => ItemView::Scalar(s@),
        }
    }
}

impl View for Json {
    type V = JsonView;

    open spec fn view(&self) -> JsonView {
        match *self {
            Json::List(v) => JsonView::List(text::views(v@)),
            Json::One(i) => JsonView::One(i@),
        }
    }
}

/// The document that the text is, or the message that says why it is none.
pub uninterp spec fn json_document(s: Seq<char>) -> Result<JsonView, Seq<char>>;

/// Whether the value, where it is a number, is finite.
pub open spec fn scalar_finite(v: ScalarView) -> bool {
    match v {
        ScalarView::Number { whole: _, bits: Some(bits) } => (Real64 { bits }).exponent() < 2047,
        _ => true,
    }
}

/// Whether all numbers of the record are finite.
pub open spec fn fields_finite(fields: Seq<FieldView>) -> bool {
    forall|i: int| 0 <= i < fields.len() ==> scalar_finite((#[trigger] fields[i]).value)
}

/// Whether all numbers of the item are finite.
pub open spec fn item_finite(i: ItemView) -> bool {
    match i {
        ItemView::Record(f) => fields_finite(f),
        ItemView::Scalar(s) => scalar_finite(s),
    }
}

/// Whether all numbers of the document are finite.
pub open spec fn document_finite(d: Result<JsonView, Seq<char>>) -> bool {
    match d {
        Ok(JsonView::List(v)) => forall|i: int| 0 <= i < v.len() ==> item_finite(#[trigger] v[i]),
        Ok(JsonView::One(i)) => item_finite(i),
        Err(_) => true,
    }
}

/// What reading gave.
pub open spec fn read_view(r: Result<Json, String>) -> Result<JsonView, Seq<char>> {
    match r {
        Ok(j) => Ok(j@),
        Err(e) => Err(e@),
    }
}

/// `serde_json::from_str` for `serde_json::Value`: the document, objects and arrays further down
/// left out as `Other`. JSON knows no infinities, and a number beyond binary64 is rejected.
#[verifier::external_body]
pub(crate) fn read_json(s: &str) -> (r: Result<Json, String>)
    ensures
        read_view(r) == json_document(s@),
        document_finite(read_view(r)),
{
    let scalar = |v| match v {
        Value::String(t) => Scalar::Text(t),
        Value::Number(n) => Scalar::Number { whole: n.as_i64(), bits: n.as_f64().map(|x| x.to_bits()) },
        _ => Scalar::Other,
    };
    let item = |v| match v {
        Value::Object(m) => Item::Record(m.into_iter().map(|(key, v)| Field { key, value: scalar(v) }).collect()),
        v => Item::Scalar(scalar(v)),
    };
    Ok(match from_str(s).map_err(|e| e.to_string())? {
        Value::Array(a) => Json::List(a.into_iter().map(item).collect()),
        v => Json::One(item(v)),
    })
}

// ---------------------------------------------------------------------------
// Looking into documents
// ---------------------------------------------------------------------------

/// The value of the key in the record.
pub open spec fn lookup(fields: Seq<FieldView>, key: Seq<char>) -> Option<ScalarView>
    decreases fields.len(),
{
    if fields.len() == 0 {
        None
    } else if fields[0].key == key {
        Some(fields[0].value)
    } else {
        lookup(fields.drop_first(), key)
    }
}

/// The fields of an item; of one that is not an object, none.
pub open spec fn item_fields(i: ItemView) -> Seq<FieldView> {
    match i {
        ItemView::Record(f) => f,
        ItemView::Scalar(_) => Seq::empty(),
    }
}

/// The fields of a document; of one that is not an object, none.
pub open spec fn document_fields(j: JsonView) -> Seq<FieldView> {
    match j {
        JsonView::One(i) => item_fields(i),
        JsonView::List(_) => Seq::empty(),
    }
}

/// The items of an array.
pub open spec fn array_items(d: Result<JsonView, Seq<char>>) -> Option<Seq<ItemView>> {
    match d {
        Ok(JsonView::List(v)) => Some(v),
        _ => None,
    }
}

/// The strings of an array of strings.
pub open spec fn string_items(items: Seq<ItemView>) -> Option<Seq<Seq<char>>>
    decreases items.len(),
{
    if items.len() == 0 {
        Some(Seq::empty())
    } else {
        match (string_items(items.drop_last()), items.last()) {
            (Some(v), ItemView::Scalar(ScalarView::Text(s))) => Some(v.push(s)),
            _ => None,
        }
    }
}

/// The strings of a document that is an array of strings.
pub open spec fn string_array(d: Result<JsonView, Seq<char>>) -> Option<Seq<Seq<char>>> {
    match array_items(d) {
        Some(items) => string_items(items),
        None => None,
    }
}

/// The string of a value that is one.
pub open spec fn as_text(v: Option<ScalarView>) -> Option<Seq<char>> {
    match v {
        Some(ScalarView::Text(s)) => Some(s),
        _ => None,
    }
}

/// The whole number of a value that is one.
pub open spec fn as_int(v: Option<ScalarView>) -> Option<i64> {
    match v {
        Some(ScalarView::Number { whole, bits: _ }) => whole,
        _ => None,
    }
}

/// The binary64 number of a value that is a number.
pub open spec fn as_real(v: Option<ScalarView>) -> Option<Real64> {
    match v {
        Some(ScalarView::Number { whole: _, bits: Some(bits) }) => Some(Real64 { bits }),
        _ => None,
    }
}

/// What a reference to a value shows.
pub open spec fn opt_scalar(v: Option<&Scalar>) -> Option<ScalarView> {
    match v {
        Some(s) => Some(s@),
        None => None,
    }
}

/// A value of a record of finite numbers is finite.
pub proof fn lemma_lookup_finite(fields: Seq<FieldView>, key: Seq<char>)
    requires
        fields_finite(fields),
    ensures
        lookup(fields, key) matches Some(v) ==> scalar_finite(v),
    decreases fields.len(),
{
    if fields.len() > 0 {
        assert(scalar_finite(fields[0].value));
        let rest = fields.drop_first();
        assert forall|i: int| 0 <= i < rest.len() implies scalar_finite(
            (#[trigger] rest[i]).value,
        ) by {
            assert(scalar_finite(fields[i + 1].value));
        }
        lemma_lookup_finite(rest, key);
    }
}

/// The value of the key in the record, if it has one.
pub fn get<'a>(fields: &'a Vec<Field>, key: &str) -> (r: Option<&'a Scalar>)
    ensures
        opt_scalar(r) == lookup(text::views(fields@), key@),
{
    let mut i: usize = 0;
    let ghost all = text::views(fields@);
    assert(all.skip(0) =~= all);
    while i < fields.len()
        invariant
            i <= fields.len(),
            all == text::views(fields@),
            lookup(all, key@) == lookup(all.skip(i as int), key@),
        decreases fields.len() - i,
    {
        assert(all.skip(i as int)[0] == fields@[i as int]@);
        if text::same(fields[i].key.as_str(), key) {
            return Some(&fields[i].value);
        }
        assert(all.skip(i as int).drop_first() =~= all.skip(i + 1));
        i = i + 1;
    }
    None
}

/// The string of a value that is one.
pub fn text_value<'a>(v: Option<&'a Scalar>) -> (r: Option<&'a str>)
    ensures
        text::opt_str_view(r) == as_text(opt_scalar(v)),
{
    match v {
        Some(Scalar::Text(s)) => Some(s.as_str()),
        _ => None,
    }
}

/// The whole number of a value that is one.
pub fn int_value(v: Option<&Scalar>) -> (r: Option<i64>)
    ensures
        r == as_int(opt_scalar(v)),
{
    match v {
        Some(Scalar::Number { whole, bits: _ }) => *whole,
        _ => None,
    }
}

/// The binary64 number of a value that is a number.
pub fn real_value(v: Option<&Scalar>) -> (r: Option<Real64>)
    ensures
        r == as_real(opt_scalar(v)),
{
    match v {
        Some(Scalar::Number { whole: _, bits: Some(bits) }) => Some(Real64 { bits: *bits }),
        _ => None,
    }
}

/// The fields of an item.
pub fn fields_of_item(i: Item) -> (r: Vec<Field>)
    ensures
        text::views(r@) == item_fields(i@),
{
    match i {
        Item::Record(f) => f,
        Item::Scalar(_) => {
            let r: Vec<Field> = Vec::new();
            assert(text::views(r@) =~= Seq::<FieldView>::empty());
            r
        },
    }
}

/// The fields of a document.
pub fn fields_of_document(j: Json) -> (r: Vec<Field>)
    ensures
        text::views(r@) == document_fields(j@),
{
    match j {
        Json::One(i) => fields_of_item(i),
        Json::List(_) => {
            let r: Vec<Field> = Vec::new();
            assert(text::views(r@) =~= Seq::<FieldView>::empty());
            r
        },
    }
}

/// The strings of an optional list.
pub open spec fn opt_strings(r: Option<Vec<String>>) -> Option<Seq<Seq<char>>> {
    match r {
        Some(v) => Some(text::views(v@)),
        None => None,
    }
}

/// An array that begins with something else than strings is no array of strings.
proof fn lemma_string_items_prefix(items: Seq<ItemView>, n: int)
    requires
        0 <= n <= items.len(),
        string_items(items.take(n)) is None,
    ensures
        string_items(items) is None,
    decreases items.len(),
{
    if n < items.len() {
        assert(items.drop_last().take(n) =~= items.take(n));
        lemma_string_items_prefix(items.drop_last(), n);
    } else {
        assert(items.take(n) =~= items);
    }
}

/// The strings of a document that is an array of strings.
pub fn strings_of(d: Result<Json, String>) -> (r: Option<Vec<String>>)
    ensures
        opt_strings(r) == string_array(read_view(d)),
{
    let ghost document = read_view(d);
    match d {
        Ok(Json::List(v)) => {
            let ghost all = text::views(v@);
            let mut out: Vec<String> = Vec::new();
            let mut i: usize = 0;
            assert(text::views(out@) =~= Seq::<Seq<char>>::empty());
            assert(string_items(all.take(0)) == Some(text::views(out@)));
            while i < v.len()
                invariant
                    i <= v.len(),
                    array_items(document) == Some(all),
                    document == read_view(d),
                    all == text::views(v@),
                    string_items(all.take(i as int)) == Some(text::views(out@)),
                decreases v.len() - i,
            {
                assert(all.take(i + 1).drop_last() =~= all.take(i as int));
                assert(all.take(i + 1).last() == v@[i as int]@);
                match &v[i] {
                    Item::Scalar(Scalar::Text(s)) => {
                        let t = s.clone();
                        proof {
                            text::lemma_views_push(out@, t);
                        }
                        out.push(t);
                    },
                    _ => {
                        proof {
                            lemma_string_items_prefix(all, i + 1);
                        }
                        return None;
                    },
                }
                i = i + 1;
            }
            assert(all.take(i as int) =~= all);
            Some(out)
        },
        _ => None,
    }
}

} // verus!
