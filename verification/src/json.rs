//! JSON values, as requests carry them and documents are made of them.

use vstd::prelude::*;

use crate::single::{bits_of, finite, is_finite, single_bits};
use crate::text::same;

verus! {

/// A number, held as the readings asked of it: as an unsigned integer and as a signed one, where
/// it is one, and as the bits of its single-precision value.
#[derive(Clone, Copy, Debug, PartialEq, Eq, Structural)]
pub struct Number {
    pub unsigned: Option<u64>,
    pub signed: Option<i64>,
    pub single: Option<u32>,
}

/// The number that stands for an unsigned integer.
pub open spec fn whole(n: u64) -> Number {
    Number {
        unsigned: Some(n),
        signed: if n <= i64::MAX {
            Some(n as i64)
        } else {
            None
        },
        single: Some(single_bits(n)),
    }
}

/// A single-precision value as a document holds it, by its bits: null where it is not finite.
pub open spec fn level(bits: u32) -> Doc {
    match written(bits) {
        Some(b) => Doc::Number(Number { unsigned: None, signed: None, single: Some(b) }),
        None => Doc::Null,
    }
}

/// What a document keeps of a single-precision value: nothing where it is not finite.
pub open spec fn written(bits: u32) -> Option<u32> {
    if finite(bits) {
        Some(bits)
    } else {
        None
    }
}

/// A JSON value. An object holds its entries in the order in which they are visited.
#[derive(Debug, PartialEq, Eq)]
pub enum Json {
    Null,
    Bool(bool),
    Number(Number),
    Text(String),
    Array(Vec<Json>),
    Object(Vec<(String, Json)>),
}

/// What a JSON value says.
pub enum Doc {
    Null,
    Bool(bool),
    Number(Number),
    Text(Seq<char>),
    Array(Seq<Doc>),
    Object(Seq<(Seq<char>, Doc)>),
}

/// What a JSON value says.
pub open spec fn doc_of(j: Json) -> Doc
    decreases j,
{
    match j {
        Json::Null => Doc::Null,
        Json::Bool(b) => Doc::Bool(b),
        Json::Number(n) => Doc::Number(n),
        Json::Text(s) => Doc::Text(s@),
        Json::Array(v) => Doc::Array(
            Seq::new(
                v@.len(),
                |i: int|
                    if 0 <= i < v@.len() {
                        doc_of(v@[i])
                    } else {
                        Doc::Null
                    },
            ),
        ),
        Json::Object(v) => Doc::Object(
            Seq::new(
                v@.len(),
                |i: int|
                    if 0 <= i < v@.len() {
                        (v@[i].0@, doc_of(v@[i].1))
                    } else {
                        (Seq::empty(), Doc::Null)
                    },
            ),
        ),
    }
}

impl View for Json {
    type V = Doc;

    open spec fn view(&self) -> Doc {
        doc_of(*self)
    }
}

/// What the items of an array say.
pub open spec fn docs(v: Seq<Json>) -> Seq<Doc> {
    v.map_values(|j: Json| j@)
}

/// What an entry of an object says.
pub open spec fn field_doc(e: (String, Json)) -> (Seq<char>, Doc) {
    (e.0@, e.1@)
}

/// What the entries of an object say.
pub open spec fn fields(v: Seq<(String, Json)>) -> Seq<(Seq<char>, Doc)> {
    v.map_values(|e: (String, Json)| field_doc(e))
}

/// The value of the first entry with a key.
pub open spec fn lookup(es: Seq<(Seq<char>, Doc)>, key: Seq<char>) -> Option<Doc>
    decreases es.len(),
{
    if es.len() == 0 {
        None
    } else {
        match lookup(es.drop_last(), key) {
            Some(d) => Some(d),
            None => if es.last().0 == key {
                Some(es.last().1)
            } else {
                None
            },
        }
    }
}

/// Looking a key up after one more entry was put behind the others.
pub broadcast proof fn lemma_lookup_push(
    es: Seq<(Seq<char>, Doc)>,
    e: (Seq<char>, Doc),
    key: Seq<char>,
)
    ensures
        #[trigger] lookup(es.push(e), key) == (match lookup(es, key) {
            Some(d) => Some(d),
            None => if e.0 == key {
                Some(e.1)
            } else {
                None
            },
        }),
{
    assert(es.push(e).drop_last() =~= es);
}

/// Where no key stands twice, every entry is found under its key.
pub proof fn lemma_lookup_at(es: Seq<(Seq<char>, Doc)>, i: int)
    requires
        0 <= i < es.len(),
        forall|a: int, b: int| 0 <= a < b < es.len() ==> (#[trigger] es[a]).0 != (#[trigger] es[b]).0,
    ensures
        lookup(es, es[i].0) == Some(es[i].1),
    decreases es.len(),
{
    let rest = es.drop_last();
    if i < rest.len() {
        assert(forall|a: int| 0 <= a < rest.len() ==> rest[a] == es[a]);
        lemma_lookup_at(rest, i);
    } else {
        lemma_lookup_absent(rest, es[i].0);
    }
}

/// A key that no entry has is not found.
pub proof fn lemma_lookup_absent(es: Seq<(Seq<char>, Doc)>, key: Seq<char>)
    requires
        forall|a: int| 0 <= a < es.len() ==> (#[trigger] es[a]).0 != key,
    ensures
        lookup(es, key) is None,
    decreases es.len(),
{
    if es.len() > 0 {
        let rest = es.drop_last();
        assert(forall|a: int| 0 <= a < rest.len() ==> rest[a] == es[a]);
        assert(es[es.len() - 1] == es.last());
        lemma_lookup_absent(rest, key);
    }
}

impl Doc {
    /// An object without entries.
    pub open spec fn object() -> Doc {
        Doc::Object(Seq::empty())
    }

    /// This object with one more entry behind the others.
    pub open spec fn with(self, key: Seq<char>, value: Doc) -> Doc {
        match self {
            Doc::Object(es) => Doc::Object(es.push((key, value))),
            _ => self,
        }
    }

    /// An array of one item.
    pub open spec fn one(item: Doc) -> Doc {
        Doc::Array(Seq::empty().push(item))
    }

    /// An array without items.
    pub open spec fn none() -> Doc {
        Doc::Array(Seq::empty())
    }

    /// The value under a key, where this is an object that has it.
    pub open spec fn field(self, key: Seq<char>) -> Option<Doc> {
        match self {
            Doc::Object(es) => lookup(es, key),
            _ => None,
        }
    }

    /// The text, where this is one.
    pub open spec fn text(self) -> Option<Seq<char>> {
        match self {
            Doc::Text(s) => Some(s),
            _ => None,
        }
    }

    /// The truth value, where this is one.
    pub open spec fn boolean(self) -> Option<bool> {
        match self {
            Doc::Bool(b) => Some(b),
            _ => None,
        }
    }

    /// The unsigned integer, where this is one.
    pub open spec fn unsigned(self) -> Option<u64> {
        match self {
            Doc::Number(n) => n.unsigned,
            _ => None,
        }
    }

    /// The signed integer, where this is one.
    pub open spec fn signed(self) -> Option<i64> {
        match self {
            Doc::Number(n) => n.signed,
            _ => None,
        }
    }

    /// The bits of the single-precision value, where this is a number.
    pub open spec fn single(self) -> Option<u32> {
        match self {
            Doc::Number(n) => n.single,
            _ => None,
        }
    }

    /// The items, where this is an array.
    pub open spec fn items(self) -> Option<Seq<Doc>> {
        match self {
            Doc::Array(ds) => Some(ds),
            _ => None,
        }
    }

    /// The entries, where this is an object.
    pub open spec fn entries(self) -> Option<Seq<(Seq<char>, Doc)>> {
        match self {
            Doc::Object(es) => Some(es),
            _ => None,
        }
    }

    /// The text under a key, where there is one.
    pub open spec fn text_field(self, key: Seq<char>) -> Option<Seq<char>> {
        match self.field(key) {
            Some(d) => d.text(),
            None => None,
        }
    }

    /// The truth value under a key, where there is one.
    pub open spec fn boolean_field(self, key: Seq<char>) -> Option<bool> {
        match self.field(key) {
            Some(d) => d.boolean(),
            None => None,
        }
    }

    /// The unsigned integer under a key, where there is one.
    pub open spec fn unsigned_field(self, key: Seq<char>) -> Option<u64> {
        match self.field(key) {
            Some(d) => d.unsigned(),
            None => None,
        }
    }

    /// The signed integer under a key, where there is one.
    pub open spec fn signed_field(self, key: Seq<char>) -> Option<i64> {
        match self.field(key) {
            Some(d) => d.signed(),
            None => None,
        }
    }

    /// The bits of the number under a key, where there is one.
    pub open spec fn single_field(self, key: Seq<char>) -> Option<u32> {
        match self.field(key) {
            Some(d) => d.single(),
            None => None,
        }
    }
}

/// Looking a key up in an object that got one more entry.
pub broadcast proof fn lemma_field_with(d: Doc, key: Seq<char>, value: Doc, k: Seq<char>)
    requires
        d is Object,
    ensures
        #[trigger] d.with(key, value).field(k) == (match d.field(k) {
            Some(v) => Some(v),
            None => if key == k {
                Some(value)
            } else {
                None
            },
        }),
{
    broadcast use lemma_lookup_push;
}

/// An object without entries has no key.
pub broadcast proof fn lemma_field_empty(k: Seq<char>)
    ensures
        #[trigger] Doc::object().field(k) is None,
{
}

/// A text, or null in its absence.
pub open spec fn text_or_null(s: Option<Seq<char>>) -> Doc {
    match s {
        Some(s) => Doc::Text(s),
        None => Doc::Null,
    }
}

/// The view of a text that may be absent.
pub open spec fn option_view(s: Option<String>) -> Option<Seq<char>> {
    match s {
        Some(s) => Some(s@),
        None => None,
    }
}

/// The view of a text that may be absent.
pub open spec fn option_str_view(s: Option<&str>) -> Option<Seq<char>> {
    match s {
        Some(s) => Some(s@),
        None => None,
    }
}

/// Puts one more item at the end of an array's items.
pub fn put_item(items: &mut Vec<Json>, value: Json)
    ensures
        docs(final(items)@) == docs(old(items)@).push(value@),
{
    items.push(value);
    assert(docs(items@) =~= docs(old(items)@).push(value@));
}

/// No entries yet.
pub fn no_entries() -> (r: Vec<(String, Json)>)
    ensures
        fields(r@) == Seq::<(Seq<char>, Doc)>::empty(),
{
    let r: Vec<(String, Json)> = Vec::new();
    assert(fields(r@) =~= Seq::empty());
    r
}

/// Puts an entry behind the others.
pub fn put_entry(entries: &mut Vec<(String, Json)>, key: String, value: Json)
    ensures
        fields(final(entries)@) == fields(old(entries)@).push((key@, value@)),
{
    entries.push((key, value));
    assert(fields(entries@) =~= fields(old(entries)@).push((key@, value@)));
}

/// No items yet.
pub fn no_items() -> (r: Vec<Json>)
    ensures
        docs(r@) == Seq::<Doc>::empty(),
{
    let r: Vec<Json> = Vec::new();
    assert(docs(r@) =~= Seq::empty());
    r
}

impl Json {
    /// A text.
    pub fn text(s: &str) -> (r: Json)
        ensures
            r@ == Doc::Text(s@),
    {
        Json::Text(s.to_owned())
    }

    /// A text, or null in its absence.
    pub fn text_or_null(s: Option<&str>) -> (r: Json)
        ensures
            r@ == text_or_null(option_str_view(s)),
    {
        match s {
            Some(s) => Json::text(s),
            None => Json::Null,
        }
    }

    /// An unsigned integer.
    pub fn whole(n: u64) -> (r: Json)
        ensures
            r@ == Doc::Number(whole(n)),
    {
        let signed = if n <= 9223372036854775807 {
            Some(n as i64)
        } else {
            None
        };
        Json::Number(Number { unsigned: Some(n), signed, single: Some(bits_of(n)) })
    }

    /// A single-precision value, by its bits: null where it is not finite.
    pub fn single(bits: u32) -> (r: Json)
        ensures
            r@ == level(bits),
    {
        if is_finite(bits) {
            Json::Number(Number { unsigned: None, signed: None, single: Some(bits) })
        } else {
            Json::Null
        }
    }

    /// An object without entries.
    pub fn new_object() -> (r: Json)
        ensures
            r@ == Doc::object(),
    {
        let r = Json::Object(Vec::new());
        assert(r@->Object_0 =~= Seq::empty());
        r
    }

    /// This object with one more entry behind the others.
    pub fn with(self, key: &str, value: Json) -> (r: Json)
        ensures
            r@ == self@.with(key@, value@),
    {
        match self {
            Json::Object(v) => {
                let mut v = v;
                let ghost before = v@;
                v.push((key.to_owned(), value));
                let r = Json::Object(v);
                assert(self@->Object_0 =~= fields(before));
                assert(r@->Object_0 =~= fields(before).push((key@, value@)));
                r
            },
            other => other,
        }
    }

    /// An array of one item.
    pub fn one(item: Json) -> (r: Json)
        ensures
            r@ == Doc::one(item@),
    {
        let mut items = no_items();
        put_item(&mut items, item);
        Json::array(items)
    }

    /// An array without items.
    pub fn none() -> (r: Json)
        ensures
            r@ == Doc::none(),
    {
        Json::array(no_items())
    }

    /// An array.
    pub fn array(items: Vec<Json>) -> (r: Json)
        ensures
            r@ == Doc::Array(docs(items@)),
    {
        let r = Json::Array(items);
        assert(r@->Array_0 =~= docs(items@));
        r
    }

    /// An object.
    pub fn object(entries: Vec<(String, Json)>) -> (r: Json)
        ensures
            r@ == Doc::Object(fields(entries@)),
    {
        let r = Json::Object(entries);
        assert(r@->Object_0 =~= fields(entries@));
        r
    }

    /// The value under a key, where this is an object that has it.
    pub fn get(&self, key: &str) -> (r: Option<&Json>)
        ensures
            r matches Some(j) ==> self@.field(key@) == Some(j@),
            r is None ==> self@.field(key@) is None,
    {
        match self {
            Json::Object(v) => {
                proof {
                    assert(self@->Object_0 =~= fields(v@));
                }
                let ghost es = fields(v@);
                let mut i: usize = 0;
                assert(es.take(0) =~= Seq::empty());
                while i < v.len()
                    invariant
                        i <= v@.len(),
                        es == fields(v@),
                        self@ == Doc::Object(es),
                        lookup(es.take(i as int), key@) is None,
                    decreases v@.len() - i,
                {
                    let ghost next = es.take(i + 1);
                    assert(next.drop_last() =~= es.take(i as int));
                    assert(next.last() == field_doc(v@[i as int]));
                    if same(v[i].0.as_str(), key) {
                        proof {
                            lemma_lookup_prefix(es, i + 1, key@);
                        }
                        return Some(&v[i].1);
                    }
                    i += 1;
                }
                assert(es.take(v@.len() as int) =~= es);
                None
            },
            _ => None,
        }
    }

    /// The text, where this is one.
    pub fn as_str(&self) -> (r: Option<&str>)
        ensures
            option_str_view(r) == self@.text(),
    {
        match self {
            Json::Text(s) => Some(s.as_str()),
            _ => None,
        }
    }

    /// The truth value, where this is one.
    pub fn as_bool(&self) -> (r: Option<bool>)
        ensures
            r == self@.boolean(),
    {
        match self {
            Json::Bool(b) => Some(*b),
            _ => None,
        }
    }

    /// The unsigned integer, where this is one.
    pub fn as_u64(&self) -> (r: Option<u64>)
        ensures
            r == self@.unsigned(),
    {
        match self {
            Json::Number(n) => n.unsigned,
            _ => None,
        }
    }

    /// The signed integer, where this is one.
    pub fn as_i64(&self) -> (r: Option<i64>)
        ensures
            r == self@.signed(),
    {
        match self {
            Json::Number(n) => n.signed,
            _ => None,
        }
    }

    /// The bits of the single-precision value, where this is a number.
    pub fn as_single(&self) -> (r: Option<u32>)
        ensures
            r == self@.single(),
    {
        match self {
            Json::Number(n) => n.single,
            _ => None,
        }
    }

    /// The items, where this is an array.
    pub fn as_array(&self) -> (r: Option<&Vec<Json>>)
        ensures
            r matches Some(v) ==> self@ == Doc::Array(docs(v@)),
            r is None ==> self@.items() is None,
    {
        match self {
            Json::Array(v) => {
                assert(self@->Array_0 =~= docs(v@));
                Some(v)
            },
            _ => None,
        }
    }

    /// The entries, where this is an object.
    pub fn as_object(&self) -> (r: Option<&Vec<(String, Json)>>)
        ensures
            r matches Some(v) ==> self@ == Doc::Object(fields(v@)),
            r is None ==> self@.entries() is None,
    {
        match self {
            Json::Object(v) => {
                assert(self@->Object_0 =~= fields(v@));
                Some(v)
            },
            _ => None,
        }
    }

    /// Whether this is null.
    pub fn is_null(&self) -> (r: bool)
        ensures
            r == (self@ == Doc::Null),
    {
        match self {
            Json::Null => true,
            _ => false,
        }
    }

    /// The text under a key, where there is one.
    pub fn text_field(&self, key: &str) -> (r: Option<&str>)
        ensures
            option_str_view(r) == self@.text_field(key@),
    {
        match self.get(key) {
            Some(j) => j.as_str(),
            None => None,
        }
    }

    /// The truth value under a key, where there is one.
    pub fn boolean_field(&self, key: &str) -> (r: Option<bool>)
        ensures
            r == self@.boolean_field(key@),
    {
        match self.get(key) {
            Some(j) => j.as_bool(),
            None => None,
        }
    }

    /// The unsigned integer under a key, where there is one.
    pub fn unsigned_field(&self, key: &str) -> (r: Option<u64>)
        ensures
            r == self@.unsigned_field(key@),
    {
        match self.get(key) {
            Some(j) => j.as_u64(),
            None => None,
        }
    }

    /// The signed integer under a key, where there is one.
    pub fn signed_field(&self, key: &str) -> (r: Option<i64>)
        ensures
            r == self@.signed_field(key@),
    {
        match self.get(key) {
            Some(j) => j.as_i64(),
            None => None,
        }
    }

    /// The bits of the number under a key, where there is one.
    pub fn single_field(&self, key: &str) -> (r: Option<u32>)
        ensures
            r == self@.single_field(key@),
    {
        match self.get(key) {
            Some(j) => j.as_single(),
            None => None,
        }
    }

    /// A value that says the same.
    pub fn copy(&self) -> (r: Json)
        ensures
            r@ == self@,
        decreases self,
    {
        match self {
            Json::Null => Json::Null,
            Json::Bool(b) => Json::Bool(*b),
            Json::Number(n) => Json::Number(*n),
            Json::Text(s) => Json::Text(s.clone()),
            Json::Array(v) => {
                let mut out: Vec<Json> = Vec::new();
                for i in 0..v.len()
                    invariant
                        out@.len() == i,
                        *self == Json::Array(*v),
                        forall|k: int| 0 <= k < i ==> (#[trigger] out@[k])@ == v@[k]@,
                {
                    assert(decreases_to!(*self => self->Array_0));
                    assert(decreases_to!(*v => v@));
                    assert(decreases_to!(v@ => v@[i as int]));
                    out.push(v[i].copy());
                }
                let r = Json::Array(out);
                assert(r@->Array_0 =~= self@->Array_0);
                r
            },
            Json::Object(v) => {
                let mut out: Vec<(String, Json)> = Vec::new();
                for i in 0..v.len()
                    invariant
                        out@.len() == i,
                        *self == Json::Object(*v),
                        forall|k: int|
                            0 <= k < i ==> field_doc(#[trigger] out@[k]) == field_doc(v@[k]),
                {
                    assert(decreases_to!(*self => self->Object_0));
                    assert(decreases_to!(*v => v@));
                    assert(decreases_to!(v@ => v@[i as int]));
                    assert(decreases_to!(v@[i as int] => v@[i as int].1));
                    out.push((v[i].0.clone(), v[i].1.copy()));
                }
                let r = Json::Object(out);
                assert(r@->Object_0 =~= self@->Object_0) by {
                    assert forall|k: int| 0 <= k < v@.len() implies r@->Object_0[k]
                        == self@->Object_0[k] by {
                        assert(field_doc(out@[k]) == field_doc(v@[k]));
                    }
                }
                r
            },
        }
    }
}

/// A key found among the first entries is found among all of them.
proof fn lemma_lookup_prefix(es: Seq<(Seq<char>, Doc)>, k: int, key: Seq<char>)
    requires
        0 <= k <= es.len(),
        lookup(es.take(k), key) is Some,
    ensures
        lookup(es, key) == lookup(es.take(k), key),
    decreases es.len(),
{
    if k == es.len() {
        assert(es.take(k) =~= es);
    } else {
        assert(es.drop_last().take(k) =~= es.take(k));
        lemma_lookup_prefix(es.drop_last(), k, key);
    }
}

} // verus!
