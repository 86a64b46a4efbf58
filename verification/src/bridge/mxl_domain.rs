//! The identity of a domain: what its definition file holds.

use vstd::prelude::*;
use vstd::string::*;

use crate::json::{
    docs, fields, lemma_field_empty, lemma_field_with, no_entries, no_items, put_entry, put_item,
    Doc, Json,
};
use crate::table::{as_map, lemma_distinct, lemma_from_map, lemma_in_map, sorted, Key, Table};
use crate::text::{between, chars, texts};
use crate::uuid::{
    denotes, digit_places, hex_value, hyphen_at, hyphens_before, law_uuid_reads_back, nibble,
    reads_as_uuid, uuid_text, versioned, Uuid,
};

verus! {

/// The name of the definition file.
pub const DEFINITION_FILE: &'static str = "domain_def.json";

/// Whether a character is a lower-case hexadecimal digit.
pub open spec fn is_lower_hex(c: char) -> bool {
    '0' <= c <= '9' || 'a' <= c <= 'f'
}

/// Whether a character may stand at a place of an id.
pub open spec fn fits_place(i: int, c: char) -> bool {
    if i == 8 || i == 13 || i == 18 || i == 23 {
        c == '-'
    } else if i == 14 {
        is_lower_hex(c) && c != '0'
    } else if i == 19 {
        c == '8' || c == '9' || c == 'a' || c == 'b'
    } else {
        is_lower_hex(c)
    }
}

/// Whether a text is an id: lower case, in groups, with a version that is not zero and the usual
/// variant.
pub open spec fn mxl_uuid(s: Seq<char>) -> bool {
    s.len() == 36 && forall|i: int| 0 <= i < 36 ==> fits_place(i, #[trigger] s[i])
}

/// Whether a text is an id.
pub fn is_mxl_uuid(s: &str) -> (r: bool)
    ensures
        r == mxl_uuid(s@),
{
    let cs = chars(s);
    if cs.len() != 36 {
        return false;
    }
    for i in 0..36usize
        invariant
            cs@ == s@,
            cs@.len() == 36,
            forall|k: int| 0 <= k < i ==> fits_place(k, #[trigger] cs@[k]),
    {
        let c = cs[i];
        let hex = ('0' <= c && c <= '9') || ('a' <= c && c <= 'f');
        let ok = if i == 8 || i == 13 || i == 18 || i == 23 {
            c == '-'
        } else if i == 14 {
            hex && c != '0'
        } else if i == 19 {
            c == '8' || c == '9' || c == 'a' || c == 'b'
        } else {
            hex
        };
        if !ok {
            return false;
        }
    }
    true
}

/// The definition of a domain.
pub struct DomainDef {
    pub id: Uuid,
    pub label: String,
    pub description: String,
    pub tags: Table<String, Vec<String>>,
}

/// What a [`DomainDef`] says.
pub struct DomainModel {
    pub id: Uuid,
    pub label: Seq<char>,
    pub description: Seq<char>,
    pub tags: Map<Seq<char>, Seq<Seq<char>>>,
}

impl View for DomainDef {
    type V = DomainModel;

    open spec fn view(&self) -> DomainModel {
        DomainModel {
            id: self.id,
            label: self.label@,
            description: self.description@,
            tags: self.tags@.map_values(|v: Vec<String>| texts(v@)),
        }
    }
}

/// The texts that items are; none where an item is no text.
pub open spec fn all_texts(items: Seq<Doc>) -> Option<Seq<Seq<char>>>
    decreases items.len(),
{
    if items.len() == 0 {
        Some(Seq::empty())
    } else {
        match (all_texts(items.drop_last()), items.last().text()) {
            (Some(rest), Some(t)) => Some(rest.push(t)),
            _ => None,
        }
    }
}

/// What is said of a tag that is no array of texts.
pub open spec fn tag_refusal(key: Seq<char>) -> Seq<char> {
    "tag '"@ + key + "' must be an array of strings"@
}

/// The tags that entries denote, or what is wrong with the first that denotes none.
pub open spec fn parsed_tags(es: Seq<(Seq<char>, Doc)>) -> Result<
    Map<Seq<char>, Seq<Seq<char>>>,
    Seq<char>,
>
    decreases es.len(),
{
    if es.len() == 0 {
        Ok(Map::empty())
    } else {
        match parsed_tags(es.drop_last()) {
            Err(e) => Err(e),
            Ok(m) => match es.last().1.items() {
                None => Err(tag_refusal(es.last().0)),
                Some(items) => match all_texts(items) {
                    None => Err(tag_refusal(es.last().0)),
                    Some(v) => Ok(m.insert(es.last().0, v)),
                },
            },
        }
    }
}

/// What is said of a definition without a text.
pub open spec fn text_refusal(key: Seq<char>) -> Seq<char> {
    "domain definition needs a string `"@ + key + "`"@
}

/// What is wrong with a document as a definition: it must be an object with an id, with tags and
/// with the two texts. The first thing that is wrong is the one that is said.
pub open spec fn definition_refusal(d: Doc) -> Option<Seq<char>> {
    if d.entries() is None {
        Some("domain definition must be a JSON object"@)
    } else {
        match d.text_field("id"@) {
            None => Some(text_refusal("id"@)),
            Some(id) => if !mxl_uuid(id) {
                Some("domain id '"@ + id + "' is not a lowercase canonical UUID"@)
            } else {
                match tags_of(d) {
                    None => Some("domain definition needs a `tags` object"@),
                    Some(es) => match parsed_tags(es) {
                        Err(e) => Some(e),
                        Ok(_) => if d.text_field("label"@) is None {
                            Some(text_refusal("label"@))
                        } else if d.text_field("description"@) is None {
                            Some(text_refusal("description"@))
                        } else {
                            None
                        },
                    },
                }
            },
        }
    }
}

/// The entries of the tags of a document.
pub open spec fn tags_of(d: Doc) -> Option<Seq<(Seq<char>, Doc)>> {
    match d.field("tags"@) {
        Some(t) => t.entries(),
        None => None,
    }
}

/// The definition as a document.
pub open spec fn tag_docs(s: Seq<(String, Vec<String>)>) -> Seq<(Seq<char>, Doc)> {
    s.map_values(
        |e: (String, Vec<String>)|
            (e.0@, Doc::Array(texts(e.1@).map_values(|t: Seq<char>| Doc::Text(t)))),
    )
}

proof fn lemma_tags_prefix(es: Seq<(Seq<char>, Doc)>, k: int)
    requires
        0 <= k <= es.len(),
        parsed_tags(es.take(k)) is Err,
    ensures
        parsed_tags(es) == parsed_tags(es.take(k)),
    decreases es.len(),
{
    if k < es.len() {
        assert(es.drop_last().take(k) =~= es.take(k));
        lemma_tags_prefix(es.drop_last(), k);
    } else {
        assert(es.take(k) =~= es);
    }
}

proof fn lemma_texts_prefix(items: Seq<Doc>, k: int)
    requires
        0 <= k <= items.len(),
        all_texts(items.take(k)) is None,
    ensures
        all_texts(items) is None,
    decreases items.len(),
{
    if k < items.len() {
        assert(items.drop_last().take(k) =~= items.take(k));
        lemma_texts_prefix(items.drop_last(), k);
    } else {
        assert(items.take(k) =~= items);
    }
}

fn read_texts(items: &Vec<Json>) -> (r: Option<Vec<String>>)
    ensures
        match r {
            Some(v) => all_texts(docs(items@)) == Some(texts(v@)),
            None => all_texts(docs(items@)) is None,
        },
{
    let ghost all = docs(items@);
    let mut out: Vec<String> = Vec::new();
    assert(all.take(0) =~= Seq::empty());
    assert(texts(out@) =~= Seq::empty());
    for i in 0..items.len()
        invariant
            all == docs(items@),
            all_texts(all.take(i as int)) == Some(texts(out@)),
    {
        assert(all.take(i + 1).drop_last() =~= all.take(i as int));
        match items[i].as_str() {
            Some(s) => {
                let ghost before = texts(out@);
                out.push(s.to_owned());
                assert(texts(out@) =~= before.push(s@));
            },
            None => {
                proof {
                    lemma_texts_prefix(all, i + 1);
                }
                return None;
            },
        }
    }
    assert(all.take(all.len() as int) =~= all);
    Some(out)
}

fn read_tags(entries: &Vec<(String, Json)>) -> (r: Result<Table<String, Vec<String>>, String>)
    ensures
        match r {
            Ok(t) => t.wf() && parsed_tags(fields(entries@)) == Ok::<
                Map<Seq<char>, Seq<Seq<char>>>,
                Seq<char>,
            >(t@.map_values(|v: Vec<String>| texts(v@))),
            Err(e) => parsed_tags(fields(entries@)) == Err::<
                Map<Seq<char>, Seq<Seq<char>>>,
                Seq<char>,
            >(e@),
        },
{
    let ghost all = fields(entries@);
    let mut out: Table<String, Vec<String>> = Table::new();
    assert(all.take(0) =~= Seq::empty());
    assert(out@.map_values(|v: Vec<String>| texts(v@)) =~= Map::empty());
    for i in 0..entries.len()
        invariant
            all == fields(entries@),
            out.wf(),
            parsed_tags(all.take(i as int)) == Ok::<Map<Seq<char>, Seq<Seq<char>>>, Seq<char>>(
                out@.map_values(|v: Vec<String>| texts(v@)),
            ),
    {
        assert(all.take(i + 1).drop_last() =~= all.take(i as int));
        let key = &entries[i].0;
        let values = match entries[i].1.as_array() {
            Some(items) => read_texts(items),
            None => None,
        };
        match values {
            Some(v) => {
                let ghost before = out@;
                let ghost value = v;
                out.insert(key.clone(), v);
                assert(out@.map_values(|v: Vec<String>| texts(v@)) =~= before.map_values(
                    |v: Vec<String>| texts(v@),
                ).insert(key@, texts(value@)));
            },
            None => {
                proof {
                    lemma_tags_prefix(all, i + 1);
                }
                return Err(between("tag '", key.as_str(), "' must be an array of strings"));
            },
        }
    }
    assert(all.take(all.len() as int) =~= all);
    Ok(out)
}

proof fn lemma_mxl_uuid_reads(s: Seq<char>)
    requires
        mxl_uuid(s),
    ensures
        reads_as_uuid(s),
        digit_places(s) is Some,
{
    assert(fits_place(8, s[8]) && fits_place(13, s[13]) && fits_place(18, s[18]) && fits_place(
        23,
        s[23],
    ));
}

/// The place in the text of a UUID that a digit stands at.
spec fn place_of(k: int) -> int {
    if k < 8 {
        k
    } else if k < 12 {
        k + 1
    } else if k < 16 {
        k + 2
    } else if k < 20 {
        k + 3
    } else {
        k + 4
    }
}

proof fn lemma_mxl_uuid_is_the_text(bits: u128, s: Seq<char>)
    requires
        mxl_uuid(s),
        denotes(bits, s),
    ensures
        uuid_text(bits) == s,
{
    lemma_mxl_uuid_reads(s);
    let ds = digit_places(s)->0;
    assert forall|i: int| 0 <= i < 36 implies uuid_text(bits)[i] == #[trigger] s[i] by {
        assert(fits_place(i, s[i]));
        if !hyphen_at(i) {
            let k = i - hyphens_before(i);
            assert(place_of(k) == i);
            assert(ds[k] == s[i]);
            assert(Some(nibble(bits, k)) == hex_value(ds[k]));
        }
    }
    assert(uuid_text(bits) =~= s);
}

/// An id with a version is one that a flow or a domain can have.
pub proof fn lemma_versioned_is_mxl_uuid(bits: u128, version: u128)
    requires
        version != 0,
        versioned(bits, version),
    ensures
        mxl_uuid(uuid_text(bits)),
{
    let s = uuid_text(bits);
    assert forall|i: int| 0 <= i < 36 implies fits_place(i, #[trigger] s[i]) by {
        if !hyphen_at(i) {
            let k = i - hyphens_before(i);
            let shift = (124 - 4 * k) as u128;
            assert((bits >> shift) & 0xf < 16) by (bit_vector);
            assert(nibble(bits, k) < 16);
        }
    }
}

impl DomainDef {
    /// Whether the id is one that a domain can have, and the table stands in order.
    pub open spec fn wf(self) -> bool {
        mxl_uuid(uuid_text(self.id.bits)) && self.tags.wf()
    }

    /// Reads a definition from a document.
    pub fn parse(v: &Json) -> (r: Result<DomainDef, String>)
        ensures
            r is Ok <==> definition_refusal(v@) is None,
            match r {
                Err(e) => definition_refusal(v@) == Some(e@),
                Ok(def) => {
                    &&& def.wf()
                    &&& denotes(
                        def.id.bits,
                        v@.text_field("id"@)->0,
                    )
                    &&& def@.label == v@.text_field("label"@)->0
                    &&& def@.description == v@.text_field("description"@)->0
                    &&& parsed_tags(tags_of(v@)->0) == Ok::<
                        Map<Seq<char>, Seq<Seq<char>>>,
                        Seq<char>,
                    >(def@.tags)
                },
            },
    {
        if v.as_object().is_none() {
            return Err("domain definition must be a JSON object".to_owned());
        }
        let id = match v.text_field("id") {
            Some(s) => s,
            None => {
                return Err(between("domain definition needs a string `", "id", "`"));
            },
        };
        if !is_mxl_uuid(id) {
            return Err(between("domain id '", id, "' is not a lowercase canonical UUID"));
        }
        let entries = match v.get("tags") {
            Some(t) => match t.as_object() {
                Some(es) => es,
                None => {
                    return Err("domain definition needs a `tags` object".to_owned());
                },
            },
            None => {
                return Err("domain definition needs a `tags` object".to_owned());
            },
        };
        let tags = match read_tags(entries) {
            Ok(t) => t,
            Err(e) => {
                return Err(e);
            },
        };
        let label = match v.text_field("label") {
            Some(s) => s.to_owned(),
            None => {
                return Err(between("domain definition needs a string `", "label", "`"));
            },
        };
        let description = match v.text_field("description") {
            Some(s) => s.to_owned(),
            None => {
                return Err(between("domain definition needs a string `", "description", "`"));
            },
        };
        proof {
            lemma_mxl_uuid_reads(id@);
        }
        match Uuid::parse(id) {
            Some(u) => {
                proof {
                    lemma_mxl_uuid_is_the_text(u.bits, id@);
                }
                Ok(DomainDef { id: u, label, description, tags })
            },
            None => Err(between("domain id '", id, "' is not a lowercase canonical UUID")),
        }
    }

    /// The definition as a document.
    pub fn to_json(&self) -> (r: Json)
        ensures
            r@ == Doc::object().with("id"@, Doc::Text(uuid_text(self.id.bits))).with(
                "label"@,
                Doc::Text(self.label@),
            ).with("description"@, Doc::Text(self.description@)).with(
                "tags"@,
                Doc::Object(tag_docs(self.tags.list())),
            ),
    {
        let mut tags = no_entries();
        let ghost want = tag_docs(self.tags.list());
        let n: usize = self.tags.len();
        for i in 0..n
            invariant
                n == self.tags.list().len(),
                want == tag_docs(self.tags.list()),
                fields(tags@) == want.take(i as int),
        {
            let values = self.tags.value_at(i);
            let mut items = no_items();
            let ghost shown = texts(values@).map_values(|t: Seq<char>| Doc::Text(t));
            for k in 0..values.len()
                invariant
                    shown == texts(values@).map_values(|t: Seq<char>| Doc::Text(t)),
                    docs(items@) == shown.take(k as int),
            {
                put_item(&mut items, Json::text(values[k].as_str()));
                assert(docs(items@) =~= shown.take(k + 1));
            }
            assert(docs(items@) =~= shown);
            put_entry(&mut tags, self.tags.key_at(i).clone(), Json::array(items));
            assert(fields(tags@) =~= want.take(i + 1));
        }
        assert(fields(tags@) =~= want);
        Json::new_object().with("id", Json::Text(self.id.to_string())).with(
            "label",
            Json::text(self.label.as_str()),
        ).with("description", Json::text(self.description.as_str())).with(
            "tags",
            Json::object(tags),
        )
    }

    /// A definition for a domain that has none, with a random id.
    pub fn fresh(label: &str, directory: &str) -> (r: DomainDef)
        ensures
            r.wf(),
            versioned(r.id.bits, 4),
            r@ == (DomainModel {
                id: r.id,
                label: label@,
                description: "MXL domain at "@ + directory@
                    + " (definition created by mxl-bridge)"@,
                tags: Map::empty(),
            }),
    {
        let id = Uuid::random();
        proof {
            lemma_versioned_is_mxl_uuid(id.bits, 4);
        }
        DomainDef::fresh_with_id(id, label, directory)
    }

    /// A definition for a domain that has none, with an id.
    pub fn fresh_with_id(id: Uuid, label: &str, directory: &str) -> (r: DomainDef)
        ensures
            r.wf() <==> mxl_uuid(uuid_text(id.bits)),
            r@ == (DomainModel {
                id,
                label: label@,
                description: "MXL domain at "@ + directory@
                    + " (definition created by mxl-bridge)"@,
                tags: Map::empty(),
            }),
    {
        let r = DomainDef {
            id,
            label: label.to_owned(),
            description: between("MXL domain at ", directory, " (definition created by mxl-bridge)"),
            tags: Table::new(),
        };
        assert(r@.tags =~= Map::empty());
        r
    }
}

proof fn lemma_all_texts(v: Seq<Seq<char>>)
    ensures
        all_texts(v.map_values(|t: Seq<char>| Doc::Text(t))) == Some(v),
    decreases v.len(),
{
    let ds = v.map_values(|t: Seq<char>| Doc::Text(t));
    if v.len() == 0 {
        assert(v =~= Seq::empty());
    } else {
        lemma_all_texts(v.drop_last());
        assert(ds.drop_last() =~= v.drop_last().map_values(|t: Seq<char>| Doc::Text(t)));
        assert(v.drop_last().push(v.last()) =~= v);
    }
}

/// What the tags of a definition say.
pub open spec fn tag_map(s: Seq<(String, Vec<String>)>) -> Map<Seq<char>, Seq<Seq<char>>> {
    as_map(s).map_values(|v: Vec<String>| texts(v@))
}

proof fn lemma_tags_read_back(s: Seq<(String, Vec<String>)>)
    requires
        sorted(s),
    ensures
        parsed_tags(tag_docs(s)) == Ok::<Map<Seq<char>, Seq<Seq<char>>>, Seq<char>>(tag_map(s)),
    decreases s.len(),
{
    let ds = tag_docs(s);
    if s.len() == 0 {
        assert(tag_map(s) =~= Map::empty());
    } else {
        let rest = s.drop_last();
        let last = s.last();
        assert(sorted(rest)) by {
            assert forall|i: int, j: int| 0 <= i < j < rest.len() implies String::before(
                #[trigger] rest[i].0@,
                #[trigger] rest[j].0@,
            ) by {
                assert(String::before(s[i].0@, s[j].0@));
            }
        }
        lemma_tags_read_back(rest);
        assert(ds.drop_last() =~= tag_docs(rest));
        lemma_all_texts(texts(last.1@));
        let a = tag_map(s);
        let b = tag_map(rest).insert(last.0@, texts(last.1@));
        assert forall|k: Seq<char>|
            #![trigger a.dom().contains(k)]
            #![trigger a[k]]
            a.dom().contains(k) == b.dom().contains(k) && (b.dom().contains(k) ==> a[k] == b[k]) by {
            if as_map(s).contains_key(k) {
                let i = lemma_from_map(s, k);
                if i < rest.len() {
                    assert(rest[i] == s[i]);
                    lemma_in_map(rest, i);
                    lemma_distinct(s, i, s.len() - 1);
                }
            }
            if as_map(rest).contains_key(k) {
                let i = lemma_from_map(rest, k);
                assert(rest[i] == s[i]);
                lemma_in_map(s, i);
                lemma_distinct(s, i, s.len() - 1);
            }
            lemma_in_map(s, s.len() - 1);
        }
        assert(a =~= b);
    }
}

/// A definition that was written is read as the same definition.
pub proof fn law_definition_reads_back(def: DomainDef, d: Doc)
    requires
        def.wf(),
        d == Doc::object().with("id"@, Doc::Text(uuid_text(def.id.bits))).with(
            "label"@,
            Doc::Text(def.label@),
        ).with("description"@, Doc::Text(def.description@)).with(
            "tags"@,
            Doc::Object(tag_docs(def.tags.list())),
        ),
    ensures
        definition_refusal(d) is None,
        forall|bits: u128| #[trigger]
            denotes(bits, d.text_field("id"@)->0) <==> bits == def.id.bits,
        d.text_field("label"@) == Some(def@.label),
        d.text_field("description"@) == Some(def@.description),
        parsed_tags(tags_of(d)->0) == Ok::<Map<Seq<char>, Seq<Seq<char>>>, Seq<char>>(def@.tags),
{
    broadcast use {lemma_field_with, lemma_field_empty};

    reveal_strlit("id");
    reveal_strlit("label");
    reveal_strlit("description");
    reveal_strlit("tags");
    assert("id"@.len() == 2 && "label"@.len() == 5 && "description"@.len() == 11 && "tags"@.len()
        == 4);
    lemma_tags_read_back(def.tags.list());
    assert(d.text_field("id"@) == Some(uuid_text(def.id.bits)));
    assert(tags_of(d) == Some(tag_docs(def.tags.list())));
    assert forall|bits: u128| #[trigger]
        denotes(bits, d.text_field("id"@)->0) <==> bits == def.id.bits by {
        law_uuid_reads_back(def.id.bits, bits);
    }
}

/// An id is written in groups of eight, four, four, four and twelve lower-case digits.
pub proof fn law_ids_are_lower_case_groups(s: Seq<char>, i: int)
    requires
        mxl_uuid(s),
        0 <= i < s.len(),
    ensures
        s.len() == 36,
        s[i] == '-' <==> i == 8 || i == 13 || i == 18 || i == 23,
        s[i] != '-' ==> '0' <= s[i] <= '9' || 'a' <= s[i] <= 'f',
{
    assert(fits_place(i, s[i]));
}

proof fn lemma_tags_accepted(es: Seq<(Seq<char>, Doc)>)
    ensures
        parsed_tags(es) is Ok <==> forall|i: int|
            0 <= i < es.len() ==> ((#[trigger] es[i]).1 matches Doc::Array(items) && all_texts(
                items,
            ) is Some),
    decreases es.len(),
{
    if es.len() > 0 {
        let rest = es.drop_last();
        lemma_tags_accepted(rest);
        assert(forall|i: int| 0 <= i < rest.len() ==> rest[i] == es[i]);
        assert(es[es.len() - 1] == es.last());
        assert forall|i: int| 0 <= i < es.len() && parsed_tags(es) is Ok implies ((
        #[trigger] es[i]).1 matches Doc::Array(items) && all_texts(items) is Some) by {
            if i < rest.len() {
                assert(rest[i] == es[i]);
            }
        }
    }
}

proof fn lemma_texts_only(items: Seq<Doc>)
    ensures
        all_texts(items) is Some <==> forall|i: int|
            0 <= i < items.len() ==> (#[trigger] items[i]) is Text,
    decreases items.len(),
{
    if items.len() > 0 {
        let rest = items.drop_last();
        lemma_texts_only(rest);
        assert(forall|i: int| 0 <= i < rest.len() ==> rest[i] == items[i]);
        assert(items[items.len() - 1] == items.last());
        assert forall|i: int| 0 <= i < items.len() && all_texts(items) is Some implies (
        #[trigger] items[i]) is Text by {
            if i < rest.len() {
                assert(rest[i] == items[i]);
            }
        }
    }
}

/// A document is a definition exactly where it is an object with an id of the right form, a label, a
/// description, and tags of which each is an array of texts.
pub proof fn law_what_is_a_definition(d: Doc)
    ensures
        definition_refusal(d) is None <==> {
            &&& d is Object
            &&& d.field("id"@) matches Some(Doc::Text(id)) && mxl_uuid(id)
            &&& d.field("label"@) matches Some(Doc::Text(_))
            &&& d.field("description"@) matches Some(Doc::Text(_))
            &&& d.field("tags"@) matches Some(Doc::Object(es)) && forall|i: int|
                0 <= i < es.len() ==> ((#[trigger] es[i]).1 matches Doc::Array(items) && forall|
                    j: int,
                |
                    0 <= j < items.len() ==> (#[trigger] items[j]) is Text)
        },
{
    if let Some(es) = tags_of(d) {
        lemma_tags_accepted(es);
        assert forall|i: int| 0 <= i < es.len() && (#[trigger] es[i]).1 is Array implies (all_texts(
            es[i].1->Array_0,
        ) is Some <==> forall|j: int|
            0 <= j < es[i].1->Array_0.len() ==> (#[trigger] es[i].1->Array_0[j]) is Text) by {
            lemma_texts_only(es[i].1->Array_0);
        }
    }
}

} // verus!
