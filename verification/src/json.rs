//! The wire format: turning a document into its exact JSON text, and reading
//! JSON text back into a document. Key order and omission rules follow the
//! JSON:API wire format: `type`, `id`, `attributes`, `relationships`,
//! `links`, `meta` on a resource; `data`, `included`, `errors`, `links`,
//! `meta` on a document; empty or absent members are omitted.

use vstd::prelude::*;
use crate::value::{JsonValue, ValueModel, value_view, entry_views, lemma_entry_views,
    lemma_value_views, value_views};
use crate::api::{
    IdentifierData, IdentifierDataModel, IdentifierModel, JsonApiDocument, JsonApiError,
    DocumentModel, PrimaryData, PrimaryDataModel, Relationship, RelationshipModel, Resource,
    ResourceIdentifier, ResourceModel, identifier_views, relationship_entry_views, resource_views,
};

verus! {

broadcast use {vstd::std_specs::vec::group_vec_axioms, vstd::seq::group_seq_axioms};

/// The decimal digits of `n`, most significant first.
pub open spec fn dec_nat(n: nat) -> Seq<char>
    decreases n,
{
    if n < 10 {
        seq![((48 + n) as u8) as char]
    } else {
        dec_nat(n / 10).push(((48 + n % 10) as u8) as char)
    }
}

/// The decimal form of an integer, with a leading minus sign when negative.
pub open spec fn dec_int(n: int) -> Seq<char> {
    if n < 0 {
        seq!['-'] + dec_nat((-n) as nat)
    } else {
        dec_nat(n as nat)
    }
}

/// One hex digit (lower case).
pub open spec fn hex_digit(d: nat) -> char {
    if d < 10 {
        ((48 + d) as u8) as char
    } else {
        ((87 + d) as u8) as char
    }
}

/// The JSON escape of one character inside a string literal.
pub open spec fn esc_char(c: char) -> Seq<char> {
    if c == '"' {
        seq!['\\', '"']
    } else if c == '\\' {
        seq!['\\', '\\']
    } else if c == '\n' {
        seq!['\\', 'n']
    } else if c == '\r' {
        seq!['\\', 'r']
    } else if c == '\t' {
        seq!['\\', 't']
    } else if (c as u32) < 32 {
        seq!['\\', 'u', '0', '0', hex_digit(((c as u32) / 16) as nat), hex_digit(
            ((c as u32) % 16) as nat,
        )]
    } else {
        seq![c]
    }
}

/// The escaped form of the first `upto` characters of a string.
pub open spec fn esc_str(s: Seq<char>, upto: int) -> Seq<char>
    decreases upto,
{
    if 0 < upto <= s.len() {
        esc_str(s, upto - 1) + esc_char(s[upto - 1])
    } else {
        Seq::empty()
    }
}

/// A JSON string literal: quotes around the escaped characters.
pub open spec fn json_string(s: Seq<char>) -> Seq<char> {
    seq!['"'] + esc_str(s, s.len() as int) + seq!['"']
}

/// The JSON text of a value.
pub open spec fn json_of(v: ValueModel) -> Seq<char>
    decreases v, 1int, 0int,
{
    match v {
        ValueModel::Null => seq!['n', 'u', 'l', 'l'],
        ValueModel::Bool(b) => if b {
            seq!['t', 'r', 'u', 'e']
        } else {
            seq!['f', 'a', 'l', 's', 'e']
        },
        ValueModel::Number(n) => dec_int(n),
        ValueModel::Str(s) => json_string(s),
        ValueModel::Array(items) => seq!['['] + json_of_items(items, items.len() as int) + seq![
            ']',
        ],
        ValueModel::Object(entries) => seq!['{'] + json_of_entries(
            entries,
            entries.len() as int,
        ) + seq!['}'],
    }
}

/// The comma-separated JSON texts of the first `upto` array items.
pub open spec fn json_of_items(items: Seq<ValueModel>, upto: int) -> Seq<char>
    decreases items, 0int, upto,
{
    if 0 < upto <= items.len() {
        if upto == 1 {
            json_of(items[0])
        } else {
            json_of_items(items, upto - 1) + seq![','] + json_of(items[upto - 1])
        }
    } else {
        Seq::empty()
    }
}

/// The comma-separated `"key":value` texts of the first `upto` object
/// entries.
pub open spec fn json_of_entries(entries: Seq<(Seq<char>, ValueModel)>, upto: int) -> Seq<char>
    decreases entries, 0int, upto,
{
    if 0 < upto <= entries.len() {
        let one = json_string(entries[upto - 1].0) + seq![':'] + json_of(entries[upto - 1].1);
        if upto == 1 {
            one
        } else {
            json_of_entries(entries, upto - 1) + seq![','] + one
        }
    } else {
        Seq::empty()
    }
}

/// Appends the decimal digits of `n`.
fn push_dec_u64(n: u64, out: &mut Vec<char>)
    ensures
        final(out)@ == old(out)@ + dec_nat(n as nat),
    decreases n,
{
    if n < 10 {
        out.push((48 + n as u8) as char);
        proof {
            assert(out@ =~= old(out)@ + dec_nat(n as nat));
        }
    } else {
        push_dec_u64(n / 10, out);
        out.push((48 + (n % 10) as u8) as char);
        proof {
            assert(out@ =~= old(out)@ + dec_nat(n as nat));
        }
    }
}

/// Appends the decimal form of `n`, with a minus sign when negative.
fn push_dec_i64(n: i64, out: &mut Vec<char>)
    ensures
        final(out)@ == old(out)@ + dec_int(n as int),
{
    if n < 0 {
        out.push('-');
        let mag: u64 = (-(n as i128)) as u64;
        proof {
            assert(mag as nat == (-(n as int)) as nat);
        }
        push_dec_u64(mag, out);
        proof {
            assert(out@ =~= old(out)@ + dec_int(n as int));
        }
    } else {
        push_dec_u64(n as u64, out);
    }
}

/// The decimal string of an integer: how numeric ids are stringified.
pub fn i64_to_string(n: i64) -> (r: String)
    ensures
        r@ == dec_int(n as int),
{
    let mut out: Vec<char> = Vec::new();
    push_dec_i64(n, &mut out);
    chars_to_string(&out)
}

/// Relies on std's `FromIterator<char> for String`: collecting characters
/// yields the string made of exactly those characters, in order.
#[verifier::external_body]
pub(crate) fn chars_to_string(v: &Vec<char>) -> (r: String)
    ensures
        r@ == v@,
{
    v.iter().collect()
}

/// Relies on `str::chars`: the characters of a string slice, in order.
#[verifier::external_body]
pub(crate) fn str_to_chars(s: &str) -> (r: Vec<char>)
    ensures
        r@ == s@,
{
    s.chars().collect()
}

/// Relies on `char::from_u32`: any code below the surrogate range is a valid
/// character with that code.
#[verifier::external_body]
fn char_from_u32(x: u32) -> (r: Option<char>)
    ensures
        x < 0xD800 ==> (r is Some && r->0 as u32 == x),
{
    char::from_u32(x)
}

/// Appends one character's JSON escape.
fn push_escaped_char(c: char, out: &mut Vec<char>)
    ensures
        final(out)@ == old(out)@ + esc_char(c),
{
    if c == '"' {
        out.push('\\');
        out.push('"');
    } else if c == '\\' {
        out.push('\\');
        out.push('\\');
    } else if c == '\n' {
        out.push('\\');
        out.push('n');
    } else if c == '\r' {
        out.push('\\');
        out.push('r');
    } else if c == '\t' {
        out.push('\\');
        out.push('t');
    } else if (c as u32) < 32 {
        out.push('\\');
        out.push('u');
        out.push('0');
        out.push('0');
        let hi = (c as u32) / 16;
        let lo = (c as u32) % 16;
        out.push(if hi < 10 {
            (48 + hi as u8) as char
        } else {
            (87 + hi as u8) as char
        });
        out.push(if lo < 10 {
            (48 + lo as u8) as char
        } else {
            (87 + lo as u8) as char
        });
    } else {
        out.push(c);
    }
    proof {
        assert(out@ =~= old(out)@ + esc_char(c));
    }
}

/// Appends a JSON string literal.
#[verifier::loop_isolation(false)]
fn push_json_string(s: &String, out: &mut Vec<char>)
    ensures
        final(out)@ == old(out)@ + json_string(s@),
{
    out.push('"');
    let chars = str_to_chars(s.as_str());
    let mut i: usize = 0;
    while i < chars.len()
        invariant
            i <= chars.len(),
            chars@ == s@,
            out@ =~= old(out)@ + seq!['"'] + esc_str(s@, i as int),
        decreases chars.len() - i,
    {
        push_escaped_char(chars[i], out);
        i = i + 1;
        proof {
            assert(out@ =~= old(out)@ + seq!['"'] + esc_str(s@, i as int));
        }
    }
    out.push('"');
    proof {
        assert(out@ =~= old(out)@ + json_string(s@));
    }
}

/// Appends the JSON text of a value.
#[verifier::loop_isolation(false)]
pub fn push_json_of(v: &JsonValue, out: &mut Vec<char>)
    ensures
        final(out)@ == old(out)@ + json_of(v@),
    decreases v, 1int, 0int,
{
    broadcast use {lemma_value_views, lemma_entry_views};

    match v {
        JsonValue::Null => {
            out.push('n');
            out.push('u');
            out.push('l');
            out.push('l');
            proof {
                assert(out@ =~= old(out)@ + json_of(v@));
            }
        },
        JsonValue::Bool(b) => {
            if *b {
                out.push('t');
                out.push('r');
                out.push('u');
                out.push('e');
            } else {
                out.push('f');
                out.push('a');
                out.push('l');
                out.push('s');
                out.push('e');
            }
            proof {
                assert(out@ =~= old(out)@ + json_of(v@));
            }
        },
        JsonValue::Number(n) => {
            push_dec_i64(*n, out);
        },
        JsonValue::Str(s) => {
            push_json_string(s, out);
        },
        JsonValue::Array(items) => {
            out.push('[');
            let ghost itemsm = value_views(items@);
            let mut i: usize = 0;
            while i < items.len()
                invariant
                    i <= items.len(),
                    itemsm == value_views(items@),
                    itemsm.len() == items@.len(),
                    out@ =~= old(out)@ + seq!['['] + json_of_items(itemsm, i as int),
                decreases items.len() - i,
            {
                if i > 0 {
                    out.push(',');
                }
                proof {
                    assert(decreases_to!(*v => *items));
                    assert(decreases_to!(*items => items@));
                    assert(decreases_to!(items@ => items@[i as int]));
                }
                push_json_of(&items[i], out);
                i = i + 1;
                proof {
                    assert(itemsm[i - 1] == items@[i - 1]@);
                    assert(out@ =~= old(out)@ + seq!['['] + json_of_items(itemsm, i as int));
                }
            }
            out.push(']');
            proof {
                assert(out@ =~= old(out)@ + json_of(v@));
            }
        },
        JsonValue::Object(entries) => {
            out.push('{');
            let ghost em = entry_views(entries@);
            let mut i: usize = 0;
            while i < entries.len()
                invariant
                    i <= entries.len(),
                    em == entry_views(entries@),
                    em.len() == entries@.len(),
                    out@ =~= old(out)@ + seq!['{'] + json_of_entries(em, i as int),
                decreases entries.len() - i,
            {
                if i > 0 {
                    out.push(',');
                }
                push_json_string(&entries[i].0, out);
                out.push(':');
                proof {
                    assert(decreases_to!(*v => *entries));
                    assert(decreases_to!(*entries => entries@));
                    assert(decreases_to!(entries@ => entries@[i as int]));
                    assert(decreases_to!(entries@[i as int] => entries@[i as int].1));
                }
                push_json_of(&entries[i].1, out);
                i = i + 1;
                proof {
                    assert(em[i - 1] == (entries@[i - 1].0@, entries@[i - 1].1@));
                    assert(out@ =~= old(out)@ + seq!['{'] + json_of_entries(em, i as int));
                }
            }
            out.push('}');
            proof {
                assert(out@ =~= old(out)@ + json_of(v@));
            }
        },
    }
}

/// The JSON text of a generic value.
pub fn value_to_json(v: &JsonValue) -> (r: String)
    ensures
        r@ == json_of(v@),
{
    let mut out: Vec<char> = Vec::new();
    push_json_of(v, &mut out);
    chars_to_string(&out)
}

/// The generic value of a resource identifier: `{"type": ..., "id": ...}`.
pub open spec fn value_of_identifier(idm: IdentifierModel) -> ValueModel {
    ValueModel::Object(
        seq![("type"@, ValueModel::Str(idm.ty)), ("id"@, ValueModel::Str(idm.id))],
    )
}

/// The generic values of the first `upto` identifiers.
pub open spec fn ident_values(ids: Seq<IdentifierModel>, upto: int) -> Seq<ValueModel>
    decreases upto,
{
    if 0 < upto <= ids.len() {
        ident_values(ids, upto - 1) + seq![value_of_identifier(ids[upto - 1])]
    } else {
        Seq::empty()
    }
}

/// The generic value of a relationship: its identifier data under `data`,
/// plus `links` when present.
pub open spec fn value_of_relationship(rm: RelationshipModel) -> ValueModel {
    ValueModel::Object(
        seq![
            (
                "data"@,
                match rm.data {
                    IdentifierDataModel::Null => ValueModel::Null,
                    IdentifierDataModel::Single(idm) => value_of_identifier(idm),
                    IdentifierDataModel::Multiple(ids) => ValueModel::Array(
                        ident_values(ids, ids.len() as int),
                    ),
                },
            ),
        ] + (match rm.links {
            Option::None => Seq::empty(),
            Option::Some(l) => seq![("links"@, l)],
        }),
    )
}

/// The object entries of the first `upto` named relationships.
pub open spec fn rel_entry_values(
    entries: Seq<(Seq<char>, RelationshipModel)>,
    upto: int,
) -> Seq<(Seq<char>, ValueModel)>
    decreases upto,
{
    if 0 < upto <= entries.len() {
        rel_entry_values(entries, upto - 1) + seq![
            (entries[upto - 1].0, value_of_relationship(entries[upto - 1].1)),
        ]
    } else {
        Seq::empty()
    }
}

/// The generic value of a resource, with keys in wire order and empty or
/// absent members omitted.
pub open spec fn value_of_resource(r: ResourceModel) -> ValueModel {
    ValueModel::Object(
        seq![("type"@, ValueModel::Str(r.ty))] + (match r.id {
            Option::None => Seq::empty(),
            Option::Some(id) => seq![("id"@, ValueModel::Str(id))],
        }) + (if r.attributes.len() > 0 {
            seq![("attributes"@, ValueModel::Object(r.attributes))]
        } else {
            Seq::empty()
        }) + (match r.relationships {
            Option::Some(entries) => if entries.len() > 0 {
                seq![
                    (
                        "relationships"@,
                        ValueModel::Object(rel_entry_values(entries, entries.len() as int)),
                    ),
                ]
            } else {
                Seq::empty()
            },
            Option::None => Seq::empty(),
        }) + (match r.links {
            Option::None => Seq::empty(),
            Option::Some(l) => seq![("links"@, l)],
        }) + (match r.meta {
            Option::None => Seq::empty(),
            Option::Some(m) => seq![("meta"@, m)],
        }),
    )
}

/// The generic values of the first `upto` resources.
pub open spec fn resource_values(rs: Seq<ResourceModel>, upto: int) -> Seq<ValueModel>
    decreases upto,
{
    if 0 < upto <= rs.len() {
        resource_values(rs, upto - 1) + seq![value_of_resource(rs[upto - 1])]
    } else {
        Seq::empty()
    }
}

/// The generic value of a document, with keys in wire order and empty or
/// absent members omitted.
pub open spec fn value_of_document(d: DocumentModel) -> ValueModel {
    ValueModel::Object(
        (match d.data {
            Option::None => Seq::empty(),
            Option::Some(pd) => seq![
                (
                    "data"@,
                    match pd {
                        PrimaryDataModel::Null => ValueModel::Null,
                        PrimaryDataModel::Single(r) => value_of_resource(r),
                        PrimaryDataModel::Multiple(rs) => ValueModel::Array(
                            resource_values(rs, rs.len() as int),
                        ),
                    },
                ),
            ],
        }) + (match d.included {
            Option::Some(rs) => if rs.len() > 0 {
                seq![("included"@, ValueModel::Array(resource_values(rs, rs.len() as int)))]
            } else {
                Seq::empty()
            },
            Option::None => Seq::empty(),
        }) + (match d.errors {
            Option::None => Seq::empty(),
            Option::Some(e) => seq![("errors"@, e)],
        }) + (match d.links {
            Option::None => Seq::empty(),
            Option::Some(l) => seq![("links"@, l)],
        }) + (match d.meta {
            Option::None => Seq::empty(),
            Option::Some(m) => seq![("meta"@, m)],
        }),
    )
}

/// Builds the generic value of one identifier.
fn identifier_to_value(ident: &ResourceIdentifier) -> (r: JsonValue)
    ensures
        r@ == value_of_identifier(ident@),
{
    broadcast use lemma_entry_views;

    let mut entries: Vec<(String, JsonValue)> = Vec::new();
    entries.push((String::from_str("type"), JsonValue::Str(ident._type.clone())));
    entries.push((String::from_str("id"), JsonValue::Str(ident.id.clone())));
    let r = JsonValue::Object(entries);
    proof {
        assert(entries@.len() == 2);
        assert(entry_views(entries@).len() == 2);
        assert(entries@[0].0@ == "type"@);
        assert(value_view(entries@[0].1) == ValueModel::Str(ident._type@));
        assert(entry_views(entries@)[0] == ("type"@, ValueModel::Str(ident@.ty)));
        assert(entry_views(entries@)[1] == ("id"@, ValueModel::Str(ident@.id)));
        assert(entry_views(entries@) =~= seq![
            ("type"@, ValueModel::Str(ident@.ty)),
            ("id"@, ValueModel::Str(ident@.id)),
        ]);
        assert(r@ == value_of_identifier(ident@));
    }
    r
}

/// Builds the generic value of one relationship.
#[verifier::loop_isolation(false)]
fn relationship_to_value(rel: &Relationship) -> (r: JsonValue)
    ensures
        r@ == value_of_relationship(rel@),
{
    broadcast use {lemma_entry_views, lemma_value_views};

    let data: JsonValue = match &rel.data {
        IdentifierData::Null => JsonValue::Null,
        IdentifierData::Single(ident) => identifier_to_value(ident),
        IdentifierData::Multiple(ids) => {
            let ghost idm = identifier_views(ids@);
            let mut items: Vec<JsonValue> = Vec::new();
            let mut i: usize = 0;
            while i < ids.len()
                invariant
                    i <= ids.len(),
                    crate::value::value_views(items@) =~= ident_values(idm, i as int),
                decreases ids.len() - i,
            {
                proof {
                    broadcast use lemma_value_views;

                    assert(idm[i as int] == ids@[i as int]@);
                }
                items.push(identifier_to_value(&ids[i]));
                i = i + 1;
                proof {
                    broadcast use lemma_value_views;

                    assert(crate::value::value_views(items@) =~= ident_values(idm, i as int));
                }
            }
            let arr = JsonValue::Array(items);
            proof {
                assert(value_views(items@) =~= ident_values(idm, idm.len() as int));
                assert(arr@ == ValueModel::Array(ident_values(idm, idm.len() as int)));
            }
            arr
        },
    };
    let ghost datam = match rel@.data {
        IdentifierDataModel::Null => ValueModel::Null,
        IdentifierDataModel::Single(idm) => value_of_identifier(idm),
        IdentifierDataModel::Multiple(ids) => ValueModel::Array(
            ident_values(ids, ids.len() as int),
        ),
    };
    proof {
        assert(data@ == datam);
    }
    let mut entries: Vec<(String, JsonValue)> = Vec::new();
    entries.push((String::from_str("data"), data));
    match &rel.links {
        Option::None => {},
        Option::Some(l) => {
            entries.push((String::from_str("links"), crate::value::clone_value(l)));
        },
    }
    let r = JsonValue::Object(entries);
    proof {
        assert(entry_views(entries@) =~= seq![("data"@, datam)] + (match rel@.links {
            Option::None => Seq::empty(),
            Option::Some(l) => seq![("links"@, l)],
        }));
        assert(r@ == value_of_relationship(rel@));
    }
    r
}

/// Builds the generic value of one resource.
#[verifier::loop_isolation(false)]
pub fn resource_to_value(res: &Resource) -> (r: JsonValue)
    ensures
        r@ == value_of_resource(res@),
{
    broadcast use lemma_entry_views;

    let mut entries: Vec<(String, JsonValue)> = Vec::new();
    entries.push((String::from_str("type"), JsonValue::Str(res._type.clone())));
    match &res.id {
        Option::None => {},
        Option::Some(id) => {
            entries.push((String::from_str("id"), JsonValue::Str(id.clone())));
        },
    }
    if res.attributes.len() > 0 {
        let attrs = crate::model::clone_attribute_entries(&res.attributes);
        entries.push((String::from_str("attributes"), JsonValue::Object(attrs)));
    }
    match &res.relationships {
        Option::None => {},
        Option::Some(rels) => {
            if rels.len() > 0 {
                let ghost rm = relationship_entry_views(rels@);
                let mut rel_entries: Vec<(String, JsonValue)> = Vec::new();
                let mut i: usize = 0;
                while i < rels.len()
                    invariant
                        i <= rels.len(),
                        entry_views(rel_entries@) =~= rel_entry_values(rm, i as int),
                    decreases rels.len() - i,
                {
                    proof {
                        assert(rm[i as int] == (rels@[i as int].0@, rels@[i as int].1@));
                    }
                    let name = rels[i].0.clone();
                    let rv = relationship_to_value(&rels[i].1);
                    rel_entries.push((name, rv));
                    i = i + 1;
                    proof {
                        assert(entry_views(rel_entries@) =~= rel_entry_values(rm, i as int));
                    }
                }
                entries.push((String::from_str("relationships"), JsonValue::Object(rel_entries)));
            }
        },
    }
    proof {
        assert(entry_views(entries@) =~= seq![("type"@, ValueModel::Str(res@.ty))] + (
        match res@.id {
            Option::None => Seq::empty(),
            Option::Some(id) => seq![("id"@, ValueModel::Str(id))],
        }) + (if res@.attributes.len() > 0 {
            seq![("attributes"@, ValueModel::Object(res@.attributes))]
        } else {
            Seq::empty()
        }) + (match res@.relationships {
            Option::Some(rentries) => if rentries.len() > 0 {
                seq![
                    (
                        "relationships"@,
                        ValueModel::Object(rel_entry_values(rentries, rentries.len() as int)),
                    ),
                ]
            } else {
                Seq::empty()
            },
            Option::None => Seq::empty(),
        }));
    }
    match &res.links {
        Option::None => {},
        Option::Some(l) => {
            entries.push((String::from_str("links"), crate::value::clone_value(l)));
        },
    }
    match &res.meta {
        Option::None => {},
        Option::Some(m) => {
            entries.push((String::from_str("meta"), crate::value::clone_value(m)));
        },
    }
    let r = JsonValue::Object(entries);
    proof {
        assert(entry_views(entries@) =~= seq![("type"@, ValueModel::Str(res@.ty))] + (
        match res@.id {
            Option::None => Seq::empty(),
            Option::Some(id) => seq![("id"@, ValueModel::Str(id))],
        }) + (if res@.attributes.len() > 0 {
            seq![("attributes"@, ValueModel::Object(res@.attributes))]
        } else {
            Seq::empty()
        }) + (match res@.relationships {
            Option::Some(rentries) => if rentries.len() > 0 {
                seq![
                    (
                        "relationships"@,
                        ValueModel::Object(rel_entry_values(rentries, rentries.len() as int)),
                    ),
                ]
            } else {
                Seq::empty()
            },
            Option::None => Seq::empty(),
        }) + (match res@.links {
            Option::None => Seq::empty(),
            Option::Some(l) => seq![("links"@, l)],
        }) + (match res@.meta {
            Option::None => Seq::empty(),
            Option::Some(m) => seq![("meta"@, m)],
        }));
        assert(r@ == value_of_resource(res@));
    }
    r
}

/// Builds the generic values of a resource list.
#[verifier::loop_isolation(false)]
fn resources_to_values(rs: &Vec<Resource>) -> (r: Vec<JsonValue>)
    ensures
        crate::value::value_views(r@) == resource_values(resource_views(rs@), rs@.len() as int),
{
    broadcast use lemma_value_views;

    let ghost rm = resource_views(rs@);
    let mut items: Vec<JsonValue> = Vec::new();
    let mut i: usize = 0;
    while i < rs.len()
        invariant
            i <= rs.len(),
            crate::value::value_views(items@) =~= resource_values(rm, i as int),
        decreases rs.len() - i,
    {
        proof {
            assert(rm[i as int] == rs@[i as int]@);
        }
        items.push(resource_to_value(&rs[i]));
        i = i + 1;
        proof {
            assert(crate::value::value_views(items@) =~= resource_values(rm, i as int));
        }
    }
    items
}

/// Builds the generic value of a whole document.
pub fn document_to_value(doc: &JsonApiDocument) -> (r: JsonValue)
    ensures
        r@ == value_of_document(doc@),
{
    broadcast use {lemma_entry_views, lemma_value_views};

    let mut entries: Vec<(String, JsonValue)> = Vec::new();
    match &doc.data {
        Option::None => {},
        Option::Some(pd) => {
            let dv: JsonValue = match pd {
                PrimaryData::Null => JsonValue::Null,
                PrimaryData::Single(res) => resource_to_value(res),
                PrimaryData::Multiple(rs) => {
                    let items = resources_to_values(rs);
                    let arr = JsonValue::Array(items);
                    proof {
                        assert(value_views(items@) =~= resource_values(
                            resource_views(rs@),
                            rs@.len() as int,
                        ));
                        assert(arr@ == ValueModel::Array(
                            resource_values(resource_views(rs@), rs@.len() as int),
                        ));
                    }
                    arr
                },
            };
            proof {
                assert(dv@ == (match doc@.data->0 {
                    PrimaryDataModel::Null => ValueModel::Null,
                    PrimaryDataModel::Single(r) => value_of_resource(r),
                    PrimaryDataModel::Multiple(rs) => ValueModel::Array(
                        resource_values(rs, rs.len() as int),
                    ),
                }));
            }
            entries.push((String::from_str("data"), dv));
        },
    }
    proof {
        assert(entry_views(entries@) =~= (match doc@.data {
            Option::None => Seq::empty(),
            Option::Some(pd) => seq![
                (
                    "data"@,
                    match pd {
                        PrimaryDataModel::Null => ValueModel::Null,
                        PrimaryDataModel::Single(r) => value_of_resource(r),
                        PrimaryDataModel::Multiple(rs) => ValueModel::Array(
                            resource_values(rs, rs.len() as int),
                        ),
                    },
                ),
            ],
        }));
    }
    match &doc.included {
        Option::None => {},
        Option::Some(rs) => {
            if rs.len() > 0 {
                let items = resources_to_values(rs);
                let arr = JsonValue::Array(items);
                proof {
                    assert(value_views(items@) =~= resource_values(
                        resource_views(rs@),
                        rs@.len() as int,
                    ));
                    assert(arr@ == ValueModel::Array(
                        resource_values(resource_views(rs@), rs@.len() as int),
                    ));
                }
                entries.push((String::from_str("included"), arr));
            }
        },
    }
    match &doc.errors {
        Option::None => {},
        Option::Some(e) => {
            entries.push((String::from_str("errors"), crate::value::clone_value(e)));
        },
    }
    match &doc.links {
        Option::None => {},
        Option::Some(l) => {
            entries.push((String::from_str("links"), crate::value::clone_value(l)));
        },
    }
    match &doc.meta {
        Option::None => {},
        Option::Some(m) => {
            entries.push((String::from_str("meta"), crate::value::clone_value(m)));
        },
    }
    let r = JsonValue::Object(entries);
    proof {
        assert(entry_views(entries@) =~= (match doc@.data {
            Option::None => Seq::empty(),
            Option::Some(pd) => seq![
                (
                    "data"@,
                    match pd {
                        PrimaryDataModel::Null => ValueModel::Null,
                        PrimaryDataModel::Single(r) => value_of_resource(r),
                        PrimaryDataModel::Multiple(rs) => ValueModel::Array(
                            resource_values(rs, rs.len() as int),
                        ),
                    },
                ),
            ],
        }) + (match doc@.included {
            Option::Some(rs) => if rs.len() > 0 {
                seq![("included"@, ValueModel::Array(resource_values(rs, rs.len() as int)))]
            } else {
                Seq::empty()
            },
            Option::None => Seq::empty(),
        }) + (match doc@.errors {
            Option::None => Seq::empty(),
            Option::Some(e) => seq![("errors"@, e)],
        }) + (match doc@.links {
            Option::None => Seq::empty(),
            Option::Some(l) => seq![("links"@, l)],
        }) + (match doc@.meta {
            Option::None => Seq::empty(),
            Option::Some(m) => seq![("meta"@, m)],
        }));
        assert(r@ == value_of_document(doc@));
    }
    r
}

/// The exact JSON text of a document.
pub fn document_to_json(doc: &JsonApiDocument) -> (r: String)
    ensures
        r@ == json_of(value_of_document(doc@)),
{
    let v = document_to_value(doc);
    value_to_json(&v)
}

/// First position at or after `pos` that is not JSON whitespace.
fn skip_ws(s: &Vec<char>, pos: usize) -> (r: usize)
    requires
        pos <= s.len(),
    ensures
        pos <= r <= s.len(),
{
    let mut i = pos;
    while i < s.len()
        invariant
            pos <= i <= s.len(),
        decreases s.len() - i,
    {
        let c = s[i];
        if c == ' ' || c == '\n' || c == '\r' || c == '\t' {
            i = i + 1;
        } else {
            return i;
        }
    }
    i
}

/// The value of one hex digit, if the character is one.
fn hex_digit_value(h: char) -> (r: Option<u32>)
    ensures
        r is Some ==> r->0 < 16,
{
    if ('0' as u32) <= (h as u32) && (h as u32) <= ('9' as u32) {
        Option::Some((h as u32) - ('0' as u32))
    } else if ('a' as u32) <= (h as u32) && (h as u32) <= ('f' as u32) {
        Option::Some((h as u32) - ('a' as u32) + 10)
    } else if ('A' as u32) <= (h as u32) && (h as u32) <= ('F' as u32) {
        Option::Some((h as u32) - ('A' as u32) + 10)
    } else {
        Option::None
    }
}

/// Reads a JSON string literal starting at the opening quote. The printer's
/// escapes and `\uXXXX` below the surrogate range are understood.
fn parse_string_at(s: &Vec<char>, pos: usize) -> (r: Option<(String, usize)>)
    requires
        pos < s.len(),
    ensures
        r is Some ==> pos < (r->0).1 <= s.len(),
{
    if s[pos] != '"' {
        return Option::None;
    }
    let mut out: Vec<char> = Vec::new();
    let mut i = pos + 1;
    while i < s.len()
        invariant
            pos < i <= s.len(),
        decreases s.len() - i,
    {
        let c = s[i];
        if c == '"' {
            return Option::Some((chars_to_string(&out), i + 1));
        } else if c == '\\' {
            if i + 1 >= s.len() {
                return Option::None;
            }
            let e = s[i + 1];
            if e == '"' || e == '\\' || e == '/' {
                out.push(e);
                i = i + 2;
            } else if e == 'n' {
                out.push('\n');
                i = i + 2;
            } else if e == 'r' {
                out.push('\r');
                i = i + 2;
            } else if e == 't' {
                out.push('\t');
                i = i + 2;
            } else if e == 'u' {
                if s.len() - i < 6 {
                    return Option::None;
                }
                let d0 = hex_digit_value(s[i + 2]);
                let d1 = hex_digit_value(s[i + 3]);
                let d2 = hex_digit_value(s[i + 4]);
                let d3 = hex_digit_value(s[i + 5]);
                match (d0, d1, d2, d3) {
                    (
                        Option::Some(a),
                        Option::Some(b),
                        Option::Some(cc),
                        Option::Some(d),
                    ) => {
                        let code: u32 = ((a * 16 + b) * 16 + cc) * 16 + d;
                        if code >= 0xD800 {
                            return Option::None;
                        }
                        match char_from_u32(code) {
                            Option::Some(ch) => out.push(ch),
                            Option::None => {
                                return Option::None;
                            },
                        }
                    },
                    _ => {
                        return Option::None;
                    },
                }
                i = i + 6;
            } else {
                return Option::None;
            }
        } else {
            out.push(c);
            i = i + 1;
        }
    }
    Option::None
}

/// Reads a JSON integer (floats are not accepted).
fn parse_number_at(s: &Vec<char>, pos: usize) -> (r: Option<(i64, usize)>)
    requires
        pos < s.len(),
    ensures
        r is Some ==> pos < (r->0).1 <= s.len(),
{
    let mut i = pos;
    let negative = s[i] == '-';
    if negative {
        i = i + 1;
    }
    if i >= s.len() {
        return Option::None;
    }
    let first = s[i] as u32;
    if first < ('0' as u32) || first > ('9' as u32) {
        return Option::None;
    }
    let start = i;
    let mut mag: u64 = 0;
    while i < s.len() && (s[i] as u32) >= ('0' as u32) && (s[i] as u32) <= ('9' as u32)
        invariant
            pos <= start <= i <= s.len(),
        decreases s.len() - i,
    {
        let d = ((s[i] as u32) - ('0' as u32)) as u64;
        if mag > (0xFFFF_FFFF_FFFF_FFFFu64 - 9) / 10 {
            return Option::None;
        }
        mag = mag * 10 + d;
        i = i + 1;
    }
    if i == start {
        return Option::None;
    }
    if i < s.len() {
        let c = s[i];
        if c == '.' || c == 'e' || c == 'E' {
            return Option::None;
        }
    }
    if negative {
        if mag > 0x8000_0000_0000_0000u64 {
            return Option::None;
        }
        if mag == 0x8000_0000_0000_0000u64 {
            return Option::Some((i64::MIN, i));
        }
        return Option::Some((0i64 - (mag as i64), i));
    }
    if mag > 0x7FFF_FFFF_FFFF_FFFFu64 {
        return Option::None;
    }
    Option::Some((mag as i64, i))
}

/// Reads one JSON value starting at `pos` (leading whitespace allowed).
/// The round trip with the printer is exercised by the crate's tests.
#[verifier::loop_isolation(false)]
fn parse_value_at(s: &Vec<char>, pos: usize) -> (r: Option<(JsonValue, usize)>)
    requires
        pos <= s.len(),
    ensures
        r is Some ==> pos < (r->0).1 <= s.len(),
    decreases s.len() - pos, 0int,
{
    let p = skip_ws(s, pos);
    if p >= s.len() {
        return Option::None;
    }
    let c = s[p];
    if c == 'n' {
        if s.len() - p >= 4 && s[p + 1] == 'u' && s[p + 2] == 'l' && s[p + 3] == 'l' {
            return Option::Some((JsonValue::Null, p + 4));
        }
        return Option::None;
    }
    if c == 't' {
        if s.len() - p >= 4 && s[p + 1] == 'r' && s[p + 2] == 'u' && s[p + 3] == 'e' {
            return Option::Some((JsonValue::Bool(true), p + 4));
        }
        return Option::None;
    }
    if c == 'f' {
        if s.len() - p >= 5 && s[p + 1] == 'a' && s[p + 2] == 'l' && s[p + 3] == 's' && s[p + 4]
            == 'e' {
            return Option::Some((JsonValue::Bool(false), p + 5));
        }
        return Option::None;
    }
    if c == '"' {
        return match parse_string_at(s, p) {
            Option::Some((st, np)) => Option::Some((JsonValue::Str(st), np)),
            Option::None => Option::None,
        };
    }
    if c == '-' || (('0' as u32) <= (c as u32) && (c as u32) <= ('9' as u32)) {
        return match parse_number_at(s, p) {
            Option::Some((n, np)) => Option::Some((JsonValue::Number(n), np)),
            Option::None => Option::None,
        };
    }
    if c == '[' {
        let mut items: Vec<JsonValue> = Vec::new();
        let mut cur = skip_ws(s, p + 1);
        if cur < s.len() && s[cur] == ']' {
            return Option::Some((JsonValue::Array(items), cur + 1));
        }
        while cur < s.len()
            invariant
                p < cur <= s.len(),
            decreases s.len() - cur,
        {
            match parse_value_at(s, cur) {
                Option::None => {
                    return Option::None;
                },
                Option::Some((v, np)) => {
                    items.push(v);
                    let q = skip_ws(s, np);
                    if q >= s.len() {
                        return Option::None;
                    }
                    if s[q] == ']' {
                        return Option::Some((JsonValue::Array(items), q + 1));
                    }
                    if s[q] != ',' {
                        return Option::None;
                    }
                    cur = q + 1;
                },
            }
        }
        return Option::None;
    }
    if c == '{' {
        let mut entries: Vec<(String, JsonValue)> = Vec::new();
        let mut cur = skip_ws(s, p + 1);
        if cur < s.len() && s[cur] == '}' {
            return Option::Some((JsonValue::Object(entries), cur + 1));
        }
        while cur < s.len()
            invariant
                p < cur <= s.len(),
            decreases s.len() - cur,
        {
            let ks = skip_ws(s, cur);
            if ks >= s.len() {
                return Option::None;
            }
            match parse_string_at(s, ks) {
                Option::None => {
                    return Option::None;
                },
                Option::Some((key, kp)) => {
                    let colon = skip_ws(s, kp);
                    if colon >= s.len() || s[colon] != ':' {
                        return Option::None;
                    }
                    match parse_value_at(s, colon + 1) {
                        Option::None => {
                            return Option::None;
                        },
                        Option::Some((v, np)) => {
                            entries.push((key, v));
                            let q = skip_ws(s, np);
                            if q >= s.len() {
                                return Option::None;
                            }
                            if s[q] == '}' {
                                return Option::Some((JsonValue::Object(entries), q + 1));
                            }
                            if s[q] != ',' {
                                return Option::None;
                            }
                            cur = q + 1;
                        },
                    }
                },
            }
        }
        return Option::None;
    }
    Option::None
}

/// Reads a generic value from JSON text. Fails on malformed text, on
/// numbers that are not 64-bit integers, and on `\u` escapes in the
/// surrogate range.
pub fn parse_json_value(text: &str) -> (r: Option<JsonValue>)
{
    let chars = str_to_chars(text);
    match parse_value_at(&chars, 0) {
        Option::None => Option::None,
        Option::Some((v, p)) => {
            let q = skip_ws(&chars, p);
            if q == chars.len() {
                Option::Some(v)
            } else {
                Option::None
            }
        },
    }
}

/// Reads a resource identifier out of a generic object value.
fn identifier_from_value(v: &JsonValue) -> (r: Result<ResourceIdentifier, JsonApiError>)
{
    match v {
        JsonValue::Object(entries) => {
            let key_type = String::from_str("type");
            let key_id = String::from_str("id");
            let mut ty: Option<String> = Option::None;
            let mut id: Option<String> = Option::None;
            let mut i: usize = 0;
            while i < entries.len()
                decreases entries.len() - i,
            {
                if entries[i].0 == key_type {
                    match &entries[i].1 {
                        JsonValue::Str(st) => {
                            ty = Option::Some(st.clone());
                        },
                        _ => {
                            return Result::Err(JsonApiError::DecodeError);
                        },
                    }
                } else if entries[i].0 == key_id {
                    match &entries[i].1 {
                        JsonValue::Str(st) => {
                            id = Option::Some(st.clone());
                        },
                        _ => {
                            return Result::Err(JsonApiError::DecodeError);
                        },
                    }
                }
                i = i + 1;
            }
            match (ty, id) {
                (Option::Some(t), Option::Some(n)) => Result::Ok(
                    ResourceIdentifier { _type: t, id: n },
                ),
                _ => Result::Err(JsonApiError::DecodeError),
            }
        },
        _ => Result::Err(JsonApiError::DecodeError),
    }
}

/// Reads a relationship out of a generic object value.
fn relationship_from_value(v: &JsonValue) -> (r: Result<Relationship, JsonApiError>)
{
    match v {
        JsonValue::Object(entries) => {
            let key_data = String::from_str("data");
            let key_links = String::from_str("links");
            let mut data: Option<IdentifierData> = Option::None;
            let mut links: Option<JsonValue> = Option::None;
            let mut i: usize = 0;
            while i < entries.len()
                decreases entries.len() - i,
            {
                if entries[i].0 == key_data {
                    match &entries[i].1 {
                        JsonValue::Null => {
                            data = Option::Some(IdentifierData::Null);
                        },
                        JsonValue::Object(_) => {
                            match identifier_from_value(&entries[i].1) {
                                Result::Ok(ident) => {
                                    data = Option::Some(IdentifierData::Single(ident));
                                },
                                Result::Err(e) => {
                                    return Result::Err(e);
                                },
                            }
                        },
                        JsonValue::Array(items) => {
                            let mut ids: Vec<ResourceIdentifier> = Vec::new();
                            let mut j: usize = 0;
                            while j < items.len()
                                decreases items.len() - j,
                            {
                                match identifier_from_value(&items[j]) {
                                    Result::Ok(ident) => {
                                        ids.push(ident);
                                    },
                                    Result::Err(e) => {
                                        return Result::Err(e);
                                    },
                                }
                                j = j + 1;
                            }
                            data = Option::Some(IdentifierData::Multiple(ids));
                        },
                        _ => {
                            return Result::Err(JsonApiError::DecodeError);
                        },
                    }
                } else if entries[i].0 == key_links {
                    links = Option::Some(crate::value::clone_value(&entries[i].1));
                }
                i = i + 1;
            }
            match data {
                Option::Some(d) => Result::Ok(Relationship { data: d, links }),
                Option::None => Result::Err(JsonApiError::DecodeError),
            }
        },
        _ => Result::Err(JsonApiError::DecodeError),
    }
}

/// Reads a resource out of a generic object value: `type` is required,
/// everything else optional.
fn resource_from_value(v: &JsonValue) -> (r: Result<Resource, JsonApiError>)
{
    match v {
        JsonValue::Object(entries) => {
            let key_type = String::from_str("type");
            let key_id = String::from_str("id");
            let key_attributes = String::from_str("attributes");
            let key_relationships = String::from_str("relationships");
            let key_links = String::from_str("links");
            let key_meta = String::from_str("meta");
            let mut ty: Option<String> = Option::None;
            let mut id: Option<String> = Option::None;
            let mut attributes: Vec<(String, JsonValue)> = Vec::new();
            let mut relationships: Option<Vec<(String, Relationship)>> = Option::None;
            let mut links: Option<JsonValue> = Option::None;
            let mut meta: Option<JsonValue> = Option::None;
            let mut i: usize = 0;
            while i < entries.len()
                decreases entries.len() - i,
            {
                if entries[i].0 == key_type {
                    match &entries[i].1 {
                        JsonValue::Str(st) => {
                            ty = Option::Some(st.clone());
                        },
                        _ => {
                            return Result::Err(JsonApiError::DecodeError);
                        },
                    }
                } else if entries[i].0 == key_id {
                    match &entries[i].1 {
                        JsonValue::Str(st) => {
                            id = Option::Some(st.clone());
                        },
                        _ => {
                            return Result::Err(JsonApiError::DecodeError);
                        },
                    }
                } else if entries[i].0 == key_attributes {
                    match &entries[i].1 {
                        JsonValue::Object(attrs) => {
                            attributes = crate::model::clone_attribute_entries(attrs);
                        },
                        _ => {
                            return Result::Err(JsonApiError::DecodeError);
                        },
                    }
                } else if entries[i].0 == key_relationships {
                    match &entries[i].1 {
                        JsonValue::Object(rels) => {
                            let mut out: Vec<(String, Relationship)> = Vec::new();
                            let mut j: usize = 0;
                            while j < rels.len()
                                decreases rels.len() - j,
                            {
                                match relationship_from_value(&rels[j].1) {
                                    Result::Ok(rel) => {
                                        out.push((rels[j].0.clone(), rel));
                                    },
                                    Result::Err(e) => {
                                        return Result::Err(e);
                                    },
                                }
                                j = j + 1;
                            }
                            relationships = Option::Some(out);
                        },
                        _ => {
                            return Result::Err(JsonApiError::DecodeError);
                        },
                    }
                } else if entries[i].0 == key_links {
                    links = Option::Some(crate::value::clone_value(&entries[i].1));
                } else if entries[i].0 == key_meta {
                    meta = Option::Some(crate::value::clone_value(&entries[i].1));
                }
                i = i + 1;
            }
            match ty {
                Option::Some(t) => Result::Ok(
                    Resource { _type: t, id, attributes, relationships, links, meta },
                ),
                Option::None => Result::Err(JsonApiError::DecodeError),
            }
        },
        _ => Result::Err(JsonApiError::DecodeError),
    }
}

/// Reads a whole document out of a generic object value.
pub fn document_from_value(v: &JsonValue) -> (r: Result<JsonApiDocument, JsonApiError>)
{
    match v {
        JsonValue::Object(entries) => {
            let key_data = String::from_str("data");
            let key_included = String::from_str("included");
            let key_errors = String::from_str("errors");
            let key_links = String::from_str("links");
            let key_meta = String::from_str("meta");
            let mut data: Option<PrimaryData> = Option::None;
            let mut included: Option<Vec<Resource>> = Option::None;
            let mut errors: Option<JsonValue> = Option::None;
            let mut links: Option<JsonValue> = Option::None;
            let mut meta: Option<JsonValue> = Option::None;
            let mut i: usize = 0;
            while i < entries.len()
                decreases entries.len() - i,
            {
                if entries[i].0 == key_data {
                    match &entries[i].1 {
                        JsonValue::Null => {
                            data = Option::Some(PrimaryData::Null);
                        },
                        JsonValue::Object(_) => {
                            match resource_from_value(&entries[i].1) {
                                Result::Ok(res) => {
                                    data = Option::Some(PrimaryData::Single(Box::new(res)));
                                },
                                Result::Err(e) => {
                                    return Result::Err(e);
                                },
                            }
                        },
                        JsonValue::Array(items) => {
                            let mut rs: Vec<Resource> = Vec::new();
                            let mut j: usize = 0;
                            while j < items.len()
                                decreases items.len() - j,
                            {
                                match resource_from_value(&items[j]) {
                                    Result::Ok(res) => {
                                        rs.push(res);
                                    },
                                    Result::Err(e) => {
                                        return Result::Err(e);
                                    },
                                }
                                j = j + 1;
                            }
                            data = Option::Some(PrimaryData::Multiple(rs));
                        },
                        _ => {
                            return Result::Err(JsonApiError::DecodeError);
                        },
                    }
                } else if entries[i].0 == key_included {
                    match &entries[i].1 {
                        JsonValue::Array(items) => {
                            let mut rs: Vec<Resource> = Vec::new();
                            let mut j: usize = 0;
                            while j < items.len()
                                decreases items.len() - j,
                            {
                                match resource_from_value(&items[j]) {
                                    Result::Ok(res) => {
                                        rs.push(res);
                                    },
                                    Result::Err(e) => {
                                        return Result::Err(e);
                                    },
                                }
                                j = j + 1;
                            }
                            included = Option::Some(rs);
                        },
                        _ => {
                            return Result::Err(JsonApiError::DecodeError);
                        },
                    }
                } else if entries[i].0 == key_errors {
                    errors = Option::Some(crate::value::clone_value(&entries[i].1));
                } else if entries[i].0 == key_links {
                    links = Option::Some(crate::value::clone_value(&entries[i].1));
                } else if entries[i].0 == key_meta {
                    meta = Option::Some(crate::value::clone_value(&entries[i].1));
                }
                i = i + 1;
            }
            Result::Ok(JsonApiDocument { data, included, errors, links, meta })
        },
        _ => Result::Err(JsonApiError::DecodeError),
    }
}

/// Reads a document from JSON text. The round trip with
/// [`document_to_json`] is exercised by the crate's tests.
pub fn parse_document(text: &str) -> (r: Result<JsonApiDocument, JsonApiError>)
{
    match parse_json_value(text) {
        Option::None => Result::Err(JsonApiError::DecodeError),
        Option::Some(v) => document_from_value(&v),
    }
}

} // verus!
