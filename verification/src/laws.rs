//! The laws of the conversion engine, proved once and for all: the round
//! trip from an object through a document and back, the effect of empty
//! filters, field-filter precedence, and the order of the side-list.

use vstd::prelude::*;
use crate::value::ValueModel;
use crate::api::{IdentifierModel, RelationshipModel, ResourceModel};
use crate::query::{QueryModel, default_query_model, spec_should_include, spec_should_serialize};
use crate::model::{
    ObjectModel, RelValueModel, elems_clean, elems_serializable, is_rel_name,
    lemma_attributes_identity, lemma_idents_of, lemma_relationship_entries_full, object_clean,
    object_serializable, rel_value_clean, rel_value_serializable, rels_clean, rels_serializable,
    spec_attribute_entries, spec_build_included, spec_elems_included, spec_from_resource,
    spec_identifier, spec_included_entries, spec_lookup, spec_rebuild_elems,
    spec_rebuild_one, spec_rebuild_rels, spec_rel_included, spec_relationship_entries,
    spec_relationship_of, spec_resource, spec_resource_to_object,
    spec_resolve, spec_to_document, spec_to_resources,
};

verus! {

broadcast use vstd::seq::group_seq_axioms;

/// The nodes of an object's subtree: the object itself, then the nodes of
/// each relationship target's subtree, depth-first, in field order.
pub open spec fn node_list(m: ObjectModel) -> Seq<ObjectModel>
    decreases m, 3int,
{
    seq![m] + desc_entries(m.relationships, m.relationships.len() as int)
}

/// The descendants contributed by the first `upto` relationship entries.
pub open spec fn desc_entries(rels: Seq<(Seq<char>, RelValueModel)>, upto: int) -> Seq<ObjectModel>
    decreases rels, 2int, upto,
{
    if 0 < upto <= rels.len() {
        desc_entries(rels, upto - 1) + rel_nodes(rels[upto - 1].1)
    } else {
        Seq::empty()
    }
}

/// The subtree nodes of one relationship value's targets.
pub open spec fn rel_nodes(r: RelValueModel) -> Seq<ObjectModel>
    decreases r, 3int,
{
    match r {
        RelValueModel::One(Option::None) => Seq::empty(),
        RelValueModel::One(Option::Some(t)) => node_list(t),
        RelValueModel::Many(es) => elems_nodes(es, es.len() as int),
    }
}

/// The subtree nodes of the first `upto` to-many elements.
pub open spec fn elems_nodes(es: Seq<Option<ObjectModel>>, upto: int) -> Seq<ObjectModel>
    decreases es, 2int, upto,
{
    if 0 < upto <= es.len() {
        elems_nodes(es, upto - 1) + (match es[upto - 1] {
            Option::None => Seq::empty(),
            Option::Some(t) => node_list(t),
        })
    } else {
        Seq::empty()
    }
}

/// The longest chain of relationship edges below an object.
pub open spec fn obj_depth(m: ObjectModel) -> nat
    decreases m, 3int,
{
    rels_depth(m.relationships, m.relationships.len() as int)
}

/// The longest chain below the first `upto` relationship entries.
pub open spec fn rels_depth(rels: Seq<(Seq<char>, RelValueModel)>, upto: int) -> nat
    decreases rels, 2int, upto,
{
    if 0 < upto <= rels.len() {
        vstd::math::max(rels_depth(rels, upto - 1) as int, rel_depth(rels[upto - 1].1) as int)
            as nat
    } else {
        0
    }
}

/// The longest chain below one relationship value.
pub open spec fn rel_depth(r: RelValueModel) -> nat
    decreases r, 3int,
{
    match r {
        RelValueModel::One(Option::None) => 0,
        RelValueModel::One(Option::Some(t)) => 1 + obj_depth(t),
        RelValueModel::Many(es) => elems_depth(es, es.len() as int),
    }
}

/// The longest chain below the first `upto` to-many elements.
pub open spec fn elems_depth(es: Seq<Option<ObjectModel>>, upto: int) -> nat
    decreases es, 2int, upto,
{
    if 0 < upto <= es.len() {
        vstd::math::max(
            elems_depth(es, upto - 1) as int,
            match es[upto - 1] {
                Option::None => 0int,
                Option::Some(t) => 1 + obj_depth(t) as int,
            },
        ) as nat
    } else {
        0
    }
}

/// The unfiltered resources of a list of nodes, in order.
pub open spec fn resource_list(ns: Seq<ObjectModel>) -> Seq<ResourceModel> {
    Seq::new(ns.len(), |i: int| if 0 <= i < ns.len() {
        spec_resource(ns[i], Option::None)
    } else {
        spec_resource(
            ObjectModel {
                ty: Seq::empty(),
                id: Option::None,
                attributes: Seq::empty(),
                relationships: Seq::empty(),
            },
            Option::None,
        )
    })
}

/// `resource_list` distributes over concatenation.
pub proof fn lemma_resource_list_concat(a: Seq<ObjectModel>, b: Seq<ObjectModel>)
    ensures
        resource_list(a + b) =~= resource_list(a) + resource_list(b),
{
}

/// The recursively collected side-list is exactly the unfiltered resources
/// of the subtree nodes, in depth-first order.
pub proof fn lemma_to_resources_nodes(m: ObjectModel)
    ensures
        spec_to_resources(m) =~= resource_list(node_list(m)),
    decreases m, 3int,
{
    lemma_included_nodes(m.relationships, m.relationships.len() as int);
    lemma_resource_list_concat(
        seq![m],
        desc_entries(m.relationships, m.relationships.len() as int),
    );
    assert(resource_list(seq![m]) =~= seq![spec_resource(m, Option::None)]);
}

/// The side-list of a prefix of relationship entries (without filtering) is
/// the resources of the descendants they contribute.
pub proof fn lemma_included_nodes(rels: Seq<(Seq<char>, RelValueModel)>, upto: int)
    ensures
        spec_included_entries(rels, Option::None, upto) =~= resource_list(desc_entries(rels, upto)),
    decreases rels, 2int, upto,
{
    if 0 < upto <= rels.len() {
        lemma_included_nodes(rels, upto - 1);
        lemma_rel_included_nodes(rels[upto - 1].1);
        lemma_resource_list_concat(desc_entries(rels, upto - 1), rel_nodes(rels[upto - 1].1));
    }
}

/// The expansion of one relationship value is the resources of its subtree
/// nodes.
pub proof fn lemma_rel_included_nodes(r: RelValueModel)
    ensures
        spec_rel_included(r) =~= resource_list(rel_nodes(r)),
    decreases r, 3int,
{
    match r {
        RelValueModel::One(Option::None) => {},
        RelValueModel::One(Option::Some(t)) => {
            lemma_to_resources_nodes(t);
        },
        RelValueModel::Many(es) => {
            lemma_elems_included_nodes(es, es.len() as int);
        },
    }
}

/// The expansion of a prefix of to-many elements is the resources of their
/// subtree nodes.
pub proof fn lemma_elems_included_nodes(es: Seq<Option<ObjectModel>>, upto: int)
    ensures
        spec_elems_included(es, upto) =~= resource_list(elems_nodes(es, upto)),
    decreases es, 2int, upto,
{
    if 0 < upto <= es.len() {
        lemma_elems_included_nodes(es, upto - 1);
        match es[upto - 1] {
            Option::None => {
                lemma_resource_list_concat(elems_nodes(es, upto - 1), Seq::empty());
            },
            Option::Some(t) => {
                lemma_to_resources_nodes(t);
                lemma_resource_list_concat(elems_nodes(es, upto - 1), node_list(t));
            },
        }
    }
}

/// The edge depth of an object is at most the number of its descendants.
pub proof fn lemma_depth_le_desc(m: ObjectModel)
    ensures
        obj_depth(m) <= desc_entries(m.relationships, m.relationships.len() as int).len(),
    decreases m, 3int,
{
    lemma_rels_depth_le(m.relationships, m.relationships.len() as int);
}

/// The edge depth below a prefix of entries is at most the number of
/// descendants they contribute.
pub proof fn lemma_rels_depth_le(rels: Seq<(Seq<char>, RelValueModel)>, upto: int)
    ensures
        rels_depth(rels, upto) <= desc_entries(rels, upto).len(),
    decreases rels, 2int, upto,
{
    if 0 < upto <= rels.len() {
        lemma_rels_depth_le(rels, upto - 1);
        lemma_rel_depth_le(rels[upto - 1].1);
    }
}

/// The edge depth below one relationship value is at most the number of its
/// subtree nodes.
pub proof fn lemma_rel_depth_le(r: RelValueModel)
    ensures
        rel_depth(r) <= rel_nodes(r).len(),
    decreases r, 3int,
{
    match r {
        RelValueModel::One(Option::None) => {},
        RelValueModel::One(Option::Some(t)) => {
            lemma_depth_le_desc(t);
        },
        RelValueModel::Many(es) => {
            lemma_elems_depth_le(es, es.len() as int);
        },
    }
}

/// The edge depth below a prefix of to-many elements is at most the number
/// of their subtree nodes.
pub proof fn lemma_elems_depth_le(es: Seq<Option<ObjectModel>>, upto: int)
    ensures
        elems_depth(es, upto) <= elems_nodes(es, upto).len(),
    decreases es, 2int, upto,
{
    if 0 < upto <= es.len() {
        lemma_elems_depth_le(es, upto - 1);
        match es[upto - 1] {
            Option::None => {},
            Option::Some(t) => {
                lemma_depth_le_desc(t);
                assert(node_list(t).len() == 1 + desc_entries(
                    t.relationships,
                    t.relationships.len() as int,
                ).len());
                assert(elems_nodes(es, upto).len() == elems_nodes(es, upto - 1).len()
                    + node_list(t).len());
            },
        }
    }
}

/// Whether `m` occurs in the node list `ns`.
pub open spec fn in_nodes(ns: Seq<ObjectModel>, m: ObjectModel) -> bool {
    exists|i: int| 0 <= i < ns.len() && ns[i] == m
}

/// Every descendant of a deeply identified object has an id.
pub proof fn lemma_desc_identified(rels: Seq<(Seq<char>, RelValueModel)>, upto: int)
    requires
        rels_serializable(rels, upto),
        0 <= upto <= rels.len(),
    ensures
        forall|k: int|
            0 <= k < desc_entries(rels, upto).len() ==> (#[trigger] desc_entries(rels, upto)[k]).id
                is Some,
    decreases rels, 2int, upto,
{
    if 0 < upto {
        lemma_desc_identified(rels, upto - 1);
        lemma_rel_nodes_identified(rels[upto - 1].1);
    }
}

/// Every subtree node of a deeply identified relationship value has an id.
pub proof fn lemma_rel_nodes_identified(r: RelValueModel)
    requires
        rel_value_serializable(r),
    ensures
        forall|k: int|
            0 <= k < rel_nodes(r).len() ==> (#[trigger] rel_nodes(r)[k]).id is Some,
    decreases r, 3int,
{
    match r {
        RelValueModel::One(Option::None) => {},
        RelValueModel::One(Option::Some(t)) => {
            lemma_desc_identified(t.relationships, t.relationships.len() as int);
        },
        RelValueModel::Many(es) => {
            lemma_elems_nodes_identified(es, es.len() as int);
        },
    }
}

/// Every subtree node of deeply identified to-many elements has an id.
pub proof fn lemma_elems_nodes_identified(es: Seq<Option<ObjectModel>>, upto: int)
    requires
        elems_serializable(es, upto),
        0 <= upto <= es.len(),
    ensures
        forall|k: int|
            0 <= k < elems_nodes(es, upto).len() ==> (#[trigger] elems_nodes(es, upto)[k]).id
                is Some,
    decreases es, 2int, upto,
{
    if 0 < upto {
        lemma_elems_nodes_identified(es, upto - 1);
        match es[upto - 1] {
            Option::None => {},
            Option::Some(t) => {
                assert(object_serializable(t));
                lemma_desc_identified(t.relationships, t.relationships.len() as int);
                assert forall|k: int| 0 <= k < elems_nodes(es, upto).len() implies (
                #[trigger] elems_nodes(es, upto)[k]).id is Some by {
                    let prev = elems_nodes(es, upto - 1);
                    if k >= prev.len() {
                        assert(elems_nodes(es, upto)[k] == node_list(t)[k - prev.len()]);
                        if k - prev.len() > 0 {
                            assert(node_list(t)[k - prev.len()] == desc_entries(
                                t.relationships,
                                t.relationships.len() as int,
                            )[k - prev.len() - 1]);
                        }
                    }
                }
            },
        }
    }
}

/// Every node in `ns` resolves, by lookup in the side-list, to its own
/// unfiltered resource.
pub open spec fn good_nodes(ns: Seq<ObjectModel>, inc: Option<Seq<ResourceModel>>) -> bool {
    forall|k: int|
        0 <= k < ns.len() ==> inc is Some && spec_lookup(
            spec_identifier(#[trigger] ns[k]),
            inc->0,
            0,
        ) == Option::Some(spec_resource(ns[k], Option::None))
}

/// `good_nodes` of a concatenation splits into both halves.
pub proof fn lemma_good_nodes_split(
    a: Seq<ObjectModel>,
    b: Seq<ObjectModel>,
    inc: Option<Seq<ResourceModel>>,
)
    requires
        good_nodes(a + b, inc),
    ensures
        good_nodes(a, inc),
        good_nodes(b, inc),
{
    assert forall|k: int| 0 <= k < a.len() implies inc is Some && spec_lookup(
        spec_identifier(#[trigger] a[k]),
        inc->0,
        0,
    ) == Option::Some(spec_resource(a[k], Option::None)) by {
        assert((a + b)[k] == a[k]);
    }
    assert forall|k: int| 0 <= k < b.len() implies inc is Some && spec_lookup(
        spec_identifier(#[trigger] b[k]),
        inc->0,
        0,
    ) == Option::Some(spec_resource(b[k], Option::None)) by {
        assert((a + b)[a.len() + k] == b[k]);
    }
}

/// No two distinct nodes share a resource identifier: the same type and id
/// always name the same object value.
pub open spec fn nodes_consistent(ns: Seq<ObjectModel>) -> bool {
    forall|i: int, j: int|
        0 <= i < ns.len() && 0 <= j < ns.len() && (#[trigger] ns[i]).ty == (#[trigger] ns[j]).ty
            && ns[i].id == ns[j].id ==> ns[i] == ns[j]
}

/// What `spec_lookup` returns: a matching element of the haystack, or a
/// guarantee that none matches.
pub proof fn lemma_lookup_props(needle: IdentifierModel, hay: Seq<ResourceModel>, from: int)
    requires
        0 <= from <= hay.len(),
    ensures
        match spec_lookup(needle, hay, from) {
            Option::None => forall|j: int|
                from <= j < hay.len() ==> !((#[trigger] hay[j]).ty == needle.ty && hay[j].id
                    == Option::Some(needle.id)),
            Option::Some(r) => exists|j: int|
                from <= j < hay.len() && #[trigger] hay[j] == r && r.ty == needle.ty && r.id
                    == Option::Some(needle.id),
        },
    decreases hay.len() - from,
{
    if from < hay.len() {
        if !(hay[from].ty == needle.ty && hay[from].id == Option::Some(needle.id)) {
            lemma_lookup_props(needle, hay, from + 1);
        }
    }
}

/// Rebuilding an unfiltered resource of a clean, deeply identified object
/// against a side-list that resolves each of its descendants to its own
/// resource gives back the object itself.
pub proof fn lemma_rebuild_object(t: ObjectModel, inc: Option<Seq<ResourceModel>>, fuel: nat)
    requires
        object_serializable(t),
        object_clean(t),
        fuel >= obj_depth(t),
        good_nodes(desc_entries(t.relationships, t.relationships.len() as int), inc),
    ensures
        spec_resource_to_object(spec_resource(t, Option::None), inc, fuel) == t,
    decreases t, 3int, 0int,
{
    let len = t.relationships.len() as int;
    let r = spec_resource(t, Option::None);
    lemma_attributes_identity(t, t.attributes.len() as int);
    assert(r.attributes =~= t.attributes);
    lemma_relationship_entries_full(t, len);
    let entries = spec_relationship_entries(t, Option::None, len);
    if entries.len() == 0 {
        assert(t.relationships =~= Seq::<(Seq<char>, RelValueModel)>::empty());
        assert(spec_resource_to_object(r, inc, fuel) =~~= t);
    } else {
        assert(r.relationships == Option::Some(entries));
        lemma_rebuild_rels(t.relationships, entries, inc, fuel, len);
        assert(spec_rebuild_rels(entries, inc, fuel, entries.len() as int) =~= t.relationships);
        assert(spec_resource_to_object(r, inc, fuel) =~~= t);
    }
}

/// Rebuilding the descriptors of the first `upto` relationship entries gives
/// back the entries themselves.
pub proof fn lemma_rebuild_rels(
    rels: Seq<(Seq<char>, RelValueModel)>,
    entries: Seq<(Seq<char>, RelationshipModel)>,
    inc: Option<Seq<ResourceModel>>,
    fuel: nat,
    upto: int,
)
    requires
        0 <= upto <= rels.len(),
        entries.len() == rels.len(),
        forall|i: int|
            0 <= i < rels.len() ==> #[trigger] entries[i] == (
                rels[i].0,
                spec_relationship_of(rels[i].1),
            ),
        rels_serializable(rels, upto),
        rels_clean(rels, upto),
        fuel >= rels_depth(rels, upto),
        good_nodes(desc_entries(rels, upto), inc),
    ensures
        spec_rebuild_rels(entries, inc, fuel, upto) =~= rels.subrange(0, upto),
    decreases rels, 2int, upto,
{
    if 0 < upto {
        lemma_good_nodes_split(desc_entries(rels, upto - 1), rel_nodes(rels[upto - 1].1), inc);
        lemma_rebuild_rels(rels, entries, inc, fuel, upto - 1);
        lemma_rebuild_one(rels[upto - 1].1, inc, fuel);
    }
}

/// Rebuilding the descriptor of one relationship value gives back the value.
pub proof fn lemma_rebuild_one(rv: RelValueModel, inc: Option<Seq<ResourceModel>>, fuel: nat)
    requires
        rel_value_serializable(rv),
        rel_value_clean(rv),
        fuel >= rel_depth(rv),
        good_nodes(rel_nodes(rv), inc),
    ensures
        spec_rebuild_one(spec_relationship_of(rv), inc, fuel) == rv,
    decreases rv, 3int, 0int,
{
    match rv {
        RelValueModel::One(Option::None) => {},
        RelValueModel::One(Option::Some(t)) => {
            assert(node_list(t)[0] == t);
            assert(inc is Some && spec_lookup(spec_identifier(t), inc->0, 0) == Option::Some(
                spec_resource(t, Option::None),
            ));
            assert(fuel >= 1);
            lemma_good_nodes_split(
                seq![t],
                desc_entries(t.relationships, t.relationships.len() as int),
                inc,
            );
            lemma_rebuild_object(t, inc, (fuel - 1) as nat);
        },
        RelValueModel::Many(es) => {
            lemma_idents_of(es, es.len() as int);
            let idents = crate::model::spec_idents_of(es, es.len() as int);
            lemma_rebuild_elems(es, idents, inc, fuel, es.len() as int);
            assert(spec_rebuild_elems(idents, inc, fuel, idents.len() as int) =~= es.subrange(
                0,
                es.len() as int,
            ));
            assert(es.subrange(0, es.len() as int) =~= es);
            assert(spec_rebuild_one(spec_relationship_of(rv), inc, fuel) =~~= rv);
        },
    }
}

/// Rebuilding the identifiers of the first `upto` to-many elements gives
/// back the elements, slot by slot.
pub proof fn lemma_rebuild_elems(
    es: Seq<Option<ObjectModel>>,
    idents: Seq<IdentifierModel>,
    inc: Option<Seq<ResourceModel>>,
    fuel: nat,
    upto: int,
)
    requires
        0 <= upto <= es.len(),
        idents.len() == es.len(),
        forall|i: int| 0 <= i < es.len() ==> #[trigger] idents[i] == spec_identifier(es[i]->0),
        elems_serializable(es, upto),
        elems_clean(es, upto),
        fuel >= elems_depth(es, upto),
        good_nodes(elems_nodes(es, upto), inc),
    ensures
        spec_rebuild_elems(idents, inc, fuel, upto) =~= es.subrange(0, upto),
    decreases es, 2int, upto,
{
    if 0 < upto {
        let t = es[upto - 1]->0;
        lemma_good_nodes_split(elems_nodes(es, upto - 1), node_list(t), inc);
        lemma_rebuild_elems(es, idents, inc, fuel, upto - 1);
        assert(node_list(t)[0] == t);
        assert(inc is Some && spec_lookup(spec_identifier(t), inc->0, 0) == Option::Some(
            spec_resource(t, Option::None),
        ));
        assert(fuel >= 1);
        lemma_good_nodes_split(
            seq![t],
            desc_entries(t.relationships, t.relationships.len() as int),
            inc,
        );
        lemma_rebuild_object(t, inc, (fuel - 1) as nat);
        assert(spec_resolve(idents[upto - 1], inc, fuel) == Option::Some(t));
        assert(es[upto - 1] == Option::Some(t));
        assert(spec_rebuild_elems(idents, inc, fuel, upto) =~= spec_rebuild_elems(
            idents,
            inc,
            fuel,
            upto - 1,
        ) + seq![Option::Some(t)]);
    }
}

/// With a consistent subtree, looking any descendant's identifier up in the
/// collected side-list finds that descendant's own resource.
pub proof fn lemma_good_from_consistent(m: ObjectModel)
    requires
        object_serializable(m),
        nodes_consistent(node_list(m)),
        spec_included_entries(
            m.relationships,
            Option::None,
            m.relationships.len() as int,
        ).len() > 0,
    ensures
        good_nodes(
            desc_entries(m.relationships, m.relationships.len() as int),
            Option::Some(
                spec_included_entries(m.relationships, Option::None, m.relationships.len() as int),
            ),
        ),
{
    let len = m.relationships.len() as int;
    let desc = desc_entries(m.relationships, len);
    let inc = spec_included_entries(m.relationships, Option::None, len);
    lemma_included_nodes(m.relationships, len);
    lemma_desc_identified(m.relationships, len);
    assert forall|k: int| 0 <= k < desc.len() implies spec_lookup(
        spec_identifier(#[trigger] desc[k]),
        inc,
        0,
    ) == Option::Some(spec_resource(desc[k], Option::None)) by {
        let mk = desc[k];
        let ident = spec_identifier(mk);
        assert(inc[k] == spec_resource(mk, Option::None));
        assert(inc[k].ty == ident.ty && inc[k].id == Option::Some(ident.id));
        lemma_lookup_props(ident, inc, 0);
        match spec_lookup(ident, inc, 0) {
            Option::None => {
                assert(!(inc[k].ty == ident.ty && inc[k].id == Option::Some(ident.id)));
            },
            Option::Some(r) => {
                let j = choose|j: int|
                    0 <= j < inc.len() && #[trigger] inc[j] == r && r.ty == ident.ty && r.id
                        == Option::Some(ident.id);
                assert(inc[j] == spec_resource(desc[j], Option::None));
                assert(desc[j].ty == mk.ty);
                assert(desc[j].id == mk.id);
                assert(node_list(m)[j + 1] == desc[j] && node_list(m)[k + 1] == mk);
                assert(desc[j] == mk);
            },
        }
    }
}

/// Round trip: converting a clean, deeply identified, consistently
/// identified object into a document with no filter and reconstructing from
/// its primary resource and side-list yields the object itself.
pub proof fn lemma_round_trip(m: ObjectModel)
    requires
        object_serializable(m),
        object_clean(m),
        nodes_consistent(node_list(m)),
    ensures
        spec_from_resource(spec_resource(m, Option::None), spec_build_included(m, Option::None))
            == m,
{
    let len = m.relationships.len() as int;
    let entries = spec_included_entries(m.relationships, Option::None, len);
    lemma_included_nodes(m.relationships, len);
    lemma_depth_le_desc(m);
    if entries.len() == 0 {
        assert(desc_entries(m.relationships, len).len() == 0);
        lemma_rebuild_object(m, Option::None, 0);
    } else {
        lemma_good_from_consistent(m);
        lemma_rebuild_object(m, Option::Some(entries), entries.len() as nat);
    }
}

/// Round trip at the document level: the document of an object (no filter)
/// carries the object's resource as single primary data, and reconstruction
/// against its side-list yields the object back.
pub proof fn lemma_round_trip_document(m: ObjectModel)
    requires
        object_serializable(m),
        object_clean(m),
        nodes_consistent(node_list(m)),
    ensures
        spec_to_document(m, default_query_model()).data == Option::Some(
            crate::api::PrimaryDataModel::Single(spec_resource(m, Option::None)),
        ),
        spec_from_resource(
            spec_resource(m, Option::None),
            spec_to_document(m, default_query_model()).included,
        ) == m,
{
    lemma_round_trip(m);
}

/// Converting with an empty included set always yields an empty side-list
/// (so `included` is absent), whatever the object.
pub proof fn lemma_empty_include(rels: Seq<(Seq<char>, RelValueModel)>, upto: int)
    ensures
        spec_included_entries(rels, Option::Some(Seq::empty()), upto) =~= Seq::<
            ResourceModel,
        >::empty(),
    decreases upto,
{
    if 0 < upto <= rels.len() {
        lemma_empty_include(rels, upto - 1);
    }
}

/// Converting with an empty included set yields `included = None`.
pub proof fn lemma_empty_include_build(m: ObjectModel)
    ensures
        spec_build_included(m, Option::Some(Seq::empty())) is None,
{
    lemma_empty_include(m.relationships, m.relationships.len() as int);
}

/// Converting with an empty allow-list for the object's own type yields an
/// empty attribute map and no relationships on its resource.
pub proof fn lemma_empty_fields(m: ObjectModel, fields: Seq<(Seq<char>, Seq<Seq<char>>)>)
    requires
        crate::query::spec_fields_for(fields, m.ty, 0) == Option::Some(Seq::<Seq<char>>::empty()),
    ensures
        spec_resource(m, Option::Some(fields)).attributes =~= Seq::<
            (Seq<char>, ValueModel),
        >::empty(),
        spec_resource(m, Option::Some(fields)).relationships is None,
{
    lemma_empty_fields_attrs(m, fields, m.attributes.len() as int);
    lemma_empty_fields_rels(m, fields, m.relationships.len() as int);
}

/// No attribute passes an empty allow-list.
pub proof fn lemma_empty_fields_attrs(
    m: ObjectModel,
    fields: Seq<(Seq<char>, Seq<Seq<char>>)>,
    upto: int,
)
    requires
        crate::query::spec_fields_for(fields, m.ty, 0) == Option::Some(Seq::<Seq<char>>::empty()),
    ensures
        spec_attribute_entries(m, Option::Some(fields), upto) =~= Seq::<
            (Seq<char>, ValueModel),
        >::empty(),
    decreases upto,
{
    if 0 < upto <= m.attributes.len() {
        lemma_empty_fields_attrs(m, fields, upto - 1);
    }
}

/// No relationship passes an empty allow-list.
pub proof fn lemma_empty_fields_rels(
    m: ObjectModel,
    fields: Seq<(Seq<char>, Seq<Seq<char>>)>,
    upto: int,
)
    requires
        crate::query::spec_fields_for(fields, m.ty, 0) == Option::Some(Seq::<Seq<char>>::empty()),
    ensures
        spec_relationship_entries(m, Option::Some(fields), upto) =~= Seq::<
            (Seq<char>, RelationshipModel),
        >::empty(),
    decreases upto,
{
    if 0 < upto <= m.relationships.len() {
        lemma_empty_fields_rels(m, fields, upto - 1);
    }
}

/// Field-filter precedence: a key that names a declared relationship is
/// never emitted as an attribute, under any filter.
pub proof fn lemma_relationship_name_precedence(
    m: ObjectModel,
    fields: crate::query::QueryFieldsModel,
    name: Seq<char>,
    upto: int,
)
    requires
        is_rel_name(m.relationships, name),
    ensures
        forall|k: int|
            0 <= k < spec_attribute_entries(m, fields, upto).len() ==> (
            #[trigger] spec_attribute_entries(m, fields, upto)[k]).0 != name,
    decreases upto,
{
    if 0 < upto <= m.attributes.len() {
        lemma_relationship_name_precedence(m, fields, name, upto - 1);
        let prev = spec_attribute_entries(m, fields, upto - 1);
        let cur = spec_attribute_entries(m, fields, upto);
        assert forall|k: int| 0 <= k < cur.len() implies (#[trigger] cur[k]).0 != name by {
            if k < prev.len() {
                assert(cur[k] == prev[k]);
            } else {
                assert(cur[k] == (m.attributes[upto - 1]));
                assert(!is_rel_name(m.relationships, m.attributes[upto - 1].0));
            }
        }
    }
}

/// The resource invariant on attributes: the reserved key `id` is never
/// emitted as an attribute, under any filter.
pub proof fn lemma_no_id_attribute(
    m: ObjectModel,
    fields: crate::query::QueryFieldsModel,
    upto: int,
)
    ensures
        forall|k: int|
            0 <= k < spec_attribute_entries(m, fields, upto).len() ==> (
            #[trigger] spec_attribute_entries(m, fields, upto)[k]).0 != "id"@,
    decreases upto,
{
    if 0 < upto <= m.attributes.len() {
        lemma_no_id_attribute(m, fields, upto - 1);
        let prev = spec_attribute_entries(m, fields, upto - 1);
        let cur = spec_attribute_entries(m, fields, upto);
        assert forall|k: int| 0 <= k < cur.len() implies (#[trigger] cur[k]).0 != "id"@ by {
            if k < prev.len() {
                assert(cur[k] == prev[k]);
            } else {
                assert(cur[k] == (m.attributes[upto - 1]));
            }
        }
    }
}

/// Side-list order: for a to-many relationship over `[a, b, c]`, the
/// collected side-list is `a`'s subtree expansion, then `b`'s, then `c`'s.
pub proof fn lemma_many_included_order(a: ObjectModel, b: ObjectModel, c: ObjectModel)
    ensures
        spec_rel_included(
            RelValueModel::Many(
                seq![Option::Some(a), Option::Some(b), Option::Some(c)],
            ),
        ) =~= spec_to_resources(a) + spec_to_resources(b) + spec_to_resources(c),
{
    let es = seq![Option::Some(a), Option::Some(b), Option::Some(c)];
    assert(es.len() == 3 && es[0] == Option::Some(a) && es[1] == Option::Some(b) && es[2]
        == Option::Some(c));
    assert(spec_elems_included(es, 0) =~= Seq::<ResourceModel>::empty());
    assert(spec_elems_included(es, 1) =~= spec_to_resources(a));
    assert(spec_elems_included(es, 2) =~= spec_to_resources(a) + spec_to_resources(b));
    assert(spec_elems_included(es, 3) =~= spec_to_resources(a) + spec_to_resources(b)
        + spec_to_resources(c));
}

} // verus!
