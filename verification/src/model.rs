//! The conversion engine: a generic domain object (type name, id, attributes,
//! declared has-one/has-many relationships) is turned into a resource with a
//! side-list of included resources, and a resource with its side-list is
//! turned back into an object.

use vstd::prelude::*;
use crate::value::{JsonValue, ValueModel, clone_value, entry_views, lemma_entry_views};
use crate::api::{
    IdentifierData, IdentifierDataModel, IdentifierModel, JsonApiDocument, JsonApiError,
    DocumentModel, PrimaryData, PrimaryDataModel, Relationship, RelationshipModel, Resource,
    ResourceIdentifier, ResourceModel, identifier_views, opt_resources_view, opt_string_view,
    relationship_entry_views, resource_views,
};
use crate::query::{
    Query, QueryFields, QueryFieldsModel, QueryModel, default_query_model,
    opt_string_list_view, query_fields_view, should_include, should_serialize_field,
    spec_should_include, spec_should_serialize,
};

verus! {

broadcast use {vstd::std_specs::vec::group_vec_axioms, vstd::seq::group_seq_axioms};

/// The value of one declared relationship field: a to-one target (possibly
/// absent), or an ordered list of to-many targets (a slot is `None` when its
/// target could not be resolved from a document's side-list).
#[derive(Debug, PartialEq, Eq)]
pub enum RelValue {
    One(Option<Box<ModelObject>>),
    Many(Vec<Option<ModelObject>>),
}

/// A generic domain object: everything the conversion engine reads of a
/// domain type, as plain data. Typed domain structs are translated to and
/// from this shape at the edges.
#[derive(Debug, PartialEq, Eq)]
pub struct ModelObject {
    /// The JSON:API type name of the object.
    pub _type: String,
    /// The id, absent for new/unsaved objects. Numeric ids are stringified.
    pub id: Option<String>,
    /// The plain attributes, in order. Never carries the key `id`; a key that
    /// collides with a relationship name is dropped on serialization.
    pub attributes: Vec<(String, JsonValue)>,
    /// The declared relationship fields, in order.
    pub relationships: Vec<(String, RelValue)>,
}

/// Model of a [`RelValue`].
#[verifier::ext_equal]
pub enum RelValueModel {
    One(Option<ObjectModel>),
    Many(Seq<Option<ObjectModel>>),
}

/// Model of a [`ModelObject`].
#[verifier::ext_equal]
pub struct ObjectModel {
    pub ty: Seq<char>,
    pub id: Option<Seq<char>>,
    pub attributes: Seq<(Seq<char>, ValueModel)>,
    pub relationships: Seq<(Seq<char>, RelValueModel)>,
}

/// The model of one object.
pub open spec fn object_view(o: ModelObject) -> ObjectModel
    decreases o, 1int,
{
    ObjectModel {
        ty: o._type@,
        id: opt_string_view(o.id),
        attributes: entry_views(o.attributes@),
        relationships: rel_entry_views(o.relationships@, o.relationships@.len() as int),
    }
}

/// The models of the first `upto` relationship entries, in order.
pub open spec fn rel_entry_views(s: Seq<(String, RelValue)>, upto: int) -> Seq<
    (Seq<char>, RelValueModel),
>
    decreases s, upto,
{
    if 0 < upto <= s.len() {
        rel_entry_views(s, upto - 1) + seq![(s[upto - 1].0@, rel_value_view(s[upto - 1].1))]
    } else {
        Seq::empty()
    }
}

/// The model of one relationship value.
pub open spec fn rel_value_view(r: RelValue) -> RelValueModel
    decreases r, 1int,
{
    match r {
        RelValue::One(Option::None) => RelValueModel::One(Option::None),
        RelValue::One(Option::Some(t)) => RelValueModel::One(Option::Some(object_view(*t))),
        RelValue::Many(es) => RelValueModel::Many(opt_object_views(es@, es@.len() as int)),
    }
}

/// The models of the first `upto` optional objects, in order.
pub open spec fn opt_object_views(s: Seq<Option<ModelObject>>, upto: int) -> Seq<
    Option<ObjectModel>,
>
    decreases s, upto,
{
    if 0 < upto <= s.len() {
        opt_object_views(s, upto - 1) + seq![
            match s[upto - 1] {
                Option::None => Option::None,
                Option::Some(t) => Option::Some(object_view(t)),
            },
        ]
    } else {
        Seq::empty()
    }
}

impl View for ModelObject {
    type V = ObjectModel;

    open spec fn view(&self) -> ObjectModel {
        object_view(*self)
    }
}

impl View for RelValue {
    type V = RelValueModel;

    open spec fn view(&self) -> RelValueModel {
        rel_value_view(*self)
    }
}

/// `rel_entry_views` maps the key view and `rel_value_view` elementwise.
pub broadcast proof fn lemma_rel_entry_views(s: Seq<(String, RelValue)>, upto: int)
    requires
        0 <= upto <= s.len(),
    ensures
        (#[trigger] rel_entry_views(s, upto)).len() == upto,
        forall|i: int|
            0 <= i < upto ==> rel_entry_views(s, upto)[i] == (s[i].0@, rel_value_view(s[i].1)),
    decreases upto,
{
    if upto > 0 {
        lemma_rel_entry_views(s, upto - 1);
    }
}

/// `opt_object_views` maps `object_view` over present elements, elementwise.
pub broadcast proof fn lemma_opt_object_views(s: Seq<Option<ModelObject>>, upto: int)
    requires
        0 <= upto <= s.len(),
    ensures
        (#[trigger] opt_object_views(s, upto)).len() == upto,
        forall|i: int|
            0 <= i < upto ==> opt_object_views(s, upto)[i] == (match s[i] {
                Option::None => Option::<ObjectModel>::None,
                Option::Some(t) => Option::Some(object_view(t)),
            }),
    decreases upto,
{
    if upto > 0 {
        lemma_opt_object_views(s, upto - 1);
    }
}

/// Whether the keys of an association list are pairwise distinct.
pub open spec fn keys_distinct<T>(s: Seq<(Seq<char>, T)>) -> bool {
    forall|i: int, j: int| 0 <= i < j < s.len() ==> s[i].0 != s[j].0
}

/// Well-formed object: attribute keys and relationship names are distinct,
/// recursively.
pub open spec fn object_wf(m: ObjectModel) -> bool
    decreases m, 1int,
{
    &&& keys_distinct(m.attributes)
    &&& keys_distinct(m.relationships)
    &&& rels_wf(m.relationships, m.relationships.len() as int)
}

/// Well-formedness of the first `upto` relationship entries.
pub open spec fn rels_wf(s: Seq<(Seq<char>, RelValueModel)>, upto: int) -> bool
    decreases s, upto,
{
    if 0 < upto <= s.len() {
        rels_wf(s, upto - 1) && rel_value_wf(s[upto - 1].1)
    } else {
        true
    }
}

/// Well-formedness of one relationship value.
pub open spec fn rel_value_wf(r: RelValueModel) -> bool
    decreases r, 1int,
{
    match r {
        RelValueModel::One(Option::None) => true,
        RelValueModel::One(Option::Some(t)) => object_wf(t),
        RelValueModel::Many(es) => elems_wf(es, es.len() as int),
    }
}

/// Well-formedness of the first `upto` to-many elements.
pub open spec fn elems_wf(es: Seq<Option<ObjectModel>>, upto: int) -> bool
    decreases es, upto,
{
    if 0 < upto <= es.len() {
        elems_wf(es, upto - 1) && (es[upto - 1] is Some ==> object_wf(es[upto - 1]->0))
    } else {
        true
    }
}

/// Every relationship target in the object's transitive closure is present
/// and identified: a to-one target and every to-many element has an id.
/// Serializing relationships and side-loading requires this.
pub open spec fn object_serializable(m: ObjectModel) -> bool
    decreases m, 1int,
{
    rels_serializable(m.relationships, m.relationships.len() as int)
}

/// Deep identification of the first `upto` relationship entries.
pub open spec fn rels_serializable(s: Seq<(Seq<char>, RelValueModel)>, upto: int) -> bool
    decreases s, upto,
{
    if 0 < upto <= s.len() {
        rels_serializable(s, upto - 1) && rel_value_serializable(s[upto - 1].1)
    } else {
        true
    }
}

/// Deep identification of one relationship value.
pub open spec fn rel_value_serializable(r: RelValueModel) -> bool
    decreases r, 1int,
{
    match r {
        RelValueModel::One(Option::None) => true,
        RelValueModel::One(Option::Some(t)) => t.id is Some && object_serializable(t),
        RelValueModel::Many(es) => elems_serializable(es, es.len() as int),
    }
}

/// Deep identification of the first `upto` to-many elements.
pub open spec fn elems_serializable(es: Seq<Option<ObjectModel>>, upto: int) -> bool
    decreases es, upto,
{
    if 0 < upto <= es.len() {
        elems_serializable(es, upto - 1) && es[upto - 1] is Some && es[upto - 1]->0.id is Some
            && object_serializable(es[upto - 1]->0)
    } else {
        true
    }
}

/// Identification of a relationship value only one level deep: enough to
/// emit its resource identifiers.
pub open spec fn rel_value_identified_shallow(r: RelValueModel) -> bool {
    match r {
        RelValueModel::One(Option::None) => true,
        RelValueModel::One(Option::Some(t)) => t.id is Some,
        RelValueModel::Many(es) => forall|i: int|
            0 <= i < es.len() ==> es[i] is Some && (#[trigger] es[i])->0.id is Some,
    }
}

/// What converting with filter `q` requires of an object: a relationship that
/// passes the field filter has identifiers one level deep, and one that
/// passes the included filter is deeply identified (its whole subtree is
/// converted into the side-list).
pub open spec fn object_serializable_for(m: ObjectModel, q: QueryModel) -> bool {
    forall|i: int|
        0 <= i < m.relationships.len() ==> {
            &&& (spec_should_serialize(q.fields, m.ty, (#[trigger] m.relationships[i]).0)
                ==> rel_value_identified_shallow(m.relationships[i].1))
            &&& (spec_should_include(q.included, m.relationships[i].0) ==> rel_value_serializable(
                m.relationships[i].1,
            ))
        }
}

/// The resource identifier of an identified object.
pub open spec fn spec_identifier(m: ObjectModel) -> IdentifierModel {
    IdentifierModel { ty: m.ty, id: m.id->0 }
}

/// The identifiers of the first `upto` to-many elements, in order.
pub open spec fn spec_idents_of(es: Seq<Option<ObjectModel>>, upto: int) -> Seq<IdentifierModel>
    decreases upto,
{
    if 0 < upto <= es.len() {
        spec_idents_of(es, upto - 1) + seq![spec_identifier(es[upto - 1]->0)]
    } else {
        Seq::empty()
    }
}

/// The relationship descriptor of one relationship value: type-and-id
/// references only, in the order of the targets.
pub open spec fn spec_relationship_of(r: RelValueModel) -> RelationshipModel {
    match r {
        RelValueModel::One(Option::None) => RelationshipModel {
            data: IdentifierDataModel::Null,
            links: Option::None,
        },
        RelValueModel::One(Option::Some(t)) => RelationshipModel {
            data: IdentifierDataModel::Single(spec_identifier(t)),
            links: Option::None,
        },
        RelValueModel::Many(es) => RelationshipModel {
            data: IdentifierDataModel::Multiple(spec_idents_of(es, es.len() as int)),
            links: Option::None,
        },
    }
}

/// The emitted relationship entries among the first `upto` declared ones:
/// those whose name passes the field filter for type `ty`, in order.
pub open spec fn spec_relationship_entries(
    m: ObjectModel,
    fields: QueryFieldsModel,
    upto: int,
) -> Seq<(Seq<char>, RelationshipModel)>
    decreases upto,
{
    if 0 < upto <= m.relationships.len() {
        spec_relationship_entries(m, fields, upto - 1) + (if spec_should_serialize(
            fields,
            m.ty,
            m.relationships[upto - 1].0,
        ) {
            seq![(m.relationships[upto - 1].0, spec_relationship_of(m.relationships[upto - 1].1))]
        } else {
            Seq::empty()
        })
    } else {
        Seq::empty()
    }
}

/// The relationships of a resource: the emitted entries, or `None` when none
/// is emitted.
pub open spec fn spec_relationships(m: ObjectModel, fields: QueryFieldsModel) -> Option<
    Seq<(Seq<char>, RelationshipModel)>,
> {
    if spec_relationship_entries(m, fields, m.relationships.len() as int).len() == 0 {
        Option::None
    } else {
        Option::Some(spec_relationship_entries(m, fields, m.relationships.len() as int))
    }
}

/// Whether `key` is the name of a declared relationship.
pub open spec fn is_rel_name(rels: Seq<(Seq<char>, RelValueModel)>, key: Seq<char>) -> bool {
    exists|i: int| 0 <= i < rels.len() && (#[trigger] rels[i]).0 == key
}

/// The emitted attributes among the first `upto` ones: every attribute whose
/// key is not `id`, is not a relationship name (relationship names always
/// win), and passes the field filter, in order.
pub open spec fn spec_attribute_entries(
    m: ObjectModel,
    fields: QueryFieldsModel,
    upto: int,
) -> Seq<(Seq<char>, ValueModel)>
    decreases upto,
{
    if 0 < upto <= m.attributes.len() {
        spec_attribute_entries(m, fields, upto - 1) + (if m.attributes[upto - 1].0 != "id"@
            && !is_rel_name(m.relationships, m.attributes[upto - 1].0) && spec_should_serialize(
            fields,
            m.ty,
            m.attributes[upto - 1].0,
        ) {
            seq![m.attributes[upto - 1]]
        } else {
            Seq::empty()
        })
    } else {
        Seq::empty()
    }
}

/// The resource an object converts to under the field filter `fields`.
pub open spec fn spec_resource(m: ObjectModel, fields: QueryFieldsModel) -> ResourceModel {
    ResourceModel {
        ty: m.ty,
        id: m.id,
        attributes: spec_attribute_entries(m, fields, m.attributes.len() as int),
        relationships: spec_relationships(m, fields),
        links: Option::None,
        meta: Option::None,
    }
}

/// An object's own resource (no filter) followed by its recursively
/// collected side-list.
pub open spec fn spec_to_resources(m: ObjectModel) -> Seq<ResourceModel>
    decreases m, 3int,
{
    seq![spec_resource(m, Option::None)] + spec_included_entries(
        m.relationships,
        Option::None,
        m.relationships.len() as int,
    )
}

/// The side-list contributed by the first `upto` relationship entries: for
/// each entry passing the included filter, the full depth-first expansion of
/// its targets, in order.
pub open spec fn spec_included_entries(
    rels: Seq<(Seq<char>, RelValueModel)>,
    included: Option<Seq<Seq<char>>>,
    upto: int,
) -> Seq<ResourceModel>
    decreases rels, 2int, upto,
{
    if 0 < upto <= rels.len() {
        spec_included_entries(rels, included, upto - 1) + (if spec_should_include(
            included,
            rels[upto - 1].0,
        ) {
            spec_rel_included(rels[upto - 1].1)
        } else {
            Seq::empty()
        })
    } else {
        Seq::empty()
    }
}

/// The depth-first expansion of one relationship value's targets.
pub open spec fn spec_rel_included(r: RelValueModel) -> Seq<ResourceModel>
    decreases r, 3int,
{
    match r {
        RelValueModel::One(Option::None) => Seq::empty(),
        RelValueModel::One(Option::Some(t)) => spec_to_resources(t),
        RelValueModel::Many(es) => spec_elems_included(es, es.len() as int),
    }
}

/// The depth-first expansion of the first `upto` to-many elements, in order.
pub open spec fn spec_elems_included(es: Seq<Option<ObjectModel>>, upto: int) -> Seq<ResourceModel>
    decreases es, 2int, upto,
{
    if 0 < upto <= es.len() {
        spec_elems_included(es, upto - 1) + (match es[upto - 1] {
            Option::None => Seq::empty(),
            Option::Some(t) => spec_to_resources(t),
        })
    } else {
        Seq::empty()
    }
}

/// The side-list of an object under the included filter, or `None` when it is
/// empty.
pub open spec fn spec_build_included(m: ObjectModel, included: Option<Seq<Seq<char>>>) -> Option<
    Seq<ResourceModel>,
> {
    if spec_included_entries(m.relationships, included, m.relationships.len() as int).len() == 0 {
        Option::None
    } else {
        Option::Some(spec_included_entries(m.relationships, included, m.relationships.len() as int))
    }
}

/// The document an object converts to under the filter `q`.
pub open spec fn spec_to_document(m: ObjectModel, q: QueryModel) -> DocumentModel {
    DocumentModel {
        data: Option::Some(PrimaryDataModel::Single(spec_resource(m, q.fields))),
        included: spec_build_included(m, q.included),
        errors: Option::None,
        links: Option::None,
        meta: Option::None,
    }
}

/// Copy of an optional string.
fn clone_opt_string(s: &Option<String>) -> (r: Option<String>)
    ensures
        opt_string_view(r) == opt_string_view(*s),
{
    match s {
        Option::None => Option::None,
        Option::Some(inner) => Option::Some(inner.clone()),
    }
}

impl ModelObject {
    /// The type-and-id reference to this object. Referring to an unsaved
    /// object (no id) is a contract violation, so an id is required.
    pub fn as_resource_identifier(&self) -> (r: ResourceIdentifier)
        requires
            self@.id is Some,
        ensures
            r@ == spec_identifier(self@),
    {
        match &self.id {
            Option::Some(id) => ResourceIdentifier { _type: self._type.clone(), id: id.clone() },
            Option::None => vstd::pervasive::unreached(),
        }
    }

    /// A to-one relationship descriptor for one related object, which must be
    /// identified.
    pub fn build_has_one(model: &ModelObject) -> (r: Relationship)
        requires
            model@.id is Some,
        ensures
            r@ == spec_relationship_of(RelValueModel::One(Option::Some(model@))),
    {
        Relationship {
            data: IdentifierData::Single(model.as_resource_identifier()),
            links: Option::None,
        }
    }

    /// A to-many relationship descriptor for a list of related objects, in
    /// input order; each must be present and identified.
    #[verifier::loop_isolation(false)]
    pub fn build_has_many(models: &Vec<Option<ModelObject>>) -> (r: Relationship)
        requires
            forall|i: int|
                0 <= i < models@.len() ==> (#[trigger] models@[i]) is Some
                    && models@[i]->0@.id is Some,
        ensures
            r@ == spec_relationship_of(
                RelValueModel::Many(opt_object_views(models@, models@.len() as int)),
            ),
    {
        let ghost esm = opt_object_views(models@, models@.len() as int);
        proof {
            lemma_opt_object_views(models@, models@.len() as int);
        }
        let mut idents: Vec<ResourceIdentifier> = Vec::new();
        let mut i: usize = 0;
        while i < models.len()
            invariant
                i <= models.len(),
                identifier_views(idents@) =~= spec_idents_of(esm, i as int),
                idents@.len() == i as int,
            decreases models.len() - i,
        {
            match &models[i] {
                Option::Some(t) => {
                    idents.push(t.as_resource_identifier());
                },
                Option::None => {
                    proof {
                        assert(models@[i as int] is Some);
                        assert(false);
                    }
                },
            }
            i = i + 1;
            proof {
                assert(identifier_views(idents@) =~= spec_idents_of(esm, i as int));
            }
        }
        let r = Relationship { data: IdentifierData::Multiple(idents), links: Option::None };
        proof {
            assert(r@ =~~= spec_relationship_of(RelValueModel::Many(esm)));
        }
        r
    }

    /// Whether `key` names a declared relationship field of this object.
    #[verifier::loop_isolation(false)]
    pub fn has_relationship_field(&self, key: &String) -> (r: bool)
        ensures
            r == is_rel_name(self@.relationships, key@),
    {
        proof {
            lemma_rel_entry_views(self.relationships@, self.relationships@.len() as int);
        }
        let mut i: usize = 0;
        while i < self.relationships.len()
            invariant
                i <= self.relationships.len(),
                forall|j: int| 0 <= j < i as int ==> (#[trigger] self@.relationships[j]).0 != key@,
            decreases self.relationships.len() - i,
        {
            if self.relationships[i].0 == *key {
                proof {
                    assert(self@.relationships[i as int].0 == key@);
                }
                return true;
            }
            i = i + 1;
        }
        false
    }

    /// The attributes a resource carries for this object: every attribute
    /// whose key is not `id`, is not a relationship field name, and passes
    /// the field filter.
    #[verifier::loop_isolation(false)]
    pub fn extract_attributes(&self, fields: &QueryFields) -> (r: Vec<(String, JsonValue)>)
        ensures
            entry_views(r@) == spec_attribute_entries(
                self@,
                query_fields_view(*fields),
                self@.attributes.len() as int,
            ),
    {
        broadcast use lemma_entry_views;

        let ghost fm = query_fields_view(*fields);
        let id_key: String = String::from_str("id");
        let mut out: Vec<(String, JsonValue)> = Vec::new();
        let mut i: usize = 0;
        while i < self.attributes.len()
            invariant
                i <= self.attributes.len(),
                id_key@ == "id"@,
                entry_views(out@) =~= spec_attribute_entries(self@, fm, i as int),
            decreases self.attributes.len() - i,
        {
            proof {
                assert(self@.attributes[i as int] == (
                    self.attributes@[i as int].0@,
                    crate::value::value_view(self.attributes@[i as int].1),
                ));
            }
            let keep = !(self.attributes[i].0 == id_key) && !self.has_relationship_field(
                &self.attributes[i].0,
            ) && should_serialize_field(fields, &self._type, &self.attributes[i].0);
            if keep {
                let k = self.attributes[i].0.clone();
                let v = clone_value(&self.attributes[i].1);
                out.push((k, v));
            }
            i = i + 1;
            proof {
                assert(entry_views(out@) =~= spec_attribute_entries(self@, fm, i as int));
            }
        }
        out
    }

    /// The relationship entries a resource carries for this object, or
    /// `None` when the filter leaves none.
    #[verifier::loop_isolation(false)]
    pub fn build_relationships(&self, fields: &QueryFields) -> (r: Option<
        Vec<(String, Relationship)>,
    >)
        requires
            forall|i: int|
                0 <= i < self@.relationships.len() ==> spec_should_serialize(
                    query_fields_view(*fields),
                    self@.ty,
                    (#[trigger] self@.relationships[i]).0,
                ) ==> rel_value_identified_shallow(self@.relationships[i].1),
        ensures
            match r {
                Option::None => spec_relationships(self@, query_fields_view(*fields))
                    is None,
                Option::Some(entries) => spec_relationships(self@, query_fields_view(*fields))
                    == Option::Some(relationship_entry_views(entries@)),
            },
    {
        proof {
            lemma_rel_entry_views(self.relationships@, self.relationships@.len() as int);
        }
        let ghost fm = query_fields_view(*fields);
        let mut out: Vec<(String, Relationship)> = Vec::new();
        let mut i: usize = 0;
        while i < self.relationships.len()
            invariant
                i <= self.relationships.len(),
                relationship_entry_views(out@) =~= spec_relationship_entries(self@, fm, i as int),
            decreases self.relationships.len() - i,
        {
            proof {
                assert(self@.relationships[i as int] == (
                    self.relationships@[i as int].0@,
                    rel_value_view(self.relationships@[i as int].1),
                ));
            }
            if should_serialize_field(fields, &self._type, &self.relationships[i].0) {
                let rel = match &self.relationships[i].1 {
                    RelValue::One(Option::None) => Relationship {
                        data: IdentifierData::Null,
                        links: Option::None,
                    },
                    RelValue::One(Option::Some(t)) => ModelObject::build_has_one(t),
                    RelValue::Many(es) => {
                        proof {
                            lemma_opt_object_views(es@, es@.len() as int);
                            let esm = opt_object_views(es@, es@.len() as int);
                            assert(rel_value_identified_shallow(self@.relationships[i as int].1));
                            assert(self@.relationships[i as int].1 == RelValueModel::Many(esm));
                            assert forall|k: int| 0 <= k < es@.len() implies (#[trigger] es@[k])
                                is Some && es@[k]->0@.id is Some by {
                                assert(esm[k] is Some && esm[k]->0.id is Some);
                            }
                        }
                        ModelObject::build_has_many(es)
                    },
                };
                out.push((self.relationships[i].0.clone(), rel));
            }
            i = i + 1;
            proof {
                assert(relationship_entry_views(out@) =~= spec_relationship_entries(
                    self@,
                    fm,
                    i as int,
                ));
            }
        }
        if out.len() == 0 {
            Option::None
        } else {
            Option::Some(out)
        }
    }
}

/// Deep identification of a prefix extends to each of its entries.
pub proof fn lemma_rels_serializable_index(s: Seq<(Seq<char>, RelValueModel)>, upto: int)
    requires
        0 <= upto <= s.len(),
        rels_serializable(s, upto),
    ensures
        forall|i: int| 0 <= i < upto ==> rel_value_serializable((#[trigger] s[i]).1),
    decreases upto,
{
    if upto > 0 {
        lemma_rels_serializable_index(s, upto - 1);
    }
}

/// Deep identification of a prefix of to-many elements extends elementwise.
pub proof fn lemma_elems_serializable_index(es: Seq<Option<ObjectModel>>, upto: int)
    requires
        0 <= upto <= es.len(),
        elems_serializable(es, upto),
    ensures
        forall|i: int|
            0 <= i < upto ==> (#[trigger] es[i]) is Some && es[i]->0.id is Some
                && object_serializable(es[i]->0),
    decreases upto,
{
    if upto > 0 {
        lemma_elems_serializable_index(es, upto - 1);
    }
}

/// Deep identification implies identification one level deep.
pub proof fn lemma_serializable_shallow(r: RelValueModel)
    requires
        rel_value_serializable(r),
    ensures
        rel_value_identified_shallow(r),
{
    match r {
        RelValueModel::Many(es) => {
            lemma_elems_serializable_index(es, es.len() as int);
        },
        _ => {},
    }
}

/// A deeply identified object can be converted under any filter.
pub proof fn lemma_serializable_for_any(m: ObjectModel, q: QueryModel)
    requires
        object_serializable(m),
    ensures
        object_serializable_for(m, q),
{
    lemma_rels_serializable_index(m.relationships, m.relationships.len() as int);
    assert forall|i: int| 0 <= i < m.relationships.len() implies rel_value_identified_shallow(
        (#[trigger] m.relationships[i]).1,
    ) && rel_value_serializable(m.relationships[i].1) by {
        lemma_serializable_shallow(m.relationships[i].1);
    }
}

/// The views of a concatenation of resource lists are the concatenated views.
pub proof fn lemma_resource_views_concat(a: Seq<Resource>, b: Seq<Resource>)
    ensures
        resource_views(a + b) =~= resource_views(a) + resource_views(b),
{
}

impl ModelObject {
    /// The side-list for this object: for each relationship field passing the
    /// included filter, the depth-first expansion of its targets (each target
    /// converted without any filter, followed by its own expansion), in
    /// order; `None` when the list is empty.
    #[verifier::loop_isolation(false)]
    pub fn build_included(&self, included: &Option<Vec<String>>) -> (r: Option<Vec<Resource>>)
        requires
            forall|i: int|
                0 <= i < self@.relationships.len() ==> spec_should_include(
                    opt_string_list_view(*included),
                    (#[trigger] self@.relationships[i]).0,
                ) ==> rel_value_serializable(self@.relationships[i].1),
        ensures
            match r {
                Option::None => spec_build_included(self@, opt_string_list_view(*included))
                    is None,
                Option::Some(v) => spec_build_included(self@, opt_string_list_view(*included))
                    == Option::Some(resource_views(v@)),
            },
        decreases *self, 1int,
    {
        proof {
            lemma_rel_entry_views(self.relationships@, self.relationships@.len() as int);
        }
        let ghost incm = opt_string_list_view(*included);
        let mut out: Vec<Resource> = Vec::new();
        let mut i: usize = 0;
        while i < self.relationships.len()
            invariant
                i <= self.relationships.len(),
                resource_views(out@) =~= spec_included_entries(
                    self@.relationships,
                    incm,
                    i as int,
                ),
            decreases self.relationships.len() - i,
        {
            let ghost entry0 = resource_views(out@);
            proof {
                assert(self@.relationships[i as int] == (
                    self.relationships@[i as int].0@,
                    rel_value_view(self.relationships@[i as int].1),
                ));
            }
            if should_include(included, &self.relationships[i].0) {
                proof {
                    assert(rel_value_serializable(self@.relationships[i as int].1));
                }
                match &self.relationships[i].1 {
                    RelValue::One(Option::None) => {},
                    RelValue::One(Option::Some(t)) => {
                        proof {
                            assert(decreases_to!(*self => self.relationships));
                            assert(decreases_to!(self.relationships => self.relationships@));
                            assert(decreases_to!(self.relationships@ =>
                                self.relationships@[i as int]));
                            assert(decreases_to!(self.relationships@[i as int] => **t));
                        }
                        let ghost prev = out@;
                        let mut sub = t.to_resources();
                        let ghost o = sub@;
                        out.append(&mut sub);
                        proof {
                            lemma_resource_views_concat(prev, o);
                            assert(out@ =~= prev + o);
                            assert(resource_views(out@) =~= resource_views(prev)
                                + spec_to_resources(object_view(**t)));
                            assert(spec_rel_included(self@.relationships[i as int].1)
                                == spec_to_resources(object_view(**t)));
                        }
                    },
                    RelValue::Many(es) => {
                        let ghost esm = opt_object_views(es@, es@.len() as int);
                        proof {
                            lemma_opt_object_views(es@, es@.len() as int);
                            assert(elems_serializable(esm, esm.len() as int));
                            lemma_elems_serializable_index(esm, esm.len() as int);
                        }
                        let mut j: usize = 0;
                        let ghost base = resource_views(out@);
                        while j < es.len()
                            invariant
                                j <= es.len(),
                                resource_views(out@) =~= base + spec_elems_included(
                                    esm,
                                    j as int,
                                ),
                            decreases es.len() - j,
                        {
                            match &es[j] {
                                Option::None => {},
                                Option::Some(t) => {
                                    proof {
                                        assert(decreases_to!(*self => self.relationships));
                                        assert(decreases_to!(self.relationships =>
                                            self.relationships@));
                                        assert(decreases_to!(self.relationships@ =>
                                            self.relationships@[i as int]));
                                        assert(decreases_to!(self.relationships@[i as int] =>
                                            *es));
                                        assert(decreases_to!(*es => es@));
                                        assert(decreases_to!(es@ => es@[j as int]));
                                        assert(esm[j as int] == Option::Some(object_view(*t)));
                                        assert(object_serializable(t@));
                                    }
                                    let ghost prev = out@;
                                    let mut sub = t.to_resources();
                                    let ghost o = sub@;
                                    out.append(&mut sub);
                                    proof {
                                        lemma_resource_views_concat(prev, o);
                                        assert(out@ =~= prev + o);
                                        assert(resource_views(out@) =~= resource_views(prev)
                                            + spec_to_resources(object_view(*t)));
                                    }
                                },
                            }
                            j = j + 1;
                        }
                        proof {
                            assert(spec_rel_included(self@.relationships[i as int].1)
                                =~= spec_elems_included(esm, esm.len() as int));
                        }
                    },
                }
            }
            proof {
                let stepv = if spec_should_include(incm, self@.relationships[i as int].0) {
                    spec_rel_included(self@.relationships[i as int].1)
                } else {
                    Seq::<ResourceModel>::empty()
                };
                assert(resource_views(out@) =~= entry0 + stepv);
                assert(spec_included_entries(self@.relationships, incm, i as int + 1)
                    == spec_included_entries(self@.relationships, incm, i as int) + stepv);
                assert(resource_views(out@) =~= spec_included_entries(
                    self@.relationships,
                    incm,
                    i as int + 1,
                ));
            }
            i = i + 1;
        }
        if out.len() == 0 {
            Option::None
        } else {
            Option::Some(out)
        }
    }

    /// Converts this object under a filter: the resource plus its side-list.
    #[verifier::loop_isolation(false)]
    pub fn to_jsonapi_resource_with_query(&self, query: &Query) -> (r: (
        Resource,
        Option<Vec<Resource>>,
    ))
        requires
            object_serializable_for(self@, query@),
        ensures
            r.0@ == spec_resource(self@, query@.fields),
            match r.1 {
                Option::None => spec_build_included(self@, query@.included) is None,
                Option::Some(v) => spec_build_included(self@, query@.included) == Option::Some(
                    resource_views(v@),
                ),
            },
        decreases *self, 2int,
    {
        let attributes = self.extract_attributes(&query.fields);
        let relationships = self.build_relationships(&query.fields);
        let resource = Resource {
            _type: self._type.clone(),
            id: clone_opt_string(&self.id),
            attributes,
            relationships,
            links: Option::None,
            meta: Option::None,
        };
        let included = self.build_included(&query.included);
        proof {
            assert(resource@ =~~= spec_resource(self@, query@.fields));
        }
        (resource, included)
    }

    /// Converts this object with no filter.
    pub fn to_jsonapi_resource(&self) -> (r: (Resource, Option<Vec<Resource>>))
        requires
            object_serializable(self@),
        ensures
            r.0@ == spec_resource(self@, Option::None),
            match r.1 {
                Option::None => spec_build_included(self@, Option::None) is None,
                Option::Some(v) => spec_build_included(self@, Option::None) == Option::Some(
                    resource_views(v@),
                ),
            },
        decreases *self, 3int,
    {
        let query = Query::default();
        proof {
            lemma_serializable_for_any(self@, query@);
        }
        self.to_jsonapi_resource_with_query(&query)
    }

    /// This object's own resource followed by its full side-list, flattened.
    pub fn to_resources(&self) -> (r: Vec<Resource>)
        requires
            object_serializable(self@),
        ensures
            resource_views(r@) == spec_to_resources(self@),
        decreases *self, 4int,
    {
        let (me, maybe_others) = self.to_jsonapi_resource();
        let mut flattened: Vec<Resource> = Vec::new();
        flattened.push(me);
        let ghost first = flattened@;
        match maybe_others {
            Option::Some(mut others) => {
                let ghost o = others@;
                flattened.append(&mut others);
                proof {
                    lemma_resource_views_concat(first, o);
                    assert(resource_views(flattened@) =~= spec_to_resources(self@));
                }
            },
            Option::None => {
                proof {
                    assert(resource_views(flattened@) =~= spec_to_resources(self@));
                }
            },
        }
        flattened
    }

    /// Converts this object into a whole document under a filter.
    pub fn to_jsonapi_document_with_query(&self, query: &Query) -> (doc: JsonApiDocument)
        requires
            object_serializable_for(self@, query@),
        ensures
            doc@ == spec_to_document(self@, query@),
    {
        let (resource, included) = self.to_jsonapi_resource_with_query(query);
        let doc = JsonApiDocument {
            data: Option::Some(PrimaryData::Single(Box::new(resource))),
            included,
            errors: Option::None,
            links: Option::None,
            meta: Option::None,
        };
        proof {
            assert(doc@ =~~= spec_to_document(self@, query@));
        }
        doc
    }

    /// Converts this object into a whole document with no filter.
    pub fn to_jsonapi_document(&self) -> (doc: JsonApiDocument)
        requires
            object_serializable(self@),
        ensures
            doc@ == spec_to_document(self@, default_query_model()),
    {
        let query = Query::default();
        proof {
            lemma_serializable_for_any(self@, query@);
        }
        self.to_jsonapi_document_with_query(&query)
    }
}

/// The views of the first `upto` objects, in order.
pub open spec fn object_views(s: Seq<ModelObject>, upto: int) -> Seq<ObjectModel>
    decreases upto,
{
    if 0 < upto <= s.len() {
        object_views(s, upto - 1) + seq![object_view(s[upto - 1])]
    } else {
        Seq::empty()
    }
}

/// `object_views` maps `object_view` elementwise.
pub broadcast proof fn lemma_object_views(s: Seq<ModelObject>, upto: int)
    requires
        0 <= upto <= s.len(),
    ensures
        (#[trigger] object_views(s, upto)).len() == upto,
        forall|i: int| 0 <= i < upto ==> object_views(s, upto)[i] == object_view(s[i]),
    decreases upto,
{
    if upto > 0 {
        lemma_object_views(s, upto - 1);
    }
}

/// The resources of the first `upto` objects, each under the field filter, in
/// order.
pub open spec fn spec_many_resources(
    ms: Seq<ObjectModel>,
    fields: QueryFieldsModel,
    upto: int,
) -> Seq<ResourceModel>
    decreases upto,
{
    if 0 < upto <= ms.len() {
        spec_many_resources(ms, fields, upto - 1) + seq![spec_resource(ms[upto - 1], fields)]
    } else {
        Seq::empty()
    }
}

/// The combined side-list of the first `upto` objects, in input order.
pub open spec fn spec_many_included(
    ms: Seq<ObjectModel>,
    included: Option<Seq<Seq<char>>>,
    upto: int,
) -> Seq<ResourceModel>
    decreases upto,
{
    if 0 < upto <= ms.len() {
        spec_many_included(ms, included, upto - 1) + spec_included_entries(
            ms[upto - 1].relationships,
            included,
            ms[upto - 1].relationships.len() as int,
        )
    } else {
        Seq::empty()
    }
}

/// The document a collection of objects converts to under the filter `q`.
pub open spec fn spec_to_document_many(ms: Seq<ObjectModel>, q: QueryModel) -> DocumentModel {
    DocumentModel {
        data: Option::Some(
            PrimaryDataModel::Multiple(spec_many_resources(ms, q.fields, ms.len() as int)),
        ),
        included: if spec_many_included(ms, q.included, ms.len() as int).len() == 0 {
            Option::None
        } else {
            Option::Some(spec_many_included(ms, q.included, ms.len() as int))
        },
        errors: Option::None,
        links: Option::None,
        meta: Option::None,
    }
}

/// Converts each object independently under the filter, concatenating the
/// side-lists in input order; the combined side-list is `None` when empty,
/// never an empty list.
#[verifier::loop_isolation(false)]
pub fn vec_to_jsonapi_resources(objects: &Vec<ModelObject>, query: &Query) -> (r: (
    Vec<Resource>,
    Option<Vec<Resource>>,
))
    requires
        forall|i: int|
            0 <= i < objects@.len() ==> object_serializable_for(
                object_view(#[trigger] objects@[i]),
                query@,
            ),
    ensures
        resource_views(r.0@) == spec_many_resources(
            object_views(objects@, objects@.len() as int),
            query@.fields,
            objects@.len() as int,
        ),
        match r.1 {
            Option::None => spec_many_included(
                object_views(objects@, objects@.len() as int),
                query@.included,
                objects@.len() as int,
            ).len() == 0,
            Option::Some(v) => resource_views(v@) == spec_many_included(
                object_views(objects@, objects@.len() as int),
                query@.included,
                objects@.len() as int,
            ) && v@.len() > 0,
        },
{
    let ghost msm = object_views(objects@, objects@.len() as int);
    proof {
        lemma_object_views(objects@, objects@.len() as int);
    }
    let mut resources: Vec<Resource> = Vec::new();
    let mut combined: Vec<Resource> = Vec::new();
    let mut i: usize = 0;
    while i < objects.len()
        invariant
            i <= objects.len(),
            resource_views(resources@) =~= spec_many_resources(msm, query@.fields, i as int),
            resource_views(combined@) =~= spec_many_included(msm, query@.included, i as int),
        decreases objects.len() - i,
    {
        let (res, opt_incl) = objects[i].to_jsonapi_resource_with_query(query);
        resources.push(res);
        proof {
            assert(resource_views(resources@) =~= spec_many_resources(
                msm,
                query@.fields,
                i as int + 1,
            ));
        }
        match opt_incl {
            Option::Some(mut incl) => {
                let ghost prev = combined@;
                let ghost o = incl@;
                combined.append(&mut incl);
                proof {
                    lemma_resource_views_concat(prev, o);
                    assert(resource_views(combined@) =~= spec_many_included(
                        msm,
                        query@.included,
                        i as int + 1,
                    ));
                }
            },
            Option::None => {
                proof {
                    assert(resource_views(combined@) =~= spec_many_included(
                        msm,
                        query@.included,
                        i as int + 1,
                    ));
                }
            },
        }
        i = i + 1;
    }
    let opt_included = if combined.len() == 0 {
        Option::None
    } else {
        Option::Some(combined)
    };
    (resources, opt_included)
}

/// Converts a collection of objects into one document under a filter, with
/// `PrimaryData::Multiple` as its data.
pub fn vec_to_jsonapi_document_with_query(objects: &Vec<ModelObject>, query: &Query) -> (doc:
    JsonApiDocument)
    requires
        forall|i: int|
            0 <= i < objects@.len() ==> object_serializable_for(
                object_view(#[trigger] objects@[i]),
                query@,
            ),
    ensures
        doc@ == spec_to_document_many(
            object_views(objects@, objects@.len() as int),
            query@,
        ),
{
    let (resources, included) = vec_to_jsonapi_resources(objects, query);
    let doc = JsonApiDocument {
        data: Option::Some(PrimaryData::Multiple(resources)),
        included,
        errors: Option::None,
        links: Option::None,
        meta: Option::None,
    };
    proof {
        let msm = object_views(objects@, objects@.len() as int);
        lemma_object_views(objects@, objects@.len() as int);
        assert(doc@.data =~~= spec_to_document_many(msm, query@).data);
        assert(doc@.included =~~= spec_to_document_many(msm, query@).included);
        assert(doc@ =~~= spec_to_document_many(msm, query@));
    }
    doc
}

/// Converts a collection of objects into one document with no filter.
pub fn vec_to_jsonapi_document(objects: &Vec<ModelObject>) -> (doc: JsonApiDocument)
    requires
        forall|i: int|
            0 <= i < objects@.len() ==> object_serializable(object_view(#[trigger] objects@[i])),
    ensures
        doc@ == spec_to_document_many(
            object_views(objects@, objects@.len() as int),
            default_query_model(),
        ),
{
    let query = Query::default();
    proof {
        assert forall|i: int| 0 <= i < objects@.len() implies object_serializable_for(
            object_view(#[trigger] objects@[i]),
            query@,
        ) by {
            lemma_serializable_for_any(object_view(objects@[i]), query@);
        }
    }
    vec_to_jsonapi_document_with_query(objects, &query)
}

/// No attribute key of the object (or of any object below it) is `id` or
/// collides with one of its relationship names. Conversion drops such
/// attributes, so only a clean object can round-trip without loss.
pub open spec fn object_clean(m: ObjectModel) -> bool
    decreases m, 1int,
{
    &&& forall|k: int|
        0 <= k < m.attributes.len() ==> (#[trigger] m.attributes[k]).0 != "id"@ && !is_rel_name(
            m.relationships,
            m.attributes[k].0,
        )
    &&& rels_clean(m.relationships, m.relationships.len() as int)
}

/// Cleanliness of the first `upto` relationship entries.
pub open spec fn rels_clean(s: Seq<(Seq<char>, RelValueModel)>, upto: int) -> bool
    decreases s, upto,
{
    if 0 < upto <= s.len() {
        rels_clean(s, upto - 1) && rel_value_clean(s[upto - 1].1)
    } else {
        true
    }
}

/// Cleanliness of one relationship value.
pub open spec fn rel_value_clean(r: RelValueModel) -> bool
    decreases r, 1int,
{
    match r {
        RelValueModel::One(Option::None) => true,
        RelValueModel::One(Option::Some(t)) => object_clean(t),
        RelValueModel::Many(es) => elems_clean(es, es.len() as int),
    }
}

/// Cleanliness of the first `upto` to-many elements.
pub open spec fn elems_clean(es: Seq<Option<ObjectModel>>, upto: int) -> bool
    decreases es, upto,
{
    if 0 < upto <= es.len() {
        elems_clean(es, upto - 1) && (es[upto - 1] is Some ==> object_clean(es[upto - 1]->0))
    } else {
        true
    }
}

/// With no field filter, a clean object's emitted attributes are exactly its
/// attributes.
pub proof fn lemma_attributes_identity(m: ObjectModel, upto: int)
    requires
        0 <= upto <= m.attributes.len(),
        forall|k: int|
            0 <= k < m.attributes.len() ==> (#[trigger] m.attributes[k]).0 != "id"@ && !is_rel_name(
                m.relationships,
                m.attributes[k].0,
            ),
    ensures
        spec_attribute_entries(m, Option::None, upto) =~= m.attributes.subrange(0, upto),
    decreases upto,
{
    if upto > 0 {
        lemma_attributes_identity(m, upto - 1);
    }
}

/// With no field filter, the emitted relationship entries are the declared
/// ones, each turned into its descriptor, in order.
pub proof fn lemma_relationship_entries_full(m: ObjectModel, upto: int)
    requires
        0 <= upto <= m.relationships.len(),
    ensures
        (spec_relationship_entries(m, Option::None, upto)).len() == upto,
        forall|i: int|
            0 <= i < upto ==> spec_relationship_entries(m, Option::None, upto)[i] == (
                m.relationships[i].0,
                spec_relationship_of(m.relationships[i].1),
            ),
    decreases upto,
{
    if upto > 0 {
        lemma_relationship_entries_full(m, upto - 1);
    }
}

/// `spec_idents_of` maps `spec_identifier` elementwise.
pub proof fn lemma_idents_of(es: Seq<Option<ObjectModel>>, upto: int)
    requires
        0 <= upto <= es.len(),
    ensures
        spec_idents_of(es, upto).len() == upto,
        forall|i: int|
            0 <= i < upto ==> spec_idents_of(es, upto)[i] == spec_identifier(es[i]->0),
    decreases upto,
{
    if upto > 0 {
        lemma_idents_of(es, upto - 1);
    }
}

/// The first resource at or after `from` matching the identifier: same type,
/// and the same id (an id-less resource never matches).
pub open spec fn spec_lookup(
    needle: IdentifierModel,
    hay: Seq<ResourceModel>,
    from: int,
) -> Option<ResourceModel>
    decreases hay.len() - from,
{
    if 0 <= from < hay.len() {
        if hay[from].ty == needle.ty && hay[from].id == Option::Some(needle.id) {
            Option::Some(hay[from])
        } else {
            spec_lookup(needle, hay, from + 1)
        }
    } else {
        Option::None
    }
}

/// Resolving one identifier against the side-list: the first matching
/// resource, recursively rebuilt, while fuel lasts.
pub open spec fn spec_resolve(
    ident: IdentifierModel,
    inc: Option<Seq<ResourceModel>>,
    fuel: nat,
) -> Option<ObjectModel>
    decreases fuel, 0int, 0int,
{
    if fuel == 0 {
        Option::None
    } else {
        match inc {
            Option::None => Option::None,
            Option::Some(hay) => match spec_lookup(ident, hay, 0) {
                Option::None => Option::None,
                Option::Some(r) => Option::Some(
                    spec_resource_to_object(r, inc, (fuel - 1) as nat),
                ),
            },
        }
    }
}

/// Rebuilding one relationship: empty to-one stays empty, a to-one reference
/// resolves or stays empty, a to-many list resolves slot by slot, keeping
/// positions (an unresolved slot is `None`, never dropped).
pub open spec fn spec_rebuild_one(
    rm: RelationshipModel,
    inc: Option<Seq<ResourceModel>>,
    fuel: nat,
) -> RelValueModel
    decreases fuel, 1int, 0int,
{
    match rm.data {
        IdentifierDataModel::Null => RelValueModel::One(Option::None),
        IdentifierDataModel::Single(ident) => RelValueModel::One(spec_resolve(ident, inc, fuel)),
        IdentifierDataModel::Multiple(idents) => RelValueModel::Many(
            spec_rebuild_elems(idents, inc, fuel, idents.len() as int),
        ),
    }
}

/// Rebuilding the first `upto` slots of a to-many relationship.
pub open spec fn spec_rebuild_elems(
    idents: Seq<IdentifierModel>,
    inc: Option<Seq<ResourceModel>>,
    fuel: nat,
    upto: int,
) -> Seq<Option<ObjectModel>>
    decreases fuel, 0int, upto,
{
    if 0 < upto <= idents.len() {
        spec_rebuild_elems(idents, inc, fuel, upto - 1) + seq![
            spec_resolve(idents[upto - 1], inc, fuel),
        ]
    } else {
        Seq::empty()
    }
}

/// Rebuilding the first `upto` relationship entries of a resource, in order.
pub open spec fn spec_rebuild_rels(
    entries: Seq<(Seq<char>, RelationshipModel)>,
    inc: Option<Seq<ResourceModel>>,
    fuel: nat,
    upto: int,
) -> Seq<(Seq<char>, RelValueModel)>
    decreases fuel, 2int, upto,
{
    if 0 < upto <= entries.len() {
        spec_rebuild_rels(entries, inc, fuel, upto - 1) + seq![
            (entries[upto - 1].0, spec_rebuild_one(entries[upto - 1].1, inc, fuel)),
        ]
    } else {
        Seq::empty()
    }
}

/// The object a resource reconstructs to: type, id and attributes are taken
/// as they stand, and each relationship entry is rebuilt against the
/// side-list.
pub open spec fn spec_resource_to_object(
    r: ResourceModel,
    inc: Option<Seq<ResourceModel>>,
    fuel: nat,
) -> ObjectModel
    decreases fuel, 3int, 0int,
{
    ObjectModel {
        ty: r.ty,
        id: r.id,
        attributes: r.attributes,
        relationships: match r.relationships {
            Option::None => Seq::empty(),
            Option::Some(entries) => spec_rebuild_rels(entries, inc, fuel, entries.len() as int),
        },
    }
}

/// The fuel that reconstruction starts with: the length of the side-list.
/// A resolution chain longer than that must revisit a resource, so this
/// bound changes nothing for acyclic side-lists.
pub open spec fn spec_fuel(inc: Option<Seq<ResourceModel>>) -> nat {
    match inc {
        Option::None => 0,
        Option::Some(hay) => hay.len(),
    }
}

/// What `from_jsonapi_resource` returns.
pub open spec fn spec_from_resource(r: ResourceModel, inc: Option<Seq<ResourceModel>>)
    -> ObjectModel {
    spec_resource_to_object(r, inc, spec_fuel(inc))
}

/// Finds the first resource in `haystack` with the given type and id.
#[verifier::loop_isolation(false)]
pub fn lookup<'a>(needle: &ResourceIdentifier, haystack: &'a Vec<Resource>) -> (r: Option<
    &'a Resource,
>)
    ensures
        match r {
            Option::None => spec_lookup(needle@, resource_views(haystack@), 0) is None,
            Option::Some(res) => spec_lookup(needle@, resource_views(haystack@), 0)
                == Option::Some(res@),
        },
{
    let ghost hm = resource_views(haystack@);
    let mut i: usize = 0;
    while i < haystack.len()
        invariant
            i <= haystack.len(),
            spec_lookup(needle@, hm, 0) == spec_lookup(needle@, hm, i as int),
        decreases haystack.len() - i,
    {
        let matches_type = haystack[i]._type == needle._type;
        let matches_id = match &haystack[i].id {
            Option::Some(id) => *id == needle.id,
            Option::None => false,
        };
        if matches_type && matches_id {
            proof {
                assert(hm[i as int] == haystack@[i as int]@);
            }
            return Option::Some(&haystack[i]);
        }
        proof {
            assert(hm[i as int] == haystack@[i as int]@);
            assert(spec_lookup(needle@, hm, i as int) == spec_lookup(needle@, hm, i as int + 1));
        }
        i = i + 1;
    }
    Option::None
}

/// Resolves one identifier against the optional side-list, rebuilding the
/// found resource recursively while fuel lasts.
#[verifier::loop_isolation(false)]
fn resolve_identifier(
    ident: &ResourceIdentifier,
    included: &Option<Vec<Resource>>,
    fuel: usize,
) -> (r: Option<Box<ModelObject>>)
    ensures
        match r {
            Option::None => spec_resolve(ident@, opt_resources_view(*included), fuel as nat)
                is None,
            Option::Some(o) => spec_resolve(ident@, opt_resources_view(*included), fuel as nat)
                == Option::Some(o@),
        },
    decreases fuel, 0int,
{
    if fuel == 0 {
        return Option::None;
    }
    match included {
        Option::None => Option::None,
        Option::Some(hay) => match lookup(ident, hay) {
            Option::None => Option::None,
            Option::Some(res) => Option::Some(
                Box::new(resource_to_object(res, included, fuel - 1)),
            ),
        },
    }
}

/// Copies a list of attribute entries.
#[verifier::loop_isolation(false)]
pub fn clone_attribute_entries(attrs: &Vec<(String, JsonValue)>) -> (r: Vec<(String, JsonValue)>)
    ensures
        entry_views(r@) == entry_views(attrs@),
{
    broadcast use lemma_entry_views;

    let mut out: Vec<(String, JsonValue)> = Vec::new();
    let mut i: usize = 0;
    while i < attrs.len()
        invariant
            i <= attrs.len(),
            out@.len() == i as int,
            forall|j: int| 0 <= j < i as int ==> out@[j].0@ == #[trigger] attrs@[j].0@,
            forall|j: int| 0 <= j < i as int ==> out@[j].1@ == #[trigger] attrs@[j].1@,
        decreases attrs.len() - i,
    {
        let k = attrs[i].0.clone();
        let v = clone_value(&attrs[i].1);
        out.push((k, v));
        i = i + 1;
    }
    proof {
        assert forall|j: int| 0 <= j < attrs@.len() implies entry_views(out@)[j] == entry_views(
            attrs@,
        )[j] by {
            assert(out@[j].0@ == attrs@[j].0@ && out@[j].1@ == attrs@[j].1@);
        }
        assert(entry_views(out@) =~= entry_views(attrs@));
    }
    out
}

/// Reconstructs an object from a resource, resolving relationship targets
/// against the side-list.
#[verifier::loop_isolation(false)]
fn resource_to_object(resource: &Resource, included: &Option<Vec<Resource>>, fuel: usize) -> (r:
    ModelObject)
    ensures
        r@ == spec_resource_to_object(resource@, opt_resources_view(*included), fuel as nat),
    decreases fuel, 1int,
{
    let ghost incm = opt_resources_view(*included);
    let mut rels: Vec<(String, RelValue)> = Vec::new();
    match &resource.relationships {
        Option::None => {},
        Option::Some(entries) => {
            let ghost em = relationship_entry_views(entries@);
            let mut i: usize = 0;
            while i < entries.len()
                invariant
                    i <= entries.len(),
                    rel_entry_views(rels@, rels@.len() as int) =~= spec_rebuild_rels(
                        em,
                        incm,
                        fuel as nat,
                        i as int,
                    ),
                decreases entries.len() - i,
            {
                proof {
                    lemma_rel_entry_views(rels@, rels@.len() as int);
                    assert(em[i as int] == (entries@[i as int].0@, entries@[i as int].1@));
                }
                let name = entries[i].0.clone();
                let value: RelValue = match &entries[i].1.data {
                    IdentifierData::Null => RelValue::One(Option::None),
                    IdentifierData::Single(ident) => RelValue::One(
                        resolve_identifier(ident, included, fuel),
                    ),
                    IdentifierData::Multiple(idents) => {
                        let ghost idm = identifier_views(idents@);
                        let mut slots: Vec<Option<ModelObject>> = Vec::new();
                        let mut j: usize = 0;
                        while j < idents.len()
                            invariant
                                j <= idents.len(),
                                opt_object_views(slots@, slots@.len() as int)
                                    =~= spec_rebuild_elems(idm, incm, fuel as nat, j as int),
                            decreases idents.len() - j,
                        {
                            proof {
                                lemma_opt_object_views(slots@, slots@.len() as int);
                                assert(idm[j as int] == idents@[j as int]@);
                            }
                            let slot = match resolve_identifier(&idents[j], included, fuel) {
                                Option::Some(o) => Option::Some(*o),
                                Option::None => Option::None,
                            };
                            slots.push(slot);
                            j = j + 1;
                            proof {
                                lemma_opt_object_views(slots@, slots@.len() as int);
                                assert(opt_object_views(slots@, slots@.len() as int)
                                    =~= spec_rebuild_elems(idm, incm, fuel as nat, j as int));
                            }
                        }
                        RelValue::Many(slots)
                    },
                };
                proof {
                    assert(rel_value_view(value) == spec_rebuild_one(
                        entries@[i as int].1@,
                        incm,
                        fuel as nat,
                    ));
                }
                rels.push((name, value));
                i = i + 1;
                proof {
                    lemma_rel_entry_views(rels@, rels@.len() as int);
                    assert(rel_entry_views(rels@, rels@.len() as int) =~= spec_rebuild_rels(
                        em,
                        incm,
                        fuel as nat,
                        i as int,
                    ));
                }
            }
        },
    }
    let r = ModelObject {
        _type: resource._type.clone(),
        id: clone_opt_string(&resource.id),
        attributes: clone_attribute_entries(&resource.attributes),
        relationships: rels,
    };
    proof {
        assert(r@ =~~= spec_resource_to_object(resource@, incm, fuel as nat));
    }
    r
}

/// Reconstructs an object from a resource and an optional side-list. A
/// relationship target that is not found in the side-list (or any target,
/// when there is no side-list) is reconstructed as absent rather than
/// failing.
pub fn from_jsonapi_resource(resource: &Resource, included: &Option<Vec<Resource>>) -> (r:
    ModelObject)
    ensures
        r@ == spec_from_resource(resource@, opt_resources_view(*included)),
{
    let fuel = match included {
        Option::None => 0,
        Option::Some(hay) => hay.len(),
    };
    resource_to_object(resource, included, fuel)
}

/// Reconstructs one object from a document. Fails with `MissingData` when
/// the document has no primary data (absent or null), and with `DecodeError`
/// when the primary data is a collection.
pub fn from_jsonapi_document(doc: &JsonApiDocument) -> (r: Result<ModelObject, JsonApiError>)
    ensures
        match doc@.data {
            Option::None => r == Result::<ModelObject, JsonApiError>::Err(
                JsonApiError::MissingData,
            ),
            Option::Some(pd) => match pd {
                PrimaryDataModel::Null => r == Result::<ModelObject, JsonApiError>::Err(
                    JsonApiError::MissingData,
                ),
                PrimaryDataModel::Single(res) => r is Ok && r->Ok_0@ == spec_from_resource(
                    res,
                    doc@.included,
                ),
                PrimaryDataModel::Multiple(_) => r == Result::<ModelObject, JsonApiError>::Err(
                    JsonApiError::DecodeError,
                ),
            },
        },
{
    match &doc.data {
        Option::None => Result::Err(JsonApiError::MissingData),
        Option::Some(PrimaryData::Null) => Result::Err(JsonApiError::MissingData),
        Option::Some(PrimaryData::Single(resource)) => Result::Ok(
            from_jsonapi_resource(resource, &doc.included),
        ),
        Option::Some(PrimaryData::Multiple(_)) => Result::Err(JsonApiError::DecodeError),
    }
}

/// The objects the first `upto` resources reconstruct to, in order.
pub open spec fn spec_from_resources(
    rs: Seq<ResourceModel>,
    inc: Option<Seq<ResourceModel>>,
    upto: int,
) -> Seq<ObjectModel>
    decreases upto,
{
    if 0 < upto <= rs.len() {
        spec_from_resources(rs, inc, upto - 1) + seq![spec_from_resource(rs[upto - 1], inc)]
    } else {
        Seq::empty()
    }
}

/// Reconstructs a collection of objects from a document. Fails with
/// `MissingData` when the document has no primary data (absent or null), and
/// with `DecodeError` when the primary data is a single resource.
#[verifier::loop_isolation(false)]
pub fn many_from_jsonapi_document(doc: &JsonApiDocument) -> (r: Result<
    Vec<ModelObject>,
    JsonApiError,
>)
    ensures
        match doc@.data {
            Option::None => r == Result::<Vec<ModelObject>, JsonApiError>::Err(
                JsonApiError::MissingData,
            ),
            Option::Some(pd) => match pd {
                PrimaryDataModel::Null => r == Result::<Vec<ModelObject>, JsonApiError>::Err(
                    JsonApiError::MissingData,
                ),
                PrimaryDataModel::Single(_) => r == Result::<Vec<ModelObject>, JsonApiError>::Err(
                    JsonApiError::DecodeError,
                ),
                PrimaryDataModel::Multiple(rs) => r is Ok && object_views(
                    r->Ok_0@,
                    r->Ok_0@.len() as int,
                ) == spec_from_resources(rs, doc@.included, rs.len() as int),
            },
        },
{
    match &doc.data {
        Option::None => Result::Err(JsonApiError::MissingData),
        Option::Some(PrimaryData::Null) => Result::Err(JsonApiError::MissingData),
        Option::Some(PrimaryData::Single(_)) => Result::Err(JsonApiError::DecodeError),
        Option::Some(PrimaryData::Multiple(resources)) => {
            let ghost rsm = resource_views(resources@);
            let mut out: Vec<ModelObject> = Vec::new();
            let mut i: usize = 0;
            while i < resources.len()
                invariant
                    i <= resources.len(),
                    object_views(out@, out@.len() as int) =~= spec_from_resources(
                        rsm,
                        doc@.included,
                        i as int,
                    ),
                decreases resources.len() - i,
            {
                proof {
                    lemma_object_views(out@, out@.len() as int);
                    assert(rsm[i as int] == resources@[i as int]@);
                }
                out.push(from_jsonapi_resource(&resources[i], &doc.included));
                i = i + 1;
                proof {
                    lemma_object_views(out@, out@.len() as int);
                    assert(object_views(out@, out@.len() as int) =~= spec_from_resources(
                        rsm,
                        doc@.included,
                        i as int,
                    ));
                }
            }
            Result::Ok(out)
        },
    }
}

} // verus!
