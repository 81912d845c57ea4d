//! The JSON:API document types: resource identifiers, relationships,
//! resources and the document envelope, together with their mathematical
//! models.

use vstd::prelude::*;
use crate::value::{JsonValue, ValueModel, value_view, entry_views};

verus! {

broadcast use {vstd::std_specs::vec::group_vec_axioms, vstd::seq::group_seq_axioms};

/// The minimal reference to a resource: its type name and its id.
/// Ids are always strings on the wire; numeric ids are stringified.
#[derive(Debug, PartialEq, Eq)]
pub struct ResourceIdentifier {
    pub _type: String,
    pub id: String,
}

/// The data of a relationship: an empty to-one, a populated to-one, or an
/// ordered to-many.
#[derive(Debug, PartialEq, Eq)]
pub enum IdentifierData {
    Null,
    Single(ResourceIdentifier),
    Multiple(Vec<ResourceIdentifier>),
}

/// A relationship descriptor: identifier data plus optional links.
#[derive(Debug, PartialEq, Eq)]
pub struct Relationship {
    pub data: IdentifierData,
    pub links: Option<JsonValue>,
}

/// One resource: type, optional id (absent for unsaved resources),
/// attributes, and optional relationships. Attribute and relationship entries
/// keep their order.
#[derive(Debug, PartialEq, Eq)]
pub struct Resource {
    pub _type: String,
    pub id: Option<String>,
    pub attributes: Vec<(String, JsonValue)>,
    pub relationships: Option<Vec<(String, Relationship)>>,
    pub links: Option<JsonValue>,
    pub meta: Option<JsonValue>,
}

/// The primary data of a document: null, one resource, or many.
#[derive(Debug, PartialEq, Eq)]
pub enum PrimaryData {
    Null,
    Single(Box<Resource>),
    Multiple(Vec<Resource>),
}

/// The document envelope: primary data plus the flat `included` side-list.
#[derive(Debug, PartialEq, Eq)]
pub struct JsonApiDocument {
    pub data: Option<PrimaryData>,
    pub included: Option<Vec<Resource>>,
    pub errors: Option<JsonValue>,
    pub links: Option<JsonValue>,
    pub meta: Option<JsonValue>,
}

/// A recoverable failure while turning a document back into an object.
#[derive(Debug, PartialEq, Eq)]
pub enum JsonApiError {
    /// The document had no primary data where some was required.
    MissingData,
    /// The document's primary data had the wrong shape for the caller.
    DecodeError,
}

/// Model of a [`ResourceIdentifier`].
#[verifier::ext_equal]
pub struct IdentifierModel {
    pub ty: Seq<char>,
    pub id: Seq<char>,
}

/// Model of [`IdentifierData`].
#[verifier::ext_equal]
pub enum IdentifierDataModel {
    Null,
    Single(IdentifierModel),
    Multiple(Seq<IdentifierModel>),
}

/// Model of a [`Relationship`].
#[verifier::ext_equal]
pub struct RelationshipModel {
    pub data: IdentifierDataModel,
    pub links: Option<ValueModel>,
}

/// Model of a [`Resource`].
#[verifier::ext_equal]
pub struct ResourceModel {
    pub ty: Seq<char>,
    pub id: Option<Seq<char>>,
    pub attributes: Seq<(Seq<char>, ValueModel)>,
    pub relationships: Option<Seq<(Seq<char>, RelationshipModel)>>,
    pub links: Option<ValueModel>,
    pub meta: Option<ValueModel>,
}

/// Model of [`PrimaryData`].
#[verifier::ext_equal]
pub enum PrimaryDataModel {
    Null,
    Single(ResourceModel),
    Multiple(Seq<ResourceModel>),
}

/// Model of a [`JsonApiDocument`].
#[verifier::ext_equal]
pub struct DocumentModel {
    pub data: Option<PrimaryDataModel>,
    pub included: Option<Seq<ResourceModel>>,
    pub errors: Option<ValueModel>,
    pub links: Option<ValueModel>,
    pub meta: Option<ValueModel>,
}

impl View for ResourceIdentifier {
    type V = IdentifierModel;

    open spec fn view(&self) -> IdentifierModel {
        IdentifierModel { ty: self._type@, id: self.id@ }
    }
}

/// The models of a sequence of identifiers, in order.
pub open spec fn identifier_views(s: Seq<ResourceIdentifier>) -> Seq<IdentifierModel> {
    Seq::new(s.len(), |i: int| if 0 <= i < s.len() {
        s[i]@
    } else {
        IdentifierModel { ty: Seq::empty(), id: Seq::empty() }
    })
}

impl View for IdentifierData {
    type V = IdentifierDataModel;

    open spec fn view(&self) -> IdentifierDataModel {
        match self {
            IdentifierData::Null => IdentifierDataModel::Null,
            IdentifierData::Single(ident) => IdentifierDataModel::Single(ident@),
            IdentifierData::Multiple(idents) => IdentifierDataModel::Multiple(
                identifier_views(idents@),
            ),
        }
    }
}

/// The model of an optional generic value.
pub open spec fn opt_value_view(v: Option<JsonValue>) -> Option<ValueModel> {
    match v {
        Option::None => Option::None,
        Option::Some(inner) => Option::Some(value_view(inner)),
    }
}

impl View for Relationship {
    type V = RelationshipModel;

    open spec fn view(&self) -> RelationshipModel {
        RelationshipModel { data: self.data@, links: opt_value_view(self.links) }
    }
}

/// The models of a sequence of named relationships, in order.
pub open spec fn relationship_entry_views(s: Seq<(String, Relationship)>) -> Seq<
    (Seq<char>, RelationshipModel),
> {
    Seq::new(s.len(), |i: int| if 0 <= i < s.len() {
        (s[i].0@, s[i].1@)
    } else {
        (Seq::empty(), RelationshipModel { data: IdentifierDataModel::Null, links: Option::None })
    })
}

/// The model of an optional string.
pub open spec fn opt_string_view(s: Option<String>) -> Option<Seq<char>> {
    match s {
        Option::None => Option::None,
        Option::Some(inner) => Option::Some(inner@),
    }
}

impl View for Resource {
    type V = ResourceModel;

    open spec fn view(&self) -> ResourceModel {
        ResourceModel {
            ty: self._type@,
            id: opt_string_view(self.id),
            attributes: entry_views(self.attributes@),
            relationships: match self.relationships {
                Option::None => Option::None,
                Option::Some(entries) => Option::Some(relationship_entry_views(entries@)),
            },
            links: opt_value_view(self.links),
            meta: opt_value_view(self.meta),
        }
    }
}

/// The models of a sequence of resources, in order.
pub open spec fn resource_views(s: Seq<Resource>) -> Seq<ResourceModel> {
    Seq::new(s.len(), |i: int| if 0 <= i < s.len() {
        s[i]@
    } else {
        ResourceModel {
            ty: Seq::empty(),
            id: Option::None,
            attributes: Seq::empty(),
            relationships: Option::None,
            links: Option::None,
            meta: Option::None,
        }
    })
}

impl View for PrimaryData {
    type V = PrimaryDataModel;

    open spec fn view(&self) -> PrimaryDataModel {
        match self {
            PrimaryData::Null => PrimaryDataModel::Null,
            PrimaryData::Single(resource) => PrimaryDataModel::Single((**resource)@),
            PrimaryData::Multiple(resources) => PrimaryDataModel::Multiple(
                resource_views(resources@),
            ),
        }
    }
}

/// The model of an optional resource list.
pub open spec fn opt_resources_view(s: Option<Vec<Resource>>) -> Option<Seq<ResourceModel>> {
    match s {
        Option::None => Option::None,
        Option::Some(resources) => Option::Some(resource_views(resources@)),
    }
}

impl View for JsonApiDocument {
    type V = DocumentModel;

    open spec fn view(&self) -> DocumentModel {
        DocumentModel {
            data: match self.data {
                Option::None => Option::None,
                Option::Some(pd) => Option::Some(pd@),
            },
            included: opt_resources_view(self.included),
            errors: opt_value_view(self.errors),
            links: opt_value_view(self.links),
            meta: opt_value_view(self.meta),
        }
    }
}

/// Whether a document's model is valid: it carries primary data or errors,
/// and never both at once.
pub open spec fn spec_is_valid(d: DocumentModel) -> bool {
    (d.data is Some || d.errors is Some) && !(d.data is Some && d.errors is Some)
}

impl JsonApiDocument {
    /// A document is valid when it has primary data or errors, but not both.
    pub fn is_valid(&self) -> (r: bool)
        ensures
            r == spec_is_valid(self@),
    {
        (self.data.is_some() || self.errors.is_some()) && !(self.data.is_some()
            && self.errors.is_some())
    }
}

impl Default for JsonApiDocument {
    /// The empty document: no data, no included, no errors, no links, no meta.
    fn default() -> (d: JsonApiDocument)
        ensures
            d@ == (DocumentModel {
                data: Option::None,
                included: Option::None,
                errors: Option::None,
                links: Option::None,
                meta: Option::None,
            }),
    {
        JsonApiDocument {
            data: Option::None,
            included: Option::None,
            errors: Option::None,
            links: Option::None,
            meta: Option::None,
        }
    }
}

} // verus!
