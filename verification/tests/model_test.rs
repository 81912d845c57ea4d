use jsonapi::api::{IdentifierData, JsonApiDocument, JsonApiError, PrimaryData, Relationship, Resource};
use jsonapi::json::{document_to_json, i64_to_string, parse_document, parse_json_value, value_to_json};
use jsonapi::model::{
    from_jsonapi_document, from_jsonapi_resource, many_from_jsonapi_document, vec_to_jsonapi_document,
    vec_to_jsonapi_document_with_query, ModelObject, RelValue,
};
use jsonapi::query::Query;
use jsonapi::JsonValue;

fn flea(id: &str, name: &str) -> ModelObject {
    ModelObject {
        _type: "flea".to_string(),
        id: Some(id.to_string()),
        attributes: vec![("name".to_string(), JsonValue::Str(name.to_string()))],
        relationships: vec![],
    }
}

fn dog_with_fleas() -> ModelObject {
    ModelObject {
        _type: "dog".to_string(),
        id: Some("1".to_string()),
        attributes: vec![
            ("name".to_string(), JsonValue::Str("fido".to_string())),
            ("age".to_string(), JsonValue::Number(2)),
        ],
        relationships: vec![
            (
                "main_flea".to_string(),
                RelValue::One(Some(Box::new(flea("1", "general flea")))),
            ),
            (
                "fleas".to_string(),
                RelValue::Many(vec![Some(flea("2", "rick")), Some(flea("3", "morty"))]),
            ),
        ],
    }
}

#[test]
fn to_jsonapi_document_and_back() {
    let dog = dog_with_fleas();
    let doc = dog.to_jsonapi_document();
    let json = document_to_json(&doc);
    let dog_doc: JsonApiDocument =
        parse_document(&json).expect("Dog JsonApiDocument should be created from the dog json");
    let dog_again =
        from_jsonapi_document(&dog_doc).expect("Dog should be generated from the dog_doc");

    assert_eq!(dog, dog_again);
}

#[test]
fn numeric_id() {
    let flea = ModelObject {
        _type: "numeric_flea".to_string(),
        id: Some(i64_to_string(2)),
        attributes: vec![("name".to_string(), JsonValue::Str("rick".to_string()))],
        relationships: vec![("children".to_string(), RelValue::Many(vec![]))],
    };
    let (res, _) = flea.to_jsonapi_resource();
    assert_eq!(res.id, Some("2".to_string()));
    let doc = flea.to_jsonapi_document();
    assert!(doc.is_valid());
    assert_eq!(doc.data, Some(PrimaryData::Single(Box::new(res))));
    let json = document_to_json(&doc);
    let _num_doc: JsonApiDocument = parse_document(&json)
        .expect("NumericFlea JsonApiDocument should be created from the flea json");
}

#[test]
fn test_vec_to_jsonapi_document() {
    let fleas = vec![flea("2", "rick"), flea("3", "morty")];
    let doc = vec_to_jsonapi_document(&fleas);
    assert!(doc.is_valid());
}

#[test]
fn can_serialize_a_vector_with_query() {
    let dogs = vec![dog_with_fleas(), dog_with_fleas()];
    let doc = vec_to_jsonapi_document_with_query(
        &dogs,
        &Query::from_params("include=[]&fields[dog]=name"),
    );
    let json = document_to_json(&doc);
    assert_eq!(
        json,
        r#"{"data":[{"type":"dog","id":"1","attributes":{"name":"fido"}},{"type":"dog","id":"1","attributes":{"name":"fido"}}]}"#
    );
}

#[test]
fn from_str_to_jsonapi_document() {
    let dog = r#"{
        "data": {
            "attributes": {
                "name": "Fido",
                "age": 5
            },
            "type": "lonely_dog"
        }
    }"#;

    let dog_doc: JsonApiDocument =
        parse_document(dog).expect("Dog JsonApiDocument should be created from the dog json");
    from_jsonapi_document(&dog_doc).expect("Dog should be generated from the dog_doc");
}

#[test]
fn can_configure_fields_and_included() {
    let doc = dog_with_fleas()
        .to_jsonapi_document_with_query(&Query::from_params("include=[]&fields[dog]=name,main_flea"));
    let json = document_to_json(&doc);
    assert_eq!(
        json,
        r#"{"data":{"type":"dog","id":"1","attributes":{"name":"fido"},"relationships":{"main_flea":{"data":{"type":"flea","id":"1"}}}}}"#
    );
}

#[test]
fn omits_relationships_if_empty() {
    let doc = dog_with_fleas()
        .to_jsonapi_document_with_query(&Query::from_params("include=[]&fields[dog]=name"));
    let json = document_to_json(&doc);
    assert_eq!(json, r#"{"data":{"type":"dog","id":"1","attributes":{"name":"fido"}}}"#);
}

#[test]
fn empty_include_set_yields_no_included() {
    let query = Query {
        fields: None,
        included: Some(vec![]),
    };
    let doc = dog_with_fleas().to_jsonapi_document_with_query(&query);
    assert_eq!(doc.included, None);
}

#[test]
fn empty_fieldset_yields_empty_attributes_and_no_relationships() {
    let query = Query {
        fields: Some(vec![("dog".to_string(), vec![])]),
        included: Some(vec![]),
    };
    let doc = dog_with_fleas().to_jsonapi_document_with_query(&query);
    match doc.data {
        Some(PrimaryData::Single(res)) => {
            assert_eq!(res.attributes, vec![]);
            assert_eq!(res.relationships, None);
        }
        _ => panic!("expected single primary data"),
    }
}

#[test]
fn relationship_name_wins_over_attribute() {
    let mut dog = dog_with_fleas();
    dog.attributes.push((
        "main_flea".to_string(),
        JsonValue::Str("not a flea".to_string()),
    ));
    let (res, _) = dog.to_jsonapi_resource();
    assert!(res.attributes.iter().all(|(k, _)| k != "main_flea"));
    assert_eq!(res.attributes.len(), 2);
}

#[test]
fn included_keeps_has_many_order() {
    let a = flea("a", "alpha");
    let b = flea("b", "beta");
    let c = flea("c", "gamma");
    let dog = ModelObject {
        _type: "dog".to_string(),
        id: Some("1".to_string()),
        attributes: vec![],
        relationships: vec![(
            "fleas".to_string(),
            RelValue::Many(vec![Some(a), Some(b), Some(c)]),
        )],
    };
    let (_, included) = dog.to_jsonapi_resource();
    let included = included.expect("three included resources");
    let ids: Vec<Option<String>> = included.iter().map(|r| r.id.clone()).collect();
    assert_eq!(
        ids,
        vec![
            Some("a".to_string()),
            Some("b".to_string()),
            Some("c".to_string())
        ]
    );
}

#[test]
fn unresolved_relationship_becomes_absent() {
    let res = Resource {
        _type: "dog".to_string(),
        id: Some("1".to_string()),
        attributes: vec![],
        relationships: Some(vec![(
            "main_flea".to_string(),
            Relationship {
                data: IdentifierData::Single(jsonapi::api::ResourceIdentifier {
                    _type: "flea".to_string(),
                    id: "9".to_string(),
                }),
                links: None,
            },
        )]),
        links: None,
        meta: None,
    };
    let included = Some(vec![]);
    let obj = from_jsonapi_resource(&res, &included);
    assert_eq!(
        obj.relationships,
        vec![("main_flea".to_string(), RelValue::One(None))]
    );
}

#[test]
fn document_without_data_is_missing_data() {
    let doc = JsonApiDocument::default();
    assert_eq!(from_jsonapi_document(&doc), Err(JsonApiError::MissingData));
    assert_eq!(
        many_from_jsonapi_document(&doc),
        Err(JsonApiError::MissingData)
    );
}

#[test]
fn wrong_shape_is_decode_error() {
    let doc = JsonApiDocument {
        data: Some(PrimaryData::Multiple(vec![])),
        included: None,
        errors: None,
        links: None,
        meta: None,
    };
    assert_eq!(from_jsonapi_document(&doc), Err(JsonApiError::DecodeError));

    let single = JsonApiDocument {
        data: Some(PrimaryData::Single(Box::new(Resource {
            _type: "dog".to_string(),
            id: None,
            attributes: vec![],
            relationships: None,
            links: None,
            meta: None,
        }))),
        included: None,
        errors: None,
        links: None,
        meta: None,
    };
    assert_eq!(
        many_from_jsonapi_document(&single),
        Err(JsonApiError::DecodeError)
    );
}

#[test]
fn many_documents_round_trip() {
    let fleas = vec![flea("2", "rick"), flea("3", "morty")];
    let doc = vec_to_jsonapi_document(&fleas);
    let again = many_from_jsonapi_document(&doc).expect("collection should decode");
    assert_eq!(fleas, again);
}

#[test]
fn numeric_id_stringifies_negative_numbers_too() {
    assert_eq!(i64_to_string(2), "2");
    assert_eq!(i64_to_string(0), "0");
    assert_eq!(i64_to_string(-12), "-12");
    assert_eq!(i64_to_string(9007199254740993), "9007199254740993");
}

#[test]
fn json_strings_are_escaped() {
    let v = JsonValue::Str("a\"b\\c\nd".to_string());
    assert_eq!(value_to_json(&v), "\"a\\\"b\\\\c\\nd\"");
    let ctl = JsonValue::Str("\u{1}".to_string());
    assert_eq!(value_to_json(&ctl), "\"\\u0001\"");
}

#[test]
fn parse_reads_escapes_and_numbers() {
    assert_eq!(
        parse_json_value("\"\\u0041\\n\""),
        Some(JsonValue::Str("A\n".to_string()))
    );
    assert_eq!(parse_json_value("-42"), Some(JsonValue::Number(-42)));
    assert_eq!(parse_json_value("4.5"), None);
    assert_eq!(
        parse_json_value(" [ 1 , true , null ] "),
        Some(JsonValue::Array(vec![
            JsonValue::Number(1),
            JsonValue::Bool(true),
            JsonValue::Null
        ]))
    );
}

#[test]
fn document_validity() {
    let empty = JsonApiDocument::default();
    assert!(!empty.is_valid());
    let with_errors = JsonApiDocument {
        data: None,
        included: None,
        errors: Some(JsonValue::Array(vec![])),
        links: None,
        meta: None,
    };
    assert!(with_errors.is_valid());
    let both = JsonApiDocument {
        data: Some(PrimaryData::Null),
        included: None,
        errors: Some(JsonValue::Array(vec![])),
        links: None,
        meta: None,
    };
    assert!(!both.is_valid());
}

#[test]
fn unsaved_resource_has_no_id_on_the_wire() {
    let pup = ModelObject {
        _type: "dog".to_string(),
        id: None,
        attributes: vec![("name".to_string(), JsonValue::Str("rex".to_string()))],
        relationships: vec![],
    };
    let doc = pup.to_jsonapi_document();
    assert_eq!(
        document_to_json(&doc),
        r#"{"data":{"type":"dog","attributes":{"name":"rex"}}}"#
    );
}

#[test]
fn printer_output_agrees_with_serde_json() {
    let doc = dog_with_fleas().to_jsonapi_document();
    let json = document_to_json(&doc);
    let parsed: serde_json::Value =
        serde_json::from_str(&json).expect("the printer emits well-formed JSON");
    assert_eq!(
        parsed["data"]["attributes"]["name"],
        serde_json::Value::String("fido".to_string())
    );
    assert_eq!(
        parsed["included"][0]["attributes"]["name"],
        serde_json::Value::String("general flea".to_string())
    );
}

#[test]
fn value_print_parse_round_trip() {
    let v = JsonValue::Object(vec![
        ("s".to_string(), JsonValue::Str("tab\there \"q\" \\".to_string())),
        ("n".to_string(), JsonValue::Number(-9000)),
        (
            "a".to_string(),
            JsonValue::Array(vec![
                JsonValue::Null,
                JsonValue::Bool(false),
                JsonValue::Object(vec![]),
                JsonValue::Array(vec![JsonValue::Number(0)]),
            ]),
        ),
    ]);
    let text = value_to_json(&v);
    assert_eq!(parse_json_value(&text), Some(v));
}

#[test]
fn document_with_links_and_meta_round_trips() {
    let doc = JsonApiDocument {
        data: Some(PrimaryData::Null),
        included: None,
        errors: None,
        links: Some(JsonValue::Object(vec![(
            "self".to_string(),
            JsonValue::Str("/dogs/1".to_string()),
        )])),
        meta: Some(JsonValue::Object(vec![(
            "count".to_string(),
            JsonValue::Number(1),
        )])),
    };
    let text = document_to_json(&doc);
    assert_eq!(
        text,
        r#"{"data":null,"links":{"self":"/dogs/1"},"meta":{"count":1}}"#
    );
    assert_eq!(parse_document(&text), Ok(doc));
}
