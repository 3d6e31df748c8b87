use base64::engine::general_purpose::STANDARD;
use base64::Engine;
use ed25519_dalek::{Signature, Verifier, VerifyingKey};
use jsonld_signer::canonical::canonicalize;
use jsonld_signer::config::{
    config_handler, copy_names, ConfigEntry, ConfigRegistry, ConfigRequest,
};
use jsonld_signer::crypto::{public_key_from_text, public_key_of, timestamp_now, timestamp_of};
use jsonld_signer::info::service_info;
use jsonld_signer::assoc::last_position;
use jsonld_signer::json::{push_member, Json, Member};
use jsonld_signer::record::build_proof;
use jsonld_signer::request::{check_request, sign_document_with, sign_handler};
use jsonld_signer::sign::{
    contains_text, member_text, object_field_names, select_fields, sign_entity, sign_field,
    SignError,
};
use jsonld_signer::verify::{
    field_obj_without_proof, verify_document, verify_field, verify_handler, verify_with_key_text,
    VerificationStatus, VerifyRequest,
};

const SECRET: [u8; 32] = [
    0x9d, 0x61, 0xb1, 0x9d, 0xef, 0xfd, 0x5a, 0x60, 0xba, 0x84, 0x4a, 0xf4, 0x92, 0xec, 0x2c, 0xc4,
    0x44, 0x49, 0xc5, 0x69, 0x7b, 0x32, 0x69, 0x19, 0x70, 0x3b, 0xac, 0x03, 0x1c, 0xae, 0x7f, 0x60,
];

const PUBLIC: [u8; 32] = [
    0xd7, 0x5a, 0x98, 0x01, 0x82, 0xb1, 0x0a, 0xb7, 0xd5, 0x4b, 0xfe, 0xd3, 0xc9, 0x64, 0x07, 0x3a,
    0x0e, 0xe1, 0x72, 0xf3, 0xda, 0xa6, 0x23, 0x25, 0xaf, 0x02, 0x1a, 0x68, 0xf7, 0x07, 0x51, 0x1a,
];

const CREATED: &str = "2024-05-01T10:00:00+00:00";

fn text(s: &str) -> Json {
    Json::Text(s.to_string())
}

fn object(members: Vec<(&str, Json)>) -> Json {
    Json::Object(
        members.into_iter().map(|(key, value)| Member { key: key.to_string(), value }).collect(),
    )
}

fn names(list: &[&str]) -> Vec<String> {
    list.iter().map(|s| s.to_string()).collect()
}

fn registry_with(entity_type: &str, properties: &[&str]) -> ConfigRegistry {
    let mut registry = ConfigRegistry::new();
    config_handler(
        &mut registry,
        ConfigRequest { entity_type: entity_type.to_string(), properties_to_sign: names(properties) },
    );
    registry
}

fn store() -> Json {
    object(vec![
        ("id", text("urn:ngsi-ld:Store:002")),
        ("type", text("Store")),
        ("address", object(vec![("type", text("Property")), ("value", object(vec![("foo", text("bar"))]))])),
        (
            "location",
            object(vec![
                ("type", text("GeoProperty")),
                ("value", object(vec![("lat", Json::Number(1)), ("lon", Json::Number(2))])),
            ]),
        ),
    ])
}

fn plain_store() -> Json {
    object(vec![
        ("id", text("urn:ngsi-ld:Store:002")),
        ("type", text("Store")),
        ("address", object(vec![("foo", text("bar"))])),
        ("location", object(vec![("lat", Json::Number(1)), ("lon", Json::Number(2))])),
    ])
}

fn request(entities: Vec<Json>) -> Json {
    object(vec![("data", Json::Array(entities))])
}

fn first_entity(doc: &Json) -> &Json {
    match doc.get("data") {
        Some(Json::Array(items)) => &items[0],
        _ => panic!("no data array"),
    }
}

fn has_proof(entity: &Json, field: &str) -> bool {
    entity.get(field).and_then(|f| f.get("ngsildproof")).is_some()
}

#[test]
fn test_sign_and_verify_ok() {
    let document = object(vec![
        ("id", text("urn:ngsi-ld:Store:002")),
        ("type", text("Store")),
        (
            "address",
            object(vec![
                ("type", text("Property")),
                (
                    "value",
                    object(vec![
                        ("streetAddress", Json::Array(vec![text("Tiger Street 4"), text("al")])),
                        ("addressRegion", text("Metropolis")),
                        ("addressLocality", text("Cat City")),
                        ("postalCode", text("42420")),
                    ]),
                ),
            ]),
        ),
    ]);
    let keys = names(&["address"]);
    let signed_value = sign_entity(&document, &keys, &SECRET, CREATED);
    assert!(signed_value.get("address").unwrap().get("ngsildproof").unwrap().is_object());

    let verify_req = VerifyRequest { document: signed_value };
    let result = verify_handler(&verify_req, &public_key_of(&SECRET));
    println!("Verification results: {:?}", result);
    if let Some(status) = result.status_of("address") {
        assert!(matches!(status, VerificationStatus::True));
    } else {
        panic!("Address key not found in verification results. Available keys: {:?}", result.results);
    }
}

#[test]
fn test_sign_without_config_returns_405() {
    let doc = object(vec![
        ("id", text("urn:ngsi-ld:Store:002")),
        ("type", text("Store")),
        ("address", object(vec![("type", text("Property")), ("value", object(vec![("foo", text("bar"))]))])),
    ]);
    let registry = ConfigRegistry::new();
    let response = sign_handler(&request(vec![doc]), &registry);
    match response {
        Err(e) => assert_eq!(e, SignError::NoConfiguration("Store".to_string())),
        Ok(_) => panic!("Expected 405, got OK"),
    }
}

#[test]
fn test_config_all_properties_signs_everything() {
    let registry = registry_with("Store", &[]);
    let signed = sign_handler(&request(vec![store()]), &registry).unwrap();
    let entity = first_entity(&signed);
    let address = entity.get("address").unwrap();
    let location = entity.get("location").unwrap();
    assert!(address.get("ngsildproof").is_some(), "address not signed");
    assert!(location.get("ngsildproof").is_some(), "location not signed");
}

#[test]
fn test_config_selective_signing() {
    let registry = registry_with("Store", &["address"]);
    let signed = sign_handler(&request(vec![store()]), &registry).unwrap();
    let entity = first_entity(&signed);
    let address = entity.get("address").unwrap();
    let location = entity.get("location").unwrap();
    assert!(address.get("ngsildproof").is_some(), "address not signed");
    assert!(location.get("ngsildproof").is_none(), "location should not be signed");
}

#[test]
fn empty_list_signs_both_object_fields_of_the_store() {
    let registry = registry_with("Store", &[]);
    let signed = sign_document_with(&request(vec![plain_store()]), &registry, &SECRET, CREATED).unwrap();
    let entity = first_entity(&signed);
    assert!(has_proof(entity, "address"));
    assert!(has_proof(entity, "location"));
    assert_eq!(entity.get("id"), Some(&text("urn:ngsi-ld:Store:002")));
    assert_eq!(entity.get("type"), Some(&text("Store")));
}

#[test]
fn listed_address_leaves_location_untouched() {
    let registry = registry_with("Store", &["address"]);
    let signed = sign_document_with(&request(vec![plain_store()]), &registry, &SECRET, CREATED).unwrap();
    let entity = first_entity(&signed);
    assert!(has_proof(entity, "address"));
    assert_eq!(
        entity.get("location"),
        Some(&object(vec![("lat", Json::Number(1)), ("lon", Json::Number(2))]))
    );
}

#[test]
fn listed_field_that_is_absent_or_scalar_is_passed_over() {
    let registry = registry_with("Store", &["id", "missing", "address"]);
    let signed = sign_document_with(&request(vec![plain_store()]), &registry, &SECRET, CREATED).unwrap();
    let entity = first_entity(&signed);
    assert_eq!(entity.get("id"), Some(&text("urn:ngsi-ld:Store:002")));
    assert!(entity.get("missing").is_none());
    assert!(has_proof(entity, "address"));
    assert!(!has_proof(entity, "location"));
}

#[test]
fn scalar_and_array_fields_get_no_proof_under_an_empty_list() {
    let entity = object(vec![
        ("type", text("Store")),
        ("tags", Json::Array(vec![text("a")])),
        ("open", Json::Bool(true)),
        ("nothing", Json::Null),
        ("address", object(vec![])),
    ]);
    let registry = registry_with("Store", &[]);
    let signed = sign_document_with(&request(vec![entity]), &registry, &SECRET, CREATED).unwrap();
    let entity = first_entity(&signed);
    assert_eq!(entity.get("tags"), Some(&Json::Array(vec![text("a")])));
    assert_eq!(entity.get("open"), Some(&Json::Bool(true)));
    assert_eq!(entity.get("nothing"), Some(&Json::Null));
    assert!(has_proof(entity, "address"));
}

#[test]
fn empty_data_is_invalid_input() {
    let registry = registry_with("Store", &[]);
    assert_eq!(sign_handler(&request(vec![]), &registry), Err(SignError::InvalidInput));
    assert_eq!(
        sign_document_with(&request(vec![]), &registry, &SECRET, CREATED),
        Err(SignError::InvalidInput)
    );
    assert_eq!(check_request(&request(vec![]), &registry), Err(SignError::InvalidInput));
}

#[test]
fn missing_or_misshapen_data_is_invalid_input() {
    let registry = registry_with("Store", &[]);
    let no_data = object(vec![("document", plain_store())]);
    assert_eq!(sign_document_with(&no_data, &registry, &SECRET, CREATED), Err(SignError::InvalidInput));
    let data_not_array = object(vec![("data", plain_store())]);
    assert_eq!(
        sign_document_with(&data_not_array, &registry, &SECRET, CREATED),
        Err(SignError::InvalidInput)
    );
    assert_eq!(sign_document_with(&Json::Null, &registry, &SECRET, CREATED), Err(SignError::InvalidInput));
    let scalar_entity = request(vec![plain_store(), Json::Number(3)]);
    assert_eq!(
        sign_document_with(&scalar_entity, &registry, &SECRET, CREATED),
        Err(SignError::InvalidInput)
    );
}

#[test]
fn unconfigured_type_is_no_configuration() {
    let registry = registry_with("Shop", &[]);
    assert_eq!(
        sign_document_with(&request(vec![plain_store()]), &registry, &SECRET, CREATED),
        Err(SignError::NoConfiguration("Store".to_string()))
    );
    let untyped = object(vec![("address", object(vec![]))]);
    assert_eq!(
        sign_document_with(&request(vec![untyped]), &registry, &SECRET, CREATED),
        Err(SignError::NoConfiguration(String::new()))
    );
}

#[test]
fn shape_is_judged_before_configuration() {
    let registry = registry_with("Store", &[]);
    let shop = object(vec![("type", text("Shop"))]);
    let misshapen = request(vec![object(vec![("type", text("Shelf"))]), Json::Number(5)]);
    assert_eq!(sign_handler(&misshapen, &ConfigRegistry::new()), Err(SignError::InvalidInput));
    assert_eq!(check_request(&misshapen, &registry), Err(SignError::InvalidInput));
    assert_eq!(
        sign_document_with(&misshapen, &registry, &SECRET, CREATED),
        Err(SignError::InvalidInput)
    );
    let other = object(vec![("type", text("Shelf"))]);
    let doc = request(vec![plain_store(), shop, other]);
    assert_eq!(
        sign_document_with(&doc, &registry, &SECRET, CREATED),
        Err(SignError::NoConfiguration("Shop".to_string()))
    );
    let doc = request(vec![plain_store(), Json::Null, object(vec![("type", text("Shop"))])]);
    assert_eq!(sign_document_with(&doc, &registry, &SECRET, CREATED), Err(SignError::InvalidInput));
}

#[test]
fn signing_keeps_the_rest_of_the_request() {
    let registry = registry_with("Store", &["address"]);
    let doc = object(vec![("note", text("keep")), ("data", Json::Array(vec![plain_store(), plain_store()]))]);
    let signed = sign_document_with(&doc, &registry, &SECRET, CREATED).unwrap();
    assert_eq!(signed.get("note"), Some(&text("keep")));
    match signed.get("data") {
        Some(Json::Array(items)) => {
            assert_eq!(items.len(), 2);
            assert!(has_proof(&items[0], "address"));
            assert!(has_proof(&items[1], "address"));
        },
        _ => panic!("data is gone"),
    }
}

#[test]
fn round_trip_verifies_under_the_matching_key() {
    let registry = registry_with("Store", &[]);
    let signed = sign_document_with(&request(vec![plain_store()]), &registry, &SECRET, CREATED).unwrap();
    let result = verify_document(first_entity(&signed), &PUBLIC);
    assert_eq!(result.status_of("address"), Some(VerificationStatus::True));
    assert_eq!(result.status_of("location"), Some(VerificationStatus::True));
    assert_eq!(result.status_of("id"), None);
    assert_eq!(result.results.len(), 2);
}

#[test]
fn tampered_content_verifies_as_false() {
    let field = object(vec![("foo", text("bar"))]);
    let sealed = sign_field(&field, "urn:x", "Store", &SECRET, CREATED);
    assert_eq!(verify_field(&sealed, &PUBLIC), VerificationStatus::True);
    let tampered = sealed.with("foo", text("baz"));
    assert_eq!(verify_field(&tampered, &PUBLIC), VerificationStatus::False);
    let extended = sealed.with("extra", Json::Null);
    assert_eq!(verify_field(&extended, &PUBLIC), VerificationStatus::False);
}

#[test]
fn another_key_verifies_as_false() {
    let field = object(vec![("foo", text("bar"))]);
    let sealed = sign_field(&field, "urn:x", "Store", &SECRET, CREATED);
    let mut other = SECRET;
    other[0] ^= 1;
    assert_eq!(verify_field(&sealed, &public_key_of(&other)), VerificationStatus::False);
}

#[test]
fn field_without_proof_is_not_applicable() {
    let field = object(vec![("foo", text("bar"))]);
    assert_eq!(verify_field(&field, &PUBLIC), VerificationStatus::NA);
    assert_eq!(verify_field(&text("scalar"), &PUBLIC), VerificationStatus::NA);
    let result = verify_document(&plain_store(), &PUBLIC);
    assert_eq!(result.status_of("address"), Some(VerificationStatus::NA));
    assert_eq!(result.status_of("location"), Some(VerificationStatus::NA));
    assert_eq!(result.status_of("type"), None);
}

#[test]
fn malformed_proof_value_is_false() {
    let no_value = object(vec![("foo", text("bar")), ("ngsildproof", object(vec![("proof", object(vec![]))]))]);
    assert_eq!(verify_field(&no_value, &PUBLIC), VerificationStatus::False);
    let scalar_record = object(vec![("ngsildproof", Json::Number(1))]);
    assert_eq!(verify_field(&scalar_record, &PUBLIC), VerificationStatus::False);
    let not_base64 = object(vec![(
        "ngsildproof",
        object(vec![("proof", object(vec![("proofValue", text("***"))]))]),
    )]);
    assert_eq!(verify_field(&not_base64, &PUBLIC), VerificationStatus::False);
    let short = object(vec![(
        "ngsildproof",
        object(vec![("proof", object(vec![("proofValue", text("AAAA"))]))]),
    )]);
    assert_eq!(verify_field(&short, &PUBLIC), VerificationStatus::False);
    let not_text = object(vec![(
        "ngsildproof",
        object(vec![("proof", object(vec![("proofValue", Json::Number(7))]))]),
    )]);
    assert_eq!(verify_field(&not_text, &PUBLIC), VerificationStatus::False);
}

#[test]
fn verifying_a_non_object_document_gives_no_results() {
    let result = verify_document(&Json::Array(vec![plain_store()]), &PUBLIC);
    assert!(result.results.is_empty());
    assert_eq!(result.status_of("address"), None);
}

#[test]
fn one_bad_field_does_not_change_the_others() {
    let registry = registry_with("Store", &[]);
    let signed = sign_document_with(&request(vec![plain_store()]), &registry, &SECRET, CREATED).unwrap();
    let entity = first_entity(&signed);
    let broken = entity.get("location").unwrap().with("lat", Json::Number(9));
    let doc = entity.with("location", broken);
    let result = verify_document(&doc, &PUBLIC);
    assert_eq!(result.status_of("address"), Some(VerificationStatus::True));
    assert_eq!(result.status_of("location"), Some(VerificationStatus::False));
}

#[test]
fn canonical_bytes_are_compact_and_sorted() {
    let value = object(vec![
        ("b", Json::Number(1)),
        ("a", text("x")),
        ("c", Json::Array(vec![Json::Null, Json::Bool(true), Json::Number(-5)])),
        ("d", object(vec![("z", text("q\"uote")), ("y", Json::Bool(false))])),
    ]);
    assert_eq!(
        canonicalize(&value),
        br#"{"a":"x","b":1,"c":[null,true,-5],"d":{"y":false,"z":"q\"uote"}}"#.to_vec()
    );
}

#[test]
fn canonical_bytes_ignore_construction_order() {
    let first = object(vec![("a", Json::Number(1)), ("b", object(vec![("x", text("1")), ("y", text("2"))]))]);
    let second = object(vec![("b", object(vec![("y", text("2")), ("x", text("1"))])), ("a", Json::Number(1))]);
    assert_eq!(canonicalize(&first), canonicalize(&second));
    let built = object(vec![]).with("b", Json::Number(2)).with("a", Json::Number(1));
    let other = object(vec![]).with("a", Json::Number(1)).with("b", Json::Number(2));
    assert_eq!(canonicalize(&built), canonicalize(&other));
    assert_eq!(canonicalize(&built), br#"{"a":1,"b":2}"#.to_vec());
}

#[test]
fn last_occurrence_of_a_key_counts() {
    let value = object(vec![("a", Json::Number(1)), ("a", Json::Number(2))]);
    assert_eq!(value.get("a"), Some(&Json::Number(2)));
    assert_eq!(canonicalize(&value), br#"{"a":2}"#.to_vec());
    assert_eq!(value.without("a"), object(vec![]));
    assert_eq!(value.with("a", Json::Number(3)).get("a"), Some(&Json::Number(3)));
}

#[test]
fn json_accessors() {
    let value = plain_store();
    assert!(value.is_object());
    assert!(!text("x").is_object());
    assert_eq!(text("x").as_text(), Some(&"x".to_string()));
    assert_eq!(Json::Number(1).as_text(), None);
    assert_eq!(value.get("nope"), None);
    assert_eq!(text("x").get("a"), None);
    assert_eq!(value.duplicate(), value);
    assert_eq!(text("x").without("a"), text("x"));
    assert_eq!(text("x").with("a", Json::Null), text("x"));
    assert_eq!(Json::text_of("abc"), text("abc"));
}

#[test]
fn proof_record_has_the_fixed_shape() {
    let signature: Vec<u8> = vec![1, 2, 3];
    let record = build_proof("urn:x", "Store", &signature, "method", "suite", "purpose", CREATED);
    let expected = object(vec![
        ("type", text("Property")),
        ("entityIdSealed", text("urn:x")),
        ("entityTypeSealed", text("Store")),
        (
            "proof",
            object(vec![
                ("type", text("DataIntegrityProof")),
                ("created", text(CREATED)),
                ("verificationMethod", text("method")),
                ("cryptosuite", text("suite")),
                ("proofPurpose", text("purpose")),
                ("proofValue", text("AQID")),
            ]),
        ),
    ]);
    assert_eq!(record, expected);
}

#[test]
fn sealed_field_carries_a_signature_over_the_bare_field() {
    let field = object(vec![("foo", text("bar"))]);
    let sealed = sign_field(&field, "urn:ngsi-ld:Store:002", "Store", &SECRET, CREATED);
    let record = sealed.get("ngsildproof").unwrap();
    assert_eq!(record.get("type"), Some(&text("Property")));
    assert_eq!(record.get("entityIdSealed"), Some(&text("urn:ngsi-ld:Store:002")));
    assert_eq!(record.get("entityTypeSealed"), Some(&text("Store")));
    let content = record.get("proof").unwrap();
    assert_eq!(content.get("type"), Some(&text("DataIntegrityProof")));
    assert_eq!(content.get("created"), Some(&text(CREATED)));
    assert_eq!(content.get("verificationMethod"), Some(&text("https://example.edu/issuers/565049#key-1")));
    assert_eq!(content.get("cryptosuite"), Some(&text("eddsa-rdfc-2022")));
    assert_eq!(content.get("proofPurpose"), Some(&text("assertionMethod")));
    let value = content.get("proofValue").unwrap().as_text().unwrap();
    let bytes = STANDARD.decode(value).unwrap();
    assert_eq!(bytes.len(), 64);
    let key = VerifyingKey::from_bytes(&PUBLIC).unwrap();
    let signature = Signature::from_slice(&bytes).unwrap();
    assert!(key.verify(br#"{"foo":"bar"}"#, &signature).is_ok());
    assert_eq!(sealed.get("foo"), Some(&text("bar")));
}

#[test]
fn sealing_again_replaces_the_record() {
    let field = object(vec![("foo", text("bar"))]);
    let once = sign_field(&field, "urn:x", "Store", &SECRET, CREATED);
    let twice = sign_field(&once, "urn:x", "Store", &SECRET, CREATED);
    assert_eq!(canonicalize(&once), canonicalize(&twice));
    assert_eq!(verify_field(&twice, &PUBLIC), VerificationStatus::True);
    assert_eq!(sign_field(&text("scalar"), "urn:x", "Store", &SECRET, CREATED), text("scalar"));
}

#[test]
fn public_key_matches_the_secret() {
    assert_eq!(public_key_of(&SECRET), PUBLIC);
}

#[test]
fn registry_replaces_an_entry_wholesale() {
    let mut registry = ConfigRegistry::new();
    assert!(registry.get("Store").is_none());
    registry.set(ConfigRequest { entity_type: "Store".to_string(), properties_to_sign: names(&["a", "b"]) });
    registry.set(ConfigRequest { entity_type: "Shop".to_string(), properties_to_sign: names(&[]) });
    let entry = registry.get("Store").unwrap();
    assert_eq!(entry.entity_type, "Store");
    assert_eq!(entry.properties_to_sign, names(&["a", "b"]));
    registry.set(ConfigRequest { entity_type: "Store".to_string(), properties_to_sign: names(&["c"]) });
    assert_eq!(registry.get("Store").unwrap().properties_to_sign, names(&["c"]));
    assert_eq!(registry.get("Shop").unwrap().properties_to_sign, names(&[]));
    assert!(registry.get("Other").is_none());
}

#[test]
fn selection_follows_the_list_or_the_document() {
    let entity = plain_store();
    let listed = ConfigEntry { entity_type: "Store".to_string(), properties_to_sign: names(&["location", "nope"]) };
    assert_eq!(select_fields(Some(&listed), &entity), Ok(names(&["location", "nope"])));
    let all = ConfigEntry { entity_type: "Store".to_string(), properties_to_sign: names(&[]) };
    assert_eq!(select_fields(Some(&all), &entity), Ok(names(&["address", "location"])));
    assert_eq!(select_fields(Some(&all), &text("scalar")), Ok(names(&[])));
    assert_eq!(select_fields(None, &entity), Err(SignError::NoConfiguration("Store".to_string())));
}

#[test]
fn check_request_accepts_a_sound_request() {
    let registry = registry_with("Store", &["address"]);
    assert_eq!(check_request(&request(vec![plain_store()]), &registry), Ok(()));
    assert_eq!(
        check_request(&request(vec![plain_store()]), &ConfigRegistry::new()),
        Err(SignError::NoConfiguration("Store".to_string()))
    );
}

#[test]
fn service_info_reports_what_it_is_given() {
    let info = service_info(42);
    assert_eq!(info.version, "0.1.0");
    assert_eq!(info.repository, "https://github.com/flopezag/data_integrity");
    assert_eq!(info.uptime_seconds, 42);
}

#[test]
fn decimals_keep_their_text() {
    let value = object(vec![("lat", Json::Decimal("40.25".to_string())), ("big", Json::Decimal("18446744073709551615".to_string()))]);
    assert_eq!(canonicalize(&value), br#"{"big":18446744073709551615,"lat":40.25}"#.to_vec());
    let sealed = sign_field(&value, "urn:x", "Store", &SECRET, CREATED);
    assert_eq!(verify_field(&sealed, &PUBLIC), VerificationStatus::True);
    let moved = sealed.with("lat", Json::Decimal("40.26".to_string()));
    assert_eq!(verify_field(&moved, &PUBLIC), VerificationStatus::False);
}

#[test]
fn field_without_its_proof_is_what_was_signed() {
    let field = object(vec![("foo", text("bar"))]);
    let sealed = sign_field(&field, "urn:x", "Store", &SECRET, CREATED);
    assert_eq!(field_obj_without_proof(&sealed), field);
    assert_eq!(field_obj_without_proof(&field), field);
    assert_eq!(canonicalize(&field_obj_without_proof(&sealed)), br#"{"foo":"bar"}"#.to_vec());
}

#[test]
fn member_lists_are_searched_from_the_end() {
    let mut members: Vec<Member> = Vec::new();
    push_member(&mut members, "a", Json::Number(1));
    push_member(&mut members, "b", Json::Number(2));
    push_member(&mut members, "a", Json::Number(3));
    assert_eq!(last_position(&members, &"a".to_string()), Some(2));
    assert_eq!(last_position(&members, &"b".to_string()), Some(1));
    assert_eq!(last_position(&members, &"c".to_string()), None);
    assert_eq!(Json::Object(members).get("a"), Some(&Json::Number(3)));
}

#[test]
fn names_are_copied_and_found() {
    let list = names(&["address", "location"]);
    assert_eq!(copy_names(&list), list);
    assert!(contains_text(&list, &"location".to_string()));
    assert!(!contains_text(&list, &"id".to_string()));
    assert!(!contains_text(&names(&[]), &"id".to_string()));
}

#[test]
fn missing_id_and_type_read_as_empty() {
    assert_eq!(member_text(&plain_store(), "id"), "urn:ngsi-ld:Store:002");
    assert_eq!(member_text(&plain_store(), "address"), "");
    assert_eq!(member_text(&plain_store(), "nope"), "");
    assert_eq!(member_text(&Json::Null, "id"), "");
    let bare = object(vec![("address", object(vec![]))]);
    let sealed = sign_entity(&bare, &names(&["address"]), &SECRET, CREATED);
    let record = sealed.get("address").unwrap().get("ngsildproof").unwrap();
    assert_eq!(record.get("entityIdSealed"), Some(&text("")));
    assert_eq!(record.get("entityTypeSealed"), Some(&text("")));
}

#[test]
fn the_clock_gives_an_rfc3339_timestamp() {
    let now = timestamp_now().unwrap();
    assert!(chrono::DateTime::parse_from_rfc3339(&now).is_ok());
    assert!(now.ends_with("+00:00"));
    let registry = registry_with("Store", &["address"]);
    let signed = sign_handler(&request(vec![plain_store()]), &registry).unwrap();
    let content = first_entity(&signed).get("address").unwrap().get("ngsildproof").unwrap().get("proof").unwrap();
    let created = content.get("created").unwrap().as_text().unwrap();
    assert!(chrono::DateTime::parse_from_rfc3339(created).is_ok());
}

#[test]
fn empty_list_selects_object_fields_once_in_key_order() {
    let all = ConfigEntry { entity_type: "Store".to_string(), properties_to_sign: names(&[]) };
    let written_backwards = object(vec![
        ("b", object(vec![])),
        ("id", text("x")),
        ("a", object(vec![])),
        ("ab", object(vec![])),
        ("B", object(vec![])),
        ("", object(vec![])),
    ]);
    assert_eq!(select_fields(Some(&all), &written_backwards), Ok(names(&["", "B", "a", "ab", "b"])));
    let shadowed = object(vec![("a", object(vec![])), ("a", Json::Null)]);
    assert_eq!(select_fields(Some(&all), &shadowed), Ok(names(&[])));
    let restored = object(vec![("a", Json::Null), ("c", object(vec![])), ("a", object(vec![]))]);
    assert_eq!(object_field_names(&restored), names(&["a", "c"]));
    let accented = object(vec![("\u{e9}", object(vec![])), ("z", object(vec![])), ("\u{1f600}", object(vec![]))]);
    assert_eq!(object_field_names(&accented), names(&["z", "\u{e9}", "\u{1f600}"]));
    assert_eq!(object_field_names(&Json::Null), names(&[]));
}

#[test]
fn a_key_written_twice_is_reported_once() {
    let doc = object(vec![
        ("a", object(vec![("x", Json::Number(1))])),
        ("b", object(vec![])),
        ("a", object(vec![("x", Json::Number(2))])),
        ("c", object(vec![])),
        ("c", Json::Null),
    ]);
    let result = verify_document(&doc, &PUBLIC);
    assert_eq!(result.results.len(), 2);
    assert_eq!(result.status_of("a"), Some(VerificationStatus::NA));
    assert_eq!(result.status_of("b"), Some(VerificationStatus::NA));
    assert_eq!(result.status_of("c"), None);
}

#[test]
fn timestamps_are_written_in_utc() {
    assert_eq!(timestamp_of(0, 0), Some("1970-01-01T00:00:00+00:00".to_string()));
    assert_eq!(timestamp_of(1431648000, 0), Some("2015-05-15T00:00:00+00:00".to_string()));
    assert_eq!(
        timestamp_of(1714557600, 500_000_000),
        Some("2024-05-01T10:00:00.500+00:00".to_string())
    );
    assert_eq!(timestamp_of(u64::MAX, 0), None);
    assert_eq!(timestamp_of(0x8000_0000_0000_0000, 0), None);
    assert_eq!(timestamp_of(0x7fff_ffff_ffff_ffff, 0), None);
    assert_eq!(timestamp_of(0, 2_000_000_000), None);
}

#[test]
fn a_snapshot_holds_what_the_registry_held() {
    let mut registry = registry_with("Store", &["address"]);
    let snapshot = registry.snapshot();
    registry.set(ConfigRequest { entity_type: "Store".to_string(), properties_to_sign: names(&["x"]) });
    registry.set(ConfigRequest { entity_type: "Shop".to_string(), properties_to_sign: names(&[]) });
    assert_eq!(snapshot.get("Store").unwrap().properties_to_sign, names(&["address"]));
    assert!(snapshot.get("Shop").is_none());
    assert_eq!(registry.get("Store").unwrap().properties_to_sign, names(&["x"]));
}

#[test]
fn a_key_is_read_from_its_base64_text() {
    let key_text = STANDARD.encode(PUBLIC);
    assert_eq!(public_key_from_text(&key_text), Some(PUBLIC));
    assert_eq!(public_key_from_text("REPLACE_WITH_YOUR_PUBLIC_KEY_BASE64"), None);
    assert_eq!(public_key_from_text("***"), None);
    assert_eq!(public_key_from_text(&STANDARD.encode([1u8; 31])), None);
    assert_eq!(public_key_from_text(""), None);
    let mut no_point = [0xffu8; 32];
    no_point[0] = 0xee;
    if VerifyingKey::from_bytes(&no_point).is_err() {
        assert_eq!(public_key_from_text(&STANDARD.encode(no_point)), None);
    }
}

#[test]
fn verifying_under_a_key_text() {
    let sealed = sign_entity(&plain_store(), &names(&["address"]), &SECRET, CREATED);
    let request = VerifyRequest { document: sealed };
    let result = verify_with_key_text(&request, &STANDARD.encode(PUBLIC));
    assert_eq!(result.status_of("address"), Some(VerificationStatus::True));
    assert_eq!(result.status_of("location"), Some(VerificationStatus::NA));
    let empty = verify_with_key_text(&request, "REPLACE_WITH_YOUR_PUBLIC_KEY_BASE64");
    assert!(empty.results.is_empty());
    assert_eq!(empty.status_of("address"), None);
}
