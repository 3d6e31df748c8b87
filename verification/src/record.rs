//! The proof record that seals a field.

use crate::crypto::{base64_bytes, base64_encode, base64_text};
use crate::json::{push_member, Json, JsonModel, Member};
use vstd::prelude::*;

verus! {

/// The key under which a proof record sits inside the field it seals.
pub open spec fn proof_key() -> Seq<char> {
    "ngsildproof"@
}

/// The inner part of a proof record: how and when the signature was made, and
/// the signature itself as base64 text.
pub open spec fn proof_content(
    signature: Seq<u8>,
    verification_method: Seq<char>,
    cryptosuite: Seq<char>,
    proof_purpose: Seq<char>,
    created: Seq<char>,
) -> JsonModel {
    JsonModel::Object(
        Map::<Seq<char>, JsonModel>::empty().insert(
            "type"@,
            JsonModel::Text("DataIntegrityProof"@),
        ).insert("created"@, JsonModel::Text(created)).insert(
            "verificationMethod"@,
            JsonModel::Text(verification_method),
        ).insert("cryptosuite"@, JsonModel::Text(cryptosuite)).insert(
            "proofPurpose"@,
            JsonModel::Text(proof_purpose),
        ).insert("proofValue"@, JsonModel::Text(base64_text(signature))),
    )
}

/// The proof record: a property that names the entity it was made for and
/// holds the proof content.
pub open spec fn proof_record(
    entity_id: Seq<char>,
    entity_type: Seq<char>,
    signature: Seq<u8>,
    verification_method: Seq<char>,
    cryptosuite: Seq<char>,
    proof_purpose: Seq<char>,
    created: Seq<char>,
) -> JsonModel {
    JsonModel::Object(
        Map::<Seq<char>, JsonModel>::empty().insert("type"@, JsonModel::Text("Property"@)).insert(
            "entityIdSealed"@,
            JsonModel::Text(entity_id),
        ).insert("entityTypeSealed"@, JsonModel::Text(entity_type)).insert(
            "proof"@,
            proof_content(signature, verification_method, cryptosuite, proof_purpose, created),
        ),
    )
}

/// Builds the proof record for a signature.
pub fn build_proof(
    entity_id: &str,
    entity_type: &str,
    signature: &Vec<u8>,
    verification_method: &str,
    cryptosuite: &str,
    proof_purpose: &str,
    created: &str,
) -> (r: Json)
    ensures
        r@ == proof_record(
            entity_id@,
            entity_type@,
            signature@,
            verification_method@,
            cryptosuite@,
            proof_purpose@,
            created@,
        ),
        base64_bytes(base64_text(signature@)) == Some(signature@),
{
    let mut content: Vec<Member> = Vec::new();
    push_member(&mut content, "type", Json::text_of("DataIntegrityProof"));
    push_member(&mut content, "created", Json::text_of(created));
    push_member(&mut content, "verificationMethod", Json::text_of(verification_method));
    push_member(&mut content, "cryptosuite", Json::text_of(cryptosuite));
    push_member(&mut content, "proofPurpose", Json::text_of(proof_purpose));
    push_member(&mut content, "proofValue", Json::Text(base64_encode(signature)));
    let mut record: Vec<Member> = Vec::new();
    push_member(&mut record, "type", Json::text_of("Property"));
    push_member(&mut record, "entityIdSealed", Json::text_of(entity_id));
    push_member(&mut record, "entityTypeSealed", Json::text_of(entity_type));
    push_member(&mut record, "proof", Json::Object(content));
    Json::Object(record)
}

} // verus!
