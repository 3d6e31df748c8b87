//! Verification of the proofs embedded in a document's fields.

use crate::assoc::{is_last, last_position, last_wins, lemma_absent, lemma_found, Keyed};
use crate::canonical::{canonical_form, canonicalize};
use crate::crypto::{
    base64_bytes, base64_decode, ed25519_accepts, ed25519_verify, key_of_text,
    public_key_from_text,
};
use crate::json::{
    last_before, lemma_last_occurrence, lemma_members_found, members_model, Json, JsonModel,
};
use crate::record::proof_key;
use vstd::prelude::*;

verus! {

/// What verification found for one field.
#[derive(Clone, Copy, Debug, PartialEq, Eq, Structural)]
pub enum VerificationStatus {
    /// The field holds a proof, and its signature is valid for the field's content.
    True,
    /// The field holds a proof that is malformed or does not match the content.
    False,
    /// The field holds no proof.
    NA,
}

/// A request to verify the fields of one document.
#[derive(Debug)]
pub struct VerifyRequest {
    pub document: Json,
}

/// The status of one field of a document.
#[derive(Debug)]
pub struct FieldResult {
    pub name: String,
    pub status: VerificationStatus,
}

/// The statuses of a document's object-valued fields.
#[derive(Debug)]
pub struct VerifyResult {
    pub results: Vec<FieldResult>,
}

impl Keyed for FieldResult {
    type Model = VerificationStatus;

    open spec fn key_text(&self) -> Seq<char> {
        self.name@
    }

    open spec fn model(&self) -> VerificationStatus {
        self.status
    }

    fn key(&self) -> (k: &String) {
        &self.name
    }
}

impl View for VerifyResult {
    type V = Map<Seq<char>, VerificationStatus>;

    open spec fn view(&self) -> Map<Seq<char>, VerificationStatus> {
        last_wins(self.results@)
    }
}

impl VerifyResult {
    /// The status found for the field `name`, if the document has such a field
    /// with an object for its value.
    pub fn status_of(&self, name: &str) -> (r: Option<VerificationStatus>)
        ensures
            match r {
                Some(status) => self@.contains_key(name@) && self@[name@] == status,
                None => !self@.contains_key(name@),
            },
    {
        let wanted = name.to_string();
        match last_position(&self.results, &wanted) {
            Some(i) => {
                proof {
                    lemma_found(self.results@, name@, i as int);
                }
                Some(self.results[i].status)
            },
            None => {
                proof {
                    lemma_absent(self.results@, name@);
                }
                None
            },
        }
    }
}

/// The base64 text of the signature inside a proof record, where the record has one.
pub open spec fn proof_value_of(record: JsonModel) -> Option<Seq<char>> {
    match record.member("proof"@) {
        Some(content) => match content.member("proofValue"@) {
            Some(value) => value.text(),
            None => None,
        },
        None => None,
    }
}

/// The status of a field under a public key. A field without a proof record is
/// not applicable. A record without a signature text, a text that is not
/// base64, or a signature that is not 64 bytes long makes it `False`.
/// Otherwise the signature is checked against the canonical bytes of the field
/// without its proof record.
pub open spec fn field_status(field: JsonModel, public: Seq<u8>) -> VerificationStatus {
    match field.member(proof_key()) {
        None => VerificationStatus::NA,
        Some(record) => match proof_value_of(record) {
            None => VerificationStatus::False,
            Some(text) => match base64_bytes(text) {
                None => VerificationStatus::False,
                Some(signature) => if signature.len() == 64 && ed25519_accepts(
                    public,
                    canonical_form(field.without(proof_key())),
                    signature,
                ) {
                    VerificationStatus::True
                } else {
                    VerificationStatus::False
                },
            },
        },
    }
}

/// A field that holds no proof record is not applicable, whatever the key.
pub proof fn lemma_no_proof_not_applicable(field: JsonModel, public: Seq<u8>)
    requires
        field.member(proof_key()) is None,
    ensures
        field_status(field, public) == VerificationStatus::NA,
{
}

/// The status of a field is the status of the same field in any document:
/// it does not depend on the other fields.
pub proof fn lemma_statuses_independent(
    first: JsonModel,
    second: JsonModel,
    public: Seq<u8>,
    name: Seq<char>,
)
    requires
        first.member(name) is Some,
        first.member(name) == second.member(name),
        first.member(name)->0 is Object,
    ensures
        document_statuses(first, public).contains_key(name),
        document_statuses(second, public).contains_key(name),
        document_statuses(first, public)[name] == document_statuses(second, public)[name],
{
}

/// The statuses of a document: one for each top-level field whose value is an
/// object, and none for a document that is no object.
pub open spec fn document_statuses(doc: JsonModel, public: Seq<u8>) -> Map<
    Seq<char>,
    VerificationStatus,
> {
    match doc {
        JsonModel::Object(m) => Map::new(
            |k: Seq<char>| m.contains_key(k) && m[k] is Object,
            |k: Seq<char>| field_status(m[k], public),
        ),
        _ => Map::empty(),
    }
}

/// The signature text of a proof record.
fn proof_value(record: &Json) -> (r: Option<&String>)
    ensures
        match r {
            Some(text) => proof_value_of(record@) == Some(text@),
            None => proof_value_of(record@).is_none(),
        },
{
    match record.get("proof") {
        Some(content) => match content.get("proofValue") {
            Some(value) => value.as_text(),
            None => None,
        },
        None => None,
    }
}

/// The field without its proof record: what was signed.
pub fn field_obj_without_proof(field: &Json) -> (r: Json)
    ensures
        r@ == field@.without(proof_key()),
{
    field.without("ngsildproof")
}

/// Verifies the proof that a field holds, under the public key `public`.
pub fn verify_field(field: &Json, public: &[u8; 32]) -> (status: VerificationStatus)
    ensures
        status == field_status(field@, public@),
{
    let record = match field.get("ngsildproof") {
        Some(record) => record,
        None => {
            return VerificationStatus::NA;
        },
    };
    let text = match proof_value(record) {
        Some(text) => text,
        None => {
            return VerificationStatus::False;
        },
    };
    let signature = match base64_decode(text) {
        Some(signature) => signature,
        None => {
            return VerificationStatus::False;
        },
    };
    if signature.len() != 64 {
        return VerificationStatus::False;
    }
    let signed = canonicalize(&field_obj_without_proof(field));
    if ed25519_verify(public, &signed, &signature) {
        VerificationStatus::True
    } else {
        VerificationStatus::False
    }
}

/// No name occurs twice in `rs`.
pub open spec fn distinct_names(rs: Seq<FieldResult>) -> bool {
    forall|x: int, y: int|
        0 <= x < y < rs.len() ==> (#[trigger] rs[x]).name@ != (#[trigger] rs[y]).name@
}

/// Verifies every top-level field of `doc` whose value is an object. Fields
/// are judged one by one: no field's status depends on another field. Each
/// field is reported once.
pub fn verify_document(doc: &Json, public: &[u8; 32]) -> (r: VerifyResult)
    ensures
        r@ == document_statuses(doc@, public@),
        distinct_names(r.results@),
{
    let mut results: Vec<FieldResult> = Vec::new();
    if let Json::Object(ms) = doc {
        let ghost full = members_model(ms@);
        let mut i: usize = 0;
        while i < ms.len()
            invariant
                i <= ms.len(),
                full == members_model(ms@),
                distinct_names(results@),
                forall|x: int|
                    0 <= x < results@.len() ==> last_before(
                        ms@,
                        (#[trigger] results@[x]).name@,
                        i as int,
                    ),
                last_wins(results@) == Map::new(
                    |k: Seq<char>|
                        last_before(ms@, k, i as int) && full.contains_key(k) && full[k] is Object,
                    |k: Seq<char>| field_status(full[k], public@),
                ),
            decreases ms.len() - i,
        {
            let ghost before = results@;
            let ghost key = ms@[i as int].key@;
            match last_position(ms, &ms[i].key) {
                Some(j) => {
                    proof {
                        lemma_members_found(ms@, key, j as int);
                    }
                    if j == i && ms[i].value.is_object() {
                        let status = verify_field(&ms[i].value, public);
                        results.push(FieldResult { name: ms[i].key.clone(), status });
                        proof {
                            reveal_with_fuel(last_wins, 2);
                            assert(results@.drop_last() == before);
                        }
                    }
                    proof {
                        assert(is_last(ms@, key, j as int));
                        assert forall|k: Seq<char>| last_before(ms@, k, i + 1) <==> (last_before(
                            ms@,
                            k,
                            i as int,
                        ) || (k == key && j == i)) by {
                            if last_before(ms@, k, i + 1) && !last_before(ms@, k, i as int) {
                                assert(is_last(ms@, k, i as int));
                            }
                            if k == key && j == i {
                                assert(is_last(ms@, k, i as int));
                            }
                        }
                        if j == i {
                            assert(!last_before(ms@, key, i as int)) by {
                                if last_before(ms@, key, i as int) {
                                    let e = choose|e: int| 0 <= e < i && is_last(ms@, key, e);
                                    assert(ms@[i as int].key@ == key);
                                }
                            }
                        }
                    }
                },
                None => {
                    proof {
                        assert(ms@[i as int].key@ != key);
                    }
                },
            }
            proof {
                assert(last_wins(results@) =~= Map::new(
                    |k: Seq<char>|
                        last_before(ms@, k, i + 1) && full.contains_key(k) && full[k] is Object,
                    |k: Seq<char>| field_status(full[k], public@),
                ));
                assert forall|x: int| 0 <= x < results@.len() implies last_before(
                    ms@,
                    (#[trigger] results@[x]).name@,
                    i + 1,
                ) by {
                    if x < before.len() {
                        assert(results@[x] == before[x]);
                        assert(last_before(ms@, before[x].name@, i as int));
                    }
                }
                assert forall|x: int, y: int| 0 <= x < y < results@.len() implies (
                #[trigger] results@[x]).name@ != (#[trigger] results@[y]).name@ by {
                    assert(results@[x] == before[x]);
                    if y < before.len() {
                        assert(results@[y] == before[y]);
                    } else {
                        assert(last_before(ms@, before[x].name@, i as int));
                    }
                }
            }
            i = i + 1;
        }
        proof {
            assert forall|k: Seq<char>| full.contains_key(k) implies last_before(
                ms@,
                k,
                ms@.len() as int,
            ) by {
                lemma_last_occurrence(ms@, k);
            }
            assert(last_wins(results@) =~= document_statuses(doc@, public@));
        }
    } else {
        proof {
            assert(last_wins(results@) =~= document_statuses(doc@, public@));
        }
    }
    VerifyResult { results }
}

/// Answers a verification request: the statuses of the document's fields
/// under the public key `public`. No request is turned down.
pub fn verify_handler(payload: &VerifyRequest, public: &[u8; 32]) -> (r: VerifyResult)
    ensures
        r@ == document_statuses(payload.document@, public@),
        distinct_names(r.results@),
{
    verify_document(&payload.document, public)
}

/// The statuses of a document under the public key that a base64 text holds;
/// none where the text holds no key.
pub open spec fn statuses_under_text(doc: JsonModel, key_text: Seq<char>) -> Map<
    Seq<char>,
    VerificationStatus,
> {
    match key_of_text(key_text) {
        Some(public) => document_statuses(doc, public),
        None => Map::empty(),
    }
}

/// Answers a verification request under the public key given as base64 text.
/// Where the text holds no key, no field is judged and the result is empty.
pub fn verify_with_key_text(payload: &VerifyRequest, key_text: &str) -> (r: VerifyResult)
    ensures
        r@ == statuses_under_text(payload.document@, key_text@),
        distinct_names(r.results@),
{
    match public_key_from_text(key_text) {
        Some(public) => verify_handler(payload, &public),
        None => VerifyResult { results: Vec::new() },
    }
}

} // verus!
