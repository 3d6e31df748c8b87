//! Signing: which fields of an entity get a proof, and the document that results.

use crate::canonical::{canonical_form, canonicalize};
use crate::config::{copy_names, texts, ConfigEntry};
use crate::crypto::{ed25519_public, ed25519_sign, ed25519_signature};
use crate::assoc::{is_last, last_position};
use crate::json::{
    lemma_last_occurrence, lemma_members_found, members_model, Json, JsonModel, Member,
};
use crate::order::{
    ascending, lemma_ascending_unique, lemma_insert_ascending, no_repeats, string_precedes,
    text_precedes,
};
use crate::record::{build_proof, proof_key, proof_record};
use crate::verify::{document_statuses, field_status, VerificationStatus};
use vstd::prelude::*;

verus! {

/// Why a signing request was turned down.
#[derive(Debug, PartialEq, Eq)]
pub enum SignError {
    /// The request has no `data` array, the array is empty, or one of its
    /// elements is no object.
    InvalidInput,
    /// The registry has no entry for this entity type.
    NoConfiguration(String),
    /// The operating system gave no random bytes for a signing key.
    KeyUnavailable,
    /// The system clock gave no moment that can be written as a timestamp.
    ClockUnavailable,
}

/// The mathematical value of a [`SignError`].
pub enum SignFault {
    InvalidInput,
    NoConfiguration(Seq<char>),
    KeyUnavailable,
    ClockUnavailable,
}

impl View for SignError {
    type V = SignFault;

    open spec fn view(&self) -> SignFault {
        match self {
            SignError::InvalidInput => SignFault::InvalidInput,
            SignError::NoConfiguration(t) => SignFault::NoConfiguration(t@),
            SignError::KeyUnavailable => SignFault::KeyUnavailable,
            SignError::ClockUnavailable => SignFault::ClockUnavailable,
        }
    }
}

/// The verification method that every proof names.
pub open spec fn verification_method() -> Seq<char> {
    "https://example.edu/issuers/565049#key-1"@
}

/// The cryptosuite that every proof names.
pub open spec fn cryptosuite() -> Seq<char> {
    "eddsa-rdfc-2022"@
}

/// The purpose that every proof names.
pub open spec fn proof_purpose() -> Seq<char> {
    "assertionMethod"@
}

/// The text under `key` of an entity, or the empty text where the entity has
/// no string there.
pub open spec fn text_or_empty(entity: JsonModel, key: Seq<char>) -> Seq<char> {
    match entity.member(key) {
        Some(JsonModel::Text(t)) => t,
        _ => Seq::empty(),
    }
}

/// The `id` of an entity.
pub open spec fn entity_id(entity: JsonModel) -> Seq<char> {
    text_or_empty(entity, "id"@)
}

/// The `type` of an entity.
pub open spec fn entity_type(entity: JsonModel) -> Seq<char> {
    text_or_empty(entity, "type"@)
}

/// A field after sealing. An object loses any proof record it held, and gets
/// a new one whose signature is over the canonical bytes of the object without
/// a record. Any other value stays as it is.
pub open spec fn sealed_field(
    field: JsonModel,
    id: Seq<char>,
    ty: Seq<char>,
    secret: Seq<u8>,
    created: Seq<char>,
) -> JsonModel {
    if field is Object {
        let bare = field.without(proof_key());
        bare.with(
            proof_key(),
            proof_record(
                id,
                ty,
                ed25519_signature(secret, canonical_form(bare)),
                verification_method(),
                cryptosuite(),
                proof_purpose(),
                created,
            ),
        )
    } else {
        field
    }
}

/// An entity after the fields named in `names` were sealed: every field keeps
/// its key, a named field is sealed, and any other field is unchanged.
pub open spec fn sealed_entity(
    entity: JsonModel,
    names: Seq<Seq<char>>,
    secret: Seq<u8>,
    created: Seq<char>,
) -> JsonModel {
    match entity {
        JsonModel::Object(m) => JsonModel::Object(
            Map::new(
                |k: Seq<char>| m.contains_key(k),
                |k: Seq<char>|
                    if names.contains(k) {
                        sealed_field(m[k], entity_id(entity), entity_type(entity), secret, created)
                    } else {
                        m[k]
                    },
            ),
        ),
        _ => entity,
    }
}

/// Whether a configured list selects the field `name`: an empty list selects
/// every field.
pub open spec fn selects(listed: Seq<Seq<char>>, name: Seq<char>) -> bool {
    listed.len() == 0 || listed.contains(name)
}

/// An entity after signing under the configured list `listed`: every selected
/// field whose value is an object is sealed, and nothing else changes.
pub open spec fn signed_entity(
    entity: JsonModel,
    listed: Seq<Seq<char>>,
    secret: Seq<u8>,
    created: Seq<char>,
) -> JsonModel {
    match entity {
        JsonModel::Object(m) => JsonModel::Object(
            Map::new(
                |k: Seq<char>| m.contains_key(k),
                |k: Seq<char>|
                    if selects(listed, k) {
                        sealed_field(m[k], entity_id(entity), entity_type(entity), secret, created)
                    } else {
                        m[k]
                    },
            ),
        ),
        _ => entity,
    }
}

/// Whether every selected field of `before` whose value is an object is, in
/// `after`, a field that verifies under the public key `public`.
pub open spec fn sealed_fields_verify(
    before: JsonModel,
    after: JsonModel,
    listed: Seq<Seq<char>>,
    public: Seq<u8>,
) -> bool {
    forall|k: Seq<char>|
        selects(listed, k) && (#[trigger] before.member(k)) is Some && before.member(k)->0 is Object
            ==> after.member(k) is Some && field_status(after.member(k)->0, public)
            == VerificationStatus::True
}

/// Round trip: where the selected fields of `before` verify in `after`,
/// verifying the document `after` reports `True` for each of them.
pub proof fn lemma_round_trip(
    before: JsonModel,
    after: JsonModel,
    listed: Seq<Seq<char>>,
    public: Seq<u8>,
    name: Seq<char>,
)
    requires
        sealed_fields_verify(before, after, listed, public),
        selects(listed, name),
        before.member(name) is Some,
        before.member(name)->0 is Object,
    ensures
        document_statuses(after, public).contains_key(name),
        document_statuses(after, public)[name] == VerificationStatus::True,
{
    assert(after.member(name) is Some);
    assert(field_status(after.member(name)->0, public) == VerificationStatus::True);
}

/// Under a list that is not empty, signing gives a proof record to each listed
/// field that the entity has with an object for its value, keeps every field's
/// key, and leaves every other field as it was.
pub proof fn lemma_listed_fields_only(
    entity: JsonModel,
    listed: Seq<Seq<char>>,
    secret: Seq<u8>,
    created: Seq<char>,
    name: Seq<char>,
)
    requires
        listed.len() > 0,
    ensures
        ({
            let signed = signed_entity(entity, listed, secret, created);
            match entity.member(name) {
                None => signed.member(name) is None,
                Some(field) => if listed.contains(name) && field is Object {
                    signed.member(name) == Some(
                        sealed_field(field, entity_id(entity), entity_type(entity), secret, created),
                    ) && signed.member(name)->0.member(proof_key()) is Some
                } else {
                    signed.member(name) == Some(field)
                },
            }
        }),
{
}

/// Under an empty list, signing gives a proof record to every field whose
/// value is an object, keeps every field's key, and leaves every field whose
/// value is no object as it was.
pub proof fn lemma_every_object_field(
    entity: JsonModel,
    secret: Seq<u8>,
    created: Seq<char>,
    name: Seq<char>,
)
    ensures
        ({
            let signed = signed_entity(entity, Seq::empty(), secret, created);
            match entity.member(name) {
                None => signed.member(name) is None,
                Some(field) => if field is Object {
                    signed.member(name) == Some(
                        sealed_field(field, entity_id(entity), entity_type(entity), secret, created),
                    ) && signed.member(name)->0.member(proof_key()) is Some
                } else {
                    signed.member(name) == Some(field)
                },
            }
        }),
{
}

/// Whether the entity has an object under `key`.
pub open spec fn holds_object(entity: JsonModel, key: Seq<char>) -> bool {
    entity.member(key) is Some && entity.member(key)->0 is Object
}

/// Whether `names` is what a configured list resolves to for an entity: the
/// list itself, or for an empty list the keys under which the entity has an
/// object, each once, in ascending lexicographic order.
pub open spec fn is_selection(
    names: Seq<Seq<char>>,
    entity: JsonModel,
    listed: Seq<Seq<char>>,
) -> bool {
    if listed.len() > 0 {
        names == listed
    } else {
        &&& forall|k: Seq<char>| #[trigger] names.contains(k) <==> holds_object(entity, k)
        &&& no_repeats(names)
        &&& ascending(names)
    }
}

/// A configured list resolves to one list of names for an entity, and no other.
pub proof fn lemma_selection_unique(
    first: Seq<Seq<char>>,
    second: Seq<Seq<char>>,
    entity: JsonModel,
    listed: Seq<Seq<char>>,
)
    requires
        is_selection(first, entity, listed),
        is_selection(second, entity, listed),
    ensures
        first == second,
{
    if listed.len() == 0 {
        assert forall|k: Seq<char>| first.contains(k) <==> second.contains(k) by {
            assert(first.contains(k) <==> holds_object(entity, k));
            assert(second.contains(k) <==> holds_object(entity, k));
        }
        lemma_ascending_unique(first, second);
    }
}

/// Sealing the names that a configured list resolves to is signing under that list.
pub proof fn lemma_selection_signs(
    entity: JsonModel,
    names: Seq<Seq<char>>,
    listed: Seq<Seq<char>>,
    secret: Seq<u8>,
    created: Seq<char>,
)
    requires
        is_selection(names, entity, listed),
    ensures
        sealed_entity(entity, names, secret, created) == signed_entity(
            entity,
            listed,
            secret,
            created,
        ),
{
    if let JsonModel::Object(m) = entity {
        assert forall|k: Seq<char>| m.contains_key(k) && m[k] is Object && listed.len()
            == 0 implies names.contains(k) by {
            assert(holds_object(entity, k));
        }
        assert(sealed_entity(entity, names, secret, created)->Object_0 =~= signed_entity(
            entity,
            listed,
            secret,
            created,
        )->Object_0);
    }
}

/// Whether `key` has its last position in `ms` before `n`, with an object for
/// its value there.
pub open spec fn object_before(ms: Seq<Member>, key: Seq<char>, n: int) -> bool {
    exists|j: int| 0 <= j < n && is_last(ms, key, j) && ms[j].value@ is Object
}

/// The place of `key` in an ascending list: behind every name that comes
/// before it.
fn insert_position(names: &Vec<String>, key: &String) -> (at: usize)
    ensures
        at <= names@.len(),
        forall|q: int| 0 <= q < at ==> text_precedes(#[trigger] texts(names@)[q], key@),
        at < names@.len() ==> !text_precedes(texts(names@)[at as int], key@),
{
    let mut at: usize = 0;
    while at < names.len()
        invariant
            at <= names@.len(),
            forall|q: int| 0 <= q < at ==> text_precedes(#[trigger] texts(names@)[q], key@),
        decreases names.len() - at,
    {
        if !string_precedes(&names[at], key) {
            return at;
        }
        at = at + 1;
    }
    at
}

/// The keys under which an entity has an object, each once, in ascending
/// lexicographic order.
pub fn object_field_names(entity: &Json) -> (names: Vec<String>)
    ensures
        is_selection(texts(names@), entity@, Seq::empty()),
{
    let mut out: Vec<String> = Vec::new();
    if let Json::Object(ms) = entity {
        let mut i: usize = 0;
        while i < ms.len()
            invariant
                i <= ms.len(),
                ascending(texts(out@)),
                no_repeats(texts(out@)),
                forall|k: Seq<char>|
                    #[trigger] texts(out@).contains(k) <==> object_before(ms@, k, i as int),
            decreases ms.len() - i,
        {
            let ghost before = out@;
            let ghost key = ms@[i as int].key@;
            let ghost mut added = false;
            match last_position(ms, &ms[i].key) {
                Some(j) => {
                    if j == i && ms[i].value.is_object() {
                        let at = insert_position(&out, &ms[i].key);
                        proof {
                            if texts(before).contains(key) {
                                assert(object_before(ms@, key, i as int));
                            }
                            lemma_insert_ascending(texts(before), at as int, key);
                            added = true;
                        }
                        out.insert(at, ms[i].key.clone());
                        proof {
                            assert(texts(out@) =~= texts(before).insert(at as int, key));
                        }
                    }
                    proof {
                        assert forall|k: Seq<char>| #[trigger]
                            texts(out@).contains(k) <==> (texts(before).contains(k) || (k == key
                            && added)) by {}
                        assert(is_last(ms@, key, j as int));
                        assert forall|k: Seq<char>| object_before(ms@, k, i + 1) <==> (
                        object_before(ms@, k, i as int) || (k == key && added)) by {
                            if object_before(ms@, k, i + 1) && !object_before(ms@, k, i as int) {
                                assert(is_last(ms@, k, i as int));
                            }
                            if k == key && added {
                                assert(is_last(ms@, k, i as int));
                            }
                        }
                    }
                },
                None => {
                    proof {
                        assert(ms@[i as int].key@ != key);
                    }
                },
            }
            proof {
                assert forall|k: Seq<char>| #[trigger]
                    texts(out@).contains(k) <==> object_before(ms@, k, i + 1) by {
                    assert(texts(before).contains(k) <==> object_before(ms@, k, i as int));
                }
            }
            i = i + 1;
        }
        proof {
            assert forall|k: Seq<char>| #[trigger]
                texts(out@).contains(k) <==> holds_object(entity@, k) by {
                if object_before(ms@, k, ms@.len() as int) {
                    let j = choose|j: int|
                        0 <= j < ms@.len() && is_last(ms@, k, j) && ms@[j].value@ is Object;
                    lemma_members_found(ms@, k, j);
                }
                if holds_object(entity@, k) {
                    lemma_last_occurrence(ms@, k);
                    let j = choose|j: int| is_last(ms@, k, j);
                    lemma_members_found(ms@, k, j);
                }
            }
        }
    }
    out
}

/// Whether `names` holds the text of `name`.
pub fn contains_text(names: &Vec<String>, name: &String) -> (r: bool)
    ensures
        r == texts(names@).contains(name@),
{
    let mut i: usize = 0;
    while i < names.len()
        invariant
            i <= names.len(),
            forall|j: int| 0 <= j < i ==> texts(names@)[j] != name@,
        decreases names.len() - i,
    {
        if names[i] == *name {
            assert(texts(names@)[i as int] == name@);
            return true;
        }
        i = i + 1;
    }
    false
}

/// The text under `key` of an entity, or the empty text.
pub fn member_text(entity: &Json, key: &str) -> (r: String)
    ensures
        r@ == text_or_empty(entity@, key@),
{
    match entity.get(key) {
        Some(value) => match value.as_text() {
            Some(t) => t.clone(),
            None => String::new(),
        },
        None => String::new(),
    }
}

/// Resolves the names of the fields to sign for an entity. Without an entry
/// there is nothing to go by: the error names the entity's type. A list that
/// is not empty is taken as it is; an empty one stands for the keys under
/// which the entity has an object, in ascending lexicographic order.
pub fn select_fields(entry: Option<&ConfigEntry>, entity: &Json) -> (r: Result<
    Vec<String>,
    SignError,
>)
    ensures
        match r {
            Ok(names) => entry is Some && is_selection(
                texts(names@),
                entity@,
                texts(entry->0.properties_to_sign@),
            ),
            Err(e) => entry is None && e@ == SignFault::NoConfiguration(entity_type(entity@)),
        },
{
    let entry = match entry {
        Some(entry) => entry,
        None => {
            return Err(SignError::NoConfiguration(member_text(entity, "type")));
        },
    };
    if entry.properties_to_sign.len() > 0 {
        return Ok(copy_names(&entry.properties_to_sign));
    }
    Ok(object_field_names(entity))
}

/// Seals one field with the secret key `secret`: signs the canonical bytes of
/// the field without a proof record, and embeds the record for that signature.
/// A value that is no object is copied. A sealed object verifies under the
/// public key that belongs to `secret`.
pub fn sign_field(field: &Json, id: &str, ty: &str, secret: &[u8; 32], created: &str) -> (r: Json)
    ensures
        r@ == sealed_field(field@, id@, ty@, secret@, created@),
        field@ is Object ==> field_status(r@, ed25519_public(secret@)) == VerificationStatus::True,
{
    if !field.is_object() {
        return field.duplicate();
    }
    let bare = field.without("ngsildproof");
    let bytes = canonicalize(&bare);
    let signature = ed25519_sign(secret, &bytes);
    let record = build_proof(
        id,
        ty,
        &signature,
        "https://example.edu/issuers/565049#key-1",
        "eddsa-rdfc-2022",
        "assertionMethod",
        created,
    );
    let sealed = bare.with("ngsildproof", record);
    proof {
        assert(sealed@.without(proof_key())->Object_0 =~= bare@->Object_0);
    }
    sealed
}

/// Seals the fields of an entity that `names` holds. A named field that the
/// entity lacks, or whose value is no object, is passed over. Every field that
/// was sealed verifies under the public key that belongs to `secret`.
pub fn sign_entity(entity: &Json, names: &Vec<String>, secret: &[u8; 32], created: &str) -> (r:
    Json)
    ensures
        r@ == sealed_entity(entity@, texts(names@), secret@, created@),
        forall|k: Seq<char>|
            texts(names@).contains(k) && (#[trigger] entity@.member(k)) is Some && entity@.member(
                k,
            )->0 is Object ==> field_status(r@.member(k)->0, ed25519_public(secret@))
                == VerificationStatus::True,
{
    let ms = match entity {
        Json::Object(ms) => ms,
        _ => {
            return entity.duplicate();
        },
    };
    let id = member_text(entity, "id");
    let ty = member_text(entity, "type");
    let mut out: Vec<Member> = Vec::new();
    let mut i: usize = 0;
    while i < ms.len()
        invariant
            i <= ms.len(),
            id@ == entity_id(entity@),
            ty@ == entity_type(entity@),
            members_model(out@) == Map::new(
                |k: Seq<char>| members_model(ms@.take(i as int)).contains_key(k),
                |k: Seq<char>|
                    if texts(names@).contains(k) {
                        sealed_field(
                            members_model(ms@.take(i as int))[k],
                            id@,
                            ty@,
                            secret@,
                            created@,
                        )
                    } else {
                        members_model(ms@.take(i as int))[k]
                    },
            ),
            forall|k: Seq<char>|
                texts(names@).contains(k) && #[trigger] members_model(
                    ms@.take(i as int),
                ).contains_key(k) && members_model(ms@.take(i as int))[k] is Object
                    ==> field_status(members_model(out@)[k], ed25519_public(secret@))
                    == VerificationStatus::True,
        decreases ms.len() - i,
    {
        let ghost before = out@;
        proof {
            reveal_with_fuel(members_model, 2);
            assert(ms@.take(i + 1).drop_last() == ms@.take(i as int));
        }
        let value = if contains_text(names, &ms[i].key) {
            sign_field(&ms[i].value, id.as_str(), ty.as_str(), secret, created)
        } else {
            ms[i].value.duplicate()
        };
        out.push(Member { key: ms[i].key.clone(), value });
        proof {
            assert(out@.drop_last() == before);
            assert(members_model(out@) =~= Map::new(
                |k: Seq<char>| members_model(ms@.take(i + 1)).contains_key(k),
                |k: Seq<char>|
                    if texts(names@).contains(k) {
                        sealed_field(members_model(ms@.take(i + 1))[k], id@, ty@, secret@, created@)
                    } else {
                        members_model(ms@.take(i + 1))[k]
                    },
            ));
        }
        i = i + 1;
    }
    proof {
        assert(ms@.take(i as int) == ms@);
    }
    Json::Object(out)
}

} // verus!
