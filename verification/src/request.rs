//! Signing requests: a document whose `data` array holds the entities to sign.

use crate::config::{texts, ConfigRegistry};
use crate::crypto::{ed25519_public, is_timestamp, random_secret, timestamp_now};
use crate::json::{elements_model, lemma_elements_model, Json, JsonModel};
use crate::sign::{
    entity_type, holds_object, lemma_selection_signs, member_text, sealed_fields_verify,
    select_fields, sign_entity, signed_entity, SignError, SignFault,
};
use vstd::prelude::*;

verus! {

/// The entities of a request: the elements of its `data` array.
pub open spec fn entities_of(doc: JsonModel) -> Option<Seq<JsonModel>> {
    match doc.member("data"@) {
        Some(JsonModel::Array(items)) => Some(items),
        _ => None,
    }
}

/// Whether every entity is an object.
pub open spec fn all_objects(items: Seq<JsonModel>) -> bool {
    forall|i: int| 0 <= i < items.len() ==> (#[trigger] items[i]) is Object
}

/// Whether the registry has an entry for the entity's type.
pub open spec fn configured(entity: JsonModel, registry: Map<Seq<char>, Seq<Seq<char>>>) -> bool {
    registry.contains_key(entity_type(entity))
}

/// The type of the first entity for whose type the registry has no entry.
pub open spec fn first_unconfigured(
    items: Seq<JsonModel>,
    registry: Map<Seq<char>, Seq<Seq<char>>>,
) -> Option<Seq<char>>
    decreases items.len(),
{
    if items.len() == 0 {
        None
    } else {
        match first_unconfigured(items.drop_last(), registry) {
            Some(ty) => Some(ty),
            None => if configured(items.last(), registry) {
                None
            } else {
                Some(entity_type(items.last()))
            },
        }
    }
}

/// Why a request is turned down, if it is. A request without a `data` array,
/// with an empty one, or with an element that is no object is invalid,
/// whatever the registry holds. A request of the right shape lacks
/// configuration where the registry has no entry for the type of one of its
/// entities: the first such entity names the type.
pub open spec fn request_fault(
    doc: JsonModel,
    registry: Map<Seq<char>, Seq<Seq<char>>>,
) -> Option<SignFault> {
    match entities_of(doc) {
        None => Some(SignFault::InvalidInput),
        Some(items) => if items.len() == 0 || !all_objects(items) {
            Some(SignFault::InvalidInput)
        } else {
            match first_unconfigured(items, registry) {
                Some(ty) => Some(SignFault::NoConfiguration(ty)),
                None => None,
            }
        },
    }
}

/// The request after signing: the same document, with every entity of `data`
/// signed under the list that the registry holds for its type.
pub open spec fn signed_document(
    doc: JsonModel,
    registry: Map<Seq<char>, Seq<Seq<char>>>,
    secret: Seq<u8>,
    created: Seq<char>,
) -> JsonModel {
    let items = entities_of(doc)->0;
    doc.with(
        "data"@,
        JsonModel::Array(
            Seq::new(
                items.len(),
                |i: int| signed_entity(items[i], registry[entity_type(items[i])], secret, created),
            ),
        ),
    )
}

/// Whether `signed` is the request `doc` signed with `secret` and stamped with
/// `created`, and every field that was sealed in it verifies under the public
/// key that belongs to `secret`.
pub open spec fn signed_with(
    doc: JsonModel,
    registry: Map<Seq<char>, Seq<Seq<char>>>,
    secret: Seq<u8>,
    created: Seq<char>,
    signed: JsonModel,
) -> bool {
    &&& signed == signed_document(doc, registry, secret, created)
    &&& entities_of(signed) is Some
    &&& forall|i: int|
        0 <= i < entities_of(doc)->0.len() ==> sealed_fields_verify(
            #[trigger] entities_of(doc)->0[i],
            entities_of(signed)->0[i],
            registry[entity_type(entities_of(doc)->0[i])],
            ed25519_public(secret),
        )
}

/// The first unconfigured type is the type of some entity without an entry,
/// and every entity before that one has an entry; there is none exactly where
/// every entity has an entry.
pub proof fn lemma_first_unconfigured(
    items: Seq<JsonModel>,
    registry: Map<Seq<char>, Seq<Seq<char>>>,
)
    ensures
        match first_unconfigured(items, registry) {
            None => forall|i: int|
                0 <= i < items.len() ==> configured(#[trigger] items[i], registry),
            Some(ty) => exists|i: int|
                0 <= i < items.len() && !configured(#[trigger] items[i], registry) && ty
                    == entity_type(items[i]) && forall|j: int|
                    0 <= j < i ==> configured(#[trigger] items[j], registry),
        },
    decreases items.len(),
{
    reveal_with_fuel(first_unconfigured, 2);
    if items.len() > 0 {
        let rest = items.drop_last();
        lemma_first_unconfigured(rest, registry);
        match first_unconfigured(rest, registry) {
            Some(ty) => {
                let at = choose|i: int|
                    0 <= i < rest.len() && !configured(#[trigger] rest[i], registry) && ty
                        == entity_type(rest[i]) && forall|j: int|
                        0 <= j < i ==> configured(#[trigger] rest[j], registry);
                assert(items[at] == rest[at]);
                assert forall|j: int| 0 <= j < at implies configured(
                    #[trigger] items[j],
                    registry,
                ) by {
                    assert(items[j] == rest[j]);
                }
            },
            None => {
                assert forall|j: int| 0 <= j < rest.len() implies configured(
                    #[trigger] items[j],
                    registry,
                ) by {
                    assert(items[j] == rest[j]);
                }
                if !configured(items.last(), registry) {
                    let at = items.len() - 1;
                    assert(!configured(items[at], registry));
                }
            },
        }
    }
}

/// A type found unconfigured among the first `n` entities is the one found
/// among them all.
proof fn lemma_unconfigured_stays(
    items: Seq<JsonModel>,
    registry: Map<Seq<char>, Seq<Seq<char>>>,
    n: int,
)
    requires
        0 <= n <= items.len(),
        first_unconfigured(items.take(n), registry) is Some,
    ensures
        first_unconfigured(items, registry) == first_unconfigured(items.take(n), registry),
    decreases items.len() - n,
{
    reveal_with_fuel(first_unconfigured, 2);
    if n < items.len() {
        assert(items.take(n + 1).drop_last() == items.take(n));
        lemma_unconfigured_stays(items, registry, n + 1);
    } else {
        assert(items.take(n) == items);
    }
}

/// Judges a request without signing anything: first its shape, then whether
/// the registry knows the type of every entity.
pub fn check_request(doc: &Json, registry: &ConfigRegistry) -> (r: Result<(), SignError>)
    ensures
        match r {
            Ok(_) => request_fault(doc@, registry@) is None,
            Err(e) => request_fault(doc@, registry@) == Some(e@),
        },
{
    let entities = match doc.get("data") {
        Some(Json::Array(entities)) => entities,
        _ => {
            return Err(SignError::InvalidInput);
        },
    };
    let ghost items = elements_model(entities@);
    proof {
        lemma_elements_model(entities@);
    }
    if entities.len() == 0 {
        return Err(SignError::InvalidInput);
    }
    let mut i: usize = 0;
    while i < entities.len()
        invariant
            i <= entities.len(),
            items.len() == entities@.len(),
            forall|j: int| 0 <= j < items.len() ==> (#[trigger] items[j]) == entities@[j]@,
            entities_of(doc@) == Some(items),
            forall|j: int| 0 <= j < i ==> (#[trigger] items[j]) is Object,
        decreases entities.len() - i,
    {
        if !entities[i].is_object() {
            proof {
                assert(!(items[i as int] is Object));
            }
            return Err(SignError::InvalidInput);
        }
        i = i + 1;
    }
    let mut i: usize = 0;
    while i < entities.len()
        invariant
            i <= entities.len(),
            items.len() == entities@.len(),
            forall|j: int| 0 <= j < items.len() ==> (#[trigger] items[j]) == entities@[j]@,
            entities_of(doc@) == Some(items),
            items.len() > 0,
            all_objects(items),
            first_unconfigured(items.take(i as int), registry@) is None,
        decreases entities.len() - i,
    {
        proof {
            reveal_with_fuel(first_unconfigured, 2);
            assert(items.take(i + 1).drop_last() == items.take(i as int));
            assert(items.take(i + 1).last() == entities@[i as int]@);
        }
        let ty = member_text(&entities[i], "type");
        if registry.get(ty.as_str()).is_none() {
            proof {
                lemma_unconfigured_stays(items, registry@, i + 1);
            }
            return Err(SignError::NoConfiguration(ty));
        }
        i = i + 1;
    }
    proof {
        assert(items.take(i as int) == items);
    }
    Ok(())
}

/// Signs every entity of a request with the secret key `secret`, and stamps
/// every proof with `created`. A request with a fault is turned down as a
/// whole. In the signed document, every field that was sealed verifies under
/// the public key that belongs to `secret`.
pub fn sign_document_with(
    doc: &Json,
    registry: &ConfigRegistry,
    secret: &[u8; 32],
    created: &str,
) -> (r: Result<Json, SignError>)
    ensures
        match r {
            Ok(signed) => request_fault(doc@, registry@) is None && signed_with(
                doc@,
                registry@,
                secret@,
                created@,
                signed@,
            ),
            Err(e) => request_fault(doc@, registry@) == Some(e@),
        },
{
    match check_request(doc, registry) {
        Err(e) => {
            return Err(e);
        },
        Ok(_) => {},
    }
    let entities = match doc.get("data") {
        Some(Json::Array(entities)) => entities,
        _ => {
            return Err(SignError::InvalidInput);
        },
    };
    let ghost items = elements_model(entities@);
    proof {
        lemma_elements_model(entities@);
        lemma_first_unconfigured(items, registry@);
    }
    let mut out: Vec<Json> = Vec::new();
    let mut i: usize = 0;
    while i < entities.len()
        invariant
            i <= entities.len(),
            out@.len() == i,
            items.len() == entities@.len(),
            forall|j: int| 0 <= j < items.len() ==> (#[trigger] items[j]) == entities@[j]@,
            forall|j: int| 0 <= j < items.len() ==> configured(#[trigger] items[j], registry@),
            forall|j: int|
                0 <= j < i ==> (#[trigger] out@[j])@ == signed_entity(
                    items[j],
                    registry@[entity_type(items[j])],
                    secret@,
                    created@,
                ),
            forall|j: int|
                0 <= j < i ==> sealed_fields_verify(
                    items[j],
                    (#[trigger] out@[j])@,
                    registry@[entity_type(items[j])],
                    ed25519_public(secret@),
                ),
        decreases entities.len() - i,
    {
        proof {
            assert(configured(items[i as int], registry@));
        }
        let ty = member_text(&entities[i], "type");
        let entry = registry.get(ty.as_str());
        let names = match select_fields(entry.as_ref(), &entities[i]) {
            Ok(names) => names,
            Err(e) => {
                return Err(e);
            },
        };
        let signed = sign_entity(&entities[i], &names, secret, created);
        proof {
            let listed = registry@[entity_type(items[i as int])];
            lemma_selection_signs(items[i as int], texts(names@), listed, secret@, created@);
            assert forall|k: Seq<char>|
                listed.len() == 0 && (#[trigger] items[i as int].member(k)) is Some
                    && items[i as int].member(k)->0 is Object implies texts(names@).contains(
                k,
            ) by {
                assert(holds_object(items[i as int], k));
            }
            assert(sealed_fields_verify(items[i as int], signed@, listed, ed25519_public(secret@)));
        }
        out.push(signed);
        i = i + 1;
    }
    let data = Json::Array(out);
    proof {
        lemma_elements_model(out@);
        assert(data@->Array_0 =~= Seq::new(
            items.len(),
            |i: int|
                signed_entity(items[i], registry@[entity_type(items[i])], secret@, created@),
        ));
    }
    let signed = doc.with("data", data);
    proof {
        assert(entities_of(signed@) == Some(data@->Array_0));
        assert forall|i: int| 0 <= i < items.len() implies sealed_fields_verify(
            #[trigger] items[i],
            entities_of(signed@)->0[i],
            registry@[entity_type(items[i])],
            ed25519_public(secret@),
        ) by {
            assert(entities_of(signed@)->0[i] == out@[i]@);
        }
    }
    Ok(signed)
}

/// Signs every entity of a request with a key made for this one call, and
/// stamps every proof with the time of the call. A request with a fault is
/// turned down for that fault; a sound request fails only where no key could
/// be made or the clock could not be read.
pub fn sign_handler(doc: &Json, registry: &ConfigRegistry) -> (r: Result<Json, SignError>)
    ensures
        match r {
            Ok(signed) => request_fault(doc@, registry@) is None && exists|
                secret: Seq<u8>,
                created: Seq<char>,
            |
                secret.len() == 32 && is_timestamp(created) && #[trigger] signed_with(
                    doc@,
                    registry@,
                    secret,
                    created,
                    signed@,
                ),
            Err(e) => request_fault(doc@, registry@) == Some(e@) || (request_fault(
                doc@,
                registry@,
            ) is None && (e@ is KeyUnavailable || e@ is ClockUnavailable)),
        },
{
    match check_request(doc, registry) {
        Err(e) => {
            return Err(e);
        },
        Ok(_) => {},
    }
    let secret = match random_secret() {
        Some(secret) => secret,
        None => {
            return Err(SignError::KeyUnavailable);
        },
    };
    let created = match timestamp_now() {
        Some(created) => created,
        None => {
            return Err(SignError::ClockUnavailable);
        },
    };
    let r = sign_document_with(doc, registry, &secret, created.as_str());
    proof {
        if r is Ok {
            assert(signed_with(doc@, registry@, secret@, created@, r->Ok_0@));
        }
    }
    r
}

} // verus!
