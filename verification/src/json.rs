//! JSON values and their mathematical model.

use crate::assoc::{
    is_last, last_position, last_wins, lemma_absent, lemma_found, lemma_has_last, Keyed,
};
use vstd::prelude::*;

verus! {

/// The mathematical value of a JSON document. An object is a finite map from
/// keys to values: the order in which its members were written is not part of it.
pub enum JsonModel {
    Null,
    Bool(bool),
    Number(int),
    Decimal(Seq<char>),
    Text(Seq<char>),
    Array(Seq<JsonModel>),
    Object(Map<Seq<char>, JsonModel>),
}

/// One `key: value` pair of an object.
#[derive(Debug, PartialEq, Eq)]
pub struct Member {
    pub key: String,
    pub value: Json,
}

/// A JSON value. An object keeps its members in the order they were written;
/// where a key occurs more than once, the last occurrence is the one that counts.
/// A number that is no 64-bit signed integer is held as its JSON text; a text
/// there that is no JSON number is written as `null` when the value is
/// serialized.
#[derive(Debug, PartialEq, Eq)]
pub enum Json {
    Null,
    Bool(bool),
    Number(i64),
    Decimal(String),
    Text(String),
    Array(Vec<Json>),
    Object(Vec<Member>),
}

/// The map that a list of members stands for: later members override earlier ones.
pub open spec fn members_model(ms: Seq<Member>) -> Map<Seq<char>, JsonModel>
    decreases ms,
{
    if ms.len() == 0 {
        Map::empty()
    } else {
        members_model(ms.drop_last()).insert(ms.last().key@, ms.last().value.view())
    }
}

/// The models of a list of values, element by element.
pub open spec fn elements_model(items: Seq<Json>) -> Seq<JsonModel>
    decreases items,
{
    if items.len() == 0 {
        Seq::empty()
    } else {
        elements_model(items.drop_last()).push(items.last().view())
    }
}

impl View for Json {
    type V = JsonModel;

    open spec fn view(&self) -> JsonModel
        decreases self,
    {
        match self {
            Json::Null => JsonModel::Null,
            Json::Bool(b) => JsonModel::Bool(*b),
            Json::Number(n) => JsonModel::Number(*n as int),
            Json::Decimal(t) => JsonModel::Decimal(t@),
            Json::Text(s) => JsonModel::Text(s@),
            Json::Array(items) => JsonModel::Array(elements_model(items@)),
            Json::Object(ms) => JsonModel::Object(members_model(ms@)),
        }
    }
}

impl JsonModel {
    /// The value under `key`, where this is an object that has the key.
    pub open spec fn member(self, key: Seq<char>) -> Option<JsonModel> {
        match self {
            JsonModel::Object(m) => if m.contains_key(key) {
                Some(m[key])
            } else {
                None
            },
            _ => None,
        }
    }

    /// The text, where this is a string.
    pub open spec fn text(self) -> Option<Seq<char>> {
        match self {
            JsonModel::Text(t) => Some(t),
            _ => None,
        }
    }

    /// This value without `key`, where it is an object; any other value as it is.
    pub open spec fn without(self, key: Seq<char>) -> JsonModel {
        match self {
            JsonModel::Object(m) => JsonModel::Object(m.remove(key)),
            _ => self,
        }
    }

    /// This value with `key` bound to `value`, where it is an object; any other
    /// value as it is.
    pub open spec fn with(self, key: Seq<char>, value: JsonModel) -> JsonModel {
        match self {
            JsonModel::Object(m) => JsonModel::Object(m.insert(key, value)),
            _ => self,
        }
    }
}

impl Keyed for Member {
    type Model = JsonModel;

    open spec fn key_text(&self) -> Seq<char> {
        self.key@
    }

    open spec fn model(&self) -> JsonModel {
        self.value@
    }

    fn key(&self) -> (k: &String) {
        &self.key
    }
}

/// The members of an object are a list in which the last item with a key counts.
pub proof fn lemma_members_last_wins(ms: Seq<Member>)
    ensures
        members_model(ms) == last_wins(ms),
    decreases ms.len(),
{
    reveal_with_fuel(members_model, 2);
    reveal_with_fuel(last_wins, 2);
    if ms.len() > 0 {
        lemma_members_last_wins(ms.drop_last());
    }
}

/// The member that counts for a key is its last occurrence.
pub proof fn lemma_members_found(ms: Seq<Member>, key: Seq<char>, i: int)
    requires
        is_last(ms, key, i),
    ensures
        members_model(ms).contains_key(key),
        members_model(ms)[key] == ms[i].value@,
{
    lemma_members_last_wins(ms);
    lemma_found(ms, key, i);
}

/// A key that no member holds is not in the object.
pub proof fn lemma_members_absent(ms: Seq<Member>, key: Seq<char>)
    requires
        forall|j: int| 0 <= j < ms.len() ==> (#[trigger] ms[j]).key@ != key,
    ensures
        !members_model(ms).contains_key(key),
{
    lemma_members_last_wins(ms);
    lemma_absent(ms, key);
}

/// A key of the object has a last position in the list.
pub proof fn lemma_last_occurrence(ms: Seq<Member>, key: Seq<char>)
    requires
        members_model(ms).contains_key(key),
    ensures
        exists|i: int| is_last(ms, key, i),
{
    lemma_members_last_wins(ms);
    lemma_has_last(ms, key);
}

/// Whether the last position of `key` in `ms` lies before `n`.
pub open spec fn last_before(ms: Seq<Member>, key: Seq<char>, n: int) -> bool {
    exists|j: int| 0 <= j < n && is_last(ms, key, j)
}

/// No key occurs twice in `ms`.
pub open spec fn distinct_keys(ms: Seq<Member>) -> bool {
    forall|i: int, j: int|
        0 <= i < j < ms.len() ==> (#[trigger] ms[i]).key@ != (#[trigger] ms[j]).key@
}

/// Every member of `a` occurs in `b`, with the same key and the same value.
pub open spec fn members_among(a: Seq<Member>, b: Seq<Member>) -> bool {
    forall|i: int|
        0 <= i < a.len() ==> exists|j: int|
            0 <= j < b.len() && (#[trigger] b[j]).key@ == (#[trigger] a[i]).key@ && b[j].value@
                == a[i].value@
}

/// Where no key occurs twice, the object holds exactly the members of the
/// list, each with its own value.
pub proof fn lemma_members_of_distinct(ms: Seq<Member>, key: Seq<char>)
    requires
        distinct_keys(ms),
    ensures
        members_model(ms).contains_key(key) <==> exists|i: int|
            0 <= i < ms.len() && (#[trigger] ms[i]).key@ == key,
        forall|i: int|
            0 <= i < ms.len() && (#[trigger] ms[i]).key@ == key ==> members_model(ms)[key]
                == ms[i].value@,
{
    if exists|i: int| 0 <= i < ms.len() && (#[trigger] ms[i]).key@ == key {
        assert forall|i: int| 0 <= i < ms.len() && (#[trigger] ms[i]).key@ == key implies {
            &&& members_model(ms).contains_key(key)
            &&& members_model(ms)[key] == ms[i].value@
        } by {
            lemma_members_found(ms, key, i);
        }
    } else {
        lemma_members_absent(ms, key);
    }
}

/// Two lists without repeated keys that hold the same members, in whatever
/// order, stand for the same object.
pub proof fn lemma_members_order_free(a: Seq<Member>, b: Seq<Member>)
    requires
        distinct_keys(a),
        distinct_keys(b),
        members_among(a, b),
        members_among(b, a),
    ensures
        members_model(a) == members_model(b),
{
    assert forall|k: Seq<char>| #[trigger] members_model(a).dom().contains(k) implies members_model(
        b,
    ).dom().contains(k) && members_model(b)[k] == members_model(a)[k] by {
        lemma_members_of_distinct(a, k);
        lemma_members_of_distinct(b, k);
        let i = choose|i: int| 0 <= i < a.len() && (#[trigger] a[i]).key@ == k;
        let j = choose|j: int|
            0 <= j < b.len() && (#[trigger] b[j]).key@ == a[i].key@ && b[j].value@ == a[i].value@;
        assert(b[j].key@ == k);
    }
    assert forall|k: Seq<char>| #[trigger] members_model(b).dom().contains(k) implies members_model(
        a,
    ).dom().contains(k) by {
        lemma_members_of_distinct(a, k);
        lemma_members_of_distinct(b, k);
        let i = choose|i: int| 0 <= i < b.len() && (#[trigger] b[i]).key@ == k;
        let j = choose|j: int|
            0 <= j < a.len() && (#[trigger] a[j]).key@ == b[i].key@ && a[j].value@ == b[i].value@;
        assert(a[j].key@ == k);
    }
    assert(members_model(a) =~= members_model(b));
}

/// The model of a list of values has one entry per value.
pub proof fn lemma_elements_model(items: Seq<Json>)
    ensures
        elements_model(items).len() == items.len(),
        forall|i: int| 0 <= i < items.len() ==> (#[trigger] elements_model(items)[i]) == items[i]@,
    decreases items.len(),
{
    reveal_with_fuel(elements_model, 2);
    if items.len() > 0 {
        lemma_elements_model(items.drop_last());
    }
}

/// Appends the member `key: value`, which from then on is the one that counts
/// for `key`.
pub fn push_member(ms: &mut Vec<Member>, key: &str, value: Json)
    ensures
        members_model(final(ms)@) == members_model(old(ms)@).insert(key@, value@),
{
    let ghost before = ms@;
    ms.push(Member { key: key.to_string(), value });
    proof {
        reveal_with_fuel(members_model, 2);
        assert(ms@.drop_last() == before);
    }
}

impl Json {
    /// A string value with the text of `text`.
    pub fn text_of(text: &str) -> (r: Json)
        ensures
            r@ == JsonModel::Text(text@),
    {
        Json::Text(text.to_string())
    }

    /// Whether this value is an object.
    pub fn is_object(&self) -> (r: bool)
        ensures
            r == (self@ is Object),
    {
        match self {
            Json::Object(_) => true,
            _ => false,
        }
    }

    /// The text of a string value.
    pub fn as_text(&self) -> (r: Option<&String>)
        ensures
            match r {
                Some(t) => self@.text() == Some(t@),
                None => self@.text().is_none(),
            },
    {
        match self {
            Json::Text(t) => Some(t),
            _ => None,
        }
    }

    /// The value under `key`, where this is an object that has the key.
    pub fn get(&self, key: &str) -> (r: Option<&Json>)
        ensures
            match r {
                Some(v) => self@.member(key@) == Some(v@),
                None => self@.member(key@).is_none(),
            },
    {
        match self {
            Json::Object(ms) => {
                let wanted = key.to_string();
                match last_position(ms, &wanted) {
                    Some(i) => {
                        proof {
                            lemma_members_found(ms@, key@, i as int);
                        }
                        Some(&ms[i].value)
                    },
                    None => {
                        proof {
                            lemma_members_absent(ms@, key@);
                        }
                        None
                    },
                }
            },
            _ => None,
        }
    }

    /// A copy of this value.
    #[verifier::loop_isolation(false)]
    pub fn duplicate(&self) -> (r: Json)
        ensures
            r@ == self@,
        decreases self,
    {
        match self {
            Json::Null => Json::Null,
            Json::Bool(b) => Json::Bool(*b),
            Json::Number(n) => Json::Number(*n),
            Json::Decimal(t) => Json::Decimal(t.clone()),
            Json::Text(t) => Json::Text(t.clone()),
            Json::Array(items) => {
                let mut out: Vec<Json> = Vec::new();
                let mut i: usize = 0;
                while i < items.len()
                    invariant
                        i <= items.len(),
                        elements_model(out@) == elements_model(items@.take(i as int)),
                    decreases items.len() - i,
                {
                    let ghost before = out@;
                    proof {
                        assert(decreases_to!(items => items@));
                        assert(decreases_to!(items@ => items@[i as int]));
                    }
                    out.push(items[i].duplicate());
                    proof {
                        reveal_with_fuel(elements_model, 2);
                        assert(out@.drop_last() == before);
                        assert(items@.take(i + 1).drop_last() == items@.take(i as int));
                    }
                    i = i + 1;
                }
                proof {
                    assert(items@.take(i as int) == items@);
                }
                Json::Array(out)
            },
            Json::Object(ms) => {
                let mut out: Vec<Member> = Vec::new();
                let mut i: usize = 0;
                while i < ms.len()
                    invariant
                        i <= ms.len(),
                        members_model(out@) == members_model(ms@.take(i as int)),
                    decreases ms.len() - i,
                {
                    let ghost before = out@;
                    proof {
                        assert(decreases_to!(ms => ms@));
                        assert(decreases_to!(ms@ => ms@[i as int]));
                        assert(decreases_to!(ms@[i as int] => ms@[i as int].value));
                    }
                    out.push(Member { key: ms[i].key.clone(), value: ms[i].value.duplicate() });
                    proof {
                        reveal_with_fuel(members_model, 2);
                        assert(out@.drop_last() == before);
                        assert(ms@.take(i + 1).drop_last() == ms@.take(i as int));
                    }
                    i = i + 1;
                }
                proof {
                    assert(ms@.take(i as int) == ms@);
                }
                Json::Object(out)
            },
        }
    }

    /// This value without the member `key`, where it is an object; a copy of any
    /// other value.
    pub fn without(&self, key: &str) -> (r: Json)
        ensures
            r@ == self@.without(key@),
    {
        match self {
            Json::Object(ms) => {
                let dropped = key.to_string();
                let mut out: Vec<Member> = Vec::new();
                let mut i: usize = 0;
                while i < ms.len()
                    invariant
                        i <= ms.len(),
                        dropped@ == key@,
                        members_model(out@) == members_model(ms@.take(i as int)).remove(key@),
                    decreases ms.len() - i,
                {
                    let ghost before = out@;
                    proof {
                        reveal_with_fuel(members_model, 2);
                        assert(ms@.take(i + 1).drop_last() == ms@.take(i as int));
                    }
                    if ms[i].key != dropped {
                        out.push(Member { key: ms[i].key.clone(), value: ms[i].value.duplicate() });
                        proof {
                            assert(out@.drop_last() == before);
                            assert(members_model(out@) =~= members_model(ms@.take(i + 1)).remove(
                                key@,
                            ));
                        }
                    } else {
                        proof {
                            assert(members_model(out@) =~= members_model(ms@.take(i + 1)).remove(
                                key@,
                            ));
                        }
                    }
                    i = i + 1;
                }
                proof {
                    assert(ms@.take(i as int) == ms@);
                }
                Json::Object(out)
            },
            _ => self.duplicate(),
        }
    }

    /// This value with `key` bound to `value`, where it is an object; a copy of
    /// any other value.
    pub fn with(&self, key: &str, value: Json) -> (r: Json)
        ensures
            r@ == self@.with(key@, value@),
    {
        match self.without(key) {
            Json::Object(mut ms) => {
                let ghost before = ms@;
                ms.push(Member { key: key.to_string(), value });
                proof {
                    reveal_with_fuel(members_model, 2);
                    assert(ms@.drop_last() == before);
                    assert(members_model(ms@) =~= self@->Object_0.insert(key@, value@));
                }
                Json::Object(ms)
            },
            other => other,
        }
    }
}

} // verus!
