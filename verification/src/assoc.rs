//! Lists of keyed items in which the last item with a key is the one that counts.

use vstd::prelude::*;

verus! {

/// An item that is found by a key and stands for a value.
pub trait Keyed {
    /// What the item stands for.
    type Model;

    /// The key of the item.
    spec fn key_text(&self) -> Seq<char>;

    /// The value of the item.
    spec fn model(&self) -> Self::Model;

    /// The key of the item.
    fn key(&self) -> (k: &String)
        ensures
            k@ == self.key_text(),
    ;
}

/// The map that a list of items stands for: later items override earlier ones.
pub open spec fn last_wins<T: Keyed>(items: Seq<T>) -> Map<Seq<char>, T::Model>
    decreases items.len(),
{
    if items.len() == 0 {
        Map::empty()
    } else {
        last_wins(items.drop_last()).insert(items.last().key_text(), items.last().model())
    }
}

/// `i` is the last position of `items` that holds `key`.
pub open spec fn is_last<T: Keyed>(items: Seq<T>, key: Seq<char>, i: int) -> bool {
    &&& 0 <= i < items.len()
    &&& items[i].key_text() == key
    &&& forall|j: int| i < j < items.len() ==> (#[trigger] items[j]).key_text() != key
}

/// The item that counts for a key is its last occurrence.
pub proof fn lemma_found<T: Keyed>(items: Seq<T>, key: Seq<char>, i: int)
    requires
        is_last(items, key, i),
    ensures
        last_wins(items).contains_key(key),
        last_wins(items)[key] == items[i].model(),
    decreases items.len(),
{
    reveal_with_fuel(last_wins, 2);
    if i < items.len() - 1 {
        let rest = items.drop_last();
        assert(items.last().key_text() != key);
        assert forall|j: int| i < j < rest.len() implies (#[trigger] rest[j]).key_text()
            != key by {
            assert(rest[j] == items[j]);
        }
        lemma_found(rest, key, i);
    }
}

/// A key that no item holds is not in the map.
pub proof fn lemma_absent<T: Keyed>(items: Seq<T>, key: Seq<char>)
    requires
        forall|j: int| 0 <= j < items.len() ==> (#[trigger] items[j]).key_text() != key,
    ensures
        !last_wins(items).contains_key(key),
    decreases items.len(),
{
    reveal_with_fuel(last_wins, 2);
    if items.len() > 0 {
        let rest = items.drop_last();
        assert(items.last().key_text() != key);
        assert forall|j: int| 0 <= j < rest.len() implies (#[trigger] rest[j]).key_text()
            != key by {
            assert(rest[j] == items[j]);
        }
        lemma_absent(rest, key);
    }
}

/// A key of the map has a last position in the list.
pub proof fn lemma_has_last<T: Keyed>(items: Seq<T>, key: Seq<char>)
    requires
        last_wins(items).contains_key(key),
    ensures
        exists|i: int| is_last(items, key, i),
    decreases items.len(),
{
    reveal_with_fuel(last_wins, 2);
    if items.len() > 0 {
        if items.last().key_text() == key {
            assert(is_last(items, key, items.len() - 1));
        } else {
            let rest = items.drop_last();
            lemma_has_last(rest, key);
            let i = choose|i: int| is_last(rest, key, i);
            assert(items[i] == rest[i]);
            assert forall|j: int| i < j < items.len() implies (#[trigger] items[j]).key_text()
                != key by {
                if j < rest.len() {
                    assert(rest[j] == items[j]);
                }
            }
            assert(is_last(items, key, i));
        }
    }
}

/// Putting an item in the place of the last one with its key binds the key to
/// the new item's value, and changes nothing else.
pub proof fn lemma_replaced<T: Keyed>(items: Seq<T>, i: int, item: T)
    requires
        is_last(items, item.key_text(), i),
    ensures
        last_wins(items.update(i, item)) == last_wins(items).insert(item.key_text(), item.model()),
    decreases items.len(),
{
    reveal_with_fuel(last_wins, 2);
    let key = item.key_text();
    let after = items.update(i, item);
    if i == items.len() - 1 {
        assert(after.drop_last() == items.drop_last());
        assert(last_wins(after) =~= last_wins(items).insert(key, item.model()));
    } else {
        let rest = items.drop_last();
        assert(items.last().key_text() != key);
        assert forall|j: int| i < j < rest.len() implies (#[trigger] rest[j]).key_text()
            != key by {
            assert(rest[j] == items[j]);
        }
        lemma_replaced(rest, i, item);
        assert(after.drop_last() == rest.update(i, item));
        assert(after.last() == items.last());
        assert(last_wins(after) =~= last_wins(items).insert(key, item.model()));
    }
}

/// The last position of `items` that holds `key`, if there is one.
pub fn last_position<T: Keyed>(items: &Vec<T>, key: &String) -> (r: Option<usize>)
    ensures
        match r {
            Some(i) => is_last(items@, key@, i as int),
            None => forall|j: int|
                0 <= j < items@.len() ==> (#[trigger] items@[j]).key_text() != key@,
        },
{
    let mut i: usize = items.len();
    while i > 0
        invariant
            i <= items.len(),
            forall|j: int| i <= j < items@.len() ==> (#[trigger] items@[j]).key_text() != key@,
        decreases i,
    {
        i = i - 1;
        if *items[i].key() == *key {
            return Some(i);
        }
    }
    None
}

} // verus!
