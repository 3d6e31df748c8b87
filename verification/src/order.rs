//! The order of texts: lexicographic by the code points of their characters.

use vstd::prelude::*;

verus! {

/// Whether `a` comes before `b`: at the first place where they differ `a` has
/// the smaller code point, or `a` ends there and `b` goes on.
pub open spec fn text_precedes(a: Seq<char>, b: Seq<char>) -> bool
    decreases a.len(),
{
    if b.len() == 0 {
        false
    } else if a.len() == 0 {
        true
    } else if a[0] != b[0] {
        (a[0] as u32) < (b[0] as u32)
    } else {
        text_precedes(a.drop_first(), b.drop_first())
    }
}

/// Whether each text comes before the next one.
pub open spec fn ascending(names: Seq<Seq<char>>) -> bool {
    forall|i: int| 0 <= i < names.len() - 1 ==> text_precedes(#[trigger] names[i], names[i + 1])
}

/// Whether no text occurs twice.
pub open spec fn no_repeats(names: Seq<Seq<char>>) -> bool {
    forall|i: int, j: int| 0 <= i < j < names.len() ==> names[i] != names[j]
}

/// Of two different texts one comes before the other.
pub proof fn lemma_precedes_total(a: Seq<char>, b: Seq<char>)
    requires
        a != b,
    ensures
        text_precedes(a, b) || text_precedes(b, a),
    decreases a.len(),
{
    reveal_with_fuel(text_precedes, 2);
    if a.len() == 0 {
        if b.len() == 0 {
            assert(a =~= b);
        }
    } else if b.len() == 0 {
    } else if a[0] != b[0] {
        vstd::utf8::char_u32_cast(a[0], a[0] as u32);
        vstd::utf8::char_u32_cast(b[0], b[0] as u32);
    } else {
        if a.drop_first() == b.drop_first() {
            assert(a =~= seq![a[0]] + a.drop_first());
            assert(b =~= seq![b[0]] + b.drop_first());
        }
        lemma_precedes_total(a.drop_first(), b.drop_first());
    }
}

/// No text comes before itself.
pub proof fn lemma_precedes_irreflexive(a: Seq<char>)
    ensures
        !text_precedes(a, a),
    decreases a.len(),
{
    reveal_with_fuel(text_precedes, 2);
    if a.len() > 0 {
        lemma_precedes_irreflexive(a.drop_first());
    }
}

/// What comes before a text comes before everything that the text comes before.
pub proof fn lemma_precedes_transitive(a: Seq<char>, b: Seq<char>, c: Seq<char>)
    requires
        text_precedes(a, b),
        text_precedes(b, c),
    ensures
        text_precedes(a, c),
    decreases a.len(),
{
    reveal_with_fuel(text_precedes, 2);
    if a.len() > 0 {
        vstd::utf8::char_u32_cast(a[0], a[0] as u32);
        vstd::utf8::char_u32_cast(b[0], b[0] as u32);
        vstd::utf8::char_u32_cast(c[0], c[0] as u32);
        if a[0] == b[0] && b[0] == c[0] {
            lemma_precedes_transitive(a.drop_first(), b.drop_first(), c.drop_first());
        }
    }
}

/// In an ascending list every text comes before every later one.
pub proof fn lemma_ascending_pairs(names: Seq<Seq<char>>, i: int, j: int)
    requires
        ascending(names),
        0 <= i < j < names.len(),
    ensures
        text_precedes(names[i], names[j]),
    decreases j - i,
{
    if i + 1 < j {
        lemma_ascending_pairs(names, i, j - 1);
        assert(text_precedes(names[j - 1], names[j - 1 + 1]));
        lemma_precedes_transitive(names[i], names[j - 1], names[j]);
    } else {
        assert(text_precedes(names[i], names[i + 1]));
    }
}

/// Every text of an ascending list but the last one comes before the last
/// one, so it is among the others and differs from the last.
proof fn lemma_ascending_front(names: Seq<Seq<char>>, k: Seq<char>)
    requires
        ascending(names),
        names.len() > 0,
        names.contains(k),
        k != names.last(),
    ensures
        names.drop_last().contains(k),
        text_precedes(k, names.last()),
{
    let i = choose|i: int| 0 <= i < names.len() && names[i] == k;
    lemma_ascending_pairs(names, i, names.len() - 1);
    assert(names.drop_last()[i] == k);
}

/// Two ascending lists that hold the same texts are the same list.
pub proof fn lemma_ascending_unique(a: Seq<Seq<char>>, b: Seq<Seq<char>>)
    requires
        ascending(a),
        ascending(b),
        forall|k: Seq<char>| a.contains(k) <==> b.contains(k),
    ensures
        a == b,
    decreases a.len(),
{
    if a.len() == 0 {
        if b.len() > 0 {
            assert(b.contains(b[0]));
        }
        assert(a =~= b);
    } else if b.len() == 0 {
        assert(a.contains(a[0]));
    } else {
        assert(a.contains(a.last()));
        assert(b.contains(b.last()));
        if a.last() != b.last() {
            lemma_ascending_front(a, b.last());
            lemma_ascending_front(b, a.last());
            lemma_precedes_transitive(a.last(), b.last(), a.last());
            lemma_precedes_irreflexive(a.last());
        }
        let front_a = a.drop_last();
        let front_b = b.drop_last();
        assert forall|k: Seq<char>| front_a.contains(k) <==> front_b.contains(k) by {
            if front_a.contains(k) {
                let i = choose|i: int| 0 <= i < front_a.len() && front_a[i] == k;
                assert(a[i] == k);
                lemma_ascending_pairs(a, i, a.len() - 1);
                lemma_precedes_irreflexive(k);
                lemma_ascending_front(b, k);
            }
            if front_b.contains(k) {
                let i = choose|i: int| 0 <= i < front_b.len() && front_b[i] == k;
                assert(b[i] == k);
                lemma_ascending_pairs(b, i, b.len() - 1);
                lemma_precedes_irreflexive(k);
                lemma_ascending_front(a, k);
            }
        }
        assert(ascending(front_a)) by {
            assert forall|i: int| 0 <= i < front_a.len() - 1 implies text_precedes(
                #[trigger] front_a[i],
                front_a[i + 1],
            ) by {
                assert(text_precedes(a[i], a[i + 1]));
            }
        }
        assert(ascending(front_b)) by {
            assert forall|i: int| 0 <= i < front_b.len() - 1 implies text_precedes(
                #[trigger] front_b[i],
                front_b[i + 1],
            ) by {
                assert(text_precedes(b[i], b[i + 1]));
            }
        }
        lemma_ascending_unique(front_a, front_b);
        assert(a =~= front_a.push(a.last()));
        assert(b =~= front_b.push(b.last()));
    }
}

/// Putting a new text into an ascending list, after every text that comes
/// before it and before the first that does not, keeps the list ascending and
/// without repeats, and adds that text and no other.
pub proof fn lemma_insert_ascending(names: Seq<Seq<char>>, at: int, key: Seq<char>)
    requires
        0 <= at <= names.len(),
        ascending(names),
        no_repeats(names),
        !names.contains(key),
        at > 0 ==> text_precedes(names[at - 1], key),
        at < names.len() ==> !text_precedes(names[at], key),
    ensures
        ascending(names.insert(at, key)),
        no_repeats(names.insert(at, key)),
        forall|k: Seq<char>| names.insert(at, key).contains(k) <==> (k == key || names.contains(k)),
{
    let after = names.insert(at, key);
    assert(after.len() == names.len() + 1);
    assert(after[at] == key);
    assert forall|i: int| 0 <= i < at implies after[i] == names[i] by {}
    assert forall|i: int| at < i < after.len() implies after[i] == names[i - 1] by {}
    if at < names.len() {
        assert(names.contains(names[at]));
        lemma_precedes_total(names[at], key);
    }
    assert forall|i: int| 0 <= i < after.len() - 1 implies text_precedes(
        #[trigger] after[i],
        after[i + 1],
    ) by {
        if i < at - 1 {
            assert(text_precedes(names[i], names[i + 1]));
        } else if i == at - 1 {
        } else if i == at {
        } else {
            assert(text_precedes(names[i - 1], names[i - 1 + 1]));
        }
    }
    assert forall|i: int, j: int| 0 <= i < j < after.len() implies after[i] != after[j] by {
        if i == at {
            assert(names.contains(after[j]));
        } else if j == at {
            assert(names.contains(after[i]));
        }
    }
    assert forall|k: Seq<char>| after.contains(k) <==> (k == key || names.contains(k)) by {
        if after.contains(k) {
            let i = choose|i: int| 0 <= i < after.len() && after[i] == k;
            if i < at {
                assert(names[i] == k);
            } else if i > at {
                assert(names[i - 1] == k);
            }
        }
        if names.contains(k) {
            let i = choose|i: int| 0 <= i < names.len() && names[i] == k;
            if i < at {
                assert(after[i] == k);
            } else {
                assert(after[i + 1] == k);
            }
        }
    }
}

/// Compares two strings with `<` of std, which orders strings
/// lexicographically by their bytes, and so by the code points of their
/// characters.
#[verifier::external_body]
pub(crate) fn string_precedes(a: &String, b: &String) -> (r: bool)
    ensures
        r == text_precedes(a@, b@),
{
    a < b
}

} // verus!
