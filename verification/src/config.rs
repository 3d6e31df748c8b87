//! The registry that says, per entity type, which fields get signed.

use crate::assoc::{last_position, last_wins, lemma_absent, lemma_found, lemma_replaced, Keyed};
use vstd::prelude::*;

verus! {

/// A submission to the registry: the fields to sign for one entity type. An
/// empty list stands for every object-valued field.
#[derive(Debug)]
pub struct ConfigRequest {
    pub entity_type: String,
    pub properties_to_sign: Vec<String>,
}

/// What the registry holds for one entity type.
#[derive(Clone, Debug)]
pub struct ConfigEntry {
    pub entity_type: String,
    pub properties_to_sign: Vec<String>,
}

/// The texts of a list of strings.
pub open spec fn texts(names: Seq<String>) -> Seq<Seq<char>> {
    Seq::new(names.len(), |i: int| names[i]@)
}

impl Keyed for ConfigEntry {
    type Model = Seq<Seq<char>>;

    open spec fn key_text(&self) -> Seq<char> {
        self.entity_type@
    }

    open spec fn model(&self) -> Seq<Seq<char>> {
        texts(self.properties_to_sign@)
    }

    fn key(&self) -> (k: &String) {
        &self.entity_type
    }
}

/// A copy of a list of names.
pub fn copy_names(names: &Vec<String>) -> (r: Vec<String>)
    ensures
        texts(r@) == texts(names@),
{
    let mut out: Vec<String> = Vec::new();
    let mut i: usize = 0;
    while i < names.len()
        invariant
            i <= names.len(),
            out@.len() == i,
            forall|j: int| 0 <= j < i ==> (#[trigger] out@[j])@ == names@[j]@,
        decreases names.len() - i,
    {
        out.push(names[i].clone());
        i = i + 1;
    }
    proof {
        assert(texts(out@) =~= texts(names@));
    }
    out
}

/// The registry: at most one entry per entity type.
pub struct ConfigRegistry {
    entries: Vec<ConfigEntry>,
}

impl View for ConfigRegistry {
    type V = Map<Seq<char>, Seq<Seq<char>>>;

    closed spec fn view(&self) -> Map<Seq<char>, Seq<Seq<char>>> {
        last_wins(self.entries@)
    }
}

impl ConfigRegistry {
    /// A registry without entries.
    pub fn new() -> (r: ConfigRegistry)
        ensures
            r@ == Map::<Seq<char>, Seq<Seq<char>>>::empty(),
    {
        ConfigRegistry { entries: Vec::new() }
    }

    /// Stores the request's list for its entity type, in place of any list
    /// stored for that type before. Other types keep theirs.
    pub fn set(&mut self, request: ConfigRequest)
        ensures
            final(self)@ == old(self)@.insert(
                request.entity_type@,
                texts(request.properties_to_sign@),
            ),
    {
        let entry = ConfigEntry {
            entity_type: request.entity_type,
            properties_to_sign: request.properties_to_sign,
        };
        match last_position(&self.entries, &entry.entity_type) {
            Some(i) => {
                proof {
                    lemma_replaced(self.entries@, i as int, entry);
                }
                self.entries.set(i, entry);
            },
            None => {
                let ghost before = self.entries@;
                self.entries.push(entry);
                proof {
                    reveal_with_fuel(last_wins, 2);
                    assert(self.entries@.drop_last() == before);
                }
            },
        }
    }

    /// A copy of the registry as it stands.
    pub fn snapshot(&self) -> (r: ConfigRegistry)
        ensures
            r@ == self@,
    {
        let mut entries: Vec<ConfigEntry> = Vec::new();
        let mut i: usize = 0;
        while i < self.entries.len()
            invariant
                i <= self.entries.len(),
                last_wins(entries@) == last_wins(self.entries@.take(i as int)),
            decreases self.entries.len() - i,
        {
            let ghost before = entries@;
            entries.push(
                ConfigEntry {
                    entity_type: self.entries[i].entity_type.clone(),
                    properties_to_sign: copy_names(&self.entries[i].properties_to_sign),
                },
            );
            proof {
                reveal_with_fuel(last_wins, 2);
                assert(entries@.drop_last() == before);
                assert(self.entries@.take(i + 1).drop_last() == self.entries@.take(i as int));
            }
            i = i + 1;
        }
        proof {
            assert(self.entries@.take(i as int) == self.entries@);
        }
        ConfigRegistry { entries }
    }

    /// A snapshot of the entry stored for `entity_type`, if there is one.
    pub fn get(&self, entity_type: &str) -> (r: Option<ConfigEntry>)
        ensures
            match r {
                Some(entry) => self@.contains_key(entity_type@) && entry.entity_type@
                    == entity_type@ && texts(entry.properties_to_sign@) == self@[entity_type@],
                None => !self@.contains_key(entity_type@),
            },
    {
        let wanted = entity_type.to_string();
        match last_position(&self.entries, &wanted) {
            Some(i) => {
                proof {
                    lemma_found(self.entries@, entity_type@, i as int);
                }
                Some(
                    ConfigEntry {
                        entity_type: wanted,
                        properties_to_sign: copy_names(&self.entries[i].properties_to_sign),
                    },
                )
            },
            None => {
                proof {
                    lemma_absent(self.entries@, entity_type@);
                }
                None
            },
        }
    }
}

/// Takes a configuration submission into the registry.
pub fn config_handler(registry: &mut ConfigRegistry, config: ConfigRequest)
    ensures
        final(registry)@ == old(registry)@.insert(
            config.entity_type@,
            texts(config.properties_to_sign@),
        ),
{
    registry.set(config);
}

} // verus!
