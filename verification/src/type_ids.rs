//! The registry of well-known library types that the decoder treats
//! specially, keyed by the identity of their definition.

use std::collections::HashMap;
use vstd::prelude::*;

verus! {

/// The map that results from registering `entries` one after the other, a
/// later entry replacing an earlier one for the same definition.
pub open spec fn registry_of(entries: Seq<(u64, String)>) -> Map<u64, Seq<char>>
    decreases entries.len(),
{
    if entries.len() == 0 {
        Map::empty()
    } else {
        registry_of(entries.drop_last()).insert(entries.last().0, entries.last().1@)
    }
}

/// The path under which growable sequences are registered.
pub open spec fn growable_sequence_path() -> Seq<char> {
    "std::vec::Vec"@
}

/// The well-known types of the traced program: for the identity of each
/// definition the path by which the standard library names it.
pub struct TypeDefIds {
    paths: HashMap<u64, String>,
}

impl View for TypeDefIds {
    type V = Map<u64, Seq<char>>;

    closed spec fn view(&self) -> Map<u64, Seq<char>> {
        self.paths@.map_values(|path: String| path@)
    }
}

impl TypeDefIds {
    /// The paths of the types that the decoder treats specially. Whoever
    /// sets the registry up finds the definition behind each of them.
    pub fn well_known_paths() -> (paths: Vec<String>)
        ensures
            paths@.len() == 1,
            paths@[0]@ == growable_sequence_path(),
    {
        let mut paths: Vec<String> = Vec::new();
        paths.push(String::from_str("std::vec::Vec"));
        paths
    }

    /// Registers each definition under its path.
    pub fn new(resolved: Vec<(u64, String)>) -> (ids: TypeDefIds)
        ensures
            ids@ == registry_of(resolved@),
    {
        let mut paths: HashMap<u64, String> = HashMap::new();
        let mut i: usize = 0;
        proof {
            assert(resolved@.subrange(0, 0) =~= Seq::<(u64, String)>::empty());
            assert(paths@.map_values(|path: String| path@) =~= Map::<u64, Seq<char>>::empty());
        }
        while i < resolved.len()
            invariant
                i <= resolved.len(),
                paths@.map_values(|path: String| path@) == registry_of(
                    resolved@.subrange(0, i as int),
                ),
            decreases resolved.len() - i,
        {
            let ghost before = paths@;
            let def_id = resolved[i].0;
            let path = resolved[i].1.clone();
            paths.insert(def_id, path);
            proof {
                let upto = resolved@.subrange(0, i + 1);
                assert(upto.drop_last() =~= resolved@.subrange(0, i as int));
                assert(upto.last() == resolved@[i as int]);
                assert(paths@.map_values(|path: String| path@) =~= before.map_values(
                    |path: String| path@,
                ).insert(def_id, path@));
            }
            i = i + 1;
        }
        proof {
            assert(resolved@.subrange(0, resolved.len() as int) =~= resolved@);
        }
        TypeDefIds { paths }
    }

    /// The path under which a definition is registered, if it is.
    pub fn get_path(&self, def_id: u64) -> (path: Option<&String>)
        ensures
            match path {
                Some(p) => self@.contains_key(def_id) && self@[def_id] == p@,
                None => !self@.contains_key(def_id),
            },
    {
        self.paths.get(&def_id)
    }

    /// Whether `path` is the one under which growable sequences are registered.
    pub fn is_growable_sequence(path: &String) -> (yes: bool)
        ensures
            yes == (path@ == growable_sequence_path()),
    {
        let known = String::from_str("std::vec::Vec");
        *path == known
    }
}

} // verus!
