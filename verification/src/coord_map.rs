//! A sparse directory from chunk coordinates to values.

use std::collections::hash_map::Entry;
use std::collections::HashMap;
use vstd::prelude::*;

verus! {

broadcast use vstd::std_specs::hash::group_hash_axioms;

/// The key under which a pair of chunk coordinates is kept: the two
/// coordinates, each shifted to be non-negative, side by side in one
/// number.
pub open spec fn coord_key(x: i32, z: i32) -> u64 {
    ((x as int + 0x8000_0000) * 0x1_0000_0000 + (z as int + 0x8000_0000)) as u64
}

/// A map from chunk coordinates (x, z) to values.
#[derive(Debug, Clone)]
pub struct CoordMap<T> {
    entries: HashMap<u64, T>,
}

impl<T> View for CoordMap<T> {
    type V = Map<(i32, i32), T>;

    closed spec fn view(&self) -> Map<(i32, i32), T> {
        Map::new(
            |at: (i32, i32)| self.entries@.contains_key(coord_key(at.0, at.1)),
            |at: (i32, i32)| self.entries@[coord_key(at.0, at.1)],
        )
    }
}

/// Computes the key of a pair of chunk coordinates.
fn key_of(x: i32, z: i32) -> (key: u64)
    ensures
        key == coord_key(x, z),
{
    let high: u64 = (x as i64 + 0x8000_0000) as u64;
    let low: u64 = (z as i64 + 0x8000_0000) as u64;
    high * 0x1_0000_0000 + low
}

/// Different coordinates have different keys.
pub proof fn lemma_coord_key_injective(x: i32, z: i32, other_x: i32, other_z: i32)
    ensures
        coord_key(x, z) == coord_key(other_x, other_z) ==> x == other_x && z == other_z,
{
}

impl<T> CoordMap<T> {
    /// A map without entries.
    pub fn new() -> (map: CoordMap<T>)
        ensures
            map@ == Map::<(i32, i32), T>::empty(),
    {
        let map = CoordMap { entries: HashMap::new() };
        assert(map@ =~= Map::<(i32, i32), T>::empty());
        map
    }

    /// Whether there is a value at (x, z).
    pub fn contains(&self, x: i32, z: i32) -> (found: bool)
        ensures
            found == self@.contains_key((x, z)),
    {
        self.entries.contains_key(&key_of(x, z))
    }

    /// The value at (x, z), if there is one.
    pub fn get(&self, x: i32, z: i32) -> (result: Option<&T>)
        ensures
            match result {
                Some(value) => self@.contains_key((x, z)) && *value == self@[(x, z)],
                None => !self@.contains_key((x, z)),
            },
    {
        self.entries.get(&key_of(x, z))
    }

    /// The value at (x, z), if there is one, for changing it in place.
    pub fn get_mut(&mut self, x: i32, z: i32) -> (result: Option<&mut T>)
        ensures
            match result {
                Some(value) => old(self)@.contains_key((x, z)) && *value == old(self)@[(x, z)]
                    && final(self)@ == old(self)@.insert((x, z), *final(value)),
                None => !old(self)@.contains_key((x, z)) && final(self)@ == old(self)@,
            },
    {
        match self.entries.entry(key_of(x, z)) {
            Entry::Occupied(entry) => Some(entry.into_mut()),
            Entry::Vacant(_) => None,
        }
    }

    /// Puts a value at (x, z), in place of the value that was there, if
    /// any, and hands that one back.
    pub fn insert(&mut self, x: i32, z: i32, value: T) -> (replaced: Option<T>)
        ensures
            final(self)@ == old(self)@.insert((x, z), value),
            match replaced {
                Some(before) => old(self)@.contains_key((x, z)) && before == old(self)@[(x, z)],
                None => !old(self)@.contains_key((x, z)),
            },
    {
        let replaced = self.entries.insert(key_of(x, z), value);
        proof {
            assert forall|at: (i32, i32)| at != (x, z) implies coord_key(at.0, at.1) != coord_key(
                x,
                z,
            ) by {
                lemma_coord_key_injective(at.0, at.1, x, z);
            }
            assert(self@ =~= old(self)@.insert((x, z), value));
        }
        replaced
    }
}

} // verus!
