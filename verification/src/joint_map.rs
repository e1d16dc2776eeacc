//! Bidirectional joint name/index map.
//!
//! A thin shell around `bimap::BiHashMap`, keyed by joint name on the left
//! and 16-bit joint index on the right, hashed with [`DeterministicState`]
//! so the layout is reproducible across runs and platforms. The map's
//! abstract contents are the name-to-index associations; the right-to-left
//! direction is the inverse of that (injective) association.

use vstd::prelude::*;
use crate::base::DeterministicState;

verus! {

/// Declares `bimap::BiHashMap` so it can be held in a field; its behaviour
/// enters only through the trusted methods of [`JointHashMap`].
#[verifier::external_type_specification]
#[verifier::external_body]
#[verifier::reject_recursive_types(L)]
#[verifier::reject_recursive_types(R)]
#[verifier::reject_recursive_types(LS)]
#[verifier::reject_recursive_types(RS)]
pub struct ExBiHashMap<L, R, LS, RS>(bimap::BiHashMap<L, R, LS, RS>);

/// What `BiHashMap::insert` does to the name-to-index associations: the
/// inserted pair overwrites any pair with the same name and any pair with
/// the same index.
pub open spec fn bimap_insert(pairs: Map<Seq<char>, i16>, name: Seq<char>, idx: i16) -> Map<
    Seq<char>,
    i16,
> {
    pairs.remove_keys(pairs.dom().filter(|k: Seq<char>| pairs[k] == idx)).insert(name, idx)
}

/// No two names map to the same index.
pub open spec fn index_injective(pairs: Map<Seq<char>, i16>) -> bool {
    forall|k1: Seq<char>, k2: Seq<char>|
        pairs.contains_key(k1) && pairs.contains_key(k2) && pairs[k1] == pairs[k2] ==> k1 == k2
}

/// Bidirectional, unique mapping between joint names and joint indices.
pub struct JointHashMap {
    inner: bimap::BiHashMap<String, i16, DeterministicState, DeterministicState>,
    pairs: Ghost<Map<Seq<char>, i16>>,
}

impl View for JointHashMap {
    type V = Map<Seq<char>, i16>;

    closed spec fn view(&self) -> Map<Seq<char>, i16> {
        self.pairs@
    }
}

impl JointHashMap {
    /// Relies on `BiHashMap::with_capacity_and_hashers`: the new map is
    /// empty.
    #[verifier::external_body]
    pub fn with_capacity(capacity: usize) -> (res: JointHashMap)
        ensures
            res@ == (Map::<Seq<char>, i16>::empty()),
    {
        JointHashMap {
            inner: bimap::BiHashMap::with_capacity_and_hashers(
                capacity,
                DeterministicState::new(),
                DeterministicState::new(),
            ),
            pairs: Ghost(Map::empty()),
        }
    }

    /// Relies on `BiHashMap::insert`: removes the pair with this name and
    /// the pair with this index, if present, then inserts the new pair.
    #[verifier::external_body]
    pub fn insert(&mut self, name: String, idx: i16)
        ensures
            final(self)@ == bimap_insert(old(self)@, name@, idx),
    {
        self.inner.insert(name, idx);
    }

    /// Relies on `BiHashMap::get_by_left`: returns the index associated
    /// with the name, if any.
    #[verifier::external_body]
    pub fn get_by_left(&self, name: &str) -> (res: Option<i16>)
        ensures
            res == (if self@.contains_key(name@) {
                Some(self@[name@])
            } else {
                None::<i16>
            }),
    {
        self.inner.get_by_left(name).copied()
    }

    /// Relies on `BiHashMap::get_by_right`: returns the name associated
    /// with the index, if any.
    #[verifier::external_body]
    pub fn get_by_right(&self, idx: i16) -> (res: Option<&String>)
        ensures
            (res matches Some(name) ==> self@.contains_key(name@) && self@[name@] == idx),
            (res is None ==> forall|k: Seq<char>| self@.contains_key(k) ==> self@[k] != idx),
    {
        self.inner.get_by_right(&idx)
    }

    /// Relies on `BiHashMap::len`: the number of pairs in the map.
    #[verifier::external_body]
    pub fn len(&self) -> (res: usize)
        ensures
            self@.dom().finite() ==> res == self@.dom().len(),
    {
        self.inner.len()
    }
}

impl Default for JointHashMap {
    /// An empty map.
    fn default() -> (res: JointHashMap)
        ensures
            res@ == (Map::<Seq<char>, i16>::empty()),
    {
        JointHashMap::with_capacity(0)
    }
}

/// Inserting preserves injectivity of the name-to-index association.
pub proof fn lemma_bimap_insert_preserves_injective(
    pairs: Map<Seq<char>, i16>,
    name: Seq<char>,
    idx: i16,
)
    requires
        index_injective(pairs),
    ensures
        index_injective(bimap_insert(pairs, name, idx)),
{
}

/// Inserting keeps the domain finite.
pub proof fn lemma_bimap_insert_preserves_finite(
    pairs: Map<Seq<char>, i16>,
    name: Seq<char>,
    idx: i16,
)
    requires
        pairs.dom().finite(),
    ensures
        bimap_insert(pairs, name, idx).dom().finite(),
{
    let removed = pairs.dom().filter(|k: Seq<char>| pairs[k] == idx);
    assert(pairs.remove_keys(removed).dom() =~= pairs.dom().difference(removed));
    vstd::set::axiom_set_difference_finite(pairs.dom(), removed);
    vstd::set::axiom_set_insert_finite(pairs.dom().difference(removed), name);
    assert(bimap_insert(pairs, name, idx).dom() =~= pairs.dom().difference(removed).insert(name));
}

} // verus!
