use vstd::prelude::*;
use std::collections::HashMap;

use crate::Error;

verus! {

/// The identifier of a loaded sample.
#[derive(Debug, Clone, Copy, Hash, PartialEq, Eq, Structural)]
pub struct SampleId(u32);

impl SampleId {
    /// The index held.
    pub closed spec fn spec_index(&self) -> u32 {
        self.0
    }

    /// The sample with index `index`.
    pub fn new(index: u32) -> (res: Self)
        ensures
            res.spec_index() == index,
    {
        SampleId(index)
    }

    /// The index held.
    pub fn index(&self) -> (res: u32)
        ensures
            res == self.spec_index(),
    {
        self.0
    }
}

/// The smallest index from `from` on, below `u32::MAX`, that `ids` does not hold.
pub open spec fn free_index_from(ids: Set<u32>, from: int) -> Option<u32>
    decreases u32::MAX - from,
{
    if from < 0 || from >= u32::MAX {
        None
    } else if !ids.contains(from as u32) {
        Some(from as u32)
    } else {
        free_index_from(ids, from + 1)
    }
}

proof fn lemma_free_index_from(ids: Set<u32>, from: int)
    requires
        0 <= from <= u32::MAX,
    ensures
        free_index_from(ids, from) matches Some(k) ==> from <= k < u32::MAX && !ids.contains(k)
            && forall|j: u32| from <= j < k ==> #[trigger] ids.contains(j),
        free_index_from(ids, from) is None ==> forall|j: u32| from <= j < u32::MAX ==> #[trigger] ids.contains(j),
    decreases u32::MAX - from,
{
    if from < u32::MAX && ids.contains(from as u32) {
        lemma_free_index_from(ids, from + 1);
    }
}

/// Where each sample of a song is read from.
#[derive(Debug, Clone)]
pub struct ResourceManager {
    sample_path: HashMap<u32, String>,
}

impl ResourceManager {
    /// The path of each sample, by index.
    pub closed spec fn paths(&self) -> Map<u32, Seq<char>> {
        self.sample_path@.map_values(|p: String| p@)
    }

    /// No samples.
    pub fn new() -> (res: Self)
        ensures
            res.paths() == Map::<u32, Seq<char>>::empty(),
    {
        let res = Self { sample_path: HashMap::new() };
        assert(res.paths() =~= Map::<u32, Seq<char>>::empty());
        res
    }

    /// Registers `path` under the smallest free index below `u32::MAX` and gives
    /// that sample; `Error::Overflow` when none is free.
    pub fn add_sample_path(&mut self, path: String) -> (res: Result<SampleId, Error>)
        ensures
            match free_index_from(old(self).paths().dom(), 0) {
                Some(k) => res is Ok && res->Ok_0.spec_index() == k && final(self).paths() == old(
                    self,
                ).paths().insert(k, path@),
                None => res == Err::<SampleId, Error>(Error::Overflow) && final(self).paths() == old(
                    self,
                ).paths(),
            },
    {
        broadcast use vstd::std_specs::hash::group_hash_axioms;
        proof {
            lemma_free_index_from(self.paths().dom(), 0);
        }
        let mut index: u32 = 0;
        while index < u32::MAX
            invariant
                self.paths() == old(self).paths(),
                self.paths().dom() == self.sample_path@.dom(),
                forall|j: u32| j < index ==> #[trigger] self.paths().dom().contains(j),
                free_index_from(self.paths().dom(), 0) matches Some(k) ==> index <= k && !self.paths().dom().contains(k)
                    && forall|j: u32| j < k ==> #[trigger] self.paths().dom().contains(j),
                free_index_from(self.paths().dom(), 0) is None ==> forall|j: u32|
                    j < u32::MAX ==> #[trigger] self.paths().dom().contains(j),
            decreases u32::MAX - index,
        {
            if !self.sample_path.contains_key(&index) {
                let ghost p = path@;
                self.sample_path.insert(index, path);
                assert(self.paths() =~= old(self).paths().insert(index, p));
                return Ok(SampleId(index));
            }
            index = index + 1;
        }
        Err(Error::Overflow)
    }

    /// Registers `path` under the index of `id`, in place of any path there.
    pub fn set_path(&mut self, id: SampleId, path: String)
        ensures
            final(self).paths() == old(self).paths().insert(id.spec_index(), path@),
    {
        broadcast use vstd::std_specs::hash::group_hash_axioms;
        let ghost p = path@;
        self.sample_path.insert(id.0, path);
        assert(self.paths() =~= old(self).paths().insert(id.spec_index(), p));
    }

    /// The path of the sample `id`, or `Error::Existence`.
    pub fn get_path(&self, id: SampleId) -> (res: Result<String, Error>)
        ensures
            self.paths().contains_key(id.spec_index()) <==> res is Ok,
            res matches Ok(p) ==> p@ == self.paths()[id.spec_index()],
            res matches Err(e) ==> e == Error::Existence,
    {
        broadcast use vstd::std_specs::hash::group_hash_axioms;
        match self.sample_path.get(&id.0) {
            Some(path) => Ok(path.clone()),
            None => Err(Error::Existence),
        }
    }

    /// The number of samples registered.
    pub fn len(&self) -> (res: usize)
        ensures
            res == self.paths().len(),
    {
        broadcast use vstd::std_specs::hash::group_hash_axioms;
        assert(self.paths().dom() =~= self.sample_path@.dom());
        self.sample_path.len()
    }

    /// A copy of the registry.
    pub fn extract(&self) -> (res: Self)
        ensures
            res.paths() == self.paths(),
    {
        Self { sample_path: self.sample_path.clone() }
    }
}

impl Default for ResourceManager {
    fn default() -> (res: Self)
        ensures
            res.paths() == Map::<u32, Seq<char>>::empty(),
    {
        Self::new()
    }
}

} // verus!
