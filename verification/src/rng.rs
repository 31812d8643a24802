//! Train/eval and dropout-seed bookkeeping for a build-once graph. One shared flag Input (1.0
//! in training, 0.0 in eval) makes every dropout the identity in eval, and each dropout's seed
//! Input is refed on every step so the next mask is fresh -- all without rebuilding the graph.
//! This is the decision half: it says which Input gets which value; feeding is the caller's.
use crate::frontend::{dropout_seed, dropout_seed_spec};
use vstd::prelude::*;

verus! {

/// The dropout RNG registry of a context: whether it is training, the step counter, the shared
/// train/eval flag Input (once created) and each dropout's seed Input, in creation order.
pub struct RngReg<N> {
    training: bool,
    counter: u64,
    flag: Option<N>,
    seeds: Vec<N>,
}

impl<N: Copy> RngReg<N> {
    pub closed spec fn training_of(&self) -> bool {
        self.training
    }

    pub closed spec fn counter_of(&self) -> u64 {
        self.counter
    }

    pub closed spec fn flag_of(&self) -> Option<N> {
        self.flag
    }

    pub closed spec fn seeds_of(&self) -> Seq<N> {
        self.seeds@
    }

    /// A fresh registry: training, counter 0, no flag, no seeds.
    pub fn new() -> (r: Self)
        ensures
            r.training_of(),
            r.counter_of() == 0,
            r.flag_of() is None,
            r.seeds_of() == Seq::<N>::empty(),
    {
        RngReg { training: true, counter: 0, flag: None, seeds: Vec::new() }
    }

    /// The shared flag Input, if it has been created.
    pub fn flag(&self) -> (r: Option<N>)
        ensures
            r == self.flag_of(),
    {
        self.flag
    }

    /// Records `node` as the shared flag Input; returns whether it must start fed with 1.0
    /// (training) rather than 0.0 (eval).
    pub fn set_flag(&mut self, node: N) -> (r: bool)
        ensures
            r == old(self).training_of(),
            final(self).flag_of() == Some(node),
            final(self).training_of() == old(self).training_of(),
            final(self).counter_of() == old(self).counter_of(),
            final(self).seeds_of() == old(self).seeds_of(),
    {
        self.flag = Some(node);
        self.training
    }

    /// Registers `node` as the next dropout's seed Input; returns the seed it starts fed with,
    /// its index among the seeds.
    pub fn new_dropout_seed(&mut self, node: N) -> (r: i64)
        requires
            old(self).seeds_of().len() < i64::MAX,
        ensures
            r == old(self).seeds_of().len(),
            final(self).seeds_of() == old(self).seeds_of().push(node),
            final(self).training_of() == old(self).training_of(),
            final(self).counter_of() == old(self).counter_of(),
            final(self).flag_of() == old(self).flag_of(),
    {
        let idx = self.seeds.len() as i64;
        self.seeds.push(node);
        idx
    }

    /// Switches between training and eval; returns the flag Input to refeed and whether it
    /// gets 1.0, if the flag exists.
    pub fn set_training(&mut self, training: bool) -> (r: Option<(N, bool)>)
        ensures
            final(self).training_of() == training,
            r == (match old(self).flag_of() {
                Some(f) => Some((f, training)),
                None => None,
            }),
            final(self).counter_of() == old(self).counter_of(),
            final(self).flag_of() == old(self).flag_of(),
            final(self).seeds_of() == old(self).seeds_of(),
    {
        self.training = training;
        match self.flag {
            Some(f) => Some((f, training)),
            None => None,
        }
    }

    /// Whether the registry is in training mode.
    pub fn is_training(&self) -> (r: bool)
        ensures
            r == self.training_of(),
    {
        self.training
    }

    /// Advances the RNG one step: the counter ticks (wrapping) and every seed Input is refed
    /// with `counter * 1_000_003 + i` (wrapping, as i64), `i` its index.
    pub fn tick_rng(&mut self) -> (r: Vec<(N, i64)>)
        ensures
            final(self).counter_of() == (old(self).counter_of() + 1) % 0x1_0000_0000_0000_0000,
            r@.len() == old(self).seeds_of().len(),
            forall|i: int| 0 <= i < r@.len() ==> #[trigger] r@[i] == (old(self).seeds_of()[i], dropout_seed_spec(final(self).counter_of(), i as u64)),
            final(self).training_of() == old(self).training_of(),
            final(self).flag_of() == old(self).flag_of(),
            final(self).seeds_of() == old(self).seeds_of(),
    {
        self.counter = self.counter.wrapping_add(1);
        let c = self.counter;
        let mut out: Vec<(N, i64)> = Vec::new();
        let mut i: usize = 0;
        while i < self.seeds.len()
            invariant
                i <= self.seeds@.len(),
                out@.len() == i,
                forall|k: int| 0 <= k < i ==> #[trigger] out@[k] == (self.seeds@[k], dropout_seed_spec(c, k as u64)),
            decreases self.seeds@.len() - i,
        {
            out.push((self.seeds[i], dropout_seed(c, i as u64)));
            i = i + 1;
        }
        out
    }
}

} // verus!
