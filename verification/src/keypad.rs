//! The 16-key keypad tracker.
//!
//! Each update replaces the pressed/not-pressed vector with the current
//! pressed-key set and records a one-shot release edge: whether some key
//! went from pressed to not pressed, and which one. The scan walks keys
//! 0 through 14 in order and keeps the last release it finds, so the
//! highest-index released key among those wins; the final key is never
//! scanned, which mirrors the emulated machine exactly.

use vstd::prelude::*;

verus! {

/// Whether some of the first `n` entries of the pressed-key set is `k`.
pub open spec fn key_in_prefix(idx: Seq<usize>, n: int, k: int) -> bool {
    exists|t: int| 0 <= t < n && idx[t] == k
}

/// Whether the pressed-key set holds key `k`.
pub open spec fn key_in(idx: Seq<usize>, k: int) -> bool {
    key_in_prefix(idx, idx.len() as int, k)
}

/// The pressed/not-pressed vector built from a pressed-key set.
pub open spec fn keys_of(idx: Seq<usize>) -> Seq<bool> {
    Seq::new(16, |k: int| key_in(idx, k))
}

/// Whether key `k` transitions from pressed to not pressed between two
/// consecutive key states.
pub open spec fn released(old_keys: Seq<bool>, new_keys: Seq<bool>, k: int) -> bool {
    old_keys[k] && !new_keys[k]
}

/// The 16-key state with the most recent release edge.
pub struct Keypad {
    pub state: Vec<bool>,
    pub last_released: usize,
    pub just_released: bool,
}

impl Keypad {
    /// One flag per key, and the recorded release index stays in range.
    pub open spec fn wf(&self) -> bool {
        self.state.len() == 16 && self.last_released < 16
    }

    pub fn new() -> (k: Keypad)
        ensures
            k.wf(),
            k.state@ == Seq::new(16, |i: int| false),
            k.last_released == 0,
            !k.just_released,
    {
        let mut state: Vec<bool> = Vec::new();
        let mut i: usize = 0;
        while i < 16
            invariant
                i <= 16,
                state.len() == i,
                forall|j: int| 0 <= j < i ==> !state@[j],
            decreases 16 - i,
        {
            state.push(false);
            i += 1;
        }
        assert(state@ =~= Seq::new(16, |i: int| false));
        Keypad { state, last_released: 0, just_released: false }
    }

    /// Replaces the key state with the given pressed-key set. Before the
    /// replacement, keys 0 through 14 are scanned in order for a
    /// pressed-to-released transition; the last one found becomes the
    /// one-shot release edge.
    pub fn set_state(&mut self, idx: Vec<usize>)
        requires
            old(self).wf(),
            forall|t: int| 0 <= t < idx@.len() ==> idx@[t] < 16,
        ensures
            final(self).wf(),
            final(self).state@ == keys_of(idx@),
            final(self).just_released == exists|k: int|
                0 <= k < 15 && released(old(self).state@, keys_of(idx@), k),
            final(self).just_released ==> released(
                old(self).state@,
                keys_of(idx@),
                final(self).last_released as int,
            ) && final(self).last_released < 15 && forall|k: int|
                final(self).last_released < k < 15 ==> !released(
                    old(self).state@,
                    keys_of(idx@),
                    k,
                ),
            !final(self).just_released ==> final(self).last_released == old(self).last_released,
    {
        let mut new_state: Vec<bool> = Vec::new();
        let mut i: usize = 0;
        while i < 16
            invariant
                i <= 16,
                new_state.len() == i,
                forall|j: int| 0 <= j < i ==> !new_state@[j],
            decreases 16 - i,
        {
            new_state.push(false);
            i += 1;
        }
        let mut t: usize = 0;
        while t < idx.len()
            invariant
                t <= idx.len(),
                new_state.len() == 16,
                forall|u: int| 0 <= u < idx@.len() ==> idx@[u] < 16,
                forall|j: int| 0 <= j < 16 ==> new_state@[j] == key_in_prefix(idx@, t as int, j),
            decreases idx.len() - t,
        {
            let id = idx[t];
            let ghost prev = new_state@;
            new_state.set(id, true);
            proof {
                assert forall|j: int| 0 <= j < 16 implies new_state@[j] == key_in_prefix(
                    idx@,
                    t as int + 1,
                    j,
                ) by {
                    if j == id {
                        assert(idx@[t as int] == id);
                        assert(key_in_prefix(idx@, t as int + 1, j));
                    } else {
                        assert(new_state@[j] == prev[j]);
                        if key_in_prefix(idx@, t as int + 1, j) {
                            let u = choose|u: int| 0 <= u < t as int + 1 && idx@[u] == j;
                            assert(u < t as int);
                            assert(key_in_prefix(idx@, t as int, j));
                        }
                        if key_in_prefix(idx@, t as int, j) {
                            let u = choose|u: int| 0 <= u < t as int && idx@[u] == j;
                            assert(0 <= u < t as int + 1 && idx@[u] == j);
                        }
                    }
                }
            }
            t += 1;
        }
        assert(new_state@ =~= keys_of(idx@));

        // scan for a release edge before the old state is replaced
        self.just_released = false;
        let mut k: usize = 0;
        while k < 15
            invariant
                k <= 15,
                self.wf(),
                new_state.len() == 16,
                new_state@ == keys_of(idx@),
                self.state@ == old(self).state@,
                self.just_released == exists|j: int|
                    0 <= j < k && released(old(self).state@, new_state@, j),
                self.just_released ==> released(
                    old(self).state@,
                    new_state@,
                    self.last_released as int,
                ) && self.last_released < k && forall|j: int|
                    self.last_released < j < k ==> !released(old(self).state@, new_state@, j),
                !self.just_released ==> self.last_released == old(self).last_released,
            decreases 15 - k,
        {
            if self.state[k] && !new_state[k] {
                self.last_released = k;
                self.just_released = true;
                assert(released(old(self).state@, new_state@, k as int));
            } else {
                assert(!released(old(self).state@, new_state@, k as int));
            }
            k += 1;
        }
        self.state = new_state;
    }
}

} // verus!
