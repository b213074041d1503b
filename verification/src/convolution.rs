//! Integer side of convolution: the FIR delay line and the FFT size of the
//! overlap-add convolver.
use vstd::prelude::*;
use crate::buffer::is_silence;
use vstd::arithmetic::power2::{pow2, lemma_pow2_unfold};

verus! {

/// Index into the storage of the sample pushed `k` pushes ago, for a ring of
/// `n` slots whose next write goes to `w`.
pub open spec fn ring_index(w: int, n: int, k: int) -> int {
    if k < w {
        w - 1 - k
    } else {
        w + n - 1 - k
    }
}

/// The history after pushing `x`: `x` becomes the newest sample and the
/// oldest one falls out.
pub open spec fn push_front<T>(history: Seq<T>, x: T) -> Seq<T> {
    seq![x] + history.drop_last()
}

/// The history after pushing every sample of `xs`, in order.
pub open spec fn push_all<T>(history: Seq<T>, xs: Seq<T>) -> Seq<T>
    decreases xs.len(),
{
    if xs.len() == 0 {
        history
    } else {
        push_front(push_all(history, xs.drop_last()), xs.last())
    }
}

/// Delay line of a direct-form FIR filter: a ring of the most recent input
/// samples, read back by how many pushes ago they came in.
#[derive(Debug)]
pub struct DelayLine<T> {
    state: Vec<T>,
    write: usize,
}

impl<T> View for DelayLine<T> {
    type V = Seq<T>;

    /// The held samples, newest first: `view[k]` was pushed `k` pushes ago.
    closed spec fn view(&self) -> Seq<T> {
        let n = self.state@.len() as int;
        Seq::new(self.state@.len(), |k: int| self.state@[ring_index(self.write as int, n, k)])
    }
}

impl<T> DelayLine<T> {
    /// The ring is never empty and the write position lies inside it.
    #[verifier::type_invariant]
    spec fn wf(&self) -> bool {
        self.write < self.state@.len()
    }
}

impl<T: Copy + Default> DelayLine<T> {
    /// A line of `max(len, 1)` silent samples.
    pub fn new(len: usize) -> (d: Self)
        ensures
            d@.len() == (if len > 1 { len as nat } else { 1 }),
            forall|k: int| 0 <= k < d@.len() ==> is_silence(#[trigger] d@[k]),
    {
        let n: usize = if len > 1 {
            len
        } else {
            1
        };
        let z = T::default();
        let mut state: Vec<T> = Vec::new();
        let mut i: usize = 0;
        while i < n
            invariant
                i <= n,
                state@.len() == i,
                call_ensures(T::default, (), z),
                forall|j: int| 0 <= j < i ==> #[trigger] state@[j] == z,
            decreases n - i,
        {
            state.push(z);
            i += 1;
        }
        DelayLine { state, write: 0 }
    }

    pub fn len(&self) -> (n: usize)
        ensures
            n == self@.len(),
            n > 0,
    {
        proof {
            use_type_invariant(self);
        }
        self.state.len()
    }

    /// Sets every held sample to silence.
    pub fn reset(&mut self)
        ensures
            final(self)@.len() == old(self)@.len(),
            forall|k: int| 0 <= k < old(self)@.len() ==> is_silence(#[trigger] final(self)@[k]),
    {
        proof {
            use_type_invariant(&*self);
        }
        let z = T::default();
        let w = self.write;
        let mut state: Vec<T> = Vec::new();
        state.push(z);
        self.write = 0;
        std::mem::swap(&mut state, &mut self.state);
        let n = state.len();
        let mut i: usize = 0;
        while i < n
            invariant
                i <= n,
                n == state@.len(),
                call_ensures(T::default, (), z),
                forall|j: int| 0 <= j < i ==> #[trigger] state@[j] == z,
            decreases n - i,
        {
            state.set(i, z);
            i += 1;
        }
        std::mem::swap(&mut state, &mut self.state);
        self.write = w;
        assert forall|k: int| 0 <= k < n implies is_silence(#[trigger] self@[k]) by {
            assert(self@[k] == self.state@[ring_index(self.write as int, n as int, k)]);
        }
    }

    /// Makes `x` the newest sample; the oldest one is dropped.
    pub fn push(&mut self, x: T)
        ensures
            final(self)@ == push_front(old(self)@, x),
            final(self)@.len() == old(self)@.len(),
            final(self)@[0] == x,
            forall|k: int| 1 <= k < old(self)@.len() ==> #[trigger] final(self)@[k] == old(self)@[k - 1],
    {
        proof {
            use_type_invariant(&*self);
        }
        let n = self.state.len();
        let ghost old_view = self@;
        let w = self.write;
        // The storage is moved out while it is written, so that the
        // invariant holds at every step.
        let mut state: Vec<T> = Vec::new();
        state.push(x);
        self.write = 0;
        std::mem::swap(&mut state, &mut self.state);
        state.set(w, x);
        std::mem::swap(&mut state, &mut self.state);
        self.write = if w + 1 == n {
            0
        } else {
            w + 1
        };
        assert(self@ =~= push_front(old_view, x));
    }

    /// The sample pushed `k` pushes ago (`k == 0` is the newest).
    pub fn delayed(&self, k: usize) -> (x: T)
        requires
            k < self@.len(),
        ensures
            x == self@[k as int],
    {
        proof {
            use_type_invariant(self);
        }
        let n = self.state.len();
        let i = if k < self.write {
            self.write - 1 - k
        } else {
            n - 1 - k + self.write
        };
        self.state[i]
    }
}

impl<T: Copy> Clone for DelayLine<T> {
    /// An independent line holding the same samples.
    fn clone(&self) -> (c: Self)
        ensures
            c@ == self@,
    {
        proof {
            use_type_invariant(self);
        }
        let n = self.state.len();
        let mut state: Vec<T> = Vec::new();
        let mut i: usize = 0;
        while i < n
            invariant
                i <= n,
                n == self.state@.len(),
                state@ == self.state@.take(i as int),
            decreases n - i,
        {
            state.push(self.state[i]);
            assert(self.state@.take(i + 1) =~= self.state@.take(i as int).push(self.state@[i as int]));
            i += 1;
        }
        assert(self.state@.take(n as int) =~= self.state@);
        DelayLine { state, write: self.write }
    }
}

/// What a delay line reads back after a run of pushes: the sample pushed `k`
/// pushes ago is the `k`-th newest input, and beyond the inputs the older
/// content shows through.
pub proof fn lemma_push_all<T>(history: Seq<T>, xs: Seq<T>)
    requires
        history.len() > 0,
    ensures
        push_all(history, xs).len() == history.len(),
        forall|k: int|
            0 <= k < history.len() ==> #[trigger] push_all(history, xs)[k] == (if k < xs.len() {
                xs[xs.len() - 1 - k]
            } else {
                history[k - xs.len()]
            }),
    decreases xs.len(),
{
    if xs.len() > 0 {
        let rest = xs.drop_last();
        lemma_push_all(history, rest);
        let h = push_all(history, rest);
        assert forall|k: int| 0 <= k < history.len() implies #[trigger] push_all(history, xs)[k] == (
        if k < xs.len() {
            xs[xs.len() - 1 - k]
        } else {
            history[k - xs.len()]
        }) by {
            if k > 0 {
                assert(push_all(history, xs)[k] == h[k - 1]);
            }
        }
    }
}

/// `p` is a power of two.
pub open spec fn is_power_of_two(p: nat) -> bool
    decreases p,
{
    if p == 1 {
        true
    } else if p < 2 || p % 2 != 0 {
        false
    } else {
        is_power_of_two(p / 2)
    }
}

/// FFT length of an overlap-add convolver with blocks of `block` samples:
/// the smallest power of two that holds two blocks.
pub fn fft_len_for_block(block: usize) -> (len: usize)
    requires
        0 < block <= usize::MAX / 4 + 1,
    ensures
        is_power_of_two(len as nat),
        exists|e: nat| len == pow2(e),
        2 * block <= len < 4 * block,
{
    let target = 2 * block;
    let mut p: usize = 1;
    let ghost mut e: nat = 0;
    proof {
        reveal(vstd::arithmetic::power::pow);
        assert(pow2(0) == 1);
    }
    while p < target
        invariant
            target == 2 * block,
            0 < block <= usize::MAX / 4 + 1,
            is_power_of_two(p as nat),
            p == pow2(e),
            1 <= p,
            p < 2 * target,
        decreases 2 * target - p,
    {
        assert((2 * p) as nat / 2 == p as nat);
        proof {
            lemma_pow2_unfold(e + 1);
            e = e + 1;
        }
        p = p * 2;
    }
    p
}

} // verus!
