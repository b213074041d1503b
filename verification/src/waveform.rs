//! Data side of the waveform displays: a scrolling history of the most
//! recent samples, and the split of a sample run into display columns.
use vstd::prelude::*;
use vstd::arithmetic::div_mod::{
    lemma_div_is_ordered, lemma_div_multiples_vanish, lemma_fundamental_div_mod, lemma_mod_bound,
};
use vstd::arithmetic::mul::lemma_mul_inequality;
use crate::buffer::is_silence;

verus! {

/// The history after appending `samples` to `history` while keeping its
/// length: the last `history.len()` values of `history + samples`.
pub open spec fn scroll<T>(history: Seq<T>, samples: Seq<T>) -> Seq<T> {
    (history + samples).skip(samples.len() as int)
}

/// Ring buffer holding the most recent `capacity` samples. The audio side
/// pushes, the display side takes snapshots, oldest sample first.
pub struct ScrollingBuffer<T> {
    data: Vec<T>,
    write: usize,
}

impl<T> View for ScrollingBuffer<T> {
    type V = Seq<T>;

    /// The held samples, oldest first.
    closed spec fn view(&self) -> Seq<T> {
        self.data@.subrange(self.write as int, self.data@.len() as int) + self.data@.subrange(
            0,
            self.write as int,
        )
    }
}

impl<T> ScrollingBuffer<T> {
    /// The write position lies inside the storage (or is 0 when there is none).
    #[verifier::type_invariant]
    spec fn wf(&self) -> bool {
        if self.data@.len() == 0 {
            self.write == 0
        } else {
            self.write < self.data@.len()
        }
    }
}

impl<T: Copy + Default> ScrollingBuffer<T> {
    /// A buffer of `capacity` silent samples.
    pub fn new(capacity: usize) -> (b: Self)
        ensures
            b@.len() == capacity,
            forall|i: int| 0 <= i < capacity ==> is_silence(#[trigger] b@[i]),
    {
        let z = T::default();
        let mut data: Vec<T> = Vec::new();
        let mut i: usize = 0;
        while i < capacity
            invariant
                i <= capacity,
                data@.len() == i,
                call_ensures(T::default, (), z),
                forall|j: int| 0 <= j < i ==> #[trigger] data@[j] == z,
            decreases capacity - i,
        {
            data.push(z);
            i += 1;
        }
        let b = ScrollingBuffer { data, write: 0 };
        assert(b@ =~= data@);
        b
    }

    /// Appends `sample`, dropping the oldest one; nothing is held (and
    /// nothing changes) when the capacity is 0.
    pub fn push(&mut self, sample: T)
        ensures
            final(self)@ == scroll(old(self)@, seq![sample]),
            final(self)@.len() == old(self)@.len(),
            old(self)@.len() > 0 ==> final(self)@[old(self)@.len() - 1] == sample,
            forall|i: int|
                0 <= i < old(self)@.len() - 1 ==> #[trigger] final(self)@[i] == old(self)@[i + 1],
    {
        proof {
            use_type_invariant(&*self);
            lemma_scroll_layout(self@, seq![sample]);
        }
        let n = self.data.len();
        if n == 0 {
            assert(scroll(self@, seq![sample]) =~= self@);
            return;
        }
        let ghost d = self.data@;
        let w = self.write;
        // The storage is moved out while it is written, so that the
        // invariant holds at every step.
        let mut data: Vec<T> = Vec::new();
        self.write = 0;
        std::mem::swap(&mut data, &mut self.data);
        data.set(w, sample);
        std::mem::swap(&mut data, &mut self.data);
        self.write = if w + 1 == n {
            0
        } else {
            w + 1
        };
        proof {
            let v = d.subrange(w as int, n as int) + d.subrange(0, w as int);
            assert(scroll(v, seq![sample]) =~= v.drop_first().push(sample));
            assert(self@ =~= v.drop_first().push(sample));
        }
    }

    /// Pushes every sample of `samples`, in order.
    pub fn extend(&mut self, samples: &[T])
        ensures
            final(self)@ == scroll(old(self)@, samples@),
            final(self)@.len() == old(self)@.len(),
            forall|i: int|
                0 <= i < old(self)@.len() ==> #[trigger] final(self)@[i] == (if i + samples@.len()
                    < old(self)@.len() {
                    old(self)@[i + samples@.len()]
                } else {
                    samples@[i + samples@.len() - old(self)@.len()]
                }),
    {
        proof {
            lemma_scroll_layout(self@, samples@);
        }
        let n = samples.len();
        let mut i: usize = 0;
        assert(scroll(self@, samples@.take(0)) =~= self@);
        while i < n
            invariant
                i <= n,
                n == samples@.len(),
                self@ == scroll(old(self)@, samples@.take(i as int)),
            decreases n - i,
        {
            self.push(samples[i]);
            proof {
                lemma_scroll_concat(old(self)@, samples@.take(i as int), seq![samples@[i as int]]);
                assert(samples@.take(i as int) + seq![samples@[i as int]] =~= samples@.take(i + 1));
            }
            i += 1;
        }
        assert(samples@.take(n as int) =~= samples@);
    }

    /// The held samples, oldest first.
    pub fn snapshot(&self) -> (out: Vec<T>)
        ensures
            out@ == self@,
    {
        proof {
            use_type_invariant(self);
        }
        let n = self.data.len();
        let mut out: Vec<T> = Vec::new();
        let mut i: usize = self.write;
        while i < n
            invariant
                self.write <= i <= n,
                n == self.data@.len(),
                out@ == self.data@.subrange(self.write as int, i as int),
            decreases n - i,
        {
            out.push(self.data[i]);
            assert(self.data@.subrange(self.write as int, i + 1) =~= self.data@.subrange(
                self.write as int,
                i as int,
            ).push(self.data@[i as int]));
            i += 1;
        }
        let mut j: usize = 0;
        while j < self.write
            invariant
                j <= self.write <= n,
                n == self.data@.len(),
                out@ == self.data@.subrange(self.write as int, n as int) + self.data@.subrange(0, j as int),
            decreases self.write - j,
        {
            out.push(self.data[j]);
            assert(self.data@.subrange(0, j + 1) =~= self.data@.subrange(0, j as int).push(
                self.data@[j as int],
            ));
            j += 1;
        }
        out
    }
}

/// What a scrolled history holds: it keeps its length, and position `i`
/// holds the sample `samples.len()` places later in the old history, or,
/// past its end, the matching appended sample.
pub proof fn lemma_scroll_layout<T>(history: Seq<T>, samples: Seq<T>)
    ensures
        scroll(history, samples).len() == history.len(),
        forall|i: int|
            0 <= i < history.len() ==> #[trigger] scroll(history, samples)[i] == (if i + samples.len()
                < history.len() {
                history[i + samples.len()]
            } else {
                samples[i + samples.len() - history.len()]
            }),
{
}

/// Scrolling is additive: appending `a` and then `b` holds the same samples
/// as appending `a + b` at once.
pub proof fn lemma_scroll_concat<T>(history: Seq<T>, a: Seq<T>, b: Seq<T>)
    ensures
        scroll(scroll(history, a), b) == scroll(history, a + b),
{
    assert(scroll(scroll(history, a), b) =~= scroll(history, a + b));
}

/// Scrolling keeps the length of the history, and after at least as many
/// samples as it holds, the history is exactly the latest samples.
pub proof fn lemma_scroll_keeps_latest<T>(history: Seq<T>, samples: Seq<T>)
    ensures
        scroll(history, samples).len() == history.len(),
        samples.len() >= history.len() ==> scroll(history, samples) == samples.skip(
            samples.len() - history.len(),
        ),
{
    if samples.len() >= history.len() {
        assert(scroll(history, samples) =~= samples.skip(samples.len() - history.len()));
    }
}

/// First sample of display column `col` of `cols` over `len` samples.
pub open spec fn column_start(col: int, cols: int, len: int) -> int {
    col * len / (if cols > 1 { cols } else { 1 })
}

/// One past the last sample of display column `col`, at most `len`.
pub open spec fn column_end(col: int, cols: int, len: int) -> int {
    let e = (col + 1) * len / (if cols > 1 { cols } else { 1 });
    if e < len {
        e
    } else {
        len
    }
}

/// The run of samples `[start, end)` that display column `col` of `cols`
/// condenses, for `len` samples in all.
pub fn column_span(col: usize, cols: usize, len: usize) -> (span: (usize, usize))
    requires
        col < usize::MAX,
        (col + 1) * len <= usize::MAX,
    ensures
        span.0 == column_start(col as int, cols as int, len as int),
        span.1 == column_end(col as int, cols as int, len as int),
        span.0 * (if cols > 1 { cols as int } else { 1 }) <= col * len < (span.0 + 1) * (if cols > 1 {
            cols as int
        } else {
            1
        }),
        (col + 1) * len >= len * (if cols > 1 { cols as int } else { 1 }) ==> span.1 == len,
        (col + 1) * len < len * (if cols > 1 { cols as int } else { 1 }) ==> span.1 * (if cols > 1 {
            cols as int
        } else {
            1
        }) <= (col + 1) * len < (span.1 + 1) * (if cols > 1 { cols as int } else { 1 }),
{
    proof {
        lemma_column_span_floor(col as int, cols as int, len as int);
    }
    let d: usize = if cols > 1 {
        cols
    } else {
        1
    };
    assert(col * len <= (col + 1) * len) by (nonlinear_arith);
    let start = col * len / d;
    let e = (col + 1) * len / d;
    let end = if e < len {
        e
    } else {
        len
    };
    (start, end)
}

/// `q` is the floor of `x / d`: `q * d <= x < (q + 1) * d`.
proof fn lemma_floor_div(x: int, d: int)
    requires
        0 <= x,
        0 < d,
    ensures
        (x / d) * d <= x < (x / d + 1) * d,
{
    lemma_fundamental_div_mod(x, d);
    lemma_mod_bound(x, d);
    assert(d * (x / d) == (x / d) * d) by (nonlinear_arith);
    assert((x / d + 1) * d == (x / d) * d + d) by (nonlinear_arith);
}

/// Column `col` of `cols` over `len` samples starts at the floor of
/// `col * len / cols` and ends at the floor of `(col + 1) * len / cols`,
/// capped at `len` (a column count of 0 counts as 1): stated as the
/// inequalities that pin each floor down.
pub proof fn lemma_column_span_floor(col: int, cols: int, len: int)
    requires
        col >= 0,
        len >= 0,
    ensures
        column_start(col, cols, len) * (if cols > 1 { cols } else { 1 }) <= col * len < (column_start(
            col,
            cols,
            len,
        ) + 1) * (if cols > 1 { cols } else { 1 }),
        (col + 1) * len >= len * (if cols > 1 { cols } else { 1 }) ==> column_end(col, cols, len) == len,
        (col + 1) * len < len * (if cols > 1 { cols } else { 1 }) ==> column_end(col, cols, len) * (if cols
            > 1 {
            cols
        } else {
            1
        }) <= (col + 1) * len < (column_end(col, cols, len) + 1) * (if cols > 1 { cols } else { 1 }),
{
    let d = if cols > 1 { cols } else { 1 };
    assert(0 <= col * len) by (nonlinear_arith) requires col >= 0, len >= 0;
    assert(0 <= (col + 1) * len) by (nonlinear_arith) requires col >= 0, len >= 0;
    lemma_floor_div(col * len, d);
    lemma_floor_div((col + 1) * len, d);
    let e = (col + 1) * len / d;
    if (col + 1) * len >= len * d {
        assert(e >= len) by (nonlinear_arith)
            requires (e + 1) * d > (col + 1) * len, (col + 1) * len >= len * d, d > 0;
    } else {
        assert(e < len) by (nonlinear_arith)
            requires e * d <= (col + 1) * len, (col + 1) * len < len * d, d > 0;
    }
}

/// The columns tile the samples: column 0 starts at 0, each column ends
/// where the next one starts, no column is reversed, and the last column
/// ends at `len`.
pub proof fn lemma_columns_tile(cols: int, len: int)
    requires
        cols > 0,
        len >= 0,
    ensures
        column_start(0, cols, len) == 0,
        column_end(cols - 1, cols, len) == len,
        forall|col: int|
            0 <= col < cols ==> column_start(col, cols, len) <= #[trigger] column_end(col, cols, len),
        forall|col: int|
            0 <= col < cols - 1 ==> #[trigger] column_end(col, cols, len) == column_start(
                col + 1,
                cols,
                len,
            ),
{
    assert(0 * len == 0);
    assert(column_end(cols - 1, cols, len) == len) by {
        lemma_div_multiples_vanish(len, cols);
        assert(cols * len == len * cols) by (nonlinear_arith);
        assert((cols - 1 + 1) * len == cols * len);
    }
    assert forall|col: int| 0 <= col < cols implies column_start(col, cols, len) <= #[trigger] column_end(
        col,
        cols,
        len,
    ) by {
        lemma_mul_inequality(col, col + 1, len);
        lemma_div_is_ordered(col * len, (col + 1) * len, cols);
        lemma_mul_inequality(col, cols, len);
        lemma_div_is_ordered(col * len, cols * len, cols);
        lemma_div_multiples_vanish(len, cols);
        assert(cols * len == len * cols) by (nonlinear_arith);
    }
    assert forall|col: int| 0 <= col < cols - 1 implies #[trigger] column_end(col, cols, len) == column_start(
        col + 1,
        cols,
        len,
    ) by {
        lemma_mul_inequality(col + 1, cols, len);
        lemma_div_is_ordered((col + 1) * len, cols * len, cols);
        lemma_div_multiples_vanish(len, cols);
        assert(cols * len == len * cols) by (nonlinear_arith);
    }
}

} // verus!
