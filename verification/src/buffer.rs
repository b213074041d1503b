//! Channel-major multichannel sample buffer.
use vstd::prelude::*;
use vstd::arithmetic::div_mod::lemma_fundamental_div_mod_converse;

verus! {

/// `x` is a value that `T::default()` may return: silence for a sample type.
pub open spec fn is_silence<T: Default>(x: T) -> bool {
    call_ensures(T::default, (), x)
}

fn silence<T: Default>() -> (s: T)
    ensures
        is_silence(s),
{
    T::default()
}

/// Every channel of `frames` holds `len` samples.
pub open spec fn uniform<T>(frames: Seq<Seq<T>>, len: nat) -> bool {
    forall|c: int| 0 <= c < frames.len() ==> #[trigger] frames[c].len() == len
}

/// Number of samples per channel: the length of the first channel, or 0.
pub open spec fn samples_of<T>(frames: Seq<Seq<T>>) -> nat {
    if frames.len() == 0 {
        0
    } else {
        frames[0].len()
    }
}

/// Frame-major interleaving of `frames`: sample `f` of channel `c` lands at
/// `f * channels + c`.
pub open spec fn interleave<T>(frames: Seq<Seq<T>>) -> Seq<T> {
    let nc = frames.len();
    Seq::new(nc * samples_of(frames), |k: int| frames[k % (nc as int)][k / (nc as int)])
}

/// Channel `c` of an interleaved stream with `nc` channels; a trailing
/// partial frame is dropped.
pub open spec fn deinterleave<T>(samples: Seq<T>, nc: nat, c: int) -> Seq<T> {
    Seq::new(samples.len() / nc, |f: int| samples[f * nc + c])
}

/// Channel-major audio buffer (`channels[ch][sample]`). `T` is the sample
/// type; `T::default()` is silence.
#[derive(Debug, Clone)]
pub struct AudioBuffer<T> {
    channels: Vec<Vec<T>>,
}

impl<T> View for AudioBuffer<T> {
    type V = Seq<Seq<T>>;

    closed spec fn view(&self) -> Seq<Seq<T>> {
        Seq::new(self.channels@.len(), |c: int| self.channels@[c]@)
    }
}

impl<T: Copy + Default> AudioBuffer<T> {
    /// All channels have the same number of samples.
    pub open spec fn wf(&self) -> bool {
        uniform(self@, samples_of(self@))
    }

    /// A buffer of `num_channels` channels of `num_samples` silent samples.
    pub fn new(num_channels: usize, num_samples: usize) -> (b: Self)
        ensures
            b.wf(),
            b@.len() == num_channels,
            uniform(b@, num_samples as nat),
            forall|c: int| 0 <= c < num_channels ==> (#[trigger] b@[c]).len() == num_samples,
            forall|c: int, i: int|
                0 <= c < num_channels && 0 <= i < num_samples ==> is_silence(#[trigger] b@[c][i]),
    {
        let z: T = silence();
        let mut channels: Vec<Vec<T>> = Vec::new();
        let mut c: usize = 0;
        while c < num_channels
            invariant
                c <= num_channels,
                channels@.len() == c,
                is_silence(z),
                forall|k: int| 0 <= k < c ==> (#[trigger] channels@[k])@.len() == num_samples,
                forall|k: int, i: int|
                    0 <= k < c && 0 <= i < num_samples ==> #[trigger] channels@[k]@[i] == z,
            decreases num_channels - c,
        {
            let mut row: Vec<T> = Vec::new();
            let mut i: usize = 0;
            while i < num_samples
                invariant
                    i <= num_samples,
                    row@.len() == i,
                    forall|j: int| 0 <= j < i ==> #[trigger] row@[j] == z,
                decreases num_samples - i,
            {
                row.push(z);
                i += 1;
            }
            channels.push(row);
            c += 1;
        }
        let b = AudioBuffer { channels };
        assert(uniform(b@, num_samples as nat));
        b
    }

    pub fn num_channels(&self) -> (n: usize)
        ensures
            n == self@.len(),
    {
        self.channels.len()
    }

    /// Length of the first channel, or 0 when there are no channels.
    pub fn num_samples(&self) -> (n: usize)
        ensures
            n == samples_of(self@),
            n == (if self@.len() == 0 { 0 } else { self@[0].len() }),
    {
        if self.channels.len() == 0 {
            0
        } else {
            self.channels[0].len()
        }
    }

    pub fn channel(&self, ch: usize) -> (s: &[T])
        requires
            ch < self@.len(),
        ensures
            s@ == self@[ch as int],
    {
        self.channels[ch].as_slice()
    }

    pub fn channel_mut(&mut self, ch: usize) -> (s: &mut [T])
        requires
            ch < old(self)@.len(),
        ensures
            s@ == old(self)@[ch as int],
            final(self)@ == old(self)@.update(ch as int, final(s)@),
    {
        self.channels[ch].as_mut_slice()
    }

    /// Sets every sample of every channel to silence; lengths are kept.
    pub fn clear(&mut self)
        ensures
            old(self).wf() ==> final(self).wf(),
            final(self)@.len() == old(self)@.len(),
            forall|c: int| 0 <= c < old(self)@.len() ==>
                (#[trigger] final(self)@[c]).len() == old(self)@[c].len(),
            forall|c: int, i: int|
                0 <= c < old(self)@.len() && 0 <= i < old(self)@[c].len() ==> is_silence(
                    #[trigger] final(self)@[c][i],
                ),
    {
        let z: T = silence();
        let n = self.channels.len();
        let mut c: usize = 0;
        while c < n
            invariant
                c <= n,
                n == old(self)@.len(),
                self@.len() == n,
                is_silence(z),
                forall|k: int| 0 <= k < n ==> (#[trigger] self.channels@[k]@).len() == old(self)@[k].len(),
                forall|k: int, i: int|
                    0 <= k < c && 0 <= i < self.channels@[k]@.len() ==> #[trigger] self.channels@[k]@[i] == z,
            decreases n - c,
        {
            fill_with(&mut self.channels[c], z);
            c += 1;
        }
    }

    /// Sets the number of channels to `num_channels` (dropping channels at
    /// the end or adding empty ones), then the length of every channel to
    /// `num_samples` (truncating, or padding with silence). Samples inside
    /// both the old and the new shape keep their value.
    pub fn resize(&mut self, num_channels: usize, num_samples: usize)
        ensures
            final(self).wf(),
            final(self)@.len() == num_channels,
            uniform(final(self)@, num_samples as nat),
            forall|c: int| 0 <= c < num_channels ==> (#[trigger] final(self)@[c]).len() == num_samples,
            forall|c: int, i: int|
                0 <= c < num_channels && 0 <= i < num_samples ==> {
                    if c < old(self)@.len() && i < old(self)@[c].len() {
                        #[trigger] final(self)@[c][i] == old(self)@[c][i]
                    } else {
                        is_silence(final(self)@[c][i])
                    }
                },
    {
        let z: T = silence();
        let old_len = self.channels.len();
        if num_channels < old_len {
            self.channels.truncate(num_channels);
        } else {
            let mut c: usize = old_len;
            while c < num_channels
                invariant
                    old_len <= c <= num_channels,
                    old_len == old(self)@.len(),
                    self@.len() == c,
                    forall|k: int| 0 <= k < old_len ==> #[trigger] self.channels@[k]@ == old(self)@[k],
                    forall|k: int| old_len <= k < c ==> (#[trigger] self.channels@[k]@).len() == 0,
                decreases num_channels - c,
            {
                self.channels.push(Vec::new());
                c += 1;
            }
        }
        let mut c: usize = 0;
        while c < num_channels
            invariant
                c <= num_channels,
                self@.len() == num_channels,
                is_silence(z),
                forall|k: int| 0 <= k < c ==> (#[trigger] self.channels@[k]@).len() == num_samples,
                forall|k: int|
                    c <= k < num_channels ==> #[trigger] self.channels@[k]@ == (if k < old(self)@.len() {
                        old(self)@[k]
                    } else {
                        Seq::empty()
                    }),
                forall|k: int, i: int|
                    0 <= k < c && 0 <= i < num_samples ==> {
                        if k < old(self)@.len() && i < old(self)@[k].len() {
                            #[trigger] self.channels@[k]@[i] == old(self)@[k][i]
                        } else {
                            self.channels@[k]@[i] == z
                        }
                    },
            decreases num_channels - c,
        {
            resize_with(&mut self.channels[c], num_samples, z);
            c += 1;
        }
        assert(uniform(self@, num_samples as nat));
    }
    /// Appends the whole frames of an interleaved stream (one sample per
    /// channel per frame) to the channels; a trailing partial frame is
    /// ignored.
    pub fn append_interleaved(&mut self, interleaved: &[T])
        requires
            old(self)@.len() > 0,
        ensures
            old(self).wf() ==> final(self).wf(),
            final(self)@.len() == old(self)@.len(),
            forall|c: int|
                0 <= c < old(self)@.len() ==> #[trigger] final(self)@[c] == old(self)@[c]
                    + deinterleave(interleaved@, old(self)@.len(), c),
            forall|c: int|
                0 <= c < old(self)@.len() ==> (#[trigger] final(self)@[c]).len() == old(self)@[c].len()
                    + interleaved@.len() / old(self)@.len(),
            forall|c: int, i: int|
                #![trigger final(self)@[c][i]]
                0 <= c < old(self)@.len() && 0 <= i < old(self)@[c].len() ==> final(self)@[c][i]
                    == old(self)@[c][i],
            forall|c: int, f: int|
                #![trigger final(self)@[c][old(self)@[c].len() + f]]
                0 <= c < old(self)@.len() && 0 <= f < interleaved@.len() / old(self)@.len()
                    ==> final(self)@[c][old(self)@[c].len() + f] == interleaved@[f * old(self)@.len()
                    + c],
    {
        let nc = self.channels.len();
        let len = interleaved.len();
        let frames = len / nc;
        let mut c: usize = 0;
        while c < nc
            invariant
                c <= nc,
                nc == old(self)@.len(),
                nc > 0,
                frames == interleaved@.len() / (nc as nat),
                len == interleaved@.len(),
                self.channels@.len() == nc,
                forall|k: int| c <= k < nc ==> #[trigger] self.channels@[k]@ == old(self)@[k],
                forall|k: int|
                    0 <= k < c ==> #[trigger] self.channels@[k]@ == old(self)@[k] + deinterleave(
                        interleaved@,
                        nc as nat,
                        k,
                    ),
            decreases nc - c,
        {
            let ghost start = self.channels@[c as int]@;
            let mut f: usize = 0;
            while f < frames
                invariant
                    f <= frames,
                    c < nc,
                    nc > 0,
                    frames == interleaved@.len() / (nc as nat),
                    len == interleaved@.len(),
                    self.channels@.len() == nc,
                    forall|k: int| c < k < nc ==> #[trigger] self.channels@[k]@ == old(self)@[k],
                    forall|k: int|
                        0 <= k < c ==> #[trigger] self.channels@[k]@ == old(self)@[k]
                            + deinterleave(interleaved@, nc as nat, k),
                    start == old(self)@[c as int],
                    self.channels@[c as int]@ == start + deinterleave(interleaved@, nc as nat, c as int).take(f as int),
                decreases frames - f,
            {
                proof {
                    lemma_whole_frame(f as int, nc as int, interleaved@.len() as int);
                    lemma_frame_index_in_bounds(f as int, c as int, nc as int, interleaved@.len() as int);
                }
                let x = interleaved[f * nc + c];
                self.channels[c].push(x);
                proof {
                    let d = deinterleave(interleaved@, nc as nat, c as int);
                    assert(d.take(f + 1) =~= d.take(f as int).push(x));
                    assert(self.channels@[c as int]@ =~= start + d.take(f + 1));
                }
                f += 1;
            }
            proof {
                let d = deinterleave(interleaved@, nc as nat, c as int);
                assert(d.take(frames as int) =~= d);
            }
            c += 1;
        }
        proof {
            assert forall|c: int| 0 <= c < nc implies #[trigger] deinterleave(interleaved@, nc as nat, c).len()
                == interleaved@.len() / (nc as nat) && forall|f: int|
                0 <= f < interleaved@.len() / (nc as nat) ==> deinterleave(interleaved@, nc as nat, c)[f]
                    == interleaved@[f * nc + c] by {
                lemma_deinterleave_layout(interleaved@, nc as nat, c);
            }
        }
    }

    /// Frame-major interleaving of the buffer: sample `f` of channel `c`
    /// lands at `f * num_channels + c`.
    pub fn interleaved(&self) -> (out: Vec<T>)
        requires
            self.wf(),
            self@.len() * samples_of(self@) <= usize::MAX,
        ensures
            out@ == interleave(self@),
            out@.len() == self@.len() * samples_of(self@),
            forall|c: int, f: int|
                #![trigger self@[c][f]]
                0 <= c < self@.len() && 0 <= f < samples_of(self@) ==> out@[f * self@.len() + c]
                    == self@[c][f],
    {
        let nc = self.channels.len();
        let ns = self.num_samples();
        let mut out: Vec<T> = Vec::new();
        let mut f: usize = 0;
        while f < ns
            invariant
                f <= ns,
                ns == samples_of(self@),
                nc == self@.len(),
                self.wf(),
                nc * ns <= usize::MAX,
                out@.len() == f * nc,
                forall|k: int| 0 <= k < out@.len() ==> #[trigger] out@[k] == interleave(self@)[k],
            decreases ns - f,
        {
            let mut c: usize = 0;
            while c < nc
                invariant
                    f < ns,
                    c <= nc,
                    ns == samples_of(self@),
                    nc == self@.len(),
                    self.wf(),
                    nc * ns <= usize::MAX,
                    out@.len() == f * nc + c,
                    forall|k: int| 0 <= k < out@.len() ==> #[trigger] out@[k] == interleave(self@)[k],
                decreases nc - c,
            {
                proof {
                    assert((f + 1) * nc <= nc * ns) by (nonlinear_arith)
                        requires f + 1 <= ns, 0 <= nc;
                    lemma_frame_index_in_bounds(f as int, c as int, nc as int, (nc * ns) as int);
                    lemma_fundamental_div_mod_converse(f * nc + c, nc as int, f as int, c as int);
                    assert(self@[c as int].len() == ns);
                }
                let x = self.channels[c][f];
                out.push(x);
                c += 1;
            }
            proof {
                assert((f + 1) * nc == f * nc + nc) by (nonlinear_arith);
            }
            f += 1;
        }
        proof {
            assert(ns * nc == nc * ns) by (nonlinear_arith);
            assert(out@ =~= interleave(self@));
            lemma_interleave_layout(self@);
        }
        out
    }
}

/// Round trip of the interleaved layout: splitting the interleaving of a
/// buffer whose channels all have the same length gives back every channel.
/// (What is written as a frame-major stream is read back unchanged.)
pub proof fn lemma_deinterleave_interleave<T>(frames: Seq<Seq<T>>)
    requires
        frames.len() > 0,
        uniform(frames, samples_of(frames)),
    ensures
        forall|c: int|
            0 <= c < frames.len() ==> #[trigger] deinterleave(interleave(frames), frames.len(), c)
                == frames[c],
{
    let nc = frames.len() as int;
    let ns = samples_of(frames) as int;
    let s = interleave(frames);
    assert((nc * ns) / nc == ns) by {
        vstd::arithmetic::div_mod::lemma_div_multiples_vanish(ns, nc);
    }
    assert forall|c: int| 0 <= c < frames.len() implies #[trigger] deinterleave(
        interleave(frames),
        frames.len(),
        c,
    ) == frames[c] by {
        let d = deinterleave(s, nc as nat, c);
        assert forall|f: int| 0 <= f < ns implies d[f] == frames[c][f] by {
            assert((f + 1) * nc <= nc * ns) by (nonlinear_arith) requires f + 1 <= ns, 0 <= nc;
            lemma_frame_index_in_bounds(f, c, nc, nc * ns);
            lemma_fundamental_div_mod_converse(f * nc + c, nc, f, c);
        }
        assert(d =~= frames[c]);
    }
}

/// Where each sample sits in the interleaved stream: sample `f` of channel
/// `c` is at `f * channels + c`, and the stream holds `channels * samples`
/// samples.
pub proof fn lemma_interleave_layout<T>(frames: Seq<Seq<T>>)
    requires
        uniform(frames, samples_of(frames)),
    ensures
        interleave(frames).len() == frames.len() * samples_of(frames),
        forall|c: int, f: int|
            #![trigger frames[c][f]]
            0 <= c < frames.len() && 0 <= f < samples_of(frames) ==> interleave(frames)[f * frames.len()
                + c] == frames[c][f],
{
    let nc = frames.len() as int;
    let ns = samples_of(frames) as int;
    assert forall|c: int, f: int| 0 <= c < nc && 0 <= f < ns implies #[trigger] interleave(frames)[f * nc
        + c] == frames[c][f] by {
        assert((f + 1) * nc <= nc * ns) by (nonlinear_arith) requires f + 1 <= ns, 0 <= nc;
        lemma_frame_index_in_bounds(f, c, nc, nc * ns);
        lemma_fundamental_div_mod_converse(f * nc + c, nc, f, c);
    }
}

/// What splitting an interleaved stream gives channel `c`: one sample per
/// whole frame, the one at offset `c` of frame `f`.
pub proof fn lemma_deinterleave_layout<T>(samples: Seq<T>, nc: nat, c: int)
    requires
        nc > 0,
        0 <= c < nc,
    ensures
        deinterleave(samples, nc, c).len() == samples.len() / nc,
        forall|f: int|
            0 <= f < samples.len() / nc ==> #[trigger] deinterleave(samples, nc, c)[f] == samples[f * nc
                + c],
{
}

/// Index arithmetic of interleaved frames: when frame `f` fits whole in a
/// stream of `len` samples, its sample for channel `c` lies inside it.
proof fn lemma_frame_index_in_bounds(f: int, c: int, nc: int, len: int)
    requires
        0 <= f,
        0 <= c < nc,
        (f + 1) * nc <= len,
    ensures
        0 <= f * nc,
        f * nc + c < len,
{
    assert(0 <= f * nc) by (nonlinear_arith) requires 0 <= f, 0 < nc;
    assert((f + 1) * nc == f * nc + nc) by (nonlinear_arith);
}

/// Frames below `len / nc` fit whole in a stream of `len` samples.
proof fn lemma_whole_frame(f: int, nc: int, len: int)
    requires
        0 <= f < len / nc,
        0 < nc,
        0 <= len,
    ensures
        (f + 1) * nc <= len,
{
    assert(len / nc * nc <= len) by (nonlinear_arith) requires 0 < nc, 0 <= len;
    assert((f + 1) * nc <= len / nc * nc) by (nonlinear_arith) requires 0 < nc, f + 1 <= len / nc;
}

/// Overwrites every element of `v` with `z`.
fn fill_with<T: Copy>(v: &mut Vec<T>, z: T)
    ensures
        final(v)@.len() == old(v)@.len(),
        forall|i: int| 0 <= i < old(v)@.len() ==> #[trigger] final(v)@[i] == z,
{
    let n = v.len();
    let mut i: usize = 0;
    while i < n
        invariant
            i <= n,
            v@.len() == n,
            n == old(v)@.len(),
            forall|j: int| 0 <= j < i ==> #[trigger] v@[j] == z,
        decreases n - i,
    {
        v.set(i, z);
        i += 1;
    }
}

/// Truncates `v` to `len`, or pads it with `z` up to `len`.
fn resize_with<T: Copy>(v: &mut Vec<T>, len: usize, z: T)
    ensures
        final(v)@.len() == len,
        forall|i: int|
            0 <= i < len ==> #[trigger] final(v)@[i] == (if i < old(v)@.len() {
                old(v)@[i]
            } else {
                z
            }),
{
    if len <= v.len() {
        v.truncate(len);
    } else {
        while v.len() < len
            invariant
                old(v)@.len() <= v@.len() <= len,
                forall|i: int| 0 <= i < old(v)@.len() ==> #[trigger] v@[i] == old(v)@[i],
                forall|i: int| old(v)@.len() <= i < v@.len() ==> #[trigger] v@[i] == z,
            decreases len - v@.len(),
        {
            v.push(z);
        }
    }
}

} // verus!
