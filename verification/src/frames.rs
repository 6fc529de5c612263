//! Cutting a stream of audio samples into detector frames of 512 samples
//! (32 ms at 16 kHz). Samples that do not fill a frame wait for the next call.
use vstd::prelude::*;

verus! {

/// Samples per detector frame.
pub const FRAME: usize = 512;

/// Splits arbitrary-length chunks of samples into whole frames, in order.
pub struct FrameSplitter<T> {
    pending: Vec<T>,
}

impl<T> View for FrameSplitter<T> {
    type V = Seq<T>;

    /// The samples waiting for the next frame.
    closed spec fn view(&self) -> Seq<T> {
        self.pending@
    }
}

/// The `i`-th whole frame of `all`.
pub open spec fn frame_at<T>(all: Seq<T>, i: int) -> Seq<T> {
    all.subrange(i * FRAME as int, (i + 1) * FRAME as int)
}

/// The whole frames of `all`, in order.
pub open spec fn frames_of<T>(all: Seq<T>) -> Seq<Seq<T>> {
    Seq::new(all.len() / (FRAME as nat), |i: int| frame_at(all, i))
}

/// Nothing is lost or reordered: the whole frames of a sample sequence, one
/// after the other, followed by the samples that do not fill a frame, are
/// the sequence itself.
pub proof fn lemma_frames_cover<T>(all: Seq<T>)
    ensures
        frames_of(all).flatten() + all.skip((all.len() / (FRAME as nat)) * FRAME as int) == all,
    decreases all.len(),
{
    let n = all.len() / (FRAME as nat);
    if all.len() < FRAME {
        assert(n == 0);
        assert(frames_of(all) =~= Seq::<Seq<T>>::empty());
        assert(all.skip(0) =~= all);
        assert(Seq::<T>::empty() + all =~= all);
    } else {
        let rest = all.skip(FRAME as int);
        lemma_frames_cover(rest);
        let m = rest.len() / (FRAME as nat);
        assert(m + 1 == n) by {
            assert(rest.len() == all.len() - FRAME);
        }
        let fs = frames_of(all);
        assert(fs.first() == all.take(FRAME as int));
        assert(fs.drop_first() =~= frames_of(rest)) by {
            assert forall|i: int| 0 <= i < m implies #[trigger] fs.drop_first()[i] == frames_of(
                rest,
            )[i] by {
                assert(frame_at(all, i + 1) =~= frame_at(rest, i));
            }
        }
        assert(rest.skip(m * FRAME as int) =~= all.skip(n * FRAME as int));
        assert(all.take(FRAME as int) + rest =~= all);
        assert(fs.flatten() == all.take(FRAME as int) + frames_of(rest).flatten());
        assert((all.take(FRAME as int) + frames_of(rest).flatten()) + rest.skip(m * FRAME as int)
            =~= all.take(FRAME as int) + (frames_of(rest).flatten() + rest.skip(m * FRAME as int)));
    }
}

/// Every whole frame has `FRAME` samples.
pub proof fn lemma_frames_full<T>(all: Seq<T>)
    ensures
        forall|i: int| 0 <= i < frames_of(all).len() ==> (#[trigger] frames_of(all)[i]).len() == 512,
{
    assert forall|i: int| 0 <= i < frames_of(all).len() implies (#[trigger] frames_of(all)[i]).len()
        == FRAME by {
        assert((i + 1) * FRAME <= (all.len() / (FRAME as nat)) * FRAME);
    }
}

/// The samples left waiting after cutting `all` into whole frames.
pub open spec fn leftover<T>(all: Seq<T>) -> Seq<T> {
    all.skip((all.len() / (FRAME as nat)) * FRAME as int)
}

/// Feeding `chunks` one after the other to a splitter that holds `pending`:
/// all frames returned, in order, and the samples left waiting.
pub open spec fn feed_all<T>(pending: Seq<T>, chunks: Seq<Seq<T>>) -> (Seq<Seq<T>>, Seq<T>)
    decreases chunks.len(),
{
    if chunks.len() == 0 {
        (Seq::empty(), pending)
    } else {
        let all = pending + chunks[0];
        let (rest, left) = feed_all(leftover(all), chunks.drop_first());
        (frames_of(all) + rest, left)
    }
}

/// Over any number of calls nothing is lost, duplicated or reordered: the
/// frames returned, one after the other, followed by the samples still
/// waiting, are the samples that were waiting followed by all the chunks;
/// every frame is whole; fewer than `FRAME` samples stay waiting; and the
/// number of frames is the number of whole frames in all those samples.
pub proof fn lemma_feed_all<T>(pending: Seq<T>, chunks: Seq<Seq<T>>)
    requires
        pending.len() < FRAME,
    ensures
        feed_all(pending, chunks).0.flatten() + feed_all(pending, chunks).1 == pending
            + chunks.flatten(),
        forall|i: int|
            0 <= i < feed_all(pending, chunks).0.len() ==> (#[trigger] feed_all(
                pending,
                chunks,
            ).0[i]).len() == FRAME,
        feed_all(pending, chunks).1.len() < FRAME,
        feed_all(pending, chunks).0.len() == (pending.len() + chunks.flatten().len()) / (
        FRAME as nat),
    decreases chunks.len(),
{
    if chunks.len() == 0 {
        assert(pending + chunks.flatten() =~= pending);
        assert(Seq::<Seq<T>>::empty().flatten() + pending =~= pending);
    } else {
        let all = pending + chunks[0];
        let left = leftover(all);
        let tail = chunks.drop_first();
        let n = all.len() / (FRAME as nat);
        assert(left.len() < FRAME) by {
            assert(left.len() == all.len() - n * FRAME);
        }
        lemma_feed_all(left, tail);
        lemma_frames_cover(all);
        lemma_frames_full(all);
        let (rest, l2) = feed_all(left, tail);
        vstd::seq_lib::lemma_flatten_concat(frames_of(all), rest);
        assert(chunks.flatten() == chunks[0] + tail.flatten());
        let fs = frames_of(all) + rest;
        assert(fs.flatten() + l2 =~= frames_of(all).flatten() + (rest.flatten() + l2));
        assert(frames_of(all).flatten() + (left + tail.flatten()) =~= (frames_of(all).flatten()
            + left) + tail.flatten());
        assert(pending + chunks.flatten() =~= all + tail.flatten());
        assert forall|i: int| 0 <= i < fs.len() implies (#[trigger] fs[i]).len() == FRAME by {
            if i < frames_of(all).len() {
                assert(fs[i] == frames_of(all)[i]);
            } else {
                assert(fs[i] == rest[i - frames_of(all).len()]);
            }
        }
        let total: int = (pending.len() + chunks.flatten().len()) as int;
        let m: int = rest.len() as int;
        let ni: int = n as int;
        assert(left.len() + tail.flatten().len() == total - ni * 512);
        assert(m == (total - ni * 512) / 512);
        assert(ni + m == total / 512) by (nonlinear_arith)
            requires
                m == (total - ni * 512) / 512,
                ni * 512 <= total,
                0 <= ni,
        ;
    }
}

/// Feeding one chunk is one call of `feed`: the whole frames of the waiting
/// samples followed by the chunk, and what is left over.
pub proof fn lemma_feed_all_one<T>(pending: Seq<T>, chunk: Seq<T>)
    ensures
        feed_all(pending, seq![chunk]) == (frames_of(pending + chunk), leftover(pending + chunk)),
{
    let all = pending + chunk;
    let cs = seq![chunk];
    assert(cs[0] == chunk);
    assert(cs.drop_first() =~= Seq::<Seq<T>>::empty());
    let r = feed_all(leftover(all), cs.drop_first());
    assert(r == (Seq::<Seq<T>>::empty(), leftover(all)));
    assert(frames_of(all) + r.0 =~= frames_of(all));
}

/// Consecutive calls compose: feeding the first `k` chunks and then the rest,
/// starting from what the first calls left waiting, returns the same frames,
/// in the same order, and leaves the same samples waiting as feeding all the
/// chunks. With `lemma_feed_all_one` this makes any sequence of `feed`
/// calls one `feed_all`, so `lemma_feed_all` holds of it.
pub proof fn lemma_feed_all_split<T>(pending: Seq<T>, chunks: Seq<Seq<T>>, k: int)
    requires
        0 <= k <= chunks.len(),
    ensures
        ({
            let first = feed_all(pending, chunks.take(k));
            let second = feed_all(first.1, chunks.skip(k));
            feed_all(pending, chunks) == (first.0 + second.0, second.1)
        }),
    decreases k,
{
    if k == 0 {
        assert(chunks.take(0) =~= Seq::<Seq<T>>::empty());
        assert(chunks.skip(0) =~= chunks);
        let second = feed_all(pending, chunks);
        assert(Seq::<Seq<T>>::empty() + second.0 =~= second.0);
    } else {
        let all = pending + chunks[0];
        let tail = chunks.drop_first();
        lemma_feed_all_split(leftover(all), tail, k - 1);
        assert(chunks.take(k)[0] == chunks[0]);
        assert(chunks.take(k).drop_first() =~= tail.take(k - 1));
        assert(chunks.skip(k) =~= tail.skip(k - 1));
        let a = feed_all(leftover(all), tail.take(k - 1));
        let b = feed_all(a.1, tail.skip(k - 1));
        assert(frames_of(all) + (a.0 + b.0) =~= (frames_of(all) + a.0) + b.0);
    }
}

impl<T: Copy> FrameSplitter<T> {
    /// A splitter with no waiting samples.
    pub fn new() -> (r: Self)
        ensures
            r@ == Seq::<T>::empty(),
    {
        FrameSplitter { pending: Vec::new() }
    }

    /// Takes a chunk of samples and returns every frame that is now complete:
    /// the waiting samples followed by the chunk are cut into consecutive
    /// frames of `FRAME` samples, and what is left over waits.
    pub fn feed(&mut self, samples: &[T]) -> (frames: Vec<Vec<T>>)
        ensures
            ({
                let all = old(self)@ + samples@;
                &&& frames@.len() == all.len() / (FRAME as nat)
                &&& forall|i: int|
                    0 <= i < frames@.len() ==> #[trigger] frames@[i]@ == frame_at(all, i)
                &&& final(self)@ == all.skip(frames@.len() * FRAME as int)
                &&& final(self)@.len() < FRAME
                &&& frames_of(all).flatten() + final(self)@ == all
                &&& frames@.map_values(|f: Vec<T>| f@) == frames_of(all)
                &&& final(self)@ == leftover(all)
                &&& (frames@.map_values(|f: Vec<T>| f@), final(self)@) == feed_all(
                    old(self)@,
                    seq![samples@],
                )
            }),
    {
        let ghost all_spec = self.pending@ + samples@;
        let mut all: Vec<T> = Vec::new();
        core::mem::swap(&mut all, &mut self.pending);
        let mut i: usize = 0;
        while i < samples.len()
            invariant
                i <= samples@.len(),
                all@ == all_spec.take(old(self)@.len() + i),
                all_spec == old(self)@ + samples@,
                all@.len() == old(self)@.len() + i,
            decreases samples.len() - i,
        {
            all.push(samples[i]);
            i = i + 1;
            assert(all@ =~= all_spec.take(old(self)@.len() + i));
        }
        assert(all@ =~= all_spec);
        let n = all.len() / FRAME;
        let mut frames: Vec<Vec<T>> = Vec::new();
        let mut k: usize = 0;
        while k < n
            invariant
                k <= n,
                n == all@.len() / (FRAME as nat),
                all@ == all_spec,
                frames@.len() == k,
                forall|m: int| 0 <= m < k ==> #[trigger] frames@[m]@ == frame_at(all_spec, m),
            decreases n - k,
        {
            assert(k * FRAME + FRAME <= all.len()) by {
                assert(k + 1 <= n);
                assert((k + 1) * FRAME <= (all@.len() / (FRAME as nat)) * FRAME);
            }
            let start = k * FRAME;
            let mut f: Vec<T> = Vec::new();
            let mut j: usize = 0;
            while j < FRAME
                invariant
                    j <= FRAME,
                    start == k * FRAME,
                    start + FRAME <= all@.len(),
                    f@ == all@.subrange(start as int, start + j),
                decreases FRAME - j,
            {
                f.push(all[start + j]);
                j = j + 1;
                assert(f@ =~= all@.subrange(start as int, start + j));
            }
            frames.push(f);
            k = k + 1;
        }
        let rest_start = n * FRAME;
        assert(rest_start <= all.len());
        let mut rest: Vec<T> = Vec::new();
        let mut r: usize = rest_start;
        while r < all.len()
            invariant
                rest_start <= r <= all@.len(),
                rest@ == all@.subrange(rest_start as int, r as int),
            decreases all.len() - r,
        {
            rest.push(all[r]);
            r = r + 1;
            assert(rest@ =~= all@.subrange(rest_start as int, r as int));
        }
        assert(rest@ =~= all_spec.skip(rest_start as int));
        self.pending = rest;
        proof {
            lemma_frames_cover(all_spec);
            assert(frames@.map_values(|f: Vec<T>| f@) =~= frames_of(all_spec));
            lemma_feed_all_one(old(self)@, samples@);
        }
        frames
    }
}

} // verus!
