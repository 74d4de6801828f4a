//! The live audio stream: the producer appends finalized chunks of interleaved stereo samples to a
//! `StreamBuf`, and a `StreamDecoder` reads them back one sample at a time, padding silence while
//! the producer is behind and ending once the whole track has been finalized.

use vstd::prelude::*;

verus! {

/// All samples of the segments, in order.
pub open spec fn flatten<T>(segs: Seq<Seq<T>>) -> Seq<T>
    decreases segs.len(),
{
    if segs.len() == 0 {
        Seq::empty()
    } else {
        flatten(segs.drop_last()) + segs.last()
    }
}

proof fn lemma_flatten_front<T>(segs: Seq<Seq<T>>)
    requires
        segs.len() > 0,
    ensures
        flatten(segs) == segs[0] + flatten(segs.drop_first()),
    decreases segs.len(),
{
    if segs.len() == 1 {
        assert(segs.drop_last() =~= Seq::<Seq<T>>::empty());
        assert(segs.drop_first() =~= Seq::<Seq<T>>::empty());
        assert(flatten(segs.drop_last()) == Seq::<T>::empty());
        assert(flatten(segs) =~= segs[0]);
    } else {
        let init = segs.drop_last();
        lemma_flatten_front(init);
        assert(init.drop_first() =~= segs.drop_first().drop_last());
        assert(segs.drop_first().last() == segs.last());
        assert(flatten(segs) =~= segs[0] + flatten(segs.drop_first()));
    }
}

/// The growing track: finalized segments in push order, a count of finalized stereo frames and
/// the track's total length in frames.
pub struct StreamBuf<T> {
    segments: Vec<Vec<T>>,
    finalized: usize,
    total: usize,
}

impl<T: Copy> StreamBuf<T> {
    /// The pushed segments, in order.
    pub closed spec fn segments_view(&self) -> Seq<Seq<T>> {
        self.segments@.map_values(|s: Vec<T>| s@)
    }

    pub closed spec fn finalized_spec(&self) -> usize {
        self.finalized
    }

    pub closed spec fn total_spec(&self) -> usize {
        self.total
    }

    /// Every sample pushed so far, in push order.
    pub open spec fn samples(&self) -> Seq<T> {
        flatten(self.segments_view())
    }

    /// An empty stream for a track of `total_frames` stereo frames.
    pub fn new(total_frames: usize) -> (r: Self)
        ensures
            r.segments_view() == Seq::<Seq<T>>::empty(),
            r.finalized_spec() == 0,
            r.total_spec() == total_frames,
    {
        let r = StreamBuf { segments: Vec::new(), finalized: 0, total: total_frames };
        assert(r.segments_view() =~= Seq::<Seq<T>>::empty());
        r
    }

    /// Appends a finalized chunk of interleaved stereo samples as the next segment; the finalized
    /// frame count grows by half its sample count (wrapping, as the atomic counter does).
    pub fn push(&mut self, chunk: &[T])
        ensures
            final(self).segments_view() == old(self).segments_view().push(chunk@),
            final(self).finalized_spec() == old(self).finalized_spec().wrapping_add(
                (chunk@.len() / 2) as usize,
            ),
            final(self).total_spec() == old(self).total_spec(),
    {
        let mut seg: Vec<T> = Vec::new();
        let mut i: usize = 0;
        while i < chunk.len()
            invariant
                i <= chunk.len(),
                seg@ == chunk@.take(i as int),
            decreases chunk.len() - i,
        {
            seg.push(chunk[i]);
            i += 1;
            assert(seg@ =~= chunk@.take(i as int));
        }
        assert(chunk@.take(chunk.len() as int) =~= chunk@);
        let ghost before = self.segments_view();
        self.segments.push(seg);
        self.finalized = self.finalized.wrapping_add(chunk.len() / 2);
        assert(self.segments_view() =~= before.push(chunk@));
    }

    /// Stereo frames finalized so far.
    pub fn finalized_frames(&self) -> (r: usize)
        ensures
            r == self.finalized_spec(),
    {
        self.finalized
    }

    /// The track's length in stereo frames.
    pub fn total_frames(&self) -> (r: usize)
        ensures
            r == self.total_spec(),
    {
        self.total
    }

    /// Playback may start: at least `lead_frames` frames (or the whole track, if shorter) are
    /// finalized.
    pub fn lead_ready(&self, lead_frames: usize) -> (r: bool)
        ensures
            r == (self.finalized_spec() >= (if lead_frames < self.total_spec() {
                lead_frames
            } else {
                self.total_spec()
            })),
    {
        let lead = if lead_frames < self.total {
            lead_frames
        } else {
            self.total
        };
        self.finalized >= lead
    }
}

/// A read cursor into a `StreamBuf`: the segment being read and the position inside it.
pub struct StreamDecoder {
    seg_idx: usize,
    pos: usize,
}

/// The samples still to be read from segment `k`, position `pos`, onwards.
pub open spec fn rest_from<T>(segs: Seq<Seq<T>>, k: int, pos: int) -> Seq<T> {
    if 0 <= k < segs.len() {
        let s = segs[k];
        let from = if pos < s.len() {
            pos
        } else {
            s.len() as int
        };
        s.subrange(from, s.len() as int) + flatten(segs.subrange(k + 1, segs.len() as int))
    } else {
        Seq::empty()
    }
}

impl StreamDecoder {
    pub closed spec fn seg_idx_spec(&self) -> int {
        self.seg_idx as int
    }

    pub closed spec fn pos_spec(&self) -> int {
        self.pos as int
    }

    /// The samples this decoder has yet to read from `buf`.
    pub open spec fn rest<T: Copy>(&self, buf: &StreamBuf<T>) -> Seq<T> {
        rest_from(buf.segments_view(), self.seg_idx_spec(), self.pos_spec())
    }

    /// The cursor is inside the pushed segments, or right after them at a segment start, so
    /// every later push is read in full.
    pub open spec fn tracks<T: Copy>(&self, buf: &StreamBuf<T>) -> bool {
        ||| self.seg_idx_spec() < buf.segments_view().len()
        ||| (self.seg_idx_spec() == buf.segments_view().len() && self.pos_spec() == 0)
    }

    /// A cursor at the very start of the stream.
    pub open spec fn is_fresh(&self) -> bool {
        self.seg_idx_spec() == 0 && self.pos_spec() == 0
    }

    /// A decoder that has read nothing yet.
    pub fn new() -> (r: Self)
        ensures
            r.is_fresh(),
    {
        StreamDecoder { seg_idx: 0, pos: 0 }
    }

    /// The next sample: the first unread pushed sample if there is one; otherwise `silence` while
    /// the track is still being produced, and `None` once every frame has been finalized.
    pub fn next<T: Copy>(&mut self, buf: &StreamBuf<T>, silence: T) -> (r: Option<T>)
        ensures
            old(self).rest(buf).len() > 0 ==> r == Some(old(self).rest(buf)[0]),
            old(self).rest(buf).len() > 0 ==> final(self).rest(buf) == old(self).rest(buf).drop_first(),
            old(self).rest(buf).len() == 0 && buf.finalized_spec() >= buf.total_spec() ==> r is None,
            old(self).rest(buf).len() == 0 && buf.finalized_spec() < buf.total_spec() ==> r == Some(silence),
            old(self).rest(buf).len() == 0 ==> final(self).rest(buf).len() == 0,
            old(self).tracks(buf) ==> final(self).tracks(buf),
    {
        let ghost segs = buf.segments_view();
        let ghost start = self.rest(buf);
        let ghost tracked_at_start = self.tracks(buf);
        loop
            invariant
                segs == buf.segments_view(),
                start == old(self).rest(buf),
                tracked_at_start == old(self).tracks(buf),
                self.rest(buf) == start,
                tracked_at_start ==> self.tracks(buf),
                forall|j: int|
                    0 <= j < buf.segments@.len() ==> (#[trigger] buf.segments@[j])@ == segs[j],
                segs.len() == buf.segments@.len(),
            decreases buf.segments@.len() - self.seg_idx,
        {
            if self.seg_idx < buf.segments.len() {
                let seg = &buf.segments[self.seg_idx];
                let ghost k = self.seg_idx as int;
                if self.pos < seg.len() {
                    let v = seg[self.pos];
                    proof {
                        let s = segs[k];
                        let tail = flatten(segs.subrange(k + 1, segs.len() as int));
                        assert(start =~= s.subrange(self.pos as int, s.len() as int) + tail);
                        assert(start[0] == v);
                        assert(s.subrange(self.pos as int + 1, s.len() as int) + tail
                            =~= start.drop_first());
                    }
                    self.pos += 1;
                    return Some(v);
                }
                proof {
                    let s = segs[k];
                    assert(s.subrange(s.len() as int, s.len() as int) =~= Seq::<T>::empty());
                    let after = segs.subrange(k + 1, segs.len() as int);
                    if k + 1 < segs.len() {
                        lemma_flatten_front(after);
                        assert(after.drop_first() =~= segs.subrange(k + 2, segs.len() as int));
                        assert(segs[k + 1].subrange(0, segs[k + 1].len() as int) =~= segs[k + 1]);
                    } else {
                        assert(after =~= Seq::<Seq<T>>::empty());
                    }
                    assert(start =~= rest_from(segs, k + 1, 0));
                }
                self.seg_idx += 1;
                self.pos = 0;
            } else {
                if buf.finalized >= buf.total {
                    return None;
                }
                return Some(silence);
            }
        }
    }
}

/// A fresh decoder reads every sample pushed so far, in push order.
pub proof fn lemma_fresh_decoder_reads_all<T: Copy>(d: &StreamDecoder, buf: &StreamBuf<T>)
    requires
        d.is_fresh(),
    ensures
        d.rest(buf) == buf.samples(),
        d.tracks(buf),
{
    let segs = buf.segments_view();
    if segs.len() > 0 {
        lemma_flatten_front(segs);
        assert(segs.subrange(1, segs.len() as int) =~= segs.drop_first());
        assert(segs[0].subrange(0, segs[0].len() as int) =~= segs[0]);
    } else {
        assert(segs =~= Seq::<Seq<T>>::empty());
    }
}

/// What a decoder has yet to read grows by exactly the pushed chunk, at its end.
pub proof fn lemma_push_extends_rest<T: Copy>(
    d: &StreamDecoder,
    before: &StreamBuf<T>,
    after: &StreamBuf<T>,
    chunk: Seq<T>,
)
    requires
        d.tracks(before),
        after.segments_view() == before.segments_view().push(chunk),
    ensures
        d.rest(after) == d.rest(before) + chunk,
        d.tracks(after),
{
    let s0 = before.segments_view();
    let s1 = after.segments_view();
    let k = d.seg_idx_spec();
    if k < s0.len() {
        let tail0 = s0.subrange(k + 1, s0.len() as int);
        let tail1 = s1.subrange(k + 1, s1.len() as int);
        assert(tail1 =~= tail0.push(chunk));
        assert(tail1.drop_last() =~= tail0);
        assert(flatten(tail1) == flatten(tail0) + chunk);
        assert(s1[k] == s0[k]);
        assert(d.rest(after) =~= d.rest(before) + chunk);
    } else {
        assert(s1[k] == chunk);
        assert(s1.subrange(k + 1, s1.len() as int) =~= Seq::<Seq<T>>::empty());
        assert(flatten(s1.subrange(k + 1, s1.len() as int)) == Seq::<T>::empty());
        assert(chunk.subrange(0, chunk.len() as int) =~= chunk);
        assert(d.rest(after) =~= d.rest(before) + chunk);
    }
}

} // verus!
