//! Offscreen capture settings: the render resolution knob and the per-shot file names of a
//! multi-frame contact sheet.

use vstd::prelude::*;
use vstd::string::StringExecFns;
use crate::text::{chars_of, decimal, digits_value, lemma_decimal_digits, push_char, string_of, trim, trim_chars, parse_u32, parse_uint_spec};

verus! {

/// The resolution used when the knob is unset or malformed: 1280x720.
pub const DEFAULT_WIDTH: u32 = 1280;

pub const DEFAULT_HEIGHT: u32 = 720;

/// The smallest accepted width or height.
pub const MIN_SIDE: u32 = 16;

/// A `WxH` separator: `x`, `X` or `*`.
pub open spec fn is_size_sep(c: char) -> bool {
    c == 'x' || c == 'X' || c == '*'
}

/// The first separator at or after `i`.
pub open spec fn find_size_sep(s: Seq<char>, i: int) -> Option<int>
    decreases s.len() - i,
{
    if i < 0 || i >= s.len() {
        None
    } else if is_size_sep(s[i]) {
        Some(i)
    } else {
        find_size_sep(s, i + 1)
    }
}

/// `MARTIN_RES`: `W` and `H` around the first separator, each trimmed and parsed as a `u32`, both
/// at least 16; anything else (or no knob) is 1280x720.
pub open spec fn render_size_spec(knob: Option<Seq<char>>) -> (u32, u32) {
    match knob {
        None => (DEFAULT_WIDTH, DEFAULT_HEIGHT),
        Some(s) => match find_size_sep(s, 0) {
            None => (DEFAULT_WIDTH, DEFAULT_HEIGHT),
            Some(k) => {
                let w = parse_uint_spec(trim(s.take(k)), u32::MAX as nat);
                let h = parse_uint_spec(trim(s.skip(k + 1)), u32::MAX as nat);
                if w is Some && h is Some && w->0 >= MIN_SIDE && h->0 >= MIN_SIDE {
                    ((w->0) as u32, (h->0) as u32)
                } else {
                    (DEFAULT_WIDTH, DEFAULT_HEIGHT)
                }
            },
        },
    }
}

fn slice_chars(s: &Vec<char>, lo: usize, hi: usize) -> (r: Vec<char>)
    requires
        lo <= hi <= s.len(),
    ensures
        r@ == s@.subrange(lo as int, hi as int),
{
    let mut out: Vec<char> = Vec::new();
    let mut i: usize = lo;
    while i < hi
        invariant
            lo <= i <= hi <= s.len(),
            out@ == s@.subrange(lo as int, i as int),
        decreases hi - i,
    {
        out.push(s[i]);
        i += 1;
        assert(out@ =~= s@.subrange(lo as int, i as int));
    }
    out
}

/// The offscreen render size for the `MARTIN_RES` knob (`None` when unset).
pub fn render_size(knob: Option<&str>) -> (r: (u32, u32))
    ensures
        r == render_size_spec(
            match knob {
                Some(s) => Some(s@),
                None => None,
            },
        ),
{
    let spec_str = match knob {
        None => {
            return (DEFAULT_WIDTH, DEFAULT_HEIGHT);
        },
        Some(s) => s,
    };
    let cs = chars_of(spec_str);
    let mut k: usize = 0;
    while k < cs.len()
        invariant
            k <= cs.len(),
            cs@ == spec_str@,
            find_size_sep(cs@, 0) == find_size_sep(cs@, k as int),
        ensures
            k <= cs.len(),
            cs@ == spec_str@,
            find_size_sep(cs@, 0) == find_size_sep(cs@, k as int),
            k < cs.len() ==> is_size_sep(cs@[k as int]),
        decreases cs.len() - k,
    {
        let c = cs[k];
        if c == 'x' || c == 'X' || c == '*' {
            break;
        }
        k += 1;
    }
    if k == cs.len() {
        return (DEFAULT_WIDTH, DEFAULT_HEIGHT);
    }
    let left = trim_chars(&slice_chars(&cs, 0, k));
    let right = trim_chars(&slice_chars(&cs, k + 1, cs.len()));
    proof {
        assert(cs@.subrange(0, k as int) =~= cs@.take(k as int));
        assert(cs@.subrange(k as int + 1, cs@.len() as int) =~= cs@.skip(k as int + 1));
    }
    match (parse_u32(&left), parse_u32(&right)) {
        (Some(w), Some(h)) => {
            if w >= MIN_SIDE && h >= MIN_SIDE {
                (w, h)
            } else {
                (DEFAULT_WIDTH, DEFAULT_HEIGHT)
            }
        },
        _ => (DEFAULT_WIDTH, DEFAULT_HEIGHT),
    }
}

/// `.` and `-` become `_` in a shot tag.
pub open spec fn tag_char(c: char) -> char {
    if c == '.' || c == '-' {
        '_'
    } else {
        c
    }
}

/// The last `.` before position `i`.
pub open spec fn last_dot_before(s: Seq<char>, i: int) -> Option<int>
    decreases i,
{
    if i <= 0 || i > s.len() {
        None
    } else if s[i - 1] == '.' {
        Some(i - 1)
    } else {
        last_dot_before(s, i - 1)
    }
}

/// A contact-sheet frame's file: `_` and the shot time (as printed, with `.` and `-` made `_`)
/// inserted before the extension, or appended when there is none. A single shot keeps `path`.
pub open spec fn shot_path_spec(path: Seq<char>, at: Seq<char>, multi: bool) -> Seq<char> {
    if !multi {
        path
    } else {
        let t = seq!['_'] + at.map_values(|c: char| tag_char(c));
        match last_dot_before(path, path.len() as int) {
            Some(k) => path.take(k) + t + path.skip(k),
            None => path + t,
        }
    }
}

/// The file one shot is written to; `at` is the shot time as printed (rounded to a tenth).
pub fn shot_path(path: &str, at: &str, multi: bool) -> (r: String)
    ensures
        r@ == shot_path_spec(path@, at@, multi),
{
    let p = chars_of(path);
    if !multi {
        return string_of(&p);
    }
    let a = chars_of(at);
    let mut t: Vec<char> = Vec::new();
    t.push('_');
    let mut i: usize = 0;
    while i < a.len()
        invariant
            i <= a.len(),
            t@ == seq!['_'] + a@.take(i as int).map_values(|c: char| tag_char(c)),
        decreases a.len() - i,
    {
        let c = a[i];
        let m = if c == '.' || c == '-' {
            '_'
        } else {
            c
        };
        t.push(m);
        i += 1;
        assert(t@ =~= seq!['_'] + a@.take(i as int).map_values(|c: char| tag_char(c)));
    }
    assert(a@.take(a.len() as int) =~= a@);
    let mut j: usize = p.len();
    while j > 0
        invariant
            j <= p.len(),
            last_dot_before(p@, p@.len() as int) == last_dot_before(p@, j as int),
        ensures
            j <= p.len(),
            last_dot_before(p@, p@.len() as int) == last_dot_before(p@, j as int),
            j > 0 ==> p@[j - 1] == '.',
        decreases j,
    {
        if p[j - 1] == '.' {
            break;
        }
        j -= 1;
    }
    let mut out: Vec<char> = Vec::new();
    if j == 0 {
        let mut k: usize = 0;
        while k < p.len()
            invariant
                k <= p.len(),
                out@ == p@.take(k as int),
            decreases p.len() - k,
        {
            out.push(p[k]);
            k += 1;
            assert(out@ =~= p@.take(k as int));
        }
        assert(p@.take(p.len() as int) =~= p@);
        let mut k2: usize = 0;
        while k2 < t.len()
            invariant
                k2 <= t.len(),
                out@ == p@ + t@.take(k2 as int),
            decreases t.len() - k2,
        {
            out.push(t[k2]);
            k2 += 1;
            assert(out@ =~= p@ + t@.take(k2 as int));
        }
        assert(t@.take(t.len() as int) =~= t@);
    } else {
        let dot = j - 1;
        let mut k: usize = 0;
        while k < dot
            invariant
                k <= dot < p.len(),
                out@ == p@.take(k as int),
            decreases dot - k,
        {
            out.push(p[k]);
            k += 1;
            assert(out@ =~= p@.take(k as int));
        }
        let mut k2: usize = 0;
        while k2 < t.len()
            invariant
                k2 <= t.len(),
                out@ == p@.take(dot as int) + t@.take(k2 as int),
            decreases t.len() - k2,
        {
            out.push(t[k2]);
            k2 += 1;
            assert(out@ =~= p@.take(dot as int) + t@.take(k2 as int));
        }
        assert(t@.take(t.len() as int) =~= t@);
        let mut k3: usize = dot;
        while k3 < p.len()
            invariant
                dot <= k3 <= p.len(),
                out@ == p@.take(dot as int) + t@ + p@.subrange(dot as int, k3 as int),
            decreases p.len() - k3,
        {
            out.push(p[k3]);
            k3 += 1;
            assert(out@ =~= p@.take(dot as int) + t@ + p@.subrange(dot as int, k3 as int));
        }
        assert(p@.subrange(dot as int, p.len() as int) =~= p@.skip(dot as int));
    }
    string_of(&out)
}

/// The decimal digits zero-padded to at least five (`{:05}`).
pub open spec fn pad5(d: Seq<char>) -> Seq<char> {
    if d.len() < 5 {
        Seq::new((5 - d.len()) as nat, |k: int| '0') + d
    } else {
        d
    }
}

/// The file of recorded frame `i` in `dir`: `dir/frame_NNNNN.png`.
pub open spec fn frame_path_spec(dir: Seq<char>, i: nat) -> Seq<char> {
    dir + "/frame_"@ + pad5(decimal(i)) + ".png"@
}

pub fn frame_path(dir: &str, i: u32) -> (r: String)
    ensures
        r@ == frame_path_spec(dir@, i as nat),
{
    let digits = crate::text::decimal_string(i as u64);
    let mut r = String::from_str(dir);
    r.append("/frame_");
    let n = digits.as_str().unicode_len();
    let ghost before = r@;
    if n < 5 {
        let mut k: usize = 0;
        while k < 5 - n
            invariant
                n < 5,
                k <= 5 - n,
                r@ == before + Seq::new(k as nat, |q: int| '0'),
            decreases 5 - n - k,
        {
            push_char(&mut r, '0');
            k += 1;
            assert(r@ =~= before + Seq::new(k as nat, |q: int| '0'));
        }
    }
    r.append(digits.as_str());
    r.append(".png");
    assert(r@ =~= frame_path_spec(dir@, i as nat));
    r
}

proof fn lemma_zero_prefix_value(k: nat, d: Seq<char>)
    ensures
        digits_value(Seq::new(k, |q: int| '0') + d) == digits_value(d),
    decreases d.len(), k,
{
    let z = Seq::new(k, |q: int| '0');
    if d.len() == 0 {
        assert(z + d =~= z);
        if k > 0 {
            assert(z.drop_last() =~= Seq::new((k - 1) as nat, |q: int| '0'));
            lemma_zero_prefix_value((k - 1) as nat, d);
            assert(Seq::new((k - 1) as nat, |q: int| '0') + d =~= z.drop_last());
        }
    } else {
        assert((z + d).drop_last() =~= z + d.drop_last());
        assert((z + d).last() == d.last());
        lemma_zero_prefix_value(k, d.drop_last());
    }
}

/// Distinct frames are written to distinct files: a recording never overwrites a frame.
pub proof fn lemma_frame_paths_distinct(dir: Seq<char>, i: nat, j: nat)
    requires
        i != j,
    ensures
        frame_path_spec(dir, i) != frame_path_spec(dir, j),
{
    let pre = dir + "/frame_"@;
    let post = ".png"@;
    let pi = pad5(decimal(i));
    let pj = pad5(decimal(j));
    lemma_decimal_digits(i);
    lemma_decimal_digits(j);
    if decimal(i).len() < 5 {
        lemma_zero_prefix_value((5 - decimal(i).len()) as nat, decimal(i));
    }
    if decimal(j).len() < 5 {
        lemma_zero_prefix_value((5 - decimal(j).len()) as nat, decimal(j));
    }
    assert(digits_value(pi) == i);
    assert(digits_value(pj) == j);
    if frame_path_spec(dir, i) == frame_path_spec(dir, j) {
        let a = pre + pi + post;
        let b = pre + pj + post;
        assert(a.len() == b.len());
        assert(pi.len() == pj.len());
        assert(a.subrange(pre.len() as int, (pre.len() + pi.len()) as int) =~= pi);
        assert(b.subrange(pre.len() as int, (pre.len() + pj.len()) as int) =~= pj);
        assert(pi == pj);
    }
}

/// How many extra frames a finished recording waits for its pictures to reach the disk.
pub const GRACE_FRAMES: u32 = 1200;

/// What the recorder does once every frame has been shot.
#[derive(Debug, Clone, Copy, PartialEq, Eq, Structural)]
pub enum RecordEnd {
    /// Some pictures are still being written: check again next frame.
    Wait,
    /// Every frame is on disk.
    Complete,
    /// The writer stalled past the grace period: the recording is truncated.
    Stalled,
}

/// A recording in progress: the next frame to shoot and the frames waited since the last one.
#[derive(Debug, Clone, Copy, PartialEq, Eq, Structural)]
pub struct RecordCursor {
    pub frame: u32,
    pub grace: u32,
}

impl RecordCursor {
    pub fn new() -> (r: Self)
        ensures
            r.frame == 0 && r.grace == 0,
    {
        RecordCursor { frame: 0, grace: 0 }
    }

    /// The frame to shoot now (and the cursor moves past it), or `None` once all `total` are shot.
    pub fn next_frame(&mut self, total: u32) -> (r: Option<u32>)
        ensures
            old(self).frame < total ==> r == Some(old(self).frame) && final(self).frame
                == old(self).frame + 1,
            old(self).frame >= total ==> r is None && final(self).frame == old(self).frame,
            final(self).grace == old(self).grace,
    {
        if self.frame < total {
            let f = self.frame;
            self.frame = f + 1;
            Some(f)
        } else {
            None
        }
    }

    /// After the last frame: one more frame of grace; done when `on_disk` pictures cover the
    /// `total`, stalled once the grace period is exceeded, else keep waiting.
    pub fn finish(&mut self, total: u32, on_disk: usize) -> (r: RecordEnd)
        requires
            old(self).grace < u32::MAX,
        ensures
            final(self).grace == old(self).grace + 1,
            final(self).frame == old(self).frame,
            r == (if on_disk >= total {
                RecordEnd::Complete
            } else if final(self).grace > GRACE_FRAMES {
                RecordEnd::Stalled
            } else {
                RecordEnd::Wait
            }),
    {
        self.grace = self.grace + 1;
        if on_disk >= total as usize {
            RecordEnd::Complete
        } else if self.grace > GRACE_FRAMES {
            RecordEnd::Stalled
        } else {
            RecordEnd::Wait
        }
    }
}

/// Frames a seeked scene settles (the morph re-positions, the depth sort converges) before a
/// screenshot is taken.
pub const SETTLE_FRAMES: u32 = 40;

/// Frames a screenshot may take to reach the disk before the sheet moves on regardless.
pub const SHOT_GRACE_FRAMES: u32 = 1200;

/// What happens after a frame of a screenshot run.
#[derive(Debug, Clone, Copy, PartialEq, Eq, Structural)]
pub enum ShotNext {
    /// Stay on the current shot.
    Stay,
    /// Seek to the next shot time.
    Next,
    /// Every shot is taken: exit.
    Exit,
}

/// A screenshot run (one shot or a contact sheet): the current shot, whether it has been taken,
/// and the frames spent on it.
#[derive(Debug, Clone, Copy, PartialEq, Eq, Structural)]
pub struct ShotCursor {
    pub idx: usize,
    pub done: bool,
    pub frames: u32,
}

impl ShotCursor {
    pub fn new() -> (r: Self)
        ensures
            r.idx == 0 && !r.done && r.frames == 0,
    {
        ShotCursor { idx: 0, done: false, frames: 0 }
    }

    /// Every one of the `count` shots has been taken.
    pub fn finished(&self, count: usize) -> (r: bool)
        ensures
            r == (self.idx >= count),
    {
        self.idx >= count
    }

    /// One more frame on the current shot; the shot is taken (once) when the scene has settled.
    pub fn settle(&mut self) -> (shoot: bool)
        requires
            old(self).frames < u32::MAX,
        ensures
            final(self).frames == old(self).frames + 1,
            final(self).idx == old(self).idx,
            shoot == (!old(self).done && final(self).frames >= SETTLE_FRAMES),
            final(self).done == (old(self).done || shoot),
    {
        self.frames = self.frames + 1;
        if !self.done && self.frames >= SETTLE_FRAMES {
            self.done = true;
            true
        } else {
            false
        }
    }

    /// After the frame: once the taken shot's file has `landed` (or the grace frames ran out),
    /// move to the next of `count` shots, exiting after the last.
    pub fn after_shot(&mut self, count: usize, landed: bool) -> (r: ShotNext)
        requires
            old(self).idx < usize::MAX,
        ensures
            old(self).done && (landed || old(self).frames >= SHOT_GRACE_FRAMES) ==> {
                &&& final(self).idx == old(self).idx + 1
                &&& !final(self).done
                &&& final(self).frames == 0
                &&& r == (if final(self).idx >= count {
                    ShotNext::Exit
                } else {
                    ShotNext::Next
                })
            },
            !(old(self).done && (landed || old(self).frames >= SHOT_GRACE_FRAMES)) ==> *final(self)
                == *old(self) && r == ShotNext::Stay,
    {
        if self.done && (landed || self.frames >= SHOT_GRACE_FRAMES) {
            self.idx = self.idx + 1;
            self.done = false;
            self.frames = 0;
            if self.idx >= count {
                ShotNext::Exit
            } else {
                ShotNext::Next
            }
        } else {
            ShotNext::Stay
        }
    }
}

} // verus!
