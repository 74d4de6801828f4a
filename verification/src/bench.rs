//! The quality benchmark's bookkeeping: the fps readings a child run logs, the warm-up samples
//! dropped before the median, and the tier recommended from the results.

use vstd::prelude::*;
use crate::text::{chars_of, string_of};
use crate::split::{lemma_pieces2_nonempty, pieces2, split_words, sub_chars, words};

verus! {

/// This process orchestrates the benchmark (rather than being one of its children): the
/// benchmark knob is set and the child marker is not.
pub fn is_parent(benchmark_set: bool, child_set: bool) -> (r: bool)
    ensures
        r == (benchmark_set && !child_set),
{
    benchmark_set && !child_set
}

/// Leading fps samples dropped (loader, off-thread build, pipeline settle) before the median.
pub const DROP_SAMPLES: usize = 6;

pub open spec fn metrics_tag() -> Seq<char> {
    seq!['m', 'e', 't', 'r', 'i', 'c', 's', ':']
}

/// The first `metrics:` at or after `i`.
pub open spec fn find_metrics(s: Seq<char>, i: int) -> Option<int>
    decreases s.len() - i,
{
    if i < 0 || i + 8 > s.len() {
        None
    } else if s.subrange(i, i + 8) == metrics_tag() {
        Some(i)
    } else {
        find_metrics(s, i + 1)
    }
}

/// The reading on one line: the first word after its first `metrics:`.
pub open spec fn line_reading(l: Seq<char>) -> Option<Seq<char>> {
    match find_metrics(l, 0) {
        Some(k) => {
            let w = words(l.skip(k + 8));
            if w.len() > 0 {
                Some(w[0])
            } else {
                None
            }
        },
        None => None,
    }
}

pub open spec fn readings_of(ls: Seq<Seq<char>>) -> Seq<Seq<char>>
    decreases ls.len(),
{
    if ls.len() == 0 {
        Seq::empty()
    } else {
        readings_of(ls.drop_last()) + match line_reading(ls.last()) {
            Some(t) => seq![t],
            None => Seq::empty(),
        }
    }
}

fn line_reading_exec(l: &Vec<char>) -> (r: Option<Vec<char>>)
    ensures
        r matches Some(t) ==> line_reading(l@) == Some(t@),
        r is None ==> line_reading(l@) is None,
{
    let tag = ['m', 'e', 't', 'r', 'i', 'c', 's', ':'];
    let mut k: usize = 0;
    let mut found = false;
    while k <= l.len() && 8 <= l.len() - k
        invariant_except_break
            !found,
        invariant
            k <= l.len(),
            find_metrics(l@, 0) == find_metrics(l@, k as int),
            tag@ == metrics_tag(),
        ensures
            find_metrics(l@, 0) == find_metrics(l@, k as int),
            found ==> k + 8 <= l.len() && l@.subrange(k as int, k + 8) == metrics_tag(),
            !found ==> k + 8 > l.len(),
        decreases l.len() - k,
    {
        let mut m: usize = 0;
        while m < 8
            invariant
                m <= 8,
                k + 8 <= l.len(),
                tag@ == metrics_tag(),
                forall|q: int| 0 <= q < m ==> l@[k + q] == tag@[q],
            ensures
                m <= 8,
                forall|q: int| 0 <= q < m ==> l@[k + q] == tag@[q],
                m < 8 ==> l@[k + m] != tag@[m as int],
            decreases 8 - m,
        {
            if l[k + m] != tag[m] {
                break;
            }
            m += 1;
        }
        if m == 8 {
            assert(l@.subrange(k as int, k + 8) =~= metrics_tag());
            found = true;
            break;
        }
        assert(l@.subrange(k as int, k + 8)[m as int] != metrics_tag()[m as int]);
        k += 1;
    }
    if !found {
        return None;
    }
    let rest = sub_chars(l, k + 8, l.len());
    assert(rest@ =~= l@.skip(k + 8));
    let mut ws = split_words(&rest);
    if ws.len() == 0 {
        return None;
    }
    let first = ws.swap_remove(0);
    Some(first)
}

/// The lines of a log are its pieces between `\n` separators. (A trailing `\r` or a last empty
/// line, which `str::lines` leaves out, never holds a reading, so the readings are the same.)
/// The fps readings a run logged: for every line holding `metrics:`, the first word after it.
pub fn metric_tokens(log: &str) -> (r: Vec<String>)
    ensures
        r@.len() == readings_of(pieces2(log@, '\n', '\n')).len(),
        forall|i: int| 0 <= i < r@.len() ==> (#[trigger] r@[i])@ == readings_of(pieces2(log@, '\n', '\n'))[i],
{
    let cs = chars_of(log);
    let mut out: Vec<String> = Vec::new();
    let mut cur: Vec<char> = Vec::new();
    let mut i: usize = 0;
    while i < cs.len()
        invariant
            i <= cs.len(),
            cs@ == log@,
            pieces2(cs@.take(i as int), '\n', '\n').len() > 0,
            pieces2(cs@.take(i as int), '\n', '\n').last() == cur@,
            out@.len() == readings_of(pieces2(cs@.take(i as int), '\n', '\n').drop_last()).len(),
            forall|q: int|
                0 <= q < out@.len() ==> (#[trigger] out@[q])@ == readings_of(
                    pieces2(cs@.take(i as int), '\n', '\n').drop_last(),
                )[q],
        decreases cs.len() - i,
    {
        let c = cs[i];
        let ghost p = pieces2(cs@.take(i as int), '\n', '\n');
        proof {
            let t = cs@.take(i as int + 1);
            assert(t.drop_last() =~= cs@.take(i as int));
            assert(t.last() == c);
            lemma_pieces2_nonempty(cs@.take(i as int), '\n', '\n');
        }
        if c == '\n' {
            let ghost before = out@;
            match line_reading_exec(&cur) {
                Some(w) => {
                    out.push(string_of(&w));
                },
                None => {},
            }
            cur = Vec::new();
            proof {
                let t = cs@.take(i as int + 1);
                assert(pieces2(t, '\n', '\n') == p.push(Seq::<char>::empty()));
                assert(pieces2(t, '\n', '\n').drop_last() =~= p);
                assert(p.drop_last().push(p.last()) =~= p);
            }
        } else {
            cur.push(c);
            proof {
                let t = cs@.take(i as int + 1);
                assert(pieces2(t, '\n', '\n') == p.update(p.len() - 1, p.last().push(c)));
                assert(pieces2(t, '\n', '\n').drop_last() =~= p.drop_last());
            }
        }
        i += 1;
    }
    proof {
        assert(cs@.take(cs.len() as int) =~= cs@);
        let p = pieces2(cs@, '\n', '\n');
        assert(p.drop_last().push(p.last()) =~= p);
    }
    match line_reading_exec(&cur) {
        Some(w) => {
            out.push(string_of(&w));
        },
        None => {},
    }
    out
}

/// The steady-state samples: all but the first `DROP_SAMPLES` when there are more than that,
/// else all of them.
pub fn drop_warmup<T: Copy>(all: Vec<T>) -> (r: Vec<T>)
    ensures
        r@ == (if all@.len() > DROP_SAMPLES {
            all@.skip(DROP_SAMPLES as int)
        } else {
            all@
        }),
{
    if all.len() <= DROP_SAMPLES {
        return all;
    }
    let mut out: Vec<T> = Vec::new();
    let mut i: usize = DROP_SAMPLES;
    while i < all.len()
        invariant
            DROP_SAMPLES <= i <= all.len(),
            out@ == all@.subrange(DROP_SAMPLES as int, i as int),
        decreases all.len() - i,
    {
        out.push(all[i]);
        i += 1;
        assert(out@ =~= all@.subrange(DROP_SAMPLES as int, i as int));
    }
    assert(out@ =~= all@.skip(DROP_SAMPLES as int));
    out
}

/// The highest index whose flag is set.
pub open spec fn last_set(c: Seq<bool>) -> Option<int>
    decreases c.len(),
{
    if c.len() == 0 {
        None
    } else if c.last() {
        Some(c.len() - 1)
    } else {
        last_set(c.drop_last())
    }
}

/// The recommended tier: tiers come in ascending quality, `clears[i]` says whether tier `i`
/// reached the target, and the highest such tier wins.
pub fn recommend(clears: &[bool]) -> (r: Option<usize>)
    ensures
        r matches Some(i) ==> last_set(clears@) == Some(i as int),
        r is None ==> last_set(clears@) is None,
{
    let mut n: usize = clears.len();
    assert(clears@.take(n as int) =~= clears@);
    while n > 0
        invariant
            n <= clears.len(),
            last_set(clears@) == last_set(clears@.take(n as int)),
        decreases n,
    {
        let ghost t = clears@.take(n as int);
        assert(t.drop_last() =~= clears@.take(n - 1));
        if clears[n - 1] {
            return Some(n - 1);
        }
        n -= 1;
    }
    None
}

} // verus!
