//! Splitting text into pieces: at separator characters (`str::split`), into whitespace-separated
//! words (`str::split_whitespace`), and before the first occurrence of a character.

use vstd::prelude::*;
use crate::text::{is_whitespace, is_ws};

verus! {

/// The pieces between separators `a` or `b`, empty pieces included (so there is always at least
/// one piece), as `str::split` yields them.
pub open spec fn pieces2(s: Seq<char>, a: char, b: char) -> Seq<Seq<char>>
    decreases s.len(),
{
    if s.len() == 0 {
        seq![Seq::empty()]
    } else {
        let p = pieces2(s.drop_last(), a, b);
        let c = s.last();
        if c == a || c == b {
            p.push(Seq::empty())
        } else {
            p.update(p.len() - 1, p.last().push(c))
        }
    }
}

pub proof fn lemma_pieces2_nonempty(s: Seq<char>, a: char, b: char)
    ensures
        pieces2(s, a, b).len() > 0,
    decreases s.len(),
{
    if s.len() > 0 {
        lemma_pieces2_nonempty(s.drop_last(), a, b);
    }
}

/// No character of `s` is `c`.
pub open spec fn lacks(s: Seq<char>, c: char) -> bool {
    forall|i: int| 0 <= i < s.len() ==> s[i] != c
}

/// Text with neither separator is a single piece.
pub proof fn lemma_pieces2_single(s: Seq<char>, a: char, b: char)
    requires
        lacks(s, a),
        lacks(s, b),
    ensures
        pieces2(s, a, b) == seq![s],
    decreases s.len(),
{
    if s.len() > 0 {
        let d = s.drop_last();
        assert(lacks(d, a) && lacks(d, b)) by {
            assert forall|i: int| 0 <= i < d.len() implies d[i] != a && d[i] != b by {
                assert(d[i] == s[i]);
            }
        }
        lemma_pieces2_single(d, a, b);
        assert(s.last() == s[s.len() - 1]);
        assert(d.push(s.last()) =~= s);
        assert(pieces2(s, a, b) =~= seq![s]);
    } else {
        assert(s =~= Seq::<char>::empty());
    }
}

/// Text followed by a separator and then a piece free of separators splits into the text's
/// pieces followed by that piece.
pub proof fn lemma_pieces2_append(x: Seq<char>, c: char, y: Seq<char>, a: char, b: char)
    requires
        c == a || c == b,
        lacks(y, a),
        lacks(y, b),
    ensures
        pieces2(x + seq![c] + y, a, b) == pieces2(x, a, b).push(y),
    decreases y.len(),
{
    let s = x + seq![c] + y;
    if y.len() == 0 {
        assert(s.drop_last() =~= x);
        assert(s.last() == c);
        assert(y =~= Seq::<char>::empty());
    } else {
        let d = y.drop_last();
        assert(lacks(d, a) && lacks(d, b)) by {
            assert forall|i: int| 0 <= i < d.len() implies d[i] != a && d[i] != b by {
                assert(d[i] == y[i]);
            }
        }
        lemma_pieces2_append(x, c, d, a, b);
        assert(s.drop_last() =~= x + seq![c] + d);
        assert(s.last() == y[y.len() - 1]);
        let p = pieces2(x, a, b).push(d);
        assert(d.push(y[y.len() - 1]) =~= y);
        assert(pieces2(s, a, b) =~= p.update(p.len() - 1, p.last().push(y[y.len() - 1])));
        assert(pieces2(s, a, b) =~= pieces2(x, a, b).push(y));
    }
}

/// Text without `c` has no first `c`: everything before it is the whole text.
pub proof fn lemma_before_char_absent(s: Seq<char>, c: char)
    requires
        lacks(s, c),
    ensures
        before_char(s, c) == s,
{
    lemma_find_char_absent(s, c, 0);
}

/// Everything before the first `c` of text that reaches its first `c` after `body`.
pub proof fn lemma_before_char_first(body: Seq<char>, c: char, rest: Seq<char>)
    requires
        lacks(body, c),
    ensures
        before_char(body + seq![c] + rest, c) == body,
{
    let s = body + seq![c] + rest;
    lemma_find_char_reaches(s, c, body.len() as int, 0);
    assert(s.take(body.len() as int) =~= body);
}

proof fn lemma_find_char_reaches(s: Seq<char>, c: char, k: int, i: int)
    requires
        0 <= i <= k < s.len(),
        s[k] == c,
        forall|j: int| 0 <= j < k ==> s[j] != c,
    ensures
        find_char(s, c, i) == Some(k),
    decreases k - i,
{
    if i < k {
        lemma_find_char_reaches(s, c, k, i + 1);
    }
}

proof fn lemma_find_char_absent(s: Seq<char>, c: char, i: int)
    requires
        lacks(s, c),
        0 <= i,
    ensures
        find_char(s, c, i) is None,
    decreases s.len() - i,
{
    if i < s.len() {
        lemma_find_char_absent(s, c, i + 1);
    }
}

/// The view of a vector of character vectors.
pub open spec fn vv_view(v: Seq<Vec<char>>) -> Seq<Seq<char>> {
    v.map_values(|w: Vec<char>| w@)
}

/// `str::split` at `a` or `b`.
pub fn split2(s: &Vec<char>, a: char, b: char) -> (r: Vec<Vec<char>>)
    ensures
        vv_view(r@) == pieces2(s@, a, b),
{
    let mut done: Vec<Vec<char>> = Vec::new();
    let mut cur: Vec<char> = Vec::new();
    let mut i: usize = 0;
    while i < s.len()
        invariant
            i <= s.len(),
            pieces2(s@.take(i as int), a, b).len() > 0,
            pieces2(s@.take(i as int), a, b).drop_last() == vv_view(done@),
            pieces2(s@.take(i as int), a, b).last() == cur@,
        decreases s.len() - i,
    {
        let c = s[i];
        let ghost p = pieces2(s@.take(i as int), a, b);
        proof {
            let t = s@.take(i as int + 1);
            assert(t.drop_last() =~= s@.take(i as int));
            assert(t.last() == c);
            lemma_pieces2_nonempty(s@.take(i as int), a, b);
        }
        if c == a || c == b {
            let ghost before = vv_view(done@);
            done.push(cur);
            cur = Vec::new();
            proof {
                let t = s@.take(i as int + 1);
                assert(pieces2(t, a, b) == p.push(Seq::<char>::empty()));
                assert(vv_view(done@) =~= before.push(p.last()));
                assert(pieces2(t, a, b).drop_last() =~= p);
                assert(p.drop_last().push(p.last()) =~= p);
            }
        } else {
            cur.push(c);
            proof {
                let t = s@.take(i as int + 1);
                assert(pieces2(t, a, b) == p.update(p.len() - 1, p.last().push(c)));
                assert(pieces2(t, a, b).drop_last() =~= p.drop_last());
            }
        }
        i += 1;
    }
    proof {
        assert(s@.take(s.len() as int) =~= s@);
    }
    let ghost before = vv_view(done@);
    done.push(cur);
    proof {
        let p = pieces2(s@, a, b);
        assert(vv_view(done@) =~= before.push(p.last()));
        assert(p.drop_last().push(p.last()) =~= p);
    }
    done
}

/// The words seen so far and the word being read, scanning left to right.
pub open spec fn word_scan(s: Seq<char>) -> (Seq<Seq<char>>, Seq<char>)
    decreases s.len(),
{
    if s.len() == 0 {
        (Seq::empty(), Seq::empty())
    } else {
        let (done, cur) = word_scan(s.drop_last());
        let c = s.last();
        if is_ws(c) {
            if cur.len() > 0 {
                (done.push(cur), Seq::empty())
            } else {
                (done, Seq::empty())
            }
        } else {
            (done, cur.push(c))
        }
    }
}

/// `str::split_whitespace`: the maximal runs of non-whitespace characters, in order.
pub open spec fn words(s: Seq<char>) -> Seq<Seq<char>> {
    let (done, cur) = word_scan(s);
    if cur.len() > 0 {
        done.push(cur)
    } else {
        done
    }
}

pub fn split_words(s: &Vec<char>) -> (r: Vec<Vec<char>>)
    ensures
        vv_view(r@) == words(s@),
{
    let mut done: Vec<Vec<char>> = Vec::new();
    let mut cur: Vec<char> = Vec::new();
    let mut i: usize = 0;
    while i < s.len()
        invariant
            i <= s.len(),
            word_scan(s@.take(i as int)) == (vv_view(done@), cur@),
        decreases s.len() - i,
    {
        let c = s[i];
        proof {
            let t = s@.take(i as int + 1);
            assert(t.drop_last() =~= s@.take(i as int));
            assert(t.last() == c);
        }
        if is_whitespace(c) {
            if cur.len() > 0 {
                let ghost before = vv_view(done@);
                done.push(cur);
                cur = Vec::new();
                assert(vv_view(done@) =~= before.push(word_scan(s@.take(i as int)).1));
            } else {
                cur = Vec::new();
                assert(cur@ =~= Seq::<char>::empty());
            }
        } else {
            cur.push(c);
        }
        i += 1;
    }
    proof {
        assert(s@.take(s.len() as int) =~= s@);
    }
    if cur.len() > 0 {
        let ghost before = vv_view(done@);
        done.push(cur);
        assert(vv_view(done@) =~= before.push(word_scan(s@).1));
    }
    done
}

/// The first index at or after `i` holding `c`.
pub open spec fn find_char(s: Seq<char>, c: char, i: int) -> Option<int>
    decreases s.len() - i,
{
    if i < 0 || i >= s.len() {
        None
    } else if s[i] == c {
        Some(i)
    } else {
        find_char(s, c, i + 1)
    }
}

/// Everything before the first `c` (all of `s` when there is none).
pub open spec fn before_char(s: Seq<char>, c: char) -> Seq<char> {
    match find_char(s, c, 0) {
        Some(k) => s.take(k),
        None => s,
    }
}

/// The position of the first `c`, or the length when there is none.
pub fn find_char_exec(s: &Vec<char>, c: char) -> (r: usize)
    ensures
        r <= s.len(),
        r < s.len() ==> find_char(s@, c, 0) == Some(r as int),
        r == s.len() ==> find_char(s@, c, 0) is None,
{
    let mut k: usize = 0;
    while k < s.len()
        invariant
            k <= s.len(),
            find_char(s@, c, 0) == find_char(s@, c, k as int),
        ensures
            k <= s.len(),
            find_char(s@, c, 0) == find_char(s@, c, k as int),
            k < s.len() ==> s@[k as int] == c,
        decreases s.len() - k,
    {
        if s[k] == c {
            break;
        }
        k += 1;
    }
    k
}

/// The characters `s[lo..hi]`.
pub fn sub_chars(s: &Vec<char>, lo: usize, hi: usize) -> (r: Vec<char>)
    requires
        lo <= hi <= s.len(),
    ensures
        r@ == s@.subrange(lo as int, hi as int),
{
    let mut out: Vec<char> = Vec::new();
    let mut i: usize = lo;
    while i < hi
        invariant
            lo <= i <= hi <= s.len(),
            out@ == s@.subrange(lo as int, i as int),
        decreases hi - i,
    {
        out.push(s[i]);
        i += 1;
        assert(out@ =~= s@.subrange(lo as int, i as int));
    }
    out
}

/// Everything before the first `c`.
pub fn before_char_exec(s: &Vec<char>, c: char) -> (r: Vec<char>)
    ensures
        r@ == before_char(s@, c),
{
    let k = find_char_exec(s, c);
    let r = sub_chars(s, 0, k);
    assert(s@.subrange(0, k as int) =~= s@.take(k as int));
    assert(k == s.len() ==> s@.take(k as int) =~= s@);
    r
}

/// Index of the first character at or after `i` that is not `c` (or the length).
pub open spec fn skip_char(s: Seq<char>, c: char, i: int) -> int
    decreases s.len() - i,
{
    if 0 <= i < s.len() && s[i] == c {
        skip_char(s, c, i + 1)
    } else {
        i
    }
}

/// End (exclusive) of the text before `j` once trailing `c`s down to `lo` are dropped.
pub open spec fn back_char(s: Seq<char>, c: char, lo: int, j: int) -> int
    decreases j - lo,
{
    if lo < j && j <= s.len() && s[j - 1] == c {
        back_char(s, c, lo, j - 1)
    } else {
        j
    }
}

/// `str::trim_matches(c)`: the text with every leading and trailing `c` removed.
pub open spec fn trim_char(s: Seq<char>, c: char) -> Seq<char> {
    let lo = skip_char(s, c, 0);
    s.subrange(lo, back_char(s, c, lo, s.len() as int))
}

pub fn trim_char_exec(s: &Vec<char>, c: char) -> (r: Vec<char>)
    ensures
        r@ == trim_char(s@, c),
{
    let mut lo: usize = 0;
    while lo < s.len() && s[lo] == c
        invariant
            lo <= s.len(),
            skip_char(s@, c, lo as int) == skip_char(s@, c, 0),
        decreases s.len() - lo,
    {
        lo += 1;
    }
    let mut hi: usize = s.len();
    while hi > lo && s[hi - 1] == c
        invariant
            lo <= hi <= s.len(),
            lo as int == skip_char(s@, c, 0),
            back_char(s@, c, lo as int, hi as int) == back_char(s@, c, lo as int, s.len() as int),
        decreases hi - lo,
    {
        hi -= 1;
    }
    sub_chars(s, lo, hi)
}

} // verus!
