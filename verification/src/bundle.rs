//! The self-contained build: its `key = value` settings file, the asset files a show references
//! (which go into the archive), which knob carries the baked-in show and which extracted file
//! anchors the asset root.

use vstd::prelude::*;
use vstd::string::StringExecFns;
use crate::text::{chars_of, chars_eq, string_of, trim, trim_chars, is_ws, skip_ws, back_ws};
use crate::split::{
    pieces2, split2, words, word_scan, split_words, before_char, before_char_exec, find_char, find_char_exec,
    sub_chars, trim_char, trim_char_exec, vv_view, lacks, lemma_pieces2_single, lemma_pieces2_append,
    lemma_before_char_absent, lemma_before_char_first,
};
use crate::stream::flatten;

verus! {

/// The knob a baked-in show of this kind is handed through: `show` and `compose` have their
/// own, anything else is a sequence.
pub fn show_env_key(kind: &str) -> (r: String)
    ensures
        r@ == (if kind@ == seq!['s', 'h', 'o', 'w'] {
            "MARTIN_SHOW"@
        } else if kind@ == seq!['c', 'o', 'm', 'p', 'o', 's', 'e'] {
            "MARTIN_COMPOSE"@
        } else {
            "MARTIN_SEQ"@
        }),
{
    let k = chars_of(kind);
    if chars_eq(&k, &['s', 'h', 'o', 'w']) {
        String::from_str("MARTIN_SHOW")
    } else if chars_eq(&k, &['c', 'o', 'm', 'p', 'o', 's', 'e']) {
        String::from_str("MARTIN_COMPOSE")
    } else {
        String::from_str("MARTIN_SEQ")
    }
}

/// The file whose folder becomes the asset root: the show's first splat, or a placeholder name
/// inside the extraction folder when the show has none.
pub fn ply_anchor(root_ply: &str) -> (r: String)
    ensures
        r@ == (if root_ply@.len() == 0 {
            "_root"@
        } else {
            root_ply@
        }),
{
    if root_ply.is_empty() {
        String::from_str("_root")
    } else {
        String::from_str(root_ply)
    }
}

/// `w` begins with `p`.
pub open spec fn starts(w: Seq<char>, p: Seq<char>) -> bool {
    w.len() >= p.len() && w.take(p.len() as int) == p
}

fn starts_exec(w: &Vec<char>, p: &[char]) -> (r: bool)
    ensures
        r == starts(w@, p@),
{
    if w.len() < p.len() {
        return false;
    }
    let mut i: usize = 0;
    while i < p.len()
        invariant
            i <= p.len() <= w.len(),
            forall|q: int| 0 <= q < i ==> w@[q] == p@[q],
        decreases p.len() - i,
    {
        if w[i] != p[i] {
            assert(w@.take(p@.len() as int)[i as int] != p@[i as int]);
            return false;
        }
        i += 1;
    }
    assert(w@.take(p@.len() as int) =~= p@);
    true
}

/// The file names one show token references: every `+`-joined part of a `splat:` list, or the
/// single file of an `image:`, `mesh:`, `glb:`, `gltf:` or `model:` token; nothing otherwise.
pub open spec fn word_names(w: Seq<char>) -> Seq<Seq<char>> {
    if starts(w, seq!['s', 'p', 'l', 'a', 't', ':']) {
        pieces2(w.skip(6), '+', '+')
    } else if starts(w, seq!['i', 'm', 'a', 'g', 'e', ':']) {
        seq![w.skip(6)]
    } else if starts(w, seq!['m', 'e', 's', 'h', ':']) {
        seq![w.skip(5)]
    } else if starts(w, seq!['g', 'l', 'b', ':']) {
        seq![w.skip(4)]
    } else if starts(w, seq!['g', 'l', 't', 'f', ':']) {
        seq![w.skip(5)]
    } else if starts(w, seq!['m', 'o', 'd', 'e', 'l', ':']) {
        seq![w.skip(6)]
    } else {
        Seq::empty()
    }
}

fn one(v: Vec<char>) -> (r: Vec<Vec<char>>)
    ensures
        vv_view(r@) == seq![v@],
{
    let mut r: Vec<Vec<char>> = Vec::new();
    r.push(v);
    assert(vv_view(r@) =~= seq![v@]);
    r
}

fn word_names_exec(w: &Vec<char>) -> (r: Vec<Vec<char>>)
    ensures
        vv_view(r@) == word_names(w@),
{
    let n = w.len();
    if starts_exec(w, &['s', 'p', 'l', 'a', 't', ':']) {
        let rest = sub_chars(w, 6, n);
        assert(rest@ =~= w@.skip(6));
        split2(&rest, '+', '+')
    } else if starts_exec(w, &['i', 'm', 'a', 'g', 'e', ':']) {
        let rest = sub_chars(w, 6, n);
        assert(rest@ =~= w@.skip(6));
        one(rest)
    } else if starts_exec(w, &['m', 'e', 's', 'h', ':']) {
        let rest = sub_chars(w, 5, n);
        assert(rest@ =~= w@.skip(5));
        one(rest)
    } else if starts_exec(w, &['g', 'l', 'b', ':']) {
        let rest = sub_chars(w, 4, n);
        assert(rest@ =~= w@.skip(4));
        one(rest)
    } else if starts_exec(w, &['g', 'l', 't', 'f', ':']) {
        let rest = sub_chars(w, 5, n);
        assert(rest@ =~= w@.skip(5));
        one(rest)
    } else if starts_exec(w, &['m', 'o', 'd', 'e', 'l', ':']) {
        let rest = sub_chars(w, 6, n);
        assert(rest@ =~= w@.skip(6));
        one(rest)
    } else {
        let r: Vec<Vec<char>> = Vec::new();
        assert(vv_view(r@) =~= Seq::<Seq<char>>::empty());
        r
    }
}

/// The names one line (a `;`- or newline-separated piece of the show) references, its `#`
/// comment ignored.
pub open spec fn line_candidates(l: Seq<char>) -> Seq<Seq<char>> {
    flatten(words(before_char(l, '#')).map_values(|w: Seq<char>| word_names(w)))
}

/// Every name the show's tokens reference, in order, repeats included.
pub open spec fn candidates(spec: Seq<char>) -> Seq<Seq<char>> {
    flatten(pieces2(spec, ';', '\n').map_values(|l: Seq<char>| line_candidates(l)))
}

/// A Wavefront mesh, whose material file must ship beside it.
pub open spec fn is_obj(t: Seq<char>) -> bool {
    t.len() >= 4 && t.skip(t.len() - 4) == seq!['.', 'o', 'b', 'j']
}

/// Adds one referenced name: trimmed, skipped when empty or already listed; an `.obj` brings
/// its `.mtl` right after it.
pub open spec fn push_name(names: Seq<Seq<char>>, n: Seq<char>) -> Seq<Seq<char>> {
    let t = trim(n);
    if t.len() == 0 || names.contains(t) {
        names
    } else if is_obj(t) {
        names.push(t).push(t.take(t.len() - 4) + seq!['.', 'm', 't', 'l'])
    } else {
        names.push(t)
    }
}

pub open spec fn push_names(names: Seq<Seq<char>>, ns: Seq<Seq<char>>) -> Seq<Seq<char>>
    decreases ns.len(),
{
    if ns.len() == 0 {
        names
    } else {
        push_name(push_names(names, ns.drop_last()), ns.last())
    }
}

/// The asset files a show references, in first-reference order.
pub open spec fn referenced_spec(spec: Seq<char>) -> Seq<Seq<char>> {
    push_names(Seq::empty(), candidates(spec))
}

fn push_name_exec(names: &mut Vec<Vec<char>>, n: &Vec<char>)
    ensures
        vv_view(final(names)@) == push_name(vv_view(old(names)@), n@),
{
    let t = trim_chars(n);
    if t.len() == 0 {
        return;
    }
    let mut j: usize = 0;
    while j < names.len()
        invariant
            j <= names.len(),
            names@ == old(names)@,
            t@ == trim(n@),
            forall|q: int| 0 <= q < j ==> vv_view(names@)[q] != t@,
        decreases names.len() - j,
    {
        if chars_eq(&names[j], t.as_slice()) {
            assert(vv_view(names@)[j as int] == t@);
            assert(vv_view(old(names)@).contains(t@));
            return;
        }
        j += 1;
    }
    assert(!vv_view(names@).contains(t@));
    let len = t.len();
    let is_mesh = len >= 4 && t[len - 4] == '.' && t[len - 3] == 'o' && t[len - 2] == 'b'
        && t[len - 1] == 'j';
    assert(is_mesh == is_obj(t@)) by {
        if len >= 4 {
            assert(is_obj(t@) ==> t@.skip(len - 4)[0] == '.' && t@.skip(len - 4)[1] == 'o'
                && t@.skip(len - 4)[2] == 'b' && t@.skip(len - 4)[3] == 'j');
            if is_mesh {
                assert(t@.skip(len - 4) =~= seq!['.', 'o', 'b', 'j']);
            }
        }
    }
    let ghost before = vv_view(names@);
    if is_mesh {
        let mut mtl = sub_chars(&t, 0, len - 4);
        mtl.push('.');
        mtl.push('m');
        mtl.push('t');
        mtl.push('l');
        let ghost tv = t@;
        let ghost mv = mtl@;
        names.push(t);
        names.push(mtl);
        assert(mv =~= tv.take(tv.len() - 4) + seq!['.', 'm', 't', 'l']);
        assert(vv_view(names@) =~= before.push(tv).push(mv));
    } else {
        let ghost tv = t@;
        names.push(t);
        assert(vv_view(names@) =~= before.push(tv));
    }
}

proof fn lemma_vv_append(a: Seq<Vec<char>>, b: Seq<Vec<char>>)
    ensures
        vv_view(a + b) == vv_view(a) + vv_view(b),
{
    assert(vv_view(a + b) =~= vv_view(a) + vv_view(b));
}

proof fn lemma_flatten_step<T>(s: Seq<T>, i: int, f: spec_fn(T) -> Seq<Seq<char>>)
    requires
        0 <= i < s.len(),
    ensures
        flatten(s.take(i + 1).map_values(f)) == flatten(s.take(i).map_values(f)) + f(s[i]),
{
    let m = s.take(i + 1).map_values(f);
    assert(m.drop_last() =~= s.take(i).map_values(f));
    assert(m.last() == f(s[i]));
}

/// Every asset file a show references: the names of its `splat:` (each `+`-joined part),
/// `image:`, `mesh:`, `glb:`, `gltf:` and `model:` tokens, trimmed, each listed once in order of
/// first reference, with the `.mtl` of every `.obj` right after it. `;` and newlines separate
/// lines, and `#` starts a comment that runs to the end of its line.
pub fn referenced_assets(spec: &str) -> (r: Vec<String>)
    ensures
        r@.len() == referenced_spec(spec@).len(),
        forall|i: int| 0 <= i < r@.len() ==> (#[trigger] r@[i])@ == referenced_spec(spec@)[i],
{
    let cs = chars_of(spec);
    let lines = split2(&cs, ';', '\n');
    let ghost lv = vv_view(lines@);
    let mut cands: Vec<Vec<char>> = Vec::new();
    let mut i: usize = 0;
    proof {
        assert(vv_view(cands@) =~= flatten(lv.take(0).map_values(|l: Seq<char>| line_candidates(l))));
    }
    while i < lines.len()
        invariant
            i <= lines.len(),
            lv == vv_view(lines@),
            lv == pieces2(spec@, ';', '\n'),
            vv_view(cands@) == flatten(lv.take(i as int).map_values(|l: Seq<char>| line_candidates(l))),
        decreases lines.len() - i,
    {
        let stripped = before_char_exec(&lines[i], '#');
        let ws = split_words(&stripped);
        let ghost wv = vv_view(ws@);
        let ghost start = vv_view(cands@);
        let mut j: usize = 0;
        proof {
            assert(flatten(wv.take(0).map_values(|w: Seq<char>| word_names(w))) =~= Seq::<Seq<char>>::empty());
            assert(start + Seq::<Seq<char>>::empty() =~= start);
        }
        while j < ws.len()
            invariant
                j <= ws.len(),
                wv == vv_view(ws@),
                vv_view(cands@) == start + flatten(wv.take(j as int).map_values(|w: Seq<char>| word_names(w))),
            decreases ws.len() - j,
        {
            let mut wn = word_names_exec(&ws[j]);
            let ghost before = vv_view(cands@);
            let ghost add = vv_view(wn@);
            let ghost old_c = cands@;
            let ghost old_w = wn@;
            cands.append(&mut wn);
            proof {
                lemma_vv_append(old_c, old_w);
                lemma_flatten_step(wv, j as int, |w: Seq<char>| word_names(w));
                assert(wv[j as int] == ws@[j as int]@);
                assert(vv_view(cands@) =~= start + flatten(wv.take(j as int + 1).map_values(|w: Seq<char>| word_names(w))));
            }
            j += 1;
        }
        proof {
            assert(wv.take(ws.len() as int) =~= wv);
            assert(wv == words(before_char(lv[i as int], '#')));
            lemma_flatten_step(lv, i as int, |l: Seq<char>| line_candidates(l));
        }
        i += 1;
    }
    proof {
        assert(lv.take(lines.len() as int) =~= lv);
    }
    let ghost cv = vv_view(cands@);
    let mut names: Vec<Vec<char>> = Vec::new();
    let mut k: usize = 0;
    proof {
        assert(vv_view(names@) =~= Seq::<Seq<char>>::empty());
        assert(cv.take(0) =~= Seq::<Seq<char>>::empty());
    }
    while k < cands.len()
        invariant
            k <= cands.len(),
            cv == vv_view(cands@),
            cv == candidates(spec@),
            vv_view(names@) == push_names(Seq::empty(), cv.take(k as int)),
        decreases cands.len() - k,
    {
        push_name_exec(&mut names, &cands[k]);
        proof {
            let t = cv.take(k as int + 1);
            assert(t.drop_last() =~= cv.take(k as int));
            assert(t.last() == cands@[k as int]@);
        }
        k += 1;
    }
    proof {
        assert(cv.take(cands.len() as int) =~= cv);
    }
    let mut out: Vec<String> = Vec::new();
    let mut m: usize = 0;
    while m < names.len()
        invariant
            m <= names.len(),
            vv_view(names@) == referenced_spec(spec@),
            out@.len() == m,
            forall|q: int| 0 <= q < m ==> (#[trigger] out@[q])@ == referenced_spec(spec@)[q],
        decreases names.len() - m,
    {
        let sv = string_of(&names[m]);
        out.push(sv);
        assert(names@[m as int]@ == referenced_spec(spec@)[m as int]);
        m += 1;
    }
    out
}

/// A plain file name: not empty, and free of whitespace, `#`, `;` and newlines.
pub open spec fn plain_name(n: Seq<char>) -> bool {
    &&& n.len() > 0
    &&& forall|i: int|
        0 <= i < n.len() ==> !is_ws(#[trigger] n[i]) && n[i] != '#' && n[i] != ';' && n[i] != '\n'
}

proof fn lemma_trim_plain(s: Seq<char>)
    requires
        forall|i: int| 0 <= i < s.len() ==> !is_ws(#[trigger] s[i]),
    ensures
        trim(s) == s,
{
    if s.len() > 0 {
        assert(!is_ws(s[0]));
        assert(skip_ws(s, 0) == 0);
        assert(!is_ws(s[s.len() - 1]));
        assert(back_ws(s, 0, s.len() as int) == s.len());
    }
    assert(s.subrange(0, s.len() as int) =~= s);
}

proof fn lemma_word_scan_plain(s: Seq<char>)
    requires
        forall|i: int| 0 <= i < s.len() ==> !is_ws(#[trigger] s[i]),
    ensures
        word_scan(s) == (Seq::<Seq<char>>::empty(), s),
    decreases s.len(),
{
    if s.len() > 0 {
        let d = s.drop_last();
        assert forall|i: int| 0 <= i < d.len() implies !is_ws(#[trigger] d[i]) by {
            assert(d[i] == s[i]);
        }
        lemma_word_scan_plain(d);
        assert(!is_ws(s[s.len() - 1]));
        assert(d.push(s.last()) =~= s);
    } else {
        assert(s =~= Seq::<char>::empty());
    }
}

proof fn lemma_not_starts(w: Seq<char>, p: Seq<char>, i: int)
    requires
        0 <= i < p.len(),
        i < w.len(),
        w[i] != p[i],
    ensures
        !starts(w, p),
{
    if w.len() >= p.len() {
        assert(w.take(p.len() as int)[i] == w[i]);
    }
}

proof fn lemma_starts_tag(tag: Seq<char>, name: Seq<char>)
    ensures
        starts(tag + name, tag),
        (tag + name).skip(tag.len() as int) == name,
        forall|i: int| 0 <= i < tag.len() ==> (tag + name)[i] == tag[i],
{
    assert((tag + name).take(tag.len() as int) =~= tag);
    assert((tag + name).skip(tag.len() as int) =~= name);
}

/// The six reference tags of the show grammar.
spec fn tag_splat() -> Seq<char> {
    seq!['s', 'p', 'l', 'a', 't', ':']
}

spec fn tag_image() -> Seq<char> {
    seq!['i', 'm', 'a', 'g', 'e', ':']
}

spec fn tag_mesh() -> Seq<char> {
    seq!['m', 'e', 's', 'h', ':']
}

spec fn tag_glb() -> Seq<char> {
    seq!['g', 'l', 'b', ':']
}

spec fn tag_gltf() -> Seq<char> {
    seq!['g', 'l', 't', 'f', ':']
}

spec fn tag_model() -> Seq<char> {
    seq!['m', 'o', 'd', 'e', 'l', ':']
}

proof fn lemma_tagged_word(tag: Seq<char>, name: Seq<char>)
    requires
        tag == tag_splat() || tag == tag_image() || tag == tag_mesh() || tag == tag_glb() || tag
            == tag_gltf() || tag == tag_model(),
        tag == tag_splat() ==> lacks(name, '+'),
    ensures
        word_names(tag + name) == seq![name],
{
    let w = tag + name;
    lemma_starts_tag(tag, name);
    if tag == tag_splat() {
        lemma_pieces2_single(name, '+', '+');
    } else if tag == tag_image() {
        lemma_not_starts(w, tag_splat(), 0);
    } else if tag == tag_mesh() {
        lemma_not_starts(w, tag_splat(), 0);
        lemma_not_starts(w, tag_image(), 0);
    } else if tag == tag_glb() {
        lemma_not_starts(w, tag_splat(), 0);
        lemma_not_starts(w, tag_image(), 0);
        lemma_not_starts(w, tag_mesh(), 0);
    } else if tag == tag_gltf() {
        lemma_not_starts(w, tag_splat(), 0);
        lemma_not_starts(w, tag_image(), 0);
        lemma_not_starts(w, tag_mesh(), 0);
        lemma_not_starts(w, tag_glb(), 2);
    } else {
        lemma_not_starts(w, tag_splat(), 0);
        lemma_not_starts(w, tag_image(), 0);
        lemma_not_starts(w, tag_mesh(), 1);
        lemma_not_starts(w, tag_glb(), 0);
        lemma_not_starts(w, tag_gltf(), 0);
    }
}

proof fn lemma_flatten_single<T>(m: Seq<Seq<T>>)
    requires
        m.len() == 1,
    ensures
        flatten(m) == m[0],
{
    assert(m.drop_last() =~= Seq::<Seq<T>>::empty());
    assert(flatten(m.drop_last()) == Seq::<T>::empty());
    assert(Seq::<T>::empty() + m.last() =~= m[0]);
}

proof fn lemma_tagged_line(tag: Seq<char>, name: Seq<char>)
    requires
        tag == tag_splat() || tag == tag_image() || tag == tag_mesh() || tag == tag_glb() || tag
            == tag_gltf() || tag == tag_model(),
        tag == tag_splat() ==> lacks(name, '+'),
        plain_name(name),
    ensures
        line_candidates(tag + name) == seq![name],
        lacks(tag + name, ';'),
        lacks(tag + name, '\n'),
{
    let w = tag + name;
    assert forall|i: int| 0 <= i < w.len() implies !is_ws(#[trigger] w[i]) && w[i] != '#' && w[i]
        != ';' && w[i] != '\n' by {
        if i < tag.len() {
            assert(w[i] == tag[i]);
        } else {
            assert(w[i] == name[i - tag.len()]);
        }
    }
    lemma_before_char_absent(w, '#');
    lemma_word_scan_plain(w);
    assert(words(w) == seq![w]);
    lemma_tagged_word(tag, name);
    let f = |x: Seq<char>| word_names(x);
    let m = seq![w].map_values(f);
    lemma_flatten_single(m);
}

/// Pushing a name the list lacks appends it; a listed name stays listed.
proof fn lemma_push_name_lists(names: Seq<Seq<char>>, n: Seq<char>)
    requires
        trim(n) == n,
        n.len() > 0,
    ensures
        push_name(names, n).contains(n),
{
    if !names.contains(n) {
        if is_obj(n) {
            assert(names.push(n).push(n.take(n.len() - 4) + seq!['.', 'm', 't', 'l'])[names.len()
                as int] == n);
        } else {
            assert(names.push(n)[names.len() as int] == n);
        }
    }
}

/// A show line made of one reference token, `TAG` followed by a plain file name (for `splat:`,
/// one without `+`), after any show text and a `;` or newline: the assets already referenced
/// stay as they were, in order; the file name is appended unless it is already listed, and an
/// appended `.obj` brings its `.mtl` right after it. Either way the file is listed.
pub proof fn lemma_token_line_references(
    x: Seq<char>,
    sep: char,
    tag: Seq<char>,
    name: Seq<char>,
)
    requires
        sep == ';' || sep == '\n',
        tag == seq!['s', 'p', 'l', 'a', 't', ':'] || tag == seq!['i', 'm', 'a', 'g', 'e', ':']
            || tag == seq!['m', 'e', 's', 'h', ':'] || tag == seq!['g', 'l', 'b', ':'] || tag
            == seq!['g', 'l', 't', 'f', ':'] || tag == seq!['m', 'o', 'd', 'e', 'l', ':'],
        tag == seq!['s', 'p', 'l', 'a', 't', ':'] ==> lacks(name, '+'),
        plain_name(name),
    ensures
        ({
            let before = referenced_spec(x);
            referenced_spec(x + seq![sep] + tag + name) == if before.contains(name) {
                before
            } else if is_obj(name) {
                before.push(name).push(name.take(name.len() - 4) + seq!['.', 'm', 't', 'l'])
            } else {
                before.push(name)
            }
        }),
        referenced_spec(x + seq![sep] + tag + name).contains(name),
{
    let y = tag + name;
    lemma_tagged_line(tag, name);
    assert(x + seq![sep] + tag + name =~= x + seq![sep] + y);
    lemma_pieces2_append(x, sep, y, ';', '\n');
    let f = |l: Seq<char>| line_candidates(l);
    let ps = pieces2(x, ';', '\n');
    let m = ps.push(y).map_values(f);
    assert(m.drop_last() =~= ps.map_values(f));
    assert(m.last() == seq![name]);
    let c = flatten(ps.map_values(f));
    assert(candidates(x + seq![sep] + y) == c + seq![name]);
    assert(c + seq![name] =~= c.push(name));
    assert(c.push(name).drop_last() =~= c);
    lemma_trim_plain(name);
    lemma_push_name_lists(push_names(Seq::empty(), c), name);
}

proof fn lemma_splat_pair_line(a: Seq<char>, b: Seq<char>)
    requires
        plain_name(a),
        plain_name(b),
        lacks(a, '+'),
        lacks(b, '+'),
    ensures
        line_candidates(tag_splat() + a + seq!['+'] + b) == seq![a, b],
        lacks(tag_splat() + a + seq!['+'] + b, ';'),
        lacks(tag_splat() + a + seq!['+'] + b, '\n'),
{
    let tag = tag_splat();
    let n = a + seq!['+'] + b;
    let w = tag + n;
    assert(tag + a + seq!['+'] + b =~= w);
    lemma_starts_tag(tag, n);
    lemma_pieces2_single(a, '+', '+');
    lemma_pieces2_append(a, '+', b, '+', '+');
    assert(seq![a].push(b) =~= seq![a, b]);
    assert(word_names(w) == seq![a, b]);
    assert forall|i: int| 0 <= i < w.len() implies !is_ws(#[trigger] w[i]) && w[i] != '#' && w[i]
        != ';' && w[i] != '\n' by {
        if i < tag.len() {
            assert(w[i] == tag[i]);
        } else if i < tag.len() + a.len() {
            assert(w[i] == a[i - tag.len()]);
        } else if i > tag.len() + a.len() {
            assert(w[i] == b[i - tag.len() - a.len() - 1]);
        } else {
            assert(w[i] == '+');
        }
    }
    lemma_before_char_absent(w, '#');
    lemma_word_scan_plain(w);
    assert(words(w) == seq![w]);
    let g = |q: Seq<char>| word_names(q);
    lemma_flatten_single(seq![w].map_values(g));
}

/// A `splat:` token listing two plain file names joined by `+`, after any show text and a `;` or
/// newline: both files are among the referenced assets.
pub proof fn lemma_splat_pair_references(x: Seq<char>, sep: char, a: Seq<char>, b: Seq<char>)
    requires
        sep == ';' || sep == '\n',
        plain_name(a),
        plain_name(b),
        lacks(a, '+'),
        lacks(b, '+'),
    ensures
        referenced_spec(x + seq![sep] + seq!['s', 'p', 'l', 'a', 't', ':'] + a + seq!['+'] + b).contains(a),
        referenced_spec(x + seq![sep] + seq!['s', 'p', 'l', 'a', 't', ':'] + a + seq!['+'] + b).contains(b),
{
    let w = tag_splat() + a + seq!['+'] + b;
    lemma_splat_pair_line(a, b);
    assert(x + seq![sep] + seq!['s', 'p', 'l', 'a', 't', ':'] + a + seq!['+'] + b =~= x + seq![sep] + w);
    lemma_pieces2_append(x, sep, w, ';', '\n');
    let f = |l: Seq<char>| line_candidates(l);
    let ps = pieces2(x, ';', '\n');
    let m = ps.push(w).map_values(f);
    assert(m.drop_last() =~= ps.map_values(f));
    assert(m.last() == seq![a, b]);
    let c = flatten(ps.map_values(f));
    let cs = c + seq![a, b];
    assert(candidates(x + seq![sep] + w) == cs);
    lemma_trim_plain(a);
    lemma_trim_plain(b);
    let e = Seq::<Seq<char>>::empty();
    let r0 = push_names(e, c);
    let r1 = push_name(r0, a);
    assert(cs.drop_last() =~= c.push(a));
    assert(cs.last() == b);
    assert(c.push(a).drop_last() =~= c);
    assert(c.push(a).last() == a);
    assert(push_names(e, c.push(a)) == r1);
    assert(push_names(e, cs) == push_name(r1, b));
    lemma_push_name_lists(r0, a);
    lemma_push_name_lists(r1, b);
    let k = choose|k: int| 0 <= k < r1.len() && r1[k] == a;
    assert(push_name(r1, b)[k] == a);
}

/// A show that is a single reference token, `TAG` followed by a plain file name (for `splat:`,
/// one without `+`), references exactly that file (and, for an `.obj`, its `.mtl` after it).
pub proof fn lemma_token_show_references(tag: Seq<char>, name: Seq<char>)
    requires
        tag == seq!['s', 'p', 'l', 'a', 't', ':'] || tag == seq!['i', 'm', 'a', 'g', 'e', ':']
            || tag == seq!['m', 'e', 's', 'h', ':'] || tag == seq!['g', 'l', 'b', ':'] || tag
            == seq!['g', 'l', 't', 'f', ':'] || tag == seq!['m', 'o', 'd', 'e', 'l', ':'],
        tag == seq!['s', 'p', 'l', 'a', 't', ':'] ==> lacks(name, '+'),
        plain_name(name),
    ensures
        referenced_spec(tag + name) == (if is_obj(name) {
            seq![name, name.take(name.len() - 4) + seq!['.', 'm', 't', 'l']]
        } else {
            seq![name]
        }),
{
    let y = tag + name;
    lemma_tagged_line(tag, name);
    lemma_pieces2_single(y, ';', '\n');
    let f = |l: Seq<char>| line_candidates(l);
    let m = seq![y].map_values(f);
    assert(m[0] == seq![name]);
    lemma_flatten_single(m);
    assert(candidates(y) == seq![name]);
    lemma_trim_plain(name);
    let e = Seq::<Seq<char>>::empty();
    assert(seq![name].drop_last() =~= e);
    assert(seq![name].last() == name);
    assert(push_names(e, e) == e);
    assert(!e.contains(name));
    assert(push_names(e, seq![name]) == push_name(e, name));
    assert(e.push(name) =~= seq![name]);
    assert(e.push(name).push(name.take(name.len() - 4) + seq!['.', 'm', 't', 'l']) =~= seq![
        name,
        name.take(name.len() - 4) + seq!['.', 'm', 't', 'l'],
    ]);
}

/// One settings line: the text before any `#`, trimmed; a line with an `=` gives its key
/// (trimmed) and value (trimmed, then stripped of surrounding `"` and then `'` quotes).
pub open spec fn kv_line(l: Seq<char>) -> Option<(Seq<char>, Seq<char>)> {
    let t = trim(before_char(l, '#'));
    match find_char(t, '=', 0) {
        None => None,
        Some(k) => Some((trim(t.take(k)), trim_char(trim_char(trim(t.skip(k + 1)), '"'), '\''))),
    }
}

pub open spec fn kv_pairs(ls: Seq<Seq<char>>) -> Seq<(Seq<char>, Seq<char>)>
    decreases ls.len(),
{
    if ls.len() == 0 {
        Seq::empty()
    } else {
        kv_pairs(ls.drop_last()) + match kv_line(ls.last()) {
            Some(p) => seq![p],
            None => Seq::empty(),
        }
    }
}

pub open spec fn string_pairs(v: Seq<(String, String)>) -> Seq<(Seq<char>, Seq<char>)> {
    v.map_values(|p: (String, String)| (p.0@, p.1@))
}

/// The `key = value` settings of a bundle description, in order: `#` comments, surrounding
/// quotes and blank or `=`-less lines ignored. (A line's trailing carriage return is whitespace,
/// so it never reaches a key or value.)
pub fn parse_kv(s: &str) -> (r: Vec<(String, String)>)
    ensures
        string_pairs(r@) == kv_pairs(pieces2(s@, '\n', '\n')),
{
    let cs = chars_of(s);
    let lines = split2(&cs, '\n', '\n');
    let ghost lv = vv_view(lines@);
    let mut out: Vec<(String, String)> = Vec::new();
    let mut i: usize = 0;
    proof {
        assert(string_pairs(out@) =~= kv_pairs(lv.take(0)));
    }
    while i < lines.len()
        invariant
            i <= lines.len(),
            lv == vv_view(lines@),
            lv == pieces2(s@, '\n', '\n'),
            string_pairs(out@) == kv_pairs(lv.take(i as int)),
        decreases lines.len() - i,
    {
        let line = trim_chars(&before_char_exec(&lines[i], '#'));
        let k = find_char_exec(&line, '=');
        let ghost before = string_pairs(out@);
        proof {
            let t = lv.take(i as int + 1);
            assert(t.drop_last() =~= lv.take(i as int));
            assert(t.last() == lines@[i as int]@);
        }
        if k < line.len() {
            let key = trim_chars(&sub_chars(&line, 0, k));
            let raw = trim_chars(&sub_chars(&line, k + 1, line.len()));
            let value = trim_char_exec(&trim_char_exec(&raw, '"'), '\'');
            proof {
                assert(line@.subrange(0, k as int) =~= line@.take(k as int));
                assert(line@.subrange(k as int + 1, line@.len() as int) =~= line@.skip(k as int + 1));
            }
            let ks = string_of(&key);
            let vs = string_of(&value);
            out.push((ks, vs));
            assert(string_pairs(out@) =~= before.push((key@, value@)));
        } else {
            assert(kv_line(lv[i as int]) is None);
        }
        proof {
            assert(string_pairs(out@) =~= kv_pairs(lv.take(i as int + 1)));
        }
        i += 1;
    }
    proof {
        assert(lv.take(lines.len() as int) =~= lv);
    }
    out
}

proof fn lemma_kv_pairs_push(ls: Seq<Seq<char>>, l: Seq<char>)
    ensures
        kv_pairs(ls.push(l)) == kv_pairs(ls) + match kv_line(l) {
            Some(p) => seq![p],
            None => Seq::empty(),
        },
{
    assert(ls.push(l).drop_last() =~= ls);
    assert(ls.push(l).last() == l);
}

/// A settings text made of one line without `#`: `parse_kv` gives nothing when the trimmed line
/// has no `=`, and otherwise exactly one setting whose key is the trimmed text before the first
/// `=` and whose value is the trimmed text after it with surrounding `"` and then `'` quotes
/// stripped. Nothing else is cut from the value: a `;` in it stays.
pub proof fn lemma_setting_line(l: Seq<char>)
    requires
        lacks(l, '#'),
        lacks(l, '\n'),
    ensures
        ({
            let t = trim(l);
            match find_char(t, '=', 0) {
                Some(k) => kv_pairs(pieces2(l, '\n', '\n')) == seq![
                    (trim(t.take(k)), trim_char(trim_char(trim(t.skip(k + 1)), '"'), '\'')),
                ],
                None => kv_pairs(pieces2(l, '\n', '\n')) == Seq::<(Seq<char>, Seq<char>)>::empty(),
            }
        }),
{
    lemma_pieces2_single(l, '\n', '\n');
    lemma_before_char_absent(l, '#');
    lemma_kv_pairs_push(Seq::empty(), l);
    assert(seq![l] =~= Seq::<Seq<char>>::empty().push(l));
    assert(kv_pairs(Seq::<Seq<char>>::empty()) == Seq::<(Seq<char>, Seq<char>)>::empty());
    let t = trim(l);
    match find_char(t, '=', 0) {
        Some(k) => {
            let p = (trim(t.take(k)), trim_char(trim_char(trim(t.skip(k + 1)), '"'), '\''));
            assert(Seq::<(Seq<char>, Seq<char>)>::empty() + seq![p] =~= seq![p]);
        },
        None => {
            assert(Seq::<(Seq<char>, Seq<char>)>::empty() + Seq::<(Seq<char>, Seq<char>)>::empty()
                =~= Seq::<(Seq<char>, Seq<char>)>::empty());
        },
    }
}

/// A line without `#` added after any settings text: the settings already read stay as they
/// were, and the new line adds nothing when its trimmed text has no `=`, and otherwise the one
/// setting whose key is the trimmed text before the first `=` and whose value is the trimmed
/// text after it with surrounding `"` and then `'` quotes stripped (a `;` in it stays).
pub proof fn lemma_setting_line_appended(x: Seq<char>, l: Seq<char>)
    requires
        lacks(l, '#'),
        lacks(l, '\n'),
    ensures
        ({
            let t = trim(l);
            let before = kv_pairs(pieces2(x, '\n', '\n'));
            let after = kv_pairs(pieces2(x + seq!['\n'] + l, '\n', '\n'));
            match find_char(t, '=', 0) {
                Some(k) => after == before.push(
                    (trim(t.take(k)), trim_char(trim_char(trim(t.skip(k + 1)), '"'), '\'')),
                ),
                None => after == before,
            }
        }),
{
    lemma_pieces2_append(x, '\n', l, '\n', '\n');
    lemma_before_char_absent(l, '#');
    let ps = pieces2(x, '\n', '\n');
    lemma_kv_pairs_push(ps, l);
    let t = trim(l);
    match find_char(t, '=', 0) {
        Some(k) => {
            let p = (trim(t.take(k)), trim_char(trim_char(trim(t.skip(k + 1)), '"'), '\''));
            assert(kv_pairs(ps) + seq![p] =~= kv_pairs(ps).push(p));
        },
        None => {
            assert(kv_pairs(ps) + Seq::<(Seq<char>, Seq<char>)>::empty() =~= kv_pairs(ps));
        },
    }
}

/// A `#` comment never changes what a settings line sets: after any settings text, a line whose
/// text up to its first `#` is `body` adds exactly what `body` alone would.
pub proof fn lemma_setting_comment(x: Seq<char>, body: Seq<char>, comment: Seq<char>)
    requires
        lacks(body, '#'),
        lacks(body, '\n'),
        lacks(comment, '\n'),
    ensures
        kv_pairs(pieces2(x + seq!['\n'] + body + seq!['#'] + comment, '\n', '\n')) == kv_pairs(
            pieces2(x + seq!['\n'] + body, '\n', '\n'),
        ),
{
    let l = body + seq!['#'] + comment;
    assert(lacks(l, '\n')) by {
        assert forall|i: int| 0 <= i < l.len() implies l[i] != '\n' by {
            if i < body.len() {
                assert(l[i] == body[i]);
            } else if i > body.len() {
                assert(l[i] == comment[i - body.len() - 1]);
            }
        }
    }
    assert(x + seq!['\n'] + body + seq!['#'] + comment =~= x + seq!['\n'] + l);
    lemma_pieces2_append(x, '\n', l, '\n', '\n');
    lemma_pieces2_append(x, '\n', body, '\n', '\n');
    let ps = pieces2(x, '\n', '\n');
    lemma_kv_pairs_push(ps, l);
    lemma_kv_pairs_push(ps, body);
    lemma_before_char_first(body, '#', comment);
    lemma_before_char_absent(body, '#');
    assert(kv_line(l) == kv_line(body));
}

/// The value of the first setting named `key`.
pub open spec fn first_setting(kv: Seq<(Seq<char>, Seq<char>)>, key: Seq<char>) -> Option<Seq<char>>
    decreases kv.len(),
{
    if kv.len() == 0 {
        None
    } else if kv[0].0 == key {
        Some(kv[0].1)
    } else {
        first_setting(kv.drop_first(), key)
    }
}

/// The value of the first setting named `key`, if any.
pub fn setting(settings: &Vec<(String, String)>, key: &str) -> (r: Option<String>)
    ensures
        r matches Some(v) ==> first_setting(string_pairs(settings@), key@) == Some(v@),
        r is None ==> first_setting(string_pairs(settings@), key@) is None,
{
    let k = chars_of(key);
    let ghost kv = string_pairs(settings@);
    let mut i: usize = 0;
    assert(kv.skip(0) =~= kv);
    while i < settings.len()
        invariant
            i <= settings.len(),
            kv == string_pairs(settings@),
            k@ == key@,
            first_setting(kv, key@) == first_setting(kv.skip(i as int), key@),
        decreases settings.len() - i,
    {
        let name = chars_of(settings[i].0.as_str());
        proof {
            assert(kv.skip(i as int)[0] == kv[i as int]);
            assert(kv.skip(i as int).drop_first() =~= kv.skip(i as int + 1));
        }
        if chars_eq(&name, k.as_slice()) {
            return Some(String::from_str(settings[i].1.as_str()));
        }
        i += 1;
    }
    None
}

/// Where a baked-in show comes from.
#[derive(Debug, Clone, Copy, PartialEq, Eq, Structural)]
pub enum ShowSource {
    /// A `seq = …` morph timeline.
    Sequence,
    /// A `compose = …` stage.
    Compose,
}

/// The show a bundle bakes in: its `seq` setting if there is one, else its `compose` setting.
pub open spec fn bundle_show_spec(kv: Seq<(Seq<char>, Seq<char>)>) -> Option<(ShowSource, Seq<char>)> {
    match first_setting(kv, seq!['s', 'e', 'q']) {
        Some(v) => Some((ShowSource::Sequence, v)),
        None => match first_setting(kv, seq!['c', 'o', 'm', 'p', 'o', 's', 'e']) {
            Some(v) => Some((ShowSource::Compose, v)),
            None => None,
        },
    }
}

/// The baked-in show's source and spec (a file path or inline text); `None` when the bundle
/// description names neither.
pub fn bundle_show(settings: &Vec<(String, String)>) -> (r: Option<(ShowSource, String)>)
    ensures
        r matches Some((k, v)) ==> bundle_show_spec(string_pairs(settings@)) == Some((k, v@)),
        r is None ==> bundle_show_spec(string_pairs(settings@)) is None,
{
    proof {
        reveal_strlit("seq");
        reveal_strlit("compose");
        assert("seq"@ =~= seq!['s', 'e', 'q']);
        assert("compose"@ =~= seq!['c', 'o', 'm', 'p', 'o', 's', 'e']);
    }
    match setting(settings, "seq") {
        Some(v) => Some((ShowSource::Sequence, v)),
        None => match setting(settings, "compose") {
            Some(v) => Some((ShowSource::Compose, v)),
            None => None,
        },
    }
}

/// The files a bundle ships: every asset the show references, then the logo when one is named
/// and the show does not already reference it.
pub open spec fn bundle_names_spec(show: Seq<char>, logo: Seq<char>) -> Seq<Seq<char>> {
    let names = referenced_spec(show);
    if logo.len() > 0 && !names.contains(logo) {
        names.push(logo)
    } else {
        names
    }
}

pub fn bundle_names(show_src: &str, logo: &str) -> (r: Vec<String>)
    ensures
        r@.len() == bundle_names_spec(show_src@, logo@).len(),
        forall|i: int|
            0 <= i < r@.len() ==> (#[trigger] r@[i])@ == bundle_names_spec(show_src@, logo@)[i],
{
    let mut names = referenced_assets(show_src);
    let ghost spec_names = referenced_spec(show_src@);
    if logo.is_empty() {
        return names;
    }
    let l = chars_of(logo);
    let mut j: usize = 0;
    while j < names.len()
        invariant
            j <= names.len(),
            l@ == logo@,
            logo@.len() > 0,
            spec_names == referenced_spec(show_src@),
            names@.len() == spec_names.len(),
            forall|q: int| 0 <= q < names@.len() ==> (#[trigger] names@[q])@ == spec_names[q],
            forall|q: int| 0 <= q < j ==> spec_names[q] != logo@,
        decreases names.len() - j,
    {
        if chars_eq(&chars_of(names[j].as_str()), l.as_slice()) {
            assert(spec_names[j as int] == logo@);
            assert(spec_names.contains(logo@));
            return names;
        }
        j += 1;
    }
    assert(!spec_names.contains(logo@));
    names.push(String::from_str(logo));
    names
}

/// `s` ends with `.ply`.
pub open spec fn is_ply(s: Seq<char>) -> bool {
    s.len() >= 4 && s.skip(s.len() - 4) == seq!['.', 'p', 'l', 'y']
}

/// The first `.ply` among the names.
pub open spec fn first_ply(names: Seq<Seq<char>>) -> Option<Seq<char>>
    decreases names.len(),
{
    if names.len() == 0 {
        None
    } else if is_ply(names[0]) {
        Some(names[0])
    } else {
        first_ply(names.drop_first())
    }
}

/// The splat that anchors the asset root: the first `.ply` the bundle ships, or empty.
pub fn root_ply(names: &Vec<String>) -> (r: String)
    ensures
        r@ == (match first_ply(names@.map_values(|s: String| s@)) {
            Some(n) => n,
            None => Seq::empty(),
        }),
{
    let ghost nv = names@.map_values(|s: String| s@);
    let mut i: usize = 0;
    assert(nv.skip(0) =~= nv);
    while i < names.len()
        invariant
            i <= names.len(),
            nv == names@.map_values(|s: String| s@),
            first_ply(nv) == first_ply(nv.skip(i as int)),
        decreases names.len() - i,
    {
        let c = chars_of(names[i].as_str());
        let n = c.len();
        let hit = n >= 4 && c[n - 4] == '.' && c[n - 3] == 'p' && c[n - 2] == 'l' && c[n - 1] == 'y';
        proof {
            assert(nv.skip(i as int)[0] == nv[i as int]);
            assert(nv.skip(i as int).drop_first() =~= nv.skip(i as int + 1));
            assert(c@ == nv[i as int]);
            if n >= 4 {
                assert(is_ply(c@) ==> c@.skip(n - 4)[0] == '.' && c@.skip(n - 4)[1] == 'p'
                    && c@.skip(n - 4)[2] == 'l' && c@.skip(n - 4)[3] == 'y');
                if hit {
                    assert(c@.skip(n - 4) =~= seq!['.', 'p', 'l', 'y']);
                }
            }
            assert(hit == is_ply(nv[i as int]));
        }
        if hit {
            return String::from_str(names[i].as_str());
        }
        i += 1;
    }
    String::new()
}

} // verus!
