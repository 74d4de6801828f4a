//! The `MARTIN_POST` knob: which beat-gated post effects run (`chroma`, `grain`, `vignette`, or the
//! `cine` preset of all three), joined by `+` or `,`, with an optional `:strength`.

use vstd::prelude::*;
use crate::text::{chars_of, chars_eq, lower_chars, normalize, string_of, trim, trim_chars};
use crate::split::{lemma_pieces2_nonempty, pieces2, lacks, lemma_pieces2_single, lemma_pieces2_append};

verus! {

/// Effect bits of the post pass.
pub const POST_CHROMA: u32 = 1;

pub const POST_GRAIN: u32 = 2;

pub const POST_VIGNETTE: u32 = 4;

/// Which preset last set an effect's strength.
#[derive(Debug, Clone, Copy, PartialEq, Eq, Structural)]
pub enum Level {
    Unset,
    Plain,
    Cine,
}

/// The effects a knob selects: the bitfield of enabled passes, whether the chroma shear takes the
/// softer `cine` strength, and which preset set the grain and vignette strengths.
#[derive(Debug, Clone, Copy, PartialEq, Eq, Structural)]
pub struct PostEffects {
    pub mode: u32,
    pub chroma_cine: bool,
    pub grain: Level,
    pub vignette: Level,
}

pub open spec fn no_effects() -> PostEffects {
    PostEffects { mode: 0, chroma_cine: false, grain: Level::Unset, vignette: Level::Unset }
}

pub open spec fn is_chroma_word(t: Seq<char>) -> bool {
    ||| t == seq!['c', 'h', 'r', 'o', 'm', 'a']
    ||| t == seq!['r', 'g', 'b']
    ||| t == seq!['r', 'g', 'b', '-', 's', 'p', 'l', 'i', 't']
    ||| t == seq!['r', 'g', 'b', 's', 'p', 'l', 'i', 't']
    ||| t == seq!['s', 'p', 'l', 'i', 't']
}

pub open spec fn is_grain_word(t: Seq<char>) -> bool {
    t == seq!['g', 'r', 'a', 'i', 'n'] || t == seq!['f', 'i', 'l', 'm']
}

pub open spec fn is_vignette_word(t: Seq<char>) -> bool {
    t == seq!['v', 'i', 'g', 'n', 'e', 't', 't', 'e'] || t == seq!['v', 'i', 'g']
}

pub open spec fn is_cine_word(t: Seq<char>) -> bool {
    t == seq!['c', 'i', 'n', 'e'] || t == seq!['c', 'i', 'n', 'e', 'm', 'a', 't', 'i', 'c']
}

/// One normalized effect name applied to the effects so far; unknown names change nothing.
pub open spec fn apply_effect(e: PostEffects, t: Seq<char>) -> PostEffects {
    if is_chroma_word(t) {
        PostEffects { mode: e.mode | POST_CHROMA, ..e }
    } else if is_grain_word(t) {
        PostEffects { mode: e.mode | POST_GRAIN, grain: Level::Plain, ..e }
    } else if is_vignette_word(t) {
        PostEffects { mode: e.mode | POST_VIGNETTE, vignette: Level::Plain, ..e }
    } else if is_cine_word(t) {
        PostEffects {
            mode: e.mode | POST_CHROMA | POST_GRAIN | POST_VIGNETTE,
            chroma_cine: true,
            grain: Level::Cine,
            vignette: Level::Cine,
        }
    } else {
        e
    }
}

/// The pieces, each trimmed and ASCII-lowercased, applied in order.
pub open spec fn effects_of(ps: Seq<Seq<char>>) -> PostEffects
    decreases ps.len(),
{
    if ps.len() == 0 {
        no_effects()
    } else {
        apply_effect(effects_of(ps.drop_last()), normalize(ps.last()))
    }
}

/// The first `:` in the knob, if any.
pub open spec fn first_colon(s: Seq<char>, i: int) -> Option<int>
    decreases s.len() - i,
{
    if i < 0 || i >= s.len() {
        None
    } else if s[i] == ':' {
        Some(i)
    } else {
        first_colon(s, i + 1)
    }
}

/// The knob's effect names: everything before the first `:`.
pub open spec fn effect_names(s: Seq<char>) -> Seq<char> {
    match first_colon(s, 0) {
        Some(k) => s.take(k),
        None => s,
    }
}

/// The strength text: what follows the first `:`, trimmed.
pub open spec fn strength_text(s: Seq<char>) -> Option<Seq<char>> {
    match first_colon(s, 0) {
        Some(k) => Some(trim(s.skip(k + 1))),
        None => None,
    }
}

proof fn lemma_first_colon_absent(s: Seq<char>, i: int)
    requires
        lacks(s, ':'),
        0 <= i,
    ensures
        first_colon(s, i) is None,
    decreases s.len() - i,
{
    if i < s.len() {
        lemma_first_colon_absent(s, i + 1);
    }
}

proof fn lemma_effects_push(ps: Seq<Seq<char>>, w: Seq<char>)
    ensures
        effects_of(ps.push(w)) == apply_effect(effects_of(ps), normalize(w)),
{
    assert(ps.push(w).drop_last() =~= ps);
    assert(ps.push(w).last() == w);
}

/// What one effect name does to the effects selected before it, by its trimmed, lowercased
/// spelling: `chroma`, `rgb`, `rgb-split`, `rgbsplit` and `split` turn on the chroma shear;
/// `grain` and `film` the grain at its plain strength; `vignette` and `vig` the vignette at its
/// plain strength; `cine` and `cinematic` all three at the softer cine strengths. Any other name
/// leaves the effects as they were.
pub open spec fn effect_law(before: PostEffects, t: Seq<char>, after: PostEffects) -> bool {
    if t == seq!['v', 'i', 'g', 'n', 'e', 't', 't', 'e'] || t == seq!['v', 'i', 'g'] {
        after == PostEffects { mode: before.mode | 4u32, vignette: Level::Plain, ..before }
    } else if t == seq!['g', 'r', 'a', 'i', 'n'] || t == seq!['f', 'i', 'l', 'm'] {
        after == PostEffects { mode: before.mode | 2u32, grain: Level::Plain, ..before }
    } else if t == seq!['c', 'h', 'r', 'o', 'm', 'a'] || t == seq!['r', 'g', 'b'] || t == seq![
        'r',
        'g',
        'b',
        '-',
        's',
        'p',
        'l',
        'i',
        't',
    ] || t == seq!['r', 'g', 'b', 's', 'p', 'l', 'i', 't'] || t == seq!['s', 'p', 'l', 'i', 't'] {
        after == PostEffects { mode: before.mode | 1u32, ..before }
    } else if t == seq!['c', 'i', 'n', 'e'] || t == seq!['c', 'i', 'n', 'e', 'm', 'a', 't', 'i', 'c'] {
        after == PostEffects {
            mode: before.mode | 7u32,
            chroma_cine: true,
            grain: Level::Cine,
            vignette: Level::Cine,
        }
    } else {
        after == before
    }
}

proof fn lemma_apply_effect_law(e: PostEffects, t: Seq<char>)
    ensures
        effect_law(e, t, apply_effect(e, t)),
{
    let m = e.mode;
    assert(m | POST_CHROMA | POST_GRAIN | POST_VIGNETTE == m | 7u32) by (bit_vector);
    let v = seq!['v', 'i', 'g', 'n', 'e', 't', 't', 'e'];
    let vg = seq!['v', 'i', 'g'];
    let g = seq!['g', 'r', 'a', 'i', 'n'];
    let f = seq!['f', 'i', 'l', 'm'];
    if t == v || t == vg {
        assert(!is_chroma_word(t) && !is_grain_word(t)) by {
            assert(t[0] == 'v');
        }
    } else if t == g || t == f {
        assert(!is_chroma_word(t)) by {
            assert(t[0] == 'g' || t[0] == 'f');
        }
    } else if is_chroma_word(t) {
    } else if t == seq!['c', 'i', 'n', 'e'] || t == seq!['c', 'i', 'n', 'e', 'm', 'a', 't', 'i', 'c'] {
    }
}

/// A knob holding one effect name and no strength (no `:`, `+` or `,`) selects exactly what that
/// name does on its own, starting from no effects: `vignette` or `vig` gives the vignette bit
/// alone at the plain strength, and so on for the other names; any other name selects nothing.
pub proof fn lemma_single_effect_knob(w: Seq<char>)
    requires
        lacks(w, ':'),
        lacks(w, '+'),
        lacks(w, ','),
    ensures
        effect_law(
            PostEffects { mode: 0, chroma_cine: false, grain: Level::Unset, vignette: Level::Unset },
            normalize(w),
            effects_of(pieces2(effect_names(w), '+', ',')),
        ),
{
    lemma_first_colon_absent(w, 0);
    lemma_pieces2_single(w, '+', ',');
    let e = Seq::<Seq<char>>::empty();
    assert(seq![w] =~= e.push(w));
    lemma_effects_push(e, w);
    lemma_apply_effect_law(no_effects(), normalize(w));
}

/// One more effect name joined by `+` or `,` to a knob without strength: the effects the earlier
/// names selected change exactly as that name says, and by nothing else.
pub proof fn lemma_effect_name_appended(x: Seq<char>, sep: char, w: Seq<char>)
    requires
        sep == '+' || sep == ',',
        lacks(x, ':'),
        lacks(w, ':'),
        lacks(w, '+'),
        lacks(w, ','),
    ensures
        effect_law(
            effects_of(pieces2(effect_names(x), '+', ',')),
            normalize(w),
            effects_of(pieces2(effect_names(x + seq![sep] + w), '+', ',')),
        ),
{
    let k = x + seq![sep] + w;
    assert(lacks(k, ':')) by {
        assert forall|i: int| 0 <= i < k.len() implies k[i] != ':' by {
            if i < x.len() {
                assert(k[i] == x[i]);
            } else if i > x.len() {
                assert(k[i] == w[i - x.len() - 1]);
            }
        }
    }
    lemma_first_colon_absent(x, 0);
    lemma_first_colon_absent(k, 0);
    lemma_pieces2_append(x, sep, w, '+', ',');
    let ps = pieces2(x, '+', ',');
    lemma_effects_push(ps, w);
    lemma_apply_effect_law(effects_of(ps), normalize(w));
}

fn apply_word(e: PostEffects, t: &Vec<char>) -> (r: PostEffects)
    ensures
        r == apply_effect(e, t@),
{
    if chars_eq(t, &['c', 'h', 'r', 'o', 'm', 'a']) || chars_eq(t, &['r', 'g', 'b']) || chars_eq(
        t,
        &['r', 'g', 'b', '-', 's', 'p', 'l', 'i', 't'],
    ) || chars_eq(t, &['r', 'g', 'b', 's', 'p', 'l', 'i', 't']) || chars_eq(
        t,
        &['s', 'p', 'l', 'i', 't'],
    ) {
        PostEffects { mode: e.mode | POST_CHROMA, ..e }
    } else if chars_eq(t, &['g', 'r', 'a', 'i', 'n']) || chars_eq(t, &['f', 'i', 'l', 'm']) {
        PostEffects { mode: e.mode | POST_GRAIN, grain: Level::Plain, ..e }
    } else if chars_eq(t, &['v', 'i', 'g', 'n', 'e', 't', 't', 'e']) || chars_eq(
        t,
        &['v', 'i', 'g'],
    ) {
        PostEffects { mode: e.mode | POST_VIGNETTE, vignette: Level::Plain, ..e }
    } else if chars_eq(t, &['c', 'i', 'n', 'e']) || chars_eq(
        t,
        &['c', 'i', 'n', 'e', 'm', 'a', 't', 'i', 'c'],
    ) {
        PostEffects {
            mode: e.mode | POST_CHROMA | POST_GRAIN | POST_VIGNETTE,
            chroma_cine: true,
            grain: Level::Cine,
            vignette: Level::Cine,
        }
    } else {
        e
    }
}

/// The parsed knob: the selected effects and, after a `:`, the trimmed strength text (the caller
/// reads it as a number, 1 when absent or unreadable). No effect bit set means the pass is off.
pub fn post_effects(knob: &str) -> (r: (PostEffects, Option<String>))
    ensures
        r.0 == effects_of(pieces2(effect_names(knob@), '+', ',')),
        r.1 matches Some(t) ==> strength_text(knob@) == Some(t@),
        r.1 is None ==> strength_text(knob@) is None,
{
    let cs = chars_of(knob);
    let mut k: usize = 0;
    while k < cs.len()
        invariant
            k <= cs.len(),
            cs@ == knob@,
            first_colon(cs@, 0) == first_colon(cs@, k as int),
        ensures
            k <= cs.len(),
            cs@ == knob@,
            first_colon(cs@, 0) == first_colon(cs@, k as int),
            k < cs.len() ==> cs@[k as int] == ':',
        decreases cs.len() - k,
    {
        if cs[k] == ':' {
            break;
        }
        k += 1;
    }
    let ghost names = effect_names(cs@);
    assert(names =~= cs@.take(k as int));
    let strength = if k < cs.len() {
        let mut rest: Vec<char> = Vec::new();
        let mut j: usize = k + 1;
        while j < cs.len()
            invariant
                k < j <= cs.len(),
                rest@ == cs@.subrange(k as int + 1, j as int),
            decreases cs.len() - j,
        {
            rest.push(cs[j]);
            j += 1;
            assert(rest@ =~= cs@.subrange(k as int + 1, j as int));
        }
        assert(rest@ =~= cs@.skip(k as int + 1));
        Some(string_of(&trim_chars(&rest)))
    } else {
        None
    };
    let mut e = PostEffects { mode: 0, chroma_cine: false, grain: Level::Unset, vignette: Level::Unset };
    let mut cur: Vec<char> = Vec::new();
    let mut i: usize = 0;
    proof {
        assert(names.take(0) =~= Seq::<char>::empty());
    }
    while i < k
        invariant
            i <= k <= cs.len(),
            names == cs@.take(k as int),
            pieces2(names.take(i as int), '+', ',').len() > 0,
            effects_of(pieces2(names.take(i as int), '+', ',').drop_last()) == e,
            pieces2(names.take(i as int), '+', ',').last() == cur@,
        decreases k - i,
    {
        let c = cs[i];
        proof {
            let t = names.take(i as int + 1);
            assert(t.drop_last() =~= names.take(i as int));
            assert(t.last() == c);
            lemma_pieces2_nonempty(names.take(i as int), '+', ',');
        }
        if c == '+' || c == ',' {
            let word = lower_chars(&trim_chars(&cur));
            e = apply_word(e, &word);
            cur = Vec::new();
            proof {
                let p = pieces2(names.take(i as int), '+', ',');
                let t = names.take(i as int + 1);
                assert(pieces2(t, '+', ',') == p.push(Seq::<char>::empty()));
                assert(pieces2(t, '+', ',').drop_last() =~= p);
            }
        } else {
            cur.push(c);
            proof {
                let p = pieces2(names.take(i as int), '+', ',');
                let t = names.take(i as int + 1);
                assert(pieces2(t, '+', ',') == p.update(p.len() - 1, p.last().push(c)));
                assert(pieces2(t, '+', ',').drop_last() =~= p.drop_last());
            }
        }
        i += 1;
    }
    proof {
        assert(names.take(k as int) =~= names);
    }
    let word = lower_chars(&trim_chars(&cur));
    e = apply_word(e, &word);
    (e, strength)
}

} // verus!
