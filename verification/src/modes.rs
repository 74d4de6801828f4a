//! Name-keyed knob values and the run-mode decisions: background-shader modes, particle kinds,
//! the content path and headless rendering.

use vstd::prelude::*;
use crate::text::{chars_eq, normalize, normalized, parse_u32, parse_uint_spec};

verus! {

/// `bg:off`: hide the background layer entirely.
pub const BG_OFF: u32 = 0xffff_ffff;

/// The shader mode a name selects: the named effects, their aliases, a number passed through, and
/// the plasma (mode 0) for anything else. Case and surrounding whitespace are ignored.
pub open spec fn mode_index_spec(name: Seq<char>) -> u32 {
    let t = normalize(name);
    if t == seq!['p', 'l', 'a', 's', 'm', 'a'] {
        0
    } else if t == seq!['t', 'u', 'n', 'n', 'e', 'l'] {
        1
    } else if t == seq!['s', 't', 'a', 'r', 's'] || t == seq!['s', 't', 'a', 'r', 'f', 'i', 'e', 'l', 'd'] {
        2
    } else if t == seq!['w', 'a', 'r', 'p'] {
        3
    } else if t == seq!['r', 'i', 'n', 'g', 's'] {
        4
    } else if t == seq!['g', 'r', 'i', 'd'] {
        5
    } else if t == seq!['k', 'a', 'l', 'e', 'i', 'd', 'o'] || t == seq!['k', 'a', 'l', 'e', 'i', 'd', 'o', 's', 'c', 'o', 'p', 'e'] {
        6
    } else if t == seq!['b', 'o', 'l', 't'] || t == seq!['l', 'i', 'g', 'h', 't', 'n', 'i', 'n', 'g'] {
        7
    } else {
        match parse_uint_spec(t, u32::MAX as nat) {
            Some(v) => v as u32,
            None => 0,
        }
    }
}

/// Named background/interlude shader modes → the `mode` uniform the effect switches on.
pub fn mode_index(name: &str) -> (r: u32)
    ensures
        r == mode_index_spec(name@),
{
    let t = normalized(name);
    if chars_eq(&t, &['p', 'l', 'a', 's', 'm', 'a']) {
        0
    } else if chars_eq(&t, &['t', 'u', 'n', 'n', 'e', 'l']) {
        1
    } else if chars_eq(&t, &['s', 't', 'a', 'r', 's']) || chars_eq(&t, &['s', 't', 'a', 'r', 'f', 'i', 'e', 'l', 'd']) {
        2
    } else if chars_eq(&t, &['w', 'a', 'r', 'p']) {
        3
    } else if chars_eq(&t, &['r', 'i', 'n', 'g', 's']) {
        4
    } else if chars_eq(&t, &['g', 'r', 'i', 'd']) {
        5
    } else if chars_eq(&t, &['k', 'a', 'l', 'e', 'i', 'd', 'o']) || chars_eq(&t, &['k', 'a', 'l', 'e', 'i', 'd', 'o', 's', 'c', 'o', 'p', 'e']) {
        6
    } else if chars_eq(&t, &['b', 'o', 'l', 't']) || chars_eq(&t, &['l', 'i', 'g', 'h', 't', 'n', 'i', 'n', 'g']) {
        7
    } else {
        match parse_u32(&t) {
            Some(v) => v,
            None => 0,
        }
    }
}

/// A part's `bg:<name>` token: `off` (any case) hides the layer, anything else names a mode.
pub fn bg_token(name: &str) -> (r: u32)
    ensures
        r == (if crate::text::lower(name@) == seq!['o', 'f', 'f'] {
            BG_OFF
        } else {
            mode_index_spec(name@)
        }),
{
    let lowered = crate::text::lower_chars(&crate::text::chars_of(name));
    if chars_eq(&lowered, &['o', 'f', 'f']) {
        BG_OFF
    } else {
        mode_index(name)
    }
}

/// Which particle effect a `MARTIN_PARTICLES` value selects.
#[derive(Clone, Copy, PartialEq, Eq, Debug)]
pub enum ParticleKind {
    Embers,
    Confetti,
    Sparks,
    Fireworks,
}

/// The named kinds (case and surrounding whitespace ignored); anything else, including the legacy
/// `1`, is embers.
pub open spec fn particle_kind_spec(v: Seq<char>) -> ParticleKind {
    let t = normalize(v);
    if t == seq!['c', 'o', 'n', 'f', 'e', 't', 't', 'i'] {
        ParticleKind::Confetti
    } else if t == seq!['s', 'p', 'a', 'r', 'k', 's'] {
        ParticleKind::Sparks
    } else if t == seq!['f', 'i', 'r', 'e', 'w', 'o', 'r', 'k', 's'] {
        ParticleKind::Fireworks
    } else {
        ParticleKind::Embers
    }
}

impl ParticleKind {
    pub fn parse(v: &str) -> (r: ParticleKind)
        ensures
            r == particle_kind_spec(v@),
    {
        let t = normalized(v);
        if chars_eq(&t, &['c', 'o', 'n', 'f', 'e', 't', 't', 'i']) {
            ParticleKind::Confetti
        } else if chars_eq(&t, &['s', 'p', 'a', 'r', 'k', 's']) {
            ParticleKind::Sparks
        } else if chars_eq(&t, &['f', 'i', 'r', 'e', 'w', 'o', 'r', 'k', 's']) {
            ParticleKind::Fireworks
        } else {
            ParticleKind::Embers
        }
    }
}

/// Which content path a run takes.
#[derive(Clone, Copy, PartialEq, Eq, Debug)]
pub enum ContentMode {
    /// A standalone `glb:`/4D scene with no morph track.
    GlbAlone,
    /// The morph timeline (or the default demo).
    Sequence,
    /// A placed-objects stage with no morph track.
    ComposeOnly,
}

/// A glb/4D scene alone is standalone; an explicit sequence, or nothing at all, runs the morph
/// track; otherwise it is a compose-only stage.
pub open spec fn content_mode(glb_or_4d: bool, explicit_seq: bool, has_compose: bool) -> ContentMode {
    if glb_or_4d && !explicit_seq && !has_compose {
        ContentMode::GlbAlone
    } else if explicit_seq || !has_compose {
        ContentMode::Sequence
    } else {
        ContentMode::ComposeOnly
    }
}

pub fn choose_mode(glb_or_4d: bool, explicit_seq: bool, has_compose: bool) -> (r: ContentMode)
    ensures
        r == content_mode(glb_or_4d, explicit_seq, has_compose),
{
    if glb_or_4d && !explicit_seq && !has_compose {
        ContentMode::GlbAlone
    } else if explicit_seq || !has_compose {
        ContentMode::Sequence
    } else {
        ContentMode::ComposeOnly
    }
}

/// An explicit sequence always runs the morph track, whatever else is present; with no compose
/// stage the morph track runs unless a glb/4D scene stands alone.
pub proof fn lemma_explicit_seq_wins(glb_or_4d: bool, has_compose: bool)
    ensures
        content_mode(glb_or_4d, true, has_compose) == ContentMode::Sequence,
        content_mode(false, false, false) == ContentMode::Sequence,
        content_mode(glb_or_4d, false, true) == ContentMode::ComposeOnly,
{
}

/// Any output mode (recording, the bench, a screenshot or a contact sheet) renders headless.
pub fn is_headless(record: bool, bench: bool, shot: bool, shots: bool) -> (r: bool)
    ensures
        r == (record || bench || shot || shots),
{
    record || bench || shot || shots
}

/// Live audio plays unless the run records, takes a screenshot or is muted.
pub fn wants_live_audio(record: bool, shot: bool, mute: bool) -> (r: bool)
    ensures
        r == (!record && !shot && !mute),
{
    !record && !shot && !mute
}

} // verus!
