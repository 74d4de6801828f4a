//! The procedural-splat generator's integer core: the splitmix64 PRNG and the L-system rewriter.

use vstd::prelude::*;

verus! {

pub open spec fn wrap64(x: int) -> u64 {
    (x % 0x1_0000_0000_0000_0000) as u64
}

/// The splitmix64 Weyl increment.
pub const GOLDEN_GAMMA: u64 = 0x9E37_79B9_7F4A_7C15;

/// splitmix64's output mix of the advanced state `z`.
pub open spec fn splitmix_mix(z: u64) -> u64 {
    let a = wrap64((z ^ (z >> 30u64)) * 0xBF58_476D_1CE4_E5B9);
    let b = wrap64((a ^ (a >> 27u64)) * 0x94D0_49BB_1331_11EB);
    b ^ (b >> 31u64)
}

/// The state after one draw.
pub open spec fn splitmix_next_state(s: u64) -> u64 {
    wrap64(s + GOLDEN_GAMMA)
}

/// A tiny splitmix64 PRNG: enough for uniform/normal/integer draws, fully deterministic per seed.
pub struct Rng(pub u64);

impl Rng {
    /// Advance the state by the Weyl increment and return the mixed output.
    pub fn next_u64(&mut self) -> (r: u64)
        ensures
            final(self).0 == splitmix_next_state(old(self).0),
            r == splitmix_mix(final(self).0),
    {
        self.0 = self.0.wrapping_add(GOLDEN_GAMMA);
        let mut z = self.0;
        z = (z ^ (z >> 30u64)).wrapping_mul(0xBF58_476D_1CE4_E5B9);
        z = (z ^ (z >> 27u64)).wrapping_mul(0x94D0_49BB_1331_11EB);
        z ^ (z >> 31u64)
    }

    /// A draw in `0..k` (the next output reduced modulo `k`).
    pub fn int_below(&mut self, k: u64) -> (r: u64)
        requires
            k > 0,
        ensures
            final(self).0 == splitmix_next_state(old(self).0),
            r == splitmix_mix(final(self).0) % k,
            r < k,
    {
        self.next_u64() % k
    }
}

/// The L-system string is capped at this many bytes so a branching rule cannot run away.
pub const MAX_LSYSTEM_LEN: usize = 400_000;

/// What one symbol rewrites to: `X` to `rx`, `F` to `rf`, every turtle command to itself.
pub open spec fn rewrite_symbol(c: char, rx: Seq<char>, rf: Seq<char>) -> Seq<char> {
    if c == 'X' {
        rx
    } else if c == 'F' {
        rf
    } else {
        seq![c]
    }
}

/// One rewriting pass over the whole string.
pub open spec fn rewrite(s: Seq<char>, rx: Seq<char>, rf: Seq<char>) -> Seq<char>
    decreases s.len(),
{
    if s.len() == 0 {
        Seq::empty()
    } else {
        rewrite(s.drop_last(), rx, rf) + rewrite_symbol(s.last(), rx, rf)
    }
}

/// `iters` rewriting passes from `s`, stopping early once the string exceeds the byte cap.
pub open spec fn expand_spec(s: Seq<char>, rx: Seq<char>, rf: Seq<char>, iters: nat) -> Seq<char>
    decreases iters,
{
    if iters == 0 {
        s
    } else {
        let next = rewrite(s, rx, rf);
        if vstd::utf8::encode_utf8(next).len() as usize > MAX_LSYSTEM_LEN {
            next
        } else {
            expand_spec(next, rx, rf, (iters - 1) as nat)
        }
    }
}

/// Expand an L-system: rewrite `X` to `rx` and `F` to `rf` for `iters` passes from `start`, leaving
/// turtle commands untouched, and stop after the pass that takes the string past the byte cap.
pub fn expand(start: &str, rx: &str, rf: &str, iters: usize) -> (r: String)
    ensures
        r@ == expand_spec(start@, rx@, rf@, iters as nat),
{
    let mut s = String::from_str(start);
    let mut k: usize = 0;
    while k < iters
        invariant
            k <= iters,
            expand_spec(start@, rx@, rf@, iters as nat) == expand_spec(
                s@,
                rx@,
                rf@,
                (iters - k) as nat,
            ),
        decreases iters - k,
    {
        let ghost prev = s@;
        let mut next = String::new();
        for c in it: s.as_str().chars()
            invariant
                it.seq() == s@,
                next@ == rewrite(s@.take(it.index() as int), rx@, rf@),
        {
            proof {
                let i = it.index() as int;
                assert(s@.take(i + 1).drop_last() =~= s@.take(i));
            }
            if c == 'X' {
                next.append(rx);
            } else if c == 'F' {
                next.append(rf);
            } else {
                crate::text::push_char(&mut next, c);
            }
        }
        proof {
            assert(s@.take(s@.len() as int) =~= s@);
        }
        s = next;
        k += 1;
        assert(s@ == rewrite(prev, rx@, rf@));
        if s.as_str().len() > MAX_LSYSTEM_LEN {
            return s;
        }
        assert(expand_spec(prev, rx@, rf@, (iters - k + 1) as nat) == expand_spec(
            s@,
            rx@,
            rf@,
            (iters - k) as nat,
        ));
    }
    s
}

} // verus!
