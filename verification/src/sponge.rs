//! A deterministic byte-oriented duplex sponge.
//!
//! The transcript protocol needs one primitive: absorb bytes, squeeze
//! bytes, with every squeezed byte a deterministic function of everything
//! absorbed and squeezed before it plus a domain label. The state
//! transition is specified exactly (the specification functions mirror the
//! mixing arithmetic), so determinism of everything built on top is a
//! consequence of the contracts alone. The mixing is a small multiplicative
//! scramble: it is a modelling stand-in for a cryptographic sponge, not a
//! collision-resistant one.

use vstd::prelude::*;

verus! {

/// The odd multiplier of the mixing step.
pub const MIX_MULTIPLIER: u64 = 0x9E37_79B9_7F4A_7C15;

/// The additive constant of the mixing step.
pub const MIX_INCREMENT: u64 = 0x632B_E593_86B2_B14D;

/// One mixing step: fold a word into the state.
pub open spec fn spec_mix(s: u64, x: u64) -> u64 {
    vstd::wrapping::u64_specs::wrapping_add(
        vstd::wrapping::u64_specs::wrapping_mul(s ^ x, MIX_MULTIPLIER),
        MIX_INCREMENT,
    )
}

/// The byte squeezed from state `s` at counter `c`.
pub open spec fn spec_extract(s: u64, c: u64) -> u8 {
    ((spec_mix(s, c) / 0x100_0000_0000_0000) % 256) as u8
}

/// The sponge: a mixing state and a squeeze counter.
#[derive(Clone, Copy, Debug, PartialEq, Eq, Structural)]
pub struct Sponge {
    pub s: u64,
    pub ctr: u64,
}

/// The state after absorbing one byte.
pub open spec fn spec_absorb_byte(g: Sponge, b: u8) -> Sponge {
    Sponge { s: spec_mix(g.s, b as u64), ctr: 0 }
}

/// The state after absorbing a byte sequence, front first.
pub open spec fn spec_absorb_seq(g: Sponge, bytes: Seq<u8>) -> Sponge
    decreases bytes.len(),
{
    if bytes.len() == 0 {
        g
    } else {
        spec_absorb_seq(spec_absorb_byte(g, bytes[0]), bytes.skip(1))
    }
}

/// The state after absorbing one word (used for labels and lengths).
pub open spec fn spec_absorb_u64(g: Sponge, x: u64) -> Sponge {
    Sponge { s: spec_mix(g.s, x), ctr: 0 }
}

/// The bytes squeezed from state `g`: `n` bytes at counters
/// `g.ctr, g.ctr + 1, ...`, the counter wrapping at `2^64`.
pub open spec fn spec_squeeze_seq(g: Sponge, n: nat) -> Seq<u8> {
    Seq::new(n, |i: int| spec_extract(g.s, ((g.ctr + i) % 0x1_0000_0000_0000_0000) as u64))
}

/// The state after squeezing `n` bytes.
pub open spec fn spec_after_squeeze(g: Sponge, n: nat) -> Sponge {
    Sponge { s: g.s, ctr: ((g.ctr + n) % 0x1_0000_0000_0000_0000) as u64 }
}

impl Sponge {
    /// A fresh sponge, keyed by a domain word.
    pub fn new(domain: u64) -> (r: Sponge)
        ensures
            r == spec_absorb_u64(Sponge { s: 0, ctr: 0 }, domain),
    {
        let g = Sponge { s: 0, ctr: 0 };
        g.mixed(domain)
    }

    /// The state with one word folded in.
    fn mixed(self, x: u64) -> (r: Sponge)
        ensures
            r == spec_absorb_u64(self, x),
    {
        let s0 = self.s;
        let m = (s0 ^ x).wrapping_mul(MIX_MULTIPLIER).wrapping_add(MIX_INCREMENT);
        Sponge { s: m, ctr: 0 }
    }

    /// Absorb a labelled word: the label, then the word.
    pub fn absorb_u64(&mut self, x: u64)
        ensures
            *final(self) == spec_absorb_u64(*old(self), x),
    {
        *self = self.mixed(x);
    }

    /// Absorb a byte sequence, front first.
    pub fn absorb_bytes(&mut self, bytes: &Vec<u8>)
        ensures
            *final(self) == spec_absorb_seq(*old(self), bytes@),
    {
        let n = bytes.len();
        let ghost g0 = *self;
        for i in 0..n
            invariant
                n == bytes@.len(),
                *self == spec_absorb_seq(g0, bytes@.take(i as int)),
        {
            let ghost gpre = *self;
            *self = self.mixed(bytes[i] as u64);
            proof {
                assert(*self == spec_absorb_byte(gpre, bytes@[i as int]));
                lemma_absorb_seq_snoc(g0, bytes@.take(i as int), bytes@[i as int]);
                assert(bytes@.take(i as int).push(bytes@[i as int]) =~= bytes@.take(
                    i as int + 1,
                ));
            }
        }
        proof {
            assert(bytes@.take(n as int) =~= bytes@);
        }
    }

    /// Squeeze `n` bytes; the state advances by `n` counters.
    pub fn squeeze_bytes(&mut self, n: usize) -> (r: Vec<u8>)
        ensures
            r@ == spec_squeeze_seq(*old(self), n as nat),
            *final(self) == spec_after_squeeze(*old(self), n as nat),
    {
        let ghost g0 = *self;
        let mut r: Vec<u8> = Vec::new();
        for i in 0..n
            invariant
                self.s == g0.s,
                self.ctr as int == (g0.ctr + i) % 0x1_0000_0000_0000_0000,
                r@.len() == i,
                forall|k: int|
                    0 <= k < i ==> #[trigger] r@[k] == spec_extract(
                        g0.s,
                        ((g0.ctr + k) % 0x1_0000_0000_0000_0000) as u64,
                    ),
        {
            let s0 = self.s;
            let c0 = self.ctr;
            let m = (s0 ^ c0).wrapping_mul(MIX_MULTIPLIER).wrapping_add(MIX_INCREMENT);
            proof {
                assert(m == spec_mix(g0.s, self.ctr));
            }
            let b: u8 = ((m / 0x100_0000_0000_0000) % 256) as u8;
            r.push(b);
            self.ctr = self.ctr.wrapping_add(1);
            proof {
                vstd::arithmetic::div_mod::lemma_mod_adds(g0.ctr + i, 1, 0x1_0000_0000_0000_0000);
            }
        }
        proof {
            assert(r@ =~= spec_squeeze_seq(g0, n as nat));
        }
        r
    }
}

/// Absorbing one more byte after a sequence.
pub proof fn lemma_absorb_seq_snoc(g: Sponge, bytes: Seq<u8>, b: u8)
    ensures
        spec_absorb_seq(g, bytes.push(b)) == spec_absorb_byte(spec_absorb_seq(g, bytes), b),
    decreases bytes.len(),
{
    if bytes.len() == 0 {
        assert(bytes.push(b)[0] == b);
        assert(bytes.push(b).skip(1) =~= Seq::<u8>::empty());
        assert(spec_absorb_seq(spec_absorb_byte(g, b), Seq::<u8>::empty()) == spec_absorb_byte(
            g,
            b,
        ));
    } else {
        assert(bytes.push(b)[0] == bytes[0]);
        assert(bytes.push(b).skip(1) =~= bytes.skip(1).push(b));
        lemma_absorb_seq_snoc(spec_absorb_byte(g, bytes[0]), bytes.skip(1), b);
        assert(spec_absorb_seq(g, bytes.push(b)) == spec_absorb_seq(
            spec_absorb_byte(g, bytes[0]),
            bytes.skip(1).push(b),
        ));
        assert(spec_absorb_seq(g, bytes) == spec_absorb_seq(
            spec_absorb_byte(g, bytes[0]),
            bytes.skip(1),
        ));
    }
}

} // verus!
