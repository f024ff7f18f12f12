//! The transcript: an ordered, append-only sequence of labelled absorb and
//! squeeze steps over the duplex sponge.
//!
//! Both parties must execute the identical label/length sequence. The
//! prover's transcript appends every absorbed message to the proof data;
//! the verifier's transcript replays the same sequence, reading each
//! absorbed message back out of the proof data, so every squeezed
//! challenge is a deterministic function of all prior content plus its
//! domain label. A divergence (too little proof data) is a protocol
//! violation, reported before any semantic check runs.

use vstd::prelude::*;

use crate::ring::{COEFF_ENCODE_BYTES, RingElement, le_decode};
use crate::sponge::{
    Sponge, spec_absorb_seq, spec_absorb_u64, spec_after_squeeze, spec_squeeze_seq,
};

verus! {

/// The domain-separation labels of the protocol's ten steps.
#[derive(Clone, Copy, Debug, PartialEq, Eq, Structural)]
pub enum Label {
    ProverMessage1,
    VerifierMessage1,
    ProverMessage2,
    VerifierMessage2Psi,
    VerifierMessage2Omega,
    ProverMessage3,
    VerifierMessage3Alpha,
    VerifierMessage3Beta,
    ProverMessage4,
    VerifierMessage4,
}

impl Label {
    /// The word mixed into the sponge for this label.
    pub open spec fn spec_code(self) -> u64 {
        match self {
            Label::ProverMessage1 => 1,
            Label::VerifierMessage1 => 2,
            Label::ProverMessage2 => 3,
            Label::VerifierMessage2Psi => 4,
            Label::VerifierMessage2Omega => 5,
            Label::ProverMessage3 => 6,
            Label::VerifierMessage3Alpha => 7,
            Label::VerifierMessage3Beta => 8,
            Label::ProverMessage4 => 9,
            Label::VerifierMessage4 => 10,
        }
    }

    pub fn code(&self) -> (r: u64)
        ensures
            r == self.spec_code(),
    {
        match self {
            Label::ProverMessage1 => 1,
            Label::VerifierMessage1 => 2,
            Label::ProverMessage2 => 3,
            Label::VerifierMessage2Psi => 4,
            Label::VerifierMessage2Omega => 5,
            Label::ProverMessage3 => 6,
            Label::VerifierMessage3Alpha => 7,
            Label::VerifierMessage3Beta => 8,
            Label::ProverMessage4 => 9,
            Label::VerifierMessage4 => 10,
        }
    }
}

/// One step of the interaction pattern: a labelled absorb or squeeze of a
/// fixed number of bytes.
#[derive(Clone, Copy, Debug, PartialEq, Eq, Structural)]
pub enum IoOp {
    Absorb(Label, usize),
    Squeeze(Label, usize),
}

/// The sponge state after an absorb step of `bytes` under `label`.
pub open spec fn spec_step_absorb(g: Sponge, label: Label, bytes: Seq<u8>) -> Sponge {
    spec_absorb_seq(spec_absorb_u64(g, label.spec_code()), bytes)
}

/// The sponge state from which a squeeze under `label` reads.
pub open spec fn spec_step_squeeze_state(g: Sponge, label: Label) -> Sponge {
    spec_absorb_u64(g, label.spec_code())
}

/// The prover's transcript: the sponge plus the proof data written so far.
pub struct ProverTranscript {
    g: Sponge,
    data: Vec<u8>,
}

impl ProverTranscript {
    pub closed spec fn state(self) -> Sponge {
        self.g
    }

    pub closed spec fn proof_data(self) -> Seq<u8> {
        self.data@
    }

    /// A fresh transcript over a protocol domain word.
    pub fn new(domain: u64) -> (t: ProverTranscript)
        ensures
            t.state() == spec_absorb_u64(Sponge { s: 0, ctr: 0 }, domain),
            t.proof_data() == Seq::<u8>::empty(),
    {
        ProverTranscript { g: Sponge::new(domain), data: Vec::new() }
    }

    /// Absorb a prover message: it binds the sponge and is appended to the
    /// proof data.
    pub fn absorb(&mut self, label: Label, bytes: &Vec<u8>)
        ensures
            final(self).state() == spec_step_absorb(old(self).state(), label, bytes@),
            final(self).proof_data() == old(self).proof_data() + bytes@,
    {
        self.g.absorb_u64(label.code());
        self.g.absorb_bytes(bytes);
        let n = bytes.len();
        let ghost d0 = self.data@;
        let ghost gsave = self.g;
        for i in 0..n
            invariant
                n == bytes@.len(),
                self.data@ == d0 + bytes@.take(i as int),
                self.g == gsave,
        {
            self.data.push(bytes[i]);
            proof {
                assert(self.data@ =~= d0 + bytes@.take(i as int + 1));
            }
        }
        proof {
            assert(self.data@ =~= d0 + bytes@);
        }
    }

    /// Squeeze `n` challenge bytes under a label.
    pub fn squeeze(&mut self, label: Label, n: usize) -> (r: Vec<u8>)
        ensures
            r@ == spec_squeeze_seq(spec_step_squeeze_state(old(self).state(), label), n as nat),
            final(self).state() == spec_after_squeeze(
                spec_step_squeeze_state(old(self).state(), label),
                n as nat,
            ),
            final(self).proof_data() == old(self).proof_data(),
    {
        self.g.absorb_u64(label.code());
        self.g.squeeze_bytes(n)
    }

    /// Hand out the proof data.
    pub fn into_proof(self) -> (r: Vec<u8>)
        ensures
            r@ == self.proof_data(),
    {
        self.data
    }
}

/// Why replaying a transcript failed.
#[derive(Clone, Copy, Debug, PartialEq, Eq, Structural)]
pub enum TranscriptError {
    /// The proof data ends before the pattern's next absorb step.
    OutOfData,
    /// An absorbed message does not decode to canonical ring elements.
    Malformed,
    /// A recomputed check did not hold: the proof is rejected.
    Rejected,
}

/// The verifier's transcript: the sponge, the proof data under replay,
/// and the read position.
pub struct VerifierTranscript {
    g: Sponge,
    data: Vec<u8>,
    pos: usize,
}

impl VerifierTranscript {
    pub closed spec fn state(self) -> Sponge {
        self.g
    }

    pub closed spec fn proof_data(self) -> Seq<u8> {
        self.data@
    }

    pub closed spec fn position(self) -> int {
        self.pos as int
    }

    pub open spec fn wf(self) -> bool {
        0 <= self.position() <= self.proof_data().len()
    }

    /// A fresh replay over the same domain word and the prover's proof
    /// data.
    pub fn new(domain: u64, proof: Vec<u8>) -> (t: VerifierTranscript)
        ensures
            t.state() == spec_absorb_u64(Sponge { s: 0, ctr: 0 }, domain),
            t.proof_data() == proof@,
            t.position() == 0,
            t.wf(),
    {
        VerifierTranscript { g: Sponge::new(domain), data: proof, pos: 0 }
    }

    /// Replay an absorb step: read the next `len` bytes of proof data and
    /// bind them to the sponge exactly as the prover did. Fails exactly
    /// when fewer than `len` bytes remain.
    pub fn read_absorb(&mut self, label: Label, len: usize) -> (r: Result<Vec<u8>, TranscriptError>)
        requires
            old(self).wf(),
        ensures
            final(self).proof_data() == old(self).proof_data(),
            match r {
                Ok(bytes) => {
                    &&& old(self).position() + len <= old(self).proof_data().len()
                    &&& bytes@ == old(self).proof_data().subrange(
                        old(self).position(),
                        old(self).position() + len,
                    )
                    &&& final(self).position() == old(self).position() + len
                    &&& final(self).state() == spec_step_absorb(old(self).state(), label, bytes@)
                    &&& final(self).wf()
                },
                Err(e) => {
                    &&& e == TranscriptError::OutOfData
                    &&& old(self).position() + len > old(self).proof_data().len()
                    &&& *final(self) == *old(self)
                },
            },
    {
        if len > self.data.len() - self.pos {
            return Err(TranscriptError::OutOfData);
        }
        let mut bytes: Vec<u8> = Vec::new();
        let start = self.pos;
        let dl = self.data.len();
        for i in 0..len
            invariant
                dl == self.data@.len(),
                start + len <= dl,
                bytes@.len() == i,
                bytes@ == self.data@.subrange(start as int, start as int + i as int),
        {
            bytes.push(self.data[start + i]);
            proof {
                assert(bytes@ =~= self.data@.subrange(start as int, start as int + i as int + 1));
            }
        }
        self.g.absorb_u64(label.code());
        self.g.absorb_bytes(&bytes);
        self.pos = start + len;
        Ok(bytes)
    }

    /// Squeeze `n` challenge bytes under a label, exactly as the prover
    /// does.
    pub fn squeeze(&mut self, label: Label, n: usize) -> (r: Vec<u8>)
        ensures
            r@ == spec_squeeze_seq(spec_step_squeeze_state(old(self).state(), label), n as nat),
            final(self).state() == spec_after_squeeze(
                spec_step_squeeze_state(old(self).state(), label),
                n as nat,
            ),
            final(self).proof_data() == old(self).proof_data(),
            final(self).position() == old(self).position(),
    {
        self.g.absorb_u64(label.code());
        self.g.squeeze_bytes(n)
    }
}

/// Encode a vector of ring elements into bytes, element by element, in
/// the canonical encoding.
pub fn encode_ring_vec(v: &Vec<RingElement>) -> (r: Vec<u8>)
    requires
        forall|i: int| 0 <= i < v@.len() ==> (#[trigger] v@[i]).wf(),
    ensures
        r@ == spec_encode_ring_vec(v@, v@.len()),
{
    let n = v.len();
    let mut r: Vec<u8> = Vec::new();
    for i in 0..n
        invariant
            n == v@.len(),
            forall|k: int| 0 <= k < v@.len() ==> (#[trigger] v@[k]).wf(),
            r@ == spec_encode_ring_vec(v@, i as nat),
    {
        let mut chunk = v[i].to_bytes();
        proof {
            lemma_encode_matches(v@[i as int], chunk@);
        }
        r.append(&mut chunk);
    }
    r
}

/// The canonical byte encoding of the first `m` elements.
pub open spec fn spec_encode_ring_vec(v: Seq<RingElement>, m: nat) -> Seq<u8>
    decreases m,
{
    if m == 0 {
        Seq::empty()
    } else {
        spec_encode_ring_vec(v, (m - 1) as nat) + spec_encode_elem(v[m - 1])
    }
}

/// The canonical byte encoding of one element: each coefficient as eight
/// little-endian bytes.
pub open spec fn spec_encode_elem(e: RingElement) -> Seq<u8> {
    Seq::new(
        (COEFF_ENCODE_BYTES * e.dim()) as nat,
        |i: int| spec_encode_byte(e, i / COEFF_ENCODE_BYTES as int, i % COEFF_ENCODE_BYTES as int),
    )
}

/// Byte `pos` of the encoding of coefficient `c` of `e`.
pub open spec fn spec_encode_byte(e: RingElement, c: int, pos: int) -> u8 {
    ((e.coeffs()[c] / crate::ring::pow256(pos as nat)) % 256) as u8
}

/// The executable encoding agrees with the specification encoding.
proof fn lemma_encode_matches(e: RingElement, bytes: Seq<u8>)
    requires
        e.wf(),
        bytes.len() == COEFF_ENCODE_BYTES * e.dim(),
        forall|i: int|
            0 <= i < e.dim() ==> le_decode(
                #[trigger] bytes.subrange(COEFF_ENCODE_BYTES * i, COEFF_ENCODE_BYTES * (i + 1)),
            ) == e.coeffs()[i],
    ensures
        bytes == spec_encode_elem(e),
{
    assert forall|p: int| 0 <= p < bytes.len() implies bytes[p] == spec_encode_elem(e)[p] by {
        let c = p / COEFF_ENCODE_BYTES as int;
        let off = p % COEFF_ENCODE_BYTES as int;
        vstd::arithmetic::div_mod::lemma_fundamental_div_mod(p, COEFF_ENCODE_BYTES as int);
        vstd::arithmetic::div_mod::lemma_mod_bound(p, COEFF_ENCODE_BYTES as int);
        assert(0 <= c < e.dim()) by (nonlinear_arith)
            requires
                0 <= p < COEFF_ENCODE_BYTES * e.dim(),
                p == COEFF_ENCODE_BYTES * c + off,
                0 <= off < COEFF_ENCODE_BYTES,
                COEFF_ENCODE_BYTES == 8,
        ;
        let chunk = bytes.subrange(COEFF_ENCODE_BYTES * c, COEFF_ENCODE_BYTES * (c + 1));
        assert(le_decode(chunk) == e.coeffs()[c]);
        lemma_le_byte_extract(chunk, off);
        assert(chunk[off] == bytes[COEFF_ENCODE_BYTES * c + off]);
        assert(bytes[p] == chunk[off]);
    }
    assert(bytes =~= spec_encode_elem(e));
}

/// Byte `i` of a little-endian encoding is digit `i` base 256 of the
/// decoded value.
proof fn lemma_le_byte_extract(s: Seq<u8>, i: int)
    requires
        0 <= i < s.len(),
    ensures
        s[i] as int == (le_decode(s) / crate::ring::pow256(i as nat)) % 256,
    decreases i,
{
    if i == 0 {
        assert(le_decode(s) == s[0] + 256 * le_decode(s.skip(1)));
        assert(crate::ring::pow256(0) == 1);
        vstd::arithmetic::div_mod::lemma_fundamental_div_mod_converse(
            le_decode(s),
            256,
            le_decode(s.skip(1)),
            s[0] as int,
        );
        assert(le_decode(s) / 1 == le_decode(s)) by {
            vstd::arithmetic::div_mod::lemma_div_basics(le_decode(s));
        }
    } else {
        lemma_le_byte_extract(s.skip(1), i - 1);
        assert(s.skip(1)[i - 1] == s[i]);
        let v = le_decode(s);
        let rest = le_decode(s.skip(1));
        assert(v == s[0] + 256 * rest);
        let p = crate::ring::pow256((i - 1) as nat);
        assert(crate::ring::pow256(i as nat) == 256 * p);
        crate::ring::lemma_pow256_positive((i - 1) as nat);
        // v / (256 p) == rest / p
        crate::ring::lemma_le_decode_bounds(s);
        assert(v / (256 * p) == rest / p) by {
            vstd::arithmetic::div_mod::lemma_div_denominator(v, 256, p);
            vstd::arithmetic::div_mod::lemma_fundamental_div_mod_converse(
                v,
                256,
                rest,
                s[0] as int,
            );
        }
    }
}

} // verus!
