//! The generic reduction interface: a transformation from one relation's
//! instance/witness pairs to another's, over a shared transcript, with
//! built-in completeness and soundness self-tests.

use vstd::prelude::*;

use crate::protocol::ProtocolError;
use crate::sponge::Sponge;
use crate::transcript::{ProverTranscript, VerifierTranscript};

verus! {

/// A relation: indexed instances, witnesses, a satisfaction predicate, and
/// generators for self-testing. Each implementation defines what
/// satisfaction and instance equality mean at the spec level; the
/// executable methods decide exactly those predicates.
pub trait Relation {
    type Index;

    type Instance;

    type Witness;

    type Size;

    /// Is this relation's own parameterisation admissible? The generators
    /// promise their labels only for admissible relations.
    spec fn wf(&self) -> bool;

    /// What it means for the witness to satisfy the indexed instance.
    spec fn spec_satisfied(&self, i: Self::Index, x: Self::Instance, w: Self::Witness) -> bool;

    /// What it means for two indexed instances to be equal.
    spec fn spec_instance_eq(
        &self,
        i1: Self::Index,
        x1: Self::Instance,
        i2: Self::Index,
        x2: Self::Instance,
    ) -> bool;

    /// Does the witness satisfy the indexed instance?
    fn is_satisfied(&self, i: &Self::Index, x: &Self::Instance, w: &Self::Witness) -> (ok: bool)
        ensures
            ok <==> self.spec_satisfied(*i, *x, *w),
    ;

    /// Are two indexed instances equal?
    fn instance_eq(
        &self,
        i1: &Self::Index,
        x1: &Self::Instance,
        i2: &Self::Index,
        x2: &Self::Instance,
    ) -> (ok: bool)
        ensures
            ok <==> self.spec_instance_eq(*i1, *x1, *i2, *x2),
    ;

    /// A satisfied instance/witness pair of the given shape.
    fn generate_satisfied_instance(&self, size: &Self::Size, g: &mut Sponge) -> (r: (
        Self::Index,
        Self::Instance,
        Self::Witness,
    ))
        ensures
            self.wf() ==> self.spec_satisfied(r.0, r.1, r.2),
    ;

    /// An instance/witness pair violating one constraint.
    fn generate_unsatisfied_instance(&self, size: &Self::Size, g: &mut Sponge) -> (r: (
        Self::Index,
        Self::Instance,
        Self::Witness,
    ))
        ensures
            self.wf() ==> !self.spec_satisfied(r.0, r.1, r.2),
    ;
}

/// A reduction from relation `RIn` to relation `ROut` under public
/// parameters `PP`: prove transforms an instance/witness pair and a
/// transcript into a reduced pair, verify replays the transcript and
/// derives the same reduced instance.
pub trait Reduction<RIn: Relation, ROut: Relation, PP> {
    /// The transcript domain word of this reduction.
    fn domain(pp: &PP) -> u64;

    fn prove(
        pp: &PP,
        index_in: &RIn::Index,
        instance_in: &RIn::Instance,
        witness_in: RIn::Witness,
        t: &mut ProverTranscript,
    ) -> Result<(ROut::Index, ROut::Instance, ROut::Witness), ProtocolError>;

    /// Replaying never alters the proof bytes: the verifier only reads
    /// them and squeezes the same challenges as the prover did.
    fn verify(
        pp: &PP,
        index_in: &RIn::Index,
        instance_in: &RIn::Instance,
        t: &mut VerifierTranscript,
    ) -> (res: Result<(ROut::Index, ROut::Instance), ProtocolError>)
        requires
            old(t).wf(),
        ensures
            final(t).proof_data() == old(t).proof_data(),
    ;

    /// The completeness self-test: generate a satisfied pair, prove, check
    /// that the output witness satisfies the output instance, verify over
    /// the same transcript bytes, and check that prover and verifier
    /// derived identical reduced instances. A passing run certifies that a
    /// satisfied input pair existed, that the prover's reduced output pair
    /// is satisfied, and that the verifier's reduced instance equals the
    /// prover's — each in the output relation's own spec-level sense.
    fn test_completeness(rin: &RIn, rout: &ROut, pp: &PP, size: &RIn::Size, g: &mut Sponge) -> (ok:
        bool)
        ensures
            ok ==> exists|i0: RIn::Index, x0: RIn::Instance, w0: RIn::Witness|
                #[trigger] rin.spec_satisfied(i0, x0, w0),
            ok ==> exists|
                ip: ROut::Index,
                xp: ROut::Instance,
                wp: ROut::Witness,
                iv: ROut::Index,
                xv: ROut::Instance,
            |
                {
                    &&& #[trigger] rout.spec_satisfied(ip, xp, wp)
                    &&& #[trigger] rout.spec_instance_eq(ip, xp, iv, xv)
                },
    {
        let (index_in, instance_in, witness_in) = rin.generate_satisfied_instance(size, g);
        if !rin.is_satisfied(&index_in, &instance_in, &witness_in) {
            return false;
        }
        let ghost gi = index_in;
        let ghost gx = instance_in;
        let ghost gw = witness_in;
        let mut merlin = ProverTranscript::new(Self::domain(pp));
        let proved = Self::prove(pp, &index_in, &instance_in, witness_in, &mut merlin);
        let (index_p, instance_p, witness_p) = match proved {
            Ok(out) => out,
            Err(_) => {
                return false;
            },
        };
        if !rout.is_satisfied(&index_p, &instance_p, &witness_p) {
            return false;
        }
        let proof = merlin.into_proof();
        let mut arthur = VerifierTranscript::new(Self::domain(pp), proof);
        let verified = Self::verify(pp, &index_in, &instance_in, &mut arthur);
        let (index_v, instance_v) = match verified {
            Ok(out) => out,
            Err(_) => {
                return false;
            },
        };
        let ok = rout.instance_eq(&index_p, &instance_p, &index_v, &instance_v);
        proof {
            if ok {
                assert(rin.spec_satisfied(gi, gx, gw));
                assert(rout.spec_satisfied(index_p, instance_p, witness_p));
                assert(rout.spec_instance_eq(index_p, instance_p, index_v, instance_v));
            }
        }
        ok
    }

    /// The soundness smoke test: generate an unsatisfied pair, prove, and
    /// check that the honest prover's reduced output witness does not
    /// satisfy the reduced output instance. A passing run certifies that
    /// an unsatisfied input pair existed and that the prover's reduced
    /// output pair is unsatisfied — honest reduction does not manufacture
    /// satisfaction.
    fn test_soundness(rin: &RIn, rout: &ROut, pp: &PP, size: &RIn::Size, g: &mut Sponge) -> (ok:
        bool)
        ensures
            ok ==> exists|i0: RIn::Index, x0: RIn::Instance, w0: RIn::Witness|
                !#[trigger] rin.spec_satisfied(i0, x0, w0),
            ok ==> exists|io: ROut::Index, xo: ROut::Instance, wo: ROut::Witness|
                !#[trigger] rout.spec_satisfied(io, xo, wo),
    {
        let (index_in, instance_in, witness_in) = rin.generate_unsatisfied_instance(size, g);
        if rin.is_satisfied(&index_in, &instance_in, &witness_in) {
            return false;
        }
        let ghost gi = index_in;
        let ghost gx = instance_in;
        let ghost gw = witness_in;
        let mut merlin = ProverTranscript::new(Self::domain(pp));
        let proved = Self::prove(pp, &index_in, &instance_in, witness_in, &mut merlin);
        let (index_p, instance_p, witness_p) = match proved {
            Ok(out) => out,
            Err(_) => {
                return false;
            },
        };
        let ok = !rout.is_satisfied(&index_p, &instance_p, &witness_p);
        proof {
            if ok {
                assert(!rin.spec_satisfied(gi, gx, gw));
                assert(!rout.spec_satisfied(index_p, instance_p, witness_p));
            }
        }
        ok
    }
}

} // verus!
