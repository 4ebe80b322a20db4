use vstd::prelude::*;

use crate::error::Error;
use crate::field::{p, Fp};
use crate::r1cs::R1CS;
use crate::folding::cross_vec;
use crate::relaxed::{commit_two, CommitmentScheme, CommittedInstance, Transcript, Witness};
use vstd::arithmetic::div_mod::{lemma_add_mod_noop, lemma_mod_twice, lemma_small_mod};

verus! {

/// `sum v[i] * g[i + 1]` over the values of `v`, as an integer.
pub open spec fn lin_sum(v: Seq<Fp>, g: Seq<Fp>) -> int
    decreases v.len(),
{
    if v.len() == 0 {
        0
    } else {
        lin_sum(v.drop_last(), g) + v.last().val * g[v.len() as int].val
    }
}

/// A linear commitment over the field: `blind * g[0] + sum v[i] * g[i + 1]`.
/// It is homomorphic, which is what folding needs, but it is neither hiding
/// nor binding: it serves to exercise the protocol's algebra.
pub struct LinearCommitment;

impl CommitmentScheme for LinearCommitment {
    type ProverParams = Vec<Fp>;
    type Commitment = Fp;

    open spec fn commit_of(params: Vec<Fp>, v: Seq<Fp>, blind: Fp) -> Result<Fp, Error> {
        if params@.len() == 0 || v.len() >= params@.len() {
            Err(Error::NotSameLength(v.len() as usize, params@.len() as usize))
        } else {
            Ok(Fp { val: ((blind.val * params@[0].val + lin_sum(v, params@)) % p()) as u64 })
        }
    }

    open spec fn combine_of(a: Fp, b: Fp, r: Fp) -> Fp {
        Fp { val: ((a.val + (r.val * b.val) % p()) % p()) as u64 }
    }

    open spec fn elements_of(c: Fp) -> Seq<Fp> {
        seq![c]
    }

    open spec fn zero_of() -> Fp {
        Fp { val: 0 }
    }

    fn zero_commitment() -> (r: Fp) {
        Fp { val: 0 }
    }

    fn commit(params: &Vec<Fp>, v: &Vec<Fp>, blind: Fp) -> (r: Result<Fp, Error>) {
        if params.len() == 0 || v.len() >= params.len() {
            return Err(Error::NotSameLength(v.len(), params.len()));
        }
        let mut acc = blind.mul(params[0]);
        let mut i: usize = 0;
        while i < v.len()
            invariant
                v@.len() < params@.len(),
                i <= v@.len(),
                acc.canonical(),
                acc.val as int == (blind.val * params@[0].val + lin_sum(v@.take(i as int), params@))
                    % p(),
            decreases v@.len() - i,
        {
            let t = v[i].mul(params[i + 1]);
            let next = acc.add(t);
            proof {
                let base = blind.val * params@[0].val + lin_sum(v@.take(i as int), params@);
                let prod = v@[i as int].val * params@[i + 1].val;
                assert(v@.take(i as int + 1).drop_last() =~= v@.take(i as int));
                assert(lin_sum(v@.take(i as int + 1), params@) == lin_sum(v@.take(i as int), params@) + prod);
                lemma_small_mod(next.val as nat, p() as nat);
                lemma_small_mod(t.val as nat, p() as nat);
                lemma_small_mod(acc.val as nat, p() as nat);
                lemma_add_mod_noop(base, prod, p());
                lemma_mod_twice(base, p());
                lemma_mod_twice(prod, p());
            }
            acc = next;
            i = i + 1;
        }
        proof {
            assert(v@.take(i as int) =~= v@);
        }
        Ok(acc)
    }

    fn combine(a: &Fp, b: &Fp, r: Fp) -> (c: Fp) {
        let t = r.mul(*b);
        let c = a.add(t);
        proof {
            lemma_small_mod(c.val as nat, p() as nat);
            lemma_small_mod(t.val as nat, p() as nat);
        }
        c
    }

    fn to_elements(c: &Fp) -> (r: Vec<Fp>) {
        let mut out: Vec<Fp> = Vec::new();
        out.push(*c);
        proof {
            assert(out@ =~= seq![*c]);
        }
        out
    }
}

/// The multiplier of the mixing transcript.
pub const MIX_FACTOR: u64 = 1000003;

/// The state of the mixing transcript after absorbing `s`.
pub open spec fn mix_of(s: Seq<Fp>) -> int
    decreases s.len(),
{
    if s.len() == 0 {
        0
    } else {
        (mix_of(s.drop_last()) * MIX_FACTOR + s.last().val + 17) % p()
    }
}

proof fn lemma_mix_step(state: Fp, m: Fp, s1: Fp, s2: Fp, x: Fp)
    requires
        state.canonical(),
        m.fv() == (state.val * MIX_FACTOR) % p(),
        m.canonical(),
        s1.fv() == (m.val + x.val) % p(),
        s1.canonical(),
        s2.fv() == (s1.val + 17) % p(),
        s2.canonical(),
    ensures
        s2.val as int == (state.val * MIX_FACTOR + x.val + 17) % p(),
{
    let prod = state.val * MIX_FACTOR;
    let xv = x.val as int;
    lemma_small_mod(m.val as nat, p() as nat);
    lemma_small_mod(s1.val as nat, p() as nat);
    lemma_small_mod(s2.val as nat, p() as nat);
    assert(m.val as int == prod % p());
    // (prod % p + x) % p == (prod + x) % p
    vstd::arithmetic::div_mod::lemma_add_mod_noop_right(xv, prod, p());
    assert(s1.val as int == (prod + xv) % p());
    vstd::arithmetic::div_mod::lemma_add_mod_noop_right(17, prod + xv, p());
    assert(s2.val as int == (prod + xv + 17) % p());
}

/// A transcript that mixes each absorbed element into a field state, and
/// squeezes `state^2 + 3`. It is deterministic and replayable, not a
/// cryptographic sponge: it serves to exercise the protocol.
pub struct MixTranscript {
    state: Fp,
    history: Ghost<Seq<Fp>>,
}

impl MixTranscript {
    #[verifier::type_invariant]
    spec fn inv(self) -> bool {
        &&& self.state.canonical()
        &&& self.state.val as int == mix_of(self.history@)
    }

    /// A transcript that has absorbed the seed alone.
    pub fn new(seed: Fp) -> (r: MixTranscript)
        ensures
            r.absorbed() == seq![seed],
    {
        proof {
            assert(mix_of(Seq::<Fp>::empty()) == 0);
        }
        let t = MixTranscript { state: Fp { val: 0 }, history: Ghost(Seq::empty()) };
        let mut t2 = t;
        let mut v: Vec<Fp> = Vec::new();
        v.push(seed);
        t2.absorb(&v);
        proof {
            assert(Seq::<Fp>::empty() + v@ =~= seq![seed]);
        }
        t2
    }

    fn absorb_one(&mut self, x: Fp)
        ensures
            final(self).absorbed() == old(self).absorbed().push(x),
    {
        proof {
            use_type_invariant(&*self);
        }
        let m = self.state.mul(Fp { val: MIX_FACTOR });
        let s1 = m.add(x);
        let s2 = s1.add(Fp { val: 17 });
        let ghost h = self.history@.push(x);
        proof {
            assert(h.drop_last() =~= self.history@);
            assert(h.last() == x);
            lemma_mix_step(self.state, m, s1, s2, x);
        }
        *self = MixTranscript { state: s2, history: Ghost(h) };
    }
}

impl Transcript for MixTranscript {
    closed spec fn absorbed(&self) -> Seq<Fp> {
        self.history@
    }

    open spec fn squeeze_of(s: Seq<Fp>) -> Fp {
        Fp { val: ((mix_of(s) * mix_of(s) + 3) % p()) as u64 }
    }

    fn absorb(&mut self, v: &Vec<Fp>) {
        let mut i: usize = 0;
        while i < v.len()
            invariant
                i <= v@.len(),
                self.absorbed() == old(self).absorbed() + v@.take(i as int),
            decreases v@.len() - i,
        {
            self.absorb_one(v[i]);
            proof {
                assert(old(self).absorbed() + v@.take(i as int + 1) =~= (old(self).absorbed() + v@.take(i as int)).push(v@[i as int]));
            }
            i = i + 1;
        }
        proof {
            assert(v@.take(i as int) =~= v@);
        }
    }

    fn get_challenge(&mut self) -> (r: Fp) {
        proof {
            use_type_invariant(&*self);
        }
        let sq = self.state.mul(self.state);
        let c = sq.add(Fp { val: 3 });
        proof {
            let m = mix_of(self.history@);
            lemma_small_mod(self.state.val as nat, p() as nat);
            lemma_small_mod(sq.val as nat, p() as nat);
            lemma_small_mod(c.val as nat, p() as nat);
            lemma_small_mod(3, p() as nat);
            lemma_add_mod_noop(m * m, 3, p());
            lemma_mod_twice(m * m, p());
        }
        self.absorb_one(c);
        c
    }
}

/// With more generators than the relation has rows and private values,
/// committing to a sampled pair never fails, whatever was drawn.
pub proof fn lemma_linear_sample_commits(r1cs: R1CS, params: Vec<Fp>)
    requires
        r1cs.wf(),
        params@.len() > r1cs.A.n_rows,
        params@.len() > r1cs.A.n_cols - r1cs.l - 1,
    ensures
        forall|u: Fp, re: Fp, rw: Fp, w: Seq<Fp>, x: Seq<Fp>|
            w.len() == r1cs.A.n_cols - r1cs.l - 1 ==> #[trigger] commit_two::<LinearCommitment>(
                params,
                r1cs.sampled_error(u, x, w),
                re,
                w,
                rw,
            ) is Ok,
{
}

/// With more generators than the relation has rows, committing to the cross
/// term of a fold never fails.
pub proof fn lemma_linear_fold_commits(r1cs: R1CS, params: Vec<Fp>)
    requires
        params@.len() > r1cs.A.n_rows,
    ensures
        forall|w1: Witness, u1: CommittedInstance<Fp>, w2: Witness, u2: CommittedInstance<Fp>, rt: Fp|
            #[trigger] LinearCommitment::commit_of(params, cross_vec(r1cs, w1, u1, w2, u2), rt) is Ok,
{
}

} // verus!
