//! The search certificate (proof of will) and the verifier that replays it.
use vstd::prelude::*;
use vstd::utf8::encode_utf8;
use crate::soul::algebra::{IdealClass, context_seed, form_text};
use crate::soul::forms::{Form, disc, compose_form, is_positive_definite, composable, lemma_reduce_form, inverse_form};
use crate::will::perturber::{Perturber, forms_of, perturbation_set, lemma_perturbations_from};

verus! {

/// A fresh random identifier: `uuid::Uuid::new_v4` as text, which its
/// `Display` (lowercase hyphenated form) writes in 36 characters.  Which
/// identifier comes out is chance and is left unsaid.
#[verifier::external_body]
fn fresh_trace_id() -> (r: String)
    ensures
        r@.len() == 36,
{
    uuid::Uuid::new_v4().to_string()
}

/// Seconds since the Unix epoch (`SystemTime::now`), 0 for a clock before the epoch.
#[verifier::external_body]
fn unix_time_secs() -> (r: u64) {
    std::time::SystemTime::now().duration_since(std::time::UNIX_EPOCH).unwrap_or_default().as_secs()
}

/// The state reached from `start` by composing with each perturbation in turn.
pub open spec fn replay(start: Form, perturbations: Seq<Form>) -> Form
    decreases perturbations.len(),
{
    if perturbations.len() == 0 {
        start
    } else {
        compose_form(replay(start, perturbations.drop_last()), perturbations.last())
    }
}

/// A legal edge of the Cayley graph: a positive definite form that is a
/// generator or the inverse of one... in the sense of the verifier: `u` is in
/// `P`, or the inverse of `u` is in `P`.
pub open spec fn legal_move(generators: Seq<Form>, u: Form) -> bool {
    &&& is_positive_definite(u)
    &&& (generators.contains(u) || generators.contains(inverse_form(u)))
}

/// The certificate of a search: where it started, the moves it made and
/// where it ended.
pub struct OptimizationTrace {
    pub id: String,
    pub timestamp: u64,
    /// The context that the initial state must come from.
    pub context: String,
    /// The initial seed `S_0`.
    pub initial_state: IdealClass,
    /// The perturbations `u_0, ..., u_k`.
    pub perturbations: Vec<IdealClass>,
    /// The final state `S_final`.
    pub final_state: IdealClass,
}

impl OptimizationTrace {
    /// The recorded final state is the replay of the perturbations from the initial state.
    pub open spec fn is_consistent(&self) -> bool {
        self.final_state@ == replay(self.initial_state@, forms_of(self.perturbations@))
    }

    /// An empty trace with the given identifier and timestamp, that starts
    /// and ends at `initial_state`.
    pub fn from_parts(initial_state: IdealClass, context: String, id: String, timestamp: u64) -> (r: Self)
        ensures
            r.initial_state@ == initial_state@,
            r.final_state@ == initial_state@,
            r.perturbations@.len() == 0,
            r.context@ == context@,
            r.id@ == id@,
            r.timestamp == timestamp,
            r.is_consistent(),
    {
        let final_state = initial_state.dup();
        let r = Self {
            id,
            timestamp,
            context,
            initial_state,
            perturbations: Vec::new(),
            final_state,
        };
        assert(forms_of(r.perturbations@) =~= Seq::<Form>::empty());
        r
    }

    /// An empty trace that starts and ends at `initial_state`, with a fresh
    /// random identifier (a 36-character UUID v4) and the clock's reading in
    /// seconds since the Unix epoch; neither value is fixed by the inputs.
    pub fn new(initial_state: IdealClass, context: String) -> (r: Self)
        ensures
            r.initial_state@ == initial_state@,
            r.final_state@ == initial_state@,
            r.perturbations@.len() == 0,
            r.context@ == context@,
            r.id@.len() == 36,
            r.is_consistent(),
    {
        let id = fresh_trace_id();
        let timestamp = unix_time_secs();
        Self::from_parts(initial_state, context, id, timestamp)
    }

    /// Records one move: the final state is composed with `perturbation`.
    pub fn record_step(&mut self, perturbation: IdealClass)
        requires
            composable(old(self).final_state@, perturbation@),
        ensures
            final(self).final_state@ == compose_form(old(self).final_state@, perturbation@),
            forms_of(final(self).perturbations@) == forms_of(old(self).perturbations@).push(perturbation@),
            final(self).perturbations@ == old(self).perturbations@.push(perturbation),
            final(self).initial_state@ == old(self).initial_state@,
            final(self).context@ == old(self).context@,
            final(self).id@ == old(self).id@,
            final(self).timestamp == old(self).timestamp,
            old(self).is_consistent() ==> final(self).is_consistent(),
    {
        self.final_state = self.final_state.compose(&perturbation);
        let ghost before = forms_of(self.perturbations@);
        self.perturbations.push(perturbation);
        proof {
            assert(forms_of(self.perturbations@) =~= before.push(perturbation@));
            assert(forms_of(self.perturbations@).drop_last() =~= before);
        }
    }
}

/// What a replay of a certificate found.
pub enum ReplayVerdict {
    /// Every check passed; `steps` moves were replayed.
    Replayed { steps: usize },
    /// The universe of the context could not be built, or a move left it.
    InvalidUniverse { details: String },
    /// Move `step` is not a generator nor the inverse of one.
    IllegalMove { step: usize, generator: String },
    /// The initial state is not the seed of the context.
    ContextMismatch { expected_seed: String, actual_seed: String },
    /// Replaying the moves does not reach the claimed final state.
    FinalStateMismatch { claimed: String, calculated: String },
}

fn text(s: &str) -> (r: String)
    ensures
        r@ == s@,
{
    let mut r = String::new();
    r.append(s);
    r
}

/// Whether `f` occurs in `v`.
fn contains_form(v: &Vec<IdealClass>, f: &IdealClass) -> (r: bool)
    ensures
        r == forms_of(v@).contains(f@),
{
    let mut i: usize = 0;
    while i < v.len()
        invariant
            i <= v@.len(),
            forall|j: int| 0 <= j < i ==> v@[j]@ != f@,
        decreases v@.len() - i,
    {
        if v[i].equals(f) {
            assert(forms_of(v@)[i as int] == f@);
            return true;
        }
        i = i + 1;
    }
    proof {
        if forms_of(v@).contains(f@) {
            let j = choose|j: int| 0 <= j < forms_of(v@).len() && forms_of(v@)[j] == f@;
            assert(v@[j]@ == f@);
        }
    }
    false
}

/// The verifier of certificates.
pub struct TraceVerifier;

impl TraceVerifier {
    /// Strict replay of a certificate:
    /// 1. the initial state must be the seed that the context determines;
    /// 2. the generator set `P` is rebuilt from the discriminant, trusting
    ///    nothing in the trace;
    /// 3. each move must be in `P` or have its inverse in `P`, and the group
    ///    operation is replayed;
    /// 4. the replay must reach the claimed final state.
    pub fn verify(trace: &OptimizationTrace, perturbation_count: usize) -> (r: ReplayVerdict)
        ensures
            ({
                let start = trace.initial_state@;
                let moves = forms_of(trace.perturbations@);
                let gens = perturbation_set(disc(start), perturbation_count as nat);
                &&& (r is InvalidUniverse <==> context_seed(encode_utf8(trace.context@)) is None)
                &&& (r is ContextMismatch <==> (context_seed(encode_utf8(trace.context@)) is Some
                    && context_seed(encode_utf8(trace.context@)).unwrap() != start))
                &&& (r matches ReplayVerdict::IllegalMove { step, .. } ==> {
                    &&& context_seed(encode_utf8(trace.context@)) == Some(start)
                    &&& step < moves.len()
                    &&& !legal_move(gens, moves[step as int])
                    &&& forall|j: int| 0 <= j < step ==> legal_move(gens, #[trigger] moves[j])
                })
                &&& (r is IllegalMove <==> context_seed(encode_utf8(trace.context@)) == Some(start)
                    && exists|j: int| 0 <= j < moves.len() && !legal_move(gens, #[trigger] moves[j]))
                &&& (r is FinalStateMismatch <==> {
                    &&& context_seed(encode_utf8(trace.context@)) == Some(start)
                    &&& forall|j: int| 0 <= j < moves.len() ==> legal_move(gens, #[trigger] moves[j])
                    &&& replay(start, moves) != trace.final_state@
                })
                &&& (r is Replayed <==> {
                    &&& context_seed(encode_utf8(trace.context@)) == Some(start)
                    &&& forall|j: int| 0 <= j < moves.len() ==> legal_move(gens, #[trigger] moves[j])
                    &&& replay(start, moves) == trace.final_state@
                })
                &&& (r matches ReplayVerdict::Replayed { steps } ==> steps == moves.len())
                &&& ((trace.is_consistent() && context_seed(encode_utf8(trace.context@)) == Some(start)
                    && forall|j: int| 0 <= j < moves.len() ==> legal_move(gens, #[trigger] moves[j]))
                    ==> r == ReplayVerdict::Replayed { steps: moves.len() as usize })
                &&& (r matches ReplayVerdict::InvalidUniverse { details } ==>
                    details@ == "no probable prime found for the context"@)
                &&& (r matches ReplayVerdict::ContextMismatch { expected_seed, actual_seed } ==>
                    expected_seed@ == form_text(context_seed(encode_utf8(trace.context@)).unwrap())
                    && actual_seed@ == form_text(start))
                &&& (r matches ReplayVerdict::IllegalMove { step, generator } ==>
                    generator@ == form_text(moves[step as int]))
                &&& (r matches ReplayVerdict::FinalStateMismatch { claimed, calculated } ==>
                    claimed@ == form_text(trace.final_state@) && calculated@ == form_text(replay(start, moves)))
            }),
    {
        // 1. Anchor check
        let expected_seed = match IdealClass::spawn_universe(trace.context.as_str()) {
            Some((seed, _)) => seed,
            None => {
                return ReplayVerdict::InvalidUniverse {
                    details: text("no probable prime found for the context"),
                };
            },
        };
        if !expected_seed.equals(&trace.initial_state) {
            return ReplayVerdict::ContextMismatch {
                expected_seed: expected_seed.to_text(),
                actual_seed: trace.initial_state.to_text(),
            };
        }
        // 2. Rebuild P
        let discriminant = trace.initial_state.discriminant();
        let perturber = Perturber::new(&discriminant, perturbation_count);
        let allowed_generators = perturber.get_generators();
        let ghost gens = forms_of(allowed_generators@);
        let ghost moves = forms_of(trace.perturbations@);
        let ghost start = trace.initial_state@;
        proof {
            lemma_perturbations_from(disc(start), perturbation_count as nat, 2);
        }
        // 3. Replay
        let mut calculated_state = trace.initial_state.dup();
        let mut i: usize = 0;
        while i < trace.perturbations.len()
            invariant
                i <= moves.len(),
                context_seed(encode_utf8(trace.context@)) == Some(start),
                start == trace.initial_state@,
                moves == forms_of(trace.perturbations@),
                gens == perturbation_set(disc(start), perturbation_count as nat),
                gens == forms_of(allowed_generators@),
                disc(start) < 0,
                is_positive_definite(calculated_state@),
                disc(calculated_state@) == disc(start),
                calculated_state@ == replay(start, moves.take(i as int)),
                forall|j: int| 0 <= j < i ==> legal_move(gens, #[trigger] moves[j]),
                forall|j: int| 0 <= j < gens.len() ==> disc(#[trigger] gens[j]) == disc(start) && is_positive_definite(gens[j]),
            decreases moves.len() - i,
        {
            let u = &trace.perturbations[i];
            assert(u@ == moves[i as int]);
            // A. u must be in P or P^-1
            let legal = if !u.is_positive_definite() {
                false
            } else if contains_form(allowed_generators, u) {
                true
            } else {
                let inverse = u.inverse();
                contains_form(allowed_generators, &inverse)
            };
            if !legal {
                assert(!legal_move(gens, moves[i as int]));
                return ReplayVerdict::IllegalMove { step: i, generator: u.to_text() };
            }
            proof {
                if gens.contains(u@) {
                    let k = choose|k: int| 0 <= k < gens.len() && gens[k] == u@;
                    assert(disc(gens[k]) == disc(start));
                } else {
                    assert(disc((u@.0, -u@.1, u@.2)) == disc(u@)) by (nonlinear_arith);
                    lemma_reduce_form((u@.0, -u@.1, u@.2));
                    let k = choose|k: int| 0 <= k < gens.len() && gens[k] == inverse_form(u@);
                    assert(disc(gens[k]) == disc(start));
                }
            }
            // B. Same universe
            let du = u.discriminant();
            let dc = calculated_state.discriminant();
            if !du.equals(&dc) {
                return ReplayVerdict::InvalidUniverse { details: text("a move leaves the universe") };
            }
            calculated_state = calculated_state.compose(u);
            i = i + 1;
            proof {
                assert(moves.take(i as int).drop_last() =~= moves.take((i - 1) as int));
            }
        }
        proof {
            assert(moves.take(i as int) =~= moves);
        }
        // 4. Final consistency
        if !calculated_state.equals(&trace.final_state) {
            return ReplayVerdict::FinalStateMismatch {
                claimed: trace.final_state.to_text(),
                calculated: calculated_state.to_text(),
            };
        }
        ReplayVerdict::Replayed { steps: trace.perturbations.len() }
    }
}

} // verus!
