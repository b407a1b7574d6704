//! Speculative decoding: a draft model proposes, the main model decides.

use crate::error::{InferenceError, InferenceResult};
use crate::inference::engine::{SamplingConfig, SamplingStrategy};
use crate::inference::model::{AutoregressiveModel, ModelReply};
use crate::inference::state::HiddenState;
use crate::number::{RatioMath, Single};
use crate::samples::copy_samples;
use vstd::prelude::*;

verus! {

/// The sampling and the comparison that speculative decoding needs. Nothing is
/// required of what the operations return.
pub trait DecoderMath {
    /// Picks a token from the logits of the draft model; an error is carried
    /// by its text.
    fn sample_draft(&self, logits: &[Single]) -> Result<Single, String>;

    /// Picks a token from the logits of the main model; an error is carried by
    /// its text.
    fn sample_main(&self, logits: &[Single]) -> Result<Single, String>;

    /// `a - b`.
    fn difference(&self, a: Single, b: Single) -> Single;
}

/// The bit pattern of 1e-6.
pub const EXACT_BITS: u32 = 0x3586_37bd;

/// The bit pattern of 0.5.
pub const NEAR_BITS: u32 = 0x3f00_0000;

/// Whether a distance is near enough: within a millionth where it has to be
/// exact, else within a half.
pub open spec fn is_near(gap: Single, exact: bool) -> bool {
    gap.absolute().below(
        Single {
            bits: if exact {
                EXACT_BITS
            } else {
                NEAR_BITS
            },
        },
    )
}

/// Whether a candidate can be found near enough to a prediction, or not.
pub open spec fn is_judged<D: DecoderMath>(
    d: D,
    candidate: Single,
    prediction: Single,
    exact: bool,
    near: bool,
) -> bool {
    exists|gap: Single| #[trigger]
        call_ensures(D::difference, (&d, candidate, prediction), gap) && near == is_near(gap, exact)
}

fn nearby<D: DecoderMath>(d: &D, candidate: Single, prediction: Single, exact: bool) -> (near: bool)
    ensures
        is_judged(*d, candidate, prediction, exact, near),
{
    let gap: Single = d.difference(candidate, prediction);
    assert(call_ensures(D::difference, (d, candidate, prediction), gap));
    let bound: Single = if exact {
        Single::from_bits(EXACT_BITS)
    } else {
        Single::from_bits(NEAR_BITS)
    };
    gap.abs().less(bound)
}

/// The bit pattern of 1.0.
pub const ONE_BITS: u32 = 0x3f80_0000;

/// Configuration of speculative decoding.
#[derive(Debug, Clone, Copy, PartialEq, Eq, Structural)]
pub struct SpeculativeConfig {
    /// The number of tokens that are proposed at a time.
    pub num_draft_tokens: usize,
    /// Temperature of the draft model.
    pub draft_temperature: Single,
    /// Temperature of the main model.
    pub main_temperature: Single,
    /// Whether proposals have to match exactly.
    pub greedy_verification: bool,
}

/// The default configuration.
pub open spec fn default_speculative() -> SpeculativeConfig {
    SpeculativeConfig {
        num_draft_tokens: 4,
        draft_temperature: Single { bits: ONE_BITS },
        main_temperature: Single { bits: ONE_BITS },
        greedy_verification: true,
    }
}

impl Default for SpeculativeConfig {
    fn default() -> (r: Self)
        ensures
            r == default_speculative(),
    {
        SpeculativeConfig {
            num_draft_tokens: 4,
            draft_temperature: Single { bits: ONE_BITS },
            main_temperature: Single { bits: ONE_BITS },
            greedy_verification: true,
        }
    }
}

impl SpeculativeConfig {
    /// The default configuration.
    pub fn new() -> (r: Self)
        ensures
            r == default_speculative(),
    {
        Self::default()
    }

    /// Sets the number of tokens that are proposed at a time.
    pub fn num_draft_tokens(self, n: usize) -> (r: Self)
        ensures
            r == (SpeculativeConfig { num_draft_tokens: n, ..self }),
    {
        SpeculativeConfig { num_draft_tokens: n, ..self }
    }

    /// Sets the temperature of the draft model.
    pub fn draft_temperature(self, temp: Single) -> (r: Self)
        ensures
            r == (SpeculativeConfig { draft_temperature: temp, ..self }),
    {
        SpeculativeConfig { draft_temperature: temp, ..self }
    }

    /// Sets the temperature of the main model.
    pub fn main_temperature(self, temp: Single) -> (r: Self)
        ensures
            r == (SpeculativeConfig { main_temperature: temp, ..self }),
    {
        SpeculativeConfig { main_temperature: temp, ..self }
    }

    /// Sets whether proposals have to match exactly.
    pub fn greedy_verification(self, greedy: bool) -> (r: Self)
        ensures
            r == (SpeculativeConfig { greedy_verification: greedy, ..self }),
    {
        SpeculativeConfig { greedy_verification: greedy, ..self }
    }
}

/// How tokens are picked from the logits of the draft model and of the main
/// model: by chance from those of the draft model, and from those of the main
/// model the likeliest where proposals have to match exactly.
pub fn samplings(config: &SpeculativeConfig) -> (r: (SamplingConfig, SamplingConfig))
    ensures
        r.0 == (SamplingConfig {
            temperature: config.draft_temperature,
            strategy: SamplingStrategy::Temperature,
        }),
        r.1 == (SamplingConfig {
            temperature: config.main_temperature,
            strategy: if config.greedy_verification {
                SamplingStrategy::Greedy
            } else {
                SamplingStrategy::Temperature
            },
        }),
{
    let strategy: SamplingStrategy = if config.greedy_verification {
        SamplingStrategy::Greedy
    } else {
        SamplingStrategy::Temperature
    };
    (
        SamplingConfig {
            temperature: config.draft_temperature,
            strategy: SamplingStrategy::Temperature,
        },
        SamplingConfig { temperature: config.main_temperature, strategy },
    )
}

/// Whether a model whose layers are in the states `before` predicts `logits`
/// from an input, which leaves its layers in the states `next`.
pub open spec fn is_forward<M: AutoregressiveModel>(
    m: M,
    before: Seq<HiddenState>,
    input: Seq<Single>,
    logits: Vec<Single>,
    next: Vec<HiddenState>,
) -> bool {
    crate::inference::model::is_reply(
        m,
        before,
        input,
        Ok::<(Vec<Single>, Vec<HiddenState>), String>((logits, next)),
    )
}

/// Whether a model whose layers are in the states `before` can fail on an input
/// with the text of an error.
pub open spec fn is_forward_failure<M: AutoregressiveModel>(
    m: M,
    before: Seq<HiddenState>,
    input: Seq<Single>,
    text: String,
) -> bool {
    crate::inference::model::is_reply(
        m,
        before,
        input,
        Err::<(Vec<Single>, Vec<HiddenState>), String>(text),
    )
}

/// Whether `token` is what the draft model proposes after an input, where its
/// layers go from the states `before` to the states `after`.
pub open spec fn is_drafted<M: AutoregressiveModel, D: DecoderMath>(
    m: M,
    d: D,
    before: Seq<HiddenState>,
    input: Seq<Single>,
    token: Single,
    after: Seq<HiddenState>,
) -> bool {
    exists|logits: Vec<Single>, next: Vec<HiddenState>, l: &[Single]|
        {
            &&& #[trigger] is_forward(m, before, input, logits, next)
            &&& next@ == after
            &&& #[trigger] l@ == logits@
            &&& call_ensures(D::sample_draft, (&d, l), Ok::<Single, String>(token))
        }
}

/// Whether the draft model proposes nothing after an input: it fails, or no
/// token is picked from its logits.
pub open spec fn is_undrafted<M: AutoregressiveModel, D: DecoderMath>(
    m: M,
    d: D,
    before: Seq<HiddenState>,
    input: Seq<Single>,
    e: InferenceError,
    after: Seq<HiddenState>,
) -> bool {
    &&& e is ForwardError
    &&& {
        ||| is_forward_failure(m, before, input, e->ForwardError_0) && after == before
        ||| exists|logits: Vec<Single>, next: Vec<HiddenState>, l: &[Single]|
            {
                &&& #[trigger] is_forward(m, before, input, logits, next)
                &&& next@ == after
                &&& #[trigger] l@ == logits@
                &&& call_ensures(
                    D::sample_draft,
                    (&d, l),
                    Err::<Single, String>(e->ForwardError_0),
                )
            }
    }
}

/// Whether `token` is what the main model predicts after an input, where its
/// layers go from the states `before` to the states `after`.
pub open spec fn is_predicted<M: AutoregressiveModel, D: DecoderMath>(
    m: M,
    d: D,
    before: Seq<HiddenState>,
    input: Seq<Single>,
    token: Single,
    after: Seq<HiddenState>,
) -> bool {
    exists|logits: Vec<Single>, next: Vec<HiddenState>, l: &[Single]|
        {
            &&& #[trigger] is_forward(m, before, input, logits, next)
            &&& next@ == after
            &&& #[trigger] l@ == logits@
            &&& call_ensures(D::sample_main, (&d, l), Ok::<Single, String>(token))
        }
}

/// Whether the main model predicts nothing after an input: it fails, or no
/// token is picked from its logits.
pub open spec fn is_unpredicted<M: AutoregressiveModel, D: DecoderMath>(
    m: M,
    d: D,
    before: Seq<HiddenState>,
    input: Seq<Single>,
    e: InferenceError,
    after: Seq<HiddenState>,
) -> bool {
    &&& e is ForwardError
    &&& {
        ||| is_forward_failure(m, before, input, e->ForwardError_0) && after == before
        ||| exists|logits: Vec<Single>, next: Vec<HiddenState>, l: &[Single]|
            {
                &&& #[trigger] is_forward(m, before, input, logits, next)
                &&& next@ == after
                &&& #[trigger] l@ == logits@
                &&& call_ensures(
                    D::sample_main,
                    (&d, l),
                    Err::<Single, String>(e->ForwardError_0),
                )
            }
    }
}

/// The input before place `i` of the candidates: the candidate before it, or
/// the input of the round.
pub open spec fn input_at(input: Seq<Single>, candidates: Seq<Single>, i: int) -> Seq<Single> {
    if i == 0 {
        input
    } else {
        seq![candidates[i - 1]]
    }
}

/// Whether the main model agrees with a candidate.
pub open spec fn is_agreed<M: AutoregressiveModel, D: DecoderMath>(
    m: M,
    d: D,
    before: Seq<HiddenState>,
    input: Seq<Single>,
    candidate: Single,
    exact: bool,
    after: Seq<HiddenState>,
) -> bool {
    exists|p: Single|
        #[trigger] is_predicted(m, d, before, input, p, after) && is_judged(
            d,
            candidate,
            p,
            exact,
            true,
        )
}

/// Whether a token is what the main model predicts, or near enough to it.
pub open spec fn is_followed<M: AutoregressiveModel, D: DecoderMath>(
    m: M,
    d: D,
    before: Seq<HiddenState>,
    input: Seq<Single>,
    token: Single,
    exact: bool,
    after: Seq<HiddenState>,
) -> bool {
    ||| is_predicted(m, d, before, input, token, after)
    ||| is_agreed(m, d, before, input, token, exact, after)
}

/// One round: the candidates of the draft model, how many of them the main
/// model agrees with from the start on, and the token that it goes on with. The
/// states of the models' layers stand beside it: those of the draft model before
/// and after each candidate, those of the main model before and after each
/// candidate that it agrees with, and those that the token leaves it in.
pub struct Round {
    pub candidates: Seq<Single>,
    pub accepted: nat,
    pub next: Single,
    pub drafts: Seq<Seq<HiddenState>>,
    pub judged: Seq<Seq<HiddenState>>,
    pub after: Seq<HiddenState>,
}

impl Round {
    /// The tokens that the round adds.
    pub open spec fn tokens(self) -> Seq<Single> {
        self.candidates.take(self.accepted as int).push(self.next)
    }
}

/// The tokens that rounds add, one after the other.
pub open spec fn all_tokens(rounds: Seq<Round>) -> Seq<Single>
    decreases rounds.len(),
{
    if rounds.len() == 0 {
        Seq::empty()
    } else {
        all_tokens(rounds.drop_last()) + rounds.last().tokens()
    }
}

/// The states that the main model's layers go through in rounds, before the
/// first token and after each.
pub open spec fn main_path(main: Seq<HiddenState>, rounds: Seq<Round>) -> Seq<Seq<HiddenState>>
    decreases rounds.len(),
{
    if rounds.len() == 0 {
        seq![main]
    } else {
        main_path(main, rounds.drop_last()) + rounds.last().judged.drop_first().push(
            rounds.last().after,
        )
    }
}

proof fn main_path_ends(main: Seq<HiddenState>, rounds: Seq<Round>)
    ensures
        main_path(main, rounds).len() > 0,
        main_path(main, rounds).last() == main_start(main, rounds, rounds.len() as int),
    decreases rounds.len(),
{
    if rounds.len() > 0 {
        main_path_ends(main, rounds.drop_last());
        let part = rounds.last().judged.drop_first().push(rounds.last().after);
        assert(part.last() == rounds.last().after);
    }
}

proof fn last_token(rounds: Seq<Round>)
    ensures
        rounds.len() == 0 <==> all_tokens(rounds).len() == 0,
        rounds.len() > 0 ==> all_tokens(rounds).last() == rounds.last().next,
{
    if rounds.len() > 0 {
        assert(rounds.last().tokens().last() == rounds.last().next);
    }
}

/// The input of a round: the token that the round before went on with, or the
/// input of all.
pub open spec fn round_input(input: Seq<Single>, rounds: Seq<Round>, i: int) -> Seq<Single> {
    if i == 0 {
        input
    } else {
        seq![rounds[i - 1].next]
    }
}

/// The states of the draft model's layers before a round.
pub open spec fn draft_start(
    start: Seq<HiddenState>,
    rounds: Seq<Round>,
    i: int,
) -> Seq<HiddenState> {
    if i == 0 {
        start
    } else {
        rounds[i - 1].drafts.last()
    }
}

/// The states of the main model's layers before a round.
pub open spec fn main_start(
    start: Seq<HiddenState>,
    rounds: Seq<Round>,
    i: int,
) -> Seq<HiddenState> {
    if i == 0 {
        start
    } else {
        rounds[i - 1].after
    }
}

/// Generates tokens with a draft model and a main model. Each model goes on
/// from the states that its layers were left in.
pub struct SpeculativeDecoder<A, B, D> {
    main_model: A,
    draft_model: B,
    config: SpeculativeConfig,
    math: D,
    main_states: Vec<HiddenState>,
    draft_states: Vec<HiddenState>,
    total_tokens: usize,
    accepted_tokens: usize,
}

impl<A: AutoregressiveModel, B: AutoregressiveModel, D: DecoderMath> SpeculativeDecoder<A, B, D> {
    /// The configuration.
    pub closed spec fn settings(&self) -> SpeculativeConfig {
        self.config
    }

    /// The main model.
    pub closed spec fn judge(&self) -> A {
        self.main_model
    }

    /// The draft model.
    pub closed spec fn drafter(&self) -> B {
        self.draft_model
    }

    /// The sampling.
    pub closed spec fn numerics(&self) -> D {
        self.math
    }

    /// The states of the main model's layers.
    pub closed spec fn main_memory(&self) -> Seq<HiddenState> {
        self.main_states@
    }

    /// The states of the draft model's layers.
    pub closed spec fn draft_memory(&self) -> Seq<HiddenState> {
        self.draft_states@
    }

    /// The number of tokens that were proposed.
    pub closed spec fn proposed(&self) -> nat {
        self.total_tokens as nat
    }

    /// The number of proposed tokens that were accepted.
    pub closed spec fn accepted(&self) -> nat {
        self.accepted_tokens as nat
    }

    /// No more tokens were accepted than were proposed.
    pub open spec fn wf(&self) -> bool {
        self.accepted() <= self.proposed() <= usize::MAX
    }

    /// Whether the draft model proposes the candidates after an input, each
    /// after the one before, where its layers go through the states `memory`.
    pub open spec fn are_drafted(
        &self,
        input: Seq<Single>,
        candidates: Seq<Single>,
        memory: Seq<Seq<HiddenState>>,
    ) -> bool {
        &&& memory.len() == candidates.len() + 1
        &&& forall|i: int|
            0 <= i < candidates.len() ==> is_drafted(
                self.drafter(),
                self.numerics(),
                memory[i],
                input_at(input, candidates, i),
                #[trigger] candidates[i],
                memory[i + 1],
            )
    }

    /// Whether the main model agrees with the first candidates, where its
    /// layers go through the states `memory`.
    pub open spec fn are_agreed(
        &self,
        input: Seq<Single>,
        candidates: Seq<Single>,
        accepted: nat,
        memory: Seq<Seq<HiddenState>>,
    ) -> bool {
        &&& accepted <= candidates.len()
        &&& memory.len() == accepted + 1
        &&& forall|i: int|
            0 <= i < accepted ==> is_agreed(
                self.judge(),
                self.numerics(),
                memory[i],
                input_at(input, candidates, i),
                #[trigger] candidates[i],
                self.settings().greedy_verification,
                memory[i + 1],
            )
    }

    /// Whether proposing ends in an error: fewer candidates than are wanted
    /// are proposed, and none after them.
    pub open spec fn drafting_fails(
        &self,
        input: Seq<Single>,
        start: Seq<HiddenState>,
        e: InferenceError,
        end: Seq<HiddenState>,
    ) -> bool {
        exists|c: Seq<Single>, memory: Seq<Seq<HiddenState>>|
            {
                &&& c.len() < self.settings().num_draft_tokens
                &&& #[trigger] self.are_drafted(input, c, memory)
                &&& memory[0] == start
                &&& is_undrafted(
                    self.drafter(),
                    self.numerics(),
                    memory.last(),
                    input_at(input, c, c.len() as int),
                    e,
                    end,
                )
            }
    }

    /// Whether judging candidates ends in an error: the main model agrees with
    /// the first ones and predicts nothing after them.
    pub open spec fn judging_fails(
        &self,
        input: Seq<Single>,
        candidates: Seq<Single>,
        start: Seq<HiddenState>,
        e: InferenceError,
        end: Seq<HiddenState>,
    ) -> bool {
        exists|accepted: nat, memory: Seq<Seq<HiddenState>>|
            {
                &&& #[trigger] self.are_agreed(input, candidates, accepted, memory)
                &&& memory[0] == start
                &&& is_unpredicted(
                    self.judge(),
                    self.numerics(),
                    memory.last(),
                    input_at(input, candidates, accepted as int),
                    e,
                    end,
                )
            }
    }

    /// Whether a round ends in an error: no candidates are proposed, or those
    /// that are proposed cannot be judged. Each model's layers go from the
    /// first of its states to the second.
    pub open spec fn round_fails(
        &self,
        input: Seq<Single>,
        draft: (Seq<HiddenState>, Seq<HiddenState>),
        main: (Seq<HiddenState>, Seq<HiddenState>),
        e: InferenceError,
    ) -> bool {
        ||| self.drafting_fails(input, draft.0, e, draft.1) && main.1 == main.0
        ||| exists|c: Seq<Single>, memory: Seq<Seq<HiddenState>>|
            {
                &&& c.len() == self.settings().num_draft_tokens
                &&& #[trigger] self.are_drafted(input, c, memory)
                &&& memory[0] == draft.0
                &&& memory.last() == draft.1
                &&& self.judging_fails(input, c, main.0, e, main.1)
            }
    }

    /// Whether a round follows from its input.
    pub open spec fn is_round(&self, input: Seq<Single>, round: Round) -> bool {
        let c = round.candidates;
        &&& c.len() == self.settings().num_draft_tokens
        &&& self.are_drafted(input, c, round.drafts)
        &&& self.are_agreed(input, c, round.accepted, round.judged)
        &&& is_predicted(
            self.judge(),
            self.numerics(),
            round.judged.last(),
            input_at(input, c, round.accepted as int),
            round.next,
            round.after,
        )
        &&& round.accepted < c.len() ==> is_judged(
            self.numerics(),
            c[round.accepted as int],
            round.next,
            self.settings().greedy_verification,
            false,
        )
    }

    /// Whether rounds follow from an input, each from the one before.
    pub open spec fn are_rounds(
        &self,
        input: Seq<Single>,
        draft: Seq<HiddenState>,
        main: Seq<HiddenState>,
        rounds: Seq<Round>,
    ) -> bool {
        forall|i: int|
            0 <= i < rounds.len() ==> {
                &&& self.is_round(round_input(input, rounds, i), #[trigger] rounds[i])
                &&& rounds[i].drafts[0] == draft_start(draft, rounds, i)
                &&& rounds[i].judged[0] == main_start(main, rounds, i)
            }
    }

    /// Whether the main model, taking each token in turn after the input,
    /// predicts every token, or something near enough to it, where its layers
    /// go through the states `memory`.
    pub open spec fn follows_main(
        &self,
        input: Seq<Single>,
        tokens: Seq<Single>,
        memory: Seq<Seq<HiddenState>>,
    ) -> bool {
        &&& memory.len() == tokens.len() + 1
        &&& forall|i: int|
            0 <= i < tokens.len() ==> is_followed(
                self.judge(),
                self.numerics(),
                memory[i],
                input_at(input, tokens, i),
                #[trigger] tokens[i],
                self.settings().greedy_verification,
                memory[i + 1],
            )
    }

    /// The tokens of all rounds are those of the main model alone: it predicts
    /// each of them, or something near enough to it, after the ones before. The
    /// draft model has no other part in it.
    pub proof fn tokens_are_those_of_the_main_model(
        &self,
        input: Seq<Single>,
        draft: Seq<HiddenState>,
        main: Seq<HiddenState>,
        rounds: Seq<Round>,
    )
        requires
            self.are_rounds(input, draft, main, rounds),
        ensures
            self.follows_main(input, all_tokens(rounds), main_path(main, rounds)),
        decreases rounds.len(),
    {
        if rounds.len() > 0 {
            let earlier = rounds.drop_last();
            let last = rounds.len() - 1;
            let round = rounds[last];
            assert(self.are_rounds(input, draft, main, earlier)) by {
                assert forall|i: int| 0 <= i < earlier.len() implies {
                    &&& self.is_round(round_input(input, earlier, i), #[trigger] earlier[i])
                    &&& earlier[i].drafts[0] == draft_start(draft, earlier, i)
                    &&& earlier[i].judged[0] == main_start(main, earlier, i)
                } by {
                    assert(rounds[i] == earlier[i]);
                }
            }
            self.tokens_are_those_of_the_main_model(input, draft, main, earlier);
            last_token(earlier);
            main_path_ends(main, earlier);
            assert(self.is_round(round_input(input, rounds, last), round));
            assert(round.judged[0] == main_start(main, rounds, last));
            self.one_round_follows(
                input,
                all_tokens(earlier),
                main_path(main, earlier),
                round_input(input, rounds, last),
                round,
            );
        }
    }

    proof fn one_round_follows(
        &self,
        input: Seq<Single>,
        base: Seq<Single>,
        before: Seq<Seq<HiddenState>>,
        start: Seq<Single>,
        round: Round,
    )
        requires
            self.follows_main(input, base, before),
            self.is_round(start, round),
            start == input_at(input, base, base.len() as int),
            round.judged[0] == before.last(),
        ensures
            self.follows_main(
                input,
                base + round.tokens(),
                before + round.judged.drop_first().push(round.after),
            ),
    {
        let tokens = base + round.tokens();
        let memory = before + round.judged.drop_first().push(round.after);
        assert forall|i: int| 0 <= i < tokens.len() implies is_followed(
            self.judge(),
            self.numerics(),
            memory[i],
            input_at(input, tokens, i),
            #[trigger] tokens[i],
            self.settings().greedy_verification,
            memory[i + 1],
        ) by {
            let k = i - base.len();
            if k < 0 {
                assert(tokens[i] == base[i]);
                assert(input_at(input, tokens, i) == input_at(input, base, i));
            } else {
                assert(memory[i] == round.judged[k]);
                assert(input_at(input, tokens, i) == input_at(start, round.candidates, k)) by {
                    if k == 0 {
                        assert(input_at(input, tokens, i) == input_at(input, base, i));
                    } else {
                        assert(tokens[i - 1] == round.candidates[k - 1]);
                    }
                }
                if k < round.accepted {
                    assert(tokens[i] == round.candidates[k]);
                    assert(memory[i + 1] == round.judged[k + 1]);
                } else {
                    assert(tokens[i] == round.next);
                    assert(memory[i + 1] == round.after);
                    assert(round.judged[k] == round.judged.last());
                }
            }
        }
    }

    /// Whether `self` and `other` have the same models, sampling and
    /// configuration.
    pub open spec fn same_setup(&self, other: &Self) -> bool {
        &&& self.settings() == other.settings()
        &&& self.judge() == other.judge()
        &&& self.drafter() == other.drafter()
        &&& self.numerics() == other.numerics()
    }

    proof fn setup_is_all(
        &self,
        other: &Self,
        input: Seq<Single>,
        draft: (Seq<HiddenState>, Seq<HiddenState>),
        main: (Seq<HiddenState>, Seq<HiddenState>),
    )
        requires
            self.same_setup(other),
        ensures
            forall|round: Round| #[trigger]
                self.is_round(input, round) ==> other.is_round(input, round),
            forall|e: InferenceError| #[trigger]
                self.round_fails(input, draft, main, e) ==> other.round_fails(
                    input,
                    draft,
                    main,
                    e,
                ),
    {
        assert forall|c: Seq<Single>, memory: Seq<Seq<HiddenState>>| #[trigger]
            self.are_drafted(input, c, memory) implies other.are_drafted(input, c, memory) by {
        }
        assert forall|c: Seq<Single>, n: nat, memory: Seq<Seq<HiddenState>>| #[trigger]
            self.are_agreed(input, c, n, memory) implies other.are_agreed(
            input,
            c,
            n,
            memory,
        ) by {
        }
        assert forall|e: InferenceError| #[trigger]
            self.round_fails(input, draft, main, e) implies other.round_fails(
            input,
            draft,
            main,
            e,
        ) by {
            if self.drafting_fails(input, draft.0, e, draft.1) && main.1 == main.0 {
                let (c, memory) = choose|c: Seq<Single>, memory: Seq<Seq<HiddenState>>|
                    {
                        &&& c.len() < self.settings().num_draft_tokens
                        &&& #[trigger] self.are_drafted(input, c, memory)
                        &&& memory[0] == draft.0
                        &&& is_undrafted(
                            self.drafter(),
                            self.numerics(),
                            memory.last(),
                            input_at(input, c, c.len() as int),
                            e,
                            draft.1,
                        )
                    };
                assert(other.are_drafted(input, c, memory));
            } else {
                let (c, memory) = choose|c: Seq<Single>, memory: Seq<Seq<HiddenState>>|
                    {
                        &&& c.len() == self.settings().num_draft_tokens
                        &&& #[trigger] self.are_drafted(input, c, memory)
                        &&& memory[0] == draft.0
                        &&& memory.last() == draft.1
                        &&& self.judging_fails(input, c, main.0, e, main.1)
                    };
                assert(other.are_drafted(input, c, memory));
                let (n, judged) = choose|n: nat, judged: Seq<Seq<HiddenState>>|
                    {
                        &&& #[trigger] self.are_agreed(input, c, n, judged)
                        &&& judged[0] == main.0
                        &&& is_unpredicted(
                            self.judge(),
                            self.numerics(),
                            judged.last(),
                            input_at(input, c, n as int),
                            e,
                            main.1,
                        )
                    };
                assert(other.are_agreed(input, c, n, judged));
                assert(other.judging_fails(input, c, main.0, e, main.1));
            }
        }
    }

    proof fn one_more_round(
        &self,
        input: Seq<Single>,
        draft: Seq<HiddenState>,
        main: Seq<HiddenState>,
        rounds: Seq<Round>,
        round: Round,
    )
        requires
            self.are_rounds(input, draft, main, rounds),
            self.is_round(round_input(input, rounds, rounds.len() as int), round),
            round.drafts[0] == draft_start(draft, rounds, rounds.len() as int),
            round.judged[0] == main_start(main, rounds, rounds.len() as int),
        ensures
            self.are_rounds(input, draft, main, rounds.push(round)),
            all_tokens(rounds.push(round)) == all_tokens(rounds) + round.tokens(),
            all_accepted(rounds.push(round)) == all_accepted(rounds) + round.accepted,
            round.tokens().len() == round.accepted + 1,
    {
        let more = rounds.push(round);
        assert(more.drop_last() =~= rounds);
        assert forall|i: int| 0 <= i < more.len() implies {
            &&& self.is_round(round_input(input, more, i), #[trigger] more[i])
            &&& more[i].drafts[0] == draft_start(draft, more, i)
            &&& more[i].judged[0] == main_start(main, more, i)
        } by {
            if i < rounds.len() {
                assert(rounds[i] == more[i]);
            }
            assert(round_input(input, more, i) == round_input(input, rounds, i));
            assert(draft_start(draft, more, i) == draft_start(draft, rounds, i));
            assert(main_start(main, more, i) == main_start(main, rounds, i));
        }
    }

    /// A decoder that has proposed nothing yet; each model starts from its own
    /// states.
    pub fn new(main_model: A, draft_model: B, config: SpeculativeConfig, math: D) -> (r: Self)
        ensures
            r.wf(),
            r.settings() == config,
            r.judge() == main_model,
            r.drafter() == draft_model,
            r.numerics() == math,
            r.proposed() == 0,
            r.accepted() == 0,
            exists|states: Vec<HiddenState>| #[trigger]
                call_ensures(A::get_states, (&main_model,), states) && states@ == r.main_memory(),
            exists|states: Vec<HiddenState>| #[trigger]
                call_ensures(B::get_states, (&draft_model,), states) && states@
                    == r.draft_memory(),
    {
        let main_states: Vec<HiddenState> = main_model.get_states();
        let draft_states: Vec<HiddenState> = draft_model.get_states();
        SpeculativeDecoder {
            main_model,
            draft_model,
            config,
            math,
            main_states,
            draft_states,
            total_tokens: 0,
            accepted_tokens: 0,
        }
    }

    /// The candidates of the draft model, each proposed after the one before;
    /// its layers go on from the given states. The first error, of the model
    /// or of the sampling, is passed on.
    fn draft(&self, input: &[Single], states: &mut Vec<HiddenState>) -> (r: InferenceResult<
        Vec<Single>,
    >)
        ensures
            match r {
                Ok(c) => {
                    &&& c@.len() == self.settings().num_draft_tokens
                    &&& exists|memory: Seq<Seq<HiddenState>>|
                        {
                            &&& #[trigger] self.are_drafted(input@, c@, memory)
                            &&& memory[0] == old(states)@
                            &&& memory.last() == final(states)@
                        }
                },
                Err(e) => self.drafting_fails(input@, old(states)@, e, final(states)@),
            },
    {
        let n: usize = self.config.num_draft_tokens;
        let mut candidates: Vec<Single> = Vec::with_capacity(n);
        let mut current: Vec<Single> = copy_samples(input);
        let ghost mut memory: Seq<Seq<HiddenState>> = seq![states@];
        let mut i: usize = 0;
        while i < n
            invariant
                i <= n,
                n == self.config.num_draft_tokens,
                candidates@.len() == i,
                current@ == input_at(input@, candidates@, i as int),
                self.are_drafted(input@, candidates@, memory),
                memory[0] == old(states)@,
                memory.last() == states@,
            decreases n - i,
        {
            let ghost before = candidates@;
            let ghost held = states@;
            let s: &[HiddenState] = states.as_slice();
            let x: &[Single] = current.as_slice();
            let reply: ModelReply = self.draft_model.advance(s, x);
            assert(s@ == held && x@ == current@);
            assert(crate::inference::model::is_reply(self.draft_model, held, current@, reply));
            let (logits, next): (Vec<Single>, Vec<HiddenState>) = match reply {
                Ok(pair) => pair,
                Err(text) => {
                    assert(is_forward_failure(self.draft_model, held, current@, text));
                    return Err(InferenceError::ForwardError(text));
                },
            };
            assert(is_forward(self.draft_model, held, current@, logits, next));
            *states = next;
            let l: &[Single] = logits.as_slice();
            assert(l@ == logits@);
            let token: Single = match self.math.sample_draft(l) {
                Ok(token) => token,
                Err(text) => {
                    assert(is_undrafted(
                        self.draft_model,
                        self.math,
                        held,
                        current@,
                        InferenceError::ForwardError(text),
                        states@,
                    ));
                    return Err(InferenceError::ForwardError(text));
                },
            };
            assert(is_drafted(self.draft_model, self.math, held, current@, token, states@));
            candidates.push(token);
            current = vec![token];
            proof {
                assert(current@ =~= seq![token]);
                let longer = memory.push(states@);
                assert forall|k: int| 0 <= k < i + 1 implies is_drafted(
                    self.draft_model,
                    self.math,
                    longer[k],
                    input_at(input@, candidates@, k),
                    #[trigger] candidates@[k],
                    longer[k + 1],
                ) by {
                    assert(input_at(input@, candidates@, k) == input_at(input@, before, k));
                    if k < i {
                        assert(before[k] == candidates@[k]);
                    }
                }
                memory = longer;
            }
            i += 1;
        }
        proof {
            assert(self.are_drafted(input@, candidates@, memory));
            assert(exists|memory: Seq<Seq<HiddenState>>|
                {
                    &&& #[trigger] self.are_drafted(input@, candidates@, memory)
                    &&& memory[0] == old(states)@
                    &&& memory.last() == states@
                });
        }
        Ok(candidates)
    }

    /// The token that the main model predicts after an input; its layers go
    /// on from the given states. An error, of the model or of the sampling, is
    /// passed on.
    fn predict(&self, input: &[Single], states: &mut Vec<HiddenState>) -> (r: InferenceResult<
        Single,
    >)
        ensures
            match r {
                Ok(token) => is_predicted(
                    self.judge(),
                    self.numerics(),
                    old(states)@,
                    input@,
                    token,
                    final(states)@,
                ),
                Err(e) => is_unpredicted(
                    self.judge(),
                    self.numerics(),
                    old(states)@,
                    input@,
                    e,
                    final(states)@,
                ),
            },
    {
        let ghost held = states@;
        let s: &[HiddenState] = states.as_slice();
        let reply: ModelReply = self.main_model.advance(s, input);
        assert(s@ == held && input@ == input@);
        assert(crate::inference::model::is_reply(self.main_model, held, input@, reply));
        let (logits, next): (Vec<Single>, Vec<HiddenState>) = match reply {
            Ok(pair) => pair,
            Err(text) => {
                assert(is_forward_failure(self.main_model, held, input@, text));
                return Err(InferenceError::ForwardError(text));
            },
        };
        assert(is_forward(self.main_model, held, input@, logits, next));
        *states = next;
        let l: &[Single] = logits.as_slice();
        assert(l@ == logits@);
        match self.math.sample_main(l) {
            Ok(token) => Ok(token),
            Err(text) => Err(InferenceError::ForwardError(text)),
        }
    }

    /// How many candidates the main model agrees with, from the first one on,
    /// and the token that it goes on with; its layers go on from the given
    /// states. The first error is passed on.
    fn verify(
        &self,
        input: &[Single],
        candidates: &[Single],
        states: &mut Vec<HiddenState>,
    ) -> (r: InferenceResult<(usize, Single)>)
        ensures
            match r {
                Ok((accepted, next)) => {
                    &&& exists|memory: Seq<Seq<HiddenState>>|
                        {
                            &&& #[trigger] self.are_agreed(
                                input@,
                                candidates@,
                                accepted as nat,
                                memory,
                            )
                            &&& memory[0] == old(states)@
                            &&& is_predicted(
                                self.judge(),
                                self.numerics(),
                                memory.last(),
                                input_at(input@, candidates@, accepted as int),
                                next,
                                final(states)@,
                            )
                        }
                    &&& accepted < candidates@.len() ==> is_judged(
                        self.numerics(),
                        candidates@[accepted as int],
                        next,
                        self.settings().greedy_verification,
                        false,
                    )
                },
                Err(e) => self.judging_fails(
                    input@,
                    candidates@,
                    old(states)@,
                    e,
                    final(states)@,
                ),
            },
    {
        let exact: bool = self.config.greedy_verification;
        let mut current: Vec<Single> = copy_samples(input);
        let ghost mut memory: Seq<Seq<HiddenState>> = seq![states@];
        let mut accepted: usize = 0;
        while accepted < candidates.len()
            invariant
                exact == self.config.greedy_verification,
                current@ == input_at(input@, candidates@, accepted as int),
                self.are_agreed(input@, candidates@, accepted as nat, memory),
                memory[0] == old(states)@,
                memory.last() == states@,
            decreases candidates@.len() - accepted,
        {
            let ghost held = states@;
            let prediction: Single = match self.predict(current.as_slice(), states) {
                Ok(prediction) => prediction,
                Err(e) => {
                    return Err(e);
                },
            };
            let candidate: Single = candidates[accepted];
            if nearby(&self.math, candidate, prediction, exact) {
                proof {
                    assert(is_predicted(
                        self.main_model,
                        self.math,
                        held,
                        current@,
                        prediction,
                        states@,
                    ));
                    assert(is_agreed(
                        self.main_model,
                        self.math,
                        held,
                        current@,
                        candidate,
                        exact,
                        states@,
                    ));
                    let longer = memory.push(states@);
                    assert forall|i: int| 0 <= i < accepted + 1 implies is_agreed(
                        self.main_model,
                        self.math,
                        longer[i],
                        input_at(input@, candidates@, i),
                        #[trigger] candidates@[i],
                        exact,
                        longer[i + 1],
                    ) by {
                    }
                    memory = longer;
                }
                accepted += 1;
                current = vec![candidate];
                assert(current@ =~= seq![candidate]);
            } else {
                return Ok((accepted, prediction));
            }
        }
        let ghost held = states@;
        let last: InferenceResult<Single> = self.predict(current.as_slice(), states);
        proof {
            assert(self.are_agreed(input@, candidates@, accepted as nat, memory));
            assert(memory.last() == held);
        }
        match last {
            Ok(prediction) => {
                assert(is_predicted(
                    self.main_model,
                    self.math,
                    memory.last(),
                    current@,
                    prediction,
                    states@,
                ));
                Ok((accepted, prediction))
            },
            Err(e) => Err(e),
        }
    }

    /// One round: candidates are proposed and judged.
    fn round(
        &self,
        input: &[Single],
        drafts: &mut Vec<HiddenState>,
        judged: &mut Vec<HiddenState>,
    ) -> (r: InferenceResult<(Vec<Single>, usize, Single)>)
        ensures
            match r {
                Ok((c, accepted, next)) => exists|round: Round|
                    {
                        &&& #[trigger] self.is_round(input@, round)
                        &&& round.candidates == c@
                        &&& round.accepted == accepted
                        &&& round.next == next
                        &&& round.drafts[0] == old(drafts)@
                        &&& round.drafts.last() == final(drafts)@
                        &&& round.judged[0] == old(judged)@
                        &&& round.after == final(judged)@
                    },
                Err(e) => self.round_fails(
                    input@,
                    (old(drafts)@, final(drafts)@),
                    (old(judged)@, final(judged)@),
                    e,
                ),
            },
    {
        let candidates: Vec<Single> = match self.draft(input, drafts) {
            Ok(candidates) => candidates,
            Err(e) => {
                return Err(e);
            },
        };
        let ghost drafted = choose|memory: Seq<Seq<HiddenState>>|
            {
                &&& #[trigger] self.are_drafted(input@, candidates@, memory)
                &&& memory[0] == old(drafts)@
                &&& memory.last() == drafts@
            };
        assert(self.are_drafted(input@, candidates@, drafted));
        let (accepted, next): (usize, Single) = match self.verify(
            input,
            candidates.as_slice(),
            judged,
        ) {
            Ok(pair) => pair,
            Err(e) => {
                return Err(e);
            },
        };
        proof {
            let memory = choose|memory: Seq<Seq<HiddenState>>|
                {
                    &&& #[trigger] self.are_agreed(input@, candidates@, accepted as nat, memory)
                    &&& memory[0] == old(judged)@
                    &&& is_predicted(
                        self.judge(),
                        self.numerics(),
                        memory.last(),
                        input_at(input@, candidates@, accepted as int),
                        next,
                        judged@,
                    )
                };
            let round = Round {
                candidates: candidates@,
                accepted: accepted as nat,
                next,
                drafts: drafted,
                judged: memory,
                after: judged@,
            };
            assert(self.is_round(input@, round));
        }
        Ok((candidates, accepted, next))
    }

    /// What generating comes to after rounds that went well: the tokens, as
    /// many as are wanted, or the error of the round that follows them.
    pub open spec fn ends(
        &self,
        input: Seq<Single>,
        max_tokens: nat,
        rounds: Seq<Round>,
        after: &Self,
        r: InferenceResult<Vec<Vec<Single>>>,
    ) -> bool {
        let n = rounds.len() as int;
        match r {
            Ok(tokens) => {
                &&& tokens@.len() == max_tokens
                &&& spells(tokens@, all_tokens(rounds))
                &&& rounds.len() > 0 ==> all_tokens(rounds.drop_last()).len() < max_tokens
                &&& after.draft_memory() == draft_start(self.draft_memory(), rounds, n)
                &&& after.main_memory() == main_start(self.main_memory(), rounds, n)
            },
            Err(e) => {
                &&& all_tokens(rounds).len() < max_tokens
                &&& self.round_fails(
                    round_input(input, rounds, n),
                    (draft_start(self.draft_memory(), rounds, n), after.draft_memory()),
                    (main_start(self.main_memory(), rounds, n), after.main_memory()),
                    e,
                )
            },
        }
    }

    /// Generates `max_tokens` tokens. Each round adds the candidates that the
    /// main model agrees with and the token that it goes on with; what is
    /// beyond `max_tokens` is dropped. The first error ends it, and the rounds
    /// before it stay counted.
    pub fn generate(&mut self, input: &[Single], max_tokens: usize) -> (r: InferenceResult<
        Vec<Vec<Single>>,
    >)
        requires
            old(self).wf(),
            old(self).proposed() + max_tokens * old(self).settings().num_draft_tokens
                <= usize::MAX,
        ensures
            final(self).wf(),
            final(self).same_setup(old(self)),
            max_tokens == 0 ==> r is Ok && final(self).proposed() == old(self).proposed()
                && final(self).accepted() == old(self).accepted() && final(self).draft_memory()
                == old(self).draft_memory() && final(self).main_memory() == old(
                self,
            ).main_memory(),
            exists|rounds: Seq<Round>|
                {
                    &&& #[trigger] old(self).are_rounds(
                        input@,
                        old(self).draft_memory(),
                        old(self).main_memory(),
                        rounds,
                    )
                    &&& final(self).proposed() == old(self).proposed() + rounds.len() * old(
                        self,
                    ).settings().num_draft_tokens
                    &&& final(self).accepted() == old(self).accepted() + all_accepted(rounds)
                    &&& old(self).ends(input@, max_tokens as nat, rounds, final(self), r)
                },
    {
        let mut sequence: Vec<Vec<Single>> = Vec::with_capacity(max_tokens);
        let mut current: Vec<Single> = copy_samples(input);
        let mut drafts: Vec<HiddenState> = Vec::new();
        let mut judged: Vec<HiddenState> = Vec::new();
        std::mem::swap(&mut drafts, &mut self.draft_states);
        std::mem::swap(&mut judged, &mut self.main_states);
        let ghost mut rounds: Seq<Round> = Seq::empty();
        let ghost n = self.config.num_draft_tokens as nat;
        let ghost draft0 = drafts@;
        let ghost main0 = judged@;
        while sequence.len() < max_tokens
            invariant
                self.same_setup(old(self)),
                draft0 == old(self).draft_memory(),
                main0 == old(self).main_memory(),
                n == self.config.num_draft_tokens,
                self.wf(),
                old(self).proposed() + max_tokens * n <= usize::MAX,
                sequence@.len() <= max_tokens,
                rounds.len() <= sequence@.len(),
                old(self).are_rounds(input@, draft0, main0, rounds),
                drafts@ == draft_start(draft0, rounds, rounds.len() as int),
                judged@ == main_start(main0, rounds, rounds.len() as int),
                self.proposed() == old(self).proposed() + rounds.len() * n,
                self.accepted() == old(self).accepted() + all_accepted(rounds),
                sequence@.len() == if all_tokens(rounds).len() < max_tokens {
                    all_tokens(rounds).len()
                } else {
                    max_tokens as nat
                },
                spells(sequence@, all_tokens(rounds)),
                rounds.len() > 0 ==> all_tokens(rounds.drop_last()).len() < max_tokens,
                sequence@.len() < max_tokens ==> current@ == round_input(
                    input@,
                    rounds,
                    rounds.len() as int,
                ),
                max_tokens == 0 ==> rounds.len() == 0,
            decreases max_tokens - sequence@.len(),
        {
            let ghost earlier = rounds;
            let ghost drafts1 = drafts@;
            let ghost judged1 = judged@;
            let outcome: InferenceResult<(Vec<Single>, usize, Single)> = self.round(
                current.as_slice(),
                &mut drafts,
                &mut judged,
            );
            proof {
                self.setup_is_all(
                    old(self),
                    current@,
                    (drafts1, drafts@),
                    (judged1, judged@),
                );
            }
            let (candidates, accepted, next): (Vec<Single>, usize, Single) = match outcome {
                Ok(found) => found,
                Err(e) => {
                    assert(self.round_fails(current@, (drafts1, drafts@), (judged1, judged@), e));
                    self.draft_states = drafts;
                    self.main_states = judged;
                    return Err(e);
                },
            };
            proof {
                let round = choose|round: Round|
                    {
                        &&& #[trigger] self.is_round(current@, round)
                        &&& round.candidates == candidates@
                        &&& round.accepted == accepted
                        &&& round.next == next
                        &&& round.drafts[0] == drafts1
                        &&& round.drafts.last() == drafts@
                        &&& round.judged[0] == judged1
                        &&& round.after == judged@
                    };
                assert(old(self).is_round(current@, round));
                old(self).one_more_round(input@, draft0, main0, earlier, round);
                rounds = earlier.push(round);
                assert(rounds.drop_last() =~= earlier);
                assert(rounds.len() * n == earlier.len() * n + n) by (nonlinear_arith)
                    requires
                        rounds.len() == earlier.len() + 1,
                ;
                assert(rounds.len() * n <= max_tokens * n) by (nonlinear_arith)
                    requires
                        rounds.len() <= max_tokens,
                ;
            }
            let ghost base = all_tokens(earlier);
            let ghost after = all_tokens(rounds);
            let mut k: usize = 0;
            while k < accepted && sequence.len() < max_tokens
                invariant
                    k <= accepted,
                    accepted <= candidates@.len(),
                    sequence@.len() <= max_tokens,
                    sequence@.len() == base.len() + k,
                    after == base + candidates@.take(accepted as int).push(next),
                    spells(sequence@, after),
                decreases accepted - k,
            {
                let token: Vec<Single> = vec![candidates[k]];
                assert(token@ =~= seq![candidates@[k as int]]);
                sequence.push(token);
                k += 1;
            }
            self.total_tokens += self.config.num_draft_tokens;
            self.accepted_tokens += accepted;
            if sequence.len() < max_tokens {
                let token: Vec<Single> = vec![next];
                assert(token@ =~= seq![next]);
                sequence.push(token);
                current = vec![next];
                assert(current@ =~= seq![next]);
            }
        }
        self.draft_states = drafts;
        self.main_states = judged;
        assert(old(self).are_rounds(input@, draft0, main0, rounds));
        Ok(sequence)
    }

    /// The share of the proposed tokens that were accepted; zero where none
    /// was proposed.
    pub fn acceptance_rate<R: RatioMath>(&self, math: &R) -> (r: Single)
        ensures
            if self.proposed() == 0 {
                r.bits == 0
            } else {
                call_ensures(
                    R::ratio,
                    (math, self.accepted() as usize, self.proposed() as usize),
                    r,
                )
            },
    {
        if self.total_tokens == 0 {
            return Single::zero();
        }
        math.ratio(self.accepted_tokens, self.total_tokens)
    }

    /// Forgets how many tokens were proposed and accepted.
    pub fn reset_stats(&mut self)
        ensures
            final(self).wf(),
            final(self).proposed() == 0,
            final(self).accepted() == 0,
            final(self).same_setup(old(self)),
            final(self).draft_memory() == old(self).draft_memory(),
            final(self).main_memory() == old(self).main_memory(),
    {
        self.total_tokens = 0;
        self.accepted_tokens = 0;
    }

    /// The configuration.
    pub fn config(&self) -> (r: &SpeculativeConfig)
        ensures
            *r == self.settings(),
    {
        &self.config
    }
}

/// Whether the signals hold the tokens, one each, from the first one on.
pub open spec fn spells(signals: Seq<Vec<Single>>, tokens: Seq<Single>) -> bool {
    &&& signals.len() <= tokens.len()
    &&& forall|i: int| 0 <= i < signals.len() ==> (#[trigger] signals[i])@ == seq![tokens[i]]
}

/// The number of candidates that were accepted in all rounds.
pub open spec fn all_accepted(rounds: Seq<Round>) -> nat
    decreases rounds.len(),
{
    if rounds.len() == 0 {
        0
    } else {
        all_accepted(rounds.drop_last()) + rounds.last().accepted
    }
}

} // verus!
