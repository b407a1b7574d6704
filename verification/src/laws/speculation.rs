//! Speculative decoding: what is accepted, and whose tokens come out.

use crate::exact::Valued;
use crate::inference::model::AutoregressiveModel;
use crate::inference::speculative::{
    DecoderMath, Round, SpeculativeDecoder, EXACT_BITS, NEAR_BITS,
};
use crate::inference::state::HiddenState;
use crate::number::Single;
use vstd::prelude::*;

verus! {

/// Whether differences are not rounded: whatever is returned is a number, and
/// is the true difference.
pub open spec fn differs_exactly<D: DecoderMath>(d: D) -> bool {
    forall|a: Single, b: Single, r: Single| #[trigger]
        call_ensures(D::difference, (&d, a, b), r) ==> r.sound() && r.value() == a.value()
            - b.value()
}

/// Whether two numbers are less than a half apart, or less than a millionth
/// where they have to match exactly.
pub open spec fn close(a: real, b: real, exact: bool) -> bool {
    &&& crate::exact::distance(a, b) < 1real / 2real
    &&& exact ==> crate::exact::distance(a, b) < 1real / 1000000real
}

/// Whether two numbers are at least a half apart, or at least nearly a
/// millionth where they have to match exactly.
pub open spec fn apart(a: real, b: real, exact: bool) -> bool {
    &&& a != b
    &&& !exact ==> crate::exact::distance(a, b) >= 1real / 2real
    &&& exact ==> crate::exact::distance(a, b) >= 999999real / 1000000000000real
}

/// What a model is given for a token: the token before it, and for the first one
/// the input of all.
pub open spec fn one_before(input: Seq<Single>, tokens: Seq<Single>, i: int) -> Seq<Single> {
    if i > 0 {
        seq![tokens[i - 1]]
    } else {
        input
    }
}

/// A candidate that is found near enough is less than a half from the
/// prediction, and one that is not is at least a half from it; where both have
/// to match exactly, the bound is a millionth. A candidate that is the
/// prediction is always near enough.
pub proof fn judged_by_distance<D: DecoderMath>(
    d: D,
    candidate: Single,
    prediction: Single,
    exact: bool,
    near: bool,
)
    requires
        differs_exactly(d),
        crate::inference::speculative::is_judged(d, candidate, prediction, exact, near),
    ensures
        near ==> close(candidate.value(), prediction.value(), exact),
        !near ==> apart(candidate.value(), prediction.value(), exact),
        candidate.value() == prediction.value() ==> near,
{
    let gap = choose|gap: Single| #[trigger]
        call_ensures(D::difference, (&d, candidate, prediction), gap) && near == crate::inference::speculative::is_near(
            gap,
            exact,
        );
    let (fine, half) = (Single { bits: EXACT_BITS }, Single { bits: NEAR_BITS });
    vstd::arithmetic::power2::lemma2_to64();
    vstd::arithmetic::power2::lemma2_to64_rest();
    crate::exact::singles_stand_for_reals(gap, gap);
    crate::exact::singles_stand_for_reals(gap.absolute(), fine);
    crate::exact::singles_stand_for_reals(gap.absolute(), half);
    crate::exact::single_of_parts(fine, 43, 8796093022208);
    crate::exact::single_of_parts(half, 24, 16777216);
}

/// Without any claim on differences: a candidate is near enough exactly where
/// the difference that was found is less than a half from zero.
pub proof fn judged_by_the_difference<D: DecoderMath>(
    d: D,
    candidate: Single,
    prediction: Single,
    exact: bool,
    near: bool,
)
    requires
        crate::inference::speculative::is_judged(d, candidate, prediction, exact, near),
    ensures
        exists|gap: Single|
            {
                &&& #[trigger] call_ensures(D::difference, (&d, candidate, prediction), gap)
                &&& near ==> gap.sound() && close(gap.value(), 0real, exact)
                &&& !near ==> !gap.sound() || apart(gap.value(), 0real, exact)
            },
{
    let gap = choose|gap: Single| #[trigger]
        call_ensures(D::difference, (&d, candidate, prediction), gap) && near == crate::inference::speculative::is_near(
            gap,
            exact,
        );
    let (fine, half) = (Single { bits: EXACT_BITS }, Single { bits: NEAR_BITS });
    vstd::arithmetic::power2::lemma2_to64();
    vstd::arithmetic::power2::lemma2_to64_rest();
    crate::exact::singles_stand_for_reals(gap, gap);
    crate::exact::singles_stand_for_reals(gap.absolute(), fine);
    crate::exact::singles_stand_for_reals(gap.absolute(), half);
    crate::exact::single_of_parts(fine, 43, 8796093022208);
    crate::exact::single_of_parts(half, 24, 16777216);
    assert(call_ensures(D::difference, (&d, candidate, prediction), gap));
}

/// Whether the main model's layers in the states `before` can take an
/// input to logits from which a token is picked, and to the states `after`.
#[verifier::opaque]
pub open spec fn main_says<
    A: AutoregressiveModel,
    B: AutoregressiveModel,
    D: DecoderMath,
>(
    decoder: SpeculativeDecoder<A, B, D>,
    before: Seq<HiddenState>,
    input: Seq<Single>,
    token: Single,
    after: Seq<HiddenState>,
) -> bool {
    exists|
        s: &[HiddenState],
        x: &[Single],
        logits: Vec<Single>,
        next: Vec<HiddenState>,
        l: &[Single],
    |
        {
            &&& #[trigger] call_ensures(
                A::advance,
                (&decoder.judge(), s, x),
                Ok::<(Vec<Single>, Vec<HiddenState>), String>((logits, next)),
            )
            &&& s@ == before
            &&& x@ == input
            &&& next@ == after
            &&& l@ == logits@
            &&& #[trigger] call_ensures(
                D::sample_main,
                (&decoder.numerics(), l),
                Ok::<Single, String>(token),
            )
        }
}

/// Whether the draft model's layers in the states `before` can take an
/// input to logits from which a token is picked, and to the states `after`.
#[verifier::opaque]
pub open spec fn draft_says<
    A: AutoregressiveModel,
    B: AutoregressiveModel,
    D: DecoderMath,
>(
    decoder: SpeculativeDecoder<A, B, D>,
    before: Seq<HiddenState>,
    input: Seq<Single>,
    token: Single,
    after: Seq<HiddenState>,
) -> bool {
    exists|
        s: &[HiddenState],
        x: &[Single],
        logits: Vec<Single>,
        next: Vec<HiddenState>,
        l: &[Single],
    |
        {
            &&& #[trigger] call_ensures(
                B::advance,
                (&decoder.drafter(), s, x),
                Ok::<(Vec<Single>, Vec<HiddenState>), String>((logits, next)),
            )
            &&& s@ == before
            &&& x@ == input
            &&& next@ == after
            &&& l@ == logits@
            &&& #[trigger] call_ensures(
                D::sample_draft,
                (&decoder.numerics(), l),
                Ok::<Single, String>(token),
            )
        }
}

proof fn predictions_are_said<
    A: AutoregressiveModel,
    B: AutoregressiveModel,
    D: DecoderMath,
>(
    decoder: SpeculativeDecoder<A, B, D>,
    before: Seq<HiddenState>,
    input: Seq<Single>,
    token: Single,
    after: Seq<HiddenState>,
)
    ensures
        crate::inference::speculative::is_predicted(decoder.judge(), decoder.numerics(), before, input, token, after)
            ==> main_says(decoder, before, input, token, after),
        crate::inference::speculative::is_drafted(decoder.drafter(), decoder.numerics(), before, input, token, after)
            ==> draft_says(decoder, before, input, token, after),
{
    reveal(main_says);
    reveal(draft_says);
}

proof fn agreed_lies_near<
    A: AutoregressiveModel,
    B: AutoregressiveModel,
    D: DecoderMath,
>(
    decoder: SpeculativeDecoder<A, B, D>,
    before: Seq<HiddenState>,
    x: Seq<Single>,
    token: Single,
    after: Seq<HiddenState>,
)
    requires
        differs_exactly(decoder.numerics()),
        crate::inference::speculative::is_agreed(
            decoder.judge(),
            decoder.numerics(),
            before,
            x,
            token,
            decoder.settings().greedy_verification,
            after,
        ),
    ensures
        main_says_near(decoder, before, x, token, after),
{
    let exact = decoder.settings().greedy_verification;
    let p = choose|p: Single| #[trigger]
        crate::inference::speculative::is_predicted(
            decoder.judge(),
            decoder.numerics(),
            before,
            x,
            p,
            after,
        ) && crate::inference::speculative::is_judged(decoder.numerics(), token, p, exact, true);
    judged_by_distance(decoder.numerics(), token, p, exact, true);
    predictions_are_said(decoder, before, x, p, after);
    assert(main_says(decoder, before, x, p, after));
    reveal(main_says_near);
}

proof fn predicted_lies_near<
    A: AutoregressiveModel,
    B: AutoregressiveModel,
    D: DecoderMath,
>(
    decoder: SpeculativeDecoder<A, B, D>,
    before: Seq<HiddenState>,
    x: Seq<Single>,
    token: Single,
    after: Seq<HiddenState>,
)
    requires
        crate::inference::speculative::is_predicted(
            decoder.judge(),
            decoder.numerics(),
            before,
            x,
            token,
            after,
        ),
    ensures
        main_says_near(decoder, before, x, token, after),
{
    predictions_are_said(decoder, before, x, token, after);
    assert(main_says(decoder, before, x, token, after));
    reveal(main_says_near);
}

/// Whether the main model can predict a token that the given one lies near.
#[verifier::opaque]
pub open spec fn main_says_near<
    A: AutoregressiveModel,
    B: AutoregressiveModel,
    D: DecoderMath,
>(
    decoder: SpeculativeDecoder<A, B, D>,
    before: Seq<HiddenState>,
    input: Seq<Single>,
    token: Single,
    after: Seq<HiddenState>,
) -> bool {
    exists|p: Single| #[trigger]
        main_says(decoder, before, input, p, after) && close(
            token.value(),
            p.value(),
            decoder.settings().greedy_verification,
        )
}

/// Every token that is generated lies less than a half from what the main
/// model predicts after the tokens before it, and less than a millionth
/// where proposals have to match exactly.
pub proof fn tokens_lie_near_the_main_model<
    A: AutoregressiveModel,
    B: AutoregressiveModel,
    D: DecoderMath,
>(
    decoder: SpeculativeDecoder<A, B, D>,
    input: Seq<Single>,
    draft: Seq<HiddenState>,
    main: Seq<HiddenState>,
    rounds: Seq<Round>,
    i: int,
)
    requires
        decoder.are_rounds(input, draft, main, rounds),
        differs_exactly(decoder.numerics()),
        0 <= i < crate::inference::speculative::all_tokens(rounds).len(),
    ensures
        crate::inference::speculative::main_path(main, rounds).len()
            == crate::inference::speculative::all_tokens(rounds).len() + 1,
        main_says_near(
            decoder,
            crate::inference::speculative::main_path(main, rounds)[i],
            one_before(input, crate::inference::speculative::all_tokens(rounds), i),
            crate::inference::speculative::all_tokens(rounds)[i],
            crate::inference::speculative::main_path(main, rounds)[i + 1],
        ),
{
    decoder.tokens_are_those_of_the_main_model(input, draft, main, rounds);
    let tokens = crate::inference::speculative::all_tokens(rounds);
    let memory = crate::inference::speculative::main_path(main, rounds);
    let x = one_before(input, tokens, i);
    assert(x == crate::inference::speculative::input_at(input, tokens, i));
    assert(crate::inference::speculative::is_followed(
        decoder.judge(),
        decoder.numerics(),
        memory[i],
        x,
        tokens[i],
        decoder.settings().greedy_verification,
        memory[i + 1],
    ));
    if crate::inference::speculative::is_predicted(
        decoder.judge(),
        decoder.numerics(),
        memory[i],
        x,
        tokens[i],
        memory[i + 1],
    ) {
        predicted_lies_near(decoder, memory[i], x, tokens[i], memory[i + 1]);
    } else {
        agreed_lies_near(decoder, memory[i], x, tokens[i], memory[i + 1]);
    }
}

/// In a round the draft model proposes as many candidates as are wanted,
/// each after the one before. Those that are accepted lie near what the
/// main model predicts at their places, and the first one that is not lies
/// away from the token that the round goes on with, which the main model
/// predicts in its place. A candidate that is what the main model predicts
/// is never the one that is refused.
pub proof fn rounds_accept_what_lies_near<
    A: AutoregressiveModel,
    B: AutoregressiveModel,
    D: DecoderMath,
>(
    decoder: SpeculativeDecoder<A, B, D>,
    input: Seq<Single>,
    round: Round,
    k: int,
)
    requires
        decoder.is_round(input, round),
        differs_exactly(decoder.numerics()),
        0 <= k < round.candidates.len(),
    ensures
        round.candidates.len() == decoder.settings().num_draft_tokens,
        round.drafts.len() == round.candidates.len() + 1,
        round.judged.len() == round.accepted + 1,
        draft_says(decoder, 
            round.drafts[k],
            one_before(input, round.candidates, k),
            round.candidates[k],
            round.drafts[k + 1],
        ),
        k < round.accepted ==> main_says_near(
            decoder,
            round.judged[k],
            one_before(input, round.candidates, k),
            round.candidates[k],
            round.judged[k + 1],
        ),
        k == round.accepted ==> {
            &&& main_says(decoder, 
                round.judged[k],
                one_before(input, round.candidates, k),
                round.next,
                round.after,
            )
            &&& apart(
                round.candidates[k].value(),
                round.next.value(),
                decoder.settings().greedy_verification,
            )
        },
{
    let x = one_before(input, round.candidates, k);
    assert(x == crate::inference::speculative::input_at(input, round.candidates, k));
    let c = round.candidates[k];
    assert(c == c);
    predictions_are_said(decoder, round.drafts[k], x, c, round.drafts[k + 1]);
    if k < round.accepted {
        agreed_lies_near(decoder, round.judged[k], x, c, round.judged[k + 1]);
    } else if k == round.accepted {
        predictions_are_said(decoder, round.judged[k], x, round.next, round.after);
        judged_by_distance(
            decoder.numerics(),
            c,
            round.next,
            decoder.settings().greedy_verification,
            false,
        );
    }
}

} // verus!
