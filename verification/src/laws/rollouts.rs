//! Rollouts: predictions from predictions.

use crate::error::InferenceError;
use crate::inference::engine::InferenceEngine;
use crate::inference::model::{AutoregressiveModel, EngineMath};
use crate::number::Single;
use vstd::prelude::*;

verus! {

/// The first input of a rollout is the one given, and each further one is the
/// output before it.
pub proof fn outputs_are_the_next_inputs(input: Seq<Single>, outs: Seq<Vec<Single>>, k: int)
    requires
        0 <= k < outs.len(),
    ensures
        crate::inference::engine::fed_back(input, outs).len() == outs.len() + 1,
        crate::inference::engine::fed_back(input, outs)[0] == input,
        crate::inference::engine::fed_back(input, outs)[k + 1] == outs[k]@,
{
}

/// Whether an engine can have taken a step that succeeded.
#[verifier::opaque]
pub open spec fn stepped<M: AutoregressiveModel, F: EngineMath>(
    before: InferenceEngine<M, F>,
    input: Seq<Single>,
    after: InferenceEngine<M, F>,
    out: Vec<Single>,
) -> bool {
    before.steps(input, &after, Ok::<Vec<Single>, InferenceError>(out))
}

/// Whether engines can have taken steps one after the other, the first one from
/// an input and each further one from the output before.
pub open spec fn rolled<M: AutoregressiveModel, F: EngineMath>(
    trace: Seq<InferenceEngine<M, F>>,
    input: Seq<Single>,
    outs: Seq<Vec<Single>>,
) -> bool {
    &&& trace.len() == outs.len() + 1
    &&& forall|i: int|
        0 <= i < outs.len() ==> stepped(
            trace[i],
            if i == 0 {
                input
            } else {
                outs[i - 1]@
            },
            trace[i + 1],
            #[trigger] outs[i],
        )
}

/// The engines of a rollout take its steps one after the other.
pub proof fn runs_are_rolled<M: AutoregressiveModel, F: EngineMath>(
    trace: Seq<InferenceEngine<M, F>>,
    input: Seq<Single>,
    outs: Seq<Vec<Single>>,
)
    ensures
        InferenceEngine::<M, F>::runs(
            trace,
            crate::inference::engine::fed_back(input, outs),
            outs,
        ) <==> rolled(trace, input, outs),
{
    reveal(stepped);
    let inputs = crate::inference::engine::fed_back(input, outs);
    if InferenceEngine::<M, F>::runs(trace, inputs, outs) {
        assert forall|i: int| 0 <= i < outs.len() implies stepped(
            trace[i],
            if i == 0 {
                input
            } else {
                outs[i - 1]@
            },
            trace[i + 1],
            #[trigger] outs[i],
        ) by {
            assert(trace[i].steps(
                inputs[i],
                &trace[i + 1],
                Ok::<Vec<Single>, InferenceError>(outs[i]),
            ));
        }
    }
    if rolled(trace, input, outs) {
        assert forall|i: int| 0 <= i < outs.len() implies trace[i].steps(
            inputs[i],
            &trace[i + 1],
            Ok::<Vec<Single>, InferenceError>(#[trigger] outs[i]),
        ) by {
            assert(stepped(
                trace[i],
                if i == 0 {
                    input
                } else {
                    outs[i - 1]@
                },
                trace[i + 1],
                outs[i],
            ));
        }
    }
}

/// Steps that go on from the last output of others make one series with them.
pub proof fn series_can_be_continued<M: AutoregressiveModel, F: EngineMath>(
    a: Seq<InferenceEngine<M, F>>,
    input: Seq<Single>,
    outs: Seq<Vec<Single>>,
    b: Seq<InferenceEngine<M, F>>,
    more: Seq<Vec<Single>>,
)
    requires
        outs.len() > 0,
        rolled(a, input, outs),
        rolled(b, outs.last()@, more),
        b[0] == a.last(),
    ensures
        rolled(a + b.skip(1), input, outs + more),
        (a + b.skip(1))[0] == a[0],
        (a + b.skip(1)).last() == b.last(),
{
    let n = outs.len() as int;
    let whole = outs + more;
    let trace = a + b.skip(1);
    assert forall|i: int| 0 <= i < whole.len() implies stepped(
        trace[i],
        if i == 0 {
            input
        } else {
            whole[i - 1]@
        },
        trace[i + 1],
        #[trigger] whole[i],
    ) by {
        if i < n {
            assert(whole[i] == outs[i]);
            assert(trace[i] == a[i] && trace[i + 1] == a[i + 1]);
            if i > 0 {
                assert(whole[i - 1] == outs[i - 1]);
            }
        } else {
            let j = i - n;
            assert(whole[i] == more[j]);
            assert(trace[i] == b[j]);
            assert(trace[i + 1] == b[j + 1]);
            if j > 0 {
                assert(whole[i - 1] == more[j - 1]);
            } else {
                assert(whole[i - 1] == outs.last());
            }
        }
    }
}

} // verus!
