//! The front end as a whole: one frame of samples in, one coefficient vector
//! out.

use crate::features::{
    advanced, lemma_advance_is_determined, single_valued, single_valued_drift, DynamicFeatures,
    COEFFS, MAXFILTER, NORMALIZATION_LENGTH,
};
use crate::window::{silence, slide, SampleWindow};
use vstd::prelude::*;

verus! {

/// `output` with its base block replaced by `base`.
pub open spec fn with_base<T>(output: Seq<T>, base: Seq<T>) -> Seq<T> {
    Seq::new(
        output.len(),
        |i: int|
            if i < MAXFILTER {
                base[i]
            } else {
                output[i]
            },
    )
}

/// The streaming front end: the window of recent samples and the state of the
/// feature stage, with the two parameters they were sized from.
pub struct Transform<T> {
    window: SampleWindow,
    features: DynamicFeatures<T>,
    sample_rate: usize,
    buffer_size: usize,
}

/// One call of [`Transform::transform`], as a relation between the front end
/// and coefficient vector before it and those after it.
///
/// The window has taken in the block. The base block of the vector is a
/// result of `cepstrum` on the window as it stands after that, the rest of
/// the vector is as it came, and the feature stage has advanced over the
/// vector so made.
pub open spec fn transformed<
    T,
    C: FnOnce(&SampleWindow) -> Vec<T>,
    S: Fn(T, T) -> T,
    D: Fn(T, T, T, usize) -> T,
>(
    cepstrum: C,
    minus: S,
    drift: D,
    before: Transform<T>,
    input: Seq<i16>,
    given: Seq<T>,
    after: Transform<T>,
    output: Seq<T>,
) -> bool {
    &&& after.window()@ =~= slide(before.window()@, input)
    &&& after.sample_rate() == before.sample_rate()
    &&& after.buffer_size() == before.buffer_size()
    &&& exists|base: Vec<T>|
        {
            &&& #[trigger] call_ensures(cepstrum, (after.window(),), base)
            &&& advanced(
                minus,
                drift,
                before.features().history(),
                before.features().mean(),
                with_base(given, base@),
                after.features().history(),
                after.features().mean(),
                output,
            )
        }
}

/// `transform` is a front end that has taken in no block yet: its window is
/// two blocks of silence, its history is empty, and its mean is `zero` at
/// every place.
pub open spec fn fresh<T>(
    transform: Transform<T>,
    sample_rate: usize,
    buffer_size: usize,
    zero: T,
) -> bool {
    &&& transform.window()@ =~= silence(2 * buffer_size as nat)
    &&& transform.features().history() =~= Seq::<Seq<T>>::empty()
    &&& transform.features().mean() =~= Seq::new(COEFFS as nat, |i: int| zero)
    &&& transform.sample_rate() == sample_rate
    &&& transform.buffer_size() == buffer_size
}

impl<T> Transform<T> {
    /// The window of recent samples.
    pub closed spec fn spec_window(&self) -> &SampleWindow {
        &self.window
    }

    /// The state of the feature stage.
    pub closed spec fn spec_features(&self) -> &DynamicFeatures<T> {
        &self.features
    }

    /// The sample rate given at construction.
    pub closed spec fn spec_sample_rate(&self) -> usize {
        self.sample_rate
    }

    /// The block length given at construction.
    pub closed spec fn spec_buffer_size(&self) -> usize {
        self.buffer_size
    }

    /// The window of recent samples.
    #[verifier::when_used_as_spec(spec_window)]
    pub fn window(&self) -> (window: &SampleWindow)
        ensures
            window == self.spec_window(),
    {
        &self.window
    }

    /// The state of the feature stage.
    #[verifier::when_used_as_spec(spec_features)]
    pub fn features(&self) -> (features: &DynamicFeatures<T>)
        ensures
            features == self.spec_features(),
    {
        &self.features
    }

    /// The sample rate given at construction.
    #[verifier::when_used_as_spec(spec_sample_rate)]
    pub fn sample_rate(&self) -> (sample_rate: usize)
        ensures
            sample_rate == self.spec_sample_rate(),
    {
        self.sample_rate
    }

    /// The block length given at construction.
    #[verifier::when_used_as_spec(spec_buffer_size)]
    pub fn buffer_size(&self) -> (buffer_size: usize)
        ensures
            buffer_size == self.spec_buffer_size(),
    {
        self.buffer_size
    }
}

impl<T: Copy> Transform<T> {
    /// A front end for blocks of `buffer_size` samples: a silent window two
    /// blocks long, an empty history, and a mean of `zero` at every place.
    pub fn new(sample_rate: usize, buffer_size: usize, zero: T) -> (transform: Transform<T>)
        requires
            2 * buffer_size <= usize::MAX,
        ensures
            fresh(transform, sample_rate, buffer_size, zero),
    {
        Transform {
            window: SampleWindow::new(2 * buffer_size),
            features: DynamicFeatures::new(zero),
            sample_rate,
            buffer_size,
        }
    }

    /// Takes one block of samples through the front end and leaves the
    /// finished coefficient vector in `output`.
    ///
    /// `cepstrum` is the numeric path from the window to the base block: the
    /// weighting of the samples, the spectrum, the mel energies and their
    /// cosine transform. `minus` and `drift` are the arithmetic of the
    /// feature stage, as in [`DynamicFeatures::advance`].
    pub fn transform<C: FnOnce(&SampleWindow) -> Vec<T>, S: Fn(T, T) -> T, D: Fn(T, T, T, usize) -> T>(
        &mut self,
        input: &[i16],
        output: &mut [T],
        cepstrum: C,
        minus: S,
        drift: D,
    )
        requires
            old(output).len() == COEFFS,
            forall|window: SampleWindow|
                window@ == slide(old(self).window()@, input@) ==> call_requires(
                    cepstrum,
                    (&window,),
                ),
            forall|window: SampleWindow, base: Vec<T>|
                window@ == slide(old(self).window()@, input@) && call_ensures(
                    cepstrum,
                    (&window,),
                    base,
                ) ==> base.len() == MAXFILTER,
            forall|a: T, b: T| call_requires(minus, (a, b)),
            forall|m: T, c: T, e: T| call_requires(drift, (m, c, e, NORMALIZATION_LENGTH)),
        ensures
            transformed(
                cepstrum,
                minus,
                drift,
                *old(self),
                input@,
                old(output)@,
                *final(self),
                final(output)@,
            ),
            final(self).window()@.len() == old(self).window()@.len(),
            final(self).features().history().len() == 1,
    {
        self.window.append_back(input);
        let base = cepstrum(&self.window);
        let mut i: usize = 0;
        while i < MAXFILTER
            invariant
                i <= MAXFILTER,
                base.len() == MAXFILTER,
                output.len() == COEFFS,
                forall|k: int| 0 <= k < i ==> #[trigger] output@[k] == base@[k],
                forall|k: int| i <= k < COEFFS ==> #[trigger] output@[k] == old(output)@[k],
            decreases MAXFILTER - i,
        {
            output[i] = base[i];
            i += 1;
        }
        assert(output@ =~= with_base(old(output)@, base@));
        self.features.advance(output, minus, drift);
        assert(call_ensures(cepstrum, (self.window(),), base));
        assert(advanced(
            minus,
            drift,
            old(self).features().history(),
            old(self).features().mean(),
            with_base(old(output)@, base@),
            self.features().history(),
            self.features().mean(),
            output@,
        ));
    }
}

/// What `cepstrum` returns depends on nothing but the samples in the window.
pub open spec fn reads_samples_only<T, C: FnOnce(&SampleWindow) -> Vec<T>>(cepstrum: C) -> bool {
    forall|one: SampleWindow, other: SampleWindow, first: Vec<T>, second: Vec<T>|
        one@ == other@ && call_ensures(cepstrum, (&one,), first) && call_ensures(
            cepstrum,
            (&other,),
            second,
        ) ==> first@ == second@
}

/// Two front ends hold the same samples, the same history and the same mean.
pub open spec fn same_state<T>(one: Transform<T>, other: Transform<T>) -> bool {
    &&& one.window()@ == other.window()@
    &&& one.features().history() == other.features().history()
    &&& one.features().mean() == other.features().mean()
}

/// Two front ends built with the same block length and the same zero start
/// in the same state.
pub proof fn lemma_fresh_front_ends_agree<T>(
    one: Transform<T>,
    other: Transform<T>,
    one_rate: usize,
    other_rate: usize,
    buffer_size: usize,
    zero: T,
)
    requires
        fresh(one, one_rate, buffer_size, zero),
        fresh(other, other_rate, buffer_size, zero),
    ensures
        same_state(one, other),
{
}

/// Two front ends in the same state that are given the same block and the
/// same vector end in the same state with the same output, provided the
/// numeric stages have one result for each input.
pub proof fn lemma_transform_is_determined<
    T,
    C: FnOnce(&SampleWindow) -> Vec<T>,
    S: Fn(T, T) -> T,
    D: Fn(T, T, T, usize) -> T,
>(
    cepstrum: C,
    minus: S,
    drift: D,
    input: Seq<i16>,
    given: Seq<T>,
    one_before: Transform<T>,
    one_after: Transform<T>,
    one_output: Seq<T>,
    other_before: Transform<T>,
    other_after: Transform<T>,
    other_output: Seq<T>,
)
    requires
        reads_samples_only(cepstrum),
        single_valued(minus),
        single_valued_drift(drift),
        same_state(one_before, other_before),
        transformed(cepstrum, minus, drift, one_before, input, given, one_after, one_output),
        transformed(cepstrum, minus, drift, other_before, input, given, other_after, other_output),
    ensures
        same_state(one_after, other_after),
        one_output == other_output,
{
    let one_base = choose|base: Vec<T>|
        {
            &&& #[trigger] call_ensures(cepstrum, (one_after.window(),), base)
            &&& advanced(
                minus,
                drift,
                one_before.features().history(),
                one_before.features().mean(),
                with_base(given, base@),
                one_after.features().history(),
                one_after.features().mean(),
                one_output,
            )
        };
    let other_base = choose|base: Vec<T>|
        {
            &&& #[trigger] call_ensures(cepstrum, (other_after.window(),), base)
            &&& advanced(
                minus,
                drift,
                other_before.features().history(),
                other_before.features().mean(),
                with_base(given, base@),
                other_after.features().history(),
                other_after.features().mean(),
                other_output,
            )
        };
    lemma_advance_is_determined(
        minus,
        drift,
        one_before.features().history(),
        one_before.features().mean(),
        with_base(given, one_base@),
        one_after.features().history(),
        one_after.features().mean(),
        one_output,
        other_after.features().history(),
        other_after.features().mean(),
        other_output,
    );
}

/// In the record `states` and `outputs` of a run, the call that took block
/// `at` is in order: it led from `states[at]` to `states[at + 1]`, from the
/// vector `givens[at]` to the vector `outputs[at]`.
pub open spec fn call_taken<
    T,
    C: FnOnce(&SampleWindow) -> Vec<T>,
    S: Fn(T, T) -> T,
    D: Fn(T, T, T, usize) -> T,
>(
    cepstrum: C,
    minus: S,
    drift: D,
    blocks: Seq<Seq<i16>>,
    givens: Seq<Seq<T>>,
    states: Seq<Transform<T>>,
    outputs: Seq<Seq<T>>,
    at: int,
) -> bool {
    transformed(
        cepstrum,
        minus,
        drift,
        states[at],
        blocks[at],
        givens[at],
        states[at + 1],
        outputs[at],
    )
}

/// `states` and `outputs` record a run of a front end over `blocks`, one
/// call of [`Transform::transform`] for each block, in turn, with the vector
/// of `givens` for it: `states[0]` is the front end before the first call.
pub open spec fn run_over<
    T,
    C: FnOnce(&SampleWindow) -> Vec<T>,
    S: Fn(T, T) -> T,
    D: Fn(T, T, T, usize) -> T,
>(
    cepstrum: C,
    minus: S,
    drift: D,
    blocks: Seq<Seq<i16>>,
    givens: Seq<Seq<T>>,
    states: Seq<Transform<T>>,
    outputs: Seq<Seq<T>>,
) -> bool {
    &&& givens.len() == blocks.len()
    &&& outputs.len() == blocks.len()
    &&& states.len() == blocks.len() + 1
    &&& forall|at: int|
        0 <= at < blocks.len() ==> #[trigger] call_taken(
            cepstrum,
            minus,
            drift,
            blocks,
            givens,
            states,
            outputs,
            at,
        )
}

proof fn lemma_runs_agree_up_to<
    T,
    C: FnOnce(&SampleWindow) -> Vec<T>,
    S: Fn(T, T) -> T,
    D: Fn(T, T, T, usize) -> T,
>(
    cepstrum: C,
    minus: S,
    drift: D,
    blocks: Seq<Seq<i16>>,
    givens: Seq<Seq<T>>,
    one_states: Seq<Transform<T>>,
    one_outputs: Seq<Seq<T>>,
    other_states: Seq<Transform<T>>,
    other_outputs: Seq<Seq<T>>,
    calls: nat,
)
    requires
        reads_samples_only(cepstrum),
        single_valued(minus),
        single_valued_drift(drift),
        run_over(cepstrum, minus, drift, blocks, givens, one_states, one_outputs),
        run_over(cepstrum, minus, drift, blocks, givens, other_states, other_outputs),
        same_state(one_states[0], other_states[0]),
        calls <= blocks.len(),
    ensures
        same_state(one_states[calls as int], other_states[calls as int]),
        forall|at: int| 0 <= at < calls ==> one_outputs[at] == other_outputs[at],
    decreases calls,
{
    if calls > 0 {
        let at = calls - 1;
        lemma_runs_agree_up_to(
            cepstrum,
            minus,
            drift,
            blocks,
            givens,
            one_states,
            one_outputs,
            other_states,
            other_outputs,
            at as nat,
        );
        assert(call_taken(cepstrum, minus, drift, blocks, givens, one_states, one_outputs, at));
        assert(call_taken(cepstrum, minus, drift, blocks, givens, other_states, other_outputs, at));
        lemma_transform_is_determined(
            cepstrum,
            minus,
            drift,
            blocks[at],
            givens[at],
            one_states[at],
            one_states[at + 1],
            one_outputs[at],
            other_states[at],
            other_states[at + 1],
            other_outputs[at],
        );
    }
}

/// Two front ends that start in the same state and are fed the same blocks
/// give the same outputs, call for call, provided the numeric stages have
/// one result for each input.
pub proof fn lemma_runs_agree<
    T,
    C: FnOnce(&SampleWindow) -> Vec<T>,
    S: Fn(T, T) -> T,
    D: Fn(T, T, T, usize) -> T,
>(
    cepstrum: C,
    minus: S,
    drift: D,
    blocks: Seq<Seq<i16>>,
    givens: Seq<Seq<T>>,
    one_states: Seq<Transform<T>>,
    one_outputs: Seq<Seq<T>>,
    other_states: Seq<Transform<T>>,
    other_outputs: Seq<Seq<T>>,
)
    requires
        reads_samples_only(cepstrum),
        single_valued(minus),
        single_valued_drift(drift),
        run_over(cepstrum, minus, drift, blocks, givens, one_states, one_outputs),
        run_over(cepstrum, minus, drift, blocks, givens, other_states, other_outputs),
        same_state(one_states[0], other_states[0]),
    ensures
        one_outputs == other_outputs,
{
    lemma_runs_agree_up_to(
        cepstrum,
        minus,
        drift,
        blocks,
        givens,
        one_states,
        one_outputs,
        other_states,
        other_outputs,
        blocks.len(),
    );
    assert(one_outputs =~= other_outputs);
}

} // verus!
