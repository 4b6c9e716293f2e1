//! Deltas, frame history and running-mean normalization of coefficient
//! vectors.
//!
//! The coefficients are real numbers to the caller; here they are values of
//! any copyable type `T`. The two pieces of arithmetic that the bookkeeping
//! needs are handed in as functions, and every contract says which operands
//! each of them was applied to and where its result went.
//!
//! The history is a queue from which the oldest frame leaves before the
//! newest joins. It therefore never holds more than one frame, and the mean
//! is not an average over the last frames: with each frame it moves by the
//! change from the frame before, divided by the normalization length.

use std::collections::VecDeque;
use vstd::prelude::*;

verus! {

/// Number of cepstral coefficients kept from each frame.
pub const MAXFILTER: usize = 16;

/// Length of a coefficient vector: the base block, the deltas, the
/// delta-deltas.
pub const COEFFS: usize = 3 * MAXFILTER;

/// The divisor of the running mean.
pub const NORMALIZATION_LENGTH: usize = 5;

/// The history after one more frame: the oldest entry leaves, if there is
/// one, and `frame` joins at the back.
pub open spec fn rotated<A>(history: Seq<A>, frame: A) -> Seq<A> {
    (if history.len() > 0 {
        history.drop_first()
    } else {
        history
    }).push(frame)
}

/// `raw` keeps the base block of `base`; each value of its two other blocks
/// is a result of `minus` on the value one block earlier in `raw` and the value
/// at that same place in `back`.
pub open spec fn deltas_taken<T, S: Fn(T, T) -> T>(
    minus: S,
    base: Seq<T>,
    back: Seq<T>,
    raw: Seq<T>,
) -> bool {
    &&& raw.len() == COEFFS
    &&& forall|i: int| 0 <= i < MAXFILTER ==> #[trigger] raw[i] == base[i]
    &&& forall|j: int|
        MAXFILTER <= j < COEFFS ==> call_ensures(
            minus,
            (raw[j - MAXFILTER], back[j - MAXFILTER]),
            #[trigger] raw[j],
        )
}

/// Each value of `next` is a result of `drift` on the old mean, the current
/// coefficient, the evicted coefficient and the normalization length.
pub open spec fn mean_drifted<T, D: Fn(T, T, T, usize) -> T>(
    drift: D,
    mean: Seq<T>,
    raw: Seq<T>,
    evicted: Seq<T>,
    next: Seq<T>,
) -> bool {
    &&& next.len() == COEFFS
    &&& forall|i: int|
        0 <= i < COEFFS ==> call_ensures(
            drift,
            (mean[i], raw[i], evicted[i], NORMALIZATION_LENGTH),
            #[trigger] next[i],
        )
}

/// Each value of `out` is a result of `minus` on the coefficient and the mean
/// at its place.
pub open spec fn mean_removed<T, S: Fn(T, T) -> T>(
    minus: S,
    raw: Seq<T>,
    mean: Seq<T>,
    out: Seq<T>,
) -> bool {
    &&& out.len() == COEFFS
    &&& forall|i: int| 0 <= i < COEFFS ==> call_ensures(minus, (raw[i], mean[i]), #[trigger] out[i])
}

fn copy_of<T: Copy>(values: &[T]) -> (copy: Vec<T>)
    ensures
        copy@ == values@,
{
    let mut copy: Vec<T> = Vec::new();
    let mut i: usize = 0;
    while i < values.len()
        invariant
            i <= values.len(),
            copy@ == values@.take(i as int),
        decreases values.len() - i,
    {
        copy.push(values[i]);
        i += 1;
    }
    assert(values@.take(values@.len() as int) =~= values@);
    copy
}

fn take_deltas<T: Copy, S: Fn(T, T) -> T>(output: &mut [T], back: &Vec<T>, minus: &S)
    requires
        old(output).len() == COEFFS,
        back.len() == COEFFS,
        forall|a: T, b: T| call_requires(*minus, (a, b)),
    ensures
        deltas_taken(*minus, old(output)@, back@, final(output)@),
{
    let mut i: usize = 0;
    while i < MAXFILTER
        invariant
            i <= MAXFILTER,
            output.len() == COEFFS,
            back.len() == COEFFS,
            forall|a: T, b: T| call_requires(*minus, (a, b)),
            forall|k: int| 0 <= k < MAXFILTER ==> #[trigger] output@[k] == old(output)@[k],
            forall|j: int|
                MAXFILTER <= j < MAXFILTER + i ==> call_ensures(
                    *minus,
                    (output@[j - MAXFILTER], back@[j - MAXFILTER]),
                    #[trigger] output@[j],
                ),
            forall|j: int|
                2 * MAXFILTER <= j < 2 * MAXFILTER + i ==> call_ensures(
                    *minus,
                    (output@[j - MAXFILTER], back@[j - MAXFILTER]),
                    #[trigger] output@[j],
                ),
        decreases MAXFILTER - i,
    {
        let delta = minus(output[i], back[i]);
        output[MAXFILTER + i] = delta;
        let second = minus(delta, back[MAXFILTER + i]);
        output[2 * MAXFILTER + i] = second;
        i += 1;
    }
}

fn remove_mean<T: Copy, S: Fn(T, T) -> T>(output: &mut [T], mean: &Vec<T>, minus: &S)
    requires
        old(output).len() == COEFFS,
        mean.len() == COEFFS,
        forall|a: T, b: T| call_requires(*minus, (a, b)),
    ensures
        mean_removed(*minus, old(output)@, mean@, final(output)@),
{
    let mut i: usize = 0;
    while i < COEFFS
        invariant
            i <= COEFFS,
            output.len() == COEFFS,
            mean.len() == COEFFS,
            forall|a: T, b: T| call_requires(*minus, (a, b)),
            forall|k: int| i <= k < COEFFS ==> #[trigger] output@[k] == old(output)@[k],
            forall|k: int|
                0 <= k < i ==> call_ensures(
                    *minus,
                    (old(output)@[k], mean@[k]),
                    #[trigger] output@[k],
                ),
        decreases COEFFS - i,
    {
        let centered = minus(output[i], mean[i]);
        output[i] = centered;
        i += 1;
    }
}

/// One step of the feature stage, as a relation between the state and
/// coefficient vector before it and those after it.
///
/// The vector as it stood before the mean was removed is the newest entry of
/// the history. With an earlier frame in the history, that vector carries the
/// deltas against it, and the mean has drifted by the frame that left; with
/// none, the vector is the input as it came and the mean has not moved.
pub open spec fn advanced<T, S: Fn(T, T) -> T, D: Fn(T, T, T, usize) -> T>(
    minus: S,
    drift: D,
    history: Seq<Seq<T>>,
    mean: Seq<T>,
    input: Seq<T>,
    next_history: Seq<Seq<T>>,
    next_mean: Seq<T>,
    output: Seq<T>,
) -> bool {
    let raw = next_history.last();
    &&& next_history =~= rotated(history, raw)
    &&& if history.len() > 0 {
        &&& deltas_taken(minus, input, history.last(), raw)
        &&& mean_drifted(drift, mean, raw, history.first(), next_mean)
    } else {
        &&& raw =~= input
        &&& next_mean =~= mean
    }
    &&& mean_removed(minus, raw, next_mean, output)
}

/// The state that the feature stage keeps between frames: the frames seen
/// lately, each as it stood before the mean was removed, and the running
/// mean.
pub struct DynamicFeatures<T> {
    prev_coeffs: VecDeque<Vec<T>>,
    mean_coeffs: Vec<T>,
}

impl<T> DynamicFeatures<T> {
    #[verifier::type_invariant]
    spec fn well_formed(self) -> bool {
        &&& self.mean_coeffs.len() == COEFFS
        &&& self.prev_coeffs.len() <= 1
        &&& forall|k: int|
            0 <= k < self.prev_coeffs.len() ==> (#[trigger] self.prev_coeffs@[k]).len() == COEFFS
    }

    /// The stored frames, oldest first.
    pub closed spec fn history(&self) -> Seq<Seq<T>> {
        self.prev_coeffs@.map_values(|frame: Vec<T>| frame@)
    }

    /// The running mean.
    pub closed spec fn mean(&self) -> Seq<T> {
        self.mean_coeffs@
    }

    /// The number of frames in the history: none before the first frame, one
    /// ever after.
    pub fn history_len(&self) -> (len: usize)
        ensures
            len == self.history().len(),
            len <= 1,
    {
        proof {
            use_type_invariant(self);
        }
        self.prev_coeffs.len()
    }

    /// The newest frame of the history, as it stood before the mean was
    /// removed, or `None` before the first frame.
    pub fn latest(&self) -> (frame: Option<&Vec<T>>)
        ensures
            match frame {
                Some(frame) => {
                    &&& self.history().len() > 0
                    &&& frame@ == self.history().last()
                    &&& frame.len() == COEFFS
                },
                None => self.history().len() == 0,
            },
    {
        proof {
            use_type_invariant(self);
        }
        let len = self.prev_coeffs.len();
        if len == 0 {
            None
        } else {
            Some(&self.prev_coeffs[len - 1])
        }
    }

    /// The running mean, one value for each coefficient.
    pub fn mean_coeffs(&self) -> (mean: &Vec<T>)
        ensures
            mean@ == self.mean(),
            mean.len() == COEFFS,
    {
        proof {
            use_type_invariant(self);
        }
        &self.mean_coeffs
    }
}

impl<T: Copy> DynamicFeatures<T> {
    /// A stage that has seen no frame yet: the history is empty and the mean
    /// is `zero` at every place.
    pub fn new(zero: T) -> (stage: DynamicFeatures<T>)
        ensures
            stage.history() == Seq::<Seq<T>>::empty(),
            stage.mean() == Seq::new(COEFFS as nat, |i: int| zero),
    {
        let mut mean_coeffs: Vec<T> = Vec::new();
        let mut filled: usize = 0;
        while filled < COEFFS
            invariant
                filled <= COEFFS,
                mean_coeffs@ == Seq::new(filled as nat, |i: int| zero),
            decreases COEFFS - filled,
        {
            mean_coeffs.push(zero);
            filled += 1;
        }
        let stage = DynamicFeatures { prev_coeffs: VecDeque::new(), mean_coeffs };
        assert(stage.history() =~= Seq::<Seq<T>>::empty());
        stage
    }

    /// Takes one frame through the stage. On entry `output` holds the frame's
    /// cepstral coefficients in its base block; on return it holds the
    /// finished vector. `minus(a, b)` is the difference `a - b`, and
    /// `drift(mean, current, evicted, length)` is the mean moved by
    /// `(current - evicted) / length`.
    ///
    /// In order: the deltas are taken against the newest stored frame, the
    /// oldest stored frame leaves and the mean drifts by it, the vector joins
    /// the history, and last the mean is removed from the vector.
    pub fn advance<S: Fn(T, T) -> T, D: Fn(T, T, T, usize) -> T>(
        &mut self,
        output: &mut [T],
        minus: S,
        drift: D,
    )
        requires
            old(output).len() == COEFFS,
            forall|a: T, b: T| call_requires(minus, (a, b)),
            forall|m: T, c: T, e: T| call_requires(drift, (m, c, e, NORMALIZATION_LENGTH)),
        ensures
            advanced(
                minus,
                drift,
                old(self).history(),
                old(self).mean(),
                old(output)@,
                final(self).history(),
                final(self).mean(),
                final(output)@,
            ),
            final(self).history().len() == 1,
    {
        proof {
            use_type_invariant(&*self);
        }
        let ghost history = self.history();
        let ghost mean = self.mean();
        // The history is taken out while it changes hands, so that the stage
        // is well formed at every step, and put back below.
        let mut frames: VecDeque<Vec<T>> = VecDeque::new();
        core::mem::swap(&mut self.prev_coeffs, &mut frames);

        let stored = frames.len();
        if stored > 0 {
            take_deltas(output, &frames[stored - 1], &minus);
        }
        if let Some(front) = frames.pop_front() {
            let mut i: usize = 0;
            while i < COEFFS
                invariant
                    i <= COEFFS,
                    self.prev_coeffs@.len() == 0,
                    self.mean_coeffs.len() == COEFFS,
                    output.len() == COEFFS,
                    front.len() == COEFFS,
                    forall|m: T, c: T, e: T|
                        call_requires(drift, (m, c, e, NORMALIZATION_LENGTH)),
                    forall|k: int| i <= k < COEFFS ==> #[trigger] self.mean_coeffs@[k] == mean[k],
                    forall|k: int|
                        0 <= k < i ==> call_ensures(
                            drift,
                            (mean[k], output@[k], front@[k], NORMALIZATION_LENGTH),
                            #[trigger] self.mean_coeffs@[k],
                        ),
                decreases COEFFS - i,
            {
                let moved = drift(self.mean_coeffs[i], output[i], front[i], NORMALIZATION_LENGTH);
                self.mean_coeffs[i] = moved;
                i += 1;
            }
        }
        frames.push_back(copy_of(output));
        let ghost raw = output@;
        core::mem::swap(&mut self.prev_coeffs, &mut frames);
        remove_mean(output, &self.mean_coeffs, &minus);
        assert(self.history() =~= rotated(history, raw));
    }
}

/// Every application of `f` has one result only.
pub open spec fn single_valued<T, S: Fn(T, T) -> T>(f: S) -> bool {
    forall|a: T, b: T, first: T, second: T|
        call_ensures(f, (a, b), first) && call_ensures(f, (a, b), second) ==> first == second
}

/// Every application of `f` to a mean, two coefficients and the normalization
/// length has one result only.
pub open spec fn single_valued_drift<T, D: Fn(T, T, T, usize) -> T>(f: D) -> bool {
    forall|m: T, c: T, e: T, first: T, second: T|
        call_ensures(f, (m, c, e, NORMALIZATION_LENGTH), first) && call_ensures(
            f,
            (m, c, e, NORMALIZATION_LENGTH),
            second,
        ) ==> first == second
}

/// The history that `frames`, taken in one after the other, leave behind
/// when they started from `history`.
pub open spec fn replayed<A>(history: Seq<A>, frames: Seq<A>) -> Seq<A>
    decreases frames.len(),
{
    if frames.len() == 0 {
        history
    } else {
        rotated(replayed(history, frames.drop_last()), frames.last())
    }
}

/// Because the oldest frame leaves before the new one joins, a history that
/// started empty never grows past one entry: after any number of frames it
/// holds the newest one and nothing else.
pub proof fn lemma_history_settles_at_one<A>(frames: Seq<A>)
    requires
        frames.len() >= 1,
    ensures
        replayed(Seq::<A>::empty(), frames) == seq![frames.last()],
    decreases frames.len(),
{
    let earlier = frames.drop_last();
    if earlier.len() > 0 {
        lemma_history_settles_at_one(earlier);
    }
    assert(rotated(replayed(Seq::<A>::empty(), earlier), frames.last()) =~= seq![frames.last()]);
}

/// Over two frames in a row, each delta of the second frame is a result of
/// `minus` on the base coefficient of the second frame and the base
/// coefficient of the first at the same place, both as they were given,
/// before any mean was removed.
pub proof fn lemma_delta_spans_consecutive_frames<T, S: Fn(T, T) -> T, D: Fn(T, T, T, usize) -> T>(
    minus: S,
    drift: D,
    history: Seq<Seq<T>>,
    mean: Seq<T>,
    first: Seq<T>,
    first_history: Seq<Seq<T>>,
    first_mean: Seq<T>,
    first_output: Seq<T>,
    second: Seq<T>,
    second_history: Seq<Seq<T>>,
    second_mean: Seq<T>,
    second_output: Seq<T>,
)
    requires
        advanced(minus, drift, history, mean, first, first_history, first_mean, first_output),
        advanced(
            minus,
            drift,
            first_history,
            first_mean,
            second,
            second_history,
            second_mean,
            second_output,
        ),
    ensures
        forall|j: int|
            MAXFILTER <= j < 2 * MAXFILTER ==> call_ensures(
                minus,
                (second[j - MAXFILTER], first[j - MAXFILTER]),
                #[trigger] second_history.last()[j],
            ),
{
    let first_raw = first_history.last();
    let second_raw = second_history.last();
    // The first call left its vector in the history, so the second took its
    // deltas against it; and each call keeps the base block it was given.
    assert(first_history.len() > 0);
    assert forall|j: int| MAXFILTER <= j < 2 * MAXFILTER implies call_ensures(
        minus,
        (second[j - MAXFILTER], first[j - MAXFILTER]),
        #[trigger] second_raw[j],
    ) by {
        assert(second_raw[j - MAXFILTER] == second[j - MAXFILTER]);
        assert(first_raw[j - MAXFILTER] == first[j - MAXFILTER]);
    }
}

/// With arithmetic that has one result for each pair of operands, a step of
/// the feature stage is determined by what it starts from: the same history,
/// mean and input lead to the same history, mean and output.
pub proof fn lemma_advance_is_determined<T, S: Fn(T, T) -> T, D: Fn(T, T, T, usize) -> T>(
    minus: S,
    drift: D,
    history: Seq<Seq<T>>,
    mean: Seq<T>,
    input: Seq<T>,
    one_history: Seq<Seq<T>>,
    one_mean: Seq<T>,
    one_output: Seq<T>,
    other_history: Seq<Seq<T>>,
    other_mean: Seq<T>,
    other_output: Seq<T>,
)
    requires
        single_valued(minus),
        single_valued_drift(drift),
        advanced(minus, drift, history, mean, input, one_history, one_mean, one_output),
        advanced(minus, drift, history, mean, input, other_history, other_mean, other_output),
    ensures
        one_history == other_history,
        one_mean == other_mean,
        one_output == other_output,
{
    let one = one_history.last();
    let other = other_history.last();
    if history.len() > 0 {
        let back = history.last();
        // The deltas follow from the base block, the delta-deltas from the deltas.
        assert forall|j: int| 0 <= j < 2 * MAXFILTER implies one[j] == other[j] by {
            if j >= MAXFILTER {
                assert(call_ensures(minus, (one[j - MAXFILTER], back[j - MAXFILTER]), one[j]));
                assert(call_ensures(minus, (other[j - MAXFILTER], back[j - MAXFILTER]), other[j]));
            }
        }
        assert forall|j: int| 0 <= j < COEFFS implies one[j] == other[j] by {
            if j >= 2 * MAXFILTER {
                assert(call_ensures(minus, (one[j - MAXFILTER], back[j - MAXFILTER]), one[j]));
                assert(call_ensures(minus, (other[j - MAXFILTER], back[j - MAXFILTER]), other[j]));
            }
        }
        assert(one =~= other);
        assert(one_mean =~= other_mean);
    }
    assert(one_output =~= other_output);
}

} // verus!
