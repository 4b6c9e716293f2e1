//! The sliding window of raw audio samples.
//!
//! A window has a fixed length. Every block that arrives is appended at the
//! back while as many of the oldest samples leave at the front, so the length
//! never changes after construction.

use vstd::prelude::*;

verus! {

/// What a window holding `window` holds once `block` has arrived: the block
/// joins at the back and `block.len()` samples leave at the front.
pub open spec fn slide(window: Seq<i16>, block: Seq<i16>) -> Seq<i16> {
    (window + block).skip(block.len() as int)
}

/// A window of `len` samples of silence.
pub open spec fn silence(len: nat) -> Seq<i16> {
    Seq::new(len, |i: int| 0i16)
}

/// Each value of `output` is a result of `weigh` on its place in the window
/// and the sample at that place.
pub open spec fn weighted<T, W: Fn(usize, i16) -> T>(
    weigh: W,
    window: Seq<i16>,
    output: Seq<T>,
) -> bool {
    &&& output.len() == window.len()
    &&& forall|i: int|
        0 <= i < window.len() ==> call_ensures(
            weigh,
            (i as usize, window[i]),
            #[trigger] output[i],
        )
}

/// A fixed-length window over the most recent samples, oldest first.
///
/// The samples live in a ring: `oldest` is the position of the sample that
/// leaves next, and the samples after it wrap around the end of the storage.
pub struct SampleWindow {
    samples: Vec<i16>,
    oldest: usize,
}

impl View for SampleWindow {
    type V = Seq<i16>;

    closed spec fn view(&self) -> Seq<i16> {
        self.samples@.skip(self.oldest as int) + self.samples@.take(self.oldest as int)
    }
}

impl SampleWindow {
    #[verifier::type_invariant]
    spec fn well_formed(self) -> bool {
        self.oldest == 0 || self.oldest < self.samples.len()
    }

    /// A window of `len` samples, all of them silence.
    pub fn new(len: usize) -> (window: SampleWindow)
        ensures
            window@ == silence(len as nat),
    {
        let mut samples: Vec<i16> = Vec::new();
        let mut filled: usize = 0;
        while filled < len
            invariant
                filled <= len,
                samples@ == silence(filled as nat),
            decreases len - filled,
        {
            samples.push(0);
            filled += 1;
        }
        SampleWindow { samples, oldest: 0 }
    }

    /// The number of samples in the window.
    pub fn len(&self) -> (len: usize)
        ensures
            len == self@.len(),
    {
        proof {
            use_type_invariant(self);
        }
        self.samples.len()
    }

    /// The sample at `index`, counted from the oldest, or `None` past the end.
    pub fn get(&self, index: usize) -> (sample: Option<i16>)
        ensures
            sample == if index < self@.len() {
                Some(self@[index as int])
            } else {
                None::<i16>
            },
    {
        proof {
            use_type_invariant(self);
        }
        let len = self.samples.len();
        if index >= len {
            return None;
        }
        let until_wrap = len - self.oldest;
        let position = if index < until_wrap {
            self.oldest + index
        } else {
            index - until_wrap
        };
        Some(self.samples[position])
    }

    /// Writes the window to `output`, sample by sample, each as `weigh` makes
    /// it from its place and its value: for a tapered frame,
    /// `weigh(place, sample)` is the sample times the taper's weight at that
    /// place.
    pub fn apply_weights<T, W: Fn(usize, i16) -> T>(&self, output: &mut [T], weigh: W)
        requires
            old(output).len() == self@.len(),
            forall|place: usize|
                place < self@.len() ==> call_requires(weigh, (place, self@[place as int])),
        ensures
            weighted(weigh, self@, final(output)@),
    {
        proof {
            use_type_invariant(self);
        }
        let len = self.samples.len();
        let until_wrap = len - self.oldest;
        let mut place: usize = 0;
        while place < len
            invariant
                place <= len,
                len == self.samples.len(),
                output.len() == len,
                self.oldest == 0 || self.oldest < len,
                until_wrap == len - self.oldest,
                forall|place: usize|
                    place < self@.len() ==> call_requires(weigh, (place, self@[place as int])),
                forall|i: int|
                    0 <= i < place ==> call_ensures(
                        weigh,
                        (i as usize, self@[i]),
                        #[trigger] output@[i],
                    ),
            decreases len - place,
        {
            let position = if place < until_wrap {
                self.oldest + place
            } else {
                place - until_wrap
            };
            assert(self@[place as int] == self.samples@[position as int]);
            let value = weigh(place, self.samples[position]);
            output[place] = value;
            place += 1;
        }
    }

    /// Takes in `block`: its samples join at the back, and as many of the
    /// oldest samples are dropped from the front. A block longer than the
    /// window leaves only its own last samples behind.
    pub fn append_back(&mut self, block: &[i16])
        ensures
            final(self)@ == slide(old(self)@, block@),
            final(self)@.len() == old(self)@.len(),
    {
        proof {
            use_type_invariant(&*self);
        }
        let len = self.samples.len();
        if len == 0 {
            assert(self@ =~= slide(self@, block@));
            return;
        }
        let ghost start = self@;
        let mut taken: usize = 0;
        while taken < block.len()
            invariant
                taken <= block.len(),
                self.samples.len() == len,
                self.oldest < len,
                start.len() == len,
                self@ == (start + block@.take(taken as int)).skip(taken as int),
            decreases block.len() - taken,
        {
            let ghost before = self@;
            let sample = block[taken];
            self.samples[self.oldest] = sample;
            self.oldest = if self.oldest + 1 == len {
                0
            } else {
                self.oldest + 1
            };
            proof {
                // One sample in, one out: the ring has moved on by one place.
                assert(self@ =~= before.skip(1).push(sample));
                assert(before.skip(1).push(sample) =~= (start + block@.take(taken + 1)).skip(
                    taken + 1,
                ));
            }
            taken += 1;
        }
        assert(block@.take(block@.len() as int) =~= block@);
    }
}

/// Two blocks taken in one after the other leave the window as their
/// concatenation taken in at once would.
pub proof fn lemma_slide_twice(window: Seq<i16>, first: Seq<i16>, second: Seq<i16>)
    ensures
        slide(slide(window, first), second) == slide(window, first + second),
{
    assert(slide(slide(window, first), second) =~= slide(window, first + second));
}

/// Silence taken into a silent window leaves it silent.
pub proof fn lemma_silence_stays(len: nat, block: Seq<i16>)
    requires
        forall|i: int| 0 <= i < block.len() ==> block[i] == 0,
    ensures
        slide(silence(len), block) == silence(len),
{
    assert(slide(silence(len), block) =~= silence(len));
}

} // verus!
