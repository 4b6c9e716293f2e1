//! Routing of spectral bins into the mel filters.
//!
//! Each bin of the spectrum lands in one filter, its own, and feeds two: its
//! own, on the rising edge of that filter's triangle, and the one below, on
//! the falling edge of that one's. Where a bin lies on the mel scale and how
//! much it gives are the caller's arithmetic; what is decided here is which
//! bins take part, which filter each lands in, and which slots of the energy
//! vector its shares are added to.

use vstd::prelude::*;

verus! {

/// Number of mel filters.
pub const NFILTERS: usize = 40;

/// The filter that a bin at `position` lands in: a bin on the upper edge of
/// the scale counts to the last filter.
pub open spec fn filter_of(position: usize) -> usize {
    if position == NFILTERS {
        (NFILTERS - 1) as usize
    } else {
        position
    }
}

/// The filter that a bin lands in, from its position on the mel scale in
/// units of one filter, rounded down.
pub fn filter_index(position: usize) -> (index: usize)
    requires
        position <= NFILTERS,
    ensures
        index == filter_of(position),
        index < NFILTERS,
{
    if position == NFILTERS {
        position - 1
    } else {
        position
    }
}

/// `next` is `filters` after the bin `bin`, which landed in filter `index`,
/// gave its shares. The filter itself holds a result of `plus` on its old
/// energy and a result of `rising` for this bin; the filter below it, if
/// there is one, a result of `plus` on its old energy and a result of
/// `falling` for this bin; no other filter has changed.
pub open spec fn bin_added<
    T,
    F: Fn(usize, usize) -> T,
    R: Fn(usize, usize) -> T,
    A: Fn(T, T) -> T,
>(
    falling: F,
    rising: R,
    plus: A,
    bin: usize,
    index: usize,
    filters: Seq<T>,
    next: Seq<T>,
) -> bool {
    &&& next.len() == filters.len()
    &&& index > 0 ==> exists|share: T|
        {
            &&& #[trigger] call_ensures(falling, (bin, index), share)
            &&& call_ensures(plus, (filters[index - 1], share), next[index - 1])
        }
    &&& exists|share: T|
        {
            &&& #[trigger] call_ensures(rising, (bin, index), share)
            &&& call_ensures(plus, (filters[index as int], share), next[index as int])
        }
    &&& forall|j: int|
        0 <= j < filters.len() && j != index && j != index - 1 ==> #[trigger] next[j]
            == filters[j]
}

/// In the record `steps` and `positions` of a pass, the entry for `bin` is in
/// order: `positions[bin]` is a result of `place` for the bin, and
/// `steps[bin]` is `steps[bin - 1]` after the bin gave its shares in the
/// filter of that position.
pub open spec fn bin_taken<
    T,
    P: Fn(usize) -> usize,
    F: Fn(usize, usize) -> T,
    R: Fn(usize, usize) -> T,
    A: Fn(T, T) -> T,
>(
    place: P,
    falling: F,
    rising: R,
    plus: A,
    steps: Seq<Seq<T>>,
    positions: Seq<usize>,
    bin: int,
) -> bool {
    &&& call_ensures(place, (bin as usize,), positions[bin])
    &&& bin_added(
        falling,
        rising,
        plus,
        bin as usize,
        filter_of(positions[bin]),
        steps[bin - 1],
        steps[bin],
    )
}

/// `steps` and `positions` record a pass over the bins below `bins` in rising
/// order. `steps[0]` is the filters as they start, all at `zero`; bin 0, the
/// constant component, takes no part; each later bin has its entry.
pub open spec fn pass_over<
    T,
    P: Fn(usize) -> usize,
    F: Fn(usize, usize) -> T,
    R: Fn(usize, usize) -> T,
    A: Fn(T, T) -> T,
>(
    place: P,
    falling: F,
    rising: R,
    plus: A,
    zero: T,
    bins: nat,
    steps: Seq<Seq<T>>,
    positions: Seq<usize>,
) -> bool {
    &&& steps.len() == if bins == 0 {
        1
    } else {
        bins
    }
    &&& positions.len() == steps.len()
    &&& steps[0] =~= Seq::new(NFILTERS as nat, |i: int| zero)
    &&& forall|bin: int|
        1 <= bin < bins ==> #[trigger] bin_taken(
            place,
            falling,
            rising,
            plus,
            steps,
            positions,
            bin,
        )
}

/// `filters` is what a pass over the bins below `bins` leaves behind.
pub open spec fn accumulated<
    T,
    P: Fn(usize) -> usize,
    F: Fn(usize, usize) -> T,
    R: Fn(usize, usize) -> T,
    A: Fn(T, T) -> T,
>(
    place: P,
    falling: F,
    rising: R,
    plus: A,
    zero: T,
    bins: nat,
    filters: Seq<T>,
) -> bool {
    exists|steps: Seq<Seq<T>>, positions: Seq<usize>|
        {
            &&& #[trigger] pass_over(place, falling, rising, plus, zero, bins, steps, positions)
            &&& filters == steps.last()
        }
}

/// The energies that a spectrum of `bins` bins leaves in the mel filters.
///
/// `place(bin)` is the position of a bin on the mel scale in units of one
/// filter, rounded down. `falling(bin, index)` and `rising(bin, index)` are
/// the shares that the bin gives to the filter below its own and to its own,
/// when its own is `index`; `falling` is not asked where there is no filter
/// below. `plus(a, b)` is the sum `a + b`.
pub fn accumulate<
    T: Copy,
    P: Fn(usize) -> usize,
    F: Fn(usize, usize) -> T,
    R: Fn(usize, usize) -> T,
    A: Fn(T, T) -> T,
>(bins: usize, zero: T, place: P, falling: F, rising: R, plus: A) -> (filters: Vec<T>)
    requires
        forall|bin: usize| 1 <= bin < bins ==> call_requires(place, (bin,)),
        forall|bin: usize, position: usize|
            1 <= bin < bins && call_ensures(place, (bin,), position) ==> position <= NFILTERS,
        forall|bin: usize, index: usize|
            1 <= bin < bins && 1 <= index < NFILTERS ==> call_requires(falling, (bin, index)),
        forall|bin: usize, index: usize|
            1 <= bin < bins && index < NFILTERS ==> call_requires(rising, (bin, index)),
        forall|a: T, b: T| call_requires(plus, (a, b)),
    ensures
        filters.len() == NFILTERS,
        accumulated(place, falling, rising, plus, zero, bins as nat, filters@),
{
    let mut filters: Vec<T> = Vec::new();
    let mut filled: usize = 0;
    while filled < NFILTERS
        invariant
            filled <= NFILTERS,
            filters@ == Seq::new(filled as nat, |i: int| zero),
        decreases NFILTERS - filled,
    {
        filters.push(zero);
        filled += 1;
    }
    let ghost mut steps: Seq<Seq<T>> = seq![filters@];
    let ghost mut positions: Seq<usize> = seq![0usize];
    let mut bin: usize = 1;
    while bin < bins
        invariant
            1 <= bin,
            bin <= bins || bin == 1,
            filters.len() == NFILTERS,
            steps.len() == bin,
            filters@ == steps.last(),
            pass_over(place, falling, rising, plus, zero, bin as nat, steps, positions),
            forall|bin: usize| 1 <= bin < bins ==> call_requires(place, (bin,)),
            forall|bin: usize, position: usize|
                1 <= bin < bins && call_ensures(place, (bin,), position) ==> position
                    <= NFILTERS,
            forall|bin: usize, index: usize|
                1 <= bin < bins && 1 <= index < NFILTERS ==> call_requires(falling, (bin, index)),
            forall|bin: usize, index: usize|
                1 <= bin < bins && index < NFILTERS ==> call_requires(rising, (bin, index)),
            forall|a: T, b: T| call_requires(plus, (a, b)),
        decreases bins - bin,
    {
        let position = place(bin);
        let index = filter_index(position);
        if index > 0 {
            let share = falling(bin, index);
            let below = plus(filters[index - 1], share);
            filters[index - 1] = below;
        }
        let share = rising(bin, index);
        let own = plus(filters[index], share);
        filters[index] = own;
        proof {
            let earlier = steps;
            let placed = positions;
            assert(bin_added(falling, rising, plus, bin, index, earlier.last(), filters@));
            steps = earlier.push(filters@);
            positions = placed.push(position);
            assert forall|b: int| 1 <= b < bin + 1 implies #[trigger] bin_taken(
                place,
                falling,
                rising,
                plus,
                steps,
                positions,
                b,
            ) by {
                if b < bin {
                    assert(bin_taken(place, falling, rising, plus, earlier, placed, b));
                }
            }
        }
        bin += 1;
    }
    assert(pass_over(place, falling, rising, plus, zero, bins as nat, steps, positions));
    filters
}

} // verus!
