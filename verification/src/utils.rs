//! Small helpers shared by the renderer: cutting a value off at the ends of an
//! interval, and sampling by rejection.

use vstd::prelude::*;
use vstd::std_specs::cmp::{PartialOrdIs, PartialOrdSpec};

verus! {

/// What `clamp` returns for a type whose comparisons follow its
/// `partial_cmp_spec`: `min` below the interval, `max` above it, `x` inside.
pub open spec fn clamped<T: PartialOrd>(x: T, min: T, max: T) -> T {
    if x.is_lt(&min) {
        min
    } else if x.is_gt(&max) {
        max
    } else {
        x
    }
}

/// Limits `x` to the closed interval from `min` to `max`: a value below `min`
/// gives `min`, one above `max` gives `max`, any other is returned unchanged.
///
/// The first clause holds for every `T`, in terms of what its own `<` and `>`
/// answered; the second reads those answers off `partial_cmp_spec` where the
/// type follows it.
pub fn clamp<T: PartialOrd>(x: T, min: T, max: T) -> (r: T)
    ensures
        exists|below: bool|
            {
                &&& #[trigger] call_ensures(T::lt, (&x, &min), below)
                &&& below ==> r == min
                &&& !below ==> exists|above: bool|
                    {
                        &&& #[trigger] call_ensures(T::gt, (&x, &max), above)
                        &&& above ==> r == max
                        &&& !above ==> r == x
                    }
            },
        T::obeys_partial_cmp_spec() ==> r == clamped(x, min, max),
{
    if x < min {
        min
    } else if x > max {
        max
    } else {
        x
    }
}

/// Whether `tries` holds the draws of one rejection sampling: no more than
/// `max_draws`, each of them what `draw` gave, all but the last of them
/// rejected, and fewer than `max_draws` only where the last one was accepted.
pub open spec fn is_sampling<T, F: FnMut() -> Option<T>>(
    draw: F,
    max_draws: usize,
    tries: Seq<Option<T>>,
) -> bool {
    &&& tries.len() <= max_draws
    &&& forall|k: int| 0 <= k < tries.len() ==> call_ensures(draw, (), #[trigger] tries[k])
    &&& forall|k: int| 0 <= k < tries.len() - 1 ==> #[trigger] tries[k] is None
    &&& tries.len() < max_draws ==> tries.len() > 0 && tries.last() is Some
}

/// The sample that a rejection sampling with the given draws settles on: the
/// draw that was accepted, or `fallback` where none was.
pub open spec fn sample_of<T>(tries: Seq<Option<T>>, fallback: T) -> T {
    if tries.len() > 0 && tries.last() is Some {
        tries.last()->0
    } else {
        fallback
    }
}

/// Samples by rejection, and comes to an end whatever the source of the draws
/// does. `draw` draws once and gives the draw where it accepts it; it is asked
/// until it accepts one, but no more than `max_draws` times, after which
/// `fallback` is the sample.
pub fn rejection_sample<T, F: FnMut() -> Option<T>>(
    max_draws: usize,
    draw: F,
    fallback: T,
) -> (sample: T)
    requires
        call_requires(draw, ()),
    ensures
        exists|tries: Seq<Option<T>>|
            #![trigger is_sampling(draw, max_draws, tries)]
            is_sampling(draw, max_draws, tries) && sample == sample_of(tries, fallback),
        max_draws == 0 ==> sample == fallback,
{
    let mut source = draw;
    let ghost mut tries: Seq<Option<T>> = Seq::empty();
    let mut drawn: usize = 0;
    while drawn < max_draws
        invariant
            source == draw,
            call_requires(draw, ()),
            drawn <= max_draws,
            tries.len() == drawn,
            forall|k: int| 0 <= k < tries.len() ==> call_ensures(draw, (), #[trigger] tries[k]),
            forall|k: int| 0 <= k < tries.len() ==> #[trigger] tries[k] is None,
        decreases max_draws - drawn,
    {
        let tried = source();
        proof {
            tries = tries.push(tried);
        }
        match tried {
            Some(sample) => {
                proof {
                    assert(is_sampling(draw, max_draws, tries));
                }
                return sample;
            },
            None => {},
        }
        drawn = drawn + 1;
    }
    proof {
        assert(is_sampling(draw, max_draws, tries));
    }
    fallback
}

} // verus!
