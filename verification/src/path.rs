//! The bounce budget of a light path.
//!
//! A path starts with a number of bounces it may make. Each traced ray either
//! leaves the scene, is absorbed by what it strikes, or is scattered on; a
//! scattered ray uses up one bounce. The functions here decide, from the budget
//! and from what the scene answered, whether another ray is traced and which
//! light the path carries when it ends, and `trace` follows a path to its end.
//! The rays and colours themselves are the caller's: `R` is its type of rays,
//! `C` its type of colours.

use vstd::prelude::*;

verus! {

/// What the scene answered to one traced ray.
#[derive(Copy, Clone, Debug, PartialEq, Eq, Structural)]
pub enum Bounce {
    /// The ray struck nothing.
    Miss,
    /// The ray struck a surface, and its material did not scatter it.
    Absorbed,
    /// The ray struck a surface, and its material scattered it on.
    Scattered,
}

/// The light at the far end of a finished path.
#[derive(Copy, Clone, Debug, PartialEq, Eq, Structural)]
pub enum Ending {
    /// No light: the ray was absorbed, or the budget ran out.
    Black,
    /// The light of the sky in the direction of the last ray.
    Sky,
}

/// What the integrator does next.
#[derive(Copy, Clone, Debug, PartialEq, Eq, Structural)]
pub enum PathStep {
    /// Trace the current ray into the scene; the number is the budget that is
    /// left, this ray included, and is never zero.
    Trace(usize),
    /// The path is finished.
    End(Ending),
}

/// The first step of a path with the given budget: with none, the path is black
/// at once and no ray is traced.
pub open spec fn first_step(depth: usize) -> PathStep {
    if depth == 0 {
        PathStep::End(Ending::Black)
    } else {
        PathStep::Trace(depth)
    }
}

/// The step that follows an answer of the scene, where `depth` was the budget
/// when the ray was traced: a miss ends the path under the sky, an absorbed ray
/// ends it black, a scattered one goes on with one bounce less.
pub open spec fn next_step(depth: usize, bounce: Bounce) -> PathStep {
    match bounce {
        Bounce::Miss => PathStep::End(Ending::Sky),
        Bounce::Absorbed => PathStep::End(Ending::Black),
        Bounce::Scattered => if depth <= 1 {
            PathStep::End(Ending::Black)
        } else {
            PathStep::Trace((depth - 1) as usize)
        },
    }
}

/// Starts a path that may make `depth` bounces.
pub fn begin(depth: usize) -> (step: PathStep)
    ensures
        step == first_step(depth),
        depth == 0 ==> step == PathStep::End(Ending::Black),
{
    if depth == 0 {
        PathStep::End(Ending::Black)
    } else {
        PathStep::Trace(depth)
    }
}

/// Goes on after the scene has answered the ray that was traced with a budget
/// of `depth`.
pub fn after_bounce(depth: usize, bounce: Bounce) -> (step: PathStep)
    ensures
        step == next_step(depth, bounce),
        bounce == Bounce::Miss ==> step == PathStep::End(Ending::Sky),
{
    match bounce {
        Bounce::Miss => PathStep::End(Ending::Sky),
        Bounce::Absorbed => PathStep::End(Ending::Black),
        Bounce::Scattered => if depth <= 1 {
            PathStep::End(Ending::Black)
        } else {
            PathStep::Trace(depth - 1)
        },
    }
}

/// What became of a ray that was traced into the scene.
pub enum Encounter<R, C> {
    /// The ray struck nothing.
    Miss,
    /// The ray struck a surface, and its material did not scatter it.
    Absorbed,
    /// The ray struck a surface, and its material scattered it on: by how much
    /// the light is attenuated there, and the scattered ray.
    Scattered { attenuation: C, ray: R },
}

/// A path that has been followed to its end.
pub struct LightPath<R, C> {
    /// The attenuations of the scatterings on the way, the first scattering
    /// first.
    pub attenuations: Vec<C>,
    /// The ray with which the path ended: the last scattered one, or the first
    /// ray where nothing was scattered.
    pub ray: R,
    /// The light at the far end.
    pub ending: Ending,
}

/// The ray that is traced after `k` encounters: the first ray, or the one that
/// the encounter before scattered.
pub open spec fn ray_at<R, C>(first: R, met: Seq<Encounter<R, C>>, k: int) -> R {
    if k == 0 {
        first
    } else {
        met[k - 1]->ray
    }
}

/// Whether `met` holds the encounters of one whole path: no more than the
/// budget allows, each of them what `encounter` answered for the ray that was
/// traced then, all but the last of them scatterings, and fewer than the budget
/// allows only where the last one was a miss or an absorption.
pub open spec fn is_walk<R, C, F: FnMut(&R) -> Encounter<R, C>>(
    encounter: F,
    first: R,
    depth: usize,
    met: Seq<Encounter<R, C>>,
) -> bool {
    &&& met.len() <= depth
    &&& forall|k: int|
        0 <= k < met.len() ==> call_ensures(encounter, (&ray_at(first, met, k),), #[trigger] met[k])
    &&& forall|k: int| 0 <= k < met.len() - 1 ==> #[trigger] met[k] is Scattered
    &&& met.len() < depth ==> met.len() > 0 && !(met.last() is Scattered)
}

/// How many of the encounters of a path were scatterings: all of them, or all
/// but the last.
pub open spec fn scatterings<R, C>(met: Seq<Encounter<R, C>>) -> nat {
    if met.len() > 0 && !(met.last() is Scattered) {
        (met.len() - 1) as nat
    } else {
        met.len()
    }
}

/// The light at the far end of a path with the given encounters: that of the
/// sky where the last ray struck nothing, else none.
pub open spec fn ending_of<R, C>(met: Seq<Encounter<R, C>>) -> Ending {
    if met.len() > 0 && met.last() is Miss {
        Ending::Sky
    } else {
        Ending::Black
    }
}

/// Follows a path from its first ray to its end. `encounter` traces one ray
/// into the scene and says what became of it; it is asked once for each ray of
/// the path, and never for more rays than `depth`.
///
/// The last three clauses single out what the first one implies: a path without
/// budget is black and traces nothing; a first ray that can only miss gives
/// the unattenuated light of the sky along that ray; and no path scatters more
/// often than its budget allows.
pub fn trace<R, C, F: FnMut(&R) -> Encounter<R, C>>(
    ray: R,
    depth: usize,
    encounter: F,
) -> (path: LightPath<R, C>)
    requires
        forall|r: R| call_requires(encounter, (&r,)),
    ensures
        exists|met: Seq<Encounter<R, C>>|
            #![trigger is_walk(encounter, ray, depth, met)]
            {
                &&& is_walk(encounter, ray, depth, met)
                &&& path.attenuations@ == Seq::new(
                    scatterings(met),
                    |k: int| met[k]->attenuation,
                )
                &&& path.ray == ray_at(ray, met, scatterings(met) as int)
                &&& path.ending == ending_of(met)
            },
        depth == 0 ==> path.attenuations@.len() == 0 && path.ray == ray && path.ending
            == Ending::Black,
        depth > 0 && (forall|e: Encounter<R, C>| call_ensures(encounter, (&ray,), e) ==> e is Miss)
            ==> path.attenuations@.len() == 0 && path.ray == ray && path.ending == Ending::Sky,
        path.attenuations@.len() <= depth,
{
    let mut scene = encounter;
    let mut current = ray;
    let mut attenuations: Vec<C> = Vec::new();
    let mut step = begin(depth);
    let ghost mut met: Seq<Encounter<R, C>> = Seq::empty();
    loop
        invariant
            scene == encounter,
            forall|r: R| call_requires(encounter, (&r,)),
            met.len() <= depth,
            forall|k: int|
                0 <= k < met.len() ==> call_ensures(
                    encounter,
                    (&ray_at(ray, met, k),),
                    #[trigger] met[k],
                ),
            forall|k: int| 0 <= k < met.len() - 1 ==> #[trigger] met[k] is Scattered,
            step matches PathStep::Trace(left) ==> {
                &&& left == depth - met.len()
                &&& left > 0
                &&& met.len() > 0 ==> met.last() is Scattered
            },
            step matches PathStep::End(ending) ==> {
                &&& ending == ending_of(met)
                &&& met.len() < depth ==> met.len() > 0 && !(met.last() is Scattered)
            },
            attenuations@ == Seq::new(scatterings(met), |k: int| met[k]->attenuation),
            current == ray_at(ray, met, scatterings(met) as int),
        ensures
            step is End,
        decreases depth - met.len(),
    {
        let left: usize;
        match step {
            PathStep::End(_) => {
                break;
            },
            PathStep::Trace(budget) => {
                left = budget;
            },
        }
        let met_now = scene(&current);
        let ghost before = met;
        proof {
            met = met.push(met_now);
            assert forall|k: int| 0 <= k < met.len() implies call_ensures(
                encounter,
                (&ray_at(ray, met, k),),
                #[trigger] met[k],
            ) by {
                if k < before.len() {
                    assert(met[k] == before[k]);
                    assert(ray_at(ray, met, k) == ray_at(ray, before, k));
                }
            }
            assert forall|k: int| 0 <= k < met.len() - 1 implies #[trigger] met[k] is Scattered by {
                assert(met[k] == before[k]);
            }
        }
        match met_now {
            Encounter::Miss => {
                step = after_bounce(left, Bounce::Miss);
            },
            Encounter::Absorbed => {
                step = after_bounce(left, Bounce::Absorbed);
            },
            Encounter::Scattered { attenuation, ray: scattered } => {
                attenuations.push(attenuation);
                current = scattered;
                step = after_bounce(left, Bounce::Scattered);
            },
        }
        proof {
            assert(attenuations@ =~= Seq::new(scatterings(met), |k: int| met[k]->attenuation));
        }
    }
    proof {
        assert(is_walk(encounter, ray, depth, met));
        if depth > 0 && (forall|e: Encounter<R, C>|
            call_ensures(encounter, (&ray,), e) ==> e is Miss) {
            assert(met[0] is Miss);
        }
    }
    let ending = match step {
        PathStep::End(ending) => ending,
        PathStep::Trace(_) => Ending::Black,
    };
    LightPath { attenuations, ray: current, ending }
}

} // verus!
