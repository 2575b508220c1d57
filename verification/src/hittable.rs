//! The record and the outcome of testing a ray against a surface, and the list
//! of surfaces that makes up a scene.
//!
//! All are generic: `V` is the type of points and directions, `S` that of ray
//! parameters, `M` the handle by which a hit names the material that was
//! struck, `H` the handle of a surface. So is the choice between the two places
//! at which a ray meets a closed surface: it compares ray parameters and does
//! no arithmetic on them.

use std::ops::Neg;
use vstd::prelude::*;
use vstd::std_specs::cmp::{PartialOrdIs, PartialOrdSpec};
use vstd::std_specs::ops::NegSpec;

verus! {

/// Where and how a ray struck a surface: the point, the normal there, the ray
/// parameter, and the side. The normal is kept pointing against the ray, and
/// the side tells whether the ray came from outside.
#[derive(Clone)]
pub struct HitRecord<V, S> {
    pub p: V,
    pub normal: V,
    pub t: S,
    front_face: bool,
}

/// What a [`HitRecord`] holds.
pub struct HitRecordView<V, S> {
    pub p: V,
    pub normal: V,
    pub t: S,
    pub front_face: bool,
}

impl<V, S> View for HitRecord<V, S> {
    type V = HitRecordView<V, S>;

    closed spec fn view(&self) -> HitRecordView<V, S> {
        HitRecordView { p: self.p, normal: self.normal, t: self.t, front_face: self.front_face }
    }
}

impl<V, S> HitRecord<V, S> {
    /// Records the side from which the ray struck, and with it the normal: the
    /// outward normal where the ray came from outside, and its opposite where
    /// it came from inside.
    pub fn set_front_face(&mut self, front_face: bool, outward_normal: V) where
        V: Neg<Output = V>,

        requires
            !front_face ==> outward_normal.neg_req(),
        ensures
            final(self)@.front_face == front_face,
            final(self)@.p == old(self)@.p,
            final(self)@.t == old(self)@.t,
            front_face ==> final(self)@.normal == outward_normal,
            !front_face ==> call_ensures(V::neg, (outward_normal,), final(self)@.normal),
            !front_face && V::obeys_neg_spec() ==> final(self)@.normal == outward_normal.neg_spec(),
    {
        self.front_face = front_face;
        self.normal = if front_face {
            outward_normal
        } else {
            outward_normal.neg()
        };
    }

    /// Whether the ray struck the surface from outside.
    pub fn front_face(&self) -> (front: bool)
        ensures
            front == self@.front_face,
    {
        self.front_face
    }
}

impl<V: Default, S: Default> Default for HitRecord<V, S> {
    /// A record that is still to be filled in.
    fn default() -> (rec: Self)
        ensures
            !rec@.front_face,
    {
        HitRecord { p: V::default(), normal: V::default(), t: S::default(), front_face: false }
    }
}

/// The outcome of an intersection test: nothing was struck, or something was,
/// and then the material of what was struck comes with it.
pub enum HitResult<M> {
    Miss,
    Hit(M),
}

impl<M> HitResult<M> {
    /// Whether nothing was struck.
    #[must_use]
    pub fn is_miss(&self) -> (miss: bool)
        ensures
            miss == (*self is Miss),
    {
        match self {
            HitResult::Miss => true,
            HitResult::Hit(_) => false,
        }
    }

    /// Whether something was struck.
    #[must_use]
    pub fn is_hit(&self) -> (hit: bool)
        ensures
            hit == (*self is Hit),
    {
        match self {
            HitResult::Miss => false,
            HitResult::Hit(_) => true,
        }
    }

    /// The material of what was struck, if anything was.
    pub fn as_hit(&self) -> (material: Option<&M>)
        ensures
            material == (match *self {
                HitResult::Hit(m) => Some(&m),
                HitResult::Miss => None,
            }),
    {
        match self {
            HitResult::Hit(m) => Some(m),
            HitResult::Miss => None,
        }
    }
}

/// Whether the ray parameter `t` lies outside the range from `t_min` to
/// `t_max`, for a type whose comparisons follow its `partial_cmp_spec`.
pub open spec fn outside<T: PartialOrd>(t: T, t_min: T, t_max: T) -> bool {
    t.is_lt(&t_min) || t_max.is_lt(&t)
}

/// What `nearest_root` returns for a type whose comparisons follow its
/// `partial_cmp_spec`: the nearer root unless it lies outside the range, else
/// the farther one unless that lies outside too.
pub open spec fn nearest_of<T: PartialOrd>(near: T, far: T, t_min: T, t_max: T) -> Option<T> {
    if !outside(near, t_min, t_max) {
        Some(near)
    } else if !outside(far, t_min, t_max) {
        Some(far)
    } else {
        None
    }
}

/// Whether the ray parameter `t` lies outside the range from `t_min` to
/// `t_max`: below `t_min`, or else above `t_max`.
///
/// The first clause holds for every `T`, in terms of what its own `<`
/// answered; the second reads the answers off `partial_cmp_spec` where the type
/// follows it.
pub fn is_outside<T: PartialOrd>(t: &T, t_min: &T, t_max: &T) -> (out: bool)
    ensures
        exists|below: bool|
            {
                &&& #[trigger] call_ensures(T::lt, (t, t_min), below)
                &&& below ==> out
                &&& !below ==> call_ensures(T::lt, (t_max, t), out)
            },
        T::obeys_partial_cmp_spec() ==> out == outside(*t, *t_min, *t_max),
{
    *t < *t_min || *t_max < *t
}

/// Chooses between the two parameters at which a ray meets a closed surface:
/// the nearer one where it lies within the range from `t_min` to `t_max`,
/// else the farther one where that does, else none.
///
/// The first clause holds for every `T`, in terms of what `is_outside`
/// answered; the second reads the answers off `partial_cmp_spec` where the type
/// follows it.
pub fn nearest_root<T: PartialOrd>(near: T, far: T, t_min: T, t_max: T) -> (root: Option<T>)
    ensures
        exists|near_out: bool|
            {
                &&& #[trigger] call_ensures(is_outside::<T>, (&near, &t_min, &t_max), near_out)
                &&& !near_out ==> root == Some(near)
                &&& near_out ==> exists|far_out: bool|
                    {
                        &&& #[trigger] call_ensures(
                            is_outside::<T>,
                            (&far, &t_min, &t_max),
                            far_out,
                        )
                        &&& !far_out ==> root == Some(far)
                        &&& far_out ==> root == None::<T>
                    }
            },
        T::obeys_partial_cmp_spec() ==> root == nearest_of(near, far, t_min, t_max),
{
    if !is_outside(&near, &t_min, &t_max) {
        Some(near)
    } else if !is_outside(&far, &t_min, &t_max) {
        Some(far)
    } else {
        None
    }
}

/// The last hit among the answers that the surfaces of a scene gave in turn,
/// each answer being the ray parameter of a hit and what belongs to it, or
/// nothing for a miss.
pub open spec fn last_hit<S, P>(answers: Seq<Option<(S, P)>>) -> Option<(S, P)>
    decreases answers.len(),
{
    if answers.len() == 0 {
        None
    } else if answers.last() is Some {
        answers.last()
    } else {
        last_hit(answers.drop_last())
    }
}

/// The ray parameter of an answer that is a hit.
pub open spec fn parameter_of<S, P>(answer: Option<(S, P)>) -> S
    recommends
        answer is Some,
{
    let (t, _) = answer->0;
    t
}

/// How far along the ray the next surface is tried after the given answers: up
/// to the last hit, or up to `t_max` where there was none.
pub open spec fn limit_after<S, P>(t_max: S, answers: Seq<Option<(S, P)>>) -> S {
    if last_hit(answers) is Some {
        parameter_of(last_hit(answers))
    } else {
        t_max
    }
}

/// Whether `answers` holds, for each surface in turn, what `test` answered for
/// it when it was tried up to the limit that the answers before it had left.
pub open spec fn is_sweep<H, S, P, F: FnMut(&H, S) -> Option<(S, P)>>(
    test: F,
    objects: Seq<H>,
    t_max: S,
    answers: Seq<Option<(S, P)>>,
) -> bool {
    &&& answers.len() == objects.len()
    &&& forall|k: int|
        0 <= k < objects.len() ==> call_ensures(
            test,
            (&objects[k], limit_after(t_max, answers.take(k))),
            #[trigger] answers[k],
        )
}

/// The hit that is returned is that of the last surface struck: no surface
/// after it was struck, and without a hit no surface was struck at all.
pub proof fn lemma_last_hit_is_last<S, P>(answers: Seq<Option<(S, P)>>)
    ensures
        last_hit(answers) is None <==> forall|k: int|
            0 <= k < answers.len() ==> #[trigger] answers[k] is None,
        last_hit(answers) is Some ==> exists|k: int|
            {
                &&& 0 <= k < answers.len()
                &&& #[trigger] answers[k] == last_hit(answers)
                &&& forall|l: int| k < l < answers.len() ==> #[trigger] answers[l] is None
            },
    decreases answers.len(),
{
    if answers.len() > 0 {
        let front = answers.drop_last();
        lemma_last_hit_is_last(front);
        if answers.last() is Some {
            assert(answers[answers.len() - 1] == last_hit(answers));
        } else {
            assert forall|k: int| 0 <= k < front.len() implies (#[trigger] answers[k])
                == front[k] by {}
            if last_hit(front) is Some {
                let k = choose|k: int|
                    {
                        &&& 0 <= k < front.len()
                        &&& #[trigger] front[k] == last_hit(front)
                        &&& forall|l: int| k < l < front.len() ==> #[trigger] front[l] is None
                    };
                assert(answers[k] == last_hit(answers));
                assert forall|l: int| k < l < answers.len() implies #[trigger] answers[l]
                    is None by {
                    if l < front.len() {
                        assert(front[l] is None);
                    }
                }
            }
        }
    }
}

/// The reduction finds the nearest hit. Let `le` order the ray parameters, and
/// let every surface that was struck have been struck within the limit up to
/// which it was tried. Then the hit that is returned lies within `t_max`, and
/// no surface was struck nearer.
pub proof fn lemma_last_hit_is_nearest<S, P>(
    t_max: S,
    answers: Seq<Option<(S, P)>>,
    le: spec_fn(S, S) -> bool,
)
    requires
        forall|a: S| #[trigger] le(a, a),
        forall|a: S, b: S, c: S| #[trigger] le(a, b) && #[trigger] le(b, c) ==> le(a, c),
        forall|k: int|
            0 <= k < answers.len() && (#[trigger] answers[k]) is Some ==> le(
                parameter_of(answers[k]),
                limit_after(t_max, answers.take(k)),
            ),
    ensures
        le(limit_after(t_max, answers), t_max),
        forall|k: int|
            0 <= k < answers.len() && (#[trigger] answers[k]) is Some ==> le(
                limit_after(t_max, answers),
                parameter_of(answers[k]),
            ),
    decreases answers.len(),
{
    if answers.len() > 0 {
        let front = answers.drop_last();
        let n = answers.len() - 1;
        assert(answers.take(n) =~= front);
        assert forall|k: int| 0 <= k < front.len() && (#[trigger] front[k]) is Some implies le(
            parameter_of(front[k]),
            limit_after(t_max, front.take(k)),
        ) by {
            assert(front[k] == answers[k]);
            assert(front.take(k) =~= answers.take(k));
        }
        lemma_last_hit_is_nearest(t_max, front, le);
        assert forall|k: int| 0 <= k < answers.len() && (#[trigger] answers[k]) is Some implies le(
            limit_after(t_max, answers),
            parameter_of(answers[k]),
        ) by {
            if k < n {
                assert(front[k] == answers[k]);
            }
            if answers[n] is Some {
                assert(le(parameter_of(answers[n]), limit_after(t_max, front)));
            }
        }
        if answers[n] is Some {
            assert(le(parameter_of(answers[n]), limit_after(t_max, front)));
        }
    }
}

/// The surfaces of a scene, in the order in which they were added.
pub struct HittableList<H> {
    objects: Vec<H>,
}

impl<H> View for HittableList<H> {
    type V = Seq<H>;

    closed spec fn view(&self) -> Seq<H> {
        self.objects@
    }
}

impl<H> HittableList<H> {
    /// A scene of the given surfaces.
    pub fn new(objects: Vec<H>) -> (list: Self)
        ensures
            list@ == objects@,
    {
        HittableList { objects }
    }

    /// Removes every surface.
    pub fn clear(&mut self)
        ensures
            final(self)@ == Seq::<H>::empty(),
    {
        self.objects.clear();
    }

    /// Adds a surface behind those already there.
    pub fn add(&mut self, object: H)
        ensures
            final(self)@ == old(self)@.push(object),
    {
        self.objects.push(object)
    }

    /// The surfaces, in the order in which they were added.
    pub fn objects(&self) -> (objects: &Vec<H>)
        ensures
            objects@ == self@,
    {
        &self.objects
    }

    /// Tests the surfaces in the order in which they were added and returns the
    /// nearest hit.
    ///
    /// `test` tries one surface up to a given limit of the ray parameter; where
    /// the ray strikes, it answers with the parameter of the hit and whatever
    /// the caller wants to know of it. Each surface is tried up to the parameter
    /// of the last hit before it, so that a later hit is a nearer one, and the
    /// last hit is returned.
    pub fn nearest_hit<S: Copy, P, F: FnMut(&H, S) -> Option<(S, P)>>(
        &self,
        t_max: S,
        test: F,
    ) -> (found: Option<(S, P)>)
        requires
            forall|k: int, limit: S|
                0 <= k < self@.len() ==> call_requires(test, (&#[trigger] self@[k], limit)),
        ensures
            exists|answers: Seq<Option<(S, P)>>|
                #![trigger is_sweep(test, self@, t_max, answers)]
                is_sweep(test, self@, t_max, answers) && found == last_hit(answers),
    {
        let mut probe = test;
        let mut found: Option<(S, P)> = None;
        let mut limit = t_max;
        let ghost mut answers: Seq<Option<(S, P)>> = Seq::empty();
        let mut k: usize = 0;
        while k < self.objects.len()
            invariant
                probe == test,
                k <= self.objects@.len(),
                self.objects@ == self@,
                forall|k: int, limit: S|
                    0 <= k < self@.len() ==> call_requires(test, (&#[trigger] self@[k], limit)),
                answers.len() == k,
                forall|j: int|
                    0 <= j < k ==> call_ensures(
                        test,
                        (&self@[j], limit_after(t_max, answers.take(j))),
                        #[trigger] answers[j],
                    ),
                found == last_hit(answers),
                limit == limit_after(t_max, answers),
            decreases self.objects@.len() - k,
        {
            let answer = probe(&self.objects[k], limit);
            proof {
                let before = answers;
                answers = answers.push(answer);
                assert(answers.take(k as int) =~= before);
                assert(answers.drop_last() =~= before);
                assert forall|j: int| 0 <= j < k + 1 implies call_ensures(
                    test,
                    (&self@[j], limit_after(t_max, answers.take(j))),
                    #[trigger] answers[j],
                ) by {
                    if j < k {
                        assert(answers.take(j) =~= before.take(j));
                        assert(answers[j] == before[j]);
                    }
                }
            }
            match answer {
                Some((t, payload)) => {
                    limit = t;
                    found = Some((t, payload));
                },
                None => {},
            }
            k = k + 1;
        }
        proof {
            assert(is_sweep(test, self@, t_max, answers));
        }
        found
    }
}

impl<H> Default for HittableList<H> {
    /// The empty scene.
    fn default() -> (list: Self)
        ensures
            list@ == Seq::<H>::empty(),
    {
        HittableList { objects: Vec::new() }
    }
}

} // verus!
