//! The nearest hit.
//!
//! The aggregates ask their members and keep what is nearer. What they keep
//! is the nearest hit of all as soon as every member answers as a surface
//! does: with its one nearest crossing beyond the lower bound wherever that
//! lies below the upper bound it is asked about, and with nothing else. This
//! module says what that means and proves what follows for the list.
use vstd::prelude::*;
use crate::hitable::{answers, is_sweep, is_sweep_step, closest_so_far, last_hit, HitRecord, Hitable, HitableList};
use crate::ray::Ray3;
use crate::scalar::Scalar;

verus! {

/// A ray parameter where it is a number below `t_max`, nothing else.
pub open spec fn below(t: Option<Scalar>, t_max: Scalar) -> Option<Scalar> {
    match t {
        Some(x) => if x@ < t_max@ {
            t
        } else {
            None
        },
        None => None,
    }
}

/// What is left of a nearest crossing when only hits below `t_max` count.
pub open spec fn cut<M>(nearest: Option<HitRecord<M>>, t_max: Scalar) -> Option<HitRecord<M>> {
    match nearest {
        Some(c) => if c.t@ < t_max@ {
            nearest
        } else {
            None
        },
        None => None,
    }
}

/// Whether `h` answers as a surface does whose nearest crossing with `r`
/// beyond `t_min` is `nearest`: with that crossing where it lies below the
/// upper bound that was asked for, and with nothing else.
pub open spec fn exact<H: Hitable>(
    h: H,
    r: Ray3,
    t_min: Scalar,
    nearest: Option<HitRecord<H::Material>>,
) -> bool {
    forall|t_max: Scalar, out: Option<HitRecord<H::Material>>| #[trigger]
        answers(h, r, t_min, t_max, out) ==> out == cut(nearest, t_max)
}

/// The smaller of two parameters of which either may be missing.
pub open spec fn lesser(a: Option<int>, b: Option<int>) -> Option<int> {
    match (a, b) {
        (Some(x), Some(y)) => Some(if y < x {
            y
        } else {
            x
        }),
        (Some(_), None) => a,
        _ => b,
    }
}

/// The parameter of an answer.
pub open spec fn parameter<M>(rec: Option<HitRecord<M>>) -> Option<int> {
    match rec {
        Some(h) => Some(h.t@),
        None => None,
    }
}

/// The least parameter below `t_max` among a run of crossings.
pub open spec fn least<M>(crossings: Seq<Option<HitRecord<M>>>, t_max: Scalar) -> Option<int>
    decreases crossings.len(),
{
    if crossings.len() == 0 {
        None
    } else {
        lesser(least(crossings.drop_last(), t_max), parameter(cut(crossings.last(), t_max)))
    }
}

/// `least` is the minimum: it is the parameter of one of the crossings below
/// `t_max` and no greater than that of any other; and it is missing exactly
/// where no crossing lies below `t_max`.
pub proof fn lemma_least_is_minimum<M>(crossings: Seq<Option<HitRecord<M>>>, t_max: Scalar)
    ensures
        least(crossings, t_max) matches Some(m) ==> m < t_max@ && exists|i: int|
            0 <= i < crossings.len() && parameter(#[trigger] crossings[i]) == Some(m),
        forall|i: int|
            0 <= i < crossings.len() ==> (parameter(cut(#[trigger] crossings[i], t_max))
                matches Some(t) ==> least(crossings, t_max) matches Some(m) && m <= t),
    decreases crossings.len(),
{
    if crossings.len() > 0 {
        let rest = crossings.drop_last();
        lemma_least_is_minimum(rest, t_max);
        if least(crossings, t_max) is Some {
            let m = least(crossings, t_max)->0;
            if parameter(cut(crossings.last(), t_max)) == Some(m) {
                assert(parameter(crossings[crossings.len() - 1]) == Some(m));
            } else {
                let i = choose|i: int| 0 <= i < rest.len() && parameter(#[trigger] rest[i]) == Some(m);
                assert(parameter(crossings[i]) == Some(m));
            }
        }
        assert forall|i: int| 0 <= i < crossings.len() implies (parameter(
            cut(#[trigger] crossings[i], t_max),
        ) matches Some(t) ==> least(crossings, t_max) matches Some(m) && m <= t) by {
            if i < rest.len() {
                assert(rest[i] == crossings[i]);
            }
        }
    }
}

/// The least parameter does not depend on the order of the crossings.
pub proof fn lemma_least_of_rearranged<M>(
    a: Seq<Option<HitRecord<M>>>,
    b: Seq<Option<HitRecord<M>>>,
    t_max: Scalar,
)
    requires
        a.to_multiset() == b.to_multiset(),
    ensures
        least(a, t_max) == least(b, t_max),
{
    broadcast use vstd::seq_lib::to_multiset_contains;

    assert forall|c: Option<HitRecord<M>>| a.contains(c) <==> b.contains(c) by {
        assert(a.contains(c) <==> a.to_multiset().count(c) > 0);
        assert(b.contains(c) <==> b.to_multiset().count(c) > 0);
    }
    lemma_least_among(a, b, t_max);
    lemma_least_among(b, a, t_max);
}

/// Where every crossing of one run occurs in another, the least parameter of
/// the other is no greater, and is there wherever that of the first is.
pub proof fn lemma_least_among<M>(
    part: Seq<Option<HitRecord<M>>>,
    whole: Seq<Option<HitRecord<M>>>,
    t_max: Scalar,
)
    requires
        forall|c: Option<HitRecord<M>>| part.contains(c) ==> whole.contains(c),
    ensures
        least(part, t_max) matches Some(m) ==> least(whole, t_max) matches Some(w) && w <= m,
{
    lemma_least_is_minimum(part, t_max);
    lemma_least_is_minimum(whole, t_max);
    if least(part, t_max) is Some {
        let m = least(part, t_max)->0;
        let i = choose|i: int| 0 <= i < part.len() && parameter(#[trigger] part[i]) == Some(m);
        assert(part.contains(part[i]));
        assert(whole.contains(part[i]));
        let j = choose|j: int| 0 <= j < whole.len() && whole[j] == part[i];
        assert(parameter(cut(whole[j], t_max)) == Some(m));
    }
}

/// The least parameter among two runs of crossings is the lesser of the two
/// least parameters.
pub proof fn lemma_least_of_both<M>(
    a: Seq<Option<HitRecord<M>>>,
    b: Seq<Option<HitRecord<M>>>,
    t_max: Scalar,
)
    ensures
        least(a + b, t_max) == lesser(least(a, t_max), least(b, t_max)),
    decreases b.len(),
{
    if b.len() == 0 {
        assert(a + b == a);
    } else {
        assert((a + b).drop_last() == a + b.drop_last());
        assert((a + b).last() == b.last());
        lemma_least_of_both(a, b.drop_last(), t_max);
    }
}

/// The nearest of a run of crossings: the first among those with the least
/// parameter.
pub open spec fn nearest_of<M>(crossings: Seq<Option<HitRecord<M>>>) -> Option<HitRecord<M>>
    decreases crossings.len(),
{
    if crossings.len() == 0 {
        None
    } else {
        match (nearest_of(crossings.drop_last()), crossings.last()) {
            (Some(p), Some(c)) => if c.t@ < p.t@ {
                Some(c)
            } else {
                Some(p)
            },
            (Some(p), None) => Some(p),
            (None, last) => last,
        }
    }
}

/// The sweep returns the nearest crossing: where every member answers as a
/// surface with one nearest crossing, the sweep returns the first among the
/// crossings with the least parameter, if that lies below `t_max`, and
/// nothing else.
pub proof fn lemma_sweep_finds_nearest<H: Hitable>(
    members: Seq<H>,
    r: Ray3,
    t_min: Scalar,
    t_max: Scalar,
    outcomes: Seq<Option<HitRecord<H::Material>>>,
    crossings: Seq<Option<HitRecord<H::Material>>>,
)
    requires
        is_sweep(members, r, t_min, t_max, outcomes),
        crossings.len() == members.len(),
        forall|i: int| 0 <= i < members.len() ==> exact(members[i], r, t_min, #[trigger] crossings[i]),
    ensures
        last_hit(outcomes) == cut(nearest_of(crossings), t_max),
{
    lemma_sweep_prefix_finds_nearest(
        members,
        r,
        t_min,
        t_max,
        outcomes,
        crossings,
        outcomes.len() as int,
    );
    assert(outcomes.take(outcomes.len() as int) == outcomes);
    assert(crossings.take(outcomes.len() as int) == crossings);
}

/// The sweep has found the nearest crossing among the members it has asked.
proof fn lemma_sweep_prefix_finds_nearest<H: Hitable>(
    members: Seq<H>,
    r: Ray3,
    t_min: Scalar,
    t_max: Scalar,
    outcomes: Seq<Option<HitRecord<H::Material>>>,
    crossings: Seq<Option<HitRecord<H::Material>>>,
    n: int,
)
    requires
        is_sweep(members, r, t_min, t_max, outcomes),
        crossings.len() == members.len(),
        forall|i: int| 0 <= i < members.len() ==> exact(members[i], r, t_min, #[trigger] crossings[i]),
        0 <= n <= members.len(),
    ensures
        last_hit(outcomes.take(n)) == cut(nearest_of(crossings.take(n)), t_max),
    decreases n,
{
    if n > 0 {
        lemma_sweep_prefix_finds_nearest(members, r, t_min, t_max, outcomes, crossings, n - 1);
        let before = outcomes.take(n - 1);
        assert(outcomes.take(n).drop_last() == before);
        assert(outcomes.take(n).last() == outcomes[n - 1]);
        assert(crossings.take(n).drop_last() == crossings.take(n - 1));
        assert(crossings.take(n).last() == crossings[n - 1]);
        let bound = closest_so_far(before, t_max);
        assert(is_sweep_step(members, r, t_min, t_max, outcomes, n - 1));
        assert(answers(members[n - 1], r, t_min, bound, outcomes[n - 1]));
        assert(exact(members[n - 1], r, t_min, crossings[n - 1]));
        assert(outcomes[n - 1] == cut(crossings[n - 1], bound));
    }
}

/// A list of surfaces is a surface: where every member answers as a surface
/// with one nearest crossing, so does the list, and its nearest crossing is
/// the nearest of theirs.
pub proof fn lemma_list_is_exact<H: Hitable>(
    list: HitableList<H>,
    r: Ray3,
    t_min: Scalar,
    crossings: Seq<Option<HitRecord<H::Material>>>,
)
    requires
        crossings.len() == list@.len(),
        forall|i: int| 0 <= i < list@.len() ==> exact(list@[i], r, t_min, #[trigger] crossings[i]),
    ensures
        exact(list, r, t_min, nearest_of(crossings)),
{
    assert forall|t_max: Scalar, out: Option<HitRecord<H::Material>>| #[trigger]
        answers(list, r, t_min, t_max, out) implies out == cut(nearest_of(crossings), t_max) by {
        let outcomes = choose|outcomes: Seq<Option<HitRecord<H::Material>>>| #[trigger]
            is_sweep(list@, r, t_min, t_max, outcomes) && out == last_hit(outcomes);
        lemma_sweep_finds_nearest(list@, r, t_min, t_max, outcomes, crossings);
    }
}

/// The parameter of the nearest crossing, where it lies below `t_max`, is the
/// least parameter below `t_max`.
pub proof fn lemma_nearest_has_least_parameter<M>(
    crossings: Seq<Option<HitRecord<M>>>,
    t_max: Scalar,
)
    ensures
        parameter(cut(nearest_of(crossings), t_max)) == least(crossings, t_max),
    decreases crossings.len(),
{
    if crossings.len() > 0 {
        lemma_nearest_has_least_parameter(crossings.drop_last(), t_max);
    }
}

/// The sweep finds the least parameter: where every member answers as a
/// surface with one nearest crossing, the sweep returns a hit at the least
/// parameter below `t_max` among those crossings, and nothing where there is
/// none.
pub proof fn lemma_sweep_finds_least<H: Hitable>(
    members: Seq<H>,
    r: Ray3,
    t_min: Scalar,
    t_max: Scalar,
    outcomes: Seq<Option<HitRecord<H::Material>>>,
    crossings: Seq<Option<HitRecord<H::Material>>>,
)
    requires
        is_sweep(members, r, t_min, t_max, outcomes),
        crossings.len() == members.len(),
        forall|i: int| 0 <= i < members.len() ==> exact(members[i], r, t_min, #[trigger] crossings[i]),
    ensures
        parameter(last_hit(outcomes)) == least(crossings, t_max),
{
    lemma_sweep_finds_nearest(members, r, t_min, t_max, outcomes, crossings);
    lemma_nearest_has_least_parameter(crossings, t_max);
}

/// The order of the members does not change how near the sweep's hit is:
/// two sweeps over the same surfaces in different orders return hits at the
/// same parameter, or both nothing.
pub proof fn lemma_sweep_in_any_order<H: Hitable>(
    r: Ray3,
    t_min: Scalar,
    t_max: Scalar,
    members: Seq<H>,
    outcomes: Seq<Option<HitRecord<H::Material>>>,
    crossings: Seq<Option<HitRecord<H::Material>>>,
    rearranged_members: Seq<H>,
    rearranged_outcomes: Seq<Option<HitRecord<H::Material>>>,
    rearranged_crossings: Seq<Option<HitRecord<H::Material>>>,
)
    requires
        is_sweep(members, r, t_min, t_max, outcomes),
        crossings.len() == members.len(),
        forall|i: int| 0 <= i < members.len() ==> exact(members[i], r, t_min, #[trigger] crossings[i]),
        is_sweep(rearranged_members, r, t_min, t_max, rearranged_outcomes),
        rearranged_crossings.len() == rearranged_members.len(),
        forall|i: int|
            0 <= i < rearranged_members.len() ==> exact(
                rearranged_members[i],
                r,
                t_min,
                #[trigger] rearranged_crossings[i],
            ),
        crossings.to_multiset() == rearranged_crossings.to_multiset(),
    ensures
        parameter(last_hit(outcomes)) == parameter(last_hit(rearranged_outcomes)),
{
    lemma_sweep_finds_least(members, r, t_min, t_max, outcomes, crossings);
    lemma_sweep_finds_least(
        rearranged_members,
        r,
        t_min,
        t_max,
        rearranged_outcomes,
        rearranged_crossings,
    );
    lemma_least_of_rearranged(crossings, rearranged_crossings, t_max);
}

} // verus!
