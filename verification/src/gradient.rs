//! Gradients: ordered lists of color stops.
//!
//! A gradient is looked up by order alone. Its positions are binary64
//! numbers, given by their bits and compared by their keys. The lookup names
//! the stops to blend; the blend itself is the caller's arithmetic.

use vstd::prelude::*;
use vstd::seq_lib::{to_multiset_build, to_multiset_insert};
use crate::colorscheme::Color;
use crate::number::{
    clamp_unit, is_nan, is_nan_bits, key_of, key_of_bits, signed_magnitude, unit_key_of_bits, ONE,
    ZERO,
};

verus! {

/// Whether the positions of `stops` never decrease from left to right.
pub open spec fn sorted(stops: Seq<(u64, Color)>) -> bool {
    forall|i: int, j: int|
        0 <= i <= j < stops.len() ==> key_of(#[trigger] stops[i].0) <= key_of(
            #[trigger] stops[j].0,
        )
}

/// The test that a stop stands at the position of key `key`.
pub open spec fn has_key(key: u64) -> spec_fn((u64, Color)) -> bool {
    |s: (u64, Color)| key_of(s.0) == key
}

/// The stops of `stops` at the position of key `key`, in the order in which
/// they stand.
pub open spec fn with_key(stops: Seq<(u64, Color)>, key: u64) -> Seq<(u64, Color)> {
    stops.filter(has_key(key))
}

/// How many stops lie strictly below the position of key `t`.
pub open spec fn below(stops: Seq<(u64, Color)>, t: u64) -> nat
    decreases stops.len(),
{
    if stops.len() == 0 {
        0
    } else {
        below(stops.drop_last(), t) + if key_of(stops.last().0) < t {
            1nat
        } else {
            0nat
        }
    }
}

/// What a gradient gives at a position: one stop's color as it is, or the two
/// neighbouring stops between which the position lies, each with the bits of
/// its position.
#[derive(Debug, Clone, Copy, PartialEq, Eq)]
pub enum Shade {
    Solid(Color),
    Blend { from: (u64, Color), to: (u64, Color) },
}

/// The shade of sorted, non-empty `stops` at the position of key `t`: the
/// first stop's color at or below it, the last stop's color at or above it,
/// and otherwise the last stop below `t` together with the stop that follows
/// it.
pub open spec fn lookup(stops: Seq<(u64, Color)>, t: u64) -> Shade {
    if t <= key_of(stops[0].0) {
        Shade::Solid(stops[0].1)
    } else if t >= key_of(stops.last().0) {
        Shade::Solid(stops.last().1)
    } else {
        Shade::Blend { from: stops[below(stops, t) - 1], to: stops[below(stops, t) as int] }
    }
}

/// The shade of sorted `stops` at the position of bits `t`, held to the range
/// from zero to one. Without stops it is black. Where `t` is no number it is
/// the first stop's color.
pub open spec fn shade_at(stops: Seq<(u64, Color)>, t: u64) -> Shade {
    if stops.len() == 0 {
        Shade::Solid(Color::black())
    } else if is_nan(t) {
        Shade::Solid(stops[0].1)
    } else {
        lookup(stops, clamp_unit(key_of(t)))
    }
}

/// In sorted stops, no stop before index `i` reaches `t` and the stop at `i`
/// does: then exactly `i` stops lie below `t`.
proof fn lemma_below_is_index(stops: Seq<(u64, Color)>, t: u64, i: int)
    requires
        sorted(stops),
        0 <= i <= stops.len(),
        forall|j: int| 0 <= j < i ==> key_of(#[trigger] stops[j].0) < t,
        i < stops.len() ==> key_of(stops[i].0) >= t,
    ensures
        below(stops, t) == i,
    decreases stops.len(),
{
    if stops.len() > 0 {
        let rest = stops.drop_last();
        assert(sorted(rest)) by {
            assert forall|a: int, b: int| 0 <= a <= b < rest.len() implies key_of(
                #[trigger] rest[a].0,
            ) <= key_of(#[trigger] rest[b].0) by {
                assert(key_of(stops[a].0) <= key_of(stops[b].0));
            }
        }
        if i == stops.len() {
            lemma_below_is_index(rest, t, i - 1);
        } else {
            assert(key_of(stops[i].0) <= key_of(stops[stops.len() - 1].0));
            assert forall|j: int| 0 <= j < i implies key_of(#[trigger] rest[j].0) < t by {
                assert(key_of(stops[j].0) < t);
            }
            lemma_below_is_index(rest, t, i);
        }
    }
}

/// Some stop at or before index `k` reaches `t`: then there is a first such stop.
proof fn lemma_first_reaching(stops: Seq<(u64, Color)>, t: u64, k: int)
    requires
        0 <= k < stops.len(),
        key_of(stops[k].0) >= t,
    ensures
        exists|u: int|
            0 <= u < stops.len() && key_of(stops[u].0) >= t && forall|j: int|
                0 <= j < u ==> key_of(#[trigger] stops[j].0) < t,
    decreases k,
{
    if exists|m: int| 0 <= m < k && key_of(#[trigger] stops[m].0) >= t {
        let m = choose|m: int| 0 <= m < k && key_of(#[trigger] stops[m].0) >= t;
        lemma_first_reaching(stops, t, m);
    } else {
        assert(0 <= k < stops.len() && key_of(stops[k].0) >= t && forall|j: int|
            0 <= j < k ==> key_of(#[trigger] stops[j].0) < t);
    }
}

/// Between its first and last stop a sorted gradient blends two neighbours:
/// every stop up to `from` lies strictly below `t`, and `to` and every stop
/// after it lie at or above `t`. So the two stops of a blend never coincide.
pub proof fn lemma_blend_brackets(stops: Seq<(u64, Color)>, t: u64)
    requires
        sorted(stops),
        stops.len() > 0,
        key_of(stops[0].0) < t < key_of(stops.last().0),
    ensures
        1 <= below(stops, t) < stops.len(),
        lookup(stops, t) == (Shade::Blend {
            from: stops[below(stops, t) - 1],
            to: stops[below(stops, t) as int],
        }),
        forall|j: int| 0 <= j < below(stops, t) ==> key_of(#[trigger] stops[j].0) < t,
        forall|j: int| below(stops, t) <= j < stops.len() ==> t <= key_of(#[trigger] stops[j].0),
{
    lemma_first_reaching(stops, t, stops.len() as int - 1);
    let u = choose|u: int|
        0 <= u < stops.len() && key_of(stops[u].0) >= t && forall|j: int|
            0 <= j < u ==> key_of(#[trigger] stops[j].0) < t;
    lemma_below_is_index(stops, t, u);
    assert forall|j: int| u <= j < stops.len() implies t <= key_of(#[trigger] stops[j].0) by {
        assert(key_of(stops[u].0) <= key_of(stops[j].0));
    }
}

/// Flat ends. Let every stop of a sorted gradient stand between zero and
/// one. At zero the gradient shows its first stop's color. At one it shows
/// its last stop's color, unless the first stop already stands at one: then
/// the first stop's color is shown.
pub proof fn lemma_flat_ends(stops: Seq<(u64, Color)>)
    requires
        sorted(stops),
        stops.len() > 0,
        forall|i: int|
            0 <= i < stops.len() ==> key_of(ZERO) <= key_of(#[trigger] stops[i].0) <= key_of(ONE),
    ensures
        shade_at(stops, ZERO) == Shade::Solid(stops[0].1),
        key_of(stops[0].0) < key_of(ONE) ==> shade_at(stops, ONE) == Shade::Solid(stops.last().1),
        key_of(stops[0].0) == key_of(ONE) ==> shade_at(stops, ONE) == Shade::Solid(stops[0].1),
{
    assert(key_of(ZERO) <= key_of(stops[0].0) <= key_of(ONE));
    assert(key_of(stops[stops.len() - 1].0) <= key_of(ONE));
}

/// Outside the range from zero to one a gradient is as at the nearer end.
pub proof fn lemma_held_to_unit_range(stops: Seq<(u64, Color)>, t: u64)
    requires
        !is_nan(t),
    ensures
        signed_magnitude(t) <= signed_magnitude(ZERO) ==> shade_at(stops, t) == shade_at(
            stops,
            ZERO,
        ),
        signed_magnitude(t) >= signed_magnitude(ONE) ==> shade_at(stops, t) == shade_at(stops, ONE),
{
}

/// A sorted list without its last stop is sorted, and no stop of the list
/// lies above the last.
proof fn lemma_sorted_front(s: Seq<(u64, Color)>)
    requires
        sorted(s),
        s.len() > 0,
    ensures
        sorted(s.drop_last()),
        forall|j: int| 0 <= j < s.len() ==> key_of(#[trigger] s[j].0) <= key_of(s.last().0),
{
    let front = s.drop_last();
    assert forall|i: int, j: int| 0 <= i <= j < front.len() implies key_of(
        #[trigger] front[i].0,
    ) <= key_of(#[trigger] front[j].0) by {
        assert(key_of(s[i].0) <= key_of(s[j].0));
    }
    assert forall|j: int| 0 <= j < s.len() implies key_of(#[trigger] s[j].0) <= key_of(
        s.last().0,
    ) by {
        assert(key_of(s[j].0) <= key_of(s[s.len() - 1].0));
    }
}

/// The run of a key is the run in the list without its last stop, and that
/// last stop after it where it has the key.
proof fn lemma_last_run(s: Seq<(u64, Color)>, key: u64)
    requires
        s.len() > 0,
    ensures
        with_key(s, key) == if key == key_of(s.last().0) {
            with_key(s.drop_last(), key).push(s.last())
        } else {
            with_key(s.drop_last(), key)
        },
{
    assert(s =~= s.drop_last().push(s.last()));
    s.drop_last().lemma_filter_push(s.last(), has_key(key));
}

/// A key with a run has a stop in the list.
proof fn lemma_run_member(s: Seq<(u64, Color)>, key: u64) -> (j: int)
    requires
        with_key(s, key).len() > 0,
    ensures
        0 <= j < s.len(),
        key_of(s[j].0) == key,
{
    let e = with_key(s, key)[0];
    s.lemma_filter_pred(has_key(key), 0);
    assert(with_key(s, key).contains(e));
    s.lemma_filter_contains_rev(has_key(key), e);
    let j = choose|j: int| 0 <= j < s.len() && s[j] == e;
    j
}

/// A list without stops has no runs.
proof fn lemma_no_stops_no_runs(s: Seq<(u64, Color)>, key: u64)
    requires
        s.len() == 0,
    ensures
        with_key(s, key).len() == 0,
{
    s.lemma_filter_len(has_key(key));
}

/// The last stop of a sorted list has a key at least as large as every key
/// with a run.
proof fn lemma_last_key_bounds_runs(s: Seq<(u64, Color)>, key: u64)
    requires
        sorted(s),
        with_key(s, key).len() > 0,
    ensures
        s.len() > 0,
        key <= key_of(s.last().0),
{
    let j = lemma_run_member(s, key);
    lemma_sorted_front(s);
}

/// Ordering stops by position, equal positions in the order given, has one
/// outcome: two sorted lists with the same run for every key are the same
/// list.
pub proof fn lemma_order_is_unique(a: Seq<(u64, Color)>, b: Seq<(u64, Color)>)
    requires
        sorted(a),
        sorted(b),
        forall|key: u64| #[trigger] with_key(a, key) == with_key(b, key),
    ensures
        a == b,
    decreases a.len() + b.len(),
{
    if a.len() == 0 && b.len() == 0 {
        assert(a =~= b);
    } else if a.len() == 0 {
        let key = key_of(b.last().0);
        lemma_last_run(b, key);
        lemma_no_stops_no_runs(a, key);
        assert(with_key(a, key) == with_key(b, key));
    } else if b.len() == 0 {
        let key = key_of(a.last().0);
        lemma_last_run(a, key);
        lemma_no_stops_no_runs(b, key);
        assert(with_key(a, key) == with_key(b, key));
    } else {
        let ka = key_of(a.last().0);
        let kb = key_of(b.last().0);
        let front_a = a.drop_last();
        let front_b = b.drop_last();
        assert(ka == kb) by {
            lemma_last_run(a, ka);
            lemma_last_run(b, kb);
            assert(with_key(a, ka) == with_key(b, ka));
            assert(with_key(a, kb) == with_key(b, kb));
            lemma_last_key_bounds_runs(b, ka);
            lemma_last_key_bounds_runs(a, kb);
        }
        assert(a.last() == b.last() && with_key(front_a, ka) == with_key(front_b, ka)) by {
            lemma_last_run(a, ka);
            lemma_last_run(b, ka);
            assert(with_key(a, ka) == with_key(b, ka));
            let run_a = with_key(front_a, ka).push(a.last());
            let run_b = with_key(front_b, ka).push(b.last());
            assert(run_a == run_b);
            assert(a.last() == run_a.last());
            assert(b.last() == run_b.last());
            assert(with_key(front_a, ka) =~= run_a.drop_last());
            assert(with_key(front_b, ka) =~= run_b.drop_last());
        }
        assert forall|key: u64| #[trigger] with_key(front_a, key) == with_key(front_b, key) by {
            if key != ka {
                lemma_last_run(a, key);
                lemma_last_run(b, key);
                assert(with_key(a, key) == with_key(b, key));
            }
        }
        lemma_sorted_front(a);
        lemma_sorted_front(b);
        lemma_order_is_unique(front_a, front_b);
        assert(a =~= front_a.push(a.last()));
        assert(b =~= front_b.push(b.last()));
    }
}

/// Inserting `x` before a tail of larger keys leaves every run of equal keys
/// as appending `x` would.
proof fn lemma_insert_keeps_runs(s: Seq<(u64, Color)>, p: int, x: (u64, Color), key: u64)
    requires
        0 <= p <= s.len(),
        forall|q: int| p <= q < s.len() ==> key_of(#[trigger] s[q].0) > key_of(x.0),
    ensures
        with_key(s.insert(p, x), key) == with_key(s.push(x), key),
{
    let pred = has_key(key);
    let head = s.subrange(0, p);
    let tail = s.subrange(p, s.len() as int);
    assert(s =~= head + tail);
    assert(s.insert(p, x) =~= head.push(x) + tail);
    Seq::filter_distributes_over_add(head, tail, pred);
    Seq::filter_distributes_over_add(head.push(x), tail, pred);
    head.lemma_filter_push(x, pred);
    s.lemma_filter_push(x, pred);
    if key_of(x.0) == key {
        assert forall|i: int| 0 <= i < tail.len() implies !pred(#[trigger] tail[i]) by {
            assert(key_of(s[p + i].0) > key_of(x.0));
        }
        assert(tail.all(|e: (u64, Color)| !pred(e)));
        tail.lemma_all_neg_filter_empty(pred);
        assert(tail.filter(pred) =~= Seq::empty());
        assert(head.filter(pred) + tail.filter(pred) =~= head.filter(pred));
        assert(head.filter(pred).push(x) + tail.filter(pred) =~= head.filter(pred).push(x));
    }
}

/// An ordered list of color stops. Each stop is a position, given by its
/// bits, and the color there.
#[derive(Debug)]
pub struct Gradient {
    stops: Vec<(u64, Color)>,
}

impl View for Gradient {
    type V = Seq<(u64, Color)>;

    closed spec fn view(&self) -> Seq<(u64, Color)> {
        self.stops@
    }
}

impl Clone for Gradient {
    fn clone(&self) -> (copy: Self)
        ensures
            copy@ == self@,
    {
        proof {
            use_type_invariant(self);
        }
        let n = self.stops.len();
        let mut stops: Vec<(u64, Color)> = Vec::new();
        let mut i: usize = 0;
        while i < n
            invariant
                i <= n,
                n == self.stops@.len(),
                stops@ == self.stops@.take(i as int),
            decreases n - i,
        {
            stops.push(self.stops[i]);
            i += 1;
            assert(stops@ =~= self.stops@.take(i as int));
        }
        assert(stops@ =~= self.stops@);
        Gradient { stops }
    }
}

impl Gradient {
    #[verifier::type_invariant]
    spec fn ordered(&self) -> bool {
        sorted(self.stops@)
    }

    /// Orders `stops` by position. Stops that share a position keep the order
    /// in which they were given.
    pub fn new(stops: Vec<(u64, Color)>) -> (g: Self)
        ensures
            sorted(g@),
            forall|key: u64| with_key(g@, key) == with_key(stops@, key),
            g@.to_multiset() == stops@.to_multiset(),
            g@.len() == stops@.len(),
    {
        let mut ordered: Vec<(u64, Color)> = Vec::new();
        let n = stops.len();
        let mut i: usize = 0;
        assert(stops@.take(0) =~= ordered@);
        while i < n
            invariant
                i <= n,
                n == stops@.len(),
                ordered@.len() == i,
                sorted(ordered@),
                forall|key: u64| with_key(ordered@, key) == with_key(stops@.take(i as int), key),
                ordered@.to_multiset() == stops@.take(i as int).to_multiset(),
            decreases n - i,
        {
            let stop = stops[i];
            let key = key_of_bits(stop.0);
            let mut p: usize = ordered.len();
            while p > 0 && key_of_bits(ordered[p - 1].0) > key
                invariant
                    p <= ordered@.len(),
                    key == key_of(stop.0),
                    forall|q: int|
                        p <= q < ordered@.len() ==> key_of(#[trigger] ordered@[q].0) > key,
                decreases p,
            {
                p -= 1;
            }
            let ghost before = ordered@;
            ordered.insert(p, stop);
            proof {
                assert(stops@.take(i + 1) =~= stops@.take(i as int).push(stop));
                to_multiset_insert(before, p as int, stop);
                to_multiset_build(stops@.take(i as int), stop);
                assert forall|key: u64|
                    with_key(ordered@, key) == with_key(stops@.take(i + 1), key) by {
                    lemma_insert_keeps_runs(before, p as int, stop, key);
                    assert(with_key(before, key) == with_key(stops@.take(i as int), key));
                    let pred = has_key(key);
                    before.lemma_filter_push(stop, pred);
                    stops@.take(i as int).lemma_filter_push(stop, pred);
                }
                assert(sorted(ordered@)) by {
                    assert forall|a: int, b: int| 0 <= a <= b < ordered@.len() implies key_of(
                        #[trigger] ordered@[a].0,
                    ) <= key_of(#[trigger] ordered@[b].0) by {
                        let a0 = if a < p { a } else { a - 1 };
                        let b0 = if b < p { b } else { b - 1 };
                        if a != p && b != p {
                            assert(key_of(before[a0].0) <= key_of(before[b0].0));
                        } else if a == p && b != p {
                            assert(key_of(before[b0].0) > key_of(stop.0));
                        } else if a != p && b == p {
                            if p > 0 {
                                assert(key_of(before[a0].0) <= key_of(before[p - 1].0));
                            }
                        }
                    }
                }
            }
            i += 1;
        }
        assert(stops@.take(n as int) =~= stops@);
        Gradient { stops: ordered }
    }

    /// The stops, in ascending order of position.
    pub fn stops(&self) -> (stops: &Vec<(u64, Color)>)
        ensures
            stops@ == self@,
            sorted(stops@),
    {
        proof {
            use_type_invariant(self);
        }
        &self.stops
    }

    /// The shade at the position of bits `t`. A blend is always between two
    /// stops of different positions: `from` lies strictly below `t`, and
    /// `to` at or above it.
    pub fn get_color(&self, t: u64) -> (shade: Shade)
        ensures
            shade == shade_at(self@, t),
            shade matches Shade::Blend { from, to } ==> key_of(from.0) < clamp_unit(key_of(t))
                <= key_of(to.0),
    {
        proof {
            use_type_invariant(self);
        }
        let n = self.stops.len();
        if n == 0 {
            return Shade::Solid(Color::new(0, 0, 0));
        }
        if is_nan_bits(t) {
            return Shade::Solid(self.stops[0].1);
        }
        let t = unit_key_of_bits(t);
        if t <= key_of_bits(self.stops[0].0) {
            return Shade::Solid(self.stops[0].1);
        }
        if t >= key_of_bits(self.stops[n - 1].0) {
            return Shade::Solid(self.stops[n - 1].1);
        }
        let mut u: usize = 1;
        while key_of_bits(self.stops[u].0) < t
            invariant
                1 <= u < n,
                n == self.stops@.len(),
                sorted(self.stops@),
                t < key_of(self.stops@[n - 1].0),
                forall|j: int| 0 <= j < u ==> key_of(#[trigger] self.stops@[j].0) < t,
            decreases n - u,
        {
            assert(u + 1 < n) by {
                if u + 1 == n {
                    assert(key_of(self.stops@[u as int].0) < t);
                }
            }
            u += 1;
        }
        proof {
            lemma_below_is_index(self.stops@, t, u as int);
        }
        Shade::Blend { from: self.stops[u - 1], to: self.stops[u] }
    }
}

} // verus!
