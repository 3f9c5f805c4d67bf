//! Id-mapping plans: the ordered `(inner, outer, count)` triples handed to
//! the privileged id-mapping helper to populate a child namespace's uid or
//! gid map.
//!
//! The plan maps the invoking user's own id to itself (the identity triple)
//! and every other inner id, in order, to a distinct outer id drawn from the
//! user's delegated ranges.

use vstd::prelude::*;
use crate::subid::IdRange;
use crate::strutil::{spec_decimal, u32_to_string};

verus! {

/// Whether a plan populates the uid map or the gid map.
#[derive(Clone, Copy, PartialEq, Eq, Structural, Debug)]
pub enum MappingKind {
    Uid,
    Gid,
}

/// One entry of an id map: `count` consecutive ids starting at `inner`
/// inside the namespace map to `count` consecutive ids starting at `outer`
/// outside it.
#[derive(Clone, Copy, PartialEq, Eq, Structural, Debug)]
pub struct MapTriple {
    pub inner: u32,
    pub outer: u32,
    pub count: u32,
}

/// The triple as mathematical integers.
pub open spec fn triple_view(t: MapTriple) -> (int, int, int) {
    (t.inner as int, t.outer as int, t.count as int)
}

/// The plan as mathematical integers.
pub open spec fn plan_view(p: Seq<MapTriple>) -> Seq<(int, int, int)> {
    p.map_values(|t: MapTriple| triple_view(t))
}

/// The number of ids delegated by a list of ranges.
pub open spec fn total_count(rs: Seq<IdRange>) -> int
    decreases rs.len(),
{
    if rs.len() == 0 {
        0
    } else {
        rs[0].count + total_count(rs.drop_first())
    }
}

pub proof fn lemma_total_nonneg(rs: Seq<IdRange>)
    ensures
        total_count(rs) >= 0,
    decreases rs.len(),
{
    if rs.len() > 0 {
        lemma_total_nonneg(rs.drop_first());
    }
}

/// Ranges emitted verbatim after the straddling range: inner ids continue
/// from `c`, outer ids are the ranges' own.
pub open spec fn spec_plan_rest(rs: Seq<IdRange>, c: int) -> Seq<(int, int, int)>
    decreases rs.len(),
{
    if rs.len() == 0 {
        Seq::empty()
    } else {
        seq![(c, rs[0].lower as int, rs[0].count as int)] + spec_plan_rest(
            rs.drop_first(),
            c + rs[0].count,
        )
    }
}

/// The construction walk: inner ids accumulate from `c`; each range is
/// emitted whole while it stays below the user's id `u`; the first range
/// that straddles `u` is split around the identity triple `(u, u, 1)`, and
/// the remaining ranges follow with the inner counter advanced past the
/// identity; if no range straddles `u`, the walk ends with the identity
/// triple alone.
pub open spec fn spec_plan_walk(rs: Seq<IdRange>, c: int, u: int) -> Seq<(int, int, int)>
    decreases rs.len(),
{
    if rs.len() == 0 {
        seq![(u, u, 1)]
    } else {
        let lower = rs[0].lower as int;
        let count = rs[0].count as int;
        if c + count <= u {
            seq![(c, lower, count)] + spec_plan_walk(rs.drop_first(), c + count, u)
        } else {
            let fst = u - c;
            (if fst > 0 {
                seq![(c, lower, fst)]
            } else {
                Seq::empty()
            }) + seq![(u, u, 1), (u + 1, lower + fst, count - fst)] + spec_plan_rest(
                rs.drop_first(),
                c + count + 1,
            )
        }
    }
}

/// The id-mapping plan for the given delegated ranges and invoking id.
pub open spec fn spec_mapping_plan(rs: Seq<IdRange>, u: u32) -> Seq<(int, int, int)> {
    spec_plan_walk(rs, 0, u as int)
}

/// No range's end overflows, and the delegated total leaves room for the
/// identity triple's inner id.
pub open spec fn plan_input_bounded(rs: Seq<IdRange>) -> bool {
    &&& forall|k: int|
        0 <= k < rs.len() ==> (#[trigger] rs[k]).lower + rs[k].count <= u32::MAX
    &&& total_count(rs) + 1 <= u32::MAX
}

/// Builds the id-mapping plan for the given delegated ranges and invoking
/// uid or gid, per the construction walk.
pub fn build_mapping_plan(ranges: &Vec<IdRange>, id: u32) -> (plan: Vec<MapTriple>)
    requires
        plan_input_bounded(ranges@),
    ensures
        plan_view(plan@) == spec_mapping_plan(ranges@, id),
{
    broadcast use vstd::prelude::Seq::lemma_push_map_commute;

    let n = ranges.len();
    let ghost u = id as int;
    let mut plan: Vec<MapTriple> = Vec::new();
    let mut counter: u32 = 0;
    let mut i: usize = 0;
    proof {
        assert(ranges@.subrange(0, n as int) =~= ranges@);
    }
    while i < n && (counter as u64) + (ranges[i].count as u64) <= (id as u64)
        invariant
            i <= n,
            n == ranges@.len(),
            u == id as int,
            plan_input_bounded(ranges@),
            counter <= id,
            counter as int + total_count(ranges@.subrange(i as int, n as int)) == total_count(
                ranges@,
            ),
            spec_plan_walk(ranges@, 0, id as int) == plan_view(plan@) + spec_plan_walk(
                ranges@.subrange(i as int, n as int),
                counter as int,
                id as int,
            ),
        decreases n - i,
    {
        let r = ranges[i];
        let ghost suffix = ranges@.subrange(i as int, n as int);
        proof {
            assert(suffix[0] == ranges@[i as int]);
            assert(suffix.drop_first() =~= ranges@.subrange(i + 1, n as int));
            lemma_total_nonneg(suffix.drop_first());
        }
        let ghost prev_plan = plan@;
        plan.push(MapTriple { inner: counter, outer: r.lower, count: r.count });
        proof {
            assert(plan_view(plan@) =~= plan_view(prev_plan).push(triple_view(
                MapTriple { inner: counter, outer: r.lower, count: r.count },
            )));
            assert(counter as int + suffix[0].count <= u);
            assert(spec_plan_walk(suffix, counter as int, u) =~= seq![
                (counter as int, r.lower as int, r.count as int),
            ] + spec_plan_walk(suffix.drop_first(), counter as int + r.count, u));
            assert(plan_view(prev_plan) + spec_plan_walk(suffix, counter as int, u) =~= plan_view(
                plan@,
            ) + spec_plan_walk(suffix.drop_first(), counter as int + r.count, u));
        }
        counter = counter + r.count;
        i = i + 1;
    }
    if i < n {
        // the first range whose ids straddle the invoking id
        let r = ranges[i];
        let ghost suffix = ranges@.subrange(i as int, n as int);
        proof {
            assert(suffix[0] == ranges@[i as int]);
            assert(suffix.drop_first() =~= ranges@.subrange(i + 1, n as int));
            lemma_total_nonneg(suffix.drop_first());
        }
        let fst = id - counter;
        let ghost prev_plan = plan@;
        let ghost head: Seq<(int, int, int)> = if fst > 0 {
            seq![(counter as int, r.lower as int, fst as int)]
        } else {
            Seq::empty()
        };
        let ghost mid: Seq<(int, int, int)> = seq![
            (u, u, 1),
            (u + 1, r.lower + fst, r.count - fst),
        ];
        proof {
            assert(spec_plan_walk(suffix, counter as int, u) == head + mid + spec_plan_rest(
                suffix.drop_first(),
                counter as int + r.count + 1,
            ));
        }
        if fst > 0 {
            plan.push(MapTriple { inner: counter, outer: r.lower, count: fst });
        }
        plan.push(MapTriple { inner: id, outer: id, count: 1 });
        plan.push(MapTriple { inner: id + 1, outer: r.lower + fst, count: r.count - fst });
        proof {
            assert(plan_view(plan@) =~= plan_view(prev_plan) + head + mid);
            assert(plan_view(prev_plan) + (head + mid + spec_plan_rest(
                ranges@.subrange(i + 1, n as int),
                counter as int + r.count + 1,
            )) =~= (plan_view(prev_plan) + head + mid) + spec_plan_rest(
                ranges@.subrange(i + 1, n as int),
                counter as int + r.count + 1,
            ));
        }
        let mut c2: u32 = counter + r.count + 1;
        let mut i2: usize = i + 1;
        while i2 < n
            invariant
                i < i2 <= n,
                n == ranges@.len(),
                plan_input_bounded(ranges@),
                c2 as int + total_count(ranges@.subrange(i2 as int, n as int)) == total_count(
                    ranges@,
                ) + 1,
                spec_plan_walk(ranges@, 0, u) == plan_view(plan@) + spec_plan_rest(
                    ranges@.subrange(i2 as int, n as int),
                    c2 as int,
                ),
                u == id as int,
            decreases n - i2,
        {
            let r2 = ranges[i2];
            let ghost sfx = ranges@.subrange(i2 as int, n as int);
            proof {
                assert(sfx[0] == ranges@[i2 as int]);
                assert(sfx.drop_first() =~= ranges@.subrange(i2 + 1, n as int));
                lemma_total_nonneg(sfx.drop_first());
            }
            let ghost prev2 = plan@;
            plan.push(MapTriple { inner: c2, outer: r2.lower, count: r2.count });
            proof {
                assert(plan_view(plan@) =~= plan_view(prev2).push(triple_view(
                    MapTriple { inner: c2, outer: r2.lower, count: r2.count },
                )));
                assert(spec_plan_rest(sfx, c2 as int) == seq![
                    (c2 as int, r2.lower as int, r2.count as int),
                ] + spec_plan_rest(sfx.drop_first(), c2 as int + r2.count));
                assert(plan_view(prev2) + spec_plan_rest(sfx, c2 as int) =~= plan_view(plan@)
                    + spec_plan_rest(sfx.drop_first(), c2 as int + r2.count));
            }
            c2 = c2 + r2.count;
            i2 = i2 + 1;
        }
        proof {
            assert(ranges@.subrange(n as int, n as int) =~= Seq::<IdRange>::empty());
            assert(spec_plan_rest(Seq::empty(), c2 as int) == Seq::<(int, int, int)>::empty());
            assert(plan_view(plan@) + Seq::<(int, int, int)>::empty() =~= plan_view(plan@));
        }
    } else {
        let ghost prev_plan = plan@;
        plan.push(MapTriple { inner: id, outer: id, count: 1 });
        proof {
            assert(ranges@.subrange(n as int, n as int) =~= Seq::<IdRange>::empty());
            assert(spec_plan_walk(Seq::empty(), counter as int, u) == seq![(u, u, 1int)]);
            assert(plan_view(plan@) =~= plan_view(prev_plan).push((u, u, 1int)));
            assert(plan_view(prev_plan) + seq![(u, u, 1int)] =~= plan_view(plan@));
        }
    }
    plan
}

/// Validated entry to the plan builder: checks the machine bounds the
/// builder relies on and returns no plan when they fail.
pub fn mapping_plan_checked(ranges: &Vec<IdRange>, id: u32) -> (r: Option<Vec<MapTriple>>)
    ensures
        r is Some <==> plan_input_bounded(ranges@),
        (r matches Some(p) ==> plan_view(p@) == spec_mapping_plan(ranges@, id)),
{
    let n = ranges.len();
    let mut acc: u64 = 0;
    let mut i: usize = 0;
    proof {
        assert(ranges@.subrange(0, n as int) =~= ranges@);
    }
    while i < n
        invariant
            i <= n,
            n == ranges@.len(),
            acc as int + total_count(ranges@.subrange(i as int, n as int)) == total_count(
                ranges@,
            ),
            acc <= 0xffff_fffeu64,
            forall|k: int|
                0 <= k < i ==> (#[trigger] ranges@[k]).lower + ranges@[k].count <= u32::MAX,
        decreases n - i,
    {
        let r = ranges[i];
        let ghost suffix = ranges@.subrange(i as int, n as int);
        proof {
            assert(suffix[0] == ranges@[i as int]);
            assert(suffix.drop_first() =~= ranges@.subrange(i + 1, n as int));
            lemma_total_nonneg(suffix.drop_first());
        }
        if (r.lower as u64) + (r.count as u64) > 0xffff_ffffu64 {
            return None;
        }
        let next = acc + (r.count as u64);
        if next > 0xffff_fffeu64 {
            return None;
        }
        acc = next;
        i = i + 1;
    }
    Some(build_mapping_plan(ranges, id))
}

/// The argument vector for the id-mapping helper: the child's pid followed
/// by each plan triple's inner id, outer id and count, all in decimal.
pub fn mapping_helper_args(pid: u32, plan: &Vec<MapTriple>) -> (args: Vec<String>)
    ensures
        args@.len() == 1 + 3 * plan@.len(),
        args@[0]@ == spec_decimal(pid as nat),
        forall|k: int|
            0 <= k < plan@.len() ==> {
                &&& (#[trigger] args@[1 + 3 * k])@ == spec_decimal(plan@[k].inner as nat)
                &&& args@[2 + 3 * k]@ == spec_decimal(plan@[k].outer as nat)
                &&& args@[3 + 3 * k]@ == spec_decimal(plan@[k].count as nat)
            },
{
    let mut args: Vec<String> = Vec::new();
    args.push(u32_to_string(pid));
    let mut i: usize = 0;
    while i < plan.len()
        invariant
            i <= plan.len(),
            args@.len() == 1 + 3 * i,
            args@[0]@ == spec_decimal(pid as nat),
            forall|k: int|
                0 <= k < i ==> {
                    &&& (#[trigger] args@[1 + 3 * k])@ == spec_decimal(plan@[k].inner as nat)
                    &&& args@[2 + 3 * k]@ == spec_decimal(plan@[k].outer as nat)
                    &&& args@[3 + 3 * k]@ == spec_decimal(plan@[k].count as nat)
                },
        decreases plan.len() - i,
    {
        let t = plan[i];
        let ghost prev_args = args@;
        args.push(u32_to_string(t.inner));
        args.push(u32_to_string(t.outer));
        args.push(u32_to_string(t.count));
        proof {
            assert(args@.len() == prev_args.len() + 3);
            assert(forall|m: int| 0 <= m < prev_args.len() ==> #[trigger] args@[m] == prev_args[m]);
            assert(args@[1 + 3 * (i as int)]@ == spec_decimal(plan@[i as int].inner as nat));
            assert(args@[2 + 3 * (i as int)]@ == spec_decimal(plan@[i as int].outer as nat));
            assert(args@[3 + 3 * (i as int)]@ == spec_decimal(plan@[i as int].count as nat));
        }
        i = i + 1;
    }
    args
}

/// Inner ids tile consecutively from `c`: each triple starts where the
/// previous one ended.
pub open spec fn inners_contiguous_from(p: Seq<(int, int, int)>, c: int) -> bool
    decreases p.len(),
{
    if p.len() == 0 {
        true
    } else {
        p[0].0 == c && inners_contiguous_from(p.drop_first(), c + p[0].2)
    }
}

/// The number of inner ids a plan maps.
pub open spec fn plan_width(p: Seq<(int, int, int)>) -> int
    decreases p.len(),
{
    if p.len() == 0 {
        0
    } else {
        p[0].2 + plan_width(p.drop_first())
    }
}

/// Every triple maps at least one id.
pub open spec fn counts_positive(p: Seq<(int, int, int)>) -> bool {
    forall|k: int| 0 <= k < p.len() ==> (#[trigger] p[k]).2 > 0
}

/// Every range delegates at least one id.
pub open spec fn ranges_counts_positive(rs: Seq<IdRange>) -> bool {
    forall|k: int| 0 <= k < rs.len() ==> (#[trigger] rs[k]).count > 0
}

/// Sorted ranges with no id delegated twice.
pub open spec fn ranges_non_overlapping(rs: Seq<IdRange>) -> bool {
    forall|i: int, j: int|
        0 <= i < j < rs.len() ==> (#[trigger] rs[i]).lower + rs[i].count <= (
        #[trigger] rs[j]).lower
}

/// The id `u` lies in none of the delegated ranges.
pub open spec fn id_outside_ranges(rs: Seq<IdRange>, u: int) -> bool {
    forall|m: int|
        0 <= m < rs.len() ==> !((#[trigger] rs[m]).lower <= u < rs[m].lower + rs[m].count)
}

/// The triple is the identity triple of `u`, or its outer interval lies
/// within one of the delegated ranges.
pub open spec fn outer_within(t: (int, int, int), rs: Seq<IdRange>, u: int) -> bool {
    (t.1 == u && t.2 == 1) || exists|m: int|
        0 <= m < rs.len() && (#[trigger] rs[m]).lower <= t.1 && t.1 + t.2 <= rs[m].lower
            + rs[m].count
}

/// No outer id is used by two triples.
pub open spec fn outers_disjoint(p: Seq<(int, int, int)>) -> bool {
    forall|i: int, j: int|
        0 <= i < j < p.len() ==> ((#[trigger] p[i]).1 + p[i].2 <= (#[trigger] p[j]).1 || p[j].1
            + p[j].2 <= p[i].1)
}

proof fn lemma_rest_elems(rs: Seq<IdRange>, c: int)
    ensures
        spec_plan_rest(rs, c).len() == rs.len(),
        inners_contiguous_from(spec_plan_rest(rs, c), c),
        plan_width(spec_plan_rest(rs, c)) == total_count(rs),
        forall|k: int|
            0 <= k < rs.len() ==> (#[trigger] spec_plan_rest(rs, c)[k]).1 == rs[k].lower
                && spec_plan_rest(rs, c)[k].2 == rs[k].count,
    decreases rs.len(),
{
    if rs.len() > 0 {
        let t = rs.drop_first();
        lemma_rest_elems(t, c + rs[0].count);
        assert(spec_plan_rest(rs, c).drop_first() =~= spec_plan_rest(t, c + rs[0].count));
        assert forall|k: int| 0 <= k < rs.len() implies (#[trigger] spec_plan_rest(rs, c)[k]).1
            == rs[k].lower && spec_plan_rest(rs, c)[k].2 == rs[k].count by {
            if k > 0 {
                assert(spec_plan_rest(rs, c)[k] == spec_plan_rest(t, c + rs[0].count)[k - 1]);
                assert(t[k - 1] == rs[k]);
            }
        }
    }
}

/// The walk always yields the identity triple of `u`.
proof fn lemma_walk_has_identity(rs: Seq<IdRange>, c: int, u: int)
    requires
        c <= u,
    ensures
        spec_plan_walk(rs, c, u).contains((u, u, 1)),
    decreases rs.len(),
{
    let p = spec_plan_walk(rs, c, u);
    if rs.len() == 0 {
        assert(p[0] == (u, u, 1int));
    } else {
        let count = rs[0].count as int;
        if c + count <= u {
            lemma_walk_has_identity(rs.drop_first(), c + count, u);
            let tail = spec_plan_walk(rs.drop_first(), c + count, u);
            let k = choose|k: int| 0 <= k < tail.len() && tail[k] == (u, u, 1int);
            assert(p[1 + k] == (u, u, 1int));
        } else {
            let fst = u - c;
            if fst > 0 {
                assert(p[1] == (u, u, 1int));
            } else {
                assert(p[0] == (u, u, 1int));
            }
        }
    }
}

/// Under contiguity with positive counts the inner ids strictly increase
/// and start at `c`.
proof fn lemma_contiguous_increasing(p: Seq<(int, int, int)>, c: int)
    requires
        inners_contiguous_from(p, c),
        counts_positive(p),
    ensures
        p.len() > 0 ==> p[0].0 == c,
        forall|k: int| 0 <= k < p.len() ==> (#[trigger] p[k]).0 >= c,
        forall|i: int, j: int| 0 <= i < j < p.len() ==> (#[trigger] p[i]).0 < (#[trigger] p[j]).0,
    decreases p.len(),
{
    if p.len() > 0 {
        let t = p.drop_first();
        assert(counts_positive(t)) by {
            assert forall|k: int| 0 <= k < t.len() implies (#[trigger] t[k]).2 > 0 by {
                assert(t[k] == p[k + 1]);
            }
        }
        lemma_contiguous_increasing(t, c + p[0].2);
        assert forall|k: int| 0 <= k < p.len() implies (#[trigger] p[k]).0 >= c by {
            if k > 0 {
                assert(p[k] == t[k - 1]);
            }
        }
        assert forall|i: int, j: int| 0 <= i < j < p.len() implies (#[trigger] p[i]).0 < (
        #[trigger] p[j]).0 by {
            if i == 0 {
                assert(p[j] == t[j - 1]);
                assert(t[j - 1].0 >= c + p[0].2);
            } else {
                assert(p[i] == t[i - 1] && p[j] == t[j - 1]);
            }
        }
    }
}

proof fn lemma_width_concat(a: Seq<(int, int, int)>, b: Seq<(int, int, int)>)
    ensures
        plan_width(a + b) == plan_width(a) + plan_width(b),
    decreases a.len(),
{
    if a.len() == 0 {
        assert(a + b =~= b);
    } else {
        assert((a + b).drop_first() =~= a.drop_first() + b);
        lemma_width_concat(a.drop_first(), b);
    }
}

proof fn lemma_contiguous_concat(a: Seq<(int, int, int)>, b: Seq<(int, int, int)>, c: int)
    requires
        inners_contiguous_from(a, c),
        inners_contiguous_from(b, c + plan_width(a)),
    ensures
        inners_contiguous_from(a + b, c),
    decreases a.len(),
{
    if a.len() == 0 {
        assert(a + b =~= b);
    } else {
        assert((a + b).drop_first() =~= a.drop_first() + b);
        lemma_contiguous_concat(a.drop_first(), b, c + a[0].2);
    }
}

/// Shape of the walk when `u` is covered: the plan tiles the inner ids
/// contiguously from `c` over one id more than the delegated total (the
/// extra id being the identity's), and every triple is nonempty.
proof fn lemma_walk_shape(rs: Seq<IdRange>, c: int, u: int)
    requires
        c <= u,
        ranges_counts_positive(rs),
        c + total_count(rs) > u,
    ensures
        inners_contiguous_from(spec_plan_walk(rs, c, u), c),
        plan_width(spec_plan_walk(rs, c, u)) == total_count(rs) + 1,
        counts_positive(spec_plan_walk(rs, c, u)),
    decreases rs.len(),
{
    let p = spec_plan_walk(rs, c, u);
    assert(rs.len() > 0);
    let t = rs.drop_first();
    assert(ranges_counts_positive(t)) by {
        assert forall|k: int| 0 <= k < t.len() implies (#[trigger] t[k]).count > 0 by {
            assert(t[k] == rs[k + 1]);
        }
    }
    let lower = rs[0].lower as int;
    let count = rs[0].count as int;
    if c + count <= u {
        lemma_walk_shape(t, c + count, u);
        let tail = spec_plan_walk(t, c + count, u);
        assert(p.drop_first() =~= tail);
        assert(counts_positive(p)) by {
            assert forall|k: int| 0 <= k < p.len() implies (#[trigger] p[k]).2 > 0 by {
                if k > 0 {
                    assert(p[k] == tail[k - 1]);
                }
            }
        }
    } else {
        let fst = u - c;
        let head: Seq<(int, int, int)> = if fst > 0 {
            seq![(c, lower, fst)]
        } else {
            Seq::empty()
        };
        let mid: Seq<(int, int, int)> = seq![(u, u, 1), (u + 1, lower + fst, count - fst)];
        let rest = spec_plan_rest(t, c + count + 1);
        lemma_rest_elems(t, c + count + 1);
        assert(p == head + mid + rest);
        reveal_with_fuel(inners_contiguous_from, 4);
        reveal_with_fuel(plan_width, 4);
        assert(mid.drop_first() =~= seq![(u + 1, lower + fst, count - fst)]);
        assert(seq![(u + 1, lower + fst, count - fst)].drop_first() =~= Seq::empty());
        assert(inners_contiguous_from(mid, u));
        assert(plan_width(mid) == 1 + (count - fst));
        if fst > 0 {
            assert(head.drop_first() =~= Seq::empty());
            assert(inners_contiguous_from(head, c));
            assert(plan_width(head) == fst);
        } else {
            assert(head =~= Seq::empty());
        }
        lemma_width_concat(head, mid);
        lemma_width_concat(head + mid, rest);
        lemma_contiguous_concat(head, mid, c);
        lemma_contiguous_concat(head + mid, rest, c);
        assert(counts_positive(p)) by {
            assert forall|k: int| 0 <= k < p.len() implies (#[trigger] p[k]).2 > 0 by {
                if k < head.len() {
                    assert(p[k] == head[k]);
                } else if k < head.len() + 2 {
                    assert(p[k] == mid[k - head.len()]);
                } else {
                    assert(p[k] == rest[k - head.len() - 2]);
                    assert(rest[k - head.len() - 2].2 == t[k - head.len() - 2].count);
                }
            }
        }
    }
}

/// The delegated-id laws of a mapping plan, for a user whose id is covered
/// by the delegation (the total delegated count exceeds it): the plan holds
/// the identity triple; its inner ids start at zero, strictly increase, and
/// tile a contiguous block whose width is the delegated total plus one.
pub proof fn lemma_mapping_plan_laws(rs: Seq<IdRange>, u: u32)
    requires
        ranges_counts_positive(rs),
        (u as int) < total_count(rs),
    ensures
        spec_mapping_plan(rs, u).contains((u as int, u as int, 1)),
        spec_mapping_plan(rs, u).len() > 0,
        spec_mapping_plan(rs, u)[0].0 == 0,
        inners_contiguous_from(spec_mapping_plan(rs, u), 0),
        plan_width(spec_mapping_plan(rs, u)) == total_count(rs) + 1,
        forall|i: int, j: int|
            0 <= i < j < spec_mapping_plan(rs, u).len() ==> (#[trigger] spec_mapping_plan(
                rs,
                u,
            )[i]).0 < (#[trigger] spec_mapping_plan(rs, u)[j]).0,
{
    let p = spec_mapping_plan(rs, u);
    lemma_walk_shape(rs, 0, u as int);
    lemma_walk_has_identity(rs, 0, u as int);
    lemma_contiguous_increasing(p, 0);
    assert(p.len() > 0) by {
        lemma_total_nonneg(rs);
    }
}

/// Which outer ids the walk uses, and that it uses each at most once, when
/// the ranges do not overlap and the user's own id lies outside them.
proof fn lemma_walk_outers(rs: Seq<IdRange>, c: int, u: int)
    requires
        c <= u,
        ranges_non_overlapping(rs),
        id_outside_ranges(rs, u),
    ensures
        forall|k: int|
            0 <= k < spec_plan_walk(rs, c, u).len() ==> outer_within(
                #[trigger] spec_plan_walk(rs, c, u)[k],
                rs,
                u,
            ),
        outers_disjoint(spec_plan_walk(rs, c, u)),
    decreases rs.len(),
{
    let p = spec_plan_walk(rs, c, u);
    if rs.len() == 0 {
        assert(p[0] == (u, u, 1int));
    } else {
        let t = rs.drop_first();
        assert(forall|k: int| 0 <= k < t.len() ==> #[trigger] t[k] == rs[k + 1]);
        assert(ranges_non_overlapping(t));
        assert(id_outside_ranges(t, u));
        let lower = rs[0].lower as int;
        let count = rs[0].count as int;
        if c + count <= u {
            lemma_walk_outers(t, c + count, u);
            let tail = spec_plan_walk(t, c + count, u);
            assert(p.drop_first() =~= tail);
            assert forall|k: int| 0 <= k < p.len() implies outer_within(#[trigger] p[k], rs, u) by {
                if k == 0 {
                    assert(rs[0].lower <= p[0].1 && p[0].1 + p[0].2 <= rs[0].lower + rs[0].count);
                } else {
                    assert(p[k] == tail[k - 1]);
                    assert(outer_within(tail[k - 1], t, u));
                    if !(tail[k - 1].1 == u && tail[k - 1].2 == 1) {
                        let m = choose|m: int|
                            0 <= m < t.len() && (#[trigger] t[m]).lower <= tail[k - 1].1 && tail[
                                k - 1
                            ].1 + tail[k - 1].2 <= t[m].lower + t[m].count;
                        assert(rs[m + 1].lower <= p[k].1 && p[k].1 + p[k].2 <= rs[m + 1].lower
                            + rs[m + 1].count);
                    }
                }
            }
            assert forall|i: int, j: int| 0 <= i < j < p.len() implies ((#[trigger] p[i]).1
                + p[i].2 <= (#[trigger] p[j]).1 || p[j].1 + p[j].2 <= p[i].1) by {
                if i > 0 {
                    assert(p[i] == tail[i - 1] && p[j] == tail[j - 1]);
                } else {
                    assert(p[j] == tail[j - 1]);
                    assert(outer_within(tail[j - 1], t, u));
                    if tail[j - 1].1 == u && tail[j - 1].2 == 1 {
                        assert(!(rs[0].lower <= u < rs[0].lower + rs[0].count));
                    } else {
                        let m = choose|m: int|
                            0 <= m < t.len() && (#[trigger] t[m]).lower <= tail[j - 1].1 && tail[
                                j - 1
                            ].1 + tail[j - 1].2 <= t[m].lower + t[m].count;
                        assert(rs[0].lower + rs[0].count <= rs[m + 1].lower);
                    }
                }
            }
        } else {
            let fst = u - c;
            let head: Seq<(int, int, int)> = if fst > 0 {
                seq![(c, lower, fst)]
            } else {
                Seq::empty()
            };
            let mid: Seq<(int, int, int)> = seq![(u, u, 1), (u + 1, lower + fst, count - fst)];
            let rest = spec_plan_rest(t, c + count + 1);
            lemma_rest_elems(t, c + count + 1);
            assert(p == head + mid + rest);
            assert(!(rs[0].lower <= u < rs[0].lower + rs[0].count));
            assert forall|k: int| 0 <= k < p.len() implies outer_within(#[trigger] p[k], rs, u) by {
                if k < head.len() {
                    assert(p[k] == head[0]);
                    assert(rs[0].lower <= p[k].1 && p[k].1 + p[k].2 <= rs[0].lower + rs[0].count);
                } else if k == head.len() {
                    assert(p[k] == (u, u, 1int));
                } else if k == head.len() + 1 {
                    assert(p[k] == mid[1]);
                    assert(rs[0].lower <= p[k].1 && p[k].1 + p[k].2 <= rs[0].lower + rs[0].count);
                } else {
                    let q = k - head.len() - 2;
                    assert(p[k] == rest[q]);
                    assert(rest[q].1 == t[q].lower && rest[q].2 == t[q].count);
                    assert(rs[q + 1].lower <= p[k].1 && p[k].1 + p[k].2 <= rs[q + 1].lower + rs[
                        q + 1
                    ].count);
                }
            }
            assert forall|i: int, j: int| 0 <= i < j < p.len() implies ((#[trigger] p[i]).1
                + p[i].2 <= (#[trigger] p[j]).1 || p[j].1 + p[j].2 <= p[i].1) by {
                let hl = head.len() as int;
                let iv = if i < hl {
                    (lower, lower + fst)
                } else if i == hl {
                    (u, u + 1)
                } else if i == hl + 1 {
                    (lower + fst, lower + count)
                } else {
                    (t[i - hl - 2].lower as int, t[i - hl - 2].lower + t[i - hl - 2].count as int)
                };
                if i < hl {
                    assert(p[i] == head[0]);
                } else if i == hl {
                    assert(p[i] == mid[0]);
                } else if i == hl + 1 {
                    assert(p[i] == mid[1]);
                } else {
                    assert(p[i] == rest[i - hl - 2]);
                    assert(rest[i - hl - 2].1 == t[i - hl - 2].lower && rest[i - hl - 2].2 == t[
                        i - hl - 2
                    ].count);
                }
                if j < hl {
                    assert(p[j] == head[0]);
                } else if j == hl {
                    assert(p[j] == mid[0]);
                } else if j == hl + 1 {
                    assert(p[j] == mid[1]);
                } else {
                    assert(p[j] == rest[j - hl - 2]);
                    assert(rest[j - hl - 2].1 == t[j - hl - 2].lower && rest[j - hl - 2].2 == t[
                        j - hl - 2
                    ].count);
                }
                if i > hl + 1 && j > hl + 1 {
                    assert(t[i - hl - 2].lower + t[i - hl - 2].count <= t[j - hl - 2].lower);
                } else if j > hl + 1 {
                    assert(rs[0].lower + rs[0].count <= t[j - hl - 2].lower) by {
                        assert(t[j - hl - 2] == rs[j - hl - 1]);
                    }
                    if i == hl {
                        assert(!(t[j - hl - 2].lower <= u < t[j - hl - 2].lower + t[j - hl
                            - 2].count)) by {
                            assert(t[j - hl - 2] == rs[j - hl - 1]);
                        }
                    }
                }
            }
        }
    }
}

/// No outer id is used twice by a mapping plan, provided the delegated
/// ranges are sorted without overlap and the user's own id lies outside
/// them.
pub proof fn lemma_mapping_plan_outers_distinct(rs: Seq<IdRange>, u: u32)
    requires
        ranges_non_overlapping(rs),
        id_outside_ranges(rs, u as int),
    ensures
        outers_disjoint(spec_mapping_plan(rs, u)),
{
    lemma_walk_outers(rs, 0, u as int);
}

/// The absolute path of the privileged id-mapping helper for the kind.
pub fn mapper_program(kind: MappingKind) -> (r: String)
    ensures
        kind is Uid ==> r@ == "/run/wrappers/bin/newuidmap"@,
        kind is Gid ==> r@ == "/run/wrappers/bin/newgidmap"@,
{
    match kind {
        MappingKind::Uid => "/run/wrappers/bin/newuidmap".to_owned(),
        MappingKind::Gid => "/run/wrappers/bin/newgidmap".to_owned(),
    }
}

/// The host delegation file read for the kind.
pub fn subid_file(kind: MappingKind) -> (r: String)
    ensures
        kind is Uid ==> r@ == "/etc/subuid"@,
        kind is Gid ==> r@ == "/etc/subgid"@,
{
    match kind {
        MappingKind::Uid => "/etc/subuid".to_owned(),
        MappingKind::Gid => "/etc/subgid".to_owned(),
    }
}

} // verus!
