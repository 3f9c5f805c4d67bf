//! Bind-set planning: given a source directory's children, the names
//! already present under the target, and an exclusion set, decide which
//! entries to mirror and with which kind of stub. Pre-existing entries are
//! never overwritten — that precedence rule is what lets the host's `/etc`
//! win over the FHS tree's — and excluded names are never touched.

use vstd::prelude::*;
use crate::strutil::{name_in, contains_name};

verus! {

/// A direct child of the source directory, as plain values: its basename
/// and whether it is a directory (a symlink or regular file is not).
pub struct SourceEntry {
    pub name: String,
    pub is_dir: bool,
}

/// One planned mirror step: create a stub of the entry's kind at
/// `target/name` and bind-mount the source entry onto it. A directory gets
/// an empty directory stub; anything else gets an empty regular file stub.
pub struct BindStep {
    pub name: String,
    pub is_dir: bool,
}

/// The view of an entry: basename and kind.
pub open spec fn entry_view(e: SourceEntry) -> (Seq<char>, bool) {
    (e.name@, e.is_dir)
}

/// The view of a step: basename and kind.
pub open spec fn step_view(s: BindStep) -> (Seq<char>, bool) {
    (s.name@, s.is_dir)
}

/// An entry is mirrored exactly when its name is neither excluded nor
/// already present under the target.
pub open spec fn entry_kept(
    e: (Seq<char>, bool),
    existing: Seq<Seq<char>>,
    exclusions: Seq<Seq<char>>,
) -> bool {
    !name_in(exclusions, e.0) && !name_in(existing, e.0)
}

/// The planned steps: the kept entries, in source order, kinds preserved.
pub open spec fn spec_bind_plan(
    children: Seq<(Seq<char>, bool)>,
    existing: Seq<Seq<char>>,
    exclusions: Seq<Seq<char>>,
) -> Seq<(Seq<char>, bool)>
    decreases children.len(),
{
    if children.len() == 0 {
        Seq::empty()
    } else {
        (if entry_kept(children[0], existing, exclusions) {
            seq![children[0]]
        } else {
            Seq::empty()
        }) + spec_bind_plan(children.drop_first(), existing, exclusions)
    }
}

proof fn lemma_bind_plan_push(
    children: Seq<(Seq<char>, bool)>,
    existing: Seq<Seq<char>>,
    exclusions: Seq<Seq<char>>,
    e: (Seq<char>, bool),
)
    ensures
        spec_bind_plan(children.push(e), existing, exclusions) == spec_bind_plan(
            children,
            existing,
            exclusions,
        ) + (if entry_kept(e, existing, exclusions) {
            seq![e]
        } else {
            Seq::empty()
        }),
    decreases children.len(),
{
    reveal_with_fuel(spec_bind_plan, 3);
    let tail = if entry_kept(e, existing, exclusions) {
        seq![e]
    } else {
        Seq::<(Seq<char>, bool)>::empty()
    };
    if children.len() == 0 {
        assert(children.push(e)[0] == e);
        assert(children.push(e).drop_first() =~= Seq::empty());
        assert(spec_bind_plan(children.push(e), existing, exclusions) =~~= spec_bind_plan(
            children,
            existing,
            exclusions,
        ) + tail);
    } else {
        assert(children.push(e)[0] == children[0]);
        assert(children.push(e).drop_first() =~= children.drop_first().push(e));
        lemma_bind_plan_push(children.drop_first(), existing, exclusions, e);
        assert(spec_bind_plan(children.push(e), existing, exclusions) =~~= spec_bind_plan(
            children,
            existing,
            exclusions,
        ) + tail);
    }
}

/// Exclusion law: no planned step carries an excluded name.
pub proof fn lemma_bind_plan_excludes(
    children: Seq<(Seq<char>, bool)>,
    existing: Seq<Seq<char>>,
    exclusions: Seq<Seq<char>>,
)
    ensures
        forall|k: int|
            0 <= k < spec_bind_plan(children, existing, exclusions).len() ==> !name_in(
                exclusions,
                (#[trigger] spec_bind_plan(children, existing, exclusions)[k]).0,
            ),
    decreases children.len(),
{
    let p = spec_bind_plan(children, existing, exclusions);
    if children.len() > 0 {
        let t = children.drop_first();
        lemma_bind_plan_excludes(t, existing, exclusions);
        let q = spec_bind_plan(t, existing, exclusions);
        assert forall|k: int| 0 <= k < p.len() implies !name_in(exclusions, (#[trigger] p[k]).0) by {
            if entry_kept(children[0], existing, exclusions) {
                if k == 0 {
                    assert(p[0] == children[0]);
                } else {
                    assert(p[k] == q[k - 1]);
                }
            } else {
                assert(p[k] == q[k]);
            }
        }
    }
}

/// Precedence law: no planned step carries a name already present under
/// the target, so a pre-existing entry is never overwritten.
pub proof fn lemma_bind_plan_preserves_existing(
    children: Seq<(Seq<char>, bool)>,
    existing: Seq<Seq<char>>,
    exclusions: Seq<Seq<char>>,
)
    ensures
        forall|k: int|
            0 <= k < spec_bind_plan(children, existing, exclusions).len() ==> !name_in(
                existing,
                (#[trigger] spec_bind_plan(children, existing, exclusions)[k]).0,
            ),
    decreases children.len(),
{
    let p = spec_bind_plan(children, existing, exclusions);
    if children.len() > 0 {
        let t = children.drop_first();
        lemma_bind_plan_preserves_existing(t, existing, exclusions);
        let q = spec_bind_plan(t, existing, exclusions);
        assert forall|k: int| 0 <= k < p.len() implies !name_in(existing, (#[trigger] p[k]).0) by {
            if entry_kept(children[0], existing, exclusions) {
                if k == 0 {
                    assert(p[0] == children[0]);
                } else {
                    assert(p[k] == q[k - 1]);
                }
            } else {
                assert(p[k] == q[k]);
            }
        }
    }
}

/// Completeness law: every child that is neither excluded nor pre-existing
/// is planned.
pub proof fn lemma_bind_plan_complete(
    children: Seq<(Seq<char>, bool)>,
    existing: Seq<Seq<char>>,
    exclusions: Seq<Seq<char>>,
)
    ensures
        forall|k: int|
            0 <= k < children.len() && entry_kept(#[trigger] children[k], existing, exclusions)
                ==> spec_bind_plan(children, existing, exclusions).contains(children[k]),
    decreases children.len(),
{
    let p = spec_bind_plan(children, existing, exclusions);
    if children.len() > 0 {
        let t = children.drop_first();
        lemma_bind_plan_complete(t, existing, exclusions);
        let q = spec_bind_plan(t, existing, exclusions);
        assert forall|k: int|
            0 <= k < children.len() && entry_kept(
                #[trigger] children[k],
                existing,
                exclusions,
            ) implies p.contains(children[k]) by {
            if k == 0 {
                assert(p[0] == children[0]);
            } else {
                assert(t[k - 1] == children[k]);
                assert(q.contains(children[k]));
                let m = choose|m: int| 0 <= m < q.len() && q[m] == children[k];
                if entry_kept(children[0], existing, exclusions) {
                    assert(p[m + 1] == children[k]);
                } else {
                    assert(p[m] == children[k]);
                }
            }
        }
    }
}

/// Plans one bind-set invocation: for each child of the source whose name
/// is neither excluded nor already present under the target, a step that
/// creates a stub of the child's kind and bind-mounts the child onto it,
/// in source order.
pub fn plan_bind_set(
    children: Vec<SourceEntry>,
    existing: &Vec<String>,
    exclusions: &Vec<String>,
) -> (steps: Vec<BindStep>)
    ensures
        steps@.map_values(|s: BindStep| step_view(s)) == spec_bind_plan(
            children@.map_values(|e: SourceEntry| entry_view(e)),
            existing@.map_values(|s: String| s@),
            exclusions@.map_values(|s: String| s@),
        ),
{
    broadcast use vstd::prelude::Seq::lemma_push_map_commute;

    let ghost cviews = children@.map_values(|e: SourceEntry| entry_view(e));
    let ghost evs = existing@.map_values(|s: String| s@);
    let ghost xvs = exclusions@.map_values(|s: String| s@);
    let n = children.len();
    let mut steps: Vec<BindStep> = Vec::new();
    let mut i: usize = 0;
    proof {
        assert(cviews.subrange(0, 0) =~= Seq::empty());
        assert(spec_bind_plan(Seq::empty(), evs, xvs) =~~= steps@.map_values(
            |s: BindStep| step_view(s),
        ));
    }
    while i < n
        invariant
            i <= n,
            n == children@.len(),
            cviews == children@.map_values(|e: SourceEntry| entry_view(e)),
            evs == existing@.map_values(|s: String| s@),
            xvs == exclusions@.map_values(|s: String| s@),
            steps@.map_values(|s: BindStep| step_view(s)) == spec_bind_plan(
                cviews.subrange(0, i as int),
                evs,
                xvs,
            ),
        decreases n - i,
    {
        let excluded = contains_name(exclusions, &children[i].name);
        let present = contains_name(existing, &children[i].name);
        let ghost prev = steps@;
        proof {
            assert(cviews.subrange(0, i + 1) =~= cviews.subrange(0, i as int).push(
                cviews[i as int],
            ));
            lemma_bind_plan_push(cviews.subrange(0, i as int), evs, xvs, cviews[i as int]);
        }
        if !excluded && !present {
            let step = BindStep {
                name: children[i].name.clone(),
                is_dir: children[i].is_dir,
            };
            steps.push(step);
            proof {
                assert(steps@.map_values(|s: BindStep| step_view(s)) =~~= prev.map_values(
                    |s: BindStep| step_view(s),
                ) + seq![cviews[i as int]]);
            }
        } else {
            proof {
                assert(prev.map_values(|s: BindStep| step_view(s)) + Seq::<(
                    Seq<char>,
                    bool,
                )>::empty() =~~= prev.map_values(|s: BindStep| step_view(s)));
            }
        }
        i = i + 1;
    }
    proof {
        assert(cviews.subrange(0, n as int) =~= cviews);
    }
    steps
}

} // verus!
