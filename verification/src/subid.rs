//! Subordinate-id delegation: parsing the host's `subuid`/`subgid` files
//! into the delegation ranges of one user, sorted by lower id.

use vstd::prelude::*;
use crate::strutil::{spec_split, split_str, is_u32_string, digits_val, parse_u32};

verus! {

/// One delegation record: the invoking user may map `count` consecutive ids
/// starting at `lower` into a child namespace.
#[derive(Clone, Copy, PartialEq, Eq, Structural, Debug)]
pub struct IdRange {
    pub lower: u32,
    pub count: u32,
}

/// The field of a delegation line whose numeric parse failed.
#[derive(Clone, Copy, PartialEq, Eq, Structural, Debug)]
pub enum SubidField {
    LowerId,
    Count,
}

/// A malformed numeric field in a delegation file: the zero-based line and
/// the offending field.
#[derive(Clone, Copy, PartialEq, Eq, Structural, Debug)]
pub struct SubidError {
    pub line: usize,
    pub field: SubidField,
}

/// A line names the user and has the three-field `name:lower:count` shape.
/// Any other line is skipped.
pub open spec fn line_is_relevant(line: Seq<char>, user: Seq<char>) -> bool {
    let f = spec_split(line, ':');
    f.len() == 3 && f[0] == user
}

/// A relevant line whose `lower` or `count` field is not a decimal `u32`:
/// a hard error.
pub open spec fn line_is_bad(line: Seq<char>, user: Seq<char>) -> bool {
    let f = spec_split(line, ':');
    line_is_relevant(line, user) && !(is_u32_string(f[1]) && is_u32_string(f[2]))
}

/// Which field of a bad line fails first: `lower` is checked before `count`.
pub open spec fn line_bad_field(line: Seq<char>) -> SubidField {
    let f = spec_split(line, ':');
    if !is_u32_string(f[1]) {
        SubidField::LowerId
    } else {
        SubidField::Count
    }
}

/// The range a relevant, well-formed line denotes.
pub open spec fn line_range(line: Seq<char>) -> IdRange {
    let f = spec_split(line, ':');
    IdRange { lower: digits_val(f[1]) as u32, count: digits_val(f[2]) as u32 }
}

/// The ranges denoted by the given lines, in file order: one per relevant
/// well-formed line.
pub open spec fn ranges_of_lines(lines: Seq<Seq<char>>, user: Seq<char>) -> Seq<IdRange>
    decreases lines.len(),
{
    if lines.len() == 0 {
        Seq::empty()
    } else {
        (if line_is_relevant(lines[0], user) && !line_is_bad(lines[0], user) {
            seq![line_range(lines[0])]
        } else {
            Seq::empty()
        }) + ranges_of_lines(lines.drop_first(), user)
    }
}

proof fn lemma_ranges_of_lines_push(lines: Seq<Seq<char>>, user: Seq<char>, l: Seq<char>)
    ensures
        ranges_of_lines(lines.push(l), user) == ranges_of_lines(lines, user) + (
        if line_is_relevant(l, user) && !line_is_bad(l, user) {
            seq![line_range(l)]
        } else {
            Seq::empty()
        }),
    decreases lines.len(),
{
    reveal_with_fuel(ranges_of_lines, 3);
    let tail = if line_is_relevant(l, user) && !line_is_bad(l, user) {
        seq![line_range(l)]
    } else {
        Seq::<IdRange>::empty()
    };
    if lines.len() == 0 {
        assert(lines.push(l)[0] == l);
        assert(lines.push(l).drop_first() =~= Seq::empty());
        assert(ranges_of_lines(lines.push(l), user) =~= ranges_of_lines(lines, user) + tail);
    } else {
        assert(lines.push(l)[0] == lines[0]);
        assert(lines.push(l).drop_first() =~= lines.drop_first().push(l));
        lemma_ranges_of_lines_push(lines.drop_first(), user, l);
        assert(ranges_of_lines(lines.push(l), user) =~= ranges_of_lines(lines, user) + tail);
    }
}

/// No relevant line of the content has a malformed numeric field.
pub open spec fn content_ok(content: Seq<char>, user: Seq<char>) -> bool {
    let lines = spec_split(content, '\n');
    forall|i: int| 0 <= i < lines.len() ==> !line_is_bad(#[trigger] lines[i], user)
}

/// The delegation ranges the content assigns to the user, in file order.
pub open spec fn content_ranges(content: Seq<char>, user: Seq<char>) -> Seq<IdRange> {
    ranges_of_lines(spec_split(content, '\n'), user)
}

/// Delegation order: by lower id first, then by count.
pub open spec fn range_le(a: IdRange, b: IdRange) -> bool {
    a.lower < b.lower || (a.lower == b.lower && a.count <= b.count)
}

/// Sorted by lower id (ties by count).
pub open spec fn ranges_sorted(s: Seq<IdRange>) -> bool {
    forall|i: int, j: int| 0 <= i < j < s.len() ==> range_le(#[trigger] s[i], #[trigger] s[j])
}

/// Sorts delegation ranges by lower id, keeping exactly the given ranges.
fn sort_ranges(v: Vec<IdRange>) -> (r: Vec<IdRange>)
    ensures
        ranges_sorted(r@),
        r@.to_multiset() == v@.to_multiset(),
{
    broadcast use vstd::seq_lib::group_to_multiset_ensures;
    broadcast use vstd::seq_lib::lemma_multiset_commutative;
    broadcast use vstd::multiset::group_multiset_axioms;

    let mut out: Vec<IdRange> = Vec::new();
    let mut i: usize = 0;
    while i < v.len()
        invariant
            i <= v.len(),
            ranges_sorted(out@),
            out@.to_multiset() == v@.subrange(0, i as int).to_multiset(),
        decreases v.len() - i,
    {
        let e = v[i];
        let mut j: usize = 0;
        while j < out.len() && (out[j].lower < e.lower || (out[j].lower == e.lower
            && out[j].count <= e.count))
            invariant
                j <= out.len(),
                ranges_sorted(out@),
                forall|k: int| 0 <= k < j ==> range_le(#[trigger] out@[k], e),
            decreases out.len() - j,
        {
            j = j + 1;
        }
        let ghost prev = out@;
        out.insert(j, e);
        proof {
            prev.insert_ensures(j as int, e);
            assert(out@ == prev.insert(j as int, e));
            assert forall|p: int, q: int| 0 <= p < q < out@.len() implies range_le(
                out@[p],
                out@[q],
            ) by {
                if q < j {
                    assert(out@[p] == prev[p] && out@[q] == prev[q]);
                } else if p > j {
                    assert(out@[p] == prev[p - 1] && out@[q] == prev[q - 1]);
                } else if p < j && q == j {
                    assert(out@[p] == prev[p] && out@[q] == e);
                } else if p == j && q > j {
                    assert(out@[p] == e && out@[q] == prev[q - 1]);
                    if j < prev.len() {
                        assert(!range_le(prev[j as int], e));
                        assert(range_le(e, prev[j as int]));
                        if q - 1 > j {
                            assert(range_le(prev[j as int], prev[q - 1]));
                        }
                    }
                } else if p < j && q > j {
                    assert(out@[p] == prev[p] && out@[q] == prev[q - 1]);
                    if j < prev.len() {
                        assert(range_le(e, prev[j as int]));
                    }
                }
            }
            let a = prev.subrange(0, j as int);
            let b = prev.subrange(j as int, prev.len() as int);
            vstd::seq_lib::lemma_multiset_commutative(a.push(e), b);
            vstd::seq_lib::lemma_multiset_commutative(a, b);
            a.to_multiset_ensures();
            assert(a + b =~= prev);
            assert((a.push(e) + b).to_multiset() =~= prev.to_multiset().insert(e));
            assert(out@.to_multiset() == prev.to_multiset().insert(e));
            assert(v@.subrange(0, i + 1) =~= v@.subrange(0, i as int).push(v@[i as int]));
            v@.subrange(0, i as int).to_multiset_ensures();
            assert(v@.subrange(0, i as int).push(v@[i as int]).to_multiset() =~= v@.subrange(
                0,
                i as int,
            ).to_multiset().insert(v@[i as int]));
        }
        i = i + 1;
    }
    proof {
        assert(v@.subrange(0, v@.len() as int) =~= v@);
    }
    out
}

/// Parses a subordinate-id delegation file's contents, returning the ranges
/// assigned to the user, sorted by lower id. A line without the three-field
/// `name:lower:count` shape, or naming another user, is skipped; a relevant
/// line with a non-numeric `lower` or `count` is a hard error naming the
/// first such line. Empty contents yield no ranges.
pub fn parse_subid_ranges(content: &str, username: &str) -> (r: Result<Vec<IdRange>, SubidError>)
    ensures
        r is Ok <==> content_ok(content@, username@),
        (r matches Ok(v) ==> ranges_sorted(v@) && v@.to_multiset() == content_ranges(
            content@,
            username@,
        ).to_multiset()),
        (r matches Err(e) ==> {
            let lines = spec_split(content@, '\n');
            &&& e.line < lines.len()
            &&& line_is_bad(lines[e.line as int], username@)
            &&& forall|j: int| 0 <= j < e.line ==> !line_is_bad(#[trigger] lines[j], username@)
            &&& e.field == line_bad_field(lines[e.line as int])
        }),
{
    let lines = split_str(content, '\n');
    let ghost lviews = lines@.map_values(|p: String| p@);
    let uname: String = username.to_owned();
    let mut out: Vec<IdRange> = Vec::new();
    let mut i: usize = 0;
    while i < lines.len()
        invariant
            i <= lines.len(),
            lviews == lines@.map_values(|p: String| p@),
            lviews == spec_split(content@, '\n'),
            uname@ == username@,
            forall|j: int| 0 <= j < i ==> !line_is_bad(#[trigger] lviews[j], username@),
            out@ == ranges_of_lines(lviews.subrange(0, i as int), username@),
        decreases lines.len() - i,
    {
        let fields = split_str(lines[i].as_str(), ':');
        let ghost fviews = fields@.map_values(|p: String| p@);
        proof {
            assert(lviews.subrange(0, i + 1) =~= lviews.subrange(0, i as int).push(
                lviews[i as int],
            ));
            lemma_ranges_of_lines_push(lviews.subrange(0, i as int), username@, lviews[i as int]);
        }
        if fields.len() == 3 && fields[0] == uname {
            assert(line_is_relevant(lviews[i as int], username@));
            let lower = match parse_u32(fields[1].as_str()) {
                Some(n) => n,
                None => {
                    return Err(SubidError { line: i, field: SubidField::LowerId });
                },
            };
            let count = match parse_u32(fields[2].as_str()) {
                Some(n) => n,
                None => {
                    return Err(SubidError { line: i, field: SubidField::Count });
                },
            };
            out.push(IdRange { lower, count });
            assert(IdRange { lower, count } == line_range(lviews[i as int]));
        } else {
            assert(!line_is_relevant(lviews[i as int], username@));
            assert(out@ + Seq::<IdRange>::empty() =~= out@);
        }
        i = i + 1;
    }
    proof {
        assert(lviews.subrange(0, lviews.len() as int) =~= lviews);
    }
    Ok(sort_ranges(out))
}

} // verus!
