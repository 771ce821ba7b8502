//! Merging of time ranges into a minimal ordered list of
//! non-overlapping, non-adjacent ranges covering the same instants.
//!
//! A range is half-open: it covers the instants `start_at <= t < end_at`.
//! Ranges that touch at a boundary (`next.start_at == current.end_at`)
//! cover a contiguous block of time, so merging joins them.

use vstd::prelude::*;

verus! {

/// A single time range, as submitted by a client. Instants are absolute
/// (seconds since an epoch); callers guarantee `start_at < end_at`.
#[derive(Clone, Copy, Debug, PartialEq, Eq, Structural)]
pub struct TimeRangeRequest {
    pub start_at: i64,
    pub end_at: i64,
}

/// A well-formed range starts strictly before it ends.
pub open spec fn range_valid(r: TimeRangeRequest) -> bool {
    r.start_at < r.end_at
}

pub open spec fn all_ranges_valid(s: Seq<TimeRangeRequest>) -> bool {
    forall|i: int| 0 <= i < s.len() ==> range_valid(#[trigger] s[i])
}

/// Does the single range `r` cover the instant `t`?
pub open spec fn in_range(r: TimeRangeRequest, t: int) -> bool {
    r.start_at <= t < r.end_at
}

/// Does some range of `s` cover the instant `t`?
pub open spec fn covers(s: Seq<TimeRangeRequest>, t: int) -> bool {
    exists|i: int| 0 <= i < s.len() && in_range(#[trigger] s[i], t)
}

/// Merged form: every range is well-formed, and the ranges are ordered,
/// pairwise non-overlapping and non-adjacent (a strict gap separates any
/// two of them).
pub open spec fn merged_form(s: Seq<TimeRangeRequest>) -> bool {
    &&& all_ranges_valid(s)
    &&& forall|i: int, j: int|
        #![trigger s[i], s[j]]
        0 <= i < j < s.len() ==> s[i].end_at < s[j].start_at
}

/// `output` is the merge of `input`: it is in merged form and covers
/// exactly the instants that `input` covers.
pub open spec fn is_merge_of(input: Seq<TimeRangeRequest>, output: Seq<TimeRangeRequest>) -> bool {
    &&& merged_form(output)
    &&& forall|t: int|
        #![trigger covers(output, t)]
        #![trigger covers(input, t)]
        covers(output, t) == covers(input, t)
}

pub open spec fn sorted_by_start(s: Seq<TimeRangeRequest>) -> bool {
    forall|i: int, j: int|
        #![trigger s[i], s[j]]
        0 <= i < j < s.len() ==> s[i].start_at <= s[j].start_at
}

/// Appending a range extends the covered instants by exactly that range.
proof fn lemma_covers_push(s: Seq<TimeRangeRequest>, r: TimeRangeRequest)
    ensures
        forall|t: int|
            #![trigger covers(s.push(r), t)]
            #![trigger covers(s, t)]
            covers(s.push(r), t) == (covers(s, t) || in_range(r, t)),
{
    assert forall|t: int| covers(s.push(r), t) == (covers(s, t) || in_range(r, t)) by {
        if covers(s, t) {
            let i = choose|i: int| 0 <= i < s.len() && in_range(s[i], t);
            assert(s.push(r)[i] == s[i]);
            assert(covers(s.push(r), t));
        }
        if in_range(r, t) {
            assert(s.push(r)[s.len() as int] == r);
            assert(covers(s.push(r), t));
        }
        if covers(s.push(r), t) {
            let i = choose|i: int| 0 <= i < s.push(r).len() && in_range(s.push(r)[i], t);
            if i < s.len() {
                assert(s[i] == s.push(r)[i]);
                assert(covers(s, t));
            } else {
                assert(s.push(r)[i] == r);
            }
        }
    }
}

/// Sequences with the same multiset of ranges cover the same instants.
proof fn lemma_multiset_covers_one_way(a: Seq<TimeRangeRequest>, b: Seq<TimeRangeRequest>, t: int)
    requires
        a.to_multiset() == b.to_multiset(),
        covers(a, t),
    ensures
        covers(b, t),
{
    broadcast use vstd::seq_lib::group_to_multiset_ensures;

    let i = choose|i: int| 0 <= i < a.len() && in_range(a[i], t);
    assert(a.contains(a[i]));
    assert(b.to_multiset().count(a[i]) > 0);
    assert(b.contains(a[i]));
    let j = choose|j: int| 0 <= j < b.len() && b[j] == a[i];
    assert(in_range(b[j], t));
}

/// Sequences with the same multiset of ranges cover the same instants.
pub proof fn lemma_multiset_covers(a: Seq<TimeRangeRequest>, b: Seq<TimeRangeRequest>)
    requires
        a.to_multiset() == b.to_multiset(),
    ensures
        forall|t: int|
            #![trigger covers(a, t)]
            #![trigger covers(b, t)]
            covers(a, t) == covers(b, t),
{
    assert forall|t: int| covers(a, t) == covers(b, t) by {
        if covers(a, t) {
            lemma_multiset_covers_one_way(a, b, t);
        }
        if covers(b, t) {
            lemma_multiset_covers_one_way(b, a, t);
        }
    }
}

/// Validity of every range carries over to any reordering.
proof fn lemma_multiset_all_valid(a: Seq<TimeRangeRequest>, b: Seq<TimeRangeRequest>)
    requires
        a.to_multiset() == b.to_multiset(),
        all_ranges_valid(a),
    ensures
        all_ranges_valid(b),
{
    broadcast use vstd::seq_lib::group_to_multiset_ensures;

    assert forall|i: int| 0 <= i < b.len() implies range_valid(#[trigger] b[i]) by {
        assert(b.contains(b[i]));
        assert(a.to_multiset().count(b[i]) > 0);
        assert(a.contains(b[i]));
        let j = choose|j: int| 0 <= j < a.len() && a[j] == b[i];
        assert(range_valid(a[j]));
    }
}

/// Selection sort of ranges by ascending start, preserving the multiset
/// of ranges.
fn sort_by_start_exec(input: Vec<TimeRangeRequest>) -> (sorted: Vec<TimeRangeRequest>)
    ensures
        sorted_by_start(sorted@),
        sorted@.to_multiset() == input@.to_multiset(),
{
    broadcast use vstd::seq_lib::group_to_multiset_ensures;

    let mut rest = input;
    let mut out: Vec<TimeRangeRequest> = Vec::new();
    while rest.len() > 0
        invariant
            out@.to_multiset().add(rest@.to_multiset()) == input@.to_multiset(),
            sorted_by_start(out@),
            forall|i: int, j: int|
                #![trigger out@[i], rest@[j]]
                0 <= i < out@.len() && 0 <= j < rest@.len()
                    ==> out@[i].start_at <= rest@[j].start_at,
        decreases rest.len(),
    {
        let mut m: usize = 0;
        let mut k: usize = 1;
        while k < rest.len()
            invariant
                0 <= m < k <= rest@.len(),
                forall|j: int| 0 <= j < k ==> rest@[m as int].start_at <= (#[trigger] rest@[j]).start_at,
            decreases rest@.len() - k,
        {
            if rest[k].start_at < rest[m].start_at {
                m = k;
            }
            k += 1;
        }
        let ghost old_out = out@;
        let ghost old_rest = rest@;
        let x = rest.remove(m);
        out.push(x);
        proof {
            broadcast use vstd::seq_lib::group_to_multiset_ensures;

            assert(old_rest.to_multiset().count(x) > 0) by {
                assert(old_rest.contains(x));
            }
            assert(out@.to_multiset() =~= old_out.to_multiset().insert(x));
            assert(rest@.to_multiset() =~= old_rest.to_multiset().remove(x));
            assert(out@.to_multiset().add(rest@.to_multiset()) =~= old_out.to_multiset().add(
                old_rest.to_multiset(),
            ));
        }
    }
    out
}

/// Merges an unordered list of well-formed ranges into the minimal
/// ordered list of non-overlapping, non-adjacent ranges covering the
/// identical union of instants.
pub fn merge_time_ranges(ranges: Vec<TimeRangeRequest>) -> (merged: Vec<TimeRangeRequest>)
    requires
        all_ranges_valid(ranges@),
    ensures
        is_merge_of(ranges@, merged@),
{
    if ranges.len() == 0 {
        let out: Vec<TimeRangeRequest> = Vec::new();
        return out;
    }

    let sorted = sort_by_start_exec(ranges);
    proof {
        broadcast use vstd::seq_lib::group_to_multiset_ensures;

        lemma_multiset_all_valid(ranges@, sorted@);
        lemma_multiset_covers(ranges@, sorted@);
        assert(sorted@.len() == sorted@.to_multiset().len());
        assert(ranges@.len() == ranges@.to_multiset().len());
    }

    let n = sorted.len();
    let mut merged: Vec<TimeRangeRequest> = Vec::new();
    let mut current = sorted[0];
    proof {
        assert(merged@.push(current) =~= sorted@.take(1));
    }
    let mut i: usize = 1;
    while i < n
        invariant
            1 <= i <= n,
            n == sorted@.len(),
            sorted_by_start(sorted@),
            all_ranges_valid(sorted@),
            range_valid(current),
            merged_form(merged@.push(current)),
            forall|t: int|
                #![trigger covers(merged@.push(current), t)]
                covers(merged@.push(current), t) == covers(sorted@.take(i as int), t),
            forall|j: int| i <= j < n ==> current.start_at <= (#[trigger] sorted@[j]).start_at,
        decreases n - i,
    {
        let next = sorted[i];
        proof {
            assert(sorted@.take(i as int + 1) =~= sorted@.take(i as int).push(next));
            lemma_covers_push(sorted@.take(i as int), next);
        }
        if next.start_at <= current.end_at {
            let new_end = if next.end_at > current.end_at {
                next.end_at
            } else {
                current.end_at
            };
            let extended = TimeRangeRequest { start_at: current.start_at, end_at: new_end };
            proof {
                lemma_covers_push(merged@, current);
                lemma_covers_push(merged@, extended);
                assert(merged_form(merged@.push(extended))) by {
                    assert forall|a: int, b: int|
                        0 <= a < b < merged@.push(extended).len() implies (
                    #[trigger] merged@.push(extended)[a]).end_at < (
                    #[trigger] merged@.push(extended)[b]).start_at by {
                        let mlen = merged@.len() as int;
                        assert(merged@.push(current)[mlen] == current);
                        if b < mlen {
                            assert(merged@.push(extended)[a] == merged@.push(current)[a]);
                            assert(merged@.push(extended)[b] == merged@.push(current)[b]);
                        } else {
                            assert(merged@.push(extended)[b] == extended);
                            assert(merged@.push(extended)[a] == merged@.push(current)[a]);
                            assert(merged@.push(current)[a].end_at < current.start_at);
                        }
                    }
                    assert forall|a: int|
                        0 <= a < merged@.push(extended).len() implies range_valid(
                        #[trigger] merged@.push(extended)[a],
                    ) by {
                        if a < merged@.len() {
                            assert(merged@.push(extended)[a] == merged@.push(current)[a]);
                        } else {
                            assert(merged@.push(extended)[a] == extended);
                        }
                    }
                }
                assert forall|t: int|
                    covers(merged@.push(extended), t) == covers(
                        sorted@.take(i as int + 1),
                        t,
                    ) by {
                    assert(in_range(extended, t) == (in_range(current, t) || in_range(next, t)));
                    assert(covers(merged@.push(current), t) == covers(sorted@.take(i as int), t));
                }
            }
            current = extended;
        } else {
            proof {
                lemma_covers_push(merged@.push(current), next);
                assert(merged_form(merged@.push(current).push(next))) by {
                    assert forall|a: int, b: int|
                        0 <= a < b < merged@.push(current).push(next).len() implies (
                    #[trigger] merged@.push(current).push(next)[a]).end_at < (
                    #[trigger] merged@.push(current).push(next)[b]).start_at by {
                        let s = merged@.push(current).push(next);
                        let mlen = merged@.len() as int;
                        assert(merged@.push(current)[mlen] == current);
                        if b <= mlen {
                            assert(s[a] == merged@.push(current)[a]);
                            assert(s[b] == merged@.push(current)[b]);
                        } else {
                            assert(s[b] == next);
                            if a < mlen {
                                assert(s[a] == merged@.push(current)[a]);
                                assert(merged@.push(current)[a].end_at < current.start_at);
                            } else {
                                assert(s[a] == current);
                            }
                        }
                    }
                }
            }
            merged.push(current);
            current = next;
        }
        i += 1;
    }
    merged.push(current);
    proof {
        assert(sorted@.take(n as int) =~= sorted@);
        assert forall|t: int| covers(merged@, t) == covers(ranges@, t) by {
            assert(covers(merged@, t) == covers(sorted@.take(n as int), t));
            assert(covers(sorted@, t) == covers(ranges@, t));
        }
    }
    merged
}

/// In merged form, no covered instant lies before the first range.
proof fn lemma_merged_min(s: Seq<TimeRangeRequest>)
    requires
        merged_form(s),
        s.len() > 0,
    ensures
        covers(s, s[0].start_at as int),
        forall|t: int| #[trigger] covers(s, t) ==> t >= s[0].start_at,
{
    assert(in_range(s[0], s[0].start_at as int));
    assert forall|t: int| #[trigger] covers(s, t) implies t >= s[0].start_at by {
        let i = choose|i: int| 0 <= i < s.len() && in_range(s[i], t);
        if i > 0 {
            assert(s[0].end_at < s[i].start_at);
        }
    }
}

/// In merged form, every instant of the first range is covered, and the
/// end of the first range is the first uncovered instant at or after its
/// start.
proof fn lemma_merged_first_end(s: Seq<TimeRangeRequest>)
    requires
        merged_form(s),
        s.len() > 0,
    ensures
        !covers(s, s[0].end_at as int),
        forall|t: int| s[0].start_at <= t < s[0].end_at ==> #[trigger] covers(s, t),
{
    assert forall|i: int| 0 <= i < s.len() implies !in_range(#[trigger] s[i], s[0].end_at as int) by {
        if i > 0 {
            assert(s[0].end_at < s[i].start_at);
        }
    }
    assert forall|t: int| s[0].start_at <= t < s[0].end_at implies #[trigger] covers(s, t) by {
        assert(in_range(s[0], t));
    }
}

/// Dropping the first range of a merged-form sequence removes exactly
/// the instants that the first range covers.
proof fn lemma_merged_drop_first(s: Seq<TimeRangeRequest>)
    requires
        merged_form(s),
        s.len() > 0,
    ensures
        merged_form(s.drop_first()),
        forall|t: int|
            #![trigger covers(s.drop_first(), t)]
            covers(s.drop_first(), t) == (covers(s, t) && !in_range(s[0], t)),
{
    let s1 = s.drop_first();
    assert forall|a: int, b: int|
        #![trigger s1[a], s1[b]]
        0 <= a < b < s1.len() implies s1[a].end_at < s1[b].start_at by {
        assert(s1[a] == s[a + 1]);
        assert(s1[b] == s[b + 1]);
    }
    assert forall|i: int| 0 <= i < s1.len() implies range_valid(#[trigger] s1[i]) by {
        assert(s1[i] == s[i + 1]);
    }
    assert forall|t: int| covers(s1, t) == (covers(s, t) && !in_range(s[0], t)) by {
        if covers(s1, t) {
            let i = choose|i: int| 0 <= i < s1.len() && in_range(s1[i], t);
            assert(s1[i] == s[i + 1]);
            assert(covers(s, t));
            assert(s[0].end_at < s[i + 1].start_at);
            assert(!in_range(s[0], t));
        }
        if covers(s, t) && !in_range(s[0], t) {
            let i = choose|i: int| 0 <= i < s.len() && in_range(s[i], t);
            assert(i > 0);
            assert(s1[i - 1] == s[i]);
            assert(covers(s1, t));
        }
    }
}

/// Merged form is a canonical form: two merged-form sequences covering
/// the same instants are equal.
pub proof fn lemma_merged_form_unique(a: Seq<TimeRangeRequest>, b: Seq<TimeRangeRequest>)
    requires
        merged_form(a),
        merged_form(b),
        forall|t: int|
            #![trigger covers(a, t)]
            #![trigger covers(b, t)]
            covers(a, t) == covers(b, t),
    ensures
        a == b,
    decreases a.len(),
{
    if a.len() == 0 {
        if b.len() > 0 {
            lemma_merged_min(b);
            assert(covers(a, b[0].start_at as int));
            assert(false);
        }
        assert(a =~= b);
    } else if b.len() == 0 {
        lemma_merged_min(a);
        assert(covers(b, a[0].start_at as int));
        assert(false);
    } else {
        lemma_merged_min(a);
        lemma_merged_min(b);
        lemma_merged_first_end(a);
        lemma_merged_first_end(b);
        // The first covered instant on each side is the first start.
        assert(a[0].start_at == b[0].start_at);
        // The first uncovered instant after that is the first end.
        if a[0].end_at < b[0].end_at {
            assert(in_range(b[0], a[0].end_at as int));
            assert(covers(b, a[0].end_at as int));
            assert(false);
        }
        if b[0].end_at < a[0].end_at {
            assert(in_range(a[0], b[0].end_at as int));
            assert(covers(a, b[0].end_at as int));
            assert(false);
        }
        assert(a[0] == b[0]);
        lemma_merged_drop_first(a);
        lemma_merged_drop_first(b);
        assert forall|t: int|
            covers(a.drop_first(), t) == (#[trigger] covers(b.drop_first(), t)) by {
            assert(covers(a.drop_first(), t) == (covers(a, t) && !in_range(a[0], t)));
            assert(covers(b.drop_first(), t) == (covers(b, t) && !in_range(b[0], t)));
        }
        lemma_merged_form_unique(a.drop_first(), b.drop_first());
        assert forall|i: int| 0 <= i < a.len() implies a[i] == b[i] by {
            if i > 0 {
                assert(a.drop_first()[i - 1] == a[i]);
                assert(b.drop_first()[i - 1] == b[i]);
            }
        }
        assert(a =~= b);
    }
}

/// Merging is idempotent: merging the result of a merge returns that
/// result unchanged.
pub proof fn lemma_merge_idempotent(
    x: Seq<TimeRangeRequest>,
    y: Seq<TimeRangeRequest>,
    z: Seq<TimeRangeRequest>,
)
    requires
        is_merge_of(x, y),
        is_merge_of(y, z),
    ensures
        z == y,
{
    lemma_merged_form_unique(z, y);
}

/// Merging is input-order independent: two inputs holding the same
/// ranges (as a multiset) merge to the identical output.
pub proof fn lemma_merge_order_independent(
    x1: Seq<TimeRangeRequest>,
    x2: Seq<TimeRangeRequest>,
    y1: Seq<TimeRangeRequest>,
    y2: Seq<TimeRangeRequest>,
)
    requires
        x1.to_multiset() == x2.to_multiset(),
        is_merge_of(x1, y1),
        is_merge_of(x2, y2),
    ensures
        y1 == y2,
{
    lemma_multiset_covers(x1, x2);
    assert forall|t: int| covers(y1, t) == (#[trigger] covers(y2, t)) by {
        assert(covers(y1, t) == covers(x1, t));
        assert(covers(x1, t) == covers(x2, t));
        assert(covers(y2, t) == covers(x2, t));
    }
    lemma_merged_form_unique(y1, y2);
}

} // verus!
