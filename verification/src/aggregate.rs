//! Aggregation of pre-joined, pre-ordered participant/availability rows
//! into one record per participant.
//!
//! The input is one row per (participant, availability range) pair, with
//! a participant that has no ranges appearing once with an empty range
//! slot. Rows of one participant are consecutive, and the upstream join
//! orders them organizer first, then by creation order, then by range
//! start. The aggregator does not re-sort: it groups consecutive rows by
//! participant identity (never by display name) and preserves first-seen
//! order.

use vstd::prelude::*;

use crate::interval::TimeRangeRequest;

verus! {

/// One row of the results join: a participant and at most one of its
/// availability ranges.
#[derive(Clone, Debug)]
pub struct ResultRow {
    /// The participant's underlying identity. Distinct participants with
    /// equal display names have distinct identities.
    pub participant_id: i64,
    pub name: String,
    pub is_organizer: bool,
    pub comment: Option<String>,
    /// `None` for the single row of a participant without ranges.
    pub range: Option<TimeRangeRequest>,
}

/// One aggregated record: a participant with its full range list.
#[derive(Clone, Debug)]
pub struct ParticipantAvailability {
    pub name: String,
    pub is_organizer: bool,
    pub comment: Option<String>,
    pub availabilities: Vec<TimeRangeRequest>,
}

/// Mathematical model of a [`ParticipantAvailability`].
pub struct ParticipantViewRec {
    pub name: Seq<char>,
    pub is_organizer: bool,
    pub comment: Option<Seq<char>>,
    pub availabilities: Seq<TimeRangeRequest>,
}

pub open spec fn opt_string_view(o: Option<String>) -> Option<Seq<char>> {
    match o {
        Some(s) => Some(s@),
        None => None,
    }
}

impl View for ParticipantAvailability {
    type V = ParticipantViewRec;

    open spec fn view(&self) -> ParticipantViewRec {
        ParticipantViewRec {
            name: self.name@,
            is_organizer: self.is_organizer,
            comment: opt_string_view(self.comment),
            availabilities: self.availabilities@,
        }
    }
}

/// The ranges contributed by one row: none for an empty range slot.
pub open spec fn opt_range_seq(r: Option<TimeRangeRequest>) -> Seq<TimeRangeRequest> {
    match r {
        Some(x) => seq![x],
        None => Seq::empty(),
    }
}

/// Does row `i` start a new group (first row, or a different participant
/// identity than the row before it)?
pub open spec fn starts_group(rows: Seq<ResultRow>, i: int) -> bool {
    i == 0 || rows[i - 1].participant_id != rows[i].participant_id
}

/// The record opened by the first row of a group.
pub open spec fn fresh_group(row: ResultRow) -> ParticipantViewRec {
    ParticipantViewRec {
        name: row.name@,
        is_organizer: row.is_organizer,
        comment: opt_string_view(row.comment),
        availabilities: opt_range_seq(row.range),
    }
}

/// Appends a row's range to the most recently opened record.
pub open spec fn extend_last(acc: Seq<ParticipantViewRec>, row: ResultRow) -> Seq<
    ParticipantViewRec,
>
    recommends
        acc.len() > 0,
{
    let last = acc.last();
    acc.update(
        acc.len() - 1,
        ParticipantViewRec {
            name: last.name,
            is_organizer: last.is_organizer,
            comment: last.comment,
            availabilities: last.availabilities + opt_range_seq(row.range),
        },
    )
}

/// The aggregated view of a row sequence: one record per group of
/// consecutive rows sharing a participant identity, in input order.
pub open spec fn aggregate_spec(rows: Seq<ResultRow>) -> Seq<ParticipantViewRec>
    decreases rows.len(),
{
    if rows.len() == 0 {
        Seq::empty()
    } else {
        let prefix = aggregate_spec(rows.drop_last());
        if starts_group(rows, rows.len() - 1) {
            prefix.push(fresh_group(rows.last()))
        } else {
            extend_last(prefix, rows.last())
        }
    }
}

/// The views of the aggregated records of `s`.
pub open spec fn views_of(s: Seq<ParticipantAvailability>) -> Seq<ParticipantViewRec> {
    s.map_values(|p: ParticipantAvailability| p@)
}

/// The aggregation never outputs more records than rows, and outputs at
/// least one record for a non-empty input.
pub proof fn lemma_aggregate_len(rows: Seq<ResultRow>)
    ensures
        rows.len() == 0 ==> aggregate_spec(rows).len() == 0,
        rows.len() > 0 ==> 1 <= aggregate_spec(rows).len() <= rows.len(),
    decreases rows.len(),
{
    if rows.len() > 0 {
        lemma_aggregate_len(rows.drop_last());
    }
}

fn clone_opt_string(o: &Option<String>) -> (r: Option<String>)
    ensures
        r == *o,
{
    match o {
        Some(s) => Some(s.clone()),
        None => None,
    }
}

/// Builds the record opened by the group-starting row `row`.
fn fresh_record(row: &ResultRow) -> (r: ParticipantAvailability)
    ensures
        r@ == fresh_group(*row),
{
    let mut availabilities: Vec<TimeRangeRequest> = Vec::new();
    if let Some(range) = row.range {
        availabilities.push(range);
    }
    proof {
        assert(availabilities@ =~= opt_range_seq(row.range));
    }
    ParticipantAvailability {
        name: row.name.clone(),
        is_organizer: row.is_organizer,
        comment: clone_opt_string(&row.comment),
        availabilities,
    }
}

/// Groups the pre-ordered rows by consecutive participant identity,
/// returning one record per participant in first-seen order.
pub fn aggregate_results(rows: Vec<ResultRow>) -> (out: Vec<ParticipantAvailability>)
    ensures
        views_of(out@) == aggregate_spec(rows@),
        out@.len() <= rows@.len(),
{
    let n = rows.len();
    let mut out: Vec<ParticipantAvailability> = Vec::new();
    if n == 0 {
        proof {
            assert(views_of(out@) =~= aggregate_spec(rows@));
        }
        return out;
    }

    let mut cur = fresh_record(&rows[0]);
    proof {
        assert(rows@.take(1).drop_last() =~= Seq::<ResultRow>::empty());
        assert(rows@.take(1).last() == rows@[0]);
        assert(views_of(out@) =~= Seq::<ParticipantViewRec>::empty());
        assert(aggregate_spec(Seq::<ResultRow>::empty()) =~= Seq::<ParticipantViewRec>::empty());
        assert(views_of(out@).push(cur@) =~= aggregate_spec(rows@.take(1)));
    }
    let mut i: usize = 1;
    while i < n
        invariant
            1 <= i <= n,
            n == rows@.len(),
            views_of(out@).push(cur@) == aggregate_spec(rows@.take(i as int)),
        decreases n - i,
    {
        let ghost prefix = rows@.take(i as int);
        let ghost prefix1 = rows@.take(i as int + 1);
        proof {
            assert(prefix1.drop_last() =~= prefix);
            assert(prefix1.last() == rows@[i as int]);
            assert(starts_group(prefix1, i as int) == starts_group(rows@, i as int));
        }
        if rows[i].participant_id == rows[i - 1].participant_id {
            let ghost old_cur = cur@;
            let ghost old_avail = cur.availabilities@;
            if let Some(range) = rows[i].range {
                cur.availabilities.push(range);
            }
            proof {
                assert(cur.availabilities@ =~= old_avail + opt_range_seq(rows@[i as int].range));
                assert(views_of(out@).push(cur@) =~= extend_last(
                    views_of(out@).push(old_cur),
                    rows@[i as int],
                ));
            }
        } else {
            let finished = cur;
            cur = fresh_record(&rows[i]);
            out.push(finished);
            proof {
                assert(views_of(out@) =~= views_of(out@.drop_last()).push(finished@));
                assert(views_of(out@).push(cur@) =~= aggregate_spec(prefix).push(
                    fresh_group(rows@[i as int]),
                ));
            }
        }
        i += 1;
    }
    out.push(cur);
    proof {
        assert(rows@.take(n as int) =~= rows@);
        assert(views_of(out@) =~= views_of(out@.drop_last()).push(out@.last()@));
        lemma_aggregate_len(rows@);
    }
    out
}

/// The indices of the rows that start a group, in order.
pub open spec fn group_leaders(rows: Seq<ResultRow>) -> Seq<int>
    decreases rows.len(),
{
    if rows.len() == 0 {
        Seq::empty()
    } else if starts_group(rows, rows.len() - 1) {
        group_leaders(rows.drop_last()).push(rows.len() - 1)
    } else {
        group_leaders(rows.drop_last())
    }
}

/// The aggregation yields exactly one record per group of consecutive
/// rows sharing a participant identity, in input order, and each record
/// carries the name, organizer flag and comment of the group's first
/// row. In particular, two participants with equal display names but
/// distinct identities yield two separate records, and rows ordered
/// organizer first keep the organizer's record first.
pub proof fn lemma_aggregate_one_entry_per_group(rows: Seq<ResultRow>)
    ensures
        aggregate_spec(rows).len() == group_leaders(rows).len(),
        forall|k: int|
            0 <= k < group_leaders(rows).len() ==> {
                let lead = #[trigger] group_leaders(rows)[k];
                &&& 0 <= lead < rows.len()
                &&& starts_group(rows, lead)
                &&& aggregate_spec(rows)[k].name == rows[lead].name@
                &&& aggregate_spec(rows)[k].is_organizer == rows[lead].is_organizer
                &&& aggregate_spec(rows)[k].comment == opt_string_view(rows[lead].comment)
            },
        forall|k1: int, k2: int|
            0 <= k1 < k2 < group_leaders(rows).len() ==> #[trigger] group_leaders(rows)[k1]
                < #[trigger] group_leaders(rows)[k2],
    decreases rows.len(),
{
    if rows.len() > 0 {
        let sub = rows.drop_last();
        lemma_aggregate_one_entry_per_group(sub);
        assert forall|k: int| 0 <= k < group_leaders(sub).len() implies {
            let lead = #[trigger] group_leaders(sub)[k];
            &&& 0 <= lead < rows.len()
            &&& starts_group(rows, lead)
            &&& aggregate_spec(sub)[k].name == rows[lead].name@
            &&& aggregate_spec(sub)[k].is_organizer == rows[lead].is_organizer
            &&& aggregate_spec(sub)[k].comment == opt_string_view(rows[lead].comment)
        } by {
            let lead = group_leaders(sub)[k];
            assert(sub[lead] == rows[lead]);
            if lead > 0 {
                assert(sub[lead - 1] == rows[lead - 1]);
            }
        }
        if starts_group(rows, rows.len() - 1) {
            // One more group: its record is pushed at the end.
            assert(aggregate_spec(rows) == aggregate_spec(sub).push(fresh_group(rows.last())));
        } else {
            // Same group: only the last record's range list changes.
            let prefix = aggregate_spec(sub);
            lemma_aggregate_len(sub);
            assert(aggregate_spec(rows) == extend_last(prefix, rows.last()));
            assert forall|k: int| 0 <= k < group_leaders(rows).len() implies {
                let lead = #[trigger] group_leaders(rows)[k];
                &&& 0 <= lead < rows.len()
                &&& starts_group(rows, lead)
                &&& aggregate_spec(rows)[k].name == rows[lead].name@
                &&& aggregate_spec(rows)[k].is_organizer == rows[lead].is_organizer
                &&& aggregate_spec(rows)[k].comment == opt_string_view(rows[lead].comment)
            } by {
                assert(group_leaders(rows) == group_leaders(sub));
                if k < prefix.len() - 1 {
                    assert(aggregate_spec(rows)[k] == prefix[k]);
                }
            }
        }
    }
}

} // verus!
