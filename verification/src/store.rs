//! The activity repository.
//!
//! The persisted state is one table of activity rows.  Here the table is
//! modeled as a sequence of records kept newest-first by date, with unique
//! identities assigned on insert — the properties the relational store
//! provides per statement.  Every operation is specified against that
//! sequence: what rows match a range, what an insert or update does to the
//! sequence, and what each read returns.  Reads enrich every row with a
//! display color derived from its type label; the color is never stored.
//!
//! Durations and scores are carried in hundredths (centihours and
//! centipoints), which the two-decimal rendering of the UI works in.

use vstd::prelude::*;
use crate::time::LocalDateTime;
use crate::time::datetime_le;
use crate::color::string_to_rgb;
use crate::color::spec_color_of_label;
use crate::text::{spec_str_lt, str_lt, lemma_str_lt_trichotomy, lemma_str_lt_transitive};

verus! {

/// Whether a row's date lies in the closed range `[start, end]`, where a
/// missing bound leaves that side open.
pub open spec fn spec_in_opt_range(
    rv: RecordView,
    start: Option<LocalDateTime>,
    end: Option<LocalDateTime>,
) -> bool {
    &&& (start matches Some(s) ==> s.le(rv.date))
    &&& (end matches Some(e) ==> rv.date.le(e))
}

/// Strictly ascending label sequences: sorted, hence duplicate-free.
pub open spec fn spec_labels_sorted(s: Seq<Seq<char>>) -> bool {
    forall|i: int, j: int| 0 <= i < j < s.len() ==> spec_str_lt(#[trigger] s[i], #[trigger] s[j])
}

pub open spec fn spec_labels_contain(s: Seq<Seq<char>>, l: Seq<char>) -> bool {
    exists|i: int| 0 <= i < s.len() && s[i] == l
}

/// Whether some row among the first `n` lies in the range and carries the
/// type label `l`.
pub open spec fn spec_prefix_has_kind(
    rows: Seq<RecordView>,
    n: int,
    start: Option<LocalDateTime>,
    end: Option<LocalDateTime>,
    l: Seq<char>,
) -> bool {
    exists|k: int|
        0 <= k < n <= rows.len() && spec_in_opt_range(#[trigger] rows[k], start, end) && rows[k].kind
            == l
}

/// Whether some row among the first `n` lies in the range and carries the
/// non-empty location label `l`.
pub open spec fn spec_prefix_has_location(
    rows: Seq<RecordView>,
    n: int,
    start: Option<LocalDateTime>,
    end: Option<LocalDateTime>,
    l: Seq<char>,
) -> bool {
    exists|k: int|
        0 <= k < n <= rows.len() && spec_in_opt_range(#[trigger] rows[k], start, end)
            && rows[k].location == l && l.len() > 0
}

/// The view of a list of labels.
pub open spec fn spec_labels_view(v: Seq<String>) -> Seq<Seq<char>> {
    v.map_values(|s: String| s@)
}

/// Whether a row's date lies in the half-open summary range `[from, to)`.
pub open spec fn spec_in_summary_range(rv: RecordView, from: LocalDateTime, to: LocalDateTime) -> bool {
    from.le(rv.date) && rv.date.lt(to)
}

/// The summary-range test as a predicate value, so that every use names
/// the same function term.
pub open spec fn spec_range_pred(from: LocalDateTime, to: LocalDateTime) -> spec_fn(
    RecordView,
) -> bool {
    |rv: RecordView| spec_in_summary_range(rv, from, to)
}

/// The label test as a predicate value.
pub open spec fn spec_kind_pred(kind: Seq<char>) -> spec_fn(RecordView) -> bool {
    |rv: RecordView| rv.kind == kind
}

/// The rows among the first `n` that lie in the summary range, in stored
/// order.
pub open spec fn spec_range_prefix(
    rows: Seq<RecordView>,
    n: int,
    from: LocalDateTime,
    to: LocalDateTime,
) -> Seq<RecordView> {
    rows.take(n).filter(spec_range_pred(from, to))
}

/// A row's duration, with a missing duration counted as zero.
pub open spec fn spec_duration_of(rv: RecordView) -> int {
    match rv.duration_centihours {
        Some(d) => d as int,
        None => 0,
    }
}

/// The total duration of a row sequence, missing durations counted as zero.
pub open spec fn spec_sum_duration(rows: Seq<RecordView>) -> int
    decreases rows.len(),
{
    if rows.len() == 0 {
        0
    } else {
        spec_sum_duration(rows.drop_last()) + spec_duration_of(rows.last())
    }
}

/// How many of the rows carry the type label `kind`.
pub open spec fn spec_count_kind(rows: Seq<RecordView>, kind: Seq<char>) -> int {
    rows.filter(spec_kind_pred(kind)).len() as int
}

/// The total duration of the rows carrying the type label `kind`.
pub open spec fn spec_hours_kind(rows: Seq<RecordView>, kind: Seq<char>) -> int {
    spec_sum_duration(rows.filter(spec_kind_pred(kind)))
}

/// One line of a season summary: a type label, how many rows carry it in
/// the range, and the sum of their durations.
#[derive(Debug)]
pub struct Summary {
    pub kind: String,
    pub days: usize,
    pub hours_centi: i128,
}

/// The abstract value of a [`Summary`].
pub struct SummaryView {
    pub kind: Seq<char>,
    pub days: usize,
    pub hours_centi: i128,
}

impl View for Summary {
    type V = SummaryView;

    open spec fn view(&self) -> SummaryView {
        SummaryView { kind: self.kind@, days: self.days, hours_centi: self.hours_centi }
    }
}

/// Whether some summary line carries the type label `k`.
pub open spec fn spec_summaries_have(s: Seq<Summary>, k: Seq<char>) -> bool {
    exists|i: int| 0 <= i < s.len() && (#[trigger] s[i]).kind@ == k
}

/// Whether some summary line among the first `n` has the abstract value `v`.
pub open spec fn spec_prefix_summary(s: Seq<Summary>, n: int, v: SummaryView) -> bool {
    exists|j: int| 0 <= j < n <= s.len() && (#[trigger] s[j])@ == v
}

/// Whether some summary line has the abstract value `v`.
pub open spec fn spec_summaries_contain(s: Seq<Summary>, v: SummaryView) -> bool {
    exists|i: int| 0 <= i < s.len() && (#[trigger] s[i])@ == v
}

/// A line is correct for a row range when its count and duration sum are
/// those of its label over that range, and its label occurs in the range.
pub open spec fn spec_summary_line_correct(rng: Seq<RecordView>, v: SummaryView) -> bool {
    &&& v.days as int == spec_count_kind(rng, v.kind)
    &&& v.hours_centi as int == spec_hours_kind(rng, v.kind)
    &&& spec_count_kind(rng, v.kind) >= 1
}

/// Every summary line is correct for the row range `p`.
pub open spec fn spec_lines_correct(acc: Seq<Summary>, p: Seq<RecordView>) -> bool {
    forall|i: int| 0 <= i < acc.len() ==> spec_summary_line_correct(p, (#[trigger] acc[i])@)
}

/// No two summary lines carry the same type label.
pub open spec fn spec_kinds_distinct(acc: Seq<Summary>) -> bool {
    forall|i: int, j: int|
        0 <= i < j < acc.len() ==> (#[trigger] acc[i]).kind@ != (#[trigger] acc[j]).kind@
}

/// The summary lines carry exactly the type labels that occur in the row
/// range `p`.
pub open spec fn spec_kinds_match(acc: Seq<Summary>, p: Seq<RecordView>) -> bool {
    forall|k: Seq<char>|
        #![trigger spec_summaries_have(acc, k)]
        #![trigger spec_count_kind(p, k)]
        spec_summaries_have(acc, k) <==> spec_count_kind(p, k) >= 1
}

/// `out` holds exactly the abstract values of the first `n` lines of `acc`.
pub open spec fn spec_contains_prefix(out: Seq<Summary>, acc: Seq<Summary>, n: int) -> bool {
    forall|v: SummaryView|
        #![trigger spec_summaries_contain(out, v)]
        #![trigger spec_prefix_summary(acc, n, v)]
        spec_summaries_contain(out, v) <==> spec_prefix_summary(acc, n, v)
}

/// `a` and `b` hold exactly the same abstract line values.
pub open spec fn spec_contains_same(a: Seq<Summary>, b: Seq<Summary>) -> bool {
    forall|v: SummaryView|
        #![trigger spec_summaries_contain(a, v)]
        #![trigger spec_summaries_contain(b, v)]
        spec_summaries_contain(a, v) <==> spec_summaries_contain(b, v)
}

/// Failure of a repository operation.
#[derive(Clone, Copy, Debug, PartialEq, Eq, Structural)]
pub enum StoreError {
    /// Malformed input to insert or update.
    ValidationError,
    /// A reference to an identity that no row has.
    NotFound,
    /// The store reported an integrity failure.
    ConstraintViolation,
    /// The store could not be reached or the driver failed.
    StoreUnavailable,
}

/// A single distinct type label, as the label queries report one.
#[derive(Clone, Debug)]
pub struct ActivityType {
    pub label: String,
}

/// The wire shape of one stored row: the date still in its storage text
/// form, the numeric fields in hundredths.
#[derive(Clone, Debug)]
pub struct ActivityRow {
    pub id: i64,
    pub date: String,
    pub location: String,
    pub duration_centihours: Option<i64>,
    pub kind: String,
    pub score_centi: Option<i64>,
    pub description: String,
}

/// An activity as callers see it: `id` is `None` exactly until the store
/// assigns one, and `type_color` is derived from `kind` on every read.
#[derive(Clone, Debug)]
pub struct Activity {
    pub id: Option<i64>,
    pub date: LocalDateTime,
    pub location: String,
    pub duration_centihours: Option<i64>,
    pub kind: String,
    pub type_color: String,
    pub score_centi: Option<i64>,
    pub description: String,
}

/// The abstract value of an [`Activity`].
pub struct ActivityView {
    pub id: Option<i64>,
    pub date: LocalDateTime,
    pub location: Seq<char>,
    pub duration_centihours: Option<i64>,
    pub kind: Seq<char>,
    pub type_color: Seq<char>,
    pub score_centi: Option<i64>,
    pub description: Seq<char>,
}

impl View for Activity {
    type V = ActivityView;

    open spec fn view(&self) -> ActivityView {
        ActivityView {
            id: self.id,
            date: self.date,
            location: self.location@,
            duration_centihours: self.duration_centihours,
            kind: self.kind@,
            type_color: self.type_color@,
            score_centi: self.score_centi,
            description: self.description@,
        }
    }
}

/// One persisted row: an activity that the store has assigned an identity.
#[derive(Clone, Debug)]
pub struct ActivityRecord {
    pub id: i64,
    pub date: LocalDateTime,
    pub location: String,
    pub duration_centihours: Option<i64>,
    pub kind: String,
    pub score_centi: Option<i64>,
    pub description: String,
}

/// The abstract value of an [`ActivityRecord`].
pub struct RecordView {
    pub id: i64,
    pub date: LocalDateTime,
    pub location: Seq<char>,
    pub duration_centihours: Option<i64>,
    pub kind: Seq<char>,
    pub score_centi: Option<i64>,
    pub description: Seq<char>,
}

impl View for ActivityRecord {
    type V = RecordView;

    open spec fn view(&self) -> RecordView {
        RecordView {
            id: self.id,
            date: self.date,
            location: self.location@,
            duration_centihours: self.duration_centihours,
            kind: self.kind@,
            score_centi: self.score_centi,
            description: self.description@,
        }
    }
}

/// The activity a stored row reads back as: all persisted fields, the
/// identity wrapped, and the display color derived fresh from the label.
pub open spec fn spec_activity_of(r: RecordView) -> ActivityView {
    ActivityView {
        id: Some(r.id),
        date: r.date,
        location: r.location,
        duration_centihours: r.duration_centihours,
        kind: r.kind,
        type_color: spec_color_of_label(r.kind),
        score_centi: r.score_centi,
        description: r.description,
    }
}

/// Input rules for insert and update: the type label is non-empty, the
/// date is a valid calendar value, and a duration, when given, is
/// non-negative.
pub open spec fn spec_valid_fields(a: ActivityView) -> bool {
    &&& a.kind.len() > 0
    &&& a.date.well_formed()
    &&& (a.duration_centihours matches Some(d) ==> d >= 0)
}

/// A well-formed row: positive identity, valid date, valid duration, and a
/// non-empty type label.
pub open spec fn spec_record_wf(r: RecordView) -> bool {
    &&& r.id >= 1
    &&& r.date.well_formed()
    &&& r.kind.len() > 0
    &&& (r.duration_centihours matches Some(d) ==> d >= 0)
}

/// Rows are kept newest-first: later rows have dates no newer.
pub open spec fn spec_rows_sorted(rows: Seq<RecordView>) -> bool {
    forall|i: int, j: int|
        0 <= i < j < rows.len() ==> (#[trigger] rows[j]).date.le((#[trigger] rows[i]).date)
}

pub open spec fn spec_ids_unique(rows: Seq<RecordView>) -> bool {
    forall|i: int, j: int|
        0 <= i < j < rows.len() ==> (#[trigger] rows[i]).id != (#[trigger] rows[j]).id
}

/// The activity table, modeled directly: rows newest-first, identities
/// unique and all below the next identity to hand out.
pub struct ActivityStore {
    rows: Vec<ActivityRecord>,
    next_id: i64,
}

impl View for ActivityStore {
    type V = Seq<RecordView>;

    closed spec fn view(&self) -> Seq<RecordView> {
        self.rows@.map_values(|r: ActivityRecord| r@)
    }
}

impl ActivityStore {
    /// The internal invariant every operation preserves.
    pub closed spec fn inv(self) -> bool {
        &&& spec_rows_sorted(self@)
        &&& spec_ids_unique(self@)
        &&& forall|i: int| 0 <= i < self@.len() ==> spec_record_wf(#[trigger] self@[i])
        &&& forall|i: int| 0 <= i < self@.len() ==> (#[trigger] self@[i]).id < self.next_id
        &&& 1 <= self.next_id
    }

    /// An empty store; the first insert is assigned identity 1.
    pub fn new() -> (r: ActivityStore)
        ensures
            r.inv(),
            r@ == Seq::<RecordView>::empty(),
            r.spec_next_id() == 1,
    {
        let s = ActivityStore { rows: Vec::new(), next_id: 1 };
        proof {
            assert(s@ =~= Seq::<RecordView>::empty());
        }
        s
    }

    /// The row with the given identity, enriched with its display color,
    /// or `None` when no row has that identity.
    pub fn get_activity(&self, id: i64) -> (r: Option<Activity>)
        requires
            self.inv(),
        ensures
            r is Some <==> exists|i: int| 0 <= i < self@.len() && (#[trigger] self@[i]).id == id,
            r matches Some(a) ==> exists|i: int|
                0 <= i < self@.len() && (#[trigger] self@[i]).id == id && a@ == spec_activity_of(
                    self@[i],
                ),
    {
        let n = self.rows.len();
        for idx in 0..n
            invariant
                n == self@.len(),
                self@ == self.rows@.map_values(|r: ActivityRecord| r@),
                forall|j: int| 0 <= j < idx ==> (#[trigger] self@[j]).id != id,
        {
            if self.rows[idx].id == id {
                let a = activity_of_record(&self.rows[idx]);
                assert(a@ == spec_activity_of(self@[idx as int]));
                return Some(a);
            }
        }
        None
    }

    /// All activities dated `from` or later, newest first, each enriched
    /// with its display color.
    pub fn get_activities_from(&self, from: LocalDateTime) -> (r: Vec<Activity>)
        requires
            self.inv(),
            from.well_formed(),
        ensures
            r@.map_values(|a: Activity| a@) == self@.filter(
                |rv: RecordView| from.le(rv.date),
            ).map_values(|rv: RecordView| spec_activity_of(rv)),
            forall|i: int, j: int|
                0 <= i < j < r@.len() ==> (#[trigger] r@[j])@.date.le((#[trigger] r@[i])@.date),
    {
        let ghost pred = |rv: RecordView| from.le(rv.date);
        let ghost conv = |rv: RecordView| spec_activity_of(rv);
        let mut out: Vec<Activity> = Vec::new();
        let n = self.rows.len();
        proof {
            assert(self@.take(0).filter(pred) =~= Seq::<RecordView>::empty());
            assert(out@.map_values(|a: Activity| a@) =~= self@.take(0).filter(pred).map_values(
                conv,
            ));
        }
        for idx in 0..n
            invariant
                self.inv(),
                from.well_formed(),
                n == self@.len(),
                self@ == self.rows@.map_values(|r: ActivityRecord| r@),
                pred == (|rv: RecordView| from.le(rv.date)),
                conv == (|rv: RecordView| spec_activity_of(rv)),
                out@.map_values(|a: Activity| a@) == self@.take(idx as int).filter(
                    pred,
                ).map_values(conv),
                forall|a: int, b: int|
                    0 <= a < b < out@.len() ==> (#[trigger] out@[b])@.date.le(
                        (#[trigger] out@[a])@.date,
                    ),
                forall|a: int, j: int|
                    0 <= a < out@.len() && idx <= j < n ==> (#[trigger] self@[j]).date.le(
                        (#[trigger] out@[a])@.date,
                    ),
        {
            let ghost pre_filtered = self@.take(idx as int).filter(pred);
            proof {
                reveal(Seq::filter);
                assert(self@.take(idx as int + 1).drop_last() =~= self@.take(idx as int));
                assert(self@.take(idx as int + 1).last() == self@[idx as int]);
            }
            if datetime_le(&from, &self.rows[idx].date) {
                let a = activity_of_record(&self.rows[idx]);
                let ghost pre_out = out@;
                out.push(a);
                proof {
                    assert(out@ =~= pre_out.push(a));
                    assert(self@.take(idx as int + 1).filter(pred) == pre_filtered.push(
                        self@[idx as int],
                    ));
                    pre_filtered.lemma_push_map_commute(conv, self@[idx as int]);
                    pre_out.lemma_push_map_commute(|x: Activity| x@, a);
                    assert(out@.map_values(|x: Activity| x@) =~= self@.take(
                        idx as int + 1,
                    ).filter(pred).map_values(conv));
                    assert(a@.date == self@[idx as int].date);
                    assert forall|x: int, j: int|
                        0 <= x < out@.len() && idx + 1 <= j < n implies (
                    #[trigger] self@[j]).date.le((#[trigger] out@[x])@.date) by {
                        if x < pre_out.len() {
                            assert(out@[x] == pre_out[x]);
                        } else {
                            assert(out@[x] == a);
                        }
                    }
                }
            } else {
                proof {
                    assert(self@.take(idx as int + 1).filter(pred) == pre_filtered);
                }
            }
        }
        proof {
            assert(self@.take(n as int) =~= self@);
        }
        out
    }

    /// The distinct type labels among rows in the closed date range,
    /// ascending by code point, without duplicates.  A missing bound
    /// leaves that side of the range open.
    pub fn get_all_types(&self, start: Option<LocalDateTime>, end: Option<LocalDateTime>) -> (r:
        Vec<String>)
        requires
            self.inv(),
            start matches Some(s) ==> s.well_formed(),
            end matches Some(e) ==> e.well_formed(),
        ensures
            spec_labels_sorted(spec_labels_view(r@)),
            forall|l: Seq<char>| #[trigger]
                spec_labels_contain(spec_labels_view(r@), l) <==> spec_prefix_has_kind(
                    self@,
                    self@.len() as int,
                    start,
                    end,
                    l,
                ),
    {
        let mut out: Vec<String> = Vec::new();
        let n = self.rows.len();
        for idx in 0..n
            invariant
                self.inv(),
                start matches Some(s) ==> s.well_formed(),
                end matches Some(e) ==> e.well_formed(),
                n == self@.len(),
                self@ == self.rows@.map_values(|r: ActivityRecord| r@),
                spec_labels_sorted(spec_labels_view(out@)),
                forall|l: Seq<char>| #[trigger]
                    spec_labels_contain(spec_labels_view(out@), l) <==> spec_prefix_has_kind(
                        self@,
                        idx as int,
                        start,
                        end,
                        l,
                    ),
        {
            assert(spec_record_wf(self@[idx as int]));
            if in_opt_range(&self.rows[idx], &start, &end) {
                insert_sorted_label(&mut out, &self.rows[idx].kind);
                assert forall|l: Seq<char>| #[trigger]
                    spec_labels_contain(spec_labels_view(out@), l) implies spec_prefix_has_kind(
                    self@,
                    idx as int + 1,
                    start,
                    end,
                    l,
                ) by {
                    if l == self@[idx as int].kind {
                        assert(spec_in_opt_range(self@[idx as int], start, end));
                    }
                }
            }
        }
        out
    }

    /// The distinct non-empty location labels among rows in the closed
    /// date range, ascending by code point, without duplicates.
    pub fn get_all_locations(&self, start: Option<LocalDateTime>, end: Option<LocalDateTime>) -> (r:
        Vec<String>)
        requires
            self.inv(),
            start matches Some(s) ==> s.well_formed(),
            end matches Some(e) ==> e.well_formed(),
        ensures
            spec_labels_sorted(spec_labels_view(r@)),
            forall|l: Seq<char>| #[trigger]
                spec_labels_contain(spec_labels_view(r@), l) <==> spec_prefix_has_location(
                    self@,
                    self@.len() as int,
                    start,
                    end,
                    l,
                ),
    {
        let mut out: Vec<String> = Vec::new();
        let n = self.rows.len();
        for idx in 0..n
            invariant
                self.inv(),
                start matches Some(s) ==> s.well_formed(),
                end matches Some(e) ==> e.well_formed(),
                n == self@.len(),
                self@ == self.rows@.map_values(|r: ActivityRecord| r@),
                spec_labels_sorted(spec_labels_view(out@)),
                forall|l: Seq<char>| #[trigger]
                    spec_labels_contain(spec_labels_view(out@), l) <==> spec_prefix_has_location(
                        self@,
                        idx as int,
                        start,
                        end,
                        l,
                    ),
        {
            assert(spec_record_wf(self@[idx as int]));
            if !self.rows[idx].location.as_str().is_empty() && in_opt_range(
                &self.rows[idx],
                &start,
                &end,
            ) {
                insert_sorted_label(&mut out, &self.rows[idx].location);
                assert forall|l: Seq<char>| #[trigger]
                    spec_labels_contain(spec_labels_view(out@), l) implies spec_prefix_has_location(
                    self@,
                    idx as int + 1,
                    start,
                    end,
                    l,
                ) by {
                    if l == self@[idx as int].location {
                        assert(spec_in_opt_range(self@[idx as int], start, end));
                    }
                }
            }
        }
        out
    }

    /// Inserts a new activity and returns the identity the store assigned.
    /// The input must carry no identity yet and pass the field rules; the
    /// row is placed by date among the existing rows, before any row of
    /// the same date.  Fails with `ValidationError` exactly on bad input,
    /// and with `ConstraintViolation` exactly when the identity space is
    /// exhausted.
    pub fn insert_activity(&mut self, activity: &Activity) -> (r: Result<i64, StoreError>)
        requires
            old(self).inv(),
        ensures
            final(self).inv(),
            r matches Err(e) ==> final(self)@ == old(self)@ && (e == StoreError::ValidationError
                || e == StoreError::ConstraintViolation),
            (r matches Err(e) && e == StoreError::ValidationError) <==> !(activity@.id is None
                && spec_valid_fields(activity@)),
            r is Ok <==> activity@.id is None && spec_valid_fields(activity@)
                && old(self).spec_next_id() < i64::MAX,
            r matches Ok(id) ==> {
                &&& id == old(self).spec_next_id()
                &&& final(self).spec_next_id() == old(self).spec_next_id() + 1
                &&& (forall|i: int|
                    0 <= i < old(self)@.len() ==> (#[trigger] old(self)@[i]).id != id)
                &&& exists|pos: int|
                    0 <= pos <= old(self)@.len() && final(self)@ == old(self)@.insert(
                        pos,
                        spec_record_from(activity@, id),
                    )
            },
    {
        if !(matches!(activity.id, None)) {
            return Err(StoreError::ValidationError);
        }
        if activity.kind.as_str().is_empty() {
            return Err(StoreError::ValidationError);
        }
        if !datetime_fields_ok(&activity.date) {
            return Err(StoreError::ValidationError);
        }
        if let Some(d) = activity.duration_centihours {
            if d < 0 {
                return Err(StoreError::ValidationError);
            }
        }
        if self.next_id == i64::MAX {
            return Err(StoreError::ConstraintViolation);
        }
        let id = self.next_id;
        let record = ActivityRecord {
            id,
            date: activity.date,
            location: activity.location.clone(),
            duration_centihours: activity.duration_centihours,
            kind: activity.kind.clone(),
            score_centi: activity.score_centi,
            description: activity.description.clone(),
        };
        assert(record@ == spec_record_from(activity@, id));
        let pos = self.date_position(&activity.date);
        let ghost pre = self@;
        self.rows.insert(pos, record);
        self.next_id = id + 1;
        proof {
            assert(self@ =~= pre.insert(pos as int, spec_record_from(activity@, id)));
            lemma_insert_keeps_inv(pre, pos as int, spec_record_from(activity@, id), id as int + 1);
        }
        Ok(id)
    }

    /// The position a row of this date takes: before every stored row of
    /// an equal or older date, after every newer one.
    fn date_position(&self, date: &LocalDateTime) -> (pos: usize)
        requires
            self.inv(),
            date.well_formed(),
        ensures
            0 <= pos <= self@.len(),
            forall|j: int| 0 <= j < pos ==> date.lt((#[trigger] self@[j]).date),
            pos < self@.len() ==> self@[pos as int].date.le(*date),
    {
        let n = self.rows.len();
        let mut pos: usize = 0;
        while pos < n
            invariant
                self.inv(),
                date.well_formed(),
                n == self@.len(),
                0 <= pos <= n,
                forall|j: int| 0 <= j < pos ==> date.lt((#[trigger] self@[j]).date),
            decreases n - pos,
        {
            if datetime_le(&self.rows[pos].date, date) {
                assert(self@[pos as int].date.le(*date));
                return pos;
            }
            pos = pos + 1;
        }
        pos
    }

    /// The next identity the store will assign.
    pub closed spec fn spec_next_id(self) -> int {
        self.next_id as int
    }

    /// One summary line per distinct type label among the rows dated in
    /// `[from, to)`: how many rows carry the label ("days") and the sum of
    /// their durations, missing durations counted as zero.  Lines come
    /// ascending by day count; no label repeats and none is invented.
    pub fn get_summary(&self, from: LocalDateTime, to: LocalDateTime) -> (r: Vec<Summary>)
        requires
            self.inv(),
            from.well_formed(),
            to.well_formed(),
        ensures
            forall|i: int, j: int|
                0 <= i < j < r@.len() ==> (#[trigger] r@[i]).days <= (#[trigger] r@[j]).days,
            spec_lines_correct(r@, spec_range_prefix(self@, self@.len() as int, from, to)),
            spec_kinds_distinct(r@),
            spec_kinds_match(r@, spec_range_prefix(self@, self@.len() as int, from, to)),
    {
        let acc = self.collect_summaries(from, to);
        let ghost accv = acc@;
        let ghost rng = spec_range_prefix(self@, self@.len() as int, from, to);
        let r = sort_summaries(acc);
        proof {
            assert(spec_lines_correct(accv, rng) && spec_kinds_match(accv, rng)
                && spec_kinds_distinct(accv));
            assert(spec_contains_same(r@, accv));
            assert forall|i: int| 0 <= i < r@.len() implies spec_summary_line_correct(
                rng,
                (#[trigger] r@[i])@,
            ) by {
                assert(spec_summaries_contain(r@, r@[i]@));
                assert(spec_summaries_contain(accv, r@[i]@));
                let j = choose|j: int| 0 <= j < accv.len() && (#[trigger] accv[j])@ == r@[i]@;
                assert(spec_summary_line_correct(rng, accv[j]@));
            }
            assert(spec_lines_correct(r@, rng));
            assert forall|k: Seq<char>|
                #![trigger spec_summaries_have(r@, k)]
                #![trigger spec_count_kind(rng, k)]
                spec_summaries_have(r@, k) <==> spec_count_kind(rng, k) >= 1 by {
                if spec_summaries_have(r@, k) {
                    let i = choose|i: int| 0 <= i < r@.len() && (#[trigger] r@[i]).kind@ == k;
                    assert(spec_summaries_contain(r@, r@[i]@));
                    assert(spec_summaries_contain(accv, r@[i]@));
                    let j = choose|j: int| 0 <= j < accv.len() && (#[trigger] accv[j])@ == r@[i]@;
                    assert(accv[j].kind@ == k);
                    assert(spec_summaries_have(accv, k));
                    assert(spec_count_kind(rng, k) >= 1);
                }
                if spec_count_kind(rng, k) >= 1 {
                    assert(spec_summaries_have(accv, k));
                    let j = choose|j: int| 0 <= j < accv.len() && (#[trigger] accv[j]).kind@ == k;
                    assert(spec_summaries_contain(accv, accv[j]@));
                    assert(spec_summaries_contain(r@, accv[j]@));
                    let i = choose|i: int| 0 <= i < r@.len() && (#[trigger] r@[i])@ == accv[j]@;
                    assert(r@[i].kind@ == k);
                    assert(spec_summaries_have(r@, k));
                }
            }
            assert(spec_kinds_match(r@, rng));
        }
        r
    }

    /// One unsorted summary line per distinct type label in the range,
    /// with exact counts and duration sums.
    fn collect_summaries(&self, from: LocalDateTime, to: LocalDateTime) -> (acc: Vec<Summary>)
        requires
            self.inv(),
            from.well_formed(),
            to.well_formed(),
        ensures
            spec_lines_correct(acc@, spec_range_prefix(self@, self@.len() as int, from, to)),
            spec_kinds_distinct(acc@),
            spec_kinds_match(acc@, spec_range_prefix(self@, self@.len() as int, from, to)),
    {
        let mut acc: Vec<Summary> = Vec::new();
        let n = self.rows.len();
        proof {
            reveal(Seq::filter);
            assert(self@.take(0).filter(spec_range_pred(from, to)) =~= Seq::<RecordView>::empty());
            assert(spec_range_prefix(self@, 0, from, to).len() == 0);
            assert(spec_lines_correct(acc@, spec_range_prefix(self@, 0, from, to)));
            assert(spec_kinds_distinct(acc@));
            assert forall|k: Seq<char>|
                #![trigger spec_summaries_have(acc@, k)]
                #![trigger spec_count_kind(spec_range_prefix(self@, 0, from, to), k)]
                spec_summaries_have(acc@, k) <==> spec_count_kind(
                    spec_range_prefix(self@, 0, from, to),
                    k,
                ) >= 1 by {
                assert(spec_range_prefix(self@, 0, from, to).filter(spec_kind_pred(k)).len() == 0);
            }
            assert(spec_kinds_match(acc@, spec_range_prefix(self@, 0, from, to)));
        }
        for idx in 0..n
            invariant
                self.inv(),
                from.well_formed(),
                to.well_formed(),
                n == self@.len(),
                self@ == self.rows@.map_values(|r: ActivityRecord| r@),
                spec_lines_correct(acc@, spec_range_prefix(self@, idx as int, from, to)),
                spec_kinds_distinct(acc@),
                spec_kinds_match(acc@, spec_range_prefix(self@, idx as int, from, to)),
        {
            let ghost p = spec_range_prefix(self@, idx as int, from, to);
            let ghost p1 = spec_range_prefix(self@, idx as int + 1, from, to);
            let ghost pre_acc = acc@;
            proof {
                reveal(Seq::filter);
                assert(self@.take(idx as int + 1).drop_last() =~= self@.take(idx as int));
                assert(self@.take(idx as int + 1).last() == self@[idx as int]);
                assert(spec_lines_correct(pre_acc, p) && spec_kinds_distinct(pre_acc)
                    && spec_kinds_match(pre_acc, p));
                assert(self@[idx as int] == self.rows@[idx as int]@);
            }
            let row = &self.rows[idx];
            assert(spec_record_wf(self@[idx as int]));
            let in_lo = datetime_le(&from, &row.date);
            let in_hi = crate::time::datetime_lt(&row.date, &to);
            if in_lo && in_hi {
                proof {
                    reveal(Seq::filter);
                    assert(spec_in_summary_range(self@[idx as int], from, to));
                    assert(p1 == p.push(self@[idx as int]));
                    self@.take(idx as int).lemma_filter_len(spec_range_pred(from, to));
                    lemma_range_rows_wf(self@, idx as int, from, to);
                }
                let d: i64 = match row.duration_centihours {
                    Some(dd) => dd,
                    None => 0,
                };
                assert(d as int == spec_duration_of(self@[idx as int]) && d >= 0);
                match find_kind(&acc, &row.kind) {
                    Some(j) => {
                        let ghost kj = pre_acc[j as int].kind@;
                        proof {
                            assert(kj == self@[idx as int].kind);
                            assert(spec_summary_line_correct(p, pre_acc[j as int]@));
                            p.lemma_filter_len(spec_kind_pred(kj));
                            lemma_hours_kind_bounds(p, kj);
                            assert((p.len() + 1) * (i64::MAX as int) < i128::MAX && p.len() * (
                            i64::MAX as int) <= (p.len() + 1) * (i64::MAX as int))
                                by (nonlinear_arith)
                                requires
                                    0 <= p.len() <= 0xffff_ffff_ffff_ffffu64,
                            ;
                        }
                        let updated = Summary {
                            kind: acc[j].kind.clone(),
                            days: acc[j].days + 1,
                            hours_centi: acc[j].hours_centi + (d as i128),
                        };
                        acc.remove(j);
                        acc.insert(j, updated);
                        proof {
                            assert(acc@ =~= pre_acc.update(j as int, updated));
                            assert(updated.kind@ == kj);
                            assert forall|i: int| 0 <= i < acc@.len() implies spec_summary_line_correct(
                                p1,
                                (#[trigger] acc@[i])@,
                            ) by {
                                assert(spec_summary_line_correct(p, pre_acc[i]@));
                                lemma_count_hours_push(p, self@[idx as int], acc@[i].kind@);
                                if i != j as int {
                                    assert(acc@[i] == pre_acc[i]);
                                    if i < j as int {
                                        assert(pre_acc[i].kind@ != pre_acc[j as int].kind@);
                                    } else {
                                        assert(pre_acc[j as int].kind@ != pre_acc[i].kind@);
                                    }
                                    assert(acc@[i].kind@ != kj);
                                }
                            }
                            assert(spec_lines_correct(acc@, p1));
                            assert forall|a: int, b: int| 0 <= a < b < acc@.len() implies (
                            #[trigger] acc@[a]).kind@ != (#[trigger] acc@[b]).kind@ by {
                                assert(pre_acc[a].kind@ != pre_acc[b].kind@);
                                assert(acc@[a].kind@ == pre_acc[a].kind@);
                                assert(acc@[b].kind@ == pre_acc[b].kind@);
                            }
                            assert(spec_kinds_distinct(acc@));
                            assert forall|k: Seq<char>|
                                #![trigger spec_summaries_have(acc@, k)]
                                #![trigger spec_count_kind(p1, k)]
                                spec_summaries_have(acc@, k) <==> spec_count_kind(p1, k)
                                    >= 1 by {
                                lemma_count_hours_push(p, self@[idx as int], k);
                                if spec_summaries_have(acc@, k) {
                                    let w = choose|w: int|
                                        0 <= w < acc@.len() && (#[trigger] acc@[w]).kind@ == k;
                                    assert(pre_acc[w].kind@ == k);
                                    assert(spec_summaries_have(pre_acc, k));
                                    assert(spec_count_kind(p, k) >= 1);
                                }
                                if spec_summaries_have(pre_acc, k) {
                                    let w = choose|w: int|
                                        0 <= w < pre_acc.len() && (#[trigger] pre_acc[w]).kind@
                                            == k;
                                    assert(acc@[w].kind@ == k);
                                    assert(spec_summaries_have(acc@, k));
                                }
                                if k == kj {
                                    assert(pre_acc[j as int].kind@ == k);
                                    assert(spec_summaries_have(pre_acc, k));
                                }
                                if spec_count_kind(p1, k) >= 1 && k != kj {
                                    assert(spec_count_kind(p, k) >= 1);
                                    assert(spec_summaries_have(pre_acc, k));
                                }
                            }
                            assert(spec_kinds_match(acc@, p1));
                        }
                    },
                    None => {
                        proof {
                            assert forall|w: int| 0 <= w < pre_acc.len() implies (
                            #[trigger] pre_acc[w]).kind@ != self@[idx as int].kind by {}
                            assert(!spec_summaries_have(pre_acc, self@[idx as int].kind));
                            assert(spec_count_kind(p, self@[idx as int].kind) < 1);
                            assert(spec_count_kind(p, self@[idx as int].kind) >= 0);
                            lemma_count_kind_zero_hours(p, self@[idx as int].kind);
                        }
                        let line = Summary { kind: row.kind.clone(), days: 1, hours_centi: (
                        d as i128) };
                        acc.push(line);
                        proof {
                            assert(acc@ =~= pre_acc.push(line));
                            assert(line@.kind == self@[idx as int].kind);
                            assert forall|i: int| 0 <= i < acc@.len() implies spec_summary_line_correct(
                                p1,
                                (#[trigger] acc@[i])@,
                            ) by {
                                lemma_count_hours_push(p, self@[idx as int], acc@[i].kind@);
                                if i < pre_acc.len() {
                                    assert(acc@[i] == pre_acc[i]);
                                    assert(spec_summary_line_correct(p, pre_acc[i]@));
                                    assert(acc@[i].kind@ != self@[idx as int].kind);
                                }
                            }
                            assert(spec_lines_correct(acc@, p1));
                            assert forall|a: int, b: int| 0 <= a < b < acc@.len() implies (
                            #[trigger] acc@[a]).kind@ != (#[trigger] acc@[b]).kind@ by {
                                if b == pre_acc.len() {
                                    assert(acc@[a] == pre_acc[a]);
                                } else {
                                    assert(pre_acc[a].kind@ != pre_acc[b].kind@);
                                }
                            }
                            assert(spec_kinds_distinct(acc@));
                            assert forall|k: Seq<char>|
                                #![trigger spec_summaries_have(acc@, k)]
                                #![trigger spec_count_kind(p1, k)]
                                spec_summaries_have(acc@, k) <==> spec_count_kind(p1, k)
                                    >= 1 by {
                                lemma_count_hours_push(p, self@[idx as int], k);
                                if spec_summaries_have(acc@, k) && k != self@[idx as int].kind {
                                    let w = choose|w: int|
                                        0 <= w < acc@.len() && (#[trigger] acc@[w]).kind@ == k;
                                    assert(pre_acc[w].kind@ == k);
                                    assert(spec_summaries_have(pre_acc, k));
                                    assert(spec_count_kind(p, k) >= 1);
                                }
                                if k == self@[idx as int].kind {
                                    assert(acc@[pre_acc.len() as int].kind@ == k);
                                    assert(spec_summaries_have(acc@, k));
                                }
                                if spec_count_kind(p1, k) >= 1 && k != self@[idx as int].kind {
                                    assert(spec_count_kind(p, k) >= 1);
                                    assert(spec_summaries_have(pre_acc, k));
                                    let w = choose|w: int|
                                        0 <= w < pre_acc.len() && (#[trigger] pre_acc[w]).kind@
                                            == k;
                                    assert(acc@[w].kind@ == k);
                                    assert(spec_summaries_have(acc@, k));
                                }
                            }
                            assert(spec_kinds_match(acc@, p1));
                        }
                    },
                }
            } else {
                proof {
                    reveal(Seq::filter);
                    assert(!spec_in_summary_range(self@[idx as int], from, to));
                    assert(p1 == p);
                    assert(spec_lines_correct(acc@, p1));
                    assert(spec_kinds_match(acc@, p1));
                }
            }
        }
        proof {
            assert(self@.take(n as int) =~= self@);
        }
        acc
    }

    /// The index of the row with the given identity, if any.
    fn find_index(&self, id: i64) -> (r: Option<usize>)
        requires
            self.inv(),
        ensures
            r matches Some(i) ==> i < self@.len() && self@[i as int].id == id,
            r is None ==> forall|i: int| 0 <= i < self@.len() ==> (#[trigger] self@[i]).id != id,
    {
        let n = self.rows.len();
        for idx in 0..n
            invariant
                n == self@.len(),
                self@ == self.rows@.map_values(|r: ActivityRecord| r@),
                forall|j: int| 0 <= j < idx ==> (#[trigger] self@[j]).id != id,
        {
            if self.rows[idx].id == id {
                return Some(idx);
            }
        }
        None
    }

    /// Replaces all mutable fields of the row whose identity the input
    /// carries; the row moves to the place its new date puts it.  Fails
    /// with `ValidationError` exactly when the input carries no identity or
    /// breaks the field rules, and with `NotFound` exactly when no row has
    /// the given identity.
    pub fn update_activity(&mut self, activity: &Activity) -> (r: Result<(), StoreError>)
        requires
            old(self).inv(),
        ensures
            final(self).inv(),
            final(self).spec_next_id() == old(self).spec_next_id(),
            r matches Err(e) ==> final(self)@ == old(self)@,
            (r matches Err(e) && e == StoreError::ValidationError) <==> !(activity@.id is Some
                && spec_valid_fields(activity@)),
            (r matches Err(e) && e == StoreError::NotFound) <==> (activity@.id is Some
                && spec_valid_fields(activity@) && !(exists|i: int|
                0 <= i < old(self)@.len() && (#[trigger] old(self)@[i]).id == activity@.id->0)),
            r is Ok <==> activity@.id is Some && spec_valid_fields(activity@) && (exists|i: int|
                0 <= i < old(self)@.len() && (#[trigger] old(self)@[i]).id == activity@.id->0),
            r is Ok ==> exists|i: int, pos: int|
                {
                    &&& 0 <= i < old(self)@.len()
                    &&& old(self)@[i].id == activity@.id->0
                    &&& 0 <= pos <= old(self)@.len() - 1
                    &&& final(self)@ == #[trigger] old(self)@.remove(i).insert(
                        pos,
                        spec_record_from(activity@, activity@.id->0),
                    )
                },
    {
        let id = match activity.id {
            Some(id) => id,
            None => {
                return Err(StoreError::ValidationError);
            },
        };
        if activity.kind.as_str().is_empty() {
            return Err(StoreError::ValidationError);
        }
        if !datetime_fields_ok(&activity.date) {
            return Err(StoreError::ValidationError);
        }
        if let Some(d) = activity.duration_centihours {
            if d < 0 {
                return Err(StoreError::ValidationError);
            }
        }
        let idx = match self.find_index(id) {
            Some(i) => i,
            None => {
                return Err(StoreError::NotFound);
            },
        };
        let ghost pre = self@;
        self.rows.remove(idx);
        proof {
            assert(self@ =~= pre.remove(idx as int));
            lemma_remove_keeps_inv(pre, idx as int, self.next_id as int);
        }
        let record = ActivityRecord {
            id,
            date: activity.date,
            location: activity.location.clone(),
            duration_centihours: activity.duration_centihours,
            kind: activity.kind.clone(),
            score_centi: activity.score_centi,
            description: activity.description.clone(),
        };
        assert(record@ == spec_record_from(activity@, id));
        let pos = self.date_position(&activity.date);
        let ghost mid = self@;
        self.rows.insert(pos, record);
        proof {
            assert(self@ =~= mid.insert(pos as int, spec_record_from(activity@, id)));
            assert forall|i: int| 0 <= i < mid.len() implies (#[trigger] mid[i]).id != id by {
                if i < idx {
                    assert(mid[i] == pre[i]);
                } else {
                    assert(mid[i] == pre[i + 1]);
                }
            }
            lemma_insert_keeps_inv(
                mid,
                pos as int,
                spec_record_from(activity@, id),
                self.next_id as int,
            );
        }
        Ok(())
    }

    /// Removes the row with the given identity.  Idempotent: when no row
    /// has the identity, the store is unchanged and no error is raised;
    /// either way no remaining row carries the identity afterwards, so a
    /// second identical call changes nothing.
    pub fn delete_activity(&mut self, id: i64)
        requires
            old(self).inv(),
        ensures
            final(self).inv(),
            final(self).spec_next_id() == old(self).spec_next_id(),
            (exists|i: int| 0 <= i < old(self)@.len() && (#[trigger] old(self)@[i]).id == id)
                ==> exists|i: int|
                {
                    &&& 0 <= i < old(self)@.len()
                    &&& (#[trigger] old(self)@[i]).id == id
                    &&& final(self)@ == old(self)@.remove(i)
                },
            !(exists|i: int| 0 <= i < old(self)@.len() && (#[trigger] old(self)@[i]).id == id)
                ==> final(self)@ == old(self)@,
            forall|i: int| 0 <= i < final(self)@.len() ==> (#[trigger] final(self)@[i]).id != id,
    {
        let idx = match self.find_index(id) {
            Some(i) => i,
            None => {
                return ;
            },
        };
        let ghost pre = self@;
        self.rows.remove(idx);
        proof {
            assert(self@ =~= pre.remove(idx as int));
            lemma_remove_keeps_inv(pre, idx as int, self.next_id as int);
            assert forall|i: int| 0 <= i < self@.len() implies (#[trigger] self@[i]).id != id by {
                if i < idx as int {
                    assert(self@[i] == pre[i]);
                    assert(pre[i].id != pre[idx as int].id);
                } else {
                    assert(self@[i] == pre[i + 1]);
                    assert(pre[idx as int].id != pre[i + 1].id);
                }
            }
        }
    }
}

/// The stored row an insert of `a` under identity `id` produces.
pub open spec fn spec_record_from(a: ActivityView, id: i64) -> RecordView {
    RecordView {
        id,
        date: a.date,
        location: a.location,
        duration_centihours: a.duration_centihours,
        kind: a.kind,
        score_centi: a.score_centi,
        description: a.description,
    }
}

/// The activity a wire row decodes to: the date text parsed in the storage
/// layout, all other fields carried over, and the display color derived
/// fresh from the type label.  `None` exactly when the date text does not
/// have the storage layout.
pub fn activity_from_row(row: &ActivityRow) -> (r: Option<Activity>)
    ensures
        r is Some <==> crate::timefmt::spec_parse_datetime(row.date@, ' ') is Some,
        r matches Some(a) ==> {
            &&& a@.id == Some(row.id)
            &&& Some(a@.date) == crate::timefmt::spec_parse_datetime(row.date@, ' ')
            &&& a@.date.well_formed()
            &&& a@.location == row.location@
            &&& a@.duration_centihours == row.duration_centihours
            &&& a@.kind == row.kind@
            &&& a@.type_color == spec_color_of_label(row.kind@)
            &&& a@.score_centi == row.score_centi
            &&& a@.description == row.description@
        },
{
    let date = match crate::timefmt::parse_storage_datetime(row.date.as_str()) {
        Some(d) => d,
        None => {
            return None;
        },
    };
    Some(
        Activity {
            id: Some(row.id),
            date,
            location: row.location.clone(),
            duration_centihours: row.duration_centihours,
            kind: row.kind.clone(),
            type_color: string_to_rgb(row.kind.as_str()),
            score_centi: row.score_centi,
            description: row.description.clone(),
        },
    )
}

/// The read-back form of a stored row, with the display color computed
/// fresh from the type label.
fn activity_of_record(row: &ActivityRecord) -> (a: Activity)
    ensures
        a@ == spec_activity_of(row@),
{
    Activity {
        id: Some(row.id),
        date: row.date,
        location: row.location.clone(),
        duration_centihours: row.duration_centihours,
        kind: row.kind.clone(),
        type_color: string_to_rgb(row.kind.as_str()),
        score_centi: row.score_centi,
        description: row.description.clone(),
    }
}

/// Whether a row's date lies in the closed optional range.
fn in_opt_range(row: &ActivityRecord, start: &Option<LocalDateTime>, end: &Option<
    LocalDateTime,
>) -> (r: bool)
    requires
        row@.date.well_formed(),
        *start matches Some(s) ==> s.well_formed(),
        *end matches Some(e) ==> e.well_formed(),
    ensures
        r == spec_in_opt_range(row@, *start, *end),
{
    let after_start = match start {
        Some(s) => datetime_le(s, &row.date),
        None => true,
    };
    let before_end = match end {
        Some(e) => datetime_le(&row.date, e),
        None => true,
    };
    after_start && before_end
}

/// Places `label` in a strictly ascending label list, unless it is already
/// there: afterwards the list contains exactly the old labels and `label`,
/// still strictly ascending.
fn insert_sorted_label(out: &mut Vec<String>, label: &String)
    requires
        spec_labels_sorted(spec_labels_view(old(out)@)),
    ensures
        spec_labels_sorted(spec_labels_view(final(out)@)),
        forall|l: Seq<char>| #[trigger]
            spec_labels_contain(spec_labels_view(final(out)@), l) <==> (spec_labels_contain(
                spec_labels_view(old(out)@),
                l,
            ) || l == label@),
{
    let n = out.len();
    let mut pos: usize = 0;
    while pos < n
        invariant
            spec_labels_sorted(spec_labels_view(out@)),
            n == out@.len(),
            0 <= pos <= n,
            out@ == old(out)@,
            forall|j: int| 0 <= j < pos ==> spec_str_lt(#[trigger] spec_labels_view(out@)[j], label@),
        ensures
            0 <= pos <= n,
            out@ == old(out)@,
            forall|j: int| 0 <= j < pos ==> spec_str_lt(#[trigger] spec_labels_view(out@)[j], label@),
            pos < n ==> !spec_str_lt(spec_labels_view(out@)[pos as int], label@),
        decreases n - pos,
    {
        if !str_lt(out[pos].as_str(), label.as_str()) {
            break ;
        }
        pos = pos + 1;
    }
    let ghost pre = spec_labels_view(out@);
    if pos < n {
        proof {
            lemma_str_lt_trichotomy(pre[pos as int], label@);
        }
        if !str_lt(label.as_str(), out[pos].as_str()) {
            // already present
            assert(pre[pos as int] == label@);
            assert(spec_labels_contain(pre, label@));
            return ;
        }
    }
    out.insert(pos, label.clone());
    let ghost post = spec_labels_view(out@);
    proof {
        assert(post =~= pre.insert(pos as int, label@));
        assert forall|i: int, j: int| 0 <= i < j < post.len() implies spec_str_lt(
            #[trigger] post[i],
            #[trigger] post[j],
        ) by {
            let p = pos as int;
            if j == p {
                assert(post[i] == pre[i]);
            } else if i == p {
                assert(post[j] == pre[j - 1]);
                if j - 1 > p {
                    lemma_str_lt_transitive(label@, pre[p], pre[j - 1]);
                }
            } else if i < p && j > p {
                assert(post[i] == pre[i] && post[j] == pre[j - 1]);
                if i < j - 1 {
                } else {
                    assert(i < p && p <= j - 1 && i == j - 1);
                    assert(false);
                }
            } else if i > p {
                assert(post[i] == pre[i - 1] && post[j] == pre[j - 1]);
            } else {
                assert(post[i] == pre[i] && post[j] == pre[j]);
            }
        }
        assert forall|l: Seq<char>| #[trigger]
            spec_labels_contain(post, l) implies (spec_labels_contain(pre, l) || l
            == label@) by {
            let i = choose|i: int| 0 <= i < post.len() && post[i] == l;
            if i < pos as int {
                assert(pre[i] == l);
            } else if i > pos as int {
                assert(pre[i - 1] == l);
            }
        }
        assert forall|l: Seq<char>| spec_labels_contain(pre, l) implies #[trigger]
            spec_labels_contain(post, l) by {
            let i = choose|i: int| 0 <= i < pre.len() && pre[i] == l;
            if i < pos as int {
                assert(post[i] == l);
            } else {
                assert(post[i + 1] == l);
            }
        }
        assert(post[pos as int] == label@);
    }
}

/// The index of the summary line carrying this label, if any.
fn find_kind(acc: &Vec<Summary>, kind: &String) -> (r: Option<usize>)
    ensures
        r matches Some(j) ==> j < acc@.len() && acc@[j as int].kind@ == kind@,
        r is None ==> forall|j: int| 0 <= j < acc@.len() ==> (#[trigger] acc@[j]).kind@ != kind@,
{
    let n = acc.len();
    for j in 0..n
        invariant
            n == acc@.len(),
            forall|i: int| 0 <= i < j ==> (#[trigger] acc@[i]).kind@ != kind@,
    {
        if acc[j].kind == *kind {
            return Some(j);
        }
    }
    None
}

/// Orders summary lines ascending by day count, keeping exactly the same
/// lines; labels stay pairwise distinct.
fn sort_summaries(acc: Vec<Summary>) -> (r: Vec<Summary>)
    requires
        spec_kinds_distinct(acc@),
    ensures
        forall|i: int, j: int|
            0 <= i < j < r@.len() ==> (#[trigger] r@[i]).days <= (#[trigger] r@[j]).days,
        spec_kinds_distinct(r@),
        spec_contains_same(r@, acc@),
{
    let mut out: Vec<Summary> = Vec::new();
    let n = acc.len();
    proof {
        assert(spec_contains_prefix(out@, acc@, 0));
    }
    for i in 0..n
        invariant
            n == acc@.len(),
            spec_kinds_distinct(acc@),
            forall|a: int, b: int|
                0 <= a < b < out@.len() ==> (#[trigger] out@[a]).days <= (#[trigger] out@[b]).days,
            spec_kinds_distinct(out@),
            spec_contains_prefix(out@, acc@, i as int),
    {
        let ghost pre_out = out@;
        let line = Summary {
            kind: acc[i].kind.clone(),
            days: acc[i].days,
            hours_centi: acc[i].hours_centi,
        };
        assert(line@ == acc@[i as int]@);
        proof {
            assert forall|a: int| 0 <= a < pre_out.len() implies (#[trigger] pre_out[a]).kind@
                != line.kind@ by {
                if pre_out[a].kind@ == line.kind@ {
                    assert(spec_summaries_contain(pre_out, pre_out[a]@));
                    assert(spec_prefix_summary(acc@, i as int, pre_out[a]@));
                    let j = choose|j: int|
                        0 <= j < i as int <= acc@.len() && (#[trigger] acc@[j])@ == pre_out[a]@;
                    assert(acc@[j].kind@ == acc@[i as int].kind@);
                    assert(false);
                }
            }
        }
        let vd = line.days;
        let m = out.len();
        let mut pos: usize = 0;
        while pos < m
            invariant
                0 <= pos <= m,
                m == out@.len(),
                out@ == pre_out,
                forall|a: int| 0 <= a < pos ==> (#[trigger] out@[a]).days <= vd,
            ensures
                0 <= pos <= m,
                out@ == pre_out,
                forall|a: int| 0 <= a < pos ==> (#[trigger] out@[a]).days <= vd,
                pos < m ==> out@[pos as int].days > vd,
            decreases m - pos,
        {
            if out[pos].days > vd {
                break ;
            }
            pos = pos + 1;
        }
        out.insert(pos, line);
        proof {
            let pp = pos as int;
            assert(out@ =~= pre_out.insert(pp, line));
            assert(out@[pp] == line);
            assert forall|a: int, b: int| 0 <= a < b < out@.len() implies (
            #[trigger] out@[a]).days <= (#[trigger] out@[b]).days by {
                if b == pp {
                    assert(out@[a] == pre_out[a]);
                } else if a == pp && b > pp {
                    assert(out@[b] == pre_out[b - 1]);
                    assert(pre_out[pp].days > vd);
                    if pp < b - 1 {
                        assert(pre_out[pp].days <= pre_out[b - 1].days);
                    }
                } else if a < pp && b > pp {
                    assert(out@[a] == pre_out[a] && out@[b] == pre_out[b - 1]);
                    if a == b - 1 {
                        assert(false);
                    }
                } else if a > pp {
                    assert(out@[a] == pre_out[a - 1] && out@[b] == pre_out[b - 1]);
                } else {
                    assert(out@[a] == pre_out[a] && out@[b] == pre_out[b]);
                }
            }
            assert forall|a: int, b: int| 0 <= a < b < out@.len() implies (
            #[trigger] out@[a]).kind@ != (#[trigger] out@[b]).kind@ by {
                if a != pp && b != pp {
                    let a0 = if a < pp {
                        a
                    } else {
                        a - 1
                    };
                    let b0 = if b < pp {
                        b
                    } else {
                        b - 1
                    };
                    assert(out@[a] == pre_out[a0] && out@[b] == pre_out[b0]);
                } else if a == pp {
                    assert(out@[b] == pre_out[b - 1]);
                } else {
                    assert(out@[a] == pre_out[a]);
                }
            }
            assert(spec_kinds_distinct(out@));
            assert forall|v: SummaryView|
                #![trigger spec_summaries_contain(out@, v)]
                #![trigger spec_prefix_summary(acc@, i as int + 1, v)]
                spec_summaries_contain(out@, v) <==> spec_prefix_summary(
                    acc@,
                    i as int + 1,
                    v,
                ) by {
                if spec_summaries_contain(out@, v) {
                    let w = choose|w: int| 0 <= w < out@.len() && (#[trigger] out@[w])@ == v;
                    if w == pp {
                        assert(acc@[i as int]@ == v);
                        assert(spec_prefix_summary(acc@, i as int + 1, v));
                    } else {
                        let w0 = if w < pp {
                            w
                        } else {
                            w - 1
                        };
                        assert(out@[w] == pre_out[w0]);
                        assert(spec_summaries_contain(pre_out, v));
                        assert(spec_prefix_summary(acc@, i as int, v));
                        let j = choose|j: int|
                            0 <= j < i as int <= acc@.len() && (#[trigger] acc@[j])@ == v;
                        assert(spec_prefix_summary(acc@, i as int + 1, v));
                    }
                }
                if spec_prefix_summary(acc@, i as int + 1, v) {
                    let j = choose|j: int|
                        0 <= j < i as int + 1 <= acc@.len() && (#[trigger] acc@[j])@ == v;
                    if j == i as int {
                        assert(out@[pp]@ == v);
                        assert(spec_summaries_contain(out@, v));
                    } else {
                        assert(spec_prefix_summary(acc@, i as int, v));
                        assert(spec_summaries_contain(pre_out, v));
                        let w = choose|w: int|
                            0 <= w < pre_out.len() && (#[trigger] pre_out[w])@ == v;
                        if w < pp {
                            assert(out@[w] == pre_out[w]);
                            assert(spec_summaries_contain(out@, v));
                        } else {
                            assert(out@[w + 1] == pre_out[w]);
                            assert(spec_summaries_contain(out@, v));
                        }
                    }
                }
            }
            assert(spec_contains_prefix(out@, acc@, i as int + 1));
        }
    }
    proof {
        assert forall|v: SummaryView|
            #![trigger spec_summaries_contain(out@, v)]
            #![trigger spec_summaries_contain(acc@, v)]
            spec_summaries_contain(out@, v) <==> spec_summaries_contain(acc@, v) by {
            if spec_summaries_contain(out@, v) {
                assert(spec_prefix_summary(acc@, n as int, v));
                let j = choose|j: int| 0 <= j < n as int <= acc@.len() && (#[trigger] acc@[j])@ == v;
                assert(spec_summaries_contain(acc@, v));
            }
            if spec_summaries_contain(acc@, v) {
                let j = choose|j: int| 0 <= j < acc@.len() && (#[trigger] acc@[j])@ == v;
                assert(spec_prefix_summary(acc@, n as int, v));
                assert(spec_summaries_contain(out@, v));
            }
        }
        assert(spec_contains_same(out@, acc@));
    }
    out
}

/// Every row of the range prefix has a duration in the representable band:
/// they are all rows of a well-formed store.
proof fn lemma_range_rows_wf(rows: Seq<RecordView>, n: int, from: LocalDateTime, to: LocalDateTime)
    requires
        forall|i: int| 0 <= i < rows.len() ==> spec_record_wf(#[trigger] rows[i]),
        0 <= n <= rows.len(),
    ensures
        forall|i: int|
            0 <= i < spec_range_prefix(rows, n, from, to).len() ==> 0 <= spec_duration_of(
                #[trigger] spec_range_prefix(rows, n, from, to)[i],
            ) <= i64::MAX,
{
    let p = spec_range_prefix(rows, n, from, to);
    assert forall|i: int| 0 <= i < p.len() implies 0 <= spec_duration_of(#[trigger] p[i])
        <= i64::MAX by {
        lemma_filter_element_of(rows.take(n), spec_range_pred(from, to), i);
        let j = choose|j: int|
            0 <= j < rows.take(n).len() && #[trigger] rows.take(n)[j] == rows.take(n).filter(
                spec_range_pred(from, to),
            )[i];
        assert(rows.take(n)[j] == rows[j]);
        assert(spec_record_wf(rows[j]));
    }
}

/// The duration sum of one label over a range prefix is non-negative and
/// at most the prefix length times the largest representable duration.
proof fn lemma_hours_kind_bounds(p: Seq<RecordView>, k: Seq<char>)
    requires
        forall|i: int| 0 <= i < p.len() ==> 0 <= spec_duration_of(#[trigger] p[i]) <= i64::MAX,
    ensures
        0 <= spec_hours_kind(p, k) <= p.len() * (i64::MAX as int),
{
    let f = p.filter(spec_kind_pred(k));
    assert forall|i: int| 0 <= i < f.len() implies 0 <= spec_duration_of(#[trigger] f[i])
        <= i64::MAX by {
        lemma_filter_element_of(p, spec_kind_pred(k), i);
        let j = choose|j: int| 0 <= j < p.len() && #[trigger] p[j] == f[i];
    }
    lemma_sum_duration_bounds(f);
    p.lemma_filter_len(spec_kind_pred(k));
    assert(f.len() * (i64::MAX as int) <= p.len() * (i64::MAX as int)) by (nonlinear_arith)
        requires
            f.len() <= p.len(),
    ;
}

/// A label that no row of the prefix carries contributes no hours.
proof fn lemma_count_kind_zero_hours(p: Seq<RecordView>, k: Seq<char>)
    requires
        spec_count_kind(p, k) == 0,
    ensures
        spec_hours_kind(p, k) == 0,
{
    assert(p.filter(spec_kind_pred(k)).len() == 0);
}

/// Field-level date validity check used by insert and update.
fn datetime_fields_ok(dt: &LocalDateTime) -> (r: bool)
    ensures
        r == dt.well_formed(),
{
    1 <= dt.year && dt.year <= 9999 && 1 <= dt.month && dt.month <= 12 && 1 <= dt.day && (dt.month
        <= 12 && dt.month >= 1 && dt.year >= 1) && dt.day <= crate::time::days_in_month(
        dt.year,
        dt.month,
    ) && dt.hour < 24 && dt.minute < 60 && dt.second < 60
}

proof fn lemma_insert_keeps_inv(pre: Seq<RecordView>, pos: int, rec: RecordView, next: int)
    requires
        spec_rows_sorted(pre),
        spec_ids_unique(pre),
        forall|i: int| 0 <= i < pre.len() ==> spec_record_wf(#[trigger] pre[i]),
        forall|i: int| 0 <= i < pre.len() ==> (#[trigger] pre[i]).id < next,
        forall|i: int| 0 <= i < pre.len() ==> (#[trigger] pre[i]).id != rec.id,
        1 <= rec.id < next,
        spec_record_wf(rec),
        0 <= pos <= pre.len(),
        forall|j: int| 0 <= j < pos ==> rec.date.lt((#[trigger] pre[j]).date),
        pos < pre.len() ==> pre[pos].date.le(rec.date),
    ensures
        spec_rows_sorted(pre.insert(pos, rec)),
        spec_ids_unique(pre.insert(pos, rec)),
        forall|i: int|
            0 <= i < pre.insert(pos, rec).len() ==> spec_record_wf(#[trigger] pre.insert(
                pos,
                rec,
            )[i]),
        forall|i: int|
            0 <= i < pre.insert(pos, rec).len() ==> (#[trigger] pre.insert(pos, rec)[i]).id < next,
{
    let post = pre.insert(pos, rec);
    assert forall|i: int, j: int| 0 <= i < j < post.len() implies (#[trigger] post[j]).date.le(
        (#[trigger] post[i]).date,
    ) by {
        if i < pos && j == pos {
        } else if i == pos && j > pos {
            assert(post[j] == pre[j - 1]);
            assert(pre[pos].date.le(rec.date));
            assert(pre[j - 1].date.le(pre[pos].date) || j - 1 == pos);
        } else if i < pos && j > pos {
            assert(post[i] == pre[i] && post[j] == pre[j - 1]);
        } else if i > pos && j > pos {
            assert(post[i] == pre[i - 1] && post[j] == pre[j - 1]);
        }
    }
}

/// Appending one row changes a label's count and duration sum by exactly
/// that row's contribution.
proof fn lemma_count_hours_push(p: Seq<RecordView>, x: RecordView, k: Seq<char>)
    ensures
        spec_count_kind(p.push(x), k) == spec_count_kind(p, k) + if x.kind == k {
            1int
        } else {
            0int
        },
        spec_hours_kind(p.push(x), k) == spec_hours_kind(p, k) + if x.kind == k {
            spec_duration_of(x)
        } else {
            0int
        },
{
    reveal(Seq::filter);
    let pred = spec_kind_pred(k);
    assert(p.push(x).drop_last() =~= p);
    assert(p.push(x).last() == x);
    if pred(x) {
        assert(p.push(x).filter(pred) == p.filter(pred).push(x));
        assert(p.filter(pred).push(x).drop_last() =~= p.filter(pred));
    } else {
        assert(p.push(x).filter(pred) == p.filter(pred));
    }
}

/// Every row of a filtered sequence is a row of the original.
proof fn lemma_filter_element_of(s: Seq<RecordView>, pred: spec_fn(RecordView) -> bool, i: int)
    requires
        0 <= i < s.filter(pred).len(),
    ensures
        exists|j: int| 0 <= j < s.len() && #[trigger] s[j] == s.filter(pred)[i],
    decreases s.len(),
{
    reveal(Seq::filter);
    if s.len() > 0 {
        assert(s.drop_last().len() == s.len() - 1);
        if i < s.drop_last().filter(pred).len() {
            lemma_filter_element_of(s.drop_last(), pred, i);
            let j = choose|j: int|
                0 <= j < s.drop_last().len() && #[trigger] s.drop_last()[j] == s.drop_last().filter(
                    pred,
                )[i];
            assert(s[j] == s.filter(pred)[i]);
        } else {
            assert(s[s.len() - 1] == s.filter(pred)[i]);
        }
    }
}

/// The duration sum of well-formed rows is non-negative and at most the
/// row count times the largest representable duration.
proof fn lemma_sum_duration_bounds(s: Seq<RecordView>)
    requires
        forall|i: int| 0 <= i < s.len() ==> 0 <= spec_duration_of(#[trigger] s[i]) <= i64::MAX,
    ensures
        0 <= spec_sum_duration(s) <= s.len() * (i64::MAX as int),
    decreases s.len(),
{
    if s.len() > 0 {
        assert forall|i: int| 0 <= i < s.drop_last().len() implies 0 <= spec_duration_of(
            #[trigger] s.drop_last()[i],
        ) <= i64::MAX by {
            assert(s.drop_last()[i] == s[i]);
        }
        lemma_sum_duration_bounds(s.drop_last());
        assert(0 <= spec_duration_of(s.last()) <= i64::MAX);
        assert((s.len() - 1) * (i64::MAX as int) + (i64::MAX as int) == s.len() * (
        i64::MAX as int)) by (nonlinear_arith);
    }
}

proof fn lemma_remove_keeps_inv(pre: Seq<RecordView>, at: int, next: int)
    requires
        spec_rows_sorted(pre),
        spec_ids_unique(pre),
        forall|i: int| 0 <= i < pre.len() ==> spec_record_wf(#[trigger] pre[i]),
        forall|i: int| 0 <= i < pre.len() ==> (#[trigger] pre[i]).id < next,
        0 <= at < pre.len(),
    ensures
        spec_rows_sorted(pre.remove(at)),
        spec_ids_unique(pre.remove(at)),
        forall|i: int|
            0 <= i < pre.remove(at).len() ==> spec_record_wf(#[trigger] pre.remove(at)[i]),
        forall|i: int|
            0 <= i < pre.remove(at).len() ==> (#[trigger] pre.remove(at)[i]).id < next,
        forall|i: int|
            0 <= i < pre.remove(at).len() ==> (#[trigger] pre.remove(at)[i]) == pre[if i < at {
                i
            } else {
                i + 1
            }],
{
    let post = pre.remove(at);
    assert forall|i: int| 0 <= i < post.len() implies (#[trigger] post[i]) == pre[if i < at {
        i
    } else {
        i + 1
    }] by {}
}

/// Inserting a fresh record and then looking its identity up finds exactly
/// the inserted activity, every persisted field equal, with the display
/// color derived fresh from the type label rather than read from anywhere.
pub proof fn lemma_insert_then_get(rows: Seq<RecordView>, rec: RecordView, pos: int)
    requires
        0 <= pos <= rows.len(),
        forall|i: int| 0 <= i < rows.len() ==> (#[trigger] rows[i]).id != rec.id,
    ensures
        exists|i: int|
            0 <= i < rows.insert(pos, rec).len() && (#[trigger] rows.insert(pos, rec)[i]).id
                == rec.id,
        forall|i: int|
            0 <= i < rows.insert(pos, rec).len() && (#[trigger] rows.insert(pos, rec)[i]).id
                == rec.id ==> rows.insert(pos, rec)[i] == rec && spec_activity_of(
                rows.insert(pos, rec)[i],
            ).type_color == spec_color_of_label(rec.kind),
{
    let post = rows.insert(pos, rec);
    assert(post[pos] == rec);
    assert forall|i: int| 0 <= i < post.len() && (#[trigger] post[i]).id == rec.id implies post[i]
        == rec by {
        if i < pos {
            assert(post[i] == rows[i]);
        } else if i > pos {
            assert(post[i] == rows[i - 1]);
        }
    }
}

} // verus!
