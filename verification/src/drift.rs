//! Aggregation and drift detection: rolling per-official, per-axis
//! baselines over persisted vote-level scores, and additive flagging of
//! statistically notable deviations in the current scoring window.
//!
//! The detector is a pure function over the persisted records the
//! caller hands it; reading and writing the store is a collaborator's
//! job. Averages are exact rationals compared by cross-multiplication,
//! so the drift gate carries no rounding error.

use vstd::prelude::*;
use crate::fixed::{VALUE_LIMIT};
use crate::scoring::{
    axes_view, spec_axis_index, AxisModel, AxisScore, values_bounded, AXES_MAX,
};
use crate::text::{spec_starts_with, starts_with_str};

verus! {

/// A persisted score: a score result plus its identity. Exactly one of
/// the motion-level or vote-level identities is populated; the drift
/// detector only ever appends to `flags`.
#[derive(Clone, Debug)]
pub struct DecisionScore {
    pub id: String,
    pub meeting_id: Option<String>,
    pub motion_id: Option<String>,
    pub vote_id: Option<String>,
    pub overall_score: i64,
    pub axis_scores: Vec<AxisScore>,
    pub constitutional_refs: Vec<String>,
    pub evidence: Vec<String>,
    pub confidence: i64,
    pub flags: Vec<String>,
    pub computed_at: String,
}

impl DecisionScore {
    /// The machine bounds every persisted score must satisfy before it
    /// enters aggregation: few enough axes, values bounded.
    pub open spec fn wf(self) -> bool {
        &&& self.axis_scores@.len() <= AXES_MAX
        &&& values_bounded(axes_view(self.axis_scores@), VALUE_LIMIT as int)
    }
}

/// Every record within the machine bounds.
pub open spec fn records_wf(recs: Seq<DecisionScore>) -> bool {
    forall|i: int| 0 <= i < recs.len() ==> (#[trigger] recs[i]).wf()
}

/// Whether every record of the batch is within the machine bounds.
pub fn check_records_wf(recs: &Vec<DecisionScore>) -> (r: bool)
    ensures
        r == records_wf(recs@),
{
    let mut i: usize = 0;
    while i < recs.len()
        invariant
            i <= recs@.len(),
            forall|j: int| 0 <= j < i ==> (#[trigger] recs@[j]).wf(),
        decreases recs@.len() - i,
    {
        if !crate::scoring::check_axes_bounded(&recs[i].axis_scores, VALUE_LIMIT) {
            return false;
        }
        i = i + 1;
    }
    true
}

/// One flagged deviation: an official's current-window average on one
/// axis, their prior baseline average, and the signed difference, in
/// milli-points rounded to the nearest milli.
#[derive(Clone, Debug)]
pub struct OfficialDriftRecord {
    pub id: String,
    pub official: String,
    pub axis: String,
    pub prior_avg: i64,
    pub current_avg: i64,
    pub deviation: i64,
    pub flags: Vec<String>,
    pub computed_at: String,
}

/// What one detection run found: the re-flagged current-window scores
/// of every drifting official, the drift records to persist, and one
/// `official:flag` note per drift event.
#[derive(Clone, Debug)]
pub struct DriftDetectionResult {
    pub updated_scores: Vec<DecisionScore>,
    pub drift_records: Vec<OfficialDriftRecord>,
    pub drift_flags: Vec<String>,
}

/// The official a score belongs to, recovered from the first
/// `official:` entry of its evidence trail.
pub open spec fn spec_extract_official(evidence: Seq<Seq<char>>) -> Option<Seq<char>>
    decreases evidence.len(),
{
    if evidence.len() == 0 {
        None
    } else if spec_starts_with(evidence[0], "official:"@) {
        Some(evidence[0].skip("official:"@.len() as int))
    } else {
        spec_extract_official(evidence.drop_first())
    }
}

/// Recover an official's name from an evidence trail, if any entry
/// carries the `official:` convention.
pub fn extract_official(evidence: &Vec<String>) -> (r: Option<String>)
    ensures
        match r {
            Some(name) => spec_extract_official(evidence.deep_view()) == Some(name@),
            None => spec_extract_official(evidence.deep_view()) is None,
        },
{
    let ghost dv = evidence.deep_view();
    let mut i: usize = 0;
    proof {
        assert(dv.skip(0) =~= dv);
    }
    while i < evidence.len()
        invariant
            i <= dv.len(),
            dv == evidence.deep_view(),
            spec_extract_official(dv) == spec_extract_official(dv.skip(i as int)),
        decreases dv.len() - i,
    {
        proof {
            assert(dv.skip(i as int)[0] == dv[i as int]);
            assert(dv.skip(i as int).drop_first() =~= dv.skip(i + 1));
            assert(dv[i as int] == evidence@[i as int]@);
        }
        let entry = &evidence[i];
        if starts_with_str(entry.as_str(), "official:") {
            proof {
                reveal_strlit("official:");
            }
            let n = entry.as_str().unicode_len();
            let rest = entry.as_str().substring_char(9, n);
            return Some(rest.to_owned());
        }
        i = i + 1;
    }
    None
}

/// The official of one record.
pub open spec fn rec_official(r: DecisionScore) -> Option<Seq<char>> {
    spec_extract_official(r.evidence.deep_view())
}

/// The value a record carries on an axis, if the axis is present.
pub open spec fn rec_axis_value(r: DecisionScore, axis: Seq<char>) -> Option<int> {
    let av = axes_view(r.axis_scores@);
    let idx = spec_axis_index(av, axis);
    if idx >= 0 {
        Some(av[idx].value)
    } else {
        None
    }
}

/// The officials recoverable from the records, first appearance first,
/// without repetition.
pub open spec fn spec_distinct_officials(recs: Seq<DecisionScore>) -> Seq<Seq<char>>
    decreases recs.len(),
{
    if recs.len() == 0 {
        Seq::empty()
    } else {
        let rest = spec_distinct_officials(recs.drop_last());
        match rec_official(recs.last()) {
            Some(o) => if rest.contains(o) {
                rest
            } else {
                rest.push(o)
            },
            None => rest,
        }
    }
}

/// Fold the axis names of one record into an accumulated name list,
/// keeping first-appearance order without repetition.
pub open spec fn spec_add_new_axes(acc: Seq<Seq<char>>, axes: Seq<AxisModel>) -> Seq<Seq<char>>
    decreases axes.len(),
{
    if axes.len() == 0 {
        acc
    } else {
        let acc2 = spec_add_new_axes(acc, axes.drop_last());
        if acc2.contains(axes.last().axis) {
            acc2
        } else {
            acc2.push(axes.last().axis)
        }
    }
}

/// The axes an official was scored on in the window, first appearance
/// first, without repetition.
pub open spec fn spec_official_axes(recs: Seq<DecisionScore>, o: Seq<char>) -> Seq<Seq<char>>
    decreases recs.len(),
{
    if recs.len() == 0 {
        Seq::empty()
    } else {
        let rest = spec_official_axes(recs.drop_last(), o);
        if rec_official(recs.last()) == Some(o) {
            spec_add_new_axes(rest, axes_view(recs.last().axis_scores@))
        } else {
            rest
        }
    }
}

/// The official's values on one axis, in record order.
pub open spec fn spec_axis_values(recs: Seq<DecisionScore>, o: Seq<char>, axis: Seq<char>) -> Seq<
    int,
>
    decreases recs.len(),
{
    if recs.len() == 0 {
        Seq::empty()
    } else {
        let rest = spec_axis_values(recs.drop_last(), o, axis);
        if rec_official(recs.last()) == Some(o) {
            match rec_axis_value(recs.last(), axis) {
                Some(v) => rest.push(v),
                None => rest,
            }
        } else {
            rest
        }
    }
}

/// The sum of a value list.
pub open spec fn spec_sum(vals: Seq<int>) -> int
    decreases vals.len(),
{
    if vals.len() == 0 {
        0
    } else {
        spec_sum(vals.drop_last()) + vals.last()
    }
}

/// The baseline: walking the prior records (most recent first), the
/// official's values on the axis, stopping once `w` have been found.
pub open spec fn spec_baseline(
    prior: Seq<DecisionScore>,
    o: Seq<char>,
    axis: Seq<char>,
    w: int,
) -> Seq<int>
    decreases prior.len(),
{
    if prior.len() == 0 || w <= 0 {
        Seq::empty()
    } else {
        let r = prior[0];
        if rec_official(r) == Some(o) {
            match rec_axis_value(r, axis) {
                Some(v) => seq![v] + spec_baseline(prior.drop_first(), o, axis, w - 1),
                None => spec_baseline(prior.drop_first(), o, axis, w),
            }
        } else {
            spec_baseline(prior.drop_first(), o, axis, w)
        }
    }
}


/// The most records one detection run accepts on either side of the
/// window boundary, so that all cross-multiplied sums stay exact.
pub const WINDOW_RECORDS_MAX: usize = 1_000_000;

/// Divide and round to the nearest integer, halves away from zero.
pub open spec fn spec_div_round(sum: int, n: int) -> int
    recommends
        n >= 1,
{
    if sum >= 0 {
        (2 * sum + n) / (2 * n)
    } else {
        -((2 * (-sum) + n) / (2 * n))
    }
}

/// The rounded milli-point average of a value list; an empty list
/// averages to zero.
pub open spec fn spec_avg(vals: Seq<int>) -> int {
    if vals.len() == 0 {
        0
    } else {
        spec_div_round(spec_sum(vals), vals.len() as int)
    }
}

/// The values of an `i64` list, as integers.
pub open spec fn vals_view(vals: Seq<i64>) -> Seq<int> {
    vals.map_values(|v: i64| v as int)
}

/// Whether the official's current-window scores on an axis drift from
/// their own baseline: the baseline must be full (at least
/// `driftWindow` prior observations), and the exact difference of the
/// two averages must reach the threshold. An empty baseline (possible
/// only with a zero window) averages to zero. The comparison is done
/// by cross-multiplication, so it is exact.
pub open spec fn spec_is_drift(
    current: Seq<DecisionScore>,
    prior: Seq<DecisionScore>,
    rubric: crate::rubric::Rubric,
    o: Seq<char>,
    axis: Seq<char>,
) -> bool {
    let cur = spec_axis_values(current, o, axis);
    let base = spec_baseline(prior, o, axis, rubric.bias_controls.drift_window as int);
    let nc = cur.len() as int;
    let nb = if base.len() == 0 {
        1
    } else {
        base.len() as int
    };
    let sb = if base.len() == 0 {
        0
    } else {
        spec_sum(base)
    };
    &&& base.len() >= rubric.bias_controls.drift_window
    &&& nc >= 1
    &&& vstd::math::abs(
        spec_sum(cur) * nb - sb * nc,
    ) >= rubric.bias_controls.drift_threshold as int * nc * nb
}

/// The axes of the list on which the official drifts, in order.
pub open spec fn spec_filter_drift(
    axes: Seq<Seq<char>>,
    current: Seq<DecisionScore>,
    prior: Seq<DecisionScore>,
    rubric: crate::rubric::Rubric,
    o: Seq<char>,
) -> Seq<Seq<char>>
    decreases axes.len(),
{
    if axes.len() == 0 {
        Seq::empty()
    } else {
        let rest = spec_filter_drift(axes.drop_last(), current, prior, rubric, o);
        if spec_is_drift(current, prior, rubric, o, axes.last()) {
            rest.push(axes.last())
        } else {
            rest
        }
    }
}

/// The drift axes of one official.
pub open spec fn spec_drift_axes(
    current: Seq<DecisionScore>,
    prior: Seq<DecisionScore>,
    rubric: crate::rubric::Rubric,
    o: Seq<char>,
) -> Seq<Seq<char>> {
    spec_filter_drift(spec_official_axes(current, o), current, prior, rubric, o)
}

/// Every (official, axis) drift event of the run, officials in first
/// appearance order, each official's axes in first appearance order.
pub open spec fn spec_pairs_upto(
    officials: Seq<Seq<char>>,
    current: Seq<DecisionScore>,
    prior: Seq<DecisionScore>,
    rubric: crate::rubric::Rubric,
) -> Seq<(Seq<char>, Seq<char>)>
    decreases officials.len(),
{
    if officials.len() == 0 {
        Seq::empty()
    } else {
        let o = officials.last();
        spec_pairs_upto(officials.drop_last(), current, prior, rubric) + spec_drift_axes(
            current,
            prior,
            rubric,
            o,
        ).map_values(|a: Seq<char>| (o, a))
    }
}

/// Every drift event of the run.
pub open spec fn spec_drift_pairs(
    current: Seq<DecisionScore>,
    prior: Seq<DecisionScore>,
    rubric: crate::rubric::Rubric,
) -> Seq<(Seq<char>, Seq<char>)> {
    spec_pairs_upto(spec_distinct_officials(current), current, prior, rubric)
}

/// Append one `drift_detected:` flag per drift axis, in order, never
/// repeating a flag the list already carries.
pub open spec fn spec_append_drift_flags(flags: Seq<Seq<char>>, axes: Seq<Seq<char>>) -> Seq<
    Seq<char>,
>
    decreases axes.len(),
{
    if axes.len() == 0 {
        flags
    } else {
        let f0 = spec_append_drift_flags(flags, axes.drop_last());
        let fl = "drift_detected:"@ + axes.last();
        if f0.contains(fl) {
            f0
        } else {
            f0.push(fl)
        }
    }
}

/// The mathematical shadow of a persisted score.
#[verifier::ext_equal]
pub struct DsModel {
    pub id: Seq<char>,
    pub meeting_id: Option<Seq<char>>,
    pub motion_id: Option<Seq<char>>,
    pub vote_id: Option<Seq<char>>,
    pub overall: int,
    pub axes: Seq<AxisModel>,
    pub refs: Seq<Seq<char>>,
    pub evidence: Seq<Seq<char>>,
    pub confidence: int,
    pub flags: Seq<Seq<char>>,
    pub computed_at: Seq<char>,
}

impl DecisionScore {
    /// The record's mathematical shadow.
    pub open spec fn model(self) -> DsModel {
        DsModel {
            id: self.id@,
            meeting_id: match self.meeting_id {
                Some(s) => Some(s@),
                None => None,
            },
            motion_id: match self.motion_id {
                Some(s) => Some(s@),
                None => None,
            },
            vote_id: match self.vote_id {
                Some(s) => Some(s@),
                None => None,
            },
            overall: self.overall_score as int,
            axes: axes_view(self.axis_scores@),
            refs: self.constitutional_refs.deep_view(),
            evidence: self.evidence.deep_view(),
            confidence: self.confidence as int,
            flags: self.flags.deep_view(),
            computed_at: self.computed_at@,
        }
    }

    /// The same record with its flag list replaced.
    pub open spec fn model_with_flags(self, flags: Seq<Seq<char>>) -> DsModel {
        DsModel { flags, ..self.model() }
    }
}

/// The re-flagged records one drifting official contributes: each of
/// the official's current-window records, in order, with that
/// official's drift flags appended once each.
pub open spec fn spec_updated_for(
    current: Seq<DecisionScore>,
    o: Seq<char>,
    daxes: Seq<Seq<char>>,
) -> Seq<DsModel>
    decreases current.len(),
{
    if current.len() == 0 {
        Seq::empty()
    } else {
        let rest = spec_updated_for(current.drop_last(), o, daxes);
        let r = current.last();
        if rec_official(r) == Some(o) {
            rest.push(r.model_with_flags(spec_append_drift_flags(r.flags.deep_view(), daxes)))
        } else {
            rest
        }
    }
}

/// The re-flagged records of every drifting official, officials in
/// first appearance order.
pub open spec fn spec_updated_upto(
    officials: Seq<Seq<char>>,
    current: Seq<DecisionScore>,
    prior: Seq<DecisionScore>,
    rubric: crate::rubric::Rubric,
) -> Seq<DsModel>
    decreases officials.len(),
{
    if officials.len() == 0 {
        Seq::empty()
    } else {
        let o = officials.last();
        let daxes = spec_drift_axes(current, prior, rubric, o);
        spec_updated_upto(officials.drop_last(), current, prior, rubric) + (if daxes.len() > 0 {
            spec_updated_for(current, o, daxes)
        } else {
            Seq::empty()
        })
    }
}

/// Values gathered from well-formed records stay within the value
/// bound, and there are no more of them than records.
pub proof fn lemma_axis_values_bounded(recs: Seq<DecisionScore>, o: Seq<char>, axis: Seq<char>)
    requires
        records_wf(recs),
    ensures
        spec_axis_values(recs, o, axis).len() <= recs.len(),
        forall|i: int|
            0 <= i < spec_axis_values(recs, o, axis).len() ==> -VALUE_LIMIT <= #[trigger] spec_axis_values(
                recs,
                o,
                axis,
            )[i] <= VALUE_LIMIT,
    decreases recs.len(),
{
    if recs.len() > 0 {
        assert(records_wf(recs.drop_last())) by {
            assert(forall|i: int|
                0 <= i < recs.len() - 1 ==> recs.drop_last()[i] == #[trigger] recs[i]);
        }
        lemma_axis_values_bounded(recs.drop_last(), o, axis);
        let r = recs.last();
        assert(r.wf());
        if rec_official(r) == Some(o) {
            match rec_axis_value(r, axis) {
                Some(v) => {
                    let av = axes_view(r.axis_scores@);
                    crate::scoring::lemma_axis_index(av, axis);
                },
                None => {},
            }
        }
    }
}

/// Baseline values gathered from well-formed records stay within the
/// value bound, and the walk never gathers more than asked.
pub proof fn lemma_baseline_bounded(
    prior: Seq<DecisionScore>,
    o: Seq<char>,
    axis: Seq<char>,
    w: int,
)
    requires
        records_wf(prior),
    ensures
        spec_baseline(prior, o, axis, w).len() <= prior.len(),
        spec_baseline(prior, o, axis, w).len() <= vstd::math::max(w, 0),
        forall|i: int|
            0 <= i < spec_baseline(prior, o, axis, w).len() ==> -VALUE_LIMIT
                <= #[trigger] spec_baseline(prior, o, axis, w)[i] <= VALUE_LIMIT,
    decreases prior.len(),
{
    if prior.len() > 0 && w > 0 {
        assert(records_wf(prior.drop_first())) by {
            assert(forall|i: int|
                0 <= i < prior.len() - 1 ==> prior.drop_first()[i] == #[trigger] prior[i + 1]);
        }
        lemma_baseline_bounded(prior.drop_first(), o, axis, w);
        lemma_baseline_bounded(prior.drop_first(), o, axis, w - 1);
        let r = prior[0];
        assert(r.wf());
        if rec_official(r) == Some(o) {
            match rec_axis_value(r, axis) {
                Some(v) => {
                    let av = axes_view(r.axis_scores@);
                    crate::scoring::lemma_axis_index(av, axis);
                },
                None => {},
            }
        }
    }
}

/// The sum of a bounded value list is bounded by one bound per value.
pub proof fn lemma_sum_bounded(vals: Seq<int>, bound: int)
    requires
        bound >= 0,
        forall|i: int| 0 <= i < vals.len() ==> -bound <= #[trigger] vals[i] <= bound,
    ensures
        -((vals.len() as int) * bound) <= spec_sum(vals) <= (vals.len() as int) * bound,
    decreases vals.len(),
{
    if vals.len() == 0 {
    } else {
        assert(forall|i: int|
            0 <= i < vals.len() - 1 ==> -bound <= #[trigger] vals.drop_last()[i] <= bound);
        lemma_sum_bounded(vals.drop_last(), bound);
        let n = vals.len() as int;
        let m = vals.drop_last().len() as int;
        assert(n * bound == m * bound + bound) by (nonlinear_arith)
            requires
                n == m + 1,
        ;
        assert(-bound <= vals.last() <= bound);
    }
}


/// Whether the record belongs to the named official.
fn official_matches(r: &DecisionScore, o: &str) -> (b: bool)
    ensures
        b == (rec_official(*r) == Some(o@)),
{
    match extract_official(&r.evidence) {
        Some(name) => crate::text::str_eq(name.as_str(), o),
        None => false,
    }
}

/// The officials recoverable from the records, first appearance first.
pub fn distinct_officials(recs: &Vec<DecisionScore>) -> (r: Vec<String>)
    ensures
        r.deep_view() == spec_distinct_officials(recs@),
{
    let mut out: Vec<String> = Vec::new();
    let mut i: usize = 0;
    proof {
        assert(recs@.take(0) =~= Seq::<DecisionScore>::empty());
    }
    while i < recs.len()
        invariant
            i <= recs@.len(),
            out.deep_view() == spec_distinct_officials(recs@.take(i as int)),
        decreases recs@.len() - i,
    {
        proof {
            let next = recs@.take(i + 1);
            assert(next.drop_last() =~= recs@.take(i as int));
            assert(next.last() == recs@[i as int]);
        }
        match extract_official(&recs[i].evidence) {
            Some(name) => {
                if !crate::scoring::vec_contains_str(&out, name.as_str()) {
                    out.push(name);
                    proof {
                        assert(out.deep_view() =~= spec_distinct_officials(recs@.take(i + 1)));
                    }
                }
            },
            None => {},
        }
        i = i + 1;
    }
    proof {
        assert(recs@.take(recs@.len() as int) =~= recs@);
    }
    out
}

/// The axes the official was scored on in the window, first appearance
/// first.
#[verifier::loop_isolation(false)]
pub fn official_axes(recs: &Vec<DecisionScore>, o: &str) -> (r: Vec<String>)
    ensures
        r.deep_view() == spec_official_axes(recs@, o@),
{
    let mut out: Vec<String> = Vec::new();
    let mut i: usize = 0;
    proof {
        assert(recs@.take(0) =~= Seq::<DecisionScore>::empty());
    }
    while i < recs.len()
        invariant
            i <= recs@.len(),
            out.deep_view() == spec_official_axes(recs@.take(i as int), o@),
        decreases recs@.len() - i,
    {
        proof {
            let next = recs@.take(i + 1);
            assert(next.drop_last() =~= recs@.take(i as int));
            assert(next.last() == recs@[i as int]);
        }
        if official_matches(&recs[i], o) {
            let rec = &recs[i];
            let ghost acc0 = spec_official_axes(recs@.take(i as int), o@);
            let ghost raxes = axes_view(rec.axis_scores@);
            let mut t: usize = 0;
            proof {
                assert(raxes.take(0) =~= Seq::<AxisModel>::empty());
            }
            while t < rec.axis_scores.len()
                invariant
                    t <= rec.axis_scores@.len(),
                    out.deep_view() == spec_add_new_axes(acc0, raxes.take(t as int)),
                decreases rec.axis_scores@.len() - t,
            {
                proof {
                    let next = raxes.take(t + 1);
                    assert(next.drop_last() =~= raxes.take(t as int));
                    assert(next.last() == raxes[t as int]);
                    assert(raxes[t as int] == rec.axis_scores@[t as int].model());
                }
                let name = &rec.axis_scores[t].axis;
                if !crate::scoring::vec_contains_str(&out, name.as_str()) {
                    out.push(name.clone());
                    proof {
                        assert(out.deep_view() =~= spec_add_new_axes(acc0, raxes.take(t + 1)));
                    }
                }
                t = t + 1;
            }
            proof {
                assert(raxes.take(rec.axis_scores@.len() as int) =~= raxes);
            }
        }
        i = i + 1;
    }
    proof {
        assert(recs@.take(recs@.len() as int) =~= recs@);
    }
    out
}

/// The official's values on the axis, in record order.
pub fn axis_values(recs: &Vec<DecisionScore>, o: &str, axis: &str) -> (r: Vec<i64>)
    ensures
        vals_view(r@) == spec_axis_values(recs@, o@, axis@),
{
    let mut out: Vec<i64> = Vec::new();
    let mut i: usize = 0;
    proof {
        assert(recs@.take(0) =~= Seq::<DecisionScore>::empty());
        assert(vals_view(out@) =~= spec_axis_values(recs@.take(0), o@, axis@));
    }
    while i < recs.len()
        invariant
            i <= recs@.len(),
            vals_view(out@) == spec_axis_values(recs@.take(i as int), o@, axis@),
        decreases recs@.len() - i,
    {
        proof {
            let next = recs@.take(i + 1);
            assert(next.drop_last() =~= recs@.take(i as int));
            assert(next.last() == recs@[i as int]);
        }
        if official_matches(&recs[i], o) {
            match crate::scoring::find_axis(&recs[i].axis_scores, axis) {
                Some(idx) => {
                    let v = recs[i].axis_scores[idx].value;
                    out.push(v);
                    proof {
                        assert(axes_view(recs@[i as int].axis_scores@)[idx as int]
                            == recs@[i as int].axis_scores@[idx as int].model());
                        assert(rec_axis_value(recs@[i as int], axis@) == Some(v as int));
                        assert(vals_view(out@) =~= spec_axis_values(
                            recs@.take(i + 1),
                            o@,
                            axis@,
                        ));
                    }
                },
                None => {
                    proof {
                        assert(rec_axis_value(recs@[i as int], axis@) is None);
                    }
                },
            }
        }
        i = i + 1;
    }
    proof {
        assert(recs@.take(recs@.len() as int) =~= recs@);
    }
    out
}

/// The official's baseline on the axis: the first `w` values found
/// walking the prior records, most recent first.
pub fn baseline_values(prior: &Vec<DecisionScore>, o: &str, axis: &str, w: usize) -> (r: Vec<i64>)
    ensures
        vals_view(r@) == spec_baseline(prior@, o@, axis@, w as int),
{
    let mut out: Vec<i64> = Vec::new();
    let mut i: usize = 0;
    proof {
        assert(prior@.skip(0) =~= prior@);
        assert(vals_view(out@) =~= Seq::<int>::empty());
    }
    while i < prior.len() && out.len() < w
        invariant
            i <= prior@.len(),
            out@.len() <= w,
            spec_baseline(prior@, o@, axis@, w as int) == vals_view(out@) + spec_baseline(
                prior@.skip(i as int),
                o@,
                axis@,
                w - out@.len(),
            ),
        decreases prior@.len() - i,
    {
        proof {
            assert(prior@.skip(i as int)[0] == prior@[i as int]);
            assert(prior@.skip(i as int).drop_first() =~= prior@.skip(i + 1));
        }
        if official_matches(&prior[i], o) {
            match crate::scoring::find_axis(&prior[i].axis_scores, axis) {
                Some(idx) => {
                    let v = prior[i].axis_scores[idx].value;
                    proof {
                        assert(axes_view(prior@[i as int].axis_scores@)[idx as int]
                            == prior@[i as int].axis_scores@[idx as int].model());
                        assert(rec_axis_value(prior@[i as int], axis@) == Some(v as int));
                    }
                    out.push(v);
                    proof {
                        assert(vals_view(out@) =~= vals_view(out@.drop_last()) + seq![
                            v as int,
                        ]);
                        assert(vals_view(out@.drop_last()) + (seq![v as int] + spec_baseline(
                            prior@.skip(i + 1),
                            o@,
                            axis@,
                            w - out@.len(),
                        )) =~= vals_view(out@) + spec_baseline(
                            prior@.skip(i + 1),
                            o@,
                            axis@,
                            w - out@.len(),
                        ));
                    }
                },
                None => {
                    proof {
                        assert(rec_axis_value(prior@[i as int], axis@) is None);
                    }
                },
            }
        }
        i = i + 1;
    }
    proof {
        if out@.len() == w {
            assert(spec_baseline(prior@.skip(i as int), o@, axis@, 0) =~= Seq::<int>::empty());
        } else {
            assert(i == prior@.len());
            assert(prior@.skip(i as int) =~= Seq::<DecisionScore>::empty());
        }
        assert(vals_view(out@) + Seq::<int>::empty() =~= vals_view(out@));
    }
    out
}

/// The sum of the gathered values.
pub fn sum_values(vals: &Vec<i64>) -> (r: i128)
    requires
        vals@.len() <= WINDOW_RECORDS_MAX,
        forall|i: int|
            0 <= i < vals@.len() ==> -VALUE_LIMIT <= #[trigger] vals@[i] <= VALUE_LIMIT,
    ensures
        r as int == spec_sum(vals_view(vals@)),
        -4_000_000_000_000_000_000 <= r <= 4_000_000_000_000_000_000,
{
    let mut acc: i128 = 0;
    let mut i: usize = 0;
    proof {
        assert(vals_view(vals@).take(0) =~= Seq::<int>::empty());
    }
    while i < vals.len()
        invariant
            i <= vals@.len(),
            vals@.len() <= WINDOW_RECORDS_MAX,
            forall|k: int|
                0 <= k < vals@.len() ==> -VALUE_LIMIT <= #[trigger] vals@[k] <= VALUE_LIMIT,
            acc as int == spec_sum(vals_view(vals@).take(i as int)),
            -(i as int) * 4_000_000_000_000 <= acc as int <= (i as int) * 4_000_000_000_000,
        decreases vals@.len() - i,
    {
        proof {
            let next = vals_view(vals@).take(i + 1);
            assert(next.drop_last() =~= vals_view(vals@).take(i as int));
            assert(next.last() == vals_view(vals@)[i as int]);
            assert(vals_view(vals@)[i as int] == vals@[i as int] as int);
        }
        acc = acc + (vals[i] as i128);
        i = i + 1;
    }
    proof {
        assert(vals_view(vals@).take(vals@.len() as int) =~= vals_view(vals@));
    }
    acc
}

/// The rounded milli-point average of the values whose sum is given.
pub(crate) fn avg_milli(sum: i128, n: usize) -> (r: i64)
    requires
        1 <= n <= WINDOW_RECORDS_MAX,
        -(n as int) * (VALUE_LIMIT as int) <= sum as int <= (n as int) * (VALUE_LIMIT as int),
    ensures
        r as int == spec_div_round(sum as int, n as int),
        -VALUE_LIMIT <= r <= VALUE_LIMIT,
{
    let n128 = n as i128;
    let negative = sum < 0;
    let mag: i128 = if negative {
        -sum
    } else {
        sum
    };
    let q: i128 = (2 * mag + n128) / (2 * n128);
    proof {
        let s = mag as int;
        let nn = n as int;
        assert(s <= nn * (VALUE_LIMIT as int));
        assert(2 * s + nn <= 2 * (nn * (VALUE_LIMIT as int)) + nn);
        assert(2 * (nn * (VALUE_LIMIT as int)) + nn == (VALUE_LIMIT as int) * (2 * nn) + nn)
            by (nonlinear_arith);
        vstd::arithmetic::div_mod::lemma_div_is_ordered(
            2 * s + nn,
            (VALUE_LIMIT as int) * (2 * nn) + nn,
            2 * nn,
        );
        assert(((VALUE_LIMIT as int) * (2 * nn) + nn) / (2 * nn) == VALUE_LIMIT as int + nn / (2
            * nn)) by {
            vstd::arithmetic::div_mod::lemma_hoist_over_denominator(
                nn,
                VALUE_LIMIT as int,
                (2 * nn) as nat,
            );
        }
        vstd::arithmetic::div_mod::lemma_basic_div(nn, 2 * nn);
        vstd::arithmetic::div_mod::lemma_div_pos_is_pos(2 * s + nn, 2 * nn);
    }
    if negative {
        -(q as i64)
    } else {
        q as i64
    }
}

/// Append one `drift_detected:` flag per drift axis to a copy of the
/// record's flags, skipping flags already present.
pub fn updated_flags(flags: &Vec<String>, axes: &Vec<String>) -> (r: Vec<String>)
    ensures
        r.deep_view() == spec_append_drift_flags(flags.deep_view(), axes.deep_view()),
{
    let mut out = crate::text::copy_strings(flags);
    let mut j: usize = 0;
    proof {
        assert(axes.deep_view().take(0) =~= Seq::<Seq<char>>::empty());
    }
    while j < axes.len()
        invariant
            j <= axes@.len(),
            out.deep_view() == spec_append_drift_flags(
                flags.deep_view(),
                axes.deep_view().take(j as int),
            ),
        decreases axes@.len() - j,
    {
        proof {
            let next = axes.deep_view().take(j + 1);
            assert(next.drop_last() =~= axes.deep_view().take(j as int));
            assert(next.last() == axes.deep_view()[j as int]);
            assert(axes.deep_view()[j as int] == axes@[j as int]@);
        }
        let fl = crate::scoring::prefixed("drift_detected:", axes[j].as_str());
        if !crate::scoring::vec_contains_str(&out, fl.as_str()) {
            out.push(fl);
            proof {
                assert(out.deep_view() =~= spec_append_drift_flags(
                    flags.deep_view(),
                    axes.deep_view().take(j + 1),
                ));
            }
        }
        j = j + 1;
    }
    proof {
        assert(axes.deep_view().take(axes@.len() as int) =~= axes.deep_view());
    }
    out
}

/// A copy of the record with its flag list replaced.
fn record_with_flags(r: &DecisionScore, flags: Vec<String>) -> (c: DecisionScore)
    ensures
        c.model() == r.model_with_flags(flags.deep_view()),
{
    let c = DecisionScore {
        id: r.id.clone(),
        meeting_id: crate::text::copy_opt_string(&r.meeting_id),
        motion_id: crate::text::copy_opt_string(&r.motion_id),
        vote_id: crate::text::copy_opt_string(&r.vote_id),
        overall_score: r.overall_score,
        axis_scores: crate::scoring::copy_axes(&r.axis_scores),
        constitutional_refs: crate::text::copy_strings(&r.constitutional_refs),
        evidence: crate::text::copy_strings(&r.evidence),
        confidence: r.confidence,
        flags,
        computed_at: r.computed_at.clone(),
    };
    proof {
        assert(c.model() =~~= r.model_with_flags(c.flags.deep_view()));
    }
    c
}


/// What one persisted drift record must say about its (official, axis)
/// drift event.
pub open spec fn drift_record_matches(
    rec: OfficialDriftRecord,
    current: Seq<DecisionScore>,
    prior: Seq<DecisionScore>,
    rubric: crate::rubric::Rubric,
    o: Seq<char>,
    a: Seq<char>,
    window_end: Seq<char>,
    computed_at: Seq<char>,
) -> bool {
    let cur = spec_axis_values(current, o, a);
    let base = spec_baseline(prior, o, a, rubric.bias_controls.drift_window as int);
    &&& rec.official@ == o
    &&& rec.axis@ == a
    &&& rec.current_avg as int == spec_avg(cur)
    &&& rec.prior_avg as int == spec_avg(base)
    &&& rec.deviation as int == spec_avg(cur) - spec_avg(base)
    &&& rec.flags.deep_view() == seq!["drift_detected:"@ + a]
    &&& rec.id@ == "drift:"@ + crate::text::slug_of(o) + ":"@ + a + ":"@ + window_end
    &&& rec.computed_at@ == computed_at
}

/// Evaluate drift for every (official, axis) pair of the current
/// window. For each pair whose baseline holds at least `driftWindow`
/// prior observations and whose exact average deviation reaches the
/// threshold, emit one drift record, one `official:flag` note, and
/// append the `drift_detected:` flag once to each of that official's
/// current-window scores. A pair with a short baseline is silently
/// skipped; a record whose evidence trail names no official never
/// enters aggregation. No score's numeric fields are ever touched.
#[verifier::loop_isolation(false)]
pub fn detect_drift(
    current: &Vec<DecisionScore>,
    prior: &Vec<DecisionScore>,
    rubric: &crate::rubric::Rubric,
    window_end: &str,
    computed_at: &str,
) -> (r: DriftDetectionResult)
    requires
        rubric.wf(),
        records_wf(current@),
        records_wf(prior@),
        current@.len() <= WINDOW_RECORDS_MAX,
        prior@.len() <= WINDOW_RECORDS_MAX,
    ensures
        r.drift_records@.len() == spec_drift_pairs(current@, prior@, *rubric).len(),
        forall|i: int|
            0 <= i < r.drift_records@.len() ==> drift_record_matches(
                #[trigger] r.drift_records@[i],
                current@,
                prior@,
                *rubric,
                spec_drift_pairs(current@, prior@, *rubric)[i].0,
                spec_drift_pairs(current@, prior@, *rubric)[i].1,
                window_end@,
                computed_at@,
            ),
        r.drift_flags.deep_view().len() == spec_drift_pairs(current@, prior@, *rubric).len(),
        forall|i: int|
            0 <= i < r.drift_flags.deep_view().len() ==> #[trigger] r.drift_flags.deep_view()[i]
                == spec_drift_pairs(current@, prior@, *rubric)[i].0 + ":"@ + "drift_detected:"@
                + spec_drift_pairs(current@, prior@, *rubric)[i].1,
        r.updated_scores@.map_values(|s: DecisionScore| s.model()) == spec_updated_upto(
            spec_distinct_officials(current@),
            current@,
            prior@,
            *rubric,
        ),
{
    let officials = distinct_officials(current);
    let ghost ovs = officials.deep_view();
    let w = rubric.bias_controls.drift_window;
    let mut updated_scores: Vec<DecisionScore> = Vec::new();
    let mut drift_records: Vec<OfficialDriftRecord> = Vec::new();
    let mut drift_flags: Vec<String> = Vec::new();
    let mut oi: usize = 0;
    proof {
        assert(ovs.take(0) =~= Seq::<Seq<char>>::empty());
        assert(updated_scores@.map_values(|s: DecisionScore| s.model()) =~= spec_updated_upto(
            ovs.take(0),
            current@,
            prior@,
            *rubric,
        ));
    }
    while oi < officials.len()
        invariant
            oi <= ovs.len(),
            drift_records@.len() == spec_pairs_upto(ovs.take(oi as int), current@, prior@, *rubric).len(),
            forall|i: int|
                0 <= i < drift_records@.len() ==> drift_record_matches(
                    #[trigger] drift_records@[i],
                    current@,
                    prior@,
                    *rubric,
                    spec_pairs_upto(ovs.take(oi as int), current@, prior@, *rubric)[i].0,
                    spec_pairs_upto(ovs.take(oi as int), current@, prior@, *rubric)[i].1,
                    window_end@,
                    computed_at@,
                ),
            drift_flags.deep_view().len() == spec_pairs_upto(
                ovs.take(oi as int),
                current@,
                prior@,
                *rubric,
            ).len(),
            forall|i: int|
                0 <= i < drift_flags.deep_view().len() ==> #[trigger] drift_flags.deep_view()[i]
                    == spec_pairs_upto(ovs.take(oi as int), current@, prior@, *rubric)[i].0 + ":"@
                    + "drift_detected:"@ + spec_pairs_upto(
                    ovs.take(oi as int),
                    current@,
                    prior@,
                    *rubric,
                )[i].1,
            updated_scores@.map_values(|s: DecisionScore| s.model()) == spec_updated_upto(
                ovs.take(oi as int),
                current@,
                prior@,
                *rubric,
            ),
        decreases ovs.len() - oi,
    {
        let o = &officials[oi];
        proof {
            assert(ovs[oi as int] == officials@[oi as int]@);
        }
        let axes = official_axes(current, o.as_str());
        let ghost axs = axes.deep_view();
        let ghost opairs = spec_pairs_upto(ovs.take(oi as int), current@, prior@, *rubric);
        let ghost opl = opairs.len();
        let mut o_axes: Vec<String> = Vec::new();
        let mut ai: usize = 0;
        proof {
            assert(axs.take(0) =~= Seq::<Seq<char>>::empty());
        }
        while ai < axes.len()
            invariant
                ai <= axs.len(),
                o_axes.deep_view() == spec_filter_drift(
                    axs.take(ai as int),
                    current@,
                    prior@,
                    *rubric,
                    o@,
                ),
                drift_records@.len() == opl + o_axes@.len(),
                forall|i: int|
                    0 <= i < opl ==> drift_record_matches(
                        #[trigger] drift_records@[i],
                        current@,
                        prior@,
                        *rubric,
                        opairs[i].0,
                        opairs[i].1,
                        window_end@,
                        computed_at@,
                    ),
                forall|i: int|
                    opl <= i < drift_records@.len() ==> drift_record_matches(
                        #[trigger] drift_records@[i],
                        current@,
                        prior@,
                        *rubric,
                        o@,
                        o_axes.deep_view()[i - opl],
                        window_end@,
                        computed_at@,
                    ),
                drift_flags.deep_view().len() == opl + o_axes@.len(),
                forall|i: int|
                    0 <= i < opl ==> #[trigger] drift_flags.deep_view()[i] == opairs[i].0 + ":"@
                        + "drift_detected:"@ + opairs[i].1,
                forall|i: int|
                    opl <= i < drift_flags.deep_view().len() ==> #[trigger] drift_flags.deep_view()[i]
                        == o@ + ":"@ + "drift_detected:"@ + o_axes.deep_view()[i - opl],
            decreases axs.len() - ai,
        {
            let a = &axes[ai];
            proof {
                assert(axs[ai as int] == axes@[ai as int]@);
                let next = axs.take(ai + 1);
                assert(next.drop_last() =~= axs.take(ai as int));
                assert(next.last() == axs[ai as int]);
            }
            let cur_vals = axis_values(current, o.as_str(), a.as_str());
            let base_vals = baseline_values(prior, o.as_str(), a.as_str(), w);
            proof {
                lemma_axis_values_bounded(current@, o@, a@);
                lemma_baseline_bounded(prior@, o@, a@, w as int);
                assert(vals_view(cur_vals@).len() == cur_vals@.len());
                assert(vals_view(base_vals@).len() == base_vals@.len());
                assert(forall|i: int|
                    0 <= i < cur_vals@.len() ==> -VALUE_LIMIT <= #[trigger] cur_vals@[i]
                        <= VALUE_LIMIT) by {
                    assert(forall|i: int|
                        0 <= i < cur_vals@.len() ==> vals_view(cur_vals@)[i] == #[trigger] cur_vals@[i]
                            as int);
                }
                assert(forall|i: int|
                    0 <= i < base_vals@.len() ==> -VALUE_LIMIT <= #[trigger] base_vals@[i]
                        <= VALUE_LIMIT) by {
                    assert(forall|i: int|
                        0 <= i < base_vals@.len() ==> vals_view(base_vals@)[i]
                            == #[trigger] base_vals@[i] as int);
                }
            }
            let mut is_event = false;
            if base_vals.len() >= w && cur_vals.len() >= 1 {
                let sc = sum_values(&cur_vals);
                let sb_raw = sum_values(&base_vals);
                let nc = cur_vals.len();
                let nb0 = base_vals.len();
                let nb: i128 = if nb0 == 0 {
                    1
                } else {
                    nb0 as i128
                };
                let sb: i128 = if nb0 == 0 {
                    0
                } else {
                    sb_raw
                };
                proof {
                    lemma_sum_bounded(vals_view(cur_vals@), VALUE_LIMIT as int);
                    lemma_sum_bounded(vals_view(base_vals@), VALUE_LIMIT as int);
                    assert(-4_000_000_000_000_000_000_000_000 <= sc as int * nb as int
                        <= 4_000_000_000_000_000_000_000_000) by (nonlinear_arith)
                        requires
                            -4_000_000_000_000_000_000 <= sc as int <= 4_000_000_000_000_000_000,
                            1 <= nb as int <= 1_000_000,
                    ;
                    assert(-4_000_000_000_000_000_000_000_000 <= sb as int * nc as int
                        <= 4_000_000_000_000_000_000_000_000) by (nonlinear_arith)
                        requires
                            -4_000_000_000_000_000_000 <= sb as int <= 4_000_000_000_000_000_000,
                            1 <= nc as int <= 1_000_000,
                    ;
                }
                let diff: i128 = sc * nb - sb * (nc as i128);
                let lhs: i128 = if diff < 0 {
                    -diff
                } else {
                    diff
                };
                let thr = rubric.bias_controls.drift_threshold;
                proof {
                    assert(-1_000_000_000_000_000_000 <= thr as int * nc as int
                        <= 1_000_000_000_000_000_000) by (nonlinear_arith)
                        requires
                            -1_000_000_000_000 <= thr as int <= 1_000_000_000_000,
                            1 <= nc as int <= 1_000_000,
                    ;
                    assert(-1_000_000_000_000_000_000_000_000 <= (thr as int * nc as int) * nb as int
                        <= 1_000_000_000_000_000_000_000_000) by (nonlinear_arith)
                        requires
                            -1_000_000_000_000_000_000 <= thr as int * nc as int
                                <= 1_000_000_000_000_000_000,
                            1 <= nb as int <= 1_000_000,
                    ;
                }
                let rhs: i128 = (thr as i128) * (nc as i128) * nb;
                if lhs >= rhs {
                    is_event = true;
                    proof {
                        assert(spec_is_drift(current@, prior@, *rubric, o@, a@));
                    }
                    let cur_avg = avg_milli(sc, nc);
                    let prior_avg: i64 = if nb0 == 0 {
                        0
                    } else {
                        avg_milli(sb, nb0)
                    };
                    let deviation = cur_avg - prior_avg;
                    let slug = crate::text::slugify(o.as_str());
                    let mut id = "drift:".to_owned();
                    id.append(slug.as_str());
                    id.append(":");
                    id.append(a.as_str());
                    id.append(":");
                    id.append(window_end);
                    let mut rflags: Vec<String> = Vec::new();
                    rflags.push(crate::scoring::prefixed("drift_detected:", a.as_str()));
                    let rec = OfficialDriftRecord {
                        id,
                        official: o.clone(),
                        axis: a.clone(),
                        prior_avg,
                        current_avg: cur_avg,
                        deviation,
                        flags: rflags,
                        computed_at: computed_at.to_owned(),
                    };
                    proof {
                        assert(rec.flags.deep_view() =~= seq!["drift_detected:"@ + a@]);
                        assert(rec.id@ =~= "drift:"@ + crate::text::slug_of(o@) + ":"@ + a@ + ":"@
                            + window_end@);
                        assert(drift_record_matches(
                            rec,
                            current@,
                            prior@,
                            *rubric,
                            o@,
                            a@,
                            window_end@,
                            computed_at@,
                        ));
                    }
                    drift_records.push(rec);
                    let mut dfl = o.clone();
                    dfl.append(":");
                    dfl.append("drift_detected:");
                    dfl.append(a.as_str());
                    proof {
                        assert(dfl@ =~= o@ + ":"@ + "drift_detected:"@ + a@);
                    }
                    let ghost dfv0 = drift_flags.deep_view();
                    let ghost dflv = dfl@;
                    drift_flags.push(dfl);
                    let ghost oxv0 = o_axes.deep_view();
                    o_axes.push(a.clone());
                    proof {
                        assert(forall|i: int|
                            0 <= i < dfv0.len() ==> #[trigger] drift_flags.deep_view()[i]
                                == dfv0[i]);
                        assert(drift_flags.deep_view()[dfv0.len() as int] == dflv);
                        assert(drift_flags.deep_view() =~= dfv0.push(dflv));
                        assert(forall|i: int|
                            0 <= i < oxv0.len() ==> #[trigger] o_axes.deep_view()[i] == oxv0[i]);
                        assert(o_axes.deep_view()[oxv0.len() as int] == a@);
                        assert(o_axes.deep_view() =~= oxv0.push(a@));
                        assert(o_axes.deep_view() =~= spec_filter_drift(
                            axs.take(ai + 1),
                            current@,
                            prior@,
                            *rubric,
                            o@,
                        ));
                    }
                } else {
                    proof {
                        assert(!spec_is_drift(current@, prior@, *rubric, o@, a@));
                        assert(o_axes.deep_view() =~= spec_filter_drift(
                            axs.take(ai + 1),
                            current@,
                            prior@,
                            *rubric,
                            o@,
                        ));
                    }
                }
            } else {
                proof {
                    assert(!spec_is_drift(current@, prior@, *rubric, o@, a@));
                    assert(o_axes.deep_view() =~= spec_filter_drift(
                        axs.take(ai + 1),
                        current@,
                        prior@,
                        *rubric,
                        o@,
                    ));
                }
            }
            ai = ai + 1;
        }
        proof {
            assert(axs.take(axs.len() as int) =~= axs);
            assert(o_axes.deep_view() == spec_drift_axes(current@, prior@, *rubric, o@));
        }
        if o_axes.len() > 0 {
            let mut ri: usize = 0;
            proof {
                assert(current@.take(0) =~= Seq::<DecisionScore>::empty());
                assert(updated_scores@.map_values(|s: DecisionScore| s.model())
                    =~= spec_updated_upto(ovs.take(oi as int), current@, prior@, *rubric)
                    + spec_updated_for(current@.take(0), o@, o_axes.deep_view()));
            }
            while ri < current.len()
                invariant
                    ri <= current@.len(),
                    o_axes.deep_view() == spec_drift_axes(current@, prior@, *rubric, o@),
                    updated_scores@.map_values(|s: DecisionScore| s.model()) == spec_updated_upto(
                        ovs.take(oi as int),
                        current@,
                        prior@,
                        *rubric,
                    ) + spec_updated_for(current@.take(ri as int), o@, o_axes.deep_view()),
                decreases current@.len() - ri,
            {
                proof {
                    let next = current@.take(ri + 1);
                    assert(next.drop_last() =~= current@.take(ri as int));
                    assert(next.last() == current@[ri as int]);
                }
                if official_matches(&current[ri], o.as_str()) {
                    let nf = updated_flags(&current[ri].flags, &o_axes);
                    let upd = record_with_flags(&current[ri], nf);
                    let ghost um0 = updated_scores@.map_values(|s: DecisionScore| s.model());
                    let ghost upm = upd.model();
                    updated_scores.push(upd);
                    proof {
                        assert(forall|i: int|
                            0 <= i < um0.len() ==> updated_scores@.map_values(
                                |s: DecisionScore| s.model(),
                            )[i] == #[trigger] um0[i]);
                        assert(updated_scores@.map_values(|s: DecisionScore| s.model())[um0.len() as int]
                            == upm);
                        assert(updated_scores@.map_values(|s: DecisionScore| s.model())
                            =~= um0.push(upm));
                        assert(updated_scores@.map_values(|s: DecisionScore| s.model())
                            =~= spec_updated_upto(ovs.take(oi as int), current@, prior@, *rubric)
                            + spec_updated_for(current@.take(ri + 1), o@, o_axes.deep_view()));
                    }
                }
                ri = ri + 1;
            }
            proof {
                assert(current@.take(current@.len() as int) =~= current@);
            }
        }
        proof {
            let next = ovs.take(oi + 1);
            assert(next.drop_last() =~= ovs.take(oi as int));
            assert(next.last() == ovs[oi as int]);
            let daxes = spec_drift_axes(current@, prior@, *rubric, o@);
            let newpairs = spec_pairs_upto(next, current@, prior@, *rubric);
            assert(newpairs == opairs + daxes.map_values(|a: Seq<char>| (o@, a)));
            assert(drift_records@.len() == newpairs.len());
            assert(drift_flags.deep_view().len() == newpairs.len());
            assert(forall|i: int|
                opl <= i < newpairs.len() ==> #[trigger] newpairs[i] == (o@, daxes[i - opl]));
            if daxes.len() == 0 {
                assert(updated_scores@.map_values(|s: DecisionScore| s.model())
                    =~= spec_updated_upto(next, current@, prior@, *rubric));
            } else {
                assert(updated_scores@.map_values(|s: DecisionScore| s.model())
                    =~= spec_updated_upto(next, current@, prior@, *rubric));
            }
        }
        oi = oi + 1;
    }
    proof {
        assert(ovs.take(ovs.len() as int) =~= ovs);
    }
    DriftDetectionResult { updated_scores, drift_records, drift_flags }
}

} // verus!
