//! The motion and vote scorers: from a motion's text and linked evidence
//! to a bounded, reproducible score, and from a motion's score and a
//! recorded vote choice to a per-official score.
//!
//! Every public function carries a functional contract over the
//! fixed-point model, so scoring the same input twice provably yields
//! the same result.

use vstd::prelude::*;
use crate::fixed::{spec_clamp, spec_round, round_score, PARAM_LIMIT, SCALE, VALUE_LIMIT};
use crate::rubric::{AxisRefs, AxisWeight, Rubric, VoteEffect};

verus! {

/// The most axis entries a well-formed score result may carry.
pub const AXES_MAX: usize = 10_000;

/// One axis with its score, in milli-points.
#[derive(Clone, Debug)]
pub struct AxisScore {
    pub axis: String,
    pub value: i64,
}

/// The mathematical shadow of one axis entry.
#[verifier::ext_equal]
pub struct AxisModel {
    pub axis: Seq<char>,
    pub value: int,
}

impl AxisScore {
    /// The entry's mathematical shadow.
    pub open spec fn model(self) -> AxisModel {
        AxisModel { axis: self.axis@, value: self.value as int }
    }
}

/// The mathematical shadow of an axis-score list.
pub open spec fn axes_view(axes: Seq<AxisScore>) -> Seq<AxisModel> {
    axes.map_values(|a: AxisScore| a.model())
}

/// Read-only evidence: an artifact id with its free-text tags.
#[derive(Clone, Debug)]
pub struct LinkedArtifact {
    pub id: String,
    pub tags: Vec<String>,
}

/// A freshly computed score: the overall value, the per-axis values,
/// the citations explaining non-zero axes, the provenance trail, a
/// confidence in `[0, 1]`, and the outcome flags. All numeric values
/// are milli-points.
#[derive(Clone, Debug)]
pub struct ScoreResult {
    pub overall_score: i64,
    pub axis_scores: Vec<AxisScore>,
    pub constitutional_refs: Vec<String>,
    pub evidence: Vec<String>,
    pub confidence: i64,
    pub flags: Vec<String>,
}

/// Every axis value within `limit` in magnitude.
pub open spec fn values_bounded(axes: Seq<AxisModel>, limit: int) -> bool {
    forall|i: int| 0 <= i < axes.len() ==> -limit <= (#[trigger] axes[i]).value <= limit
}

/// No axis name occurs twice.
pub open spec fn axes_distinct(axes: Seq<AxisModel>) -> bool {
    forall|i: int, j: int|
        0 <= i < j < axes.len() ==> (#[trigger] axes[i]).axis != (#[trigger] axes[j]).axis
}

impl ScoreResult {
    /// The machine bounds every score result satisfies: few enough axes,
    /// values bounded, axis names distinct.
    pub open spec fn wf(self) -> bool {
        &&& self.axis_scores@.len() <= AXES_MAX
        &&& values_bounded(axes_view(self.axis_scores@), VALUE_LIMIT as int)
        &&& axes_distinct(axes_view(self.axis_scores@))
    }
}

/// Whether the axis values the score result carries stay within
/// `limit` in magnitude (and there are few enough of them).
pub fn check_axes_bounded(axes: &Vec<AxisScore>, limit: i64) -> (r: bool)
    requires
        limit >= 0,
    ensures
        r == (axes@.len() <= AXES_MAX && values_bounded(axes_view(axes@), limit as int)),
{
    if axes.len() > AXES_MAX {
        return false;
    }
    let mut i: usize = 0;
    while i < axes.len()
        invariant
            i <= axes@.len(),
            limit >= 0,
            forall|j: int|
                0 <= j < i ==> -limit <= (#[trigger] axes_view(axes@)[j]).value <= limit,
        decreases axes@.len() - i,
    {
        let v = axes[i].value;
        if v < -limit || v > limit {
            proof {
                assert(axes_view(axes@)[i as int].value == v as int);
            }
            return false;
        }
        i = i + 1;
    }
    true
}

/// The weight an axis resolves to: the first matching entry, or `1.0`.
pub open spec fn spec_lookup_weight(ws: Seq<AxisWeight>, axis: Seq<char>) -> int
    decreases ws.len(),
{
    if ws.len() == 0 {
        SCALE as int
    } else if ws[0].axis@ == axis {
        ws[0].weight as int
    } else {
        spec_lookup_weight(ws.drop_first(), axis)
    }
}

/// Every weight an axis can resolve to stays within `PARAM_LIMIT`.
pub proof fn lemma_lookup_weight_bounded(ws: Seq<AxisWeight>, axis: Seq<char>)
    requires
        forall|i: int| 0 <= i < ws.len() ==> -PARAM_LIMIT <= (#[trigger] ws[i]).weight <= PARAM_LIMIT,
    ensures
        -PARAM_LIMIT <= spec_lookup_weight(ws, axis) <= PARAM_LIMIT,
    decreases ws.len(),
{
    if ws.len() == 0 {
    } else if ws[0].axis@ == axis {
    } else {
        assert forall|i: int| 0 <= i < ws.drop_first().len() implies -PARAM_LIMIT <= (
        #[trigger] ws.drop_first()[i]).weight <= PARAM_LIMIT by {
            assert(ws.drop_first()[i] == ws[i + 1]);
        }
        lemma_lookup_weight_bounded(ws.drop_first(), axis);
    }
}

fn lookup_weight(ws: &Vec<AxisWeight>, axis: &str) -> (r: i64)
    ensures
        r as int == spec_lookup_weight(ws@, axis@),
{
    let mut i: usize = 0;
    proof {
        assert(ws@.skip(0) =~= ws@);
    }
    while i < ws.len()
        invariant
            i <= ws@.len(),
            spec_lookup_weight(ws@, axis@) == spec_lookup_weight(ws@.skip(i as int), axis@),
        decreases ws@.len() - i,
    {
        proof {
            assert(ws@.skip(i as int)[0] == ws@[i as int]);
            assert(ws@.skip(i as int).drop_first() =~= ws@.skip(i + 1));
        }
        if crate::text::str_eq(ws[i].axis.as_str(), axis) {
            return ws[i].weight;
        }
        i = i + 1;
    }
    SCALE
}

/// The weighted sum of the axis values, in micro-points
/// (milli-point values times milli-point weights).
pub open spec fn spec_weighted_sum(axes: Seq<AxisModel>, ws: Seq<AxisWeight>) -> int
    decreases axes.len(),
{
    if axes.len() == 0 {
        0
    } else {
        spec_weighted_sum(axes.drop_last(), ws) + axes.last().value * spec_lookup_weight(
            ws,
            axes.last().axis,
        )
    }
}

/// The weighted overall score of the axis values, in micro-points.
fn weighted_overall(axes: &Vec<AxisScore>, ws: &Vec<AxisWeight>) -> (r: i128)
    requires
        axes@.len() <= AXES_MAX,
        values_bounded(axes_view(axes@), VALUE_LIMIT as int),
        forall|i: int| 0 <= i < ws@.len() ==> -PARAM_LIMIT <= (#[trigger] ws@[i]).weight <= PARAM_LIMIT,
    ensures
        r as int == spec_weighted_sum(axes_view(axes@), ws@),
{
    let mut acc: i128 = 0;
    let mut i: usize = 0;
    while i < axes.len()
        invariant
            i <= axes@.len(),
            axes@.len() <= AXES_MAX,
            values_bounded(axes_view(axes@), VALUE_LIMIT as int),
            forall|k: int|
                0 <= k < ws@.len() ==> -PARAM_LIMIT <= (#[trigger] ws@[k]).weight <= PARAM_LIMIT,
            acc as int == spec_weighted_sum(axes_view(axes@).take(i as int), ws@),
            -(i as int) * 4_000_000_000_000_000_000_000 <= acc as int <= (i as int)
                * 4_000_000_000_000_000_000_000,
        decreases axes@.len() - i,
    {
        let v = axes[i].value;
        let w = lookup_weight(ws, axes[i].axis.as_str());
        proof {
            assert(axes_view(axes@)[i as int] == axes@[i as int].model());
            assert(-VALUE_LIMIT <= v <= VALUE_LIMIT);
            lemma_lookup_weight_bounded(ws@, axes@[i as int].axis@);
            assert(-4_000_000_000_000_000_000_000 <= v as int * w as int
                <= 4_000_000_000_000_000_000_000) by (nonlinear_arith)
                requires
                    -4_000_000_000_000 <= v as int <= 4_000_000_000_000,
                    -1_000_000_000 <= w as int <= 1_000_000_000,
            ;
            let pre = axes_view(axes@).take(i + 1);
            assert(pre.drop_last() =~= axes_view(axes@).take(i as int));
            assert(pre.last() == axes_view(axes@)[i as int]);
        }
        let term: i128 = (v as i128) * (w as i128);
        acc = acc + term;
        i = i + 1;
    }
    proof {
        assert(axes_view(axes@).take(axes@.len() as int) =~= axes_view(axes@));
    }
    acc
}

/// Every axis value zero (an empty list counts).
pub open spec fn spec_all_zero(axes: Seq<AxisModel>) -> bool {
    forall|i: int| 0 <= i < axes.len() ==> (#[trigger] axes[i]).value == 0
}

fn all_values_zero(axes: &Vec<AxisScore>) -> (r: bool)
    ensures
        r == spec_all_zero(axes_view(axes@)),
{
    let mut i: usize = 0;
    while i < axes.len()
        invariant
            i <= axes@.len(),
            forall|j: int| 0 <= j < i ==> (#[trigger] axes_view(axes@)[j]).value == 0,
        decreases axes@.len() - i,
    {
        if axes[i].value != 0 {
            proof {
                assert(axes_view(axes@)[i as int].value == axes@[i as int].value as int);
            }
            return false;
        }
        i = i + 1;
    }
    true
}

/// Negate every axis value.
pub open spec fn spec_invert(axes: Seq<AxisModel>) -> Seq<AxisModel> {
    axes.map_values(|a: AxisModel| AxisModel { axis: a.axis, value: -a.value })
}

/// Add a flat penalty to every axis value (a no-op on an empty list).
pub open spec fn spec_add_penalty(axes: Seq<AxisModel>, penalty: int) -> Seq<AxisModel> {
    axes.map_values(|a: AxisModel| AxisModel { axis: a.axis, value: a.value + penalty })
}

/// The axis values after a vote effect: unchanged under `Inherit`,
/// negated under `Invert`.
pub open spec fn spec_apply_effect(axes: Seq<AxisModel>, effect: VoteEffect) -> Seq<AxisModel> {
    match effect {
        VoteEffect::Inherit => axes,
        VoteEffect::Invert => spec_invert(axes),
    }
}

/// A fresh copy of the axis entries.
pub(crate) fn copy_axes(axes: &Vec<AxisScore>) -> (r: Vec<AxisScore>)
    ensures
        axes_view(r@) == axes_view(axes@),
        r@.len() == axes@.len(),
{
    let mut out: Vec<AxisScore> = Vec::new();
    let mut i: usize = 0;
    while i < axes.len()
        invariant
            i <= axes@.len(),
            out@.len() == i,
            axes_view(out@) == axes_view(axes@).take(i as int),
        decreases axes@.len() - i,
    {
        let entry = AxisScore { axis: axes[i].axis.clone(), value: axes[i].value };
        out.push(entry);
        proof {
            assert(forall|j: int|
                0 <= j < i ==> axes_view(out@)[j] == axes_view(axes@).take(i as int)[j]);
            assert(out@[i as int].axis@ == axes@[i as int].axis@);
            assert(axes_view(out@) =~~= axes_view(axes@).take(i + 1));
        }
        i = i + 1;
    }
    proof {
        assert(axes_view(axes@).take(axes@.len() as int) =~= axes_view(axes@));
    }
    out
}

fn apply_vote_effect(axes: &Vec<AxisScore>, effect: &VoteEffect) -> (r: Vec<AxisScore>)
    requires
        values_bounded(axes_view(axes@), VALUE_LIMIT as int),
    ensures
        axes_view(r@) == spec_apply_effect(axes_view(axes@), *effect),
{
    match effect {
        VoteEffect::Inherit => copy_axes(axes),
        VoteEffect::Invert => {
            let mut out: Vec<AxisScore> = Vec::new();
            let mut i: usize = 0;
            while i < axes.len()
                invariant
                    i <= axes@.len(),
                    out@.len() == i,
                    values_bounded(axes_view(axes@), VALUE_LIMIT as int),
                    axes_view(out@) == spec_invert(axes_view(axes@)).take(i as int),
                decreases axes@.len() - i,
            {
                proof {
                    assert(axes_view(axes@)[i as int] == axes@[i as int].model());
                }
                let entry = AxisScore { axis: axes[i].axis.clone(), value: -axes[i].value };
                out.push(entry);
                proof {
                    let full = spec_invert(axes_view(axes@));
                    assert(forall|j: int| 0 <= j < i ==> axes_view(out@)[j] == full.take(i as int)[j]);
                    assert(out@[i as int].axis@ == axes@[i as int].axis@);
                    assert(out@[i as int].value as int == -(axes@[i as int].value as int));
                    assert(axes_view(out@) =~~= full.take(i + 1));
                }
                i = i + 1;
            }
            proof {
                assert(spec_invert(axes_view(axes@)).take(axes@.len() as int) =~= spec_invert(
                    axes_view(axes@),
                ));
            }
            out
        },
    }
}

fn apply_flat_penalty(axes: &Vec<AxisScore>, penalty: i64) -> (r: Vec<AxisScore>)
    requires
        values_bounded(axes_view(axes@), VALUE_LIMIT as int),
        -PARAM_LIMIT <= penalty <= PARAM_LIMIT,
    ensures
        axes_view(r@) == spec_add_penalty(axes_view(axes@), penalty as int),
{
    let mut out: Vec<AxisScore> = Vec::new();
    let mut i: usize = 0;
    while i < axes.len()
        invariant
            i <= axes@.len(),
            out@.len() == i,
            values_bounded(axes_view(axes@), VALUE_LIMIT as int),
            -PARAM_LIMIT <= penalty <= PARAM_LIMIT,
            axes_view(out@) == spec_add_penalty(axes_view(axes@), penalty as int).take(i as int),
        decreases axes@.len() - i,
    {
        proof {
            assert(axes_view(axes@)[i as int] == axes@[i as int].model());
        }
        let entry = AxisScore { axis: axes[i].axis.clone(), value: axes[i].value + penalty };
        out.push(entry);
        proof {
            let full = spec_add_penalty(axes_view(axes@), penalty as int);
            assert(forall|j: int| 0 <= j < i ==> axes_view(out@)[j] == full.take(i as int)[j]);
            assert(out@[i as int].axis@ == axes@[i as int].axis@);
            assert(out@[i as int].value as int == axes@[i as int].value as int + penalty as int);
            assert(axes_view(out@) =~~= full.take(i + 1));
        }
        i = i + 1;
    }
    proof {
        assert(spec_add_penalty(axes_view(axes@), penalty as int).take(axes@.len() as int)
            =~= spec_add_penalty(axes_view(axes@), penalty as int));
    }
    out
}

/// Round every axis value to the output precision.
pub open spec fn spec_round_axes(axes: Seq<AxisModel>, decimals: u32) -> Seq<AxisModel> {
    axes.map_values(|a: AxisModel| AxisModel { axis: a.axis, value: spec_round(a.value, decimals) })
}

fn round_axes(axes: &Vec<AxisScore>, decimals: u32) -> (r: Vec<AxisScore>)
    requires
        values_bounded(axes_view(axes@), 2 * VALUE_LIMIT as int),
    ensures
        axes_view(r@) == spec_round_axes(axes_view(axes@), decimals),
{
    let mut out: Vec<AxisScore> = Vec::new();
    let mut i: usize = 0;
    while i < axes.len()
        invariant
            i <= axes@.len(),
            out@.len() == i,
            values_bounded(axes_view(axes@), 2 * VALUE_LIMIT as int),
            axes_view(out@) == spec_round_axes(axes_view(axes@), decimals).take(i as int),
        decreases axes@.len() - i,
    {
        proof {
            assert(axes_view(axes@)[i as int] == axes@[i as int].model());
        }
        let entry = AxisScore {
            axis: axes[i].axis.clone(),
            value: round_score(axes[i].value, decimals),
        };
        out.push(entry);
        proof {
            let full = spec_round_axes(axes_view(axes@), decimals);
            assert(forall|j: int| 0 <= j < i ==> axes_view(out@)[j] == full.take(i as int)[j]);
            assert(out@[i as int].axis@ == axes@[i as int].axis@);
            assert(out@[i as int].value as int == spec_round(axes@[i as int].value as int, decimals));
            assert(axes_view(out@) =~~= full.take(i + 1));
        }
        i = i + 1;
    }
    proof {
        assert(spec_round_axes(axes_view(axes@), decimals).take(axes@.len() as int)
            =~= spec_round_axes(axes_view(axes@), decimals));
    }
    out
}


/// Every tag of every linked artifact, in reading order.
pub open spec fn spec_all_tags(arts: Seq<LinkedArtifact>) -> Seq<Seq<char>>
    decreases arts.len(),
{
    if arts.len() == 0 {
        Seq::empty()
    } else {
        spec_all_tags(arts.drop_last()) + arts.last().tags.deep_view()
    }
}

/// The distinct recognized issue tags, in first-occurrence order.
pub open spec fn spec_issue_tags(tags: Seq<Seq<char>>) -> Seq<Seq<char>>
    decreases tags.len(),
{
    if tags.len() == 0 {
        Seq::empty()
    } else {
        let rest = spec_issue_tags(tags.drop_last());
        let t = tags.last();
        if crate::tags::spec_is_issue_tag(t) && !rest.contains(t) {
            rest.push(t)
        } else {
            rest
        }
    }
}

/// The evidence-trail entries tag scanning produces: a `tag:` entry for
/// each first occurrence of a recognized issue tag, and a `rubric_tag:`
/// entry for every occurrence of a tag in the rubric's free-form list.
pub open spec fn spec_tag_evidence(tags: Seq<Seq<char>>, rubric_tags: Seq<Seq<char>>) -> Seq<
    Seq<char>,
>
    decreases tags.len(),
{
    if tags.len() == 0 {
        Seq::empty()
    } else {
        let rest = spec_tag_evidence(tags.drop_last(), rubric_tags);
        let t = tags.last();
        let prev = spec_issue_tags(tags.drop_last());
        let with_issue = if crate::tags::spec_is_issue_tag(t) && !prev.contains(t) {
            rest.push("tag:"@ + t)
        } else {
            rest
        };
        if rubric_tags.contains(t) {
            with_issue.push("rubric_tag:"@ + t)
        } else {
            with_issue
        }
    }
}

/// The issue tags a scan finds never repeat.
pub proof fn lemma_issue_tags_no_dup(tags: Seq<Seq<char>>)
    ensures
        spec_issue_tags(tags).no_duplicates(),
        forall|i: int|
            0 <= i < spec_issue_tags(tags).len() ==> crate::tags::spec_is_issue_tag(
                #[trigger] spec_issue_tags(tags)[i],
            ),
    decreases tags.len(),
{
    if tags.len() > 0 {
        lemma_issue_tags_no_dup(tags.drop_last());
    }
}

/// At most twenty-four issue tags exist, so a scan finds at most
/// twenty-four of them.
pub proof fn lemma_issue_tags_len(tags: Seq<Seq<char>>)
    ensures
        spec_issue_tags(tags).len() <= 24,
{
    broadcast use vstd::seq_lib::seq_to_set_is_finite;

    let s = spec_issue_tags(tags);
    lemma_issue_tags_no_dup(tags);
    s.unique_seq_to_set();
    let voc: Seq<Seq<char>> = seq![
        "zoning"@, "rezoning"@, "variance"@, "planning_commission"@, "budget"@, "tax"@, "bond"@,
        "appropriation"@, "contract"@, "bid"@, "procurement"@, "election"@, "clerk"@, "ballot"@,
        "school_board"@, "curriculum"@, "policy"@, "lawsuit"@, "settlement"@, "ordinance"@,
        "public_safety"@, "land_sale"@, "eminent_domain"@, "transparency"@,
    ];
    voc.lemma_cardinality_of_set();
    assert forall|x: Seq<char>| s.to_set().contains(x) implies voc.to_set().contains(x) by {
        assert(s.contains(x));
        assert(crate::tags::spec_is_issue_tag(x));
        if x == "zoning"@ {
            assert(voc[0] == x);
        } else if x == "rezoning"@ {
            assert(voc[1] == x);
        } else if x == "variance"@ {
            assert(voc[2] == x);
        } else if x == "planning_commission"@ {
            assert(voc[3] == x);
        } else if x == "budget"@ {
            assert(voc[4] == x);
        } else if x == "tax"@ {
            assert(voc[5] == x);
        } else if x == "bond"@ {
            assert(voc[6] == x);
        } else if x == "appropriation"@ {
            assert(voc[7] == x);
        } else if x == "contract"@ {
            assert(voc[8] == x);
        } else if x == "bid"@ {
            assert(voc[9] == x);
        } else if x == "procurement"@ {
            assert(voc[10] == x);
        } else if x == "election"@ {
            assert(voc[11] == x);
        } else if x == "clerk"@ {
            assert(voc[12] == x);
        } else if x == "ballot"@ {
            assert(voc[13] == x);
        } else if x == "school_board"@ {
            assert(voc[14] == x);
        } else if x == "curriculum"@ {
            assert(voc[15] == x);
        } else if x == "policy"@ {
            assert(voc[16] == x);
        } else if x == "lawsuit"@ {
            assert(voc[17] == x);
        } else if x == "settlement"@ {
            assert(voc[18] == x);
        } else if x == "ordinance"@ {
            assert(voc[19] == x);
        } else if x == "public_safety"@ {
            assert(voc[20] == x);
        } else if x == "land_sale"@ {
            assert(voc[21] == x);
        } else if x == "eminent_domain"@ {
            assert(voc[22] == x);
        } else {
            assert(x == "transparency"@);
            assert(voc[23] == x);
        }
    }
    vstd::set_lib::lemma_len_subset(s.to_set(), voc.to_set());
}

/// Whether the vector holds a string with these characters.
pub fn vec_contains_str(v: &Vec<String>, s: &str) -> (r: bool)
    ensures
        r == v.deep_view().contains(s@),
{
    let mut i: usize = 0;
    while i < v.len()
        invariant
            i <= v@.len(),
            forall|j: int| 0 <= j < i ==> #[trigger] v.deep_view()[j] != s@,
        decreases v@.len() - i,
    {
        if crate::text::str_eq(v[i].as_str(), s) {
            proof {
                assert(v.deep_view()[i as int] == s@);
            }
            return true;
        }
        proof {
            assert(v.deep_view()[i as int] == v@[i as int]@);
        }
        i = i + 1;
    }
    proof {
        assert(forall|j: int| 0 <= j < v.deep_view().len() ==> #[trigger] v.deep_view()[j] != s@);
    }
    false
}

/// The string `prefix + rest`.
pub fn prefixed(prefix: &str, rest: &str) -> (r: String)
    ensures
        r@ == prefix@ + rest@,
{
    let mut s = prefix.to_owned();
    s.append(rest);
    s
}

/// Scan the linked artifacts: gather the distinct recognized issue tags
/// and the evidence-trail entries explaining what was seen.
#[verifier::loop_isolation(false)]
pub fn collect_issue_tags(linked_artifacts: &Vec<LinkedArtifact>, rubric: &Rubric) -> (r: (
    Vec<String>,
    Vec<String>,
))
    ensures
        r.0.deep_view() == spec_issue_tags(spec_all_tags(linked_artifacts@)),
        r.1.deep_view() == spec_tag_evidence(
            spec_all_tags(linked_artifacts@),
            rubric.rubric_tags.deep_view(),
        ),
{
    let mut tags: Vec<String> = Vec::new();
    let mut evidence: Vec<String> = Vec::new();
    let mut a: usize = 0;
    proof {
        assert(linked_artifacts@.take(0) =~= Seq::<LinkedArtifact>::empty());
    }
    while a < linked_artifacts.len()
        invariant
            a <= linked_artifacts@.len(),
            tags.deep_view() == spec_issue_tags(spec_all_tags(linked_artifacts@.take(a as int))),
            evidence.deep_view() == spec_tag_evidence(
                spec_all_tags(linked_artifacts@.take(a as int)),
                rubric.rubric_tags.deep_view(),
            ),
        decreases linked_artifacts@.len() - a,
    {
        let artifact = &linked_artifacts[a];
        let ghost done0 = spec_all_tags(linked_artifacts@.take(a as int));
        let mut t: usize = 0;
        proof {
            assert(done0 + artifact.tags.deep_view().take(0) =~= done0);
        }
        while t < artifact.tags.len()
            invariant
                t <= artifact.tags@.len(),
                tags.deep_view() == spec_issue_tags(done0 + artifact.tags.deep_view().take(t as int)),
                evidence.deep_view() == spec_tag_evidence(
                    done0 + artifact.tags.deep_view().take(t as int),
                    rubric.rubric_tags.deep_view(),
                ),
            decreases artifact.tags@.len() - t,
        {
            let tag = &artifact.tags[t];
            let ghost done = done0 + artifact.tags.deep_view().take(t as int);
            proof {
                let next = done0 + artifact.tags.deep_view().take(t + 1);
                assert(next.drop_last() =~= done);
                assert(artifact.tags.deep_view()[t as int] == artifact.tags@[t as int]@);
                assert(next.last() == tag@);
            }
            if crate::tags::is_issue_tag(tag.as_str()) && !vec_contains_str(&tags, tag.as_str()) {
                tags.push(tag.clone());
                evidence.push(prefixed("tag:", tag.as_str()));
                proof {
                    assert(tags.deep_view() =~= spec_issue_tags(
                        done0 + artifact.tags.deep_view().take(t + 1),
                    ));
                }
            }
            if vec_contains_str(&rubric.rubric_tags, tag.as_str()) {
                evidence.push(prefixed("rubric_tag:", tag.as_str()));
            }
            proof {
                assert(tags.deep_view() =~= spec_issue_tags(
                    done0 + artifact.tags.deep_view().take(t + 1),
                ));
                assert(evidence.deep_view() =~= spec_tag_evidence(
                    done0 + artifact.tags.deep_view().take(t + 1),
                    rubric.rubric_tags.deep_view(),
                ));
            }
            t = t + 1;
        }
        proof {
            let upto = linked_artifacts@.take(a + 1);
            assert(upto.drop_last() =~= linked_artifacts@.take(a as int));
            assert(upto.last() == linked_artifacts@[a as int]);
            assert(artifact.tags.deep_view().take(artifact.tags@.len() as int)
                =~= artifact.tags.deep_view());
            assert(spec_all_tags(upto) == done0 + artifact.tags.deep_view());
        }
        a = a + 1;
    }
    proof {
        assert(linked_artifacts@.take(linked_artifacts@.len() as int) =~= linked_artifacts@);
    }
    (tags, evidence)
}


/// The position of an axis in the running score list, or `-1`.
pub open spec fn spec_axis_index(axes: Seq<AxisModel>, axis: Seq<char>) -> int
    decreases axes.len(),
{
    if axes.len() == 0 {
        -1
    } else if axes[0].axis == axis {
        0
    } else {
        let r = spec_axis_index(axes.drop_first(), axis);
        if r < 0 {
            -1
        } else {
            r + 1
        }
    }
}

/// Where the index points, it points at the axis, and a negative index
/// means the axis is absent.
pub proof fn lemma_axis_index(axes: Seq<AxisModel>, axis: Seq<char>)
    ensures
        spec_axis_index(axes, axis) >= 0 ==> spec_axis_index(axes, axis) < axes.len() && axes[
            spec_axis_index(axes, axis)
        ].axis == axis,
        spec_axis_index(axes, axis) < 0 ==> forall|i: int|
            0 <= i < axes.len() ==> (#[trigger] axes[i]).axis != axis,
    decreases axes.len(),
{
    if axes.len() > 0 && axes[0].axis != axis {
        lemma_axis_index(axes.drop_first(), axis);
        if spec_axis_index(axes, axis) < 0 {
            assert forall|i: int| 0 <= i < axes.len() implies (#[trigger] axes[i]).axis != axis by {
                if i > 0 {
                    assert(axes.drop_first()[i - 1] == axes[i]);
                }
            }
        }
    }
}

/// Credit `delta` to the axis: accumulate into its entry, or open a
/// fresh entry holding `delta` at the end of the list.
pub open spec fn spec_apply_axis(axes: Seq<AxisModel>, axis: Seq<char>, delta: int) -> Seq<
    AxisModel,
> {
    let idx = spec_axis_index(axes, axis);
    if idx >= 0 {
        axes.update(idx, AxisModel { axis: axes[idx].axis, value: axes[idx].value + delta })
    } else {
        axes.push(AxisModel { axis, value: delta })
    }
}

/// Credit one tag's axes in order.
pub open spec fn spec_tag_scores(
    axes: Seq<AxisModel>,
    list: Seq<Seq<char>>,
    spending: bool,
    pen: int,
) -> Seq<AxisModel>
    decreases list.len(),
{
    if list.len() == 0 {
        axes
    } else {
        let delta = if list[0] == "fiscal_restraint"@ && spending {
            pen
        } else {
            0
        };
        spec_tag_scores(spec_apply_axis(axes, list[0], delta), list.drop_first(), spending, pen)
    }
}

/// The axis scores after crediting every issue tag, in order, starting
/// from `axes0`.
pub open spec fn spec_axis_scores_from(
    axes0: Seq<AxisModel>,
    issue: Seq<Seq<char>>,
    spending: bool,
    pen: int,
) -> Seq<AxisModel>
    decreases issue.len(),
{
    if issue.len() == 0 {
        axes0
    } else {
        spec_tag_scores(
            spec_axis_scores_from(axes0, issue.drop_last(), spending, pen),
            crate::tags::spec_tag_axes(issue.last()),
            spending,
            pen,
        )
    }
}

/// The axis scores of a motion: every issue tag credited, starting from
/// an empty list.
pub open spec fn spec_axis_scores(issue: Seq<Seq<char>>, spending: bool, pen: int) -> Seq<
    AxisModel,
> {
    spec_axis_scores_from(Seq::empty(), issue, spending, pen)
}

/// The `spending_bias:` evidence entries one tag's axes produce.
pub open spec fn spec_axis_evidence(list: Seq<Seq<char>>, tag: Seq<char>, spending: bool) -> Seq<
    Seq<char>,
>
    decreases list.len(),
{
    if list.len() == 0 {
        Seq::empty()
    } else {
        let head: Seq<Seq<char>> = if list[0] == "fiscal_restraint"@ && spending {
            seq!["spending_bias:"@ + tag]
        } else {
            Seq::empty()
        };
        head + spec_axis_evidence(list.drop_first(), tag, spending)
    }
}

/// The `spending_bias:` evidence entries the whole scan produces.
pub open spec fn spec_spending_evidence(issue: Seq<Seq<char>>, spending: bool) -> Seq<Seq<char>>
    decreases issue.len(),
{
    if issue.len() == 0 {
        Seq::empty()
    } else {
        spec_spending_evidence(issue.drop_last(), spending) + spec_axis_evidence(
            crate::tags::spec_tag_axes(issue.last()),
            issue.last(),
            spending,
        )
    }
}

/// Crediting axes preserves distinctness, keeps values within the grown
/// bound, and grows the list by at most one entry per credited axis.
pub proof fn lemma_apply_axis_shape(axes: Seq<AxisModel>, axis: Seq<char>, delta: int, bound: int)
    requires
        axes_distinct(axes),
        values_bounded(axes, bound),
        -PARAM_LIMIT <= delta <= PARAM_LIMIT,
        bound >= 0,
    ensures
        axes_distinct(spec_apply_axis(axes, axis, delta)),
        values_bounded(spec_apply_axis(axes, axis, delta), bound + PARAM_LIMIT),
        axes.len() <= spec_apply_axis(axes, axis, delta).len() <= axes.len() + 1,
{
    lemma_axis_index(axes, axis);
}

/// Crediting one tag's axes grows the bound by at most one penalty per
/// axis in the tag's list.
pub proof fn lemma_tag_scores_shape(
    axes: Seq<AxisModel>,
    list: Seq<Seq<char>>,
    spending: bool,
    pen: int,
    bound: int,
)
    requires
        axes_distinct(axes),
        values_bounded(axes, bound),
        -PARAM_LIMIT <= pen <= PARAM_LIMIT,
        bound >= 0,
    ensures
        axes_distinct(spec_tag_scores(axes, list, spending, pen)),
        values_bounded(spec_tag_scores(axes, list, spending, pen), bound + list.len() * PARAM_LIMIT),
        axes.len() <= spec_tag_scores(axes, list, spending, pen).len() <= axes.len() + list.len(),
    decreases list.len(),
{
    if list.len() == 0 {
        assert(bound + list.len() * PARAM_LIMIT == bound);
    } else {
        let delta = if list[0] == "fiscal_restraint"@ && spending {
            pen
        } else {
            0
        };
        lemma_apply_axis_shape(axes, list[0], delta, bound);
        lemma_tag_scores_shape(
            spec_apply_axis(axes, list[0], delta),
            list.drop_first(),
            spending,
            pen,
            bound + PARAM_LIMIT,
        );
        assert(bound + PARAM_LIMIT + list.drop_first().len() * PARAM_LIMIT == bound + list.len()
            * PARAM_LIMIT) by (nonlinear_arith)
            requires
                list.drop_first().len() == list.len() - 1,
        ;
    }
}

/// Every tag influences at most one axis.
pub proof fn lemma_tag_axes_short(t: Seq<char>)
    ensures
        crate::tags::spec_tag_axes(t).len() <= 1,
{
}

/// The axis scores a motion scan produces stay distinct, bounded by one
/// penalty per issue tag, and no longer than the issue-tag list.
pub proof fn lemma_axis_scores_shape(issue: Seq<Seq<char>>, spending: bool, pen: int)
    requires
        -PARAM_LIMIT <= pen <= PARAM_LIMIT,
    ensures
        axes_distinct(spec_axis_scores(issue, spending, pen)),
        values_bounded(spec_axis_scores(issue, spending, pen), issue.len() * PARAM_LIMIT),
        spec_axis_scores(issue, spending, pen).len() <= issue.len(),
    decreases issue.len(),
{
    if issue.len() == 0 {
    } else {
        lemma_axis_scores_shape(issue.drop_last(), spending, pen);
        let prev = spec_axis_scores(issue.drop_last(), spending, pen);
        lemma_tag_axes_short(issue.last());
        assert(issue.drop_last().len() * PARAM_LIMIT >= 0) by (nonlinear_arith)
            requires
                issue.drop_last().len() >= 0,
        ;
        lemma_tag_scores_shape(
            prev,
            crate::tags::spec_tag_axes(issue.last()),
            spending,
            pen,
            issue.drop_last().len() * PARAM_LIMIT,
        );
        assert(issue.drop_last().len() * PARAM_LIMIT + 1 * PARAM_LIMIT == issue.len()
            * PARAM_LIMIT) by (nonlinear_arith)
            requires
                issue.drop_last().len() == issue.len() - 1,
        ;
        assert(values_bounded(
            spec_tag_scores(prev, crate::tags::spec_tag_axes(issue.last()), spending, pen),
            issue.len() * PARAM_LIMIT,
        )) by {
            assert(issue.drop_last().len() * PARAM_LIMIT + crate::tags::spec_tag_axes(
                issue.last(),
            ).len() * PARAM_LIMIT <= issue.len() * PARAM_LIMIT) by (nonlinear_arith)
                requires
                    issue.drop_last().len() == issue.len() - 1,
                    crate::tags::spec_tag_axes(issue.last()).len() <= 1,
            ;
        }
    }
}


/// Where the axis index sits when a prefix scan finds the first match.
proof fn lemma_axis_index_found(axes: Seq<AxisModel>, axis: Seq<char>, j: int)
    requires
        0 <= j < axes.len(),
        axes[j].axis == axis,
        forall|k: int| 0 <= k < j ==> (#[trigger] axes[k]).axis != axis,
    ensures
        spec_axis_index(axes, axis) == j,
    decreases axes.len(),
{
    if j > 0 {
        assert(axes[0].axis != axis);
        let rest = axes.drop_first();
        assert(rest[j - 1] == axes[j]);
        assert forall|k: int| 0 <= k < j - 1 implies (#[trigger] rest[k]).axis != axis by {
            assert(rest[k] == axes[k + 1]);
        }
        lemma_axis_index_found(rest, axis, j - 1);
    }
}

/// The position of the axis in the running list, if it is there.
pub(crate) fn find_axis(axes: &Vec<AxisScore>, axis: &str) -> (r: Option<usize>)
    ensures
        match r {
            Some(i) => i < axes@.len() && spec_axis_index(axes_view(axes@), axis@) == i as int,
            None => spec_axis_index(axes_view(axes@), axis@) < 0,
        },
{
    let mut i: usize = 0;
    while i < axes.len()
        invariant
            i <= axes@.len(),
            forall|k: int| 0 <= k < i ==> (#[trigger] axes_view(axes@)[k]).axis != axis@,
        decreases axes@.len() - i,
    {
        proof {
            assert(axes_view(axes@)[i as int] == axes@[i as int].model());
        }
        if crate::text::str_eq(axes[i].axis.as_str(), axis) {
            proof {
                lemma_axis_index_found(axes_view(axes@), axis@, i as int);
            }
            return Some(i);
        }
        i = i + 1;
    }
    proof {
        lemma_axis_index(axes_view(axes@), axis@);
        if spec_axis_index(axes_view(axes@), axis@) >= 0 {
            assert(false);
        }
    }
    None
}

/// Credit every issue tag's axes, applying the spending-bias penalty to
/// the fiscal-restraint axis when the motion text carries spending
/// language, and note each such penalty in the evidence trail.
#[verifier::loop_isolation(false)]
fn apply_tag_axis_scores(
    issue_tags: &Vec<String>,
    motion_text: &str,
    rubric: &Rubric,
    axis_scores: &mut Vec<AxisScore>,
    evidence: &mut Vec<String>,
)
    requires
        rubric.wf(),
        old(axis_scores)@.len() == 0,
        issue_tags.deep_view().len() <= 24,
    ensures
        axes_view(final(axis_scores)@) == spec_axis_scores(
            issue_tags.deep_view(),
            crate::tags::spec_has_spending_language(motion_text@),
            rubric.bias_controls.spending_bias_penalty as int,
        ),
        final(evidence).deep_view() == old(evidence).deep_view() + spec_spending_evidence(
            issue_tags.deep_view(),
            crate::tags::spec_has_spending_language(motion_text@),
        ),
{
    let spending = crate::tags::has_spending_language(motion_text);
    let pen = rubric.bias_controls.spending_bias_penalty;
    let ghost issue = issue_tags.deep_view();
    let ghost ev0 = evidence.deep_view();
    let mut k: usize = 0;
    proof {
        assert(axes_view(axis_scores@) =~= spec_axis_scores(issue.take(0), spending, pen as int));
        assert(ev0 + spec_spending_evidence(issue.take(0), spending) =~= ev0);
    }
    while k < issue_tags.len()
        invariant
            k <= issue.len(),
            axes_view(axis_scores@) == spec_axis_scores(issue.take(k as int), spending, pen as int),
            evidence.deep_view() == ev0 + spec_spending_evidence(issue.take(k as int), spending),
        decreases issue.len() - k,
    {
        let tag = &issue_tags[k];
        proof {
            assert(issue[k as int] == issue_tags@[k as int]@);
        }
        let ghost base = spec_axis_scores(issue.take(k as int), spending, pen as int);
        let axes_list = crate::tags::tag_axes(tag.as_str());
        let ghost list = crate::tags::spec_tag_axes(issue[k as int]);
        proof {
            lemma_axis_scores_shape(issue.take(k as int), spending, pen as int);
            assert(issue.take(k as int).len() * PARAM_LIMIT <= 24 * PARAM_LIMIT)
                by (nonlinear_arith)
                requires
                    issue.take(k as int).len() <= 24,
            ;
            assert(values_bounded(base, 24 * PARAM_LIMIT));
        }
        if axes_list.len() > 0 {
            let axis = axes_list[0];
            proof {
                assert(axes_list.deep_view()[0] == axes_list@[0]@);
                assert(axis@ == list[0]);
            }
            let fiscal = crate::text::str_eq(axis, "fiscal_restraint");
            let delta: i64 = if fiscal && spending {
                pen
            } else {
                0
            };
            match find_axis(axis_scores, axis) {
                Some(i) => {
                    proof {
                        lemma_axis_index(axes_view(axis_scores@), axis@);
                    }
                    let cur = axis_scores[i].value;
                    axis_scores[i] = AxisScore { axis: axis.to_owned(), value: cur + delta };
                    proof {
                        assert(axes_view(axis_scores@) =~~= spec_apply_axis(
                            base,
                            axis@,
                            delta as int,
                        ));
                    }
                },
                None => {
                    axis_scores.push(AxisScore { axis: axis.to_owned(), value: delta });
                    proof {
                        assert(axes_view(axis_scores@) =~~= spec_apply_axis(
                            base,
                            axis@,
                            delta as int,
                        ));
                    }
                },
            }
            if fiscal && spending {
                evidence.push(prefixed("spending_bias:", tag.as_str()));
            }
            proof {
                assert(list.drop_first().len() == 0);
                let applied = spec_apply_axis(base, list[0], delta as int);
                assert(spec_tag_scores(applied, list.drop_first(), spending, pen as int)
                    == applied);
                assert(spec_tag_scores(base, list, spending, pen as int) == applied);
                assert(spec_axis_evidence(list.drop_first(), issue[k as int], spending) =~= Seq::<
                    Seq<char>,
                >::empty());
                if fiscal && spending {
                    assert(spec_axis_evidence(list, issue[k as int], spending) =~= seq![
                        "spending_bias:"@ + issue[k as int],
                    ]);
                    assert(evidence.deep_view() =~= ev0 + spec_spending_evidence(
                        issue.take(k as int),
                        spending,
                    ) + spec_axis_evidence(list, issue[k as int], spending));
                } else {
                    assert(spec_axis_evidence(list, issue[k as int], spending) =~= Seq::<
                        Seq<char>,
                    >::empty());
                }
            }
        } else {
            proof {
                assert(list.len() == 0);
                assert(spec_axis_evidence(list, issue[k as int], spending) =~= Seq::<
                    Seq<char>,
                >::empty());
            }
        }
        proof {
            let upto = issue.take(k + 1);
            assert(upto.drop_last() =~= issue.take(k as int));
            assert(upto.last() == issue[k as int]);
            assert(spec_axis_scores(upto, spending, pen as int) == spec_tag_scores(
                base,
                list,
                spending,
                pen as int,
            ));
            assert(evidence.deep_view() =~= ev0 + spec_spending_evidence(upto, spending));
        }
        k = k + 1;
    }
    proof {
        assert(issue.take(issue.len() as int) =~= issue);
    }
}


/// Lexicographic order on character sequences, by code point.
pub open spec fn lex_leq(a: Seq<char>, b: Seq<char>) -> bool
    decreases a.len(),
{
    if a.len() == 0 {
        true
    } else if b.len() == 0 {
        false
    } else if a[0] != b[0] {
        a[0] < b[0]
    } else {
        lex_leq(a.drop_first(), b.drop_first())
    }
}

/// Strict lexicographic order.
pub open spec fn lex_lt(a: Seq<char>, b: Seq<char>) -> bool {
    lex_leq(a, b) && a != b
}

/// One of the two orders always holds.
pub proof fn lemma_lex_total(a: Seq<char>, b: Seq<char>)
    ensures
        lex_leq(a, b) || lex_leq(b, a),
    decreases a.len(),
{
    if a.len() > 0 && b.len() > 0 && a[0] == b[0] {
        lemma_lex_total(a.drop_first(), b.drop_first());
    }
}

/// Two sequences each at most the other are equal.
pub proof fn lemma_lex_antisym(a: Seq<char>, b: Seq<char>)
    requires
        lex_leq(a, b),
        lex_leq(b, a),
    ensures
        a == b,
    decreases a.len(),
{
    if a.len() == 0 {
        assert(b.len() == 0);
        assert(a =~= b);
    } else {
        assert(b.len() > 0);
        assert(a[0] == b[0]);
        lemma_lex_antisym(a.drop_first(), b.drop_first());
        assert forall|i: int| 0 <= i < a.len() implies a[i] == b[i] by {
            if i > 0 {
                assert(a.drop_first()[i - 1] == b.drop_first()[i - 1]);
            }
        }
        assert(a =~= b);
    }
}

/// The order is transitive.
pub proof fn lemma_lex_trans(a: Seq<char>, b: Seq<char>, c: Seq<char>)
    requires
        lex_leq(a, b),
        lex_leq(b, c),
    ensures
        lex_leq(a, c),
    decreases a.len(),
{
    if a.len() > 0 {
        assert(b.len() > 0);
        assert(c.len() > 0);
        if a[0] == b[0] && b[0] == c[0] {
            lemma_lex_trans(a.drop_first(), b.drop_first(), c.drop_first());
        }
    }
}

/// The strict order is transitive.
pub proof fn lemma_lex_lt_trans(a: Seq<char>, b: Seq<char>, c: Seq<char>)
    requires
        lex_lt(a, b),
        lex_lt(b, c),
    ensures
        lex_lt(a, c),
{
    lemma_lex_trans(a, b, c);
    if a == c {
        lemma_lex_antisym(b, c);
    }
}

/// Whether `a` comes at or before `b` in lexicographic order.
pub fn str_lex_leq(a: &str, b: &str) -> (r: bool)
    ensures
        r == lex_leq(a@, b@),
{
    let av = crate::text::str_to_chars(a);
    let bv = crate::text::str_to_chars(b);
    let mut i: usize = 0;
    proof {
        assert(a@.skip(0) =~= a@);
        assert(b@.skip(0) =~= b@);
    }
    while i < av.len() && i < bv.len()
        invariant
            i <= av@.len(),
            i <= bv@.len(),
            av@ == a@,
            bv@ == b@,
            lex_leq(a@, b@) == lex_leq(a@.skip(i as int), b@.skip(i as int)),
        decreases av@.len() - i,
    {
        if av[i] != bv[i] {
            return av[i] < bv[i];
        }
        proof {
            assert(a@.skip(i as int).drop_first() =~= a@.skip(i + 1));
            assert(b@.skip(i as int).drop_first() =~= b@.skip(i + 1));
        }
        i = i + 1;
    }
    i >= av.len()
}

/// Whether `a` comes strictly before `b` in lexicographic order.
pub fn str_lex_lt(a: &str, b: &str) -> (r: bool)
    ensures
        r == lex_lt(a@, b@),
{
    let r = !str_lex_leq(b, a);
    proof {
        lemma_lex_total(a@, b@);
        if lex_leq(a@, b@) && lex_leq(b@, a@) {
            lemma_lex_antisym(a@, b@);
        }
    }
    r
}

/// Strictly sorted: each entry comes strictly before the next, so no
/// entry repeats.
pub open spec fn refs_sorted(s: Seq<Seq<char>>) -> bool {
    forall|i: int, j: int| 0 <= i < j < s.len() ==> lex_lt(#[trigger] s[i], #[trigger] s[j])
}

/// Insert a citation into a strictly sorted list, keeping it strictly
/// sorted and ignoring a string already present.
fn insert_sorted_unique(v: Vec<String>, x: &str) -> (r: Vec<String>)
    requires
        refs_sorted(v.deep_view()),
    ensures
        refs_sorted(r.deep_view()),
        forall|s: Seq<char>|
            #[trigger] r.deep_view().contains(s) <==> (v.deep_view().contains(s) || s == x@),
{
    let ghost dv = v.deep_view();
    let mut p: usize = 0;
    while p < v.len() && str_lex_lt(v[p].as_str(), x)
        invariant
            p <= dv.len(),
            dv == v.deep_view(),
            forall|j: int| 0 <= j < p ==> lex_lt(#[trigger] dv[j], x@),
        decreases dv.len() - p,
    {
        proof {
            assert(dv[p as int] == v@[p as int]@);
        }
        p = p + 1;
    }
    if p < v.len() && crate::text::str_eq(v[p].as_str(), x) {
        proof {
            assert(dv[p as int] == x@);
            assert(v.deep_view().contains(x@));
        }
        return v;
    }
    proof {
        if p < dv.len() {
            assert(dv[p as int] == v@[p as int]@);
            assert(!lex_lt(dv[p as int], x@) && dv[p as int] != x@);
            lemma_lex_total(dv[p as int], x@);
            assert(lex_lt(x@, dv[p as int]));
        }
    }
    let mut out: Vec<String> = Vec::new();
    let mut i: usize = 0;
    while i < p
        invariant
            i <= p <= dv.len(),
            dv == v.deep_view(),
            out@.len() == i,
            out.deep_view() == dv.take(i as int),
        decreases p - i,
    {
        out.push(v[i].clone());
        proof {
            assert(forall|k: int| 0 <= k < i ==> out.deep_view()[k] == dv.take(i as int)[k]);
            assert(out@[i as int] == v@[i as int]);
            assert(out.deep_view()[i as int] == v@[i as int]@);
            assert(dv[i as int] == v@[i as int]@);
            assert(out.deep_view() =~= dv.take(i + 1));
        }
        i = i + 1;
    }
    out.push(x.to_owned());
    let mut j: usize = p;
    proof {
        assert(out.deep_view() =~= dv.take(p as int) + seq![x@] + dv.subrange(p as int, p as int));
    }
    while j < v.len()
        invariant
            p <= j <= dv.len(),
            dv == v.deep_view(),
            out@.len() == j + 1,
            out.deep_view() == dv.take(p as int) + seq![x@] + dv.subrange(p as int, j as int),
        decreases dv.len() - j,
    {
        out.push(v[j].clone());
        proof {
            let prev = dv.take(p as int) + seq![x@] + dv.subrange(p as int, j as int);
            let rhs = dv.take(p as int) + seq![x@] + dv.subrange(p as int, j + 1);
            assert(forall|k: int| 0 <= k < prev.len() ==> out.deep_view()[k] == prev[k]);
            assert(out@[j + 1] == v@[j as int]);
            assert(out.deep_view()[j + 1] == v@[j as int]@);
            assert(dv[j as int] == v@[j as int]@);
            assert forall|k: int| 0 <= k < j + 2 implies out.deep_view()[k] == rhs[k] by {
                if k < p {
                    assert(prev[k] == dv[k]);
                    assert(rhs[k] == dv[k]);
                } else if k == p {
                    assert(prev[k] == x@);
                    assert(rhs[k] == x@);
                } else if k < j + 1 {
                    assert(prev[k] == dv[k - 1]);
                    assert(rhs[k] == dv[k - 1]);
                } else {
                    assert(rhs[k] == dv[j as int]);
                }
            }
            assert(out.deep_view() =~= rhs);
        }
        j = j + 1;
    }
    let ghost rd = out.deep_view();
    proof {
        assert(rd == dv.take(p as int) + seq![x@] + dv.subrange(p as int, dv.len() as int));
        assert(rd.len() == dv.len() + 1);
        assert(rd[p as int] == x@);
        assert(forall|k: int| 0 <= k < p ==> rd[k] == #[trigger] dv[k]);
        assert(forall|k: int| p < k < rd.len() ==> rd[k] == #[trigger] dv[k - 1]);
        // Strict sortedness across the insertion point.
        assert forall|s: int, t: int| 0 <= s < t < rd.len() implies lex_lt(rd[s], rd[t]) by {
            if s < p && t < p {
            } else if s < p && t == p {
                assert(lex_lt(dv[s], x@));
            } else if s < p && t > p {
                assert(lex_lt(dv[s], dv[t - 1]));
            } else if s == p && t > p {
                assert(lex_lt(x@, dv[p as int]));
                if t - 1 > p {
                    lemma_lex_lt_trans(x@, dv[p as int], dv[t - 1]);
                }
            } else {
                assert(s > p && t > p);
                assert(lex_lt(dv[s - 1], dv[t - 1]));
            }
        }
        // Membership: exactly the old strings plus the new one.
        assert forall|s: Seq<char>| #[trigger] rd.contains(s) implies (dv.contains(s) || s == x@)
            by {
            let idx = choose|idx: int| 0 <= idx < rd.len() && rd[idx] == s;
            if idx < p {
                assert(dv[idx] == s);
            } else if idx > p {
                assert(dv[idx - 1] == s);
            }
        }
        assert forall|s: Seq<char>| dv.contains(s) implies rd.contains(s) by {
            let idx = choose|idx: int| 0 <= idx < dv.len() && dv[idx] == s;
            if idx < p {
                assert(rd[idx] == s);
            } else {
                assert(rd[idx + 1] == s);
            }
        }
        assert(rd.contains(x@));
    }
    out
}


/// The strings `prefix + r` for each citation `r` in the list.
pub open spec fn spec_prefixed_refs(prefix: Seq<char>, refs: Seq<Seq<char>>) -> Set<Seq<char>> {
    Set::new(
        |s: Seq<char>| exists|j: int| 0 <= j < refs.len() && s == prefix + #[trigger] refs[j],
    )
}

/// The citations mapped to an axis: the first matching entry's list,
/// or nothing.
pub open spec fn spec_lookup_refs(list: Seq<AxisRefs>, axis: Seq<char>) -> Seq<Seq<char>>
    decreases list.len(),
{
    if list.len() == 0 {
        Seq::empty()
    } else if list[0].axis@ == axis {
        list[0].refs.deep_view()
    } else {
        spec_lookup_refs(list.drop_first(), axis)
    }
}

/// The set of citation strings a score result owes: for every axis with
/// a non-zero value, its national (`US `) and state (`KY `) citations.
pub open spec fn spec_refs_set(axes: Seq<AxisModel>, us: Seq<AxisRefs>, ky: Seq<AxisRefs>) -> Set<
    Seq<char>,
>
    decreases axes.len(),
{
    if axes.len() == 0 {
        Set::empty()
    } else {
        let rest = spec_refs_set(axes.drop_last(), us, ky);
        let a = axes.last();
        if a.value != 0 {
            rest.union(spec_prefixed_refs("US "@, spec_lookup_refs(us, a.axis))).union(
                spec_prefixed_refs("KY "@, spec_lookup_refs(ky, a.axis)),
            )
        } else {
            rest
        }
    }
}

fn lookup_refs<'a>(list: &'a Vec<AxisRefs>, axis: &str) -> (r: Option<&'a Vec<String>>)
    ensures
        match r {
            Some(refs) => spec_lookup_refs(list@, axis@) == refs.deep_view(),
            None => spec_lookup_refs(list@, axis@) == Seq::<Seq<char>>::empty(),
        },
{
    let mut i: usize = 0;
    proof {
        assert(list@.skip(0) =~= list@);
    }
    while i < list.len()
        invariant
            i <= list@.len(),
            spec_lookup_refs(list@, axis@) == spec_lookup_refs(list@.skip(i as int), axis@),
        decreases list@.len() - i,
    {
        proof {
            assert(list@.skip(i as int)[0] == list@[i as int]);
            assert(list@.skip(i as int).drop_first() =~= list@.skip(i + 1));
        }
        if crate::text::str_eq(list[i].axis.as_str(), axis) {
            return Some(&list[i].refs);
        }
        i = i + 1;
    }
    None
}

/// Gather the citations owed by every axis with a non-zero value, as a
/// strictly sorted, duplicate-free list.
#[verifier::loop_isolation(false)]
fn build_constitution_refs(axes: &Vec<AxisScore>, rubric: &Rubric) -> (r: Vec<String>)
    ensures
        refs_sorted(r.deep_view()),
        forall|s: Seq<char>|
            #[trigger] r.deep_view().contains(s) <==> spec_refs_set(
                axes_view(axes@),
                rubric.us_constitution@,
                rubric.ky_constitution@,
            ).contains(s),
{
    let ghost us = rubric.us_constitution@;
    let ghost ky = rubric.ky_constitution@;
    let ghost av = axes_view(axes@);
    let mut out: Vec<String> = Vec::new();
    let mut k: usize = 0;
    while k < axes.len()
        invariant
            k <= av.len(),
            refs_sorted(out.deep_view()),
            forall|s: Seq<char>|
                #[trigger] out.deep_view().contains(s) <==> spec_refs_set(
                    av.take(k as int),
                    us,
                    ky,
                ).contains(s),
        decreases av.len() - k,
    {
        let ghost base = spec_refs_set(av.take(k as int), us, ky);
        proof {
            assert(av[k as int] == axes@[k as int].model());
        }
        if axes[k].value != 0 {
            let axis = &axes[k].axis;
            let ghost usrefs = spec_lookup_refs(us, axis@);
            let ghost kyrefs = spec_lookup_refs(ky, axis@);
            match lookup_refs(&rubric.us_constitution, axis.as_str()) {
                Some(refs) => {
                    let mut j: usize = 0;
                    while j < refs.len()
                        invariant
                            j <= refs@.len(),
                            usrefs == refs.deep_view(),
                            refs_sorted(out.deep_view()),
                            forall|s: Seq<char>|
                                #[trigger] out.deep_view().contains(s) <==> (base.contains(s)
                                    || exists|t: int|
                                    0 <= t < j && s == "US "@ + #[trigger] usrefs[t]),
                        decreases refs@.len() - j,
                    {
                        let entry = prefixed("US ", refs[j].as_str());
                        proof {
                            assert(usrefs[j as int] == refs@[j as int]@);
                        }
                        out = insert_sorted_unique(out, entry.as_str());
                        j = j + 1;
                    }
                },
                None => {
                    proof {
                        assert forall|s: Seq<char>| !spec_prefixed_refs("US "@, usrefs).contains(
                            s,
                        ) by {}
                    }
                },
            }
            proof {
                assert forall|s: Seq<char>| #[trigger] out.deep_view().contains(s) <==> base.union(
                    spec_prefixed_refs("US "@, usrefs),
                ).contains(s) by {}
            }
            let ghost mid = base.union(spec_prefixed_refs("US "@, usrefs));
            match lookup_refs(&rubric.ky_constitution, axis.as_str()) {
                Some(refs) => {
                    let mut j: usize = 0;
                    while j < refs.len()
                        invariant
                            j <= refs@.len(),
                            kyrefs == refs.deep_view(),
                            refs_sorted(out.deep_view()),
                            forall|s: Seq<char>|
                                #[trigger] out.deep_view().contains(s) <==> (mid.contains(s)
                                    || exists|t: int|
                                    0 <= t < j && s == "KY "@ + #[trigger] kyrefs[t]),
                        decreases refs@.len() - j,
                    {
                        let entry = prefixed("KY ", refs[j].as_str());
                        proof {
                            assert(kyrefs[j as int] == refs@[j as int]@);
                        }
                        out = insert_sorted_unique(out, entry.as_str());
                        j = j + 1;
                    }
                },
                None => {},
            }
            proof {
                let next = av.take(k + 1);
                assert(next.drop_last() =~= av.take(k as int));
                assert(next.last() == av[k as int]);
                assert forall|s: Seq<char>| #[trigger] out.deep_view().contains(s) <==> spec_refs_set(
                    next,
                    us,
                    ky,
                ).contains(s) by {}
            }
        } else {
            proof {
                let next = av.take(k + 1);
                assert(next.drop_last() =~= av.take(k as int));
                assert(next.last() == av[k as int]);
            }
        }
        k = k + 1;
    }
    proof {
        assert(av.take(av.len() as int) =~= av);
    }
    out
}

/// Two strictly sorted lists holding the same strings are the same list.
pub proof fn lemma_sorted_unique(a: Seq<Seq<char>>, b: Seq<Seq<char>>)
    requires
        refs_sorted(a),
        refs_sorted(b),
        forall|s: Seq<char>| a.contains(s) <==> b.contains(s),
    ensures
        a == b,
    decreases a.len(),
{
    if a.len() == 0 {
        if b.len() > 0 {
            assert(b.contains(b[0]));
            assert(a.contains(b[0]));
        }
        assert(a =~= b);
    } else {
        assert(a.contains(a[0]));
        assert(b.contains(a[0]));
        assert(b.len() > 0);
        if a[0] != b[0] {
            let i = choose|i: int| 0 <= i < b.len() && b[i] == a[0];
            let l = choose|l: int| 0 <= l < a.len() && a[l] == b[0];
            assert(b.contains(b[0]));
            assert(a.contains(b[0]));
            if i > 0 {
                assert(lex_lt(b[0], b[i]));
            }
            if l > 0 {
                assert(lex_lt(a[0], a[l]));
            }
            if i == 0 {
                assert(b[0] == a[0]);
            } else if l == 0 {
                assert(a[0] == b[0]);
            } else {
                lemma_lex_antisym(a[0], b[0]);
            }
        }
        let at = a.drop_first();
        let bt = b.drop_first();
        assert forall|s: Seq<char>| at.contains(s) <==> bt.contains(s) by {
            if at.contains(s) {
                let m = choose|m: int| 0 <= m < at.len() && at[m] == s;
                assert(a[m + 1] == s);
                assert(lex_lt(a[0], s));
                assert(b.contains(s));
                let n = choose|n: int| 0 <= n < b.len() && b[n] == s;
                assert(n != 0);
                assert(bt[n - 1] == s);
            }
            if bt.contains(s) {
                let m = choose|m: int| 0 <= m < bt.len() && bt[m] == s;
                assert(b[m + 1] == s);
                assert(lex_lt(b[0], s));
                assert(a.contains(s));
                let n = choose|n: int| 0 <= n < a.len() && a[n] == s;
                assert(n != 0);
                assert(at[n - 1] == s);
            }
        }
        assert forall|s1: int, t1: int| 0 <= s1 < t1 < at.len() implies lex_lt(at[s1], at[t1]) by {
            assert(a[s1 + 1] == at[s1]);
            assert(a[t1 + 1] == at[t1]);
        }
        assert forall|s1: int, t1: int| 0 <= s1 < t1 < bt.len() implies lex_lt(bt[s1], bt[t1]) by {
            assert(b[s1 + 1] == bt[s1]);
            assert(b[t1 + 1] == bt[t1]);
        }
        lemma_sorted_unique(at, bt);
        assert forall|i: int| 0 <= i < a.len() implies a[i] == b[i] by {
            if i > 0 {
                assert(at[i - 1] == bt[i - 1]);
            }
        }
        assert(a =~= b);
    }
}


/// The loudest value a motion or vote scorer accepts in an incoming
/// axis list, leaving room for one penalty and one rounding step.
pub const INPUT_VALUE_LIMIT: i64 = VALUE_LIMIT - PARAM_LIMIT - SCALE;

/// One official's recorded choice on a motion.
#[derive(Clone, Copy, Debug, PartialEq, Eq, Structural)]
pub enum VoteChoice {
    Aye,
    Nay,
    Abstain,
    Absent,
}

/// The lowercase name of a vote choice.
pub open spec fn spec_choice_label(c: VoteChoice) -> Seq<char> {
    match c {
        VoteChoice::Aye => "aye"@,
        VoteChoice::Nay => "nay"@,
        VoteChoice::Abstain => "abstain"@,
        VoteChoice::Absent => "absent"@,
    }
}

impl VoteChoice {
    /// The lowercase name of the choice.
    pub fn label(&self) -> (r: &'static str)
        ensures
            r@ == spec_choice_label(*self),
    {
        match self {
            VoteChoice::Aye => "aye",
            VoteChoice::Nay => "nay",
            VoteChoice::Abstain => "abstain",
            VoteChoice::Absent => "absent",
        }
    }
}

/// The mathematical shadow of a score result, but for the citation
/// list, which is pinned separately as the sorted image of a set.
#[verifier::ext_equal]
pub struct ScoreModel {
    pub overall: int,
    pub axes: Seq<AxisModel>,
    pub evidence: Seq<Seq<char>>,
    pub confidence: int,
    pub flags: Seq<Seq<char>>,
}

impl ScoreResult {
    /// The result's mathematical shadow.
    pub open spec fn model(self) -> ScoreModel {
        ScoreModel {
            overall: self.overall_score as int,
            axes: axes_view(self.axis_scores@),
            evidence: self.evidence.deep_view(),
            confidence: self.confidence as int,
            flags: self.flags.deep_view(),
        }
    }

    /// The citation list is strictly sorted and holds exactly the
    /// citations owed by the given axis values under the rubric.
    pub open spec fn refs_complete(self, rubric: Rubric) -> bool {
        &&& refs_sorted(self.constitutional_refs.deep_view())
        &&& forall|s: Seq<char>|
            #[trigger] self.constitutional_refs.deep_view().contains(s) <==> spec_refs_set(
                axes_view(self.axis_scores@),
                rubric.us_constitution@,
                rubric.ky_constitution@,
            ).contains(s)
    }
}

/// What the motion scorer computes, as one mathematical function of the
/// motion text, the linked evidence, and the rubric.
pub open spec fn spec_motion_score(
    text: Seq<char>,
    arts: Seq<LinkedArtifact>,
    rubric: Rubric,
) -> ScoreModel {
    let all = spec_all_tags(arts);
    let issue = spec_issue_tags(all);
    let spending = crate::tags::spec_has_spending_language(text);
    let pen = rubric.bias_controls.spending_bias_penalty as int;
    let axes = spec_axis_scores(issue, spending, pen);
    let zero = spec_all_zero(axes);
    let d = rubric.config.output.rounding;
    let base_micro = if zero {
        rubric.config.general.neutral_score as int * 1000
    } else {
        spec_weighted_sum(axes, rubric.axis_weights@)
    };
    ScoreModel {
        overall: crate::fixed::spec_round_micro(
            spec_clamp(
                base_micro,
                rubric.config.general.score_floor as int * 1000,
                rubric.config.general.score_ceiling as int * 1000,
            ),
            d,
        ),
        axes: spec_round_axes(axes, d),
        evidence: spec_tag_evidence(all, rubric.rubric_tags.deep_view()) + spec_spending_evidence(
            issue,
            spending,
        ),
        confidence: if zero {
            0
        } else if issue.len() == 0 {
            0
        } else {
            rubric.evidence_rules.minimum_confidence as int
        },
        flags: if zero {
            seq!["insufficient_evidence"@]
        } else {
            Seq::empty()
        },
    }
}

/// What the vote scorer computes from a motion's axis scores and a
/// recorded choice, as one mathematical function.
pub open spec fn spec_vote_score(base: Seq<AxisModel>, choice: VoteChoice, rubric: Rubric)
    -> ScoreModel {
    let axes1 = match choice {
        VoteChoice::Aye => spec_apply_effect(base, rubric.scoring_rules.vote_yes_effect),
        VoteChoice::Nay => spec_apply_effect(base, rubric.scoring_rules.vote_no_effect),
        VoteChoice::Abstain => spec_add_penalty(base, rubric.scoring_rules.abstain_penalty as int),
        VoteChoice::Absent => spec_add_penalty(base, rubric.scoring_rules.absent_penalty as int),
    };
    let flags0: Seq<Seq<char>> = match choice {
        VoteChoice::Abstain => seq!["abstain"@],
        VoteChoice::Absent => seq!["absent"@],
        _ => Seq::empty(),
    };
    let d = rubric.config.output.rounding;
    let axes2 = spec_round_axes(axes1, d);
    ScoreModel {
        overall: crate::fixed::spec_round_micro(
            spec_clamp(
                spec_weighted_sum(axes1, rubric.axis_weights@),
                rubric.config.general.score_floor as int * 1000,
                rubric.config.general.score_ceiling as int * 1000,
            ),
            d,
        ),
        axes: axes2,
        evidence: seq!["vote_choice:"@ + spec_choice_label(choice)],
        confidence: 1000,
        flags: if spec_all_zero(axes2) {
            flags0.push("insufficient_evidence"@)
        } else {
            flags0
        },
    }
}

/// Rounding every axis value keeps names, distinctness and near-bounds.
pub proof fn lemma_round_axes_shape(axes: Seq<AxisModel>, decimals: u32, bound: int)
    requires
        values_bounded(axes, bound),
        axes_distinct(axes),
        bound >= 0,
    ensures
        values_bounded(spec_round_axes(axes, decimals), bound + 1000),
        axes_distinct(spec_round_axes(axes, decimals)),
        spec_round_axes(axes, decimals).len() == axes.len(),
{
    let q = crate::fixed::spec_quantum(decimals);
    assert forall|i: int| 0 <= i < axes.len() implies -(bound + 1000) <= (
    #[trigger] spec_round_axes(axes, decimals)[i]).value <= bound + 1000 by {
        crate::fixed::lemma_round_near(axes[i].value, q);
    }
}


/// Score one motion from its text and its linked evidence.
///
/// The result is a total function of the inputs: its numeric fields,
/// evidence trail and flags equal `spec_motion_score`, and its citation
/// list is the sorted image of the citations its non-zero axes owe.
/// Absence of evidence is a flagged outcome, not an error.
pub fn compute_motion_score(
    motion_text: &str,
    linked_artifacts: &Vec<LinkedArtifact>,
    rubric: &Rubric,
) -> (r: ScoreResult)
    requires
        rubric.wf(),
    ensures
        r.model() == spec_motion_score(motion_text@, linked_artifacts@, *rubric),
        r.refs_complete(*rubric),
        r.wf(),
        values_bounded(axes_view(r.axis_scores@), INPUT_VALUE_LIMIT as int),
{
    let ghost all = spec_all_tags(linked_artifacts@);
    let ghost spending = crate::tags::spec_has_spending_language(motion_text@);
    let ghost pen = rubric.bias_controls.spending_bias_penalty as int;
    let collected = collect_issue_tags(linked_artifacts, rubric);
    let issue_tags = collected.0;
    let mut evidence = collected.1;
    let mut axis_scores: Vec<AxisScore> = Vec::new();
    let mut flags: Vec<String> = Vec::new();
    let confidence0: i64 = if issue_tags.len() == 0 {
        0
    } else {
        rubric.evidence_rules.minimum_confidence
    };
    proof {
        lemma_issue_tags_len(all);
        assert(issue_tags.deep_view().len() == issue_tags@.len());
    }
    apply_tag_axis_scores(&issue_tags, motion_text, rubric, &mut axis_scores, &mut evidence);
    let ghost axes0 = spec_axis_scores(spec_issue_tags(all), spending, pen);
    proof {
        lemma_axis_scores_shape(spec_issue_tags(all), spending, pen);
        assert(spec_issue_tags(all).len() * PARAM_LIMIT <= 24 * PARAM_LIMIT) by (nonlinear_arith)
            requires
                spec_issue_tags(all).len() <= 24,
        ;
        assert(values_bounded(axes0, VALUE_LIMIT as int));
    }
    let overall_micro: i128 = weighted_overall(&axis_scores, &rubric.axis_weights);
    let zero = all_values_zero(&axis_scores);
    let mut confidence = confidence0;
    let base_micro: i128 = if zero {
        flags.push("insufficient_evidence".to_owned());
        confidence = 0;
        (rubric.config.general.neutral_score as i128) * 1000
    } else {
        overall_micro
    };
    let floor_m: i128 = (rubric.config.general.score_floor as i128) * 1000;
    let ceil_m: i128 = (rubric.config.general.score_ceiling as i128) * 1000;
    let raised: i128 = if base_micro < floor_m {
        floor_m
    } else {
        base_micro
    };
    let clamped: i128 = if raised > ceil_m {
        ceil_m
    } else {
        raised
    };
    proof {
        assert(clamped as int == spec_clamp(base_micro as int, floor_m as int, ceil_m as int));
        assert(-2_000_000_000_000_000 <= clamped <= 2_000_000_000_000_000);
    }
    let overall_score = crate::fixed::round_micro(clamped, rubric.config.output.rounding);
    let rounded_axes = round_axes(&axis_scores, rubric.config.output.rounding);
    proof {
        lemma_round_axes_shape(axes0, rubric.config.output.rounding, 24 * PARAM_LIMIT as int);
    }
    let constitutional_refs = build_constitution_refs(&rounded_axes, rubric);
    let r = ScoreResult {
        overall_score,
        axis_scores: rounded_axes,
        constitutional_refs,
        evidence,
        confidence,
        flags,
    };
    proof {
        let sm = spec_motion_score(motion_text@, linked_artifacts@, *rubric);
        if zero {
            assert(r.flags.deep_view() =~= seq!["insufficient_evidence"@]);
        } else {
            assert(r.flags.deep_view() =~= Seq::<Seq<char>>::empty());
        }
        assert(r.model() =~~= sm);
    }
    r
}

/// Score a vote that has no resolvable parent motion: a degraded but
/// valid neutral result, flagged as resting on insufficient evidence.
/// When the record still carries a recognizable type and outcome, the
/// evidence trail notes that a vote was recorded.
pub fn compute_vote_score(vote: &crate::schema::DecisionVote, rubric: &Rubric) -> (r: ScoreResult)
    ensures
        r.overall_score == rubric.config.general.neutral_score,
        r.axis_scores@.len() == 0,
        r.constitutional_refs@.len() == 0,
        r.confidence == 0,
        r.flags.deep_view() == seq!["insufficient_evidence"@],
        vote.vote_type is Some && vote.outcome is Some ==> r.evidence.deep_view()
            == seq!["vote_without_motion"@, "vote_recorded"@],
        !(vote.vote_type is Some && vote.outcome is Some) ==> r.evidence.deep_view()
            == seq!["vote_without_motion"@],
        r.wf(),
{
    let mut evidence: Vec<String> = Vec::new();
    evidence.push("vote_without_motion".to_owned());
    let mut flags: Vec<String> = Vec::new();
    flags.push("insufficient_evidence".to_owned());
    if vote.vote_type.is_some() && vote.outcome.is_some() {
        evidence.push("vote_recorded".to_owned());
        proof {
            assert(evidence.deep_view() =~= seq!["vote_without_motion"@, "vote_recorded"@]);
        }
    } else {
        proof {
            assert(evidence.deep_view() =~= seq!["vote_without_motion"@]);
        }
    }
    proof {
        assert(flags.deep_view() =~= seq!["insufficient_evidence"@]);
    }
    ScoreResult {
        overall_score: rubric.config.general.neutral_score,
        axis_scores: Vec::new(),
        constitutional_refs: Vec::new(),
        evidence,
        confidence: 0,
        flags,
    }
}

/// Score one official's recorded choice against the motion's score:
/// apply the configured vote effect or flat penalty to the motion's
/// axis values, then weigh, clamp, round and cite exactly as the
/// motion scorer does. Confidence is full: a motion and a recorded
/// choice were both present.
pub fn compute_vote_score_with_motion(
    motion_score: &ScoreResult,
    vote_choice: VoteChoice,
    rubric: &Rubric,
) -> (r: ScoreResult)
    requires
        rubric.wf(),
        motion_score.wf(),
        values_bounded(axes_view(motion_score.axis_scores@), INPUT_VALUE_LIMIT as int),
    ensures
        r.model() == spec_vote_score(axes_view(motion_score.axis_scores@), vote_choice, *rubric),
        r.refs_complete(*rubric),
        r.wf(),
{
    let ghost base = axes_view(motion_score.axis_scores@);
    let mut flags: Vec<String> = Vec::new();
    let axes1: Vec<AxisScore> = match vote_choice {
        VoteChoice::Aye => apply_vote_effect(
            &motion_score.axis_scores,
            &rubric.scoring_rules.vote_yes_effect,
        ),
        VoteChoice::Nay => apply_vote_effect(
            &motion_score.axis_scores,
            &rubric.scoring_rules.vote_no_effect,
        ),
        VoteChoice::Abstain => {
            flags.push("abstain".to_owned());
            apply_flat_penalty(&motion_score.axis_scores, rubric.scoring_rules.abstain_penalty)
        },
        VoteChoice::Absent => {
            flags.push("absent".to_owned());
            apply_flat_penalty(&motion_score.axis_scores, rubric.scoring_rules.absent_penalty)
        },
    };
    let ghost av1 = axes_view(axes1@);
    proof {
        assert(values_bounded(av1, (INPUT_VALUE_LIMIT + PARAM_LIMIT) as int));
        assert(axes_distinct(av1));
        assert(av1.len() == base.len());
    }
    let overall_micro: i128 = weighted_overall(&axes1, &rubric.axis_weights);
    let floor_m: i128 = (rubric.config.general.score_floor as i128) * 1000;
    let ceil_m: i128 = (rubric.config.general.score_ceiling as i128) * 1000;
    let raised: i128 = if overall_micro < floor_m {
        floor_m
    } else {
        overall_micro
    };
    let clamped: i128 = if raised > ceil_m {
        ceil_m
    } else {
        raised
    };
    proof {
        assert(clamped as int == spec_clamp(overall_micro as int, floor_m as int, ceil_m as int));
        assert(-2_000_000_000_000_000 <= clamped <= 2_000_000_000_000_000);
    }
    let overall_score = crate::fixed::round_micro(clamped, rubric.config.output.rounding);
    let rounded_axes = round_axes(&axes1, rubric.config.output.rounding);
    proof {
        lemma_round_axes_shape(
            av1,
            rubric.config.output.rounding,
            (INPUT_VALUE_LIMIT + PARAM_LIMIT) as int,
        );
    }
    let constitutional_refs = build_constitution_refs(&rounded_axes, rubric);
    let mut evidence: Vec<String> = Vec::new();
    evidence.push(prefixed("vote_choice:", vote_choice.label()));
    if all_values_zero(&rounded_axes) {
        flags.push("insufficient_evidence".to_owned());
    }
    let r = ScoreResult {
        overall_score,
        axis_scores: rounded_axes,
        constitutional_refs,
        evidence,
        confidence: SCALE,
        flags,
    };
    proof {
        let sm = spec_vote_score(base, vote_choice, *rubric);
        assert(r.evidence.deep_view() =~= seq!["vote_choice:"@ + spec_choice_label(vote_choice)]);
        let flags0: Seq<Seq<char>> = match vote_choice {
            VoteChoice::Abstain => seq!["abstain"@],
            VoteChoice::Absent => seq!["absent"@],
            _ => Seq::empty(),
        };
        if spec_all_zero(axes_view(r.axis_scores@)) {
            assert(r.flags.deep_view() =~= flags0.push("insufficient_evidence"@));
        } else {
            assert(r.flags.deep_view() =~= flags0);
        }
        assert(r.model() =~~= sm);
    }
    r
}

} // verus!
