//! The engine's laws: properties that hold of every scoring run, stated
//! over the same spec functions the scorers' contracts use, and proved
//! once and for all.

use vstd::prelude::*;
use crate::fixed::{
    spec_clamp, spec_micro_quantum, spec_quantum, spec_round_micro, round_to_multiple,
    lemma_round_is_multiple, lemma_round_monotone, lemma_round_stable,
};
use crate::rubric::{Rubric, VoteEffect};
use crate::scoring::{
    spec_all_tags, spec_all_zero, spec_axis_scores, spec_invert, spec_issue_tags,
    spec_motion_score, spec_round_axes, spec_vote_score, spec_add_penalty, AxisModel,
    LinkedArtifact, ScoreResult, VoteChoice, lemma_sorted_unique,
};
use crate::drift::{
    spec_baseline, spec_is_drift, spec_drift_pairs, spec_pairs_upto, spec_filter_drift,
    spec_distinct_officials, spec_append_drift_flags, DecisionScore,
};

verus! {

/// The clamped, rounded overall score stays between the floor and the
/// ceiling, when the floor does not exceed the ceiling and both are
/// representable at the output precision.
proof fn lemma_round_clamp_micro(base: int, floor: int, ceiling: int, d: u32)
    requires
        floor <= ceiling,
        floor % spec_quantum(d) == 0,
        ceiling % spec_quantum(d) == 0,
    ensures
        floor <= spec_round_micro(spec_clamp(base, floor * 1000, ceiling * 1000), d) <= ceiling,
{
    let q = spec_quantum(d);
    let qm = spec_micro_quantum(d);
    assert(qm == 1000 * q);
    let fk = floor / q;
    vstd::arithmetic::div_mod::lemma_fundamental_div_mod(floor, q);
    assert(floor == q * fk);
    assert(floor * 1000 == qm * fk) by (nonlinear_arith)
        requires
            floor == q * fk && qm == 1000 * q,
    ;
    vstd::arithmetic::div_mod::lemma_mod_multiples_basic(fk, qm);
    assert((fk * qm) % qm == 0);
    assert(qm * fk == fk * qm) by (nonlinear_arith);
    let ck = ceiling / q;
    vstd::arithmetic::div_mod::lemma_fundamental_div_mod(ceiling, q);
    assert(ceiling == q * ck);
    assert(ceiling * 1000 == qm * ck) by (nonlinear_arith)
        requires
            ceiling == q * ck && qm == 1000 * q,
    ;
    vstd::arithmetic::div_mod::lemma_mod_multiples_basic(ck, qm);
    assert(qm * ck == ck * qm) by (nonlinear_arith);
    let c = spec_clamp(base, floor * 1000, ceiling * 1000);
    assert(floor * 1000 <= c <= ceiling * 1000);
    lemma_round_stable(floor * 1000, qm);
    lemma_round_stable(ceiling * 1000, qm);
    lemma_round_monotone(floor * 1000, c, qm);
    lemma_round_monotone(c, ceiling * 1000, qm);
    let rm = round_to_multiple(c, qm);
    vstd::arithmetic::div_mod::lemma_div_is_ordered(floor * 1000, rm, 1000);
    vstd::arithmetic::div_mod::lemma_div_is_ordered(rm, ceiling * 1000, 1000);
    vstd::arithmetic::div_mod::lemma_div_multiples_vanish(floor, 1000);
    vstd::arithmetic::div_mod::lemma_div_multiples_vanish(ceiling, 1000);
}

/// Law: every motion score's overall value lies between the rubric's
/// floor and ceiling, and every axis score is rounded to exactly the
/// output precision. The floor must not exceed the ceiling and both
/// must be representable at that precision: a bound the rounding step
/// cannot represent can itself be crossed by rounding.
pub proof fn lemma_motion_score_within_bounds(
    text: Seq<char>,
    arts: Seq<LinkedArtifact>,
    rubric: Rubric,
)
    requires
        rubric.config.general.score_floor <= rubric.config.general.score_ceiling,
        rubric.config.general.score_floor as int % spec_quantum(rubric.config.output.rounding)
            == 0,
        rubric.config.general.score_ceiling as int % spec_quantum(rubric.config.output.rounding)
            == 0,
    ensures
        rubric.config.general.score_floor as int <= spec_motion_score(text, arts, rubric).overall
            <= rubric.config.general.score_ceiling as int,
        forall|i: int|
            0 <= i < spec_motion_score(text, arts, rubric).axes.len()
                ==> (#[trigger] spec_motion_score(text, arts, rubric).axes[i]).value % spec_quantum(
                rubric.config.output.rounding,
            ) == 0,
{
    let d = rubric.config.output.rounding;
    let sm = spec_motion_score(text, arts, rubric);
    let issue = spec_issue_tags(spec_all_tags(arts));
    let spending = crate::tags::spec_has_spending_language(text);
    let pen = rubric.bias_controls.spending_bias_penalty as int;
    let axes = spec_axis_scores(issue, spending, pen);
    let zero = spec_all_zero(axes);
    let base = if zero {
        rubric.config.general.neutral_score as int * 1000
    } else {
        crate::scoring::spec_weighted_sum(axes, rubric.axis_weights@)
    };
    lemma_round_clamp_micro(
        base,
        rubric.config.general.score_floor as int,
        rubric.config.general.score_ceiling as int,
        d,
    );
    assert forall|i: int| 0 <= i < sm.axes.len() implies (#[trigger] sm.axes[i]).value
        % spec_quantum(d) == 0 by {
        assert(sm.axes[i].value == round_to_multiple(axes[i].value, spec_quantum(d)));
        lemma_round_is_multiple(axes[i].value, spec_quantum(d));
    }
}

/// Law: every vote score's overall value lies between the rubric's
/// floor and ceiling, and every axis score is rounded to exactly the
/// output precision, under the same representability condition.
pub proof fn lemma_vote_score_within_bounds(
    base: Seq<AxisModel>,
    choice: VoteChoice,
    rubric: Rubric,
)
    requires
        rubric.config.general.score_floor <= rubric.config.general.score_ceiling,
        rubric.config.general.score_floor as int % spec_quantum(rubric.config.output.rounding)
            == 0,
        rubric.config.general.score_ceiling as int % spec_quantum(rubric.config.output.rounding)
            == 0,
    ensures
        rubric.config.general.score_floor as int <= spec_vote_score(base, choice, rubric).overall
            <= rubric.config.general.score_ceiling as int,
        forall|i: int|
            0 <= i < spec_vote_score(base, choice, rubric).axes.len()
                ==> (#[trigger] spec_vote_score(base, choice, rubric).axes[i]).value
                % spec_quantum(rubric.config.output.rounding) == 0,
{
    let d = rubric.config.output.rounding;
    let sm = spec_vote_score(base, choice, rubric);
    let axes1 = match choice {
        VoteChoice::Aye => crate::scoring::spec_apply_effect(
            base,
            rubric.scoring_rules.vote_yes_effect,
        ),
        VoteChoice::Nay => crate::scoring::spec_apply_effect(
            base,
            rubric.scoring_rules.vote_no_effect,
        ),
        VoteChoice::Abstain => spec_add_penalty(base, rubric.scoring_rules.abstain_penalty as int),
        VoteChoice::Absent => spec_add_penalty(base, rubric.scoring_rules.absent_penalty as int),
    };
    lemma_round_clamp_micro(
        crate::scoring::spec_weighted_sum(axes1, rubric.axis_weights@),
        rubric.config.general.score_floor as int,
        rubric.config.general.score_ceiling as int,
        d,
    );
    assert forall|i: int| 0 <= i < sm.axes.len() implies (#[trigger] sm.axes[i]).value
        % spec_quantum(d) == 0 by {
        assert(sm.axes[i].value == round_to_multiple(axes1[i].value, spec_quantum(d)));
        lemma_round_is_multiple(axes1[i].value, spec_quantum(d));
    }
}

/// Law: a motion with no recognized evidence tags scores exactly the
/// neutral value, with zero confidence and the insufficient-evidence
/// flag, whenever the neutral value lies inside the clamp interval and
/// is representable at the output precision.
pub proof fn lemma_no_evidence_scores_neutral(
    text: Seq<char>,
    arts: Seq<LinkedArtifact>,
    rubric: Rubric,
)
    requires
        spec_issue_tags(spec_all_tags(arts)).len() == 0,
        rubric.config.general.score_floor <= rubric.config.general.neutral_score
            <= rubric.config.general.score_ceiling,
        rubric.config.general.neutral_score as int % spec_quantum(rubric.config.output.rounding)
            == 0,
    ensures
        spec_motion_score(text, arts, rubric).overall == rubric.config.general.neutral_score as int,
        spec_motion_score(text, arts, rubric).confidence == 0,
        spec_motion_score(text, arts, rubric).flags == seq!["insufficient_evidence"@],
{
    let d = rubric.config.output.rounding;
    let neutral = rubric.config.general.neutral_score as int;
    let issue = spec_issue_tags(spec_all_tags(arts));
    let spending = crate::tags::spec_has_spending_language(text);
    let pen = rubric.bias_controls.spending_bias_penalty as int;
    let axes = spec_axis_scores(issue, spending, pen);
    assert(axes =~= Seq::<AxisModel>::empty());
    assert(spec_all_zero(axes));
    let c = spec_clamp(
        neutral * 1000,
        rubric.config.general.score_floor as int * 1000,
        rubric.config.general.score_ceiling as int * 1000,
    );
    assert(c == neutral * 1000);
    let q = spec_quantum(d);
    let qm = spec_micro_quantum(d);
    assert(qm == 1000 * q);
    let nk = neutral / q;
    vstd::arithmetic::div_mod::lemma_fundamental_div_mod(neutral, q);
    assert(neutral * 1000 == qm * nk) by (nonlinear_arith)
        requires
            neutral == q * nk && qm == 1000 * q,
    ;
    vstd::arithmetic::div_mod::lemma_mod_multiples_basic(nk, qm);
    assert(qm * nk == nk * qm) by (nonlinear_arith);
    lemma_round_stable(neutral * 1000, qm);
    vstd::arithmetic::div_mod::lemma_div_multiples_vanish(neutral, 1000);
}

/// Law: an aye under the `inherit` policy leaves the motion's axis
/// scores exactly as they were, provided they are representable at the
/// output precision (as every motion scorer output is).
pub proof fn lemma_aye_inherit_keeps_axes(base: Seq<AxisModel>, rubric: Rubric)
    requires
        rubric.scoring_rules.vote_yes_effect == VoteEffect::Inherit,
        forall|i: int|
            0 <= i < base.len() ==> (#[trigger] base[i]).value % spec_quantum(
                rubric.config.output.rounding,
            ) == 0,
    ensures
        spec_vote_score(base, VoteChoice::Aye, rubric).axes == base,
{
    let d = rubric.config.output.rounding;
    assert forall|i: int| 0 <= i < base.len() implies spec_round_axes(base, d)[i] =~= base[i] by {
        lemma_round_stable(base[i].value, spec_quantum(d));
    }
    assert(spec_round_axes(base, d) =~~= base);
}

/// Law: a nay under the `invert` policy negates every axis score,
/// provided the scores are representable at the output precision.
pub proof fn lemma_nay_invert_negates_axes(base: Seq<AxisModel>, rubric: Rubric)
    requires
        rubric.scoring_rules.vote_no_effect == VoteEffect::Invert,
        forall|i: int|
            0 <= i < base.len() ==> (#[trigger] base[i]).value % spec_quantum(
                rubric.config.output.rounding,
            ) == 0,
    ensures
        spec_vote_score(base, VoteChoice::Nay, rubric).axes == spec_invert(base),
        forall|i: int|
            0 <= i < base.len() ==> (#[trigger] spec_vote_score(base, VoteChoice::Nay, rubric).axes[i]).value
                == -base[i].value,
{
    let d = rubric.config.output.rounding;
    let q = spec_quantum(d);
    let inv = spec_invert(base);
    assert forall|i: int| 0 <= i < inv.len() implies spec_round_axes(inv, d)[i] =~= inv[i] by {
        let v = base[i].value;
        let k = v / q;
        vstd::arithmetic::div_mod::lemma_fundamental_div_mod(v, q);
        assert(-v == (-k) * q) by (nonlinear_arith)
            requires
                v == q * k,
        ;
        vstd::arithmetic::div_mod::lemma_mod_multiples_basic(-k, q);
        lemma_round_stable(-v, q);
        assert(inv[i].value == -v);
    }
    assert(spec_round_axes(inv, d) =~~= inv);
}

/// Law: the abstain and absent penalties are no-ops on an empty axis
/// map and exactly additive otherwise: every axis keeps its name and
/// gains exactly the penalty, provided the values and the penalty are
/// representable at the output precision.
pub proof fn lemma_flat_penalty_additive(base: Seq<AxisModel>, choice: VoteChoice, rubric: Rubric)
    requires
        choice == VoteChoice::Abstain || choice == VoteChoice::Absent,
        forall|i: int|
            0 <= i < base.len() ==> (#[trigger] base[i]).value % spec_quantum(
                rubric.config.output.rounding,
            ) == 0,
        (if choice == VoteChoice::Abstain {
            rubric.scoring_rules.abstain_penalty
        } else {
            rubric.scoring_rules.absent_penalty
        }) as int % spec_quantum(rubric.config.output.rounding) == 0,
    ensures
        base.len() == 0 ==> spec_vote_score(base, choice, rubric).axes == Seq::<AxisModel>::empty(),
        spec_vote_score(base, choice, rubric).axes.len() == base.len(),
        forall|i: int|
            0 <= i < base.len() ==> (#[trigger] spec_vote_score(base, choice, rubric).axes[i]).axis
                == base[i].axis && spec_vote_score(base, choice, rubric).axes[i].value
                == base[i].value + (if choice == VoteChoice::Abstain {
                rubric.scoring_rules.abstain_penalty
            } else {
                rubric.scoring_rules.absent_penalty
            }) as int,
{
    let d = rubric.config.output.rounding;
    let q = spec_quantum(d);
    let pen = (if choice == VoteChoice::Abstain {
        rubric.scoring_rules.abstain_penalty
    } else {
        rubric.scoring_rules.absent_penalty
    }) as int;
    let shifted = spec_add_penalty(base, pen);
    assert forall|i: int| 0 <= i < shifted.len() implies spec_round_axes(shifted, d)[i] =~= shifted[i]
        by {
        vstd::arithmetic::div_mod::lemma_add_mod_noop(base[i].value, pen, q);
        assert((base[i].value + pen) % q == 0);
        lemma_round_stable(base[i].value + pen, q);
        assert(shifted[i].value == base[i].value + pen);
    }
    assert(spec_round_axes(shifted, d) =~~= shifted);
    if base.len() == 0 {
        assert(spec_vote_score(base, choice, rubric).axes =~~= Seq::<AxisModel>::empty());
    }
}

/// Every pair the drift detector reports really drifts.
proof fn lemma_filter_drift_sound(
    axes: Seq<Seq<char>>,
    current: Seq<DecisionScore>,
    prior: Seq<DecisionScore>,
    rubric: Rubric,
    o: Seq<char>,
)
    ensures
        forall|i: int|
            0 <= i < spec_filter_drift(axes, current, prior, rubric, o).len() ==> spec_is_drift(
                current,
                prior,
                rubric,
                o,
                #[trigger] spec_filter_drift(axes, current, prior, rubric, o)[i],
            ),
    decreases axes.len(),
{
    if axes.len() > 0 {
        lemma_filter_drift_sound(axes.drop_last(), current, prior, rubric, o);
        let rest = spec_filter_drift(axes.drop_last(), current, prior, rubric, o);
        let whole = spec_filter_drift(axes, current, prior, rubric, o);
        assert forall|i: int| 0 <= i < whole.len() implies spec_is_drift(
            current,
            prior,
            rubric,
            o,
            #[trigger] whole[i],
        ) by {
            if i < rest.len() {
                assert(whole[i] == rest[i]);
            } else {
                assert(whole[i] == axes.last());
            }
        }
    }
}

/// Every (official, axis) drift event satisfies the drift predicate.
pub proof fn lemma_pairs_sound(
    officials: Seq<Seq<char>>,
    current: Seq<DecisionScore>,
    prior: Seq<DecisionScore>,
    rubric: Rubric,
)
    ensures
        forall|i: int|
            0 <= i < spec_pairs_upto(officials, current, prior, rubric).len() ==> spec_is_drift(
                current,
                prior,
                rubric,
                (#[trigger] spec_pairs_upto(officials, current, prior, rubric)[i]).0,
                spec_pairs_upto(officials, current, prior, rubric)[i].1,
            ),
    decreases officials.len(),
{
    if officials.len() > 0 {
        lemma_pairs_sound(officials.drop_last(), current, prior, rubric);
        let o = officials.last();
        lemma_filter_drift_sound(
            crate::drift::spec_official_axes(current, o),
            current,
            prior,
            rubric,
            o,
        );
        let prev = spec_pairs_upto(officials.drop_last(), current, prior, rubric);
        let daxes = crate::drift::spec_drift_axes(current, prior, rubric, o);
        let whole = spec_pairs_upto(officials, current, prior, rubric);
        assert forall|i: int| 0 <= i < whole.len() implies spec_is_drift(
            current,
            prior,
            rubric,
            (#[trigger] whole[i]).0,
            whole[i].1,
        ) by {
            if i < prev.len() {
                assert(whole[i] == prev[i]);
            } else {
                assert(whole[i] == (o, daxes[i - prev.len()]));
            }
        }
    }
}

/// Law: drift is never evaluated for an (official, axis) pair with
/// fewer than `driftWindow` prior observations: however far the
/// current average strays, no drift event exists for the pair.
pub proof fn lemma_short_baseline_never_drifts(
    current: Seq<DecisionScore>,
    prior: Seq<DecisionScore>,
    rubric: Rubric,
    o: Seq<char>,
    a: Seq<char>,
)
    requires
        spec_baseline(prior, o, a, rubric.bias_controls.drift_window as int).len()
            < rubric.bias_controls.drift_window,
    ensures
        !spec_is_drift(current, prior, rubric, o, a),
        forall|i: int|
            0 <= i < spec_drift_pairs(current, prior, rubric).len()
                ==> #[trigger] spec_drift_pairs(current, prior, rubric)[i] != (o, a),
{
    lemma_pairs_sound(spec_distinct_officials(current), current, prior, rubric);
}

/// A flag list keeps everything it already holds through an append.
proof fn lemma_append_flags_monotone(flags: Seq<Seq<char>>, axes: Seq<Seq<char>>, x: Seq<char>)
    requires
        flags.contains(x),
    ensures
        spec_append_drift_flags(flags, axes).contains(x),
    decreases axes.len(),
{
    if axes.len() > 0 {
        lemma_append_flags_monotone(flags, axes.drop_last(), x);
        let f0 = spec_append_drift_flags(flags, axes.drop_last());
        let idx = choose|idx: int| 0 <= idx < f0.len() && f0[idx] == x;
        if !f0.contains("drift_detected:"@ + axes.last()) {
            assert(f0.push("drift_detected:"@ + axes.last())[idx] == x);
        }
    }
}

/// After the append, every axis's drift flag is present.
proof fn lemma_append_flags_complete(flags: Seq<Seq<char>>, axes: Seq<Seq<char>>)
    ensures
        forall|k: int|
            0 <= k < axes.len() ==> spec_append_drift_flags(flags, axes).contains(
                "drift_detected:"@ + #[trigger] axes[k],
            ),
    decreases axes.len(),
{
    if axes.len() > 0 {
        lemma_append_flags_complete(flags, axes.drop_last());
        let f0 = spec_append_drift_flags(flags, axes.drop_last());
        let fl = "drift_detected:"@ + axes.last();
        assert forall|k: int| 0 <= k < axes.len() implies spec_append_drift_flags(
            flags,
            axes,
        ).contains("drift_detected:"@ + #[trigger] axes[k]) by {
            if k < axes.len() - 1 {
                assert(axes.drop_last()[k] == axes[k]);
                assert(f0.contains("drift_detected:"@ + axes[k]));
                if !f0.contains(fl) {
                    let idx = choose|idx: int|
                        0 <= idx < f0.len() && f0[idx] == "drift_detected:"@ + axes[k];
                    assert(f0.push(fl)[idx] == "drift_detected:"@ + axes[k]);
                }
            } else {
                if f0.contains(fl) {
                } else {
                    assert(f0.push(fl)[f0.len() as int] == fl);
                }
            }
        }
    }
}

/// Appending flags that are all already present changes nothing.
proof fn lemma_append_flags_noop(flags: Seq<Seq<char>>, axes: Seq<Seq<char>>)
    requires
        forall|k: int|
            0 <= k < axes.len() ==> flags.contains("drift_detected:"@ + #[trigger] axes[k]),
    ensures
        spec_append_drift_flags(flags, axes) == flags,
    decreases axes.len(),
{
    if axes.len() > 0 {
        assert(forall|k: int|
            0 <= k < axes.len() - 1 ==> flags.contains(
                "drift_detected:"@ + #[trigger] axes.drop_last()[k],
            )) by {
            assert(forall|k: int|
                0 <= k < axes.len() - 1 ==> #[trigger] axes.drop_last()[k] == axes[k]);
        }
        lemma_append_flags_noop(flags, axes.drop_last());
    }
}

/// Law: re-running drift flagging for the same window changes nothing:
/// each `drift_detected:` flag is appended at most once, so a second
/// pass over the same drift axes is the identity.
pub proof fn lemma_drift_flagging_idempotent(flags: Seq<Seq<char>>, axes: Seq<Seq<char>>)
    ensures
        spec_append_drift_flags(spec_append_drift_flags(flags, axes), axes)
            == spec_append_drift_flags(flags, axes),
{
    let once = spec_append_drift_flags(flags, axes);
    lemma_append_flags_complete(flags, axes);
    lemma_append_flags_noop(once, axes);
}

/// Law: scoring is reproducible. Any two results of scoring the same
/// motion input under the same rubric are identical, field for field,
/// citation list included: nothing in a score depends on iteration
/// order or any other accident of the run.
pub proof fn lemma_motion_scoring_deterministic(
    r1: ScoreResult,
    r2: ScoreResult,
    text: Seq<char>,
    arts: Seq<LinkedArtifact>,
    rubric: Rubric,
)
    requires
        r1.model() == spec_motion_score(text, arts, rubric),
        r1.refs_complete(rubric),
        r2.model() == spec_motion_score(text, arts, rubric),
        r2.refs_complete(rubric),
    ensures
        r1.model() == r2.model(),
        r1.constitutional_refs.deep_view() == r2.constitutional_refs.deep_view(),
{
    assert(crate::scoring::axes_view(r1.axis_scores@) == crate::scoring::axes_view(
        r2.axis_scores@,
    ));
    lemma_sorted_unique(r1.constitutional_refs.deep_view(), r2.constitutional_refs.deep_view());
}

/// Law: vote scoring is reproducible in the same way.
pub proof fn lemma_vote_scoring_deterministic(
    r1: ScoreResult,
    r2: ScoreResult,
    base: Seq<AxisModel>,
    choice: VoteChoice,
    rubric: Rubric,
)
    requires
        r1.model() == spec_vote_score(base, choice, rubric),
        r1.refs_complete(rubric),
        r2.model() == spec_vote_score(base, choice, rubric),
        r2.refs_complete(rubric),
    ensures
        r1.model() == r2.model(),
        r1.constitutional_refs.deep_view() == r2.constitutional_refs.deep_view(),
{
    assert(crate::scoring::axes_view(r1.axis_scores@) == crate::scoring::axes_view(
        r2.axis_scores@,
    ));
    lemma_sorted_unique(r1.constitutional_refs.deep_view(), r2.constitutional_refs.deep_view());
}

} // verus!
