//! The motion and vote scorers on concrete rubrics and inputs. Scores
//! are milli-points: `1000 == 1.0`.

use civic_core::rubric::{
    AxisRefs, AxisWeight, BiasControls, ConfigError, EvidenceRules, Rubric, RubricConfig,
    RubricEvidence, RubricGeneral, RubricOutput, ScoringRules, VoteEffect,
};
use civic_core::scoring::{
    compute_motion_score, compute_vote_score, compute_vote_score_with_motion, LinkedArtifact,
    ScoreResult, VoteChoice,
};
use civic_core::schema::DecisionVote;

fn rubric_for_tests() -> Rubric {
    Rubric {
        config: RubricConfig {
            general: RubricGeneral {
                score_floor: -100_000,
                score_ceiling: 100_000,
                neutral_score: 0,
            },
            evidence: RubricEvidence { minimum_confidence: 400, unknown_penalty: 0 },
            output: RubricOutput { rounding: 1, include_axis_breakdown: true },
        },
        axis_weights: vec![AxisWeight { axis: "fiscal_restraint".to_string(), weight: 1000 }],
        scoring_rules: ScoringRules {
            vote_yes_effect: VoteEffect::Inherit,
            vote_no_effect: VoteEffect::Invert,
            abstain_penalty: -2000,
            absent_penalty: -1000,
            unknown_motion_penalty: 0,
        },
        evidence_rules: EvidenceRules { minimum_confidence: 400 },
        bias_controls: BiasControls {
            spending_bias_penalty: -5000,
            drift_threshold: 2000,
            drift_window: 3,
        },
        us_constitution: vec![AxisRefs {
            axis: "fiscal_restraint".to_string(),
            refs: vec!["Amendment 10".to_string()],
        }],
        ky_constitution: vec![AxisRefs {
            axis: "fiscal_restraint".to_string(),
            refs: vec!["Section 230".to_string()],
        }],
        rubric_tags: vec!["budget".to_string()],
    }
}

fn budget_artifact() -> LinkedArtifact {
    LinkedArtifact { id: "art-1".to_string(), tags: vec!["budget".to_string()] }
}

fn axis_pairs(score: &ScoreResult) -> Vec<(String, i64)> {
    score.axis_scores.iter().map(|a| (a.axis.clone(), a.value)).collect()
}

#[test]
fn budget_motion_scores_the_spending_penalty() {
    let rubric = rubric_for_tests();
    let score = compute_motion_score(
        "Approve budget appropriation for road repair",
        &vec![budget_artifact()],
        &rubric,
    );
    assert_eq!(axis_pairs(&score), vec![("fiscal_restraint".to_string(), -5000)]);
    assert_eq!(score.overall_score, -5000);
    assert_eq!(score.confidence, 400);
    assert!(score.flags.is_empty());
    assert_eq!(
        score.evidence,
        vec![
            "tag:budget".to_string(),
            "rubric_tag:budget".to_string(),
            "spending_bias:budget".to_string(),
        ]
    );
    assert_eq!(
        score.constitutional_refs,
        vec!["KY Section 230".to_string(), "US Amendment 10".to_string()]
    );
}

#[test]
fn uppercase_spending_language_is_still_recognized() {
    let rubric = rubric_for_tests();
    let score = compute_motion_score("APPROVE THE BUDGET", &vec![budget_artifact()], &rubric);
    assert_eq!(axis_pairs(&score), vec![("fiscal_restraint".to_string(), -5000)]);
}

#[test]
fn no_evidence_scores_neutral_with_flag() {
    let rubric = rubric_for_tests();
    let score = compute_motion_score("Adjourn the meeting", &vec![], &rubric);
    assert_eq!(score.overall_score, 0);
    assert_eq!(score.confidence, 0);
    assert_eq!(score.flags, vec!["insufficient_evidence".to_string()]);
    assert!(score.axis_scores.is_empty());
    assert!(score.constitutional_refs.is_empty());
}

#[test]
fn unrecognized_tags_are_ignored() {
    let rubric = rubric_for_tests();
    let artifact = LinkedArtifact {
        id: "art-2".to_string(),
        tags: vec!["weather".to_string(), "barbecue".to_string()],
    };
    let score = compute_motion_score("Approve the budget", &vec![artifact], &rubric);
    assert!(score.axis_scores.is_empty());
    assert_eq!(score.flags, vec!["insufficient_evidence".to_string()]);
    assert_eq!(score.confidence, 0);
}

#[test]
fn overall_score_is_clamped_to_the_ceiling_and_floor() {
    let mut rubric = rubric_for_tests();
    rubric.config.general.score_floor = -3000;
    rubric.config.general.score_ceiling = 3000;
    let score = compute_motion_score(
        "Approve budget appropriation",
        &vec![budget_artifact()],
        &rubric,
    );
    assert_eq!(score.overall_score, -3000);
    // The axis score itself is not clamped, only the overall value.
    assert_eq!(axis_pairs(&score), vec![("fiscal_restraint".to_string(), -5000)]);
}

#[test]
fn weighted_overall_uses_the_axis_weight() {
    let mut rubric = rubric_for_tests();
    rubric.axis_weights = vec![AxisWeight { axis: "fiscal_restraint".to_string(), weight: 2000 }];
    let score = compute_motion_score("Approve the budget", &vec![budget_artifact()], &rubric);
    // An axis value of -5.0 under a weight of 2.0 yields -10.0 overall.
    assert_eq!(score.overall_score, -10_000);
}

#[test]
fn rounding_keeps_one_decimal_place() {
    let mut rubric = rubric_for_tests();
    // A weight of 0.33 turns -5.0 into -1.65: exactly half at one
    // decimal place, rounded away from zero to -1.7.
    rubric.axis_weights = vec![AxisWeight { axis: "fiscal_restraint".to_string(), weight: 330 }];
    let score = compute_motion_score("Approve the budget", &vec![budget_artifact()], &rubric);
    assert_eq!(score.overall_score, -1700);
}

#[test]
fn aye_with_inherit_keeps_the_axis_scores() {
    let rubric = rubric_for_tests();
    let motion = compute_motion_score("Approve the budget", &vec![budget_artifact()], &rubric);
    let vote = compute_vote_score_with_motion(&motion, VoteChoice::Aye, &rubric);
    assert_eq!(axis_pairs(&vote), axis_pairs(&motion));
    assert_eq!(vote.confidence, 1000);
    assert_eq!(vote.evidence, vec!["vote_choice:aye".to_string()]);
    assert!(vote.flags.is_empty());
}

#[test]
fn nay_with_invert_negates_every_axis_score() {
    let rubric = rubric_for_tests();
    let motion = compute_motion_score("Approve the budget", &vec![budget_artifact()], &rubric);
    let vote = compute_vote_score_with_motion(&motion, VoteChoice::Nay, &rubric);
    assert_eq!(axis_pairs(&vote), vec![("fiscal_restraint".to_string(), 5000)]);
    assert_eq!(vote.overall_score, 5000);
    assert_eq!(vote.evidence, vec!["vote_choice:nay".to_string()]);
}

#[test]
fn abstain_adds_the_penalty_to_every_axis() {
    let rubric = rubric_for_tests();
    let motion = compute_motion_score("Approve the budget", &vec![budget_artifact()], &rubric);
    let vote = compute_vote_score_with_motion(&motion, VoteChoice::Abstain, &rubric);
    assert_eq!(axis_pairs(&vote), vec![("fiscal_restraint".to_string(), -7000)]);
    assert_eq!(vote.flags, vec!["abstain".to_string()]);
}

#[test]
fn abstain_on_an_empty_axis_map_is_a_no_op() {
    let rubric = rubric_for_tests();
    let motion = compute_motion_score("Adjourn the meeting", &vec![], &rubric);
    let vote = compute_vote_score_with_motion(&motion, VoteChoice::Abstain, &rubric);
    assert!(vote.axis_scores.is_empty());
    // The transform produced an all-zero vector, so the vote is also
    // flagged as resting on insufficient evidence.
    assert_eq!(vote.flags, vec!["abstain".to_string(), "insufficient_evidence".to_string()]);
}

#[test]
fn absent_uses_its_own_penalty() {
    let rubric = rubric_for_tests();
    let motion = compute_motion_score("Approve the budget", &vec![budget_artifact()], &rubric);
    let vote = compute_vote_score_with_motion(&motion, VoteChoice::Absent, &rubric);
    assert_eq!(axis_pairs(&vote), vec![("fiscal_restraint".to_string(), -6000)]);
    assert_eq!(vote.flags, vec!["absent".to_string()]);
}

#[test]
fn scoring_twice_yields_identical_results() {
    let rubric = rubric_for_tests();
    let text = "Approve budget appropriation for road repair";
    let arts = vec![budget_artifact()];
    let a = compute_motion_score(text, &arts, &rubric);
    let b = compute_motion_score(text, &arts, &rubric);
    assert_eq!(a.overall_score, b.overall_score);
    assert_eq!(axis_pairs(&a), axis_pairs(&b));
    assert_eq!(a.constitutional_refs, b.constitutional_refs);
    assert_eq!(a.evidence, b.evidence);
    assert_eq!(a.confidence, b.confidence);
    assert_eq!(a.flags, b.flags);
    let va = compute_vote_score_with_motion(&a, VoteChoice::Nay, &rubric);
    let vb = compute_vote_score_with_motion(&b, VoteChoice::Nay, &rubric);
    assert_eq!(va.overall_score, vb.overall_score);
    assert_eq!(axis_pairs(&va), axis_pairs(&vb));
    assert_eq!(va.constitutional_refs, vb.constitutional_refs);
}

#[test]
fn orphan_vote_scores_neutral_and_notes_the_record() {
    let rubric = rubric_for_tests();
    let vote = DecisionVote {
        id: "v1".to_string(),
        motion_id: "m1".to_string(),
        vote_type: Some("roll_call".to_string()),
        outcome: Some("passed".to_string()),
        ayes: vec![],
        nays: vec![],
        abstain: vec![],
    };
    let score = compute_vote_score(&vote, &rubric);
    assert_eq!(score.overall_score, 0);
    assert_eq!(score.confidence, 0);
    assert_eq!(score.flags, vec!["insufficient_evidence".to_string()]);
    assert_eq!(
        score.evidence,
        vec!["vote_without_motion".to_string(), "vote_recorded".to_string()]
    );
}

#[test]
fn orphan_vote_without_outcome_omits_the_recorded_note() {
    let rubric = rubric_for_tests();
    let vote = DecisionVote {
        id: "v1".to_string(),
        motion_id: "m1".to_string(),
        vote_type: Some("roll_call".to_string()),
        outcome: None,
        ayes: vec![],
        nays: vec![],
        abstain: vec![],
    };
    let score = compute_vote_score(&vote, &rubric);
    assert_eq!(score.evidence, vec!["vote_without_motion".to_string()]);
}

#[test]
fn vote_effect_strings_parse_or_fail_loudly() {
    assert!(matches!(
        civic_core::rubric::parse_vote_effect("inherit"),
        Ok(VoteEffect::Inherit)
    ));
    assert!(matches!(civic_core::rubric::parse_vote_effect("invert"), Ok(VoteEffect::Invert)));
    match civic_core::rubric::parse_vote_effect("sideways") {
        Err(err) => {
            assert_eq!(err.message(), "Unknown vote effect: sideways".to_string());
            let ConfigError::UnknownVoteEffect { value } = err;
            assert_eq!(value, "sideways".to_string());
        },
        Ok(_) => panic!("an unknown effect string must be rejected"),
    }
}

#[test]
fn scoring_rules_fill_the_documented_defaults() {
    let rules = civic_core::rubric::parse_scoring_rules(&vec![]).unwrap();
    assert!(matches!(rules.vote_yes_effect, VoteEffect::Inherit));
    assert!(matches!(rules.vote_no_effect, VoteEffect::Invert));
    assert_eq!(rules.abstain_penalty, 0);
    assert_eq!(rules.absent_penalty, 0);
    assert_eq!(rules.unknown_motion_penalty, 0);
}

#[test]
fn scoring_rules_read_their_entries() {
    let entries = vec![
        civic_core::rubric::RuleEntry {
            name: "vote_no".to_string(),
            effect: Some("inherit".to_string()),
            penalty: None,
        },
        civic_core::rubric::RuleEntry {
            name: "abstain".to_string(),
            effect: None,
            penalty: Some(-1500),
        },
    ];
    let rules = civic_core::rubric::parse_scoring_rules(&entries).unwrap();
    assert!(matches!(rules.vote_no_effect, VoteEffect::Inherit));
    assert_eq!(rules.abstain_penalty, -1500);
}

#[test]
fn bias_controls_fill_the_documented_defaults() {
    let controls = civic_core::rubric::parse_bias_controls(&vec![]);
    assert_eq!(controls.spending_bias_penalty, 0);
    assert_eq!(controls.drift_threshold, 2000);
    assert_eq!(controls.drift_window, 20);
}

#[test]
fn rubric_bounds_check_accepts_the_test_rubric() {
    let rubric = rubric_for_tests();
    assert!(rubric.check_wf());
    let mut loud = rubric_for_tests();
    loud.axis_weights =
        vec![AxisWeight { axis: "fiscal_restraint".to_string(), weight: 2_000_000_000 }];
    assert!(!loud.check_wf());
}

#[test]
fn vote_on_all_zero_axes_is_flagged_insufficient() {
    let rubric = rubric_for_tests();
    // A recognized tag with no spending language opens the axis at zero.
    let motion = compute_motion_score("First reading", &vec![budget_artifact()], &rubric);
    assert_eq!(axis_pairs(&motion), vec![("fiscal_restraint".to_string(), 0)]);
    assert_eq!(motion.flags, vec!["insufficient_evidence".to_string()]);
    let vote = compute_vote_score_with_motion(&motion, VoteChoice::Aye, &rubric);
    assert_eq!(vote.flags, vec!["insufficient_evidence".to_string()]);
    // Zero-valued axes owe no citations.
    assert!(vote.constitutional_refs.is_empty());
}

#[test]
fn score_records_carry_the_identity_conventions() {
    let rubric = rubric_for_tests();
    let (record, motion) = civic_core::window::score_motion_record(
        "meet-1",
        "m1",
        "Approve the budget",
        &vec![budget_artifact()],
        &rubric,
        "2026-01-08T00:00:00Z",
    );
    assert_eq!(record.id, "motion:m1".to_string());
    assert_eq!(record.meeting_id, Some("meet-1".to_string()));
    assert_eq!(record.motion_id, Some("m1".to_string()));
    assert_eq!(record.vote_id, None);
    assert_eq!(record.overall_score, motion.overall_score);
    let cast = civic_core::window::score_vote_cast(
        "meet-1",
        "m1",
        "v1",
        "Jane Smith",
        VoteChoice::Nay,
        &motion,
        &rubric,
        "2026-01-08T00:00:00Z",
    );
    assert_eq!(cast.id, "vote:v1:jane_smith".to_string());
    assert_eq!(cast.vote_id, Some("v1".to_string()));
    assert_eq!(
        cast.evidence,
        vec!["vote_choice:nay".to_string(), "official:Jane Smith".to_string()]
    );
}

#[test]
fn vote_choices_expand_sorted_by_name() {
    let choices = civic_core::window::build_vote_choices(
        &vec!["Zed Quill".to_string(), "Amy Orr".to_string()],
        &vec!["Mia Hale".to_string()],
        &vec!["Bo Finch".to_string()],
    );
    let names: Vec<String> = choices.iter().map(|c| c.0.clone()).collect();
    assert_eq!(
        names,
        vec![
            "Amy Orr".to_string(),
            "Bo Finch".to_string(),
            "Mia Hale".to_string(),
            "Zed Quill".to_string(),
        ]
    );
    assert!(matches!(choices[0].1, VoteChoice::Aye));
    assert!(matches!(choices[1].1, VoteChoice::Abstain));
    assert!(matches!(choices[2].1, VoteChoice::Nay));
    assert!(matches!(choices[3].1, VoteChoice::Aye));
}

#[test]
fn spending_keywords_match_as_substrings() {
    // Keyword matching is a plain substring test on the case-folded
    // text, so a word that merely embeds a keyword still triggers it.
    let rubric = rubric_for_tests();
    let score = compute_motion_score("License the taxidermy shop", &vec![budget_artifact()], &rubric);
    assert_eq!(axis_pairs(&score), vec![("fiscal_restraint".to_string(), -5000)]);
    let quiet = compute_motion_score("Adopt the minutes", &vec![budget_artifact()], &rubric);
    assert_eq!(axis_pairs(&quiet), vec![("fiscal_restraint".to_string(), 0)]);
}

#[test]
fn meeting_motions_are_scored_in_order_with_cached_scores() {
    let rubric = rubric_for_tests();
    let motions = vec![
        civic_core::window::MotionInput {
            id: "m1".to_string(),
            text: "Approve the budget".to_string(),
        },
        civic_core::window::MotionInput {
            id: "m2".to_string(),
            text: "Adjourn the meeting".to_string(),
        },
    ];
    let (records, cached) = civic_core::window::score_meeting_motions(
        "meet-1",
        &motions,
        &vec![budget_artifact()],
        &rubric,
        "2026-01-08T00:00:00Z",
    );
    assert_eq!(records.len(), 2);
    assert_eq!(records[0].id, "motion:m1".to_string());
    assert_eq!(records[1].id, "motion:m2".to_string());
    assert_eq!(records[0].overall_score, -5000);
    assert_eq!(records[1].flags, vec!["insufficient_evidence".to_string()]);
    assert_eq!(cached[0].0, "m1".to_string());
    assert_eq!(cached[0].1.overall_score, -5000);
}

#[test]
fn vote_casts_score_every_recorded_choice() {
    let rubric = rubric_for_tests();
    let motion = compute_motion_score("Approve the budget", &vec![budget_artifact()], &rubric);
    let casts = civic_core::window::build_vote_choices(
        &vec!["Zed Quill".to_string()],
        &vec!["Amy Orr".to_string()],
        &vec![],
    );
    let records = civic_core::window::score_vote_casts(
        "meet-1",
        "m1",
        "v1",
        &casts,
        &motion,
        &rubric,
        "2026-01-08T00:00:00Z",
    );
    assert_eq!(records.len(), 2);
    assert_eq!(records[0].id, "vote:v1:amy_orr".to_string());
    assert_eq!(records[0].overall_score, 5000);
    assert_eq!(records[1].id, "vote:v1:zed_quill".to_string());
    assert_eq!(records[1].overall_score, -5000);
    assert_eq!(
        records[1].evidence,
        vec!["vote_choice:aye".to_string(), "official:Zed Quill".to_string()]
    );
}
