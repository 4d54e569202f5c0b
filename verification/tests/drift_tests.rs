//! The drift detector on concrete histories. Scores are milli-points.

use civic_core::drift::{detect_drift, DecisionScore};
use civic_core::rubric::{
    AxisWeight, BiasControls, EvidenceRules, Rubric, RubricConfig, RubricEvidence, RubricGeneral,
    RubricOutput, ScoringRules, VoteEffect,
};
use civic_core::scoring::AxisScore;

fn drift_rubric(window: usize, threshold: i64) -> Rubric {
    Rubric {
        config: RubricConfig {
            general: RubricGeneral {
                score_floor: -100_000,
                score_ceiling: 100_000,
                neutral_score: 0,
            },
            evidence: RubricEvidence { minimum_confidence: 400, unknown_penalty: 0 },
            output: RubricOutput { rounding: 1, include_axis_breakdown: true },
        },
        axis_weights: vec![],
        scoring_rules: ScoringRules {
            vote_yes_effect: VoteEffect::Inherit,
            vote_no_effect: VoteEffect::Invert,
            abstain_penalty: 0,
            absent_penalty: 0,
            unknown_motion_penalty: 0,
        },
        evidence_rules: EvidenceRules { minimum_confidence: 400 },
        bias_controls: BiasControls {
            spending_bias_penalty: 0,
            drift_threshold: threshold,
            drift_window: window,
        },
        us_constitution: vec![],
        ky_constitution: vec![],
        rubric_tags: vec![],
    }
}

fn vote_record(id: &str, official: &str, axis: &str, value: i64, at: &str) -> DecisionScore {
    DecisionScore {
        id: id.to_string(),
        meeting_id: Some("meet-1".to_string()),
        motion_id: Some("m1".to_string()),
        vote_id: Some("v1".to_string()),
        overall_score: value,
        axis_scores: vec![AxisScore { axis: axis.to_string(), value }],
        constitutional_refs: vec![],
        evidence: vec![
            "vote_choice:aye".to_string(),
            format!("official:{}", official),
        ],
        confidence: 1000,
        flags: vec![],
        computed_at: at.to_string(),
    }
}

#[test]
fn a_full_baseline_and_a_wide_deviation_raise_drift() {
    // Baseline values of 10, 10, 10 and a current-window average of
    // 13.0 deviate by 3.0, past a threshold of 2.0.
    let rubric = drift_rubric(3, 2000);
    let prior = vec![
        vote_record("p1", "Jane Smith", "fiscal_restraint", 10_000, "2026-01-01T00:00:00Z"),
        vote_record("p2", "Jane Smith", "fiscal_restraint", 10_000, "2025-12-25T00:00:00Z"),
        vote_record("p3", "Jane Smith", "fiscal_restraint", 10_000, "2025-12-18T00:00:00Z"),
    ];
    let current = vec![
        vote_record("c1", "Jane Smith", "fiscal_restraint", 13_000, "2026-01-08T00:00:00Z"),
    ];
    let result = detect_drift(&current, &prior, &rubric, "2026-01-08T00:00:00Z", "2026-01-08T00:00:00Z");
    assert_eq!(result.drift_records.len(), 1);
    let rec = &result.drift_records[0];
    assert_eq!(rec.official, "Jane Smith".to_string());
    assert_eq!(rec.axis, "fiscal_restraint".to_string());
    assert_eq!(rec.prior_avg, 10_000);
    assert_eq!(rec.current_avg, 13_000);
    assert_eq!(rec.deviation, 3_000);
    assert_eq!(rec.flags, vec!["drift_detected:fiscal_restraint".to_string()]);
    assert_eq!(rec.id, "drift:jane_smith:fiscal_restraint:2026-01-08T00:00:00Z".to_string());
    assert_eq!(
        result.drift_flags,
        vec!["Jane Smith:drift_detected:fiscal_restraint".to_string()]
    );
    assert_eq!(result.updated_scores.len(), 1);
    let updated = &result.updated_scores[0];
    assert_eq!(updated.id, "c1".to_string());
    assert_eq!(updated.flags, vec!["drift_detected:fiscal_restraint".to_string()]);
    // The numeric record is never touched.
    assert_eq!(updated.overall_score, 13_000);
    assert_eq!(updated.axis_scores.len(), 1);
    assert_eq!(updated.axis_scores[0].value, 13_000);
}

#[test]
fn one_observation_short_of_the_window_is_silently_skipped() {
    // With exactly driftWindow - 1 prior scores, no drift record comes
    // out even though the averages differ wildly.
    let rubric = drift_rubric(3, 2000);
    let prior = vec![
        vote_record("p1", "Jane Smith", "fiscal_restraint", 10_000, "2026-01-01T00:00:00Z"),
        vote_record("p2", "Jane Smith", "fiscal_restraint", 10_000, "2025-12-25T00:00:00Z"),
    ];
    let current = vec![
        vote_record("c1", "Jane Smith", "fiscal_restraint", 90_000, "2026-01-08T00:00:00Z"),
    ];
    let result = detect_drift(&current, &prior, &rubric, "2026-01-08T00:00:00Z", "2026-01-08T00:00:00Z");
    assert!(result.drift_records.is_empty());
    assert!(result.drift_flags.is_empty());
    assert!(result.updated_scores.is_empty());
}

#[test]
fn a_deviation_under_the_threshold_raises_nothing() {
    let rubric = drift_rubric(3, 2000);
    let prior = vec![
        vote_record("p1", "Jane Smith", "fiscal_restraint", 10_000, "2026-01-01T00:00:00Z"),
        vote_record("p2", "Jane Smith", "fiscal_restraint", 10_000, "2025-12-25T00:00:00Z"),
        vote_record("p3", "Jane Smith", "fiscal_restraint", 10_000, "2025-12-18T00:00:00Z"),
    ];
    let current = vec![
        vote_record("c1", "Jane Smith", "fiscal_restraint", 11_000, "2026-01-08T00:00:00Z"),
    ];
    let result = detect_drift(&current, &prior, &rubric, "2026-01-08T00:00:00Z", "2026-01-08T00:00:00Z");
    assert!(result.drift_records.is_empty());
    assert!(result.updated_scores.is_empty());
}

#[test]
fn recomputing_drift_never_duplicates_the_flag() {
    let rubric = drift_rubric(3, 2000);
    let prior = vec![
        vote_record("p1", "Jane Smith", "fiscal_restraint", 10_000, "2026-01-01T00:00:00Z"),
        vote_record("p2", "Jane Smith", "fiscal_restraint", 10_000, "2025-12-25T00:00:00Z"),
        vote_record("p3", "Jane Smith", "fiscal_restraint", 10_000, "2025-12-18T00:00:00Z"),
    ];
    let current = vec![
        vote_record("c1", "Jane Smith", "fiscal_restraint", 13_000, "2026-01-08T00:00:00Z"),
    ];
    let once = detect_drift(&current, &prior, &rubric, "2026-01-08T00:00:00Z", "2026-01-08T00:00:00Z");
    // Run detection again over the already-flagged scores, as a retried
    // window would.
    let twice = detect_drift(
        &once.updated_scores,
        &prior,
        &rubric,
        "2026-01-08T00:00:00Z",
        "2026-01-08T00:00:00Z",
    );
    assert_eq!(twice.updated_scores.len(), 1);
    let flags = &twice.updated_scores[0].flags;
    let hits = flags.iter().filter(|f| f.as_str() == "drift_detected:fiscal_restraint").count();
    assert_eq!(hits, 1);
}

#[test]
fn records_without_an_official_are_skipped_not_fatal() {
    let rubric = drift_rubric(1, 1000);
    let mut anonymous = vote_record("c1", "x", "fiscal_restraint", 50_000, "2026-01-08T00:00:00Z");
    anonymous.evidence = vec!["vote_choice:aye".to_string()];
    let named = vote_record("c2", "Jane Smith", "fiscal_restraint", 50_000, "2026-01-08T00:00:00Z");
    let prior = vec![
        vote_record("p1", "Jane Smith", "fiscal_restraint", 10_000, "2026-01-01T00:00:00Z"),
    ];
    let current = vec![anonymous, named];
    let result = detect_drift(&current, &prior, &rubric, "2026-01-08T00:00:00Z", "2026-01-08T00:00:00Z");
    // Only the named official's record is aggregated and re-flagged.
    assert_eq!(result.drift_records.len(), 1);
    assert_eq!(result.updated_scores.len(), 1);
    assert_eq!(result.updated_scores[0].id, "c2".to_string());
}

#[test]
fn baselines_stop_at_the_window_and_other_officials_do_not_count() {
    let rubric = drift_rubric(2, 1000);
    let prior = vec![
        // Most recent first: two matching values fill the window; the
        // third and the other official's value must not contribute.
        vote_record("p1", "Jane Smith", "fiscal_restraint", 10_000, "2026-01-01T00:00:00Z"),
        vote_record("px", "Bo Finch", "fiscal_restraint", 90_000, "2025-12-28T00:00:00Z"),
        vote_record("p2", "Jane Smith", "fiscal_restraint", 12_000, "2025-12-25T00:00:00Z"),
        vote_record("p3", "Jane Smith", "fiscal_restraint", 90_000, "2025-12-18T00:00:00Z"),
    ];
    let current = vec![
        vote_record("c1", "Jane Smith", "fiscal_restraint", 15_000, "2026-01-08T00:00:00Z"),
    ];
    let result = detect_drift(&current, &prior, &rubric, "2026-01-08T00:00:00Z", "2026-01-08T00:00:00Z");
    assert_eq!(result.drift_records.len(), 1);
    // The baseline is the average of 10.0 and 12.0 alone.
    assert_eq!(result.drift_records[0].prior_avg, 11_000);
    assert_eq!(result.drift_records[0].deviation, 4_000);
}

#[test]
fn extract_official_reads_the_evidence_convention() {
    let evidence = vec![
        "vote_choice:aye".to_string(),
        "official:Jane Smith".to_string(),
    ];
    assert_eq!(
        civic_core::drift::extract_official(&evidence),
        Some("Jane Smith".to_string())
    );
    let none = vec!["vote_choice:aye".to_string()];
    assert_eq!(civic_core::drift::extract_official(&none), None);
}

#[test]
fn drift_on_two_axes_flags_both_once() {
    let rubric = drift_rubric(1, 1000);
    let two_axis = |id: &str, official: &str, fiscal: i64, transparency: i64, at: &str| DecisionScore {
        id: id.to_string(),
        meeting_id: Some("meet-1".to_string()),
        motion_id: Some("m1".to_string()),
        vote_id: Some("v1".to_string()),
        overall_score: fiscal,
        axis_scores: vec![
            AxisScore { axis: "fiscal_restraint".to_string(), value: fiscal },
            AxisScore { axis: "transparency".to_string(), value: transparency },
        ],
        constitutional_refs: vec![],
        evidence: vec![format!("official:{}", official)],
        confidence: 1000,
        flags: vec![],
        computed_at: at.to_string(),
    };
    let prior = vec![two_axis("p1", "Jane Smith", 10_000, 10_000, "2026-01-01T00:00:00Z")];
    let current = vec![two_axis("c1", "Jane Smith", 20_000, 30_000, "2026-01-08T00:00:00Z")];
    let result = detect_drift(&current, &prior, &rubric, "2026-01-08T00:00:00Z", "2026-01-08T00:00:00Z");
    assert_eq!(result.drift_records.len(), 2);
    assert_eq!(result.drift_records[0].axis, "fiscal_restraint".to_string());
    assert_eq!(result.drift_records[1].axis, "transparency".to_string());
    assert_eq!(result.updated_scores.len(), 1);
    assert_eq!(
        result.updated_scores[0].flags,
        vec![
            "drift_detected:fiscal_restraint".to_string(),
            "drift_detected:transparency".to_string(),
        ]
    );
}

#[test]
fn run_tallies_count_records_by_kind_and_flag() {
    let mut motion = vote_record("motion:m1", "x", "fiscal_restraint", 0, "2026-01-08T00:00:00Z");
    motion.vote_id = None;
    motion.flags = vec!["insufficient_evidence".to_string()];
    let mut abstained = vote_record("vote:v1:jane", "Jane", "fiscal_restraint", -2000, "2026-01-08T00:00:00Z");
    abstained.flags = vec!["abstain".to_string()];
    let clean = vote_record("vote:v1:bo", "Bo", "fiscal_restraint", 5000, "2026-01-08T00:00:00Z");
    let counts = civic_core::window::window_counts(&vec![motion, abstained, clean]);
    assert_eq!(counts.motions_scored, 1);
    assert_eq!(counts.votes_scored, 2);
    assert_eq!(counts.insufficient, 1);
    assert_eq!(counts.flagged, 2);
}
