//! The text, vocabulary, validation, grading and vault helpers on
//! concrete values.

use civic_core::report::{grade_class, grade_rank, normalize_score, score_to_grade};
use civic_core::rubric::{RubricConfig, RubricEvidence, RubricGeneral, RubricOutput};
use civic_core::schema::{Artifact, Meeting, RecordError, SourceRef};
use civic_core::scoring::AxisScore;
use civic_core::tags::{is_issue_tag, tag_axes};
use civic_core::text::{slugify, stable_hash};
use civic_core::vault::{indent_yaml_block, ArtifactRow, MeetingRow, VaultPaths};

#[test]
fn the_controlled_vocabulary_is_closed() {
    assert!(is_issue_tag("zoning"));
    assert!(is_issue_tag("budget"));
    assert!(is_issue_tag("transparency"));
    assert!(!is_issue_tag("Budget"));
    assert!(!is_issue_tag("weather"));
    assert!(!is_issue_tag(""));
}

#[test]
fn tags_map_to_their_axes() {
    assert_eq!(tag_axes("budget"), vec!["fiscal_restraint"]);
    assert_eq!(tag_axes("zoning"), vec!["property_rights"]);
    assert_eq!(tag_axes("ordinance"), vec!["transparency"]);
    // A recognized tag outside the three axis families influences none.
    assert_eq!(tag_axes("election"), Vec::<&str>::new());
    assert_eq!(tag_axes("weather"), Vec::<&str>::new());
}

#[test]
fn slugs_lower_and_join_names() {
    assert_eq!(slugify("Jane Smith"), "jane_smith".to_string());
    assert_eq!(slugify("  O'Neil, Bo  "), "o_neil__bo".to_string());
    assert_eq!(slugify("!!"), "".to_string());
    assert_eq!(slugify("A1-B2"), "a1_b2".to_string());
}

#[test]
fn the_stable_hash_matches_its_formula() {
    assert_eq!(stable_hash(""), 14695981039346656037);
    assert_eq!(stable_hash("a"), 12638187200555641996);
    assert_eq!(stable_hash("Jane:2026-01-01:satire"), 4888186121581433897);
}

#[test]
fn artifact_validation_names_the_first_blank_field() {
    let good = Artifact {
        id: "art-1".to_string(),
        source: SourceRef {
            kind: "url".to_string(),
            value: "https://example.test/minutes".to_string(),
            retrieved_at: "2026-01-08T00:00:00Z".to_string(),
        },
        title: None,
        body_text: None,
        content_type: None,
        tags: vec![],
    };
    assert!(civic_core::schema::validate_artifact(&good).is_ok());
    let mut blank_id = good.clone();
    blank_id.id = "   ".to_string();
    match civic_core::schema::validate_artifact(&blank_id) {
        Err(RecordError::EmptyField { field }) => assert_eq!(field, "Artifact.id"),
        Ok(()) => panic!("a blank id must be rejected"),
    }
    let mut blank_kind = good.clone();
    blank_kind.source.kind = "".to_string();
    match civic_core::schema::validate_artifact(&blank_kind) {
        Err(RecordError::EmptyField { field }) => assert_eq!(field, "Artifact.source.kind"),
        Ok(()) => panic!("a blank source kind must be rejected"),
    }
}

#[test]
fn meeting_validation_names_the_first_blank_field() {
    let good = Meeting {
        id: "meet-1".to_string(),
        body_id: "fiscal-court".to_string(),
        started_at: "2026-01-08T18:00:00Z".to_string(),
        artifact_ids: vec![],
        motions: vec![],
    };
    assert!(civic_core::schema::validate_meeting(&good).is_ok());
    let mut blank_started = good.clone();
    blank_started.started_at = " \t ".to_string();
    match civic_core::schema::validate_meeting(&blank_started) {
        Err(RecordError::EmptyField { field }) => assert_eq!(field, "Meeting.started_at"),
        Ok(()) => panic!("a blank start time must be rejected"),
    }
}

#[test]
fn grades_follow_the_band_table() {
    assert_eq!(score_to_grade(97_000), (97_000, "A+".to_string()));
    assert_eq!(score_to_grade(96_000), (96_000, "A".to_string()));
    assert_eq!(score_to_grade(82_000), (82_000, "B-".to_string()));
    assert_eq!(score_to_grade(59_999), (59_999, "F".to_string()));
    // The numeric grade is clamped into the band first.
    assert_eq!(score_to_grade(140_000), (100_000, "A+".to_string()));
    assert_eq!(score_to_grade(-5_000), (0, "F".to_string()));
}

#[test]
fn grade_ranks_order_the_letters() {
    assert_eq!(grade_rank("A+"), 12);
    assert_eq!(grade_rank("C"), 5);
    assert_eq!(grade_rank("F"), 0);
    assert_eq!(grade_rank("?"), 0);
    assert!(grade_rank("B+") > grade_rank("B"));
}

#[test]
fn grade_classes_take_the_leading_letter() {
    assert_eq!(grade_class("A-"), "a");
    assert_eq!(grade_class("D+"), "d");
    assert_eq!(grade_class("F"), "f");
    assert_eq!(grade_class(""), "f");
}

#[test]
fn normalization_scales_into_the_grade_band() {
    let config = RubricConfig {
        general: RubricGeneral { score_floor: -100_000, score_ceiling: 100_000, neutral_score: 0 },
        evidence: RubricEvidence { minimum_confidence: 400, unknown_penalty: 0 },
        output: RubricOutput { rounding: 1, include_axis_breakdown: true },
    };
    assert_eq!(normalize_score(0, Some(&config)), 50_000);
    assert_eq!(normalize_score(100_000, Some(&config)), 100_000);
    assert_eq!(normalize_score(-100_000, Some(&config)), 0);
    assert_eq!(normalize_score(-150_000, Some(&config)), 0);
    // Without a rubric the score is clamped into the band as it stands.
    assert_eq!(normalize_score(42_000, None), 42_000);
    assert_eq!(normalize_score(120_000, None), 100_000);
    // A degenerate interval falls back to the neutral score.
    let mut degenerate = config.clone();
    degenerate.general.score_floor = 7_000;
    degenerate.general.score_ceiling = 7_000;
    degenerate.general.neutral_score = 7_000;
    assert_eq!(normalize_score(9_000, Some(&degenerate)), 7_000);
}

#[test]
fn axis_averages_group_by_name() {
    let maps = vec![
        vec![AxisScore { axis: "fiscal_restraint".to_string(), value: 10_000 }],
        vec![
            AxisScore { axis: "fiscal_restraint".to_string(), value: 20_000 },
            AxisScore { axis: "transparency".to_string(), value: 5_000 },
        ],
    ];
    let avgs = civic_core::report::average_axis_scores(&maps);
    let pairs: Vec<(String, i64)> = avgs.iter().map(|a| (a.axis.clone(), a.value)).collect();
    assert_eq!(
        pairs,
        vec![
            ("fiscal_restraint".to_string(), 15_000),
            ("transparency".to_string(), 5_000),
        ]
    );
}

#[test]
fn report_rows_read_their_collector_tags() {
    let row = civic_core::report::ReportArtifactRow {
        id: "art-1".to_string(),
        title: None,
        retrieved_at: "2026-01-08T00:00:00Z".to_string(),
        source_value: "https://example.test".to_string(),
        tags: vec!["high_impact".to_string()],
    };
    assert!(row.is_high_impact());
    assert!(!row.is_text_extracted());
}

#[test]
fn site_options_fill_their_defaults() {
    let resolved = civic_core::report::resolve_site_config(None);
    assert_eq!(resolved.enable_commentary, Some(true));
    assert_eq!(resolved.commentary_style, Some("satire".to_string()));
    let given = civic_core::report::SiteConfig {
        enable_commentary: Some(false),
        commentary_style: Some("neutral".to_string()),
    };
    let kept = civic_core::report::resolve_site_config(Some(&given));
    assert_eq!(kept.enable_commentary, Some(false));
    assert_eq!(kept.commentary_style, Some("neutral".to_string()));
}

#[test]
fn vault_paths_hang_off_the_root() {
    let paths = VaultPaths::new("vault".to_string());
    assert_eq!(paths.root, "vault".to_string());
    assert_eq!(paths.index_dir, "vault/00_Index".to_string());
    assert_eq!(paths.artifacts_dir, "vault/Artifacts".to_string());
    assert_eq!(paths.meetings_dir, "vault/Meetings".to_string());
}

#[test]
fn index_titles_fall_back_and_compose() {
    let with_title = ArtifactRow {
        id: "art-1".to_string(),
        source_kind: "url".to_string(),
        source_value: "https://example.test".to_string(),
        retrieved_at: "2026-01-08T00:00:00Z".to_string(),
        title: Some("Road budget minutes".to_string()),
        content_type: None,
        body_text: None,
        tags_json: "[]".to_string(),
    };
    assert_eq!(with_title.index_title(), "Road budget minutes".to_string());
    let mut untitled = with_title.clone();
    untitled.title = None;
    assert_eq!(untitled.index_title(), "art-1".to_string());
    let meeting = MeetingRow {
        id: "meet-1".to_string(),
        body_id: "fiscal-court".to_string(),
        started_at: "2026-01-08".to_string(),
        artifact_ids_json: "[]".to_string(),
        motions_json: "[]".to_string(),
    };
    assert_eq!(meeting.index_title(), "fiscal-court (2026-01-08)".to_string());
}

#[test]
fn yaml_blocks_indent_every_line() {
    assert_eq!(indent_yaml_block("a\nb"), "  a\n  b\n".to_string());
    assert_eq!(indent_yaml_block("one line"), "  one line\n".to_string());
    assert_eq!(indent_yaml_block(""), "".to_string());
    assert_eq!(indent_yaml_block("dos\r\nlines\r\n"), "  dos\n  lines\n".to_string());
}

#[test]
fn the_page_shell_wraps_title_and_body() {
    let page = civic_core::site::html_page("Weekly", "<p>hello</p>");
    assert!(page.starts_with("<!doctype html>"));
    assert!(page.contains("<title>Weekly</title>"));
    assert!(page.contains("<p>hello</p>"));
    assert!(page.ends_with("</html>\n"));
    let nav = civic_core::site::nav_html("2026-01-08");
    assert!(nav.contains("/weeks/2026-01-08.html"));
    let footer = civic_core::site::footer_html("2026-01-08");
    assert!(footer.contains("/reports/weekly/2026-01-08.json"));
    assert!(!civic_core::site::icon_cap().is_empty());
    assert!(!civic_core::site::icon_ballot().is_empty());
    assert!(!civic_core::site::icon_trend_up().is_empty());
    assert!(!civic_core::site::icon_trend_down().is_empty());
    assert!(!civic_core::site::icon_alert().is_empty());
    assert!(!civic_core::site::icon_info().is_empty());
}
