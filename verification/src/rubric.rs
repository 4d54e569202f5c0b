//! The rubric: immutable, versioned scoring configuration.
//!
//! Penalties, weights, bounds and confidences are fixed-point milli-point
//! values (`1000 == 1.0`). Assembling the rubric's rule tables from their
//! parsed configuration entries is verified here; reading and
//! deserializing the configuration files is a collaborator's job.

use vstd::prelude::*;
use crate::fixed::{BOUND_LIMIT, PARAM_LIMIT, SCALE};
use crate::text::str_eq;

verus! {

/// What a recorded vote does to the motion's axis scores.
#[derive(Clone, Copy, Debug, PartialEq, Eq, Structural)]
pub enum VoteEffect {
    /// Keep every axis score as the motion computed it.
    Inherit,
    /// Negate every axis score.
    Invert,
}

/// Clamp bounds and the neutral fallback score, in milli-points.
#[derive(Clone, Debug)]
pub struct RubricGeneral {
    pub score_floor: i64,
    pub score_ceiling: i64,
    pub neutral_score: i64,
}

/// Evidence requirements for motion scoring, in milli-points.
#[derive(Clone, Debug)]
pub struct RubricEvidence {
    pub minimum_confidence: i64,
    pub unknown_penalty: i64,
}

/// Output shaping: decimal places kept on every emitted score.
#[derive(Clone, Debug)]
pub struct RubricOutput {
    pub rounding: u32,
    pub include_axis_breakdown: bool,
}

/// The general/evidence/output configuration document.
#[derive(Clone, Debug)]
pub struct RubricConfig {
    pub general: RubricGeneral,
    pub evidence: RubricEvidence,
    pub output: RubricOutput,
}

/// Vote-effect policies and flat penalties, in milli-points.
#[derive(Clone, Debug)]
pub struct ScoringRules {
    pub vote_yes_effect: VoteEffect,
    pub vote_no_effect: VoteEffect,
    pub abstain_penalty: i64,
    pub absent_penalty: i64,
    pub unknown_motion_penalty: i64,
}

/// The confidence assigned when at least one issue tag was found.
#[derive(Clone, Debug)]
pub struct EvidenceRules {
    pub minimum_confidence: i64,
}

/// Bias-control parameters, in milli-points (the window is a count).
#[derive(Clone, Debug)]
pub struct BiasControls {
    pub spending_bias_penalty: i64,
    pub drift_threshold: i64,
    pub drift_window: usize,
}

/// One axis weight, in milli-points (`1000 == 1.0`).
#[derive(Clone, Debug)]
pub struct AxisWeight {
    pub axis: String,
    pub weight: i64,
}

/// The citation strings mapped to one axis.
#[derive(Clone, Debug)]
pub struct AxisRefs {
    pub axis: String,
    pub refs: Vec<String>,
}

/// The loaded, immutable rubric.
#[derive(Clone, Debug)]
pub struct Rubric {
    pub config: RubricConfig,
    pub axis_weights: Vec<AxisWeight>,
    pub scoring_rules: ScoringRules,
    pub evidence_rules: EvidenceRules,
    pub bias_controls: BiasControls,
    pub us_constitution: Vec<AxisRefs>,
    pub ky_constitution: Vec<AxisRefs>,
    pub rubric_tags: Vec<String>,
}

impl Rubric {
    /// The machine bounds every loaded rubric must satisfy so that score
    /// arithmetic stays exact: bounds fit in `BOUND_LIMIT`, penalties and
    /// weights in `PARAM_LIMIT`, and the confidence lies in `[0, 1]`.
    pub open spec fn wf(self) -> bool {
        &&& -BOUND_LIMIT <= self.config.general.score_floor <= BOUND_LIMIT
        &&& -BOUND_LIMIT <= self.config.general.score_ceiling <= BOUND_LIMIT
        &&& -BOUND_LIMIT <= self.config.general.neutral_score <= BOUND_LIMIT
        &&& 0 <= self.evidence_rules.minimum_confidence <= SCALE
        &&& -PARAM_LIMIT <= self.scoring_rules.abstain_penalty <= PARAM_LIMIT
        &&& -PARAM_LIMIT <= self.scoring_rules.absent_penalty <= PARAM_LIMIT
        &&& -PARAM_LIMIT <= self.scoring_rules.unknown_motion_penalty <= PARAM_LIMIT
        &&& -PARAM_LIMIT <= self.bias_controls.spending_bias_penalty <= PARAM_LIMIT
        &&& -BOUND_LIMIT <= self.bias_controls.drift_threshold <= BOUND_LIMIT
        &&& forall|i: int|
            0 <= i < self.axis_weights@.len() ==> -PARAM_LIMIT <= (
            #[trigger] self.axis_weights@[i]).weight <= PARAM_LIMIT
    }

    /// Whether the rubric satisfies the machine bounds of `wf`.
    pub fn check_wf(&self) -> (r: bool)
        ensures
            r == self.wf(),
    {
        let g = &self.config.general;
        let mut ok = -BOUND_LIMIT <= g.score_floor && g.score_floor <= BOUND_LIMIT && -BOUND_LIMIT
            <= g.score_ceiling && g.score_ceiling <= BOUND_LIMIT && -BOUND_LIMIT <= g.neutral_score
            && g.neutral_score <= BOUND_LIMIT && 0 <= self.evidence_rules.minimum_confidence
            && self.evidence_rules.minimum_confidence <= SCALE && -PARAM_LIMIT
            <= self.scoring_rules.abstain_penalty && self.scoring_rules.abstain_penalty
            <= PARAM_LIMIT && -PARAM_LIMIT <= self.scoring_rules.absent_penalty
            && self.scoring_rules.absent_penalty <= PARAM_LIMIT && -PARAM_LIMIT
            <= self.scoring_rules.unknown_motion_penalty && self.scoring_rules.unknown_motion_penalty
            <= PARAM_LIMIT && -PARAM_LIMIT <= self.bias_controls.spending_bias_penalty
            && self.bias_controls.spending_bias_penalty <= PARAM_LIMIT && -BOUND_LIMIT
            <= self.bias_controls.drift_threshold && self.bias_controls.drift_threshold
            <= BOUND_LIMIT;
        let mut i: usize = 0;
        while i < self.axis_weights.len()
            invariant
                i <= self.axis_weights@.len(),
                ok == ({
                    &&& -BOUND_LIMIT <= self.config.general.score_floor <= BOUND_LIMIT
                    &&& -BOUND_LIMIT <= self.config.general.score_ceiling <= BOUND_LIMIT
                    &&& -BOUND_LIMIT <= self.config.general.neutral_score <= BOUND_LIMIT
                    &&& 0 <= self.evidence_rules.minimum_confidence <= SCALE
                    &&& -PARAM_LIMIT <= self.scoring_rules.abstain_penalty <= PARAM_LIMIT
                    &&& -PARAM_LIMIT <= self.scoring_rules.absent_penalty <= PARAM_LIMIT
                    &&& -PARAM_LIMIT <= self.scoring_rules.unknown_motion_penalty <= PARAM_LIMIT
                    &&& -PARAM_LIMIT <= self.bias_controls.spending_bias_penalty <= PARAM_LIMIT
                    &&& -BOUND_LIMIT <= self.bias_controls.drift_threshold <= BOUND_LIMIT
                    &&& forall|j: int|
                        0 <= j < i ==> -PARAM_LIMIT <= (#[trigger] self.axis_weights@[j]).weight
                            <= PARAM_LIMIT
                }),
            decreases self.axis_weights@.len() - i,
        {
            let w = self.axis_weights[i].weight;
            ok = ok && -PARAM_LIMIT <= w && w <= PARAM_LIMIT;
            i = i + 1;
        }
        ok
    }
}

/// A configuration error: the rubric named a vote effect outside the
/// recognized policy vocabulary. Fatal to the run; no partial rubric
/// is ever produced.
#[derive(Clone, Debug)]
pub enum ConfigError {
    UnknownVoteEffect { value: String },
}

impl ConfigError {
    /// A human-readable description of the error.
    pub fn message(&self) -> (r: String)
        ensures
            self matches ConfigError::UnknownVoteEffect { value } ==> r@ == "Unknown vote effect: "@
                + value@,
    {
        match self {
            ConfigError::UnknownVoteEffect { value } => {
                let mut m = String::new();
                m.append("Unknown vote effect: ");
                m.append(value.as_str());
                proof {
                    assert(m@ =~= "Unknown vote effect: "@ + value@);
                }
                m
            },
        }
    }
}

/// The vote effect a policy string names, if it names one.
pub open spec fn spec_effect_of(s: Seq<char>) -> Option<VoteEffect> {
    if s == "inherit"@ {
        Some(VoteEffect::Inherit)
    } else if s == "invert"@ {
        Some(VoteEffect::Invert)
    } else {
        None
    }
}

/// Resolve a vote-effect policy string. Exactly the strings `inherit`
/// and `invert` are recognized; anything else is a configuration error.
pub fn parse_vote_effect(value: &str) -> (r: Result<VoteEffect, ConfigError>)
    ensures
        match r {
            Ok(e) => spec_effect_of(value@) == Some(e),
            Err(ConfigError::UnknownVoteEffect { value: v }) => spec_effect_of(value@) is None
                && v@ == value@,
        },
{
    if str_eq(value, "inherit") {
        Ok(VoteEffect::Inherit)
    } else if str_eq(value, "invert") {
        Ok(VoteEffect::Invert)
    } else {
        Err(ConfigError::UnknownVoteEffect { value: value.to_owned() })
    }
}

/// One entry of the scoring-rules document: a rule name with an
/// optional effect policy and an optional flat penalty (milli-points).
#[derive(Clone, Debug)]
pub struct RuleEntry {
    pub name: String,
    pub effect: Option<String>,
    pub penalty: Option<i64>,
}

/// One entry of the bias-controls document.
#[derive(Clone, Debug)]
pub struct ControlEntry {
    pub name: String,
    pub penalty: Option<i64>,
    pub modifier: Option<i64>,
    pub threshold: Option<i64>,
    pub window: Option<usize>,
}

/// The first rule entry carrying the given name, if any.
pub open spec fn spec_find_rule(rules: Seq<RuleEntry>, name: Seq<char>) -> Option<RuleEntry>
    decreases rules.len(),
{
    if rules.len() == 0 {
        None
    } else if rules[0].name@ == name {
        Some(rules[0])
    } else {
        spec_find_rule(rules.drop_first(), name)
    }
}

/// The effect string a rule resolves to, with its default.
pub open spec fn spec_rule_effect(rules: Seq<RuleEntry>, name: Seq<char>, default: Seq<char>)
    -> Seq<char> {
    match spec_find_rule(rules, name) {
        Some(e) => match e.effect {
            Some(s) => s@,
            None => default,
        },
        None => default,
    }
}

/// The penalty a rule resolves to, defaulting to zero.
pub open spec fn spec_rule_penalty(rules: Seq<RuleEntry>, name: Seq<char>) -> int {
    match spec_find_rule(rules, name) {
        Some(e) => match e.penalty {
            Some(p) => p as int,
            None => 0,
        },
        None => 0,
    }
}

fn find_rule<'a>(rules: &'a Vec<RuleEntry>, name: &str) -> (r: Option<&'a RuleEntry>)
    ensures
        match r {
            Some(e) => spec_find_rule(rules@, name@) == Some(*e),
            None => spec_find_rule(rules@, name@) is None,
        },
{
    let mut i: usize = 0;
    proof {
        assert(rules@.skip(0) =~= rules@);
    }
    while i < rules.len()
        invariant
            i <= rules@.len(),
            spec_find_rule(rules@, name@) == spec_find_rule(rules@.skip(i as int), name@),
        decreases rules@.len() - i,
    {
        proof {
            assert(rules@.skip(i as int)[0] == rules@[i as int]);
            assert(rules@.skip(i as int).drop_first() =~= rules@.skip(i + 1));
        }
        if str_eq(rules[i].name.as_str(), name) {
            return Some(&rules[i]);
        }
        i = i + 1;
    }
    None
}

/// The effect string the named rule resolves to, or the default.
fn rule_effect_str(rules: &Vec<RuleEntry>, name: &str, default: &'static str) -> (r: String)
    ensures
        r@ == spec_rule_effect(rules@, name@, default@),
{
    match find_rule(rules, name) {
        Some(entry) => match &entry.effect {
            Some(s) => s.clone(),
            None => default.to_owned(),
        },
        None => default.to_owned(),
    }
}

/// The penalty the named rule resolves to, or zero.
fn rule_penalty(rules: &Vec<RuleEntry>, name: &str) -> (r: i64)
    ensures
        r as int == spec_rule_penalty(rules@, name@),
{
    match find_rule(rules, name) {
        Some(entry) => match entry.penalty {
            Some(p) => p,
            None => 0,
        },
        None => 0,
    }
}

/// Assemble the scoring rules from the parsed rules document.
///
/// The `vote_yes` effect defaults to `inherit`, the `vote_no` effect to
/// `invert`; the `abstain`, `absent` and `unknown_motion` penalties
/// default to zero. An unrecognized effect string is a configuration
/// error naming that string (the `vote_yes` rule is checked first).
pub fn parse_scoring_rules(rules: &Vec<RuleEntry>) -> (r: Result<ScoringRules, ConfigError>)
    ensures
        ({
            let yes = spec_rule_effect(rules@, "vote_yes"@, "inherit"@);
            let no = spec_rule_effect(rules@, "vote_no"@, "invert"@);
            match r {
                Ok(sr) => {
                    &&& spec_effect_of(yes) == Some(sr.vote_yes_effect)
                    &&& spec_effect_of(no) == Some(sr.vote_no_effect)
                    &&& sr.abstain_penalty as int == spec_rule_penalty(rules@, "abstain"@)
                    &&& sr.absent_penalty as int == spec_rule_penalty(rules@, "absent"@)
                    &&& sr.unknown_motion_penalty as int == spec_rule_penalty(
                        rules@,
                        "unknown_motion"@,
                    )
                },
                Err(ConfigError::UnknownVoteEffect { value: v }) => {
                    ||| (spec_effect_of(yes) is None && v@ == yes)
                    ||| (spec_effect_of(yes) is Some && spec_effect_of(no) is None && v@ == no)
                },
            }
        }),
{
    let vote_yes = rule_effect_str(rules, "vote_yes", "inherit");
    let vote_no = rule_effect_str(rules, "vote_no", "invert");
    let abstain = rule_penalty(rules, "abstain");
    let absent = rule_penalty(rules, "absent");
    let unknown = rule_penalty(rules, "unknown_motion");
    let yes_effect = match parse_vote_effect(vote_yes.as_str()) {
        Ok(e) => e,
        Err(e) => {
            return Err(e);
        },
    };
    let no_effect = match parse_vote_effect(vote_no.as_str()) {
        Ok(e) => e,
        Err(e) => {
            return Err(e);
        },
    };
    Ok(
        ScoringRules {
            vote_yes_effect: yes_effect,
            vote_no_effect: no_effect,
            abstain_penalty: abstain,
            absent_penalty: absent,
            unknown_motion_penalty: unknown,
        },
    )
}

/// The first control entry carrying the given name, if any.
pub open spec fn spec_find_control(controls: Seq<ControlEntry>, name: Seq<char>) -> Option<
    ControlEntry,
>
    decreases controls.len(),
{
    if controls.len() == 0 {
        None
    } else if controls[0].name@ == name {
        Some(controls[0])
    } else {
        spec_find_control(controls.drop_first(), name)
    }
}

fn find_control<'a>(controls: &'a Vec<ControlEntry>, name: &str) -> (r: Option<&'a ControlEntry>)
    ensures
        match r {
            Some(e) => spec_find_control(controls@, name@) == Some(*e),
            None => spec_find_control(controls@, name@) is None,
        },
{
    let mut i: usize = 0;
    proof {
        assert(controls@.skip(0) =~= controls@);
    }
    while i < controls.len()
        invariant
            i <= controls@.len(),
            spec_find_control(controls@, name@) == spec_find_control(
                controls@.skip(i as int),
                name@,
            ),
        decreases controls@.len() - i,
    {
        proof {
            assert(controls@.skip(i as int)[0] == controls@[i as int]);
            assert(controls@.skip(i as int).drop_first() =~= controls@.skip(i + 1));
        }
        if str_eq(controls[i].name.as_str(), name) {
            return Some(&controls[i]);
        }
        i = i + 1;
    }
    None
}

/// The spending-bias penalty the controls resolve to (default zero).
pub open spec fn spec_spending_penalty(controls: Seq<ControlEntry>) -> int {
    match spec_find_control(controls, "spending_bias"@) {
        Some(e) => match e.penalty {
            Some(p) => p as int,
            None => 0,
        },
        None => 0,
    }
}

/// The drift threshold the controls resolve to (default `2.0` points).
pub open spec fn spec_drift_threshold(controls: Seq<ControlEntry>) -> int {
    match spec_find_control(controls, "drift_threshold"@) {
        Some(e) => match e.threshold {
            Some(t) => t as int,
            None => 2 * SCALE,
        },
        None => 2 * SCALE,
    }
}

/// The drift window the controls resolve to (default twenty scores).
pub open spec fn spec_drift_window(controls: Seq<ControlEntry>) -> int {
    match spec_find_control(controls, "drift_window"@) {
        Some(e) => match e.window {
            Some(w) => w as int,
            None => 20,
        },
        None => 20,
    }
}

/// Assemble the bias controls from the parsed controls document,
/// filling the documented defaults for anything left unstated.
pub fn parse_bias_controls(controls: &Vec<ControlEntry>) -> (r: BiasControls)
    ensures
        r.spending_bias_penalty as int == spec_spending_penalty(controls@),
        r.drift_threshold as int == spec_drift_threshold(controls@),
        r.drift_window as int == spec_drift_window(controls@),
{
    let spending = match find_control(controls, "spending_bias") {
        Some(entry) => match entry.penalty {
            Some(p) => p,
            None => 0,
        },
        None => 0,
    };
    let threshold = match find_control(controls, "drift_threshold") {
        Some(entry) => match entry.threshold {
            Some(t) => t,
            None => 2 * SCALE,
        },
        None => 2 * SCALE,
    };
    let window = match find_control(controls, "drift_window") {
        Some(entry) => match entry.window {
            Some(w) => w,
            None => 20,
        },
        None => 20,
    };
    BiasControls { spending_bias_penalty: spending, drift_threshold: threshold, drift_window: window }
}

} // verus!
