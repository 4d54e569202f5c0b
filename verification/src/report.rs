//! Report-side summaries: letter grades, score normalization into the
//! 0 to 100 band, per-axis averaging across score maps, and the small
//! report-row judgments.

use vstd::prelude::*;
use crate::drift::{spec_add_new_axes, spec_avg, spec_div_round, spec_sum, vals_view, WINDOW_RECORDS_MAX};
use crate::fixed::{spec_clamp, VALUE_LIMIT};
use crate::rubric::RubricConfig;
use crate::scoring::{axes_view, spec_axis_index, AxisModel, AxisScore};
use crate::text::str_eq;

verus! {

/// The letter grade of a normalized milli-point score.
pub open spec fn spec_grade(n: int) -> Seq<char> {
    if n >= 97_000 {
        "A+"@
    } else if n >= 93_000 {
        "A"@
    } else if n >= 90_000 {
        "A-"@
    } else if n >= 87_000 {
        "B+"@
    } else if n >= 83_000 {
        "B"@
    } else if n >= 80_000 {
        "B-"@
    } else if n >= 77_000 {
        "C+"@
    } else if n >= 73_000 {
        "C"@
    } else if n >= 70_000 {
        "C-"@
    } else if n >= 67_000 {
        "D+"@
    } else if n >= 63_000 {
        "D"@
    } else if n >= 60_000 {
        "D-"@
    } else {
        "F"@
    }
}

/// Clamp a milli-point score into the 0 to 100 band and name its
/// letter grade.
pub fn score_to_grade(score: i64) -> (r: (i64, String))
    ensures
        r.0 == spec_clamp(score as int, 0, 100_000),
        r.1@ == spec_grade(r.0 as int),
{
    let numeric = crate::fixed::clamp_score(score, 0, 100_000);
    let grade: &'static str = if numeric >= 97_000 {
        "A+"
    } else if numeric >= 93_000 {
        "A"
    } else if numeric >= 90_000 {
        "A-"
    } else if numeric >= 87_000 {
        "B+"
    } else if numeric >= 83_000 {
        "B"
    } else if numeric >= 80_000 {
        "B-"
    } else if numeric >= 77_000 {
        "C+"
    } else if numeric >= 73_000 {
        "C"
    } else if numeric >= 70_000 {
        "C-"
    } else if numeric >= 67_000 {
        "D+"
    } else if numeric >= 63_000 {
        "D"
    } else if numeric >= 60_000 {
        "D-"
    } else {
        "F"
    };
    (numeric, grade.to_owned())
}

/// The rank of a letter grade, highest first; anything unrecognized
/// ranks lowest.
pub open spec fn spec_grade_rank(g: Seq<char>) -> int {
    if g == "A+"@ {
        12
    } else if g == "A"@ {
        11
    } else if g == "A-"@ {
        10
    } else if g == "B+"@ {
        9
    } else if g == "B"@ {
        8
    } else if g == "B-"@ {
        7
    } else if g == "C+"@ {
        6
    } else if g == "C"@ {
        5
    } else if g == "C-"@ {
        4
    } else if g == "D+"@ {
        3
    } else if g == "D"@ {
        2
    } else if g == "D-"@ {
        1
    } else {
        0
    }
}

/// Rank a letter grade for comparisons between weeks.
pub fn grade_rank(grade: &str) -> (r: i32)
    ensures
        r as int == spec_grade_rank(grade@),
{
    if str_eq(grade, "A+") {
        12
    } else if str_eq(grade, "A") {
        11
    } else if str_eq(grade, "A-") {
        10
    } else if str_eq(grade, "B+") {
        9
    } else if str_eq(grade, "B") {
        8
    } else if str_eq(grade, "B-") {
        7
    } else if str_eq(grade, "C+") {
        6
    } else if str_eq(grade, "C") {
        5
    } else if str_eq(grade, "C-") {
        4
    } else if str_eq(grade, "D+") {
        3
    } else if str_eq(grade, "D") {
        2
    } else if str_eq(grade, "D-") {
        1
    } else {
        0
    }
}

/// The style class of a letter grade: its leading letter, lowered;
/// an empty or unrecognized grade falls back to the failing class.
pub open spec fn spec_grade_class(g: Seq<char>) -> Seq<char> {
    if g.len() == 0 {
        "f"@
    } else if g[0] == 'A' {
        "a"@
    } else if g[0] == 'B' {
        "b"@
    } else if g[0] == 'C' {
        "c"@
    } else if g[0] == 'D' {
        "d"@
    } else {
        "f"@
    }
}

/// The style class a grade renders with.
pub fn grade_class(grade: &str) -> (r: &'static str)
    ensures
        r@ == spec_grade_class(grade@),
{
    if grade.unicode_len() == 0 {
        return "f";
    }
    let c = grade.get_char(0);
    if c == 'A' {
        "a"
    } else if c == 'B' {
        "b"
    } else if c == 'C' {
        "c"
    } else if c == 'D' {
        "d"
    } else {
        "f"
    }
}

/// Rounded division that accepts a divisor of either sign.
pub open spec fn spec_div_round_signed(num: int, den: int) -> int
    recommends
        den != 0,
{
    if den < 0 {
        spec_div_round(-num, -den)
    } else {
        spec_div_round(num, den)
    }
}

/// What a score normalizes to: the neutral score when the clamp
/// interval is degenerate, else its position in the interval scaled
/// into the 0 to 100 band and clamped there, in milli-points.
pub open spec fn spec_normalize(score: int, config: Option<RubricConfig>) -> int {
    match config {
        None => spec_clamp(score, 0, 100_000),
        Some(c) => {
            let floor = c.general.score_floor as int;
            let ceiling = c.general.score_ceiling as int;
            if ceiling == floor {
                c.general.neutral_score as int
            } else {
                spec_clamp(
                    spec_div_round_signed((score - floor) * 100_000, ceiling - floor),
                    0,
                    100_000,
                )
            }
        },
    }
}

/// Normalize a milli-point score into the 0 to 100 band the grades
/// read, against the rubric's clamp interval when one is loaded.
pub fn normalize_score(score: i64, rubric_config: Option<&RubricConfig>) -> (r: i64)
    requires
        -VALUE_LIMIT <= score <= VALUE_LIMIT,
        rubric_config matches Some(c) ==> {
            &&& -crate::fixed::BOUND_LIMIT <= c.general.score_floor <= crate::fixed::BOUND_LIMIT
            &&& -crate::fixed::BOUND_LIMIT <= c.general.score_ceiling <= crate::fixed::BOUND_LIMIT
        },
    ensures
        match rubric_config {
            None => r as int == spec_normalize(score as int, None),
            Some(c) => r as int == spec_normalize(score as int, Some(*c)),
        },
{
    let config = match rubric_config {
        None => {
            return crate::fixed::clamp_score(score, 0, 100_000);
        },
        Some(c) => c,
    };
    let floor = config.general.score_floor;
    let ceiling = config.general.score_ceiling;
    if ceiling == floor {
        return config.general.neutral_score;
    }
    let num: i128 = (score as i128 - floor as i128) * 100_000;
    let den: i128 = ceiling as i128 - floor as i128;
    let (fnum, fden) = if den < 0 {
        (-num, -den)
    } else {
        (num, den)
    };
    let quotient: i128 = if fnum >= 0 {
        (2 * fnum + fden) / (2 * fden)
    } else {
        -((2 * (-fnum) + fden) / (2 * fden))
    };
    let clamped: i128 = if quotient < 0 {
        0
    } else if quotient > 100_000 {
        100_000
    } else {
        quotient
    };
    clamped as i64
}


/// The axis names appearing across the score maps, first appearance
/// first, without repetition.
pub open spec fn spec_maps_axes(maps: Seq<Seq<AxisModel>>) -> Seq<Seq<char>>
    decreases maps.len(),
{
    if maps.len() == 0 {
        Seq::empty()
    } else {
        spec_add_new_axes(spec_maps_axes(maps.drop_last()), maps.last())
    }
}

/// The values the maps carry on one axis, in map order.
pub open spec fn spec_maps_values(maps: Seq<Seq<AxisModel>>, axis: Seq<char>) -> Seq<int>
    decreases maps.len(),
{
    if maps.len() == 0 {
        Seq::empty()
    } else {
        let rest = spec_maps_values(maps.drop_last(), axis);
        let idx = spec_axis_index(maps.last(), axis);
        if idx >= 0 {
            rest.push(maps.last()[idx].value)
        } else {
            rest
        }
    }
}

/// The view of a list of axis-score maps.
pub open spec fn maps_view(maps: Seq<Vec<AxisScore>>) -> Seq<Seq<AxisModel>> {
    maps.map_values(|m: Vec<AxisScore>| axes_view(m@))
}

/// Average every axis across the maps: one entry per axis name seen,
/// in first-appearance order, holding the rounded milli-point average
/// of that axis's values.
#[verifier::loop_isolation(false)]
pub fn average_axis_scores(values: &Vec<Vec<AxisScore>>) -> (r: Vec<AxisScore>)
    requires
        values@.len() <= WINDOW_RECORDS_MAX,
        forall|i: int|
            0 <= i < values@.len() ==> crate::scoring::values_bounded(
                #[trigger] maps_view(values@)[i],
                VALUE_LIMIT as int,
            ),
    ensures
        ({
            let names = spec_maps_axes(maps_view(values@));
            &&& axes_view(r@).len() == names.len()
            &&& forall|k: int|
                0 <= k < names.len() ==> (#[trigger] axes_view(r@)[k]).axis == names[k]
                    && axes_view(r@)[k].value == spec_avg(
                    spec_maps_values(maps_view(values@), names[k]),
                )
        }),
{
    let ghost mv = maps_view(values@);
    let mut names: Vec<String> = Vec::new();
    let mut i: usize = 0;
    proof {
        assert(mv.take(0) =~= Seq::<Seq<AxisModel>>::empty());
    }
    while i < values.len()
        invariant
            i <= values@.len(),
            names.deep_view() == spec_maps_axes(mv.take(i as int)),
        decreases values@.len() - i,
    {
        proof {
            let next = mv.take(i + 1);
            assert(next.drop_last() =~= mv.take(i as int));
            assert(next.last() == mv[i as int]);
        }
        let m = &values[i];
        let ghost acc0 = spec_maps_axes(mv.take(i as int));
        let ghost raxes = axes_view(m@);
        let mut t: usize = 0;
        proof {
            assert(raxes.take(0) =~= Seq::<AxisModel>::empty());
        }
        while t < m.len()
            invariant
                t <= m@.len(),
                names.deep_view() == spec_add_new_axes(acc0, raxes.take(t as int)),
            decreases m@.len() - t,
        {
            proof {
                let nx = raxes.take(t + 1);
                assert(nx.drop_last() =~= raxes.take(t as int));
                assert(nx.last() == raxes[t as int]);
                assert(raxes[t as int] == m@[t as int].model());
            }
            let name = &m[t].axis;
            if !crate::scoring::vec_contains_str(&names, name.as_str()) {
                names.push(name.clone());
                proof {
                    assert(names.deep_view() =~= spec_add_new_axes(acc0, raxes.take(t + 1)));
                }
            }
            t = t + 1;
        }
        proof {
            assert(raxes.take(m@.len() as int) =~= raxes);
        }
        i = i + 1;
    }
    proof {
        assert(mv.take(values@.len() as int) =~= mv);
    }
    let mut out: Vec<AxisScore> = Vec::new();
    let mut k: usize = 0;
    while k < names.len()
        invariant
            k <= names@.len(),
            names.deep_view() == spec_maps_axes(mv),
            out@.len() == k,
            forall|j: int|
                0 <= j < k ==> (#[trigger] axes_view(out@)[j]).axis == names.deep_view()[j]
                    && axes_view(out@)[j].value == spec_avg(
                    spec_maps_values(mv, names.deep_view()[j]),
                ),
        decreases names@.len() - k,
    {
        let name = &names[k];
        proof {
            assert(names.deep_view()[k as int] == names@[k as int]@);
        }
        let mut vals: Vec<i64> = Vec::new();
        let mut i2: usize = 0;
        proof {
            assert(mv.take(0) =~= Seq::<Seq<AxisModel>>::empty());
            assert(vals_view(vals@) =~= spec_maps_values(mv.take(0), name@));
        }
        while i2 < values.len()
            invariant
                i2 <= values@.len(),
                vals@.len() <= i2,
                vals_view(vals@) == spec_maps_values(mv.take(i2 as int), name@),
                forall|j: int| 0 <= j < vals@.len() ==> -VALUE_LIMIT <= #[trigger] vals@[j] <= VALUE_LIMIT,
            decreases values@.len() - i2,
        {
            proof {
                let next = mv.take(i2 + 1);
                assert(next.drop_last() =~= mv.take(i2 as int));
                assert(next.last() == mv[i2 as int]);
            }
            match crate::scoring::find_axis(&values[i2], name.as_str()) {
                Some(idx) => {
                    let v = values[i2][idx].value;
                    proof {
                        assert(mv[i2 as int][idx as int] == values@[i2 as int]@[idx as int].model());
                        crate::scoring::lemma_axis_index(mv[i2 as int], name@);
                    }
                    vals.push(v);
                    proof {
                        assert(vals_view(vals@) =~= spec_maps_values(mv.take(i2 + 1), name@));
                    }
                },
                None => {},
            }
            i2 = i2 + 1;
        }
        proof {
            assert(mv.take(values@.len() as int) =~= mv);
        }
        proof {
            crate::drift::lemma_sum_bounded(vals_view(vals@), VALUE_LIMIT as int);
            assert(vals_view(vals@).len() == vals@.len());
        }
        let avg: i64 = if vals.len() == 0 {
            0
        } else {
            let s = crate::drift::sum_values(&vals);
            crate::drift::avg_milli(s, vals.len())
        };
        proof {
            assert(avg as int == spec_avg(spec_maps_values(mv, name@)));
        }
        let ghost out0 = axes_view(out@);
        out.push(AxisScore { axis: name.clone(), value: avg });
        proof {
            assert(forall|j: int| 0 <= j < k ==> #[trigger] axes_view(out@)[j] == out0[j]);
            assert(axes_view(out@)[k as int] == out@[k as int].model());
            assert(axes_view(out@)[k as int].axis == names.deep_view()[k as int]);
            assert(axes_view(out@)[k as int].value == spec_avg(
                spec_maps_values(mv, names.deep_view()[k as int]),
            ));
        }
        k = k + 1;
    }
    out
}

/// One artifact row of the weekly report, with the tags its collector
/// assigned.
#[derive(Clone, Debug)]
pub struct ReportArtifactRow {
    pub id: String,
    pub title: Option<String>,
    pub retrieved_at: String,
    pub source_value: String,
    pub tags: Vec<String>,
}

impl ReportArtifactRow {
    /// Whether the collectors marked the artifact high impact.
    pub fn is_high_impact(&self) -> (r: bool)
        ensures
            r == self.tags.deep_view().contains("high_impact"@),
    {
        crate::scoring::vec_contains_str(&self.tags, "high_impact")
    }

    /// Whether text extraction has run over the artifact.
    pub fn is_text_extracted(&self) -> (r: bool)
        ensures
            r == self.tags.deep_view().contains("text_extracted"@),
    {
        crate::scoring::vec_contains_str(&self.tags, "text_extracted")
    }
}

/// Site rendering options.
#[derive(Clone, Debug)]
pub struct SiteConfig {
    pub enable_commentary: Option<bool>,
    pub commentary_style: Option<String>,
}

/// Fill the site options' defaults: commentary on, in the satire style.
pub fn resolve_site_config(config: Option<&SiteConfig>) -> (r: SiteConfig)
    ensures
        r.enable_commentary == Some(
            match config {
                Some(c) => match c.enable_commentary {
                    Some(b) => b,
                    None => true,
                },
                None => true,
            },
        ),
        match r.commentary_style {
            Some(s) => s@ == match config {
                Some(c) => match c.commentary_style {
                    Some(cs) => cs@,
                    None => "satire"@,
                },
                None => "satire"@,
            },
            None => false,
        },
{
    let enable = match config {
        Some(c) => match c.enable_commentary {
            Some(b) => b,
            None => true,
        },
        None => true,
    };
    let style = match config {
        Some(c) => match &c.commentary_style {
            Some(cs) => cs.clone(),
            None => "satire".to_owned(),
        },
        None => "satire".to_owned(),
    };
    SiteConfig { enable_commentary: Some(enable), commentary_style: Some(style) }
}

} // verus!
