//! Building persisted score records for one scoring window: identity
//! conventions (`motion:` and `vote:` ids, the `official:` evidence
//! entry) and the deterministic expansion of a vote's name lists into
//! ordered `(name, choice)` pairs.

use vstd::prelude::*;
use crate::drift::DecisionScore;
use crate::rubric::Rubric;
use crate::scoring::{
    spec_motion_score, spec_vote_score, axes_view, LinkedArtifact, ScoreResult, VoteChoice,
    INPUT_VALUE_LIMIT, values_bounded, lex_leq, lemma_lex_total, lemma_lex_trans, str_lex_leq,
};

verus! {

/// Insert a cast after every cast whose name is at or before its own,
/// so equal names keep their arrival order.
pub open spec fn spec_insert_cast(
    acc: Seq<(Seq<char>, VoteChoice)>,
    x: (Seq<char>, VoteChoice),
) -> Seq<(Seq<char>, VoteChoice)>
    decreases acc.len(),
{
    if acc.len() == 0 {
        seq![x]
    } else if lex_leq(acc[0].0, x.0) {
        seq![acc[0]] + spec_insert_cast(acc.drop_first(), x)
    } else {
        seq![x] + acc
    }
}

/// The casts sorted by name, equal names in arrival order.
pub open spec fn spec_sort_casts(pairs: Seq<(Seq<char>, VoteChoice)>) -> Seq<
    (Seq<char>, VoteChoice),
>
    decreases pairs.len(),
{
    if pairs.len() == 0 {
        Seq::empty()
    } else {
        spec_insert_cast(spec_sort_casts(pairs.drop_last()), pairs.last())
    }
}

/// The casts a vote's three name lists describe, before sorting:
/// every aye, then every nay, then every abstention.
pub open spec fn spec_vote_casts(
    ayes: Seq<Seq<char>>,
    nays: Seq<Seq<char>>,
    abstain: Seq<Seq<char>>,
) -> Seq<(Seq<char>, VoteChoice)> {
    ayes.map_values(|n: Seq<char>| (n, VoteChoice::Aye)) + nays.map_values(
        |n: Seq<char>| (n, VoteChoice::Nay),
    ) + abstain.map_values(|n: Seq<char>| (n, VoteChoice::Abstain))
}

/// Casts sorted by name.
pub open spec fn casts_sorted(s: Seq<(Seq<char>, VoteChoice)>) -> bool {
    forall|i: int, j: int| 0 <= i < j < s.len() ==> lex_leq(#[trigger] s[i].0, #[trigger] s[j].0)
}

/// Inserting keeps the casts sorted, adds the new cast, and invents
/// nothing else.
pub proof fn lemma_insert_cast_sorted(
    acc: Seq<(Seq<char>, VoteChoice)>,
    x: (Seq<char>, VoteChoice),
)
    requires
        casts_sorted(acc),
    ensures
        spec_insert_cast(acc, x).len() == acc.len() + 1,
        casts_sorted(spec_insert_cast(acc, x)),
        forall|i: int|
            0 <= i < spec_insert_cast(acc, x).len() ==> (#[trigger] spec_insert_cast(acc, x)[i]
                == x || acc.contains(spec_insert_cast(acc, x)[i])),
    decreases acc.len(),
{
    let r = spec_insert_cast(acc, x);
    if acc.len() == 0 {
        assert(r[0] == x);
    } else if lex_leq(acc[0].0, x.0) {
        let accp = acc.drop_first();
        assert(casts_sorted(accp)) by {
            assert(forall|i: int| 0 <= i < accp.len() ==> #[trigger] accp[i] == acc[i + 1]);
        }
        lemma_insert_cast_sorted(accp, x);
        let rp = spec_insert_cast(accp, x);
        assert forall|k: int| 0 <= k < rp.len() implies lex_leq(acc[0].0, #[trigger] rp[k].0) by {
            if rp[k] == x {
            } else {
                let j = choose|j: int| 0 <= j < accp.len() && accp[j] == rp[k];
                assert(acc[j + 1] == rp[k]);
            }
        }
        assert forall|i: int, j: int| 0 <= i < j < r.len() implies lex_leq(
            #[trigger] r[i].0,
            #[trigger] r[j].0,
        ) by {
            assert(r[j] == rp[j - 1]);
            if i > 0 {
                assert(r[i] == rp[i - 1]);
            }
        }
        assert forall|i: int| 0 <= i < r.len() implies (#[trigger] r[i] == x || acc.contains(
            r[i],
        )) by {
            if i == 0 {
                assert(acc[0] == r[0]);
            } else {
                assert(r[i] == rp[i - 1]);
                if rp[i - 1] != x {
                    let j = choose|j: int| 0 <= j < accp.len() && accp[j] == rp[i - 1];
                    assert(acc[j + 1] == r[i]);
                }
            }
        }
    } else {
        lemma_lex_total(acc[0].0, x.0);
        assert forall|i: int, j: int| 0 <= i < j < r.len() implies lex_leq(
            #[trigger] r[i].0,
            #[trigger] r[j].0,
        ) by {
            assert(r[j] == acc[j - 1]);
            if i == 0 {
                assert(r[0] == x);
                if j > 1 {
                    lemma_lex_trans(x.0, acc[0].0, acc[j - 1].0);
                }
            } else {
                assert(r[i] == acc[i - 1]);
            }
        }
        assert forall|i: int| 0 <= i < r.len() implies (#[trigger] r[i] == x || acc.contains(
            r[i],
        )) by {
            if i > 0 {
                assert(acc[i - 1] == r[i]);
            }
        }
    }
}

/// The sorted casts are sorted by name and as many as came in.
pub proof fn lemma_sort_casts_sorted(pairs: Seq<(Seq<char>, VoteChoice)>)
    ensures
        casts_sorted(spec_sort_casts(pairs)),
        spec_sort_casts(pairs).len() == pairs.len(),
    decreases pairs.len(),
{
    if pairs.len() > 0 {
        lemma_sort_casts_sorted(pairs.drop_last());
        lemma_insert_cast_sorted(spec_sort_casts(pairs.drop_last()), pairs.last());
    }
}

/// Where the insertion lands: right before the first cast whose name
/// comes strictly after the new one.
proof fn lemma_insert_cast_at(
    acc: Seq<(Seq<char>, VoteChoice)>,
    x: (Seq<char>, VoteChoice),
    p: int,
)
    requires
        0 <= p <= acc.len(),
        forall|j: int| 0 <= j < p ==> lex_leq((#[trigger] acc[j]).0, x.0),
        p < acc.len() ==> !lex_leq(acc[p].0, x.0),
    ensures
        spec_insert_cast(acc, x) =~= acc.take(p) + seq![x] + acc.skip(p),
    decreases p,
{
    if acc.len() == 0 {
        assert(acc.take(0) =~= Seq::<(Seq<char>, VoteChoice)>::empty());
        assert(acc.skip(0) =~= Seq::<(Seq<char>, VoteChoice)>::empty());
    } else if p == 0 {
        assert(acc.take(0) =~= Seq::<(Seq<char>, VoteChoice)>::empty());
        assert(acc.skip(0) =~= acc);
    } else {
        assert(lex_leq(acc[0].0, x.0));
        let accp = acc.drop_first();
        assert(forall|j: int| 0 <= j < p - 1 ==> lex_leq((#[trigger] accp[j]).0, x.0)) by {
            assert(forall|j: int| 0 <= j < accp.len() ==> #[trigger] accp[j] == acc[j + 1]);
        }
        if p - 1 < accp.len() {
            assert(accp[p - 1] == acc[p]);
        }
        lemma_insert_cast_at(accp, x, p - 1);
        assert(accp.take(p - 1) =~= acc.take(p).drop_first());
        assert(accp.skip(p - 1) =~= acc.skip(p));
        assert(seq![acc[0]] + (accp.take(p - 1) + seq![x] + accp.skip(p - 1)) =~= acc.take(p)
            + seq![x] + acc.skip(p));
    }
}

/// The view of an executable cast list.
pub open spec fn casts_view(v: Seq<(String, VoteChoice)>) -> Seq<(Seq<char>, VoteChoice)> {
    v.map_values(|p: (String, VoteChoice)| (p.0@, p.1))
}

#[verifier::loop_isolation(false)]
fn insert_cast(acc: Vec<(String, VoteChoice)>, x: (String, VoteChoice)) -> (r: Vec<
    (String, VoteChoice),
>)
    ensures
        casts_view(r@) == spec_insert_cast(casts_view(acc@), (x.0@, x.1)),
{
    let ghost av = casts_view(acc@);
    let ghost xv = (x.0@, x.1);
    let mut p: usize = 0;
    while p < acc.len() && str_lex_leq(acc[p].0.as_str(), x.0.as_str())
        invariant
            p <= av.len(),
            av == casts_view(acc@),
            forall|j: int| 0 <= j < p ==> lex_leq((#[trigger] av[j]).0, xv.0),
        decreases av.len() - p,
    {
        proof {
            assert(av[p as int] == (acc@[p as int].0@, acc@[p as int].1));
        }
        p = p + 1;
    }
    proof {
        if p < av.len() {
            assert(av[p as int] == (acc@[p as int].0@, acc@[p as int].1));
        }
        lemma_insert_cast_at(av, xv, p as int);
    }
    let mut out: Vec<(String, VoteChoice)> = Vec::new();
    let mut i: usize = 0;
    while i < p
        invariant
            i <= p <= av.len(),
            av == casts_view(acc@),
            out@.len() == i,
            casts_view(out@) == av.take(i as int),
        decreases p - i,
    {
        out.push((acc[i].0.clone(), acc[i].1));
        proof {
            assert(forall|k: int| 0 <= k < i ==> casts_view(out@)[k] == av.take(i as int)[k]);
            assert(casts_view(out@)[i as int] == av[i as int]);
            assert(casts_view(out@) =~= av.take(i + 1));
        }
        i = i + 1;
    }
    out.push(x);
    proof {
        assert(casts_view(out@) =~= av.take(p as int) + seq![xv] + av.subrange(p as int, p as int));
    }
    let mut j: usize = p;
    while j < acc.len()
        invariant
            p <= j <= av.len(),
            av == casts_view(acc@),
            out@.len() == j + 1,
            casts_view(out@) == av.take(p as int) + seq![xv] + av.subrange(p as int, j as int),
        decreases av.len() - j,
    {
        out.push((acc[j].0.clone(), acc[j].1));
        proof {
            let prev = av.take(p as int) + seq![xv] + av.subrange(p as int, j as int);
            assert(forall|k: int| 0 <= k < prev.len() ==> casts_view(out@)[k] == prev[k]);
            assert(casts_view(out@)[j + 1] == av[j as int]);
            let rhs = av.take(p as int) + seq![xv] + av.subrange(p as int, j + 1);
            assert forall|k: int| 0 <= k < j + 2 implies casts_view(out@)[k] == rhs[k] by {
                if k < p {
                    assert(prev[k] == av[k]);
                    assert(rhs[k] == av[k]);
                } else if k == p {
                    assert(prev[k] == xv);
                    assert(rhs[k] == xv);
                } else if k < j + 1 {
                    assert(prev[k] == av[k - 1]);
                    assert(rhs[k] == av[k - 1]);
                } else {
                    assert(rhs[k] == av[j as int]);
                }
            }
            assert(casts_view(out@) =~= rhs);
        }
        j = j + 1;
    }
    proof {
        assert(av.skip(p as int) =~= av.subrange(p as int, av.len() as int));
    }
    out
}

/// Expand a vote's three name lists into `(name, choice)` pairs, sorted
/// by name for a deterministic processing order (names that repeat keep
/// their aye, nay, abstain arrival order).
#[verifier::loop_isolation(false)]
pub fn build_vote_choices(ayes: &Vec<String>, nays: &Vec<String>, abstain: &Vec<String>) -> (r:
    Vec<(String, VoteChoice)>)
    ensures
        casts_view(r@) == spec_sort_casts(
            spec_vote_casts(ayes.deep_view(), nays.deep_view(), abstain.deep_view()),
        ),
        casts_sorted(casts_view(r@)),
{
    let ghost unsorted = spec_vote_casts(ayes.deep_view(), nays.deep_view(), abstain.deep_view());
    let mut raw: Vec<(String, VoteChoice)> = Vec::new();
    let mut i: usize = 0;
    proof {
        assert(casts_view(raw@) =~= unsorted.take(0));
    }
    while i < ayes.len()
        invariant
            i <= ayes@.len(),
            raw@.len() == i,
            casts_view(raw@) == unsorted.take(i as int),
        decreases ayes@.len() - i,
    {
        raw.push((ayes[i].clone(), VoteChoice::Aye));
        proof {
            assert(forall|k: int| 0 <= k < i ==> casts_view(raw@)[k] == unsorted.take(i as int)[k]);
            assert(casts_view(raw@)[i as int] == (ayes@[i as int]@, VoteChoice::Aye));
            assert(ayes.deep_view()[i as int] == ayes@[i as int]@);
            assert(unsorted[i as int] == (ayes.deep_view()[i as int], VoteChoice::Aye));
            assert(casts_view(raw@) =~= unsorted.take(i + 1));
        }
        i = i + 1;
    }
    let mut j: usize = 0;
    while j < nays.len()
        invariant
            j <= nays@.len(),
            raw@.len() == ayes@.len() + j,
            casts_view(raw@) == unsorted.take(ayes@.len() + j),
        decreases nays@.len() - j,
    {
        raw.push((nays[j].clone(), VoteChoice::Nay));
        proof {
            let n = ayes@.len() + j;
            assert(forall|k: int| 0 <= k < n ==> casts_view(raw@)[k] == unsorted.take(n as int)[k]);
            assert(casts_view(raw@)[n as int] == (nays@[j as int]@, VoteChoice::Nay));
            assert(nays.deep_view()[j as int] == nays@[j as int]@);
            assert(unsorted[n as int] == (nays.deep_view()[j as int], VoteChoice::Nay));
            assert(casts_view(raw@) =~= unsorted.take(n + 1));
        }
        j = j + 1;
    }
    let mut k: usize = 0;
    while k < abstain.len()
        invariant
            k <= abstain@.len(),
            raw@.len() == ayes@.len() + nays@.len() + k,
            casts_view(raw@) == unsorted.take(ayes@.len() + nays@.len() + k),
        decreases abstain@.len() - k,
    {
        raw.push((abstain[k].clone(), VoteChoice::Abstain));
        proof {
            let n = ayes@.len() + nays@.len() + k;
            assert(forall|t: int| 0 <= t < n ==> casts_view(raw@)[t] == unsorted.take(n as int)[t]);
            assert(casts_view(raw@)[n as int] == (abstain@[k as int]@, VoteChoice::Abstain));
            assert(abstain.deep_view()[k as int] == abstain@[k as int]@);
            assert(unsorted[n as int] == (abstain.deep_view()[k as int], VoteChoice::Abstain));
            assert(casts_view(raw@) =~= unsorted.take(n + 1));
        }
        k = k + 1;
    }
    proof {
        assert(unsorted.take(unsorted.len() as int) =~= unsorted);
        assert(casts_view(raw@) == unsorted);
    }
    let mut out: Vec<(String, VoteChoice)> = Vec::new();
    let mut t: usize = 0;
    proof {
        assert(casts_view(out@) =~= spec_sort_casts(casts_view(raw@).take(0)));
    }
    while t < raw.len()
        invariant
            t <= raw@.len(),
            casts_view(raw@) == unsorted,
            casts_view(out@) == spec_sort_casts(unsorted.take(t as int)),
        decreases raw@.len() - t,
    {
        proof {
            let next = unsorted.take(t + 1);
            assert(next.drop_last() =~= unsorted.take(t as int));
            assert(next.last() == unsorted[t as int]);
            assert(casts_view(raw@)[t as int] == (raw@[t as int].0@, raw@[t as int].1));
        }
        out = insert_cast(out, (raw[t].0.clone(), raw[t].1));
        t = t + 1;
    }
    proof {
        assert(unsorted.take(unsorted.len() as int) =~= unsorted);
        lemma_sort_casts_sorted(unsorted);
    }
    out
}

/// The persisted record of a motion-level score: identity
/// `motion:<motion id>`, the meeting and motion ids, no vote id, and
/// the motion's freshly computed score.
pub fn score_motion_record(
    meeting_id: &str,
    motion_id: &str,
    motion_text: &str,
    linked_artifacts: &Vec<LinkedArtifact>,
    rubric: &Rubric,
    computed_at: &str,
) -> (r: (DecisionScore, ScoreResult))
    requires
        rubric.wf(),
    ensures
        r.1.model() == spec_motion_score(motion_text@, linked_artifacts@, *rubric),
        r.1.refs_complete(*rubric),
        r.1.wf(),
        values_bounded(axes_view(r.1.axis_scores@), INPUT_VALUE_LIMIT as int),
        r.0.model().id == "motion:"@ + motion_id@,
        r.0.model().meeting_id == Some(meeting_id@),
        r.0.model().motion_id == Some(motion_id@),
        r.0.model().vote_id is None,
        r.0.model().overall == r.1.model().overall,
        r.0.model().axes == r.1.model().axes,
        r.0.model().refs == r.1.constitutional_refs.deep_view(),
        r.0.model().evidence == r.1.model().evidence,
        r.0.model().confidence == r.1.model().confidence,
        r.0.model().flags == r.1.model().flags,
        r.0.model().computed_at == computed_at@,
        r.0.wf(),
{
    let score = crate::scoring::compute_motion_score(motion_text, linked_artifacts, rubric);
    let id = crate::scoring::prefixed("motion:", motion_id);
    let record = DecisionScore {
        id,
        meeting_id: Some(meeting_id.to_owned()),
        motion_id: Some(motion_id.to_owned()),
        vote_id: None,
        overall_score: score.overall_score,
        axis_scores: crate::scoring::copy_axes(&score.axis_scores),
        constitutional_refs: crate::text::copy_strings(&score.constitutional_refs),
        evidence: crate::text::copy_strings(&score.evidence),
        confidence: score.confidence,
        flags: crate::text::copy_strings(&score.flags),
        computed_at: computed_at.to_owned(),
    };
    (record, score)
}

/// The persisted record of one official's vote-level score: identity
/// `vote:<vote id>:<official slug>`, the vote's identities, the derived
/// score, and the `official:<name>` evidence entry aggregation later
/// recovers the official from.
pub fn score_vote_cast(
    meeting_id: &str,
    motion_id: &str,
    vote_id: &str,
    official: &str,
    choice: VoteChoice,
    motion_score: &ScoreResult,
    rubric: &Rubric,
    computed_at: &str,
) -> (r: DecisionScore)
    requires
        rubric.wf(),
        motion_score.wf(),
        values_bounded(axes_view(motion_score.axis_scores@), INPUT_VALUE_LIMIT as int),
    ensures
        ({
            let sm = spec_vote_score(axes_view(motion_score.axis_scores@), choice, *rubric);
            &&& r.model().id == "vote:"@ + vote_id@ + ":"@ + crate::text::slug_of(official@)
            &&& r.model().meeting_id == Some(meeting_id@)
            &&& r.model().motion_id == Some(motion_id@)
            &&& r.model().vote_id == Some(vote_id@)
            &&& r.model().overall == sm.overall
            &&& r.model().axes == sm.axes
            &&& r.model().evidence == sm.evidence.push("official:"@ + official@)
            &&& r.model().confidence == sm.confidence
            &&& r.model().flags == sm.flags
            &&& r.model().computed_at == computed_at@
            &&& crate::scoring::refs_sorted(r.constitutional_refs.deep_view())
            &&& forall|s: Seq<char>|
                #[trigger] r.constitutional_refs.deep_view().contains(s)
                    <==> crate::scoring::spec_refs_set(
                    sm.axes,
                    rubric.us_constitution@,
                    rubric.ky_constitution@,
                ).contains(s)
        }),
        r.wf(),
{
    let score = crate::scoring::compute_vote_score_with_motion(motion_score, choice, rubric);
    let mut evidence = crate::text::copy_strings(&score.evidence);
    evidence.push(crate::scoring::prefixed("official:", official));
    proof {
        assert(forall|k: int|
            0 <= k < score.evidence.deep_view().len() ==> evidence.deep_view()[k]
                == #[trigger] score.evidence.deep_view()[k]);
        assert(evidence.deep_view()[score.evidence.deep_view().len() as int] == "official:"@
            + official@);
        assert(evidence.deep_view() =~= score.evidence.deep_view().push("official:"@ + official@));
    }
    let slug = crate::text::slugify(official);
    let mut id = "vote:".to_owned();
    id.append(vote_id);
    id.append(":");
    id.append(slug.as_str());
    proof {
        assert(id@ =~= "vote:"@ + vote_id@ + ":"@ + crate::text::slug_of(official@));
    }
    DecisionScore {
        id,
        meeting_id: Some(meeting_id.to_owned()),
        motion_id: Some(motion_id.to_owned()),
        vote_id: Some(vote_id.to_owned()),
        overall_score: score.overall_score,
        axis_scores: crate::scoring::copy_axes(&score.axis_scores),
        constitutional_refs: crate::text::copy_strings(&score.constitutional_refs),
        evidence,
        confidence: score.confidence,
        flags: crate::text::copy_strings(&score.flags),
        computed_at: computed_at.to_owned(),
    }
}


/// What one scoring run reports: how many motions and votes were
/// scored, how many results rested on insufficient evidence, and how
/// many carried any flag at all.
#[derive(Clone, Copy, Debug, PartialEq, Eq, Structural)]
pub struct WindowCounts {
    pub motions_scored: usize,
    pub votes_scored: usize,
    pub insufficient: usize,
    pub flagged: usize,
}

/// How many of the records satisfy the predicate.
pub open spec fn spec_count_matching(
    recs: Seq<DecisionScore>,
    p: spec_fn(DecisionScore) -> bool,
) -> int
    decreases recs.len(),
{
    if recs.len() == 0 {
        0
    } else {
        spec_count_matching(recs.drop_last(), p) + if p(recs.last()) {
            1int
        } else {
            0int
        }
    }
}

/// A motion-level record carries no vote identity.
pub open spec fn is_motion_record(r: DecisionScore) -> bool {
    r.vote_id is None
}

/// A vote-level record carries a vote identity.
pub open spec fn is_vote_record(r: DecisionScore) -> bool {
    r.vote_id is Some
}

/// A record resting on insufficient evidence carries the flag.
pub open spec fn is_insufficient_record(r: DecisionScore) -> bool {
    r.flags.deep_view().contains("insufficient_evidence"@)
}

/// A flagged record carries at least one flag.
pub open spec fn is_flagged_record(r: DecisionScore) -> bool {
    r.flags.deep_view().len() > 0
}

/// Tally one run's records: motion-level and vote-level records, those
/// flagged as resting on insufficient evidence, and those carrying any
/// flag at all.
#[verifier::loop_isolation(false)]
pub fn window_counts(scores: &Vec<DecisionScore>) -> (r: WindowCounts)
    ensures
        r.motions_scored as int == spec_count_matching(scores@, |s: DecisionScore| is_motion_record(s)),
        r.votes_scored as int == spec_count_matching(scores@, |s: DecisionScore| is_vote_record(s)),
        r.insufficient as int == spec_count_matching(
            scores@,
            |s: DecisionScore| is_insufficient_record(s),
        ),
        r.flagged as int == spec_count_matching(scores@, |s: DecisionScore| is_flagged_record(s)),
        r.motions_scored + r.votes_scored == scores@.len(),
{
    let mut motions_scored: usize = 0;
    let mut votes_scored: usize = 0;
    let mut insufficient: usize = 0;
    let mut flagged: usize = 0;
    let mut i: usize = 0;
    proof {
        assert(scores@.take(0) =~= Seq::<DecisionScore>::empty());
    }
    while i < scores.len()
        invariant
            i <= scores@.len(),
            motions_scored as int == spec_count_matching(
                scores@.take(i as int),
                |s: DecisionScore| is_motion_record(s),
            ),
            votes_scored as int == spec_count_matching(
                scores@.take(i as int),
                |s: DecisionScore| is_vote_record(s),
            ),
            insufficient as int == spec_count_matching(
                scores@.take(i as int),
                |s: DecisionScore| is_insufficient_record(s),
            ),
            flagged as int == spec_count_matching(
                scores@.take(i as int),
                |s: DecisionScore| is_flagged_record(s),
            ),
            motions_scored + votes_scored == i,
            insufficient <= i,
            flagged <= i,
        decreases scores@.len() - i,
    {
        proof {
            let next = scores@.take(i + 1);
            assert(next.drop_last() =~= scores@.take(i as int));
            assert(next.last() == scores@[i as int]);
        }
        let record = &scores[i];
        match &record.vote_id {
            None => {
                motions_scored = motions_scored + 1;
            },
            Some(_) => {
                votes_scored = votes_scored + 1;
            },
        }
        if crate::scoring::vec_contains_str(&record.flags, "insufficient_evidence") {
            insufficient = insufficient + 1;
        }
        if record.flags.len() > 0 {
            flagged = flagged + 1;
        }
        i = i + 1;
    }
    proof {
        assert(scores@.take(scores@.len() as int) =~= scores@);
    }
    WindowCounts { motions_scored, votes_scored, insufficient, flagged }
}


/// One motion of a meeting, as the persistence collaborator hands it
/// over for scoring.
#[derive(Clone, Debug)]
pub struct MotionInput {
    pub id: String,
    pub text: String,
}

/// Score every motion of one meeting against the meeting's linked
/// evidence: one persisted record and one cached score per motion, in
/// motion order.
#[verifier::loop_isolation(false)]
pub fn score_meeting_motions(
    meeting_id: &str,
    motions: &Vec<MotionInput>,
    linked_artifacts: &Vec<LinkedArtifact>,
    rubric: &Rubric,
    computed_at: &str,
) -> (r: (Vec<DecisionScore>, Vec<(String, ScoreResult)>))
    requires
        rubric.wf(),
    ensures
        r.0@.len() == motions@.len(),
        r.1@.len() == motions@.len(),
        forall|i: int|
            0 <= i < motions@.len() ==> {
                let sm = spec_motion_score(motions@[i].text@, linked_artifacts@, *rubric);
                &&& (#[trigger] r.0@[i]).model().id == "motion:"@ + motions@[i].id@
                &&& r.0@[i].model().meeting_id == Some(meeting_id@)
                &&& r.0@[i].model().motion_id == Some(motions@[i].id@)
                &&& r.0@[i].model().vote_id is None
                &&& r.0@[i].model().overall == sm.overall
                &&& r.0@[i].model().axes == sm.axes
                &&& r.0@[i].model().evidence == sm.evidence
                &&& r.0@[i].model().confidence == sm.confidence
                &&& r.0@[i].model().flags == sm.flags
                &&& r.0@[i].model().computed_at == computed_at@
                &&& r.0@[i].wf()
            },
        forall|i: int|
            0 <= i < motions@.len() ==> {
                let sm = spec_motion_score(motions@[i].text@, linked_artifacts@, *rubric);
                &&& (#[trigger] r.1@[i]).0@ == motions@[i].id@
                &&& r.1@[i].1.model() == sm
                &&& r.1@[i].1.refs_complete(*rubric)
                &&& r.1@[i].1.wf()
                &&& values_bounded(axes_view(r.1@[i].1.axis_scores@), INPUT_VALUE_LIMIT as int)
            },
{
    let mut records: Vec<DecisionScore> = Vec::new();
    let mut cached: Vec<(String, ScoreResult)> = Vec::new();
    let mut i: usize = 0;
    while i < motions.len()
        invariant
            i <= motions@.len(),
            records@.len() == i,
            cached@.len() == i,
            forall|j: int|
                0 <= j < i ==> {
                    let sm = spec_motion_score(motions@[j].text@, linked_artifacts@, *rubric);
                    &&& (#[trigger] records@[j]).model().id == "motion:"@ + motions@[j].id@
                    &&& records@[j].model().meeting_id == Some(meeting_id@)
                    &&& records@[j].model().motion_id == Some(motions@[j].id@)
                    &&& records@[j].model().vote_id is None
                    &&& records@[j].model().overall == sm.overall
                    &&& records@[j].model().axes == sm.axes
                    &&& records@[j].model().evidence == sm.evidence
                    &&& records@[j].model().confidence == sm.confidence
                    &&& records@[j].model().flags == sm.flags
                    &&& records@[j].model().computed_at == computed_at@
                    &&& records@[j].wf()
                },
            forall|j: int|
                0 <= j < i ==> {
                    let sm = spec_motion_score(motions@[j].text@, linked_artifacts@, *rubric);
                    &&& (#[trigger] cached@[j]).0@ == motions@[j].id@
                    &&& cached@[j].1.model() == sm
                    &&& cached@[j].1.refs_complete(*rubric)
                    &&& cached@[j].1.wf()
                    &&& values_bounded(axes_view(cached@[j].1.axis_scores@), INPUT_VALUE_LIMIT as int)
                },
        decreases motions@.len() - i,
    {
        let motion = &motions[i];
        let pair = score_motion_record(
            meeting_id,
            motion.id.as_str(),
            motion.text.as_str(),
            linked_artifacts,
            rubric,
            computed_at,
        );
        records.push(pair.0);
        cached.push((motion.id.clone(), pair.1));
        i = i + 1;
    }
    (records, cached)
}

/// Score every recorded cast of one vote against its motion's score:
/// one persisted record per `(name, choice)` pair, in the given order.
#[verifier::loop_isolation(false)]
pub fn score_vote_casts(
    meeting_id: &str,
    motion_id: &str,
    vote_id: &str,
    casts: &Vec<(String, VoteChoice)>,
    motion_score: &ScoreResult,
    rubric: &Rubric,
    computed_at: &str,
) -> (r: Vec<DecisionScore>)
    requires
        rubric.wf(),
        motion_score.wf(),
        values_bounded(axes_view(motion_score.axis_scores@), INPUT_VALUE_LIMIT as int),
    ensures
        r@.len() == casts@.len(),
        forall|i: int|
            0 <= i < casts@.len() ==> {
                let sm = spec_vote_score(
                    axes_view(motion_score.axis_scores@),
                    casts@[i].1,
                    *rubric,
                );
                &&& (#[trigger] r@[i]).model().id == "vote:"@ + vote_id@ + ":"@
                    + crate::text::slug_of(casts@[i].0@)
                &&& r@[i].model().meeting_id == Some(meeting_id@)
                &&& r@[i].model().motion_id == Some(motion_id@)
                &&& r@[i].model().vote_id == Some(vote_id@)
                &&& r@[i].model().overall == sm.overall
                &&& r@[i].model().axes == sm.axes
                &&& r@[i].model().evidence == sm.evidence.push("official:"@ + casts@[i].0@)
                &&& r@[i].model().confidence == sm.confidence
                &&& r@[i].model().flags == sm.flags
                &&& r@[i].model().computed_at == computed_at@
                &&& r@[i].wf()
            },
{
    let mut records: Vec<DecisionScore> = Vec::new();
    let mut i: usize = 0;
    while i < casts.len()
        invariant
            i <= casts@.len(),
            records@.len() == i,
            forall|j: int|
                0 <= j < i ==> {
                    let sm = spec_vote_score(
                        axes_view(motion_score.axis_scores@),
                        casts@[j].1,
                        *rubric,
                    );
                    &&& (#[trigger] records@[j]).model().id == "vote:"@ + vote_id@ + ":"@
                        + crate::text::slug_of(casts@[j].0@)
                    &&& records@[j].model().meeting_id == Some(meeting_id@)
                    &&& records@[j].model().motion_id == Some(motion_id@)
                    &&& records@[j].model().vote_id == Some(vote_id@)
                    &&& records@[j].model().overall == sm.overall
                    &&& records@[j].model().axes == sm.axes
                    &&& records@[j].model().evidence == sm.evidence.push(
                        "official:"@ + casts@[j].0@,
                    )
                    &&& records@[j].model().confidence == sm.confidence
                    &&& records@[j].model().flags == sm.flags
                    &&& records@[j].model().computed_at == computed_at@
                    &&& records@[j].wf()
                },
        decreases casts@.len() - i,
    {
        let record = score_vote_cast(
            meeting_id,
            motion_id,
            vote_id,
            casts[i].0.as_str(),
            casts[i].1,
            motion_score,
            rubric,
            computed_at,
        );
        records.push(record);
        i = i + 1;
    }
    records
}

} // verus!
