//! The record shapes this engine consumes: artifacts, meetings, motions
//! and votes, as the persistence collaborator hands them over.

use vstd::prelude::*;
use crate::text::str_is_blank;

verus! {

/// Where a document came from.
#[derive(Clone, Debug)]
pub struct SourceRef {
    pub kind: String,
    pub value: String,
    pub retrieved_at: String,
}

/// A collected document with its collector-assigned tags.
#[derive(Clone, Debug)]
pub struct Artifact {
    pub id: String,
    pub source: SourceRef,
    pub title: Option<String>,
    pub body_text: Option<String>,
    pub content_type: Option<String>,
    pub tags: Vec<String>,
}

/// A governing body.
#[derive(Clone, Debug)]
pub struct Body {
    pub id: String,
    pub name: String,
    pub kind: String,
    pub jurisdiction: String,
}

/// A motion inside a meeting record.
#[derive(Clone, Debug)]
pub struct Motion {
    pub text: String,
    pub result: Option<String>,
}

/// A meeting with its linked artifacts and motions.
#[derive(Clone, Debug)]
pub struct Meeting {
    pub id: String,
    pub body_id: String,
    pub started_at: String,
    pub artifact_ids: Vec<String>,
    pub motions: Vec<Motion>,
}

/// A meeting as a decision record.
#[derive(Clone, Debug)]
pub struct DecisionMeeting {
    pub id: String,
    pub body_id: String,
    pub body_name: Option<String>,
    pub started_at: String,
    pub meeting_type: Option<String>,
    pub artifact_ids: Vec<String>,
}

/// A motion as a decision record.
#[derive(Clone, Debug)]
pub struct DecisionMotion {
    pub id: String,
    pub meeting_id: String,
    pub index: usize,
    pub text: String,
    pub moved_by: Option<String>,
    pub seconded_by: Option<String>,
    pub result: Option<String>,
}

/// A recorded vote: who voted aye, nay, and abstained.
#[derive(Clone, Debug)]
pub struct DecisionVote {
    pub id: String,
    pub motion_id: String,
    pub vote_type: Option<String>,
    pub outcome: Option<String>,
    pub ayes: Vec<String>,
    pub nays: Vec<String>,
    pub abstain: Vec<String>,
}

/// A meeting with its motions and votes, bundled for ingestion.
#[derive(Clone, Debug)]
pub struct DecisionBundle {
    pub meeting: DecisionMeeting,
    pub motions: Vec<DecisionMotion>,
    pub votes: Vec<DecisionVote>,
}

/// A data error: a required field of an input record is empty or blank.
#[derive(Clone, Debug)]
pub enum RecordError {
    EmptyField { field: &'static str },
}

impl RecordError {
    /// The name of the field that was empty or blank.
    pub fn field_name(&self) -> (r: &'static str)
        ensures
            self matches RecordError::EmptyField { field } && r == field,
    {
        match self {
            RecordError::EmptyField { field } => field,
        }
    }
}

/// Check the fields an artifact must carry: a non-blank id and a
/// non-blank source kind, value and retrieval timestamp, tested in
/// that order.
pub fn validate_artifact(a: &Artifact) -> (r: Result<(), RecordError>)
    ensures
        r is Ok <==> {
            &&& !crate::text::is_blank(a.id@)
            &&& !crate::text::is_blank(a.source.kind@)
            &&& !crate::text::is_blank(a.source.value@)
            &&& !crate::text::is_blank(a.source.retrieved_at@)
        },
        r matches Err(RecordError::EmptyField { field }) ==> {
            ||| (field@ == "Artifact.id"@ && crate::text::is_blank(a.id@))
            ||| (field@ == "Artifact.source.kind"@ && crate::text::is_blank(a.source.kind@))
            ||| (field@ == "Artifact.source.value"@ && crate::text::is_blank(a.source.value@))
            ||| (field@ == "Artifact.source.retrieved_at"@ && crate::text::is_blank(
                a.source.retrieved_at@,
            ))
        },
{
    if str_is_blank(a.id.as_str()) {
        return Err(RecordError::EmptyField { field: "Artifact.id" });
    }
    if str_is_blank(a.source.kind.as_str()) {
        return Err(RecordError::EmptyField { field: "Artifact.source.kind" });
    }
    if str_is_blank(a.source.value.as_str()) {
        return Err(RecordError::EmptyField { field: "Artifact.source.value" });
    }
    if str_is_blank(a.source.retrieved_at.as_str()) {
        return Err(RecordError::EmptyField { field: "Artifact.source.retrieved_at" });
    }
    Ok(())
}

/// Check the fields a meeting must carry: a non-blank id, body id and
/// start timestamp, tested in that order.
pub fn validate_meeting(meeting: &Meeting) -> (r: Result<(), RecordError>)
    ensures
        r is Ok <==> {
            &&& !crate::text::is_blank(meeting.id@)
            &&& !crate::text::is_blank(meeting.body_id@)
            &&& !crate::text::is_blank(meeting.started_at@)
        },
        r matches Err(RecordError::EmptyField { field }) ==> {
            ||| (field@ == "Meeting.id"@ && crate::text::is_blank(meeting.id@))
            ||| (field@ == "Meeting.body_id"@ && crate::text::is_blank(meeting.body_id@))
            ||| (field@ == "Meeting.started_at"@ && crate::text::is_blank(meeting.started_at@))
        },
{
    if str_is_blank(meeting.id.as_str()) {
        return Err(RecordError::EmptyField { field: "Meeting.id" });
    }
    if str_is_blank(meeting.body_id.as_str()) {
        return Err(RecordError::EmptyField { field: "Meeting.body_id" });
    }
    if str_is_blank(meeting.started_at.as_str()) {
        return Err(RecordError::EmptyField { field: "Meeting.started_at" });
    }
    Ok(())
}

} // verus!
