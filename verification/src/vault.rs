//! The note vault's layout and note-text building blocks: directory
//! paths, index titles, and the YAML block-scalar indentation the note
//! frontmatter uses. Writing the notes to disk is a collaborator's job.

use vstd::prelude::*;

verus! {

/// Where the vault keeps its indexes, artifact notes and meeting notes.
#[derive(Clone, Debug)]
pub struct VaultPaths {
    pub root: String,
    pub index_dir: String,
    pub artifacts_dir: String,
    pub meetings_dir: String,
}

impl VaultPaths {
    /// The vault's directory layout under a root path.
    pub fn new(root: String) -> (r: VaultPaths)
        ensures
            r.root@ == root@,
            r.index_dir@ == root@ + "/00_Index"@,
            r.artifacts_dir@ == root@ + "/Artifacts"@,
            r.meetings_dir@ == root@ + "/Meetings"@,
    {
        let mut index_dir = root.clone();
        index_dir.append("/00_Index");
        let mut artifacts_dir = root.clone();
        artifacts_dir.append("/Artifacts");
        let mut meetings_dir = root.clone();
        meetings_dir.append("/Meetings");
        VaultPaths { root, index_dir, artifacts_dir, meetings_dir }
    }
}

/// One stored artifact, as the vault renders it.
#[derive(Clone, Debug)]
pub struct ArtifactRow {
    pub id: String,
    pub source_kind: String,
    pub source_value: String,
    pub retrieved_at: String,
    pub title: Option<String>,
    pub content_type: Option<String>,
    pub body_text: Option<String>,
    pub tags_json: String,
}

impl ArtifactRow {
    /// The artifact's index line title: its title, or its id.
    pub fn index_title(&self) -> (r: String)
        ensures
            match self.title {
                Some(t) => r@ == t@,
                None => r@ == self.id@,
            },
    {
        match &self.title {
            Some(t) => t.clone(),
            None => self.id.clone(),
        }
    }
}

/// One stored meeting, as the vault renders it.
#[derive(Clone, Debug)]
pub struct MeetingRow {
    pub id: String,
    pub body_id: String,
    pub started_at: String,
    pub artifact_ids_json: String,
    pub motions_json: String,
}

impl MeetingRow {
    /// The meeting's index line title: the body and the start time.
    pub fn index_title(&self) -> (r: String)
        ensures
            r@ == self.body_id@ + " ("@ + self.started_at@ + ")"@,
    {
        let mut t = self.body_id.clone();
        t.append(" (");
        t.append(self.started_at.as_str());
        t.append(")");
        proof {
            assert(t@ =~= self.body_id@ + " ("@ + self.started_at@ + ")"@);
        }
        t
    }
}

/// How many characters the first line runs before its newline (the
/// whole sequence when no newline follows).
pub open spec fn spec_line_len(s: Seq<char>) -> int
    decreases s.len(),
{
    if s.len() == 0 {
        0
    } else if s[0] == '\n' {
        0
    } else {
        1 + spec_line_len(s.drop_first())
    }
}

/// The line length sits within the sequence, everything before it is
/// newline-free, and it stops at a newline when one exists.
proof fn lemma_line_len(s: Seq<char>)
    ensures
        0 <= spec_line_len(s) <= s.len(),
        spec_line_len(s) < s.len() ==> s[spec_line_len(s)] == '\n',
        forall|j: int| 0 <= j < spec_line_len(s) ==> s[j] != '\n',
    decreases s.len(),
{
    if s.len() > 0 && s[0] != '\n' {
        lemma_line_len(s.drop_first());
        assert(forall|j: int| 0 <= j < s.len() - 1 ==> #[trigger] s.drop_first()[j] == s[j + 1]);
        assert forall|j: int| 0 <= j < spec_line_len(s) implies s[j] != '\n' by {
            if j > 0 {
                assert(s.drop_first()[j - 1] == s[j]);
            }
        }
    }
}

/// A line with a trailing carriage return loses it.
pub open spec fn spec_strip_cr(line: Seq<char>) -> Seq<char> {
    if line.len() > 0 && line[line.len() - 1] == '\r' {
        line.drop_last()
    } else {
        line
    }
}

/// The text reshaped as a YAML block scalar: every line (split at
/// newlines, a carriage return before the newline dropped) indented by
/// two spaces and ended with a newline.
pub open spec fn spec_indent_yaml(s: Seq<char>) -> Seq<char>
    decreases s.len(),
{
    if s.len() == 0 {
        Seq::empty()
    } else {
        let nl = spec_line_len(s);
        if nl < 0 || nl >= s.len() {
            "  "@ + spec_strip_cr(s) + "\n"@
        } else {
            "  "@ + spec_strip_cr(s.take(nl)) + "\n"@ + spec_indent_yaml(s.skip(nl + 1))
        }
    }
}

/// Indent text as a YAML block scalar, two spaces per line.
#[verifier::loop_isolation(false)]
#[verifier::rlimit(100)]
pub fn indent_yaml_block(s: &str) -> (r: String)
    ensures
        r@ == spec_indent_yaml(s@),
{
    let chars = crate::text::str_to_chars(s);
    let mut out = String::new();
    let mut i: usize = 0;
    proof {
        assert(s@.skip(0) =~= s@);
        assert(out@ + spec_indent_yaml(s@) =~= spec_indent_yaml(s@));
    }
    while i < chars.len()
        invariant
            i <= chars@.len(),
            chars@ == s@,
            out@ + spec_indent_yaml(s@.skip(i as int)) == spec_indent_yaml(s@),
        decreases chars@.len() - i,
    {
        // Find the end of the current line.
        let mut j: usize = i;
        while j < chars.len() && chars[j] != '\n'
            invariant
                i <= j <= chars@.len(),
                forall|t: int| i <= t < j ==> s@[t] != '\n',
            decreases chars@.len() - j,
        {
            j = j + 1;
        }
        let ghost rest = s@.skip(i as int);
        proof {
            lemma_line_len(rest);
            assert(forall|t: int| 0 <= t < rest.len() ==> #[trigger] rest[t] == s@[i + t]);
            if j < chars@.len() {
                assert(rest[j - i] == '\n');
                if spec_line_len(rest) < j - i {
                    assert(rest[spec_line_len(rest)] != '\n');
                } else if spec_line_len(rest) > j - i {
                    assert(rest[j - i] != '\n');
                }
                assert(spec_line_len(rest) == j - i);
            } else {
                if spec_line_len(rest) < rest.len() {
                    assert(rest[spec_line_len(rest)] == '\n');
                }
                assert(spec_line_len(rest) == rest.len());
            }
        }
        // The line runs from i to j; drop a trailing carriage return.
        let line_end = if j > i && chars[j - 1] == '\r' {
            j - 1
        } else {
            j
        };
        let mut line_chars: Vec<char> = Vec::new();
        let mut t: usize = i;
        proof {
            assert(line_chars@ =~= s@.subrange(i as int, i as int));
        }
        while t < line_end
            invariant
                i <= t <= line_end,
                line_end <= chars@.len(),
                chars@ == s@,
                line_chars@ == s@.subrange(i as int, t as int),
            decreases line_end - t,
        {
            line_chars.push(chars[t]);
            proof {
                assert(line_chars@ =~= s@.subrange(i as int, t + 1));
            }
            t = t + 1;
        }
        let line_str = crate::text::string_from_chars(&line_chars);
        out.append("  ");
        out.append(line_str.as_str());
        out.append("\n");
        proof {
            let nl = spec_line_len(rest);
            let line = if nl >= rest.len() {
                rest
            } else {
                rest.take(nl)
            };
            assert(forall|t2: int| 0 <= t2 < line.len() ==> #[trigger] line[t2] == s@[i + t2]);
            assert(spec_strip_cr(line) =~= s@.subrange(i as int, line_end as int));
        }
        let ghost old_i = i as int;
        if j < chars.len() {
            i = j + 1;
        } else {
            i = j;
        }
        proof {
            let nl = spec_line_len(rest);
            if nl < rest.len() {
                assert(rest.skip(nl + 1) =~= s@.skip(i as int));
            } else {
                assert(s@.skip(i as int) =~= Seq::<char>::empty());
                assert(spec_indent_yaml(s@.skip(i as int)) =~= Seq::<char>::empty());
            }
            assert(out@ + spec_indent_yaml(s@.skip(i as int)) =~= spec_indent_yaml(s@));
        }
    }
    proof {
        assert(s@.skip(chars@.len() as int) =~= Seq::<char>::empty());
        assert(out@ =~= out@ + Seq::<char>::empty());
    }
    out
}

} // verus!
