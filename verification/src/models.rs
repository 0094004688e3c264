//! The request, response and note records exchanged with clients.
use vstd::prelude::*;
use vstd::string::StringExecFns;

verus! {

/// A judging request: the code and an optional language hint.
pub struct JudgeReq {
    pub code: String,
    pub lang: Option<String>,
}

/// The scores of a submission and the notes that explain them.
pub struct JudgeResp {
    pub cleanliness: u32,
    pub correctness: u32,
    pub structure: u32,
    pub overall: u32,
    pub notes: Vec<Note>,
}

/// One finding about the submission. `line` is 1-based; 0 means the whole
/// file. `severity` is "info", "warn" or "error".
pub struct Note {
    pub line: usize,
    pub kind: String,
    pub severity: String,
    pub msg: String,
}

/// The mathematical content of a [`Note`].
pub struct NoteView {
    pub line: nat,
    pub kind: Seq<char>,
    pub severity: Seq<char>,
    pub msg: Seq<char>,
}

impl View for Note {
    type V = NoteView;

    open spec fn view(&self) -> NoteView {
        NoteView { line: self.line as nat, kind: self.kind@, severity: self.severity@, msg: self.msg@ }
    }
}

/// The contents of a list of notes.
pub open spec fn note_views(s: Seq<Note>) -> Seq<NoteView> {
    Seq::new(s.len(), |i: int| s[i]@)
}

/// A note with the given parts.
pub open spec fn note(line: nat, kind: Seq<char>, severity: Seq<char>, msg: Seq<char>) -> NoteView {
    NoteView { line, kind, severity, msg }
}

/// The one-note list holding `n` when `cond` holds, else the empty list.
pub open spec fn note_if(cond: bool, n: NoteView) -> Seq<NoteView> {
    if cond {
        seq![n]
    } else {
        Seq::empty()
    }
}

/// Appending `note_if(cond, n)` appends `n` exactly when `cond` holds.
pub proof fn lemma_note_if(v: Seq<NoteView>, cond: bool, n: NoteView)
    ensures
        cond ==> v + note_if(cond, n) == v + seq![n],
        !cond ==> v + note_if(cond, n) == v,
{
    if !cond {
        assert(v + note_if(cond, n) =~= v);
    }
}

/// Appends a note built from its parts.
pub fn push_note(notes: &mut Vec<Note>, line: usize, kind: &str, severity: &str, msg: String)
    ensures
        note_views(final(notes)@) == note_views(old(notes)@) + seq![
            note(line as nat, kind@, severity@, msg@),
        ],
{
    let ghost before = notes@;
    notes.push(Note { line, kind: String::from_str(kind), severity: String::from_str(severity), msg });
    assert(note_views(notes@) =~= note_views(before) + seq![
        note(line as nat, kind@, severity@, msg@),
    ]);
}

} // verus!
