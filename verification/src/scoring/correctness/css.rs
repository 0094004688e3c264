//! CSS heuristics: incomplete stylesheet, properties without `;` or `:`,
//! empty rules.
use crate::models::{lemma_note_if, note, note_if, note_views, push_note, Note, NoteView};
use crate::scoring::cleanliness::b2n;
use crate::text::{
    char_is_alphabetic, contains, contains_str, ends_with, ends_with_str, lines_of, split_lines,
    starts_with, starts_with_str, texts, to_chars, trim, trim_chars, unicode_alphabetic,
};
use vstd::prelude::*;
use vstd::string::StringExecFns;

verus! {

/// Some character of the text is alphabetic.
pub open spec fn has_alphabetic(s: Seq<char>) -> bool {
    exists|k: int| 0 <= k < s.len() && unicode_alphabetic(s[k])
}

/// The stylesheet, trimmed, is not empty and ends with neither `}` nor `;`.
pub open spec fn css_incomplete(code: Seq<char>) -> bool {
    let t = trim(code);
    t.len() > 0 && !ends_with(t, "}"@) && !ends_with(t, ";"@)
}

/// The line state carried from one line to the next.
pub struct CssScan {
    pub penalties: nat,
    pub notes: Seq<NoteView>,
    pub in_block: bool,
    pub prop_since_open: bool,
}

/// Inside a rule (or on the line that opens one), a property line
/// (`name: value`, not opening a block, not an at-rule) that ends in neither
/// `;` nor `}` costs at least 1 and gets a `css_property_no_semicolon` note
/// first; a line ending in `;` never gets that note.
pub proof fn lemma_css_semicolon(st: CssScan, raw: Seq<char>, line_no: nat)
    ensures
        ({
            let t = trim(raw);
            let r = css_step(st, raw, line_no);
            &&& t.len() > 0 && !starts_with(t, "/*"@) && (st.in_block || contains(t, "{"@)) && contains(
                t,
                ":"@,
            ) && !ends_with(t, "{"@) && !starts_with(t, "@"@) && !ends_with(t, ";"@) && !ends_with(
                t,
                "}"@,
            ) ==> r.penalties >= st.penalties + 1 && r.notes.len() > st.notes.len()
                && r.notes[st.notes.len() as int].kind == "css_property_no_semicolon"@
            &&& ends_with(t, ";"@) ==> forall|j: int|
                st.notes.len() <= j < r.notes.len() ==> (#[trigger] r.notes[j]).kind
                    != "css_property_no_semicolon"@
        }),
{
    reveal_strlit("css_property_no_semicolon");
    reveal_strlit("css_property_no_colon");
    reveal_strlit("css_empty_rule");
    assert("css_property_no_semicolon"@.len() != "css_property_no_colon"@.len());
    assert("css_property_no_semicolon"@.len() != "css_empty_rule"@.len());
}

/// One line of the CSS scan.
pub open spec fn css_step(st: CssScan, raw: Seq<char>, line_no: nat) -> CssScan {
    let line = trim(raw);
    if (starts_with(line, "/*"@) && ends_with(line, "*/"@)) || line.len() == 0 {
        st
    } else {
        let opens = contains(line, "{"@);
        let in_block = st.in_block || opens;
        let prop0 = if opens { false } else { st.prop_since_open };
        let is_prop = in_block && contains(line, ":"@) && !ends_with(line, "{"@) && !starts_with(line, "@"@);
        let no_semi = is_prop && !ends_with(line, ";"@) && !ends_with(line, "}"@);
        let no_colon = in_block && !is_prop && !contains(line, "}"@) && !ends_with(line, "{"@) && !starts_with(
            line,
            "@"@,
        ) && has_alphabetic(line) && !starts_with(line, "--"@);
        let prop = prop0 || is_prop;
        let closes = contains(line, "}"@);
        let empty_rule = closes && !prop;
        CssScan {
            penalties: st.penalties + b2n(no_semi) + 2 * b2n(no_colon) + b2n(empty_rule),
            notes: st.notes + note_if(
                no_semi,
                note(line_no, "css_property_no_semicolon"@, "info"@, "CSS property likely missing trailing ';'"@),
            ) + note_if(
                no_colon,
                note(
                    line_no,
                    "css_property_no_colon"@,
                    "warn"@,
                    "Line inside a block may be a property but has no ':'"@,
                ),
            ) + note_if(
                empty_rule,
                note(line_no, "css_empty_rule"@, "info"@, "Empty CSS rule (no properties between braces)"@),
            ),
            in_block: if closes { false } else { in_block },
            prop_since_open: prop,
        }
    }
}

/// The CSS scan over the first `n` lines.
pub open spec fn css_scan(lines: Seq<Seq<char>>, n: nat) -> CssScan
    decreases n,
{
    if n == 0 {
        CssScan { penalties: 0, notes: Seq::empty(), in_block: false, prop_since_open: false }
    } else {
        css_step(css_scan(lines, (n - 1) as nat), lines[n - 1], n)
    }
}

/// The CSS findings of a text: penalty and notes.
pub open spec fn css_findings(code: Seq<char>) -> (nat, Seq<NoteView>) {
    let lines = lines_of(code);
    let s = css_scan(lines, lines.len());
    (
        2 * b2n(css_incomplete(code)) + s.penalties,
        note_if(
            css_incomplete(code),
            note(0, "css_maybe_incomplete"@, "info"@, "CSS may be incomplete (does not end with '}' or ';')"@),
        ) + s.notes,
    )
}

fn any_alphabetic(s: &[char]) -> (b: bool)
    ensures
        b == has_alphabetic(s@),
{
    let mut i: usize = 0;
    while i < s.len()
        invariant
            i <= s@.len(),
            forall|k: int| 0 <= k < i ==> !unicode_alphabetic(s@[k]),
        decreases s@.len() - i,
    {
        if char_is_alphabetic(s[i]) {
            return true;
        }
        i = i + 1;
    }
    false
}

/// One line of the CSS scan, appending its notes; returns the penalty.
fn css_line(
    notes: &mut Vec<Note>,
    raw: &[char],
    line_no: usize,
    in_block: &mut bool,
    prop_since_open: &mut bool,
    Ghost(prev): Ghost<CssScan>,
) -> (p: u128)
    requires
        *old(in_block) == prev.in_block,
        *old(prop_since_open) == prev.prop_since_open,
    ensures
        p + prev.penalties == css_step(prev, raw@, line_no as nat).penalties,
        p <= 4,
        *final(in_block) == css_step(prev, raw@, line_no as nat).in_block,
        *final(prop_since_open) == css_step(prev, raw@, line_no as nat).prop_since_open,
        note_views(final(notes)@) == note_views(old(notes)@) + (css_step(
            prev,
            raw@,
            line_no as nat,
        ).notes.skip(prev.notes.len() as int)),
        css_step(prev, raw@, line_no as nat).notes == prev.notes + css_step(prev, raw@, line_no as nat).notes.skip(
            prev.notes.len() as int,
        ),
{
    let ghost next = css_step(prev, raw@, line_no as nat);
    let ghost base = note_views(notes@);
    let line = trim_chars(raw);
    if (starts_with_str(&line, "/*") && ends_with_str(&line, "*/")) || line.len() == 0 {
        assert(next.notes.skip(prev.notes.len() as int) =~= Seq::<NoteView>::empty());
        assert(base + Seq::<NoteView>::empty() =~= base);
        return 0;
    }
    let mut p: u128 = 0;
    let opens = contains_str(&line, "{");
    if opens {
        *in_block = true;
        *prop_since_open = false;
    }
    let is_prop = *in_block && contains_str(&line, ":") && !ends_with_str(&line, "{") && !starts_with_str(
        &line,
        "@",
    );
    let no_semi = is_prop && !ends_with_str(&line, ";") && !ends_with_str(&line, "}");
    let no_colon = *in_block && !is_prop && !contains_str(&line, "}") && !ends_with_str(&line, "{")
        && !starts_with_str(&line, "@") && any_alphabetic(&line) && !starts_with_str(&line, "--");
    if is_prop {
        *prop_since_open = true;
    }
    let ghost g1 = note_if(
        no_semi,
        note(line_no as nat, "css_property_no_semicolon"@, "info"@, "CSS property likely missing trailing ';'"@),
    );
    let ghost g2 = note_if(
        no_colon,
        note(
            line_no as nat,
            "css_property_no_colon"@,
            "warn"@,
            "Line inside a block may be a property but has no ':'"@,
        ),
    );
    if no_semi {
        push_note(
            notes,
            line_no,
            "css_property_no_semicolon",
            "info",
            String::from_str("CSS property likely missing trailing ';'"),
        );
        p = p + 1;
    }
    proof {
        lemma_note_if(
            base,
            no_semi,
            note(line_no as nat, "css_property_no_semicolon"@, "info"@, "CSS property likely missing trailing ';'"@),
        );
    }
    let ghost v1 = note_views(notes@);
    if no_colon {
        push_note(
            notes,
            line_no,
            "css_property_no_colon",
            "warn",
            String::from_str("Line inside a block may be a property but has no ':'"),
        );
        p = p + 2;
    }
    proof {
        lemma_note_if(
            v1,
            no_colon,
            note(
                line_no as nat,
                "css_property_no_colon"@,
                "warn"@,
                "Line inside a block may be a property but has no ':'"@,
            ),
        );
    }
    let ghost v2 = note_views(notes@);
    let closes = contains_str(&line, "}");
    let empty_rule = closes && !*prop_since_open;
    let ghost g3 = note_if(
        empty_rule,
        note(line_no as nat, "css_empty_rule"@, "info"@, "Empty CSS rule (no properties between braces)"@),
    );
    if closes {
        if !*prop_since_open {
            push_note(
                notes,
                line_no,
                "css_empty_rule",
                "info",
                String::from_str("Empty CSS rule (no properties between braces)"),
            );
            p = p + 1;
        }
        *in_block = false;
    }
    proof {
        lemma_note_if(
            v2,
            empty_rule,
            note(line_no as nat, "css_empty_rule"@, "info"@, "Empty CSS rule (no properties between braces)"@),
        );
    }
    assert(next.notes == prev.notes + g1 + g2 + g3);
    assert(next.notes.skip(prev.notes.len() as int) =~= g1 + g2 + g3);
    assert(next.notes =~= prev.notes + (g1 + g2 + g3));
    assert(note_views(notes@) == base + g1 + g2 + g3);
    assert(note_views(notes@) + Seq::<NoteView>::empty() =~= base + (g1 + g2 + g3));
    p
}

/// CSS checks: a stylesheet that does not end with `}` or `;`, properties
/// without a trailing `;`, block lines without `:`, rules with no
/// property. Appends a note per issue; returns the penalty.
pub fn check_css_rules(code: &[char], notes: &mut Vec<Note>) -> (p: u128)
    ensures
        p <= 0x40_0000_0000_0000_0000,
        p == css_findings(code@).0,
        note_views(final(notes)@) == note_views(old(notes)@) + css_findings(code@).1,
{
    let ghost base = note_views(notes@);
    let mut p: u128 = 0;
    let t = trim_chars(code);
    let incomplete = t.len() > 0 && !ends_with_str(&t, "}") && !ends_with_str(&t, ";");
    if incomplete {
        push_note(
            notes,
            0,
            "css_maybe_incomplete",
            "info",
            String::from_str("CSS may be incomplete (does not end with '}' or ';')"),
        );
        p = 2;
    }
    proof {
        lemma_note_if(
            base,
            incomplete,
            note(0, "css_maybe_incomplete"@, "info"@, "CSS may be incomplete (does not end with '}' or ';')"@),
        );
    }
    let ghost head = note_views(notes@);
    let lines = split_lines(code);
    let ghost ls = lines_of(code@);
    let mut in_block = false;
    let mut prop_since_open = false;
    let mut i: usize = 0;
    assert(head + css_scan(ls, 0).notes =~= head);
    while i < lines.len()
        invariant
            texts(lines@) == ls,
            i <= lines@.len(),
            in_block == css_scan(ls, i as nat).in_block,
            prop_since_open == css_scan(ls, i as nat).prop_since_open,
            p == 2 * b2n(css_incomplete(code@)) + css_scan(ls, i as nat).penalties,
            p <= 2 + 4 * i,
            note_views(notes@) == head + css_scan(ls, i as nat).notes,
        decreases lines@.len() - i,
    {
        assert(lines@[i as int]@ == ls[i as int]);
        let ghost prev = css_scan(ls, i as nat);
        let ghost v = note_views(notes@);
        let q = css_line(notes, &lines[i], i + 1, &mut in_block, &mut prop_since_open, Ghost(prev));
        let ghost next = css_scan(ls, (i + 1) as nat);
        assert(note_views(notes@) =~= head + next.notes) by {
            assert(next.notes == prev.notes + next.notes.skip(prev.notes.len() as int));
            assert(note_views(notes@) =~= note_views(notes@) + Seq::<NoteView>::empty());
        }
        p = p + q;
        i = i + 1;
    }
    assert(note_views(notes@) =~= base + css_findings(code@).1);
    p
}

} // verus!
