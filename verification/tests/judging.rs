use code_judge::scoring::compute_all;
use code_judge::scoring::correctness::python::python_indent_slicing_ok;
use code_judge::scoring::language::Language;
use code_judge::scoring::{add_insight, normalized_score};
use code_judge::scoring::cleanliness::score_cleanliness;
use code_judge::scoring::structure::normalize_line_for_dups;
use code_judge::state::AppState;

#[test]
fn clean_rust_file() {
    let (resp, status) = compute_all("fn main() {}\n", Language::Rust, 100);
    assert_eq!(status.as_u16(), 200);
    assert_eq!((resp.cleanliness, resp.correctness, resp.structure, resp.overall), (100, 100, 100, 100));
    assert_eq!(resp.notes.len(), 3);
    let kinds: Vec<&str> = resp.notes.iter().map(|n| n.kind.as_str()).collect();
    assert_eq!(kinds, vec!["cleanliness_advice", "correctness_advice", "structure_advice"]);
    assert_eq!(resp.notes[0].msg, "Excellent cleanliness! Minor polish only.");
    assert_eq!(resp.notes[1].msg, "Excellent correctness; code appears to behave as expected.");
    assert_eq!(resp.notes[2].msg, "Excellent structure; code is cleanly organized.");
    assert!(resp.notes.iter().all(|n| n.line == 0 && n.severity == "info"));
}

#[test]
fn overall_is_mean_rounded_down() {
    let (resp, _) = compute_all("x = 1\nx = 1\nx = 1\n", Language::Unknown, 100);
    assert_eq!((resp.cleanliness, resp.correctness, resp.structure), (100, 100, 33));
    assert_eq!(resp.overall, 77);
    assert_eq!(resp.notes.len(), 4);
    assert_eq!(resp.notes[3].msg, "Weak structure: too many small functions or repeated code.");
}

#[test]
fn advice_bands() {
    let (resp, _) = compute_all("x", Language::Javascript, 100);
    assert_eq!((resp.cleanliness, resp.correctness, resp.structure), (0, 0, 100));
    assert_eq!(
        resp.notes[2].msg,
        "Cleanliness is critically low; lots of trailing whitespace,\n                        inconsistent indentation, or extremely long lines."
    );
    assert_eq!(
        resp.notes[3].msg,
        "Correctness very low: syntax errors or major logic issues.\n                        Run the code and address all compile/runtime errors."
    );
    assert_eq!(resp.overall, 33);
}

#[test]
fn findings_come_in_category_order() {
    let (resp, _) = compute_all("let x = 1", Language::Javascript, 100);
    let kinds: Vec<&str> = resp.notes.iter().map(|n| n.kind.as_str()).collect();
    assert_eq!(
        kinds,
        vec!["missing_final_newline", "js_semicolon", "cleanliness_advice", "correctness_advice", "structure_advice"]
    );
}

#[test]
fn per_line_normalization() {
    assert_eq!(normalized_score(0, 0), 100);
    assert_eq!(normalized_score(0, 5), 100);
    assert_eq!(normalized_score(1, 3), 66);
    assert_eq!(normalized_score(1, 2), 50);
    assert_eq!(normalized_score(3, 2), 0);
    assert_eq!(normalized_score(2, 2), 0);
    assert_eq!(normalized_score(10, 100), normalized_score(100, 1000));
    assert_eq!(normalized_score(10, 100), 90);
}

#[test]
fn python_slicing_precondition() {
    assert!(python_indent_slicing_ok("def f():\n    x = 1\n"));
    assert!(python_indent_slicing_ok("\u{a0}\u{a0}\n"));
    assert!(!python_indent_slicing_ok("\u{a0}x = 1\n"));
    assert!(python_indent_slicing_ok("\u{a0}\u{a0}x = 1\n"));
}

#[test]
fn app_state_holds_limits() {
    let st = AppState::new(120, 1 << 20);
    assert_eq!(st.max_line_len, 120);
    assert_eq!(st.max_body_bytes, 1 << 20);
}

#[test]
fn advice_by_twenty_point_band() {
    let msg = |score: u32, cat: &str| {
        let mut notes = Vec::new();
        add_insight(score, cat, &mut notes);
        assert_eq!(notes.len(), 1);
        assert_eq!(notes[0].kind, format!("{}_advice", cat));
        assert_eq!((notes[0].line, notes[0].severity.as_str()), (0, "info"));
        notes.remove(0).msg
    };
    for cat in ["cleanliness", "correctness", "structure"] {
        assert_eq!(msg(0, cat), msg(19, cat));
        assert_ne!(msg(19, cat), msg(20, cat));
        assert_eq!(msg(20, cat), msg(39, cat));
        assert_ne!(msg(59, cat), msg(60, cat));
        assert_ne!(msg(79, cat), msg(80, cat));
        assert_eq!(msg(80, cat), msg(100, cat));
    }
    assert_eq!(msg(101, "cleanliness"), "Cleanliness score uncertain.");
    assert_eq!(msg(150, "correctness"), "Correctness score 150");
    assert_eq!(msg(7, "style"), "style score: 7");
}

#[test]
fn larger_length_limit_never_lowers_cleanliness() {
    let code = format!("{}
{}
", "a".repeat(50), "b".repeat(90));
    let score = |max: usize| {
        let mut notes = Vec::new();
        score_cleanliness(&code, max, &mut notes)
    };
    assert_eq!(score(40), 0);
    assert_eq!(score(60), 50);
    assert_eq!(score(100), 100);
    assert!(score(40) <= score(60) && score(60) <= score(100));
}

#[test]
fn normalized_lines_are_fixed_points() {
    let s: Vec<char> = "\t  Foo\t BAR  baz \t".chars().collect();
    let r = normalize_line_for_dups(&s);
    let text: String = r.iter().collect();
    assert_eq!(text, "foo bar baz");
    assert_eq!(normalize_line_for_dups(&r), r);
}
