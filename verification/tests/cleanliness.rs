use code_judge::models::Note;
use code_judge::scoring::cleanliness::score_cleanliness;

fn kinds(notes: &[Note]) -> Vec<(usize, String, String)> {
    notes.iter().map(|n| (n.line, n.kind.clone(), n.severity.clone())).collect()
}

fn k(line: usize, kind: &str, sev: &str) -> (usize, String, String) {
    (line, kind.to_string(), sev.to_string())
}

#[test]
fn clean_file_scores_full() {
    let mut notes = Vec::new();
    assert_eq!(score_cleanliness("fn main() {}\n", 100, &mut notes), 100);
    assert!(notes.is_empty());
}

#[test]
fn empty_file_scores_full() {
    let mut notes = Vec::new();
    assert_eq!(score_cleanliness("", 100, &mut notes), 100);
    assert!(notes.is_empty());
}

#[test]
fn trailing_whitespace_and_tab_indent() {
    let mut notes = Vec::new();
    assert_eq!(score_cleanliness("a \n\tb\n", 100, &mut notes), 0);
    assert_eq!(
        kinds(&notes),
        vec![k(1, "trailing_whitespace", "info"), k(2, "tab_indentation", "info")]
    );
    assert_eq!(notes[0].msg, "Trailing whitespace detected");
    assert_eq!(notes[1].msg, "Tab character found in indentation");
}

#[test]
fn missing_final_newline() {
    let mut notes = Vec::new();
    assert_eq!(score_cleanliness("x", 100, &mut notes), 0);
    assert_eq!(kinds(&notes), vec![k(0, "missing_final_newline", "info")]);
    assert_eq!(notes[0].msg, "File does not end with a newline");
}

#[test]
fn byte_order_mark() {
    let mut notes = Vec::new();
    assert_eq!(score_cleanliness("\u{FEFF}x\n", 100, &mut notes), 0);
    assert_eq!(kinds(&notes), vec![k(1, "bom_present", "info")]);
    assert_eq!(notes[0].msg, "File starts with a UTF-8 BOM; prefer no BOM");
}

#[test]
fn long_lines_except_urls() {
    let mut notes = Vec::new();
    let code = "abcdefgh\nhttps://example.com/very/long\n";
    assert_eq!(score_cleanliness(code, 5, &mut notes), 50);
    assert_eq!(kinds(&notes), vec![k(1, "line_length", "info")]);
    assert_eq!(notes[0].msg, "Line exceeds 5 chars (8 chars)");
}

#[test]
fn line_length_counts_characters() {
    let mut notes = Vec::new();
    assert_eq!(score_cleanliness("ééééé\n", 5, &mut notes), 100);
    assert!(notes.is_empty());
}

#[test]
fn control_character_column_in_bytes() {
    let mut notes = Vec::new();
    assert_eq!(score_cleanliness("a\u{7}b\n", 100, &mut notes), 0);
    assert_eq!(kinds(&notes), vec![k(1, "control_character", "warn")]);
    assert_eq!(notes[0].msg, "Control character U+0007 at col 2");
    let mut notes = Vec::new();
    score_cleanliness("é\u{1}\n", 100, &mut notes);
    assert_eq!(notes[0].msg, "Control character U+0001 at col 3");
    let mut notes = Vec::new();
    score_cleanliness("x\u{200B}\n", 100, &mut notes);
    assert_eq!(notes[0].msg, "Control character U+200B at col 2");
}

#[test]
fn todo_marker_costs_nothing() {
    let mut notes = Vec::new();
    assert_eq!(score_cleanliness("// ToDo: x\n", 100, &mut notes), 100);
    assert_eq!(kinds(&notes), vec![k(1, "todo_marker", "info")]);
    assert_eq!(notes[0].msg, "Found TODO/FIXME marker");
}

#[test]
fn consecutive_blank_lines() {
    let mut notes = Vec::new();
    assert_eq!(score_cleanliness("a\n\n\nb\n", 100, &mut notes), 75);
    assert_eq!(kinds(&notes), vec![k(3, "excess_blank_lines", "info")]);
    assert_eq!(notes[0].msg, "Too many consecutive blank lines");
}

#[test]
fn trailing_blank_line() {
    let mut notes = Vec::new();
    assert_eq!(score_cleanliness("a\n\n", 100, &mut notes), 50);
    assert_eq!(kinds(&notes), vec![k(2, "trailing_blank_lines", "info")]);
    assert_eq!(notes[0].msg, "Trailing blank lines at EOF");
}

#[test]
fn mixed_indentation() {
    let mut notes = Vec::new();
    assert_eq!(score_cleanliness("\ta\n  b\n", 100, &mut notes), 0);
    assert_eq!(
        kinds(&notes),
        vec![k(1, "tab_indentation", "info"), k(0, "mixed_indentation", "warn")]
    );
    assert_eq!(notes[1].msg, "Mixed tabs and spaces across file");
}

#[test]
fn carriage_returns() {
    let mut notes = Vec::new();
    assert_eq!(score_cleanliness("a\r\nb\r\n", 100, &mut notes), 100);
    assert!(notes.is_empty());
    let mut notes = Vec::new();
    assert_eq!(score_cleanliness("a\r", 100, &mut notes), 0);
    assert_eq!(
        kinds(&notes),
        vec![k(0, "missing_final_newline", "info"), k(1, "carriage_return", "info")]
    );
    assert_eq!(notes[1].msg, "Line ends with a CR; prefer LF-only");
}

#[test]
fn normalized_by_line_count() {
    let mut small = Vec::new();
    let mut big = Vec::new();
    let s: String = (0..10).map(|i| if i == 0 { "x \n".to_string() } else { format!("y{}\n", i) }).collect();
    let b: String = (0..100)
        .map(|i| if i % 10 == 0 { format!("x{} \n", i) } else { format!("y{}\n", i) })
        .collect();
    assert_eq!(score_cleanliness(&s, 100, &mut small), 90);
    assert_eq!(score_cleanliness(&b, 100, &mut big), 90);
    assert_eq!(big.len(), 10);
}

#[test]
fn existing_notes_are_kept() {
    let mut notes = vec![Note { line: 7, kind: "k".to_string(), severity: "s".to_string(), msg: "m".to_string() }];
    score_cleanliness("x", 100, &mut notes);
    assert_eq!(notes.len(), 2);
    assert_eq!(notes[0].line, 7);
    assert_eq!(notes[0].kind, "k");
}
