use code_judge::models::Note;
use code_judge::scoring::correctness::score_correctness;
use code_judge::scoring::language::Language;

fn run(code: &str, lang: Language) -> (u32, Vec<Note>) {
    let mut notes = Vec::new();
    let s = score_correctness(code, &lang, &mut notes);
    (s, notes)
}

#[test]
fn js_missing_semicolon() {
    let (s, notes) = run("let x = 1\n", Language::Javascript);
    assert_eq!(s, 0);
    assert_eq!(notes.len(), 1);
    assert_eq!(notes[0].kind, "js_semicolon");
    assert_eq!(notes[0].line, 1);
    assert_eq!(notes[0].msg, "Potential missing semicolon (heuristic)");
}

#[test]
fn js_statement_forms_need_no_semicolon() {
    let (s, notes) = run("if (a) {\n  x = a +\n    b;\n}\n// note\n", Language::Javascript);
    assert_eq!(s, 100);
    assert!(notes.is_empty());
}

#[test]
fn js_loose_equality() {
    let (s, notes) = run("if (a == b) {\n}\n", Language::Javascript);
    assert_eq!(s, 50);
    assert_eq!(notes.len(), 1);
    assert_eq!(notes[0].kind, "js_loose_equality");
    assert_eq!(notes[0].msg, "Consider using '===' instead of '==' to avoid coercion surprises");
}

#[test]
fn js_loose_inequality_also_reads_as_assignment() {
    let (s, notes) = run("while (a != b) {\n}\n", Language::Javascript);
    assert_eq!(s, 0);
    assert_eq!(notes.len(), 2);
    assert_eq!(notes[0].kind, "js_loose_inequality");
    assert_eq!(notes[0].msg, "Consider using '!==' instead of '!=' to avoid coercion surprises");
    assert_eq!(notes[1].kind, "js_assignment_in_condition");
}

#[test]
fn js_assignment_in_condition() {
    let (s, notes) = run("if (a = b) {\n}\n", Language::Javascript);
    assert_eq!(s, 0);
    assert_eq!(notes.len(), 1);
    assert_eq!(notes[0].kind, "js_assignment_in_condition");
    assert_eq!(notes[0].severity, "warn");
    assert_eq!(
        notes[0].msg,
        "Possible accidental assignment '=' inside condition; did you mean '==' or '==='?"
    );
}

#[test]
fn js_brackets() {
    let (s, notes) = run("function f() {\n  return (1;\n}\n", Language::Javascript);
    assert_eq!(s, 0);
    assert_eq!(notes.len(), 2);
    assert_eq!(notes[0].kind, "bracket_mismatch");
    assert_eq!(notes[0].line, 3);
    assert_eq!(notes[0].msg, "Found '}' but last open was '(' (opened at line 2, col 10)");
    assert_eq!(notes[1].kind, "unclosed_bracket");
    assert_eq!(notes[1].line, 1);
    assert_eq!(notes[1].msg, "Unclosed '{' opened at line 1, col 14");
}

#[test]
fn js_brackets_in_strings_and_comments_ignored() {
    let (s, notes) = run("var s = \"(\\\"\";\n// )\n/* ] */\nvar t = `{`;\n", Language::Javascript);
    assert_eq!(s, 100);
    assert!(notes.is_empty());
}

#[test]
fn stray_closing_bracket() {
    let (s, notes) = run("a { }\n}\n", Language::Css);
    assert_eq!(s, 0);
    assert_eq!(notes.len(), 3);
    assert_eq!(notes[0].kind, "stray_closing_bracket");
    assert_eq!(notes[0].line, 2);
    assert_eq!(notes[0].msg, "Stray closing '}' at col 1");
    assert_eq!(notes[1].kind, "css_empty_rule");
    assert_eq!(notes[2].kind, "css_empty_rule");
}

#[test]
fn css_rules() {
    let (s, notes) = run("a {\n  color red\n}\n", Language::Css);
    assert_eq!(s, 0);
    assert_eq!(notes.len(), 2);
    assert_eq!(notes[0].kind, "css_property_no_colon");
    assert_eq!(notes[0].line, 2);
    assert_eq!(notes[0].severity, "warn");
    assert_eq!(notes[1].kind, "css_empty_rule");
    assert_eq!(notes[1].line, 3);
    assert_eq!(notes[1].msg, "Empty CSS rule (no properties between braces)");
}

#[test]
fn css_missing_semicolon_and_incomplete() {
    let (s, notes) = run("a {\n  color: red\n", Language::Css);
    assert_eq!(s, 0);
    assert_eq!(notes.len(), 3);
    assert_eq!(notes[0].kind, "unclosed_bracket");
    assert_eq!(notes[1].kind, "css_maybe_incomplete");
    assert_eq!(notes[1].msg, "CSS may be incomplete (does not end with '}' or ';')");
    assert_eq!(notes[2].kind, "css_property_no_semicolon");
    assert_eq!(notes[2].msg, "CSS property likely missing trailing ';'");
}

#[test]
fn python_checks() {
    let (s, notes) = run("def f()\n    return x == None\n", Language::Python);
    assert_eq!(s, 0);
    assert_eq!(notes.len(), 2);
    assert_eq!(notes[0].kind, "py_missing_colon");
    assert_eq!(notes[0].msg, "Python block statement appears to be missing a trailing ':'");
    assert_eq!(notes[1].kind, "py_none_equality");
    assert_eq!(notes[1].line, 2);
    assert_eq!(notes[1].msg, "Use 'is None' instead of '== None'");
}

#[test]
fn python_mixed_indentation_and_strings() {
    let (s, notes) = run("if x:\n\ty = '('\n  z = r'\\'\n", Language::Python);
    assert_eq!(s, 0);
    assert_eq!(notes.len(), 1);
    assert_eq!(notes[0].kind, "py_mixed_indentation");
    assert_eq!(notes[0].line, 0);
}

#[test]
fn python_triple_quotes_and_comments() {
    let (s, notes) = run("s = \"\"\"(\n[\"\"\"\n# {\nt = 1 != None\n", Language::Python);
    assert_eq!(s, 75);
    assert_eq!(notes.len(), 1);
    assert_eq!(notes[0].kind, "py_none_inequality");
    assert_eq!(notes[0].line, 4);
}

#[test]
fn html_mismatch_and_unclosed() {
    let (s, notes) = run("<div><span></div>", Language::Html);
    assert_eq!(s, 0);
    assert_eq!(notes.len(), 2);
    assert_eq!(notes[0].kind, "html_mismatched_tag");
    assert_eq!(notes[0].msg, "Expected </span> but found </div> (opened at line 1, col 2)");
    assert_eq!(notes[1].kind, "html_unclosed_tag");
    assert_eq!(notes[1].msg, "Unclosed <div> (opened at line 1, col 1)");
}

#[test]
fn html_img_alt() {
    let (s, notes) = run("<img src=\"a.png\">", Language::Html);
    assert_eq!(s, 0);
    assert_eq!(notes.len(), 1);
    assert_eq!(notes[0].kind, "html_img_missing_alt");
    let (s, notes) = run("<IMG ALT=\"x\"/>", Language::Html);
    assert_eq!(s, 100);
    assert!(notes.is_empty());
}

#[test]
fn html_duplicate_id() {
    let (s, notes) = run("<p id=\"a\"></p>\n<p id='a'></p>", Language::Html);
    assert_eq!(s, 0);
    assert_eq!(notes.len(), 1);
    assert_eq!(notes[0].kind, "html_duplicate_id");
    assert_eq!(notes[0].line, 2);
    assert_eq!(notes[0].msg, "Duplicate id=\"a\" (first seen at line 1, col 1)");
}

#[test]
fn html_stray_and_skipped_parts() {
    let (s, notes) = run("<!doctype html><!-- <b> -->\n</b>", Language::Html);
    assert_eq!(s, 0);
    assert_eq!(notes.len(), 1);
    assert_eq!(notes[0].kind, "html_stray_closing_tag");
    assert_eq!(notes[0].line, 2);
    assert_eq!(notes[0].msg, "Stray closing </b>");
}

#[test]
fn rust_and_unknown_have_no_checks() {
    let (s, notes) = run("fn main( {", Language::Rust);
    assert_eq!(s, 100);
    assert!(notes.is_empty());
    let (s, notes) = run("(((", Language::Unknown);
    assert_eq!(s, 100);
    assert!(notes.is_empty());
}

#[test]
fn penalties_floor_at_zero() {
    let code = ")".repeat(20);
    let (s, notes) = run(&code, Language::Css);
    assert_eq!(s, 0);
    assert_eq!(notes.len(), 21);
}

#[test]
fn penalties_are_spread_over_lines() {
    let pad = "// c\n".repeat(99);
    let (s, _) = run(&format!("let x = 1\n{}", pad), Language::Javascript);
    assert_eq!(s, 99);
    let (s, _) = run(&format!("if (a = b) {{\n}}\n{}", "// c\n".repeat(98)), Language::Javascript);
    assert_eq!(s, 96);
    let (s, _) = run(&format!("<div><span></div>{}", "\n".repeat(100)), Language::Html);
    assert_eq!(s, 84);
}

#[test]
fn same_density_same_score() {
    let one = "let x = 1;\nlet y = 2\n";
    let (s1, n1) = run(one, Language::Javascript);
    let (s2, n2) = run(&one.repeat(2), Language::Javascript);
    assert_eq!(n1.len(), 1);
    assert_eq!(n2.len(), 2);
    assert_eq!(s1, 50);
    assert_eq!(s2, 50);
    let (s, _) = run("let x = 1\n", Language::Javascript);
    let (t, _) = run("let x = 1\nlet x = 1\n", Language::Javascript);
    assert_eq!(s, t);
}
