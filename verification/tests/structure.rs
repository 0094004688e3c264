use code_judge::models::Note;
use code_judge::scoring::structure::score_structure;

fn run(code: &str) -> (u32, Vec<Note>) {
    let mut notes = Vec::new();
    let s = score_structure(code, &mut notes);
    (s, notes)
}

#[test]
fn simple_function_scores_full() {
    let (s, notes) = run("fn main() {}\n");
    assert_eq!(s, 100);
    assert!(notes.is_empty());
}

#[test]
fn duplicate_lines() {
    let (s, notes) = run("x = 1\nx = 1\nx = 1\n");
    assert_eq!(s, 33);
    assert_eq!(notes.len(), 1);
    assert_eq!(notes[0].kind, "duplication_lines");
    assert_eq!(notes[0].severity, "info");
    assert_eq!(notes[0].line, 0);
    assert_eq!(notes[0].msg, "Duplicate (normalized) lines detected: 2");
}

#[test]
fn duplicate_lines_are_normalized() {
    let (_, notes) = run("X  =\t1\n  x = 1   \n");
    assert_eq!(notes.len(), 1);
    assert_eq!(notes[0].msg, "Duplicate (normalized) lines detected: 1");
}

#[test]
fn comments_and_blank_lines_are_not_duplicates() {
    let (s, notes) = run("// c\n// c\n\n\n# c\n# c\n");
    assert_eq!(s, 100);
    assert!(notes.is_empty());
}

#[test]
fn repeated_blocks() {
    let (s, notes) = run("a\nb\nc\na\nb\nc\n");
    assert_eq!(s, 33);
    assert_eq!(notes.len(), 2);
    assert_eq!(notes[0].msg, "Duplicate (normalized) lines detected: 3");
    assert_eq!(notes[1].kind, "duplication_blocks");
    assert_eq!(notes[1].severity, "warn");
    assert_eq!(notes[1].msg, "Repeated 3-line blocks detected: 1");
}

#[test]
fn many_parameters() {
    let (s, notes) = run("def f(a, b, c, d, e, f, g):\n");
    assert_eq!(s, 0);
    assert_eq!(notes.len(), 1);
    assert_eq!(notes[0].kind, "many_parameters");
    assert_eq!(notes[0].line, 1);
    assert_eq!(notes[0].msg, "Function-like declaration has many parameters (7)");
}

#[test]
fn nested_commas_are_not_parameters() {
    let (_, notes) = run("def f(a, g(b, c, d, e, f, h)):\n");
    assert!(notes.is_empty());
}

#[test]
fn nesting_depth() {
    let (s, notes) = run("{{{{{\n}}}}}\n");
    assert_eq!(s, 0);
    assert_eq!(notes.len(), 1);
    assert_eq!(notes[0].kind, "nesting_depth");
    assert_eq!(notes[0].severity, "info");
    assert_eq!(notes[0].msg, "High block nesting depth ({}) = 5");
    let (_, notes) = run("{{{{{{{\n}}}}}}}\n");
    assert_eq!(notes[0].severity, "warn");
    assert_eq!(notes[0].msg, "Excessive block nesting depth ({}) = 7");
}

#[test]
fn long_if_chain() {
    let (s, notes) = run("if a:\nelif b:\nelif c:\nelif d:\nelif e:\nelse:\n");
    assert_eq!(s, 83);
    assert_eq!(notes.len(), 1);
    assert_eq!(notes[0].kind, "long_if_else_chain");
    assert_eq!(notes[0].msg, "Long if/else chain (6 segments)");
}

#[test]
fn deep_indentation() {
    let code = format!("{}x\n", " ".repeat(32));
    let (s, notes) = run(&code);
    assert_eq!(s, 0);
    assert_eq!(notes.len(), 1);
    assert_eq!(notes[0].kind, "indent_nesting");
    assert_eq!(notes[0].msg, "High indentation nesting depth \u{2248} 8");
}

#[test]
fn large_file() {
    let code: String = (0..2001).map(|i| format!("v{}\n", i)).collect();
    let (s, notes) = run(&code);
    assert_eq!(s, 99);
    assert_eq!(notes.len(), 1);
    assert_eq!(notes[0].kind, "file_size");
    assert_eq!(notes[0].msg, "Large file (~2001 lines); consider splitting modules");
}

#[test]
fn long_function() {
    let mut code = String::from("fn f() {\n");
    for i in 0..80 {
        code.push_str(&format!("    x{};\n", i));
    }
    code.push_str("}\n");
    let (s, notes) = run(&code);
    assert_eq!(s, 98);
    assert_eq!(notes.len(), 1);
    assert_eq!(notes[0].kind, "long_function");
    assert_eq!(notes[0].line, 1);
    assert_eq!(notes[0].msg, "Long function-like block (~82 lines)");
}

#[test]
fn function_density() {
    let code: String = (0..26).map(|i| format!("fn f{}() {{}}\n", i)).collect();
    let (_, notes) = run(&code);
    assert_eq!(notes.len(), 1);
    assert_eq!(notes[0].kind, "function_density");
    assert_eq!(notes[0].msg, "Elevated function-like count (26)");
}

#[test]
fn duplication_penalty_is_capped() {
    let block: String = (1..=9).map(|i| format!("p{}\n", i)).collect();
    let (s, notes) = run(&block.repeat(2));
    assert_eq!(notes.len(), 2);
    assert_eq!(notes[0].msg, "Duplicate (normalized) lines detected: 9");
    assert_eq!(notes[1].msg, "Repeated 3-line blocks detected: 7");
    // 3 + 6 penalties over 18 lines.
    assert_eq!(s, 50);
}
