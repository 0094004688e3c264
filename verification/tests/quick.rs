use code_judge::quick::{
    count_cleanliness_issues, detect_language, judge_submission, score_cleanliness, score_correctness,
    score_structure,
};
use code_judge::scoring::language::{family_of_text, Language};

#[test]
fn quick_detection_lowercases_unicode() {
    assert_eq!(detect_language("<HTML>"), Language::Html);
    assert_eq!(detect_language("a { b: c; }"), Language::Css);
    assert_eq!(detect_language("CONST x = 1"), Language::Javascript);
    assert_eq!(detect_language("IMPORT os"), Language::Python);
    assert_eq!(detect_language("MOD x"), Language::Rust);
    assert_eq!(detect_language("hello"), Language::Unknown);
    // The Kelvin sign lower-cases to an ASCII `k`; neither form is a token.
    assert_eq!(detect_language("\u{212A}"), Language::Unknown);
}

#[test]
fn family_of_lowered_text() {
    let t: Vec<char> = "<div> { a: b; }".chars().collect();
    assert_eq!(family_of_text(&t), Language::Html);
    let t: Vec<char> = "FN ".chars().collect();
    assert_eq!(family_of_text(&t), Language::Unknown);
}

#[test]
fn quick_cleanliness_counts_lines() {
    assert_eq!(count_cleanliness_issues(""), 0);
    assert_eq!(count_cleanliness_issues("a \nb\n"), 1);
    assert_eq!(score_cleanliness("a \nb \r\nc"), 98);
    let long = "x".repeat(121);
    assert_eq!(score_cleanliness(&long), 99);
    let exact = "x".repeat(120);
    assert_eq!(score_cleanliness(&exact), 100);
    // 41 two-byte characters are 82 bytes; 61 are 122 bytes.
    assert_eq!(score_cleanliness(&"é".repeat(61)), 99);
    assert_eq!(score_cleanliness(&format!("{} ", "é".repeat(61))), 98);
}

#[test]
fn quick_cleanliness_hundred_issues() {
    let text = "a \n".repeat(100);
    assert_eq!(count_cleanliness_issues(&text), 100);
    assert_eq!(score_cleanliness(&text), 0);
    assert_eq!(count_cleanliness_issues(&"a \n".repeat(101)), 101);
}

#[test]
fn quick_correctness_deductions() {
    assert_eq!(score_correctness("{", &Language::Rust), 80);
    assert_eq!(score_correctness("{}", &Language::Rust), 100);
    assert_eq!(score_correctness("<div><div></div>", &Language::Html), 80);
    assert_eq!(score_correctness("{<div>", &Language::Html), 60);
    assert_eq!(score_correctness("a { b: c; }  \n", &Language::Css), 100);
    assert_eq!(score_correctness("a { b: c; ", &Language::Css), 70);
    assert_eq!(score_correctness("console.log(1)", &Language::Javascript), 90);
    assert_eq!(score_correctness("console.log(1);", &Language::Javascript), 100);
    assert_eq!(score_correctness("console.log(1)", &Language::Python), 100);
}

#[test]
fn quick_structure_deductions() {
    assert_eq!(score_structure("a\nb\n"), 100);
    assert_eq!(score_structure("a\nb\na\n"), 90);
    assert_eq!(score_structure(&"function ".repeat(10)), 100);
    assert_eq!(score_structure(&"function ".repeat(11)), 90);
    assert_eq!(score_structure(&"function\n".repeat(11)), 80);
}

#[test]
fn quick_judgement() {
    let r = judge_submission("function f() {\n  console.log(1)\n}\n");
    assert_eq!((r.cleanliness, r.correctness, r.structure), (100, 90, 100));
    assert_eq!(r.overall, 96);
    let r = judge_submission("x \n");
    assert_eq!((r.cleanliness, r.correctness, r.structure, r.overall), (99, 100, 100, 99));
}
