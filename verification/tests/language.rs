use code_judge::scoring::language::{detect_language, language_for_request, Language};

#[test]
fn detect_html() {
    assert_eq!(detect_language("<HTML><Div>"), Language::Html);
}

#[test]
fn detect_css() {
    assert_eq!(detect_language("body { color: red; }"), Language::Css);
}

#[test]
fn detect_js() {
    assert_eq!(detect_language("function foo() { let x = 1; }"), Language::Javascript);
}

#[test]
fn detect_python() {
    assert_eq!(detect_language("def foo():\n    import os"), Language::Python);
}

#[test]
fn detect_rust() {
    assert_eq!(detect_language("pub fn main() {}"), Language::Rust);
}

#[test]
fn unknown_code() {
    assert_eq!(detect_language("just some plain text"), Language::Unknown);
}

#[test]
fn html_checked_before_css() {
    assert_eq!(detect_language("<div> { a: b; }"), Language::Html);
}

#[test]
fn detection_ignores_non_ascii_case() {
    assert_eq!(detect_language("FUNCTION"), Language::Javascript);
    assert_eq!(detect_language("Mod x"), Language::Rust);
}

#[test]
fn request_hint_wins() {
    assert_eq!(language_for_request(Some("py"), "function x() {}"), Language::Python);
    assert_eq!(language_for_request(Some("javascript"), ""), Language::Javascript);
    assert_eq!(language_for_request(Some("rs"), ""), Language::Rust);
    assert_eq!(language_for_request(Some("css"), ""), Language::Css);
    assert_eq!(language_for_request(Some("html"), ""), Language::Html);
}

#[test]
fn unknown_hint_falls_back_to_detection() {
    assert_eq!(language_for_request(Some("HTML"), "def f():"), Language::Python);
    assert_eq!(language_for_request(None, "<div>"), Language::Html);
}
