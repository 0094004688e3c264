//! Best-effort guess of the language of a submission.
use crate::text::{contains, contains_str, lower, starts_with_chars, to_ascii_lower, to_chars};
use vstd::prelude::*;

verus! {

/// The languages that the rules know.
#[derive(Debug, Clone, Copy, PartialEq, Eq, Structural)]
pub enum Language {
    Html,
    Css,
    Javascript,
    Python,
    Rust,
    Unknown,
}

/// The family whose tokens occur in an already lower-cased text, checked
/// in the order HTML, CSS, JavaScript, Python, Rust; `Unknown` when none
/// does.
pub open spec fn family_of(t: Seq<char>) -> Language {
    if contains(t, "<html"@) || contains(t, "<div"@) {
        Language::Html
    } else if contains(t, "{"@) && contains(t, "}"@) && contains(t, ":"@) && contains(t, ";"@) {
        Language::Css
    } else if contains(t, "function"@) || contains(t, "let "@) || contains(t, "const "@) {
        Language::Javascript
    } else if contains(t, "def "@) || contains(t, "import "@) {
        Language::Python
    } else if contains(t, "fn "@) || contains(t, "pub "@) || contains(t, "mod "@) {
        Language::Rust
    } else {
        Language::Unknown
    }
}

/// The guess for a text: the family of its ASCII lower-cased form.
pub open spec fn detected(code: Seq<char>) -> Language {
    family_of(lower(code))
}

/// The families are tried in a fixed order, each winning over those after
/// it: HTML tokens first; then the CSS signs `{`, `}`, `:` and `;` all
/// together; then JavaScript tokens, whatever Python or Rust tokens the text
/// also holds; then Python tokens, whatever Rust tokens it holds; then Rust.
pub proof fn lemma_family_order(t: Seq<char>)
    ensures
        contains(t, "<html"@) || contains(t, "<div"@) ==> family_of(t) == Language::Html,
        !contains(t, "<html"@) && !contains(t, "<div"@) && contains(t, "{"@) && contains(t, "}"@)
            && contains(t, ":"@) && contains(t, ";"@) ==> family_of(t) == Language::Css,
        !contains(t, "<html"@) && !contains(t, "<div"@) && !(contains(t, "{"@) && contains(t, "}"@)
            && contains(t, ":"@) && contains(t, ";"@)) && (contains(t, "function"@) || contains(
            t,
            "let "@,
        ) || contains(t, "const "@)) ==> family_of(t) == Language::Javascript,
        !contains(t, "<html"@) && !contains(t, "<div"@) && !(contains(t, "{"@) && contains(t, "}"@)
            && contains(t, ":"@) && contains(t, ";"@)) && !contains(t, "function"@) && !contains(
            t,
            "let "@,
        ) && !contains(t, "const "@) && (contains(t, "def "@) || contains(t, "import "@))
            ==> family_of(t) == Language::Python,
        !contains(t, "<html"@) && !contains(t, "<div"@) && !(contains(t, "{"@) && contains(t, "}"@)
            && contains(t, ":"@) && contains(t, ";"@)) && !contains(t, "function"@) && !contains(
            t,
            "let "@,
        ) && !contains(t, "const "@) && !contains(t, "def "@) && !contains(t, "import "@) && (
        contains(t, "fn "@) || contains(t, "pub "@) || contains(t, "mod "@)) ==> family_of(t)
            == Language::Rust,
{
}

/// Detection of a submission follows that order on its lower-cased text: a
/// text with a JavaScript token and neither HTML tokens nor all CSS signs
/// is JavaScript, whatever Python tokens it also holds.
pub proof fn lemma_detection_order(code: Seq<char>)
    ensures
        ({
            let t = lower(code);
            !contains(t, "<html"@) && !contains(t, "<div"@) && !(contains(t, "{"@) && contains(t, "}"@)
                && contains(t, ":"@) && contains(t, ";"@)) && (contains(t, "function"@) || contains(
                t,
                "let "@,
            ) || contains(t, "const "@)) ==> detected(code) == Language::Javascript
        }),
{
    lemma_family_order(lower(code));
}

/// Detection ignores ASCII case: a text and its lower-cased form are
/// detected alike.
pub proof fn lemma_detection_ignores_case(code: Seq<char>)
    ensures
        detected(lower(code)) == detected(code),
{
    assert(lower(lower(code)) =~= lower(code));
}

/// HTML wins over every other family: a text with `<html` or `<div` in any
/// case is HTML, though it may look like CSS too.
pub proof fn lemma_html_first(code: Seq<char>)
    requires
        contains(lower(code), "<html"@) || contains(lower(code), "<div"@),
    ensures
        detected(code) == Language::Html,
{
}

/// Detection is conservative: the answer is `Unknown` exactly when none of
/// the tokens of any family occurs in the lower-cased text.
pub proof fn lemma_unknown_when_no_token(code: Seq<char>)
    ensures
        detected(code) == Language::Unknown <==> {
            let t = lower(code);
            &&& !contains(t, "<html"@) && !contains(t, "<div"@)
            &&& !(contains(t, "{"@) && contains(t, "}"@) && contains(t, ":"@) && contains(t, ";"@))
            &&& !contains(t, "function"@) && !contains(t, "let "@) && !contains(t, "const "@)
            &&& !contains(t, "def "@) && !contains(t, "import "@)
            &&& !contains(t, "fn "@) && !contains(t, "pub "@) && !contains(t, "mod "@)
        },
{
}

/// The family of an already lower-cased text (see `family_of`).
pub fn family_of_text(text: &[char]) -> (r: Language)
    ensures
        r == family_of(text@),
{
    if contains_str(text, "<html") || contains_str(text, "<div") {
        return Language::Html;
    }
    if contains_str(text, "{") && contains_str(text, "}") && contains_str(text, ":")
        && contains_str(text, ";") {
        return Language::Css;
    }
    if contains_str(text, "function") || contains_str(text, "let ") || contains_str(
        text,
        "const ",
    ) {
        return Language::Javascript;
    }
    if contains_str(text, "def ") || contains_str(text, "import ") {
        return Language::Python;
    }
    if contains_str(text, "fn ") || contains_str(text, "pub ") || contains_str(text, "mod ") {
        return Language::Rust;
    }
    Language::Unknown
}

/// Heuristic language detection: HTML is checked before CSS because
/// `"<div> { ... }"` would otherwise look like CSS; when no pattern matches
/// the answer is `Unknown`.
pub fn detect_language(code: &str) -> (r: Language)
    ensures
        r == detected(code@),
{
    let chars = to_chars(code);
    let text = to_ascii_lower(&chars);
    family_of_text(&text)
}

/// The language named by a request's hint: "html", "css", "js" or
/// "javascript", "python" or "py", "rust" or "rs" (exactly, lower case);
/// any other hint, or none, leaves the choice to `detected`.
pub open spec fn requested_language(hint: Option<Seq<char>>, code: Seq<char>) -> Language {
    match hint {
        Some(h) => if h == "html"@ {
            Language::Html
        } else if h == "css"@ {
            Language::Css
        } else if h == "js"@ || h == "javascript"@ {
            Language::Javascript
        } else if h == "python"@ || h == "py"@ {
            Language::Python
        } else if h == "rust"@ || h == "rs"@ {
            Language::Rust
        } else {
            detected(code)
        },
        None => detected(code),
    }
}

fn is_str(h: &[char], s: &str) -> (b: bool)
    ensures
        b == (h@ == s@),
{
    let sc = to_chars(s);
    if h.len() != sc.len() {
        return false;
    }
    let r = starts_with_chars(h, &sc);
    proof {
        assert(h@.subrange(0, sc@.len() as int) =~= h@);
    }
    r
}

/// The language a JSON request is judged as: its hint when it names one,
/// else the detected language of its code.
pub fn language_for_request(hint: Option<&str>, code: &str) -> (r: Language)
    ensures
        r == requested_language(
            match hint {
                Some(h) => Some(h@),
                None => None,
            },
            code@,
        ),
{
    match hint {
        Some(h) => {
            let hc = to_chars(h);
            if is_str(&hc, "html") {
                Language::Html
            } else if is_str(&hc, "css") {
                Language::Css
            } else if is_str(&hc, "js") || is_str(&hc, "javascript") {
                Language::Javascript
            } else if is_str(&hc, "python") || is_str(&hc, "py") {
                Language::Python
            } else if is_str(&hc, "rust") || is_str(&hc, "rs") {
                Language::Rust
            } else {
                detect_language(code)
            }
        },
        None => detect_language(code),
    }
}

} // verus!
