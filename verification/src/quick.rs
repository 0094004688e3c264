//! The quick judge: coarse scores of a raw submission, each 100 less a few
//! fixed deductions, with the language guessed from the Unicode lower-cased
//! text.
use crate::scoring::language::{family_of, family_of_text, Language};
use crate::text::{
    byte_len, char_utf8_len, contains, contains_str, count_matches, count_matches_chars, ends_with,
    ends_with_str, eq_chars, lines_of, split_lines, texts, to_chars, trim, trim_chars,
};
use vstd::prelude::*;

verus! {

/// What `str::to_lowercase` makes of a text (the Unicode lower-case
/// mapping).
pub uninterp spec fn unicode_lowercase(s: Seq<char>) -> Seq<char>;

/// Calls `str::to_lowercase`; its result is named `unicode_lowercase`.
#[verifier::external_body]
fn str_to_lowercase(s: &str) -> (r: String)
    ensures
        r@ == unicode_lowercase(s@),
{
    s.to_lowercase()
}

/// The language of a submission: the family of its Unicode lower-cased
/// text.
pub fn detect_language(code: &str) -> (r: Language)
    ensures
        r == family_of(unicode_lowercase(code@)),
{
    let lowered = str_to_lowercase(code);
    let text = to_chars(lowered.as_str());
    family_of_text(&text)
}

/// The cleanliness issues of one line: one for a trailing space, one for
/// more than 120 bytes.
pub open spec fn line_issues(l: Seq<char>) -> nat {
    (if ends_with(l, " "@) {
        1nat
    } else {
        0nat
    }) + (if byte_len(l) > 120 {
        1nat
    } else {
        0nat
    })
}

/// The cleanliness issues of the first `n` lines.
pub open spec fn issues_upto(ls: Seq<Seq<char>>, n: nat) -> nat
    decreases n,
{
    if n == 0 {
        0
    } else {
        issues_upto(ls, (n - 1) as nat) + line_issues(ls[n - 1])
    }
}

/// The cleanliness issues of a text, over its lines.
pub open spec fn cleanliness_issues(code: Seq<char>) -> nat {
    issues_upto(lines_of(code), lines_of(code).len())
}

/// The number of UTF-8 bytes of a line.
fn utf8_byte_count(s: &[char]) -> (n: u128)
    ensures
        n == byte_len(s@),
{
    let mut i: usize = 0;
    let mut n: u128 = 0;
    while i < s.len()
        invariant
            i <= s@.len(),
            n == byte_len(s@.take(i as int)),
            n <= 4 * i,
        decreases s@.len() - i,
    {
        n = n + char_utf8_len(s[i]) as u128;
        i = i + 1;
        assert(s@.take(i as int).drop_last() =~= s@.take(i - 1));
    }
    assert(s@.take(s@.len() as int) =~= s@);
    n
}

/// The number of cleanliness issues of a text: lines ending in a space,
/// and lines longer than 120 bytes.
pub fn count_cleanliness_issues(code: &str) -> (n: u128)
    ensures
        n == cleanliness_issues(code@),
{
    let chars = to_chars(code);
    let lines = split_lines(&chars);
    let ghost ls = lines_of(code@);
    let mut n: u128 = 0;
    let mut i: usize = 0;
    while i < lines.len()
        invariant
            texts(lines@) == ls,
            i <= lines@.len(),
            n == issues_upto(ls, i as nat),
            n <= 2 * i,
        decreases lines@.len() - i,
    {
        let l = &lines[i];
        assert(l@ == ls[i as int]);
        if ends_with_str(l, " ") {
            n = n + 1;
        }
        if utf8_byte_count(l) > 120 {
            n = n + 1;
        }
        i = i + 1;
    }
    n
}

/// The cleanliness score: 100 less one per issue. Defined for at most 100
/// issues (the count is not allowed below zero).
pub fn score_cleanliness(code: &str) -> (s: u32)
    requires
        cleanliness_issues(code@) <= 100,
    ensures
        s == 100 - cleanliness_issues(code@),
        s <= 100,
{
    let n = count_cleanliness_issues(code);
    (100 - n) as u32
}

/// The correctness deductions: 20 when `{` and `}` counts differ; for HTML
/// 20 more when `<div` and `</div>` counts differ, for CSS 10 when the
/// trimmed text does not end in `}`, for JavaScript 10 when
/// `console.log(` occurs but `);` does not.
pub open spec fn correctness_deductions(code: Seq<char>, lang: Language) -> nat {
    (if count_matches(code, "{"@) != count_matches(code, "}"@) {
        20nat
    } else {
        0nat
    }) + match lang {
        Language::Html => if count_matches(code, "<div"@) != count_matches(code, "</div>"@) {
            20nat
        } else {
            0nat
        },
        Language::Css => if !ends_with(trim(code), "}"@) {
            10nat
        } else {
            0nat
        },
        Language::Javascript => if contains(code, "console.log("@) && !contains(code, ");"@) {
            10nat
        } else {
            0nat
        },
        _ => 0nat,
    }
}

/// The correctness score: 100 less the deductions.
pub fn score_correctness(code: &str, lang: &Language) -> (s: u32)
    ensures
        s == 100 - correctness_deductions(code@, *lang),
        s <= 100,
{
    let c = to_chars(code);
    let mut score: u32 = 100;
    if count_matches_chars(&c, &to_chars("{")) != count_matches_chars(&c, &to_chars("}")) {
        score = score - 20;
    }
    match lang {
        Language::Html => {
            if count_matches_chars(&c, &to_chars("<div")) != count_matches_chars(
                &c,
                &to_chars("</div>"),
            ) {
                score = score - 20;
            }
        },
        Language::Css => {
            let t = trim_chars(&c);
            if !ends_with_str(&t, "}") {
                score = score - 10;
            }
        },
        Language::Javascript => {
            if contains_str(&c, "console.log(") && !contains_str(&c, ");") {
                score = score - 10;
            }
        },
        _ => {},
    }
    score
}

/// Whether some line occurs twice among the lines.
pub open spec fn has_repeated_line(ls: Seq<Seq<char>>) -> bool {
    exists|i: int, j: int| 0 <= i < j < ls.len() && ls[i] == ls[j]
}

/// The structure deductions: 10 when a line repeats, 10 when `function`
/// occurs more than ten times.
pub open spec fn structure_deductions(code: Seq<char>) -> nat {
    (if has_repeated_line(lines_of(code)) {
        10nat
    } else {
        0nat
    }) + (if count_matches(code, "function"@) > 10 {
        10nat
    } else {
        0nat
    })
}

/// Whether some line equals an earlier one.
fn any_line_repeats(lines: &Vec<Vec<char>>) -> (b: bool)
    ensures
        b == has_repeated_line(texts(lines@)),
{
    let ghost ls = texts(lines@);
    let mut j: usize = 0;
    while j < lines.len()
        invariant
            ls == texts(lines@),
            j <= lines@.len(),
            forall|a: int, b: int| 0 <= a < b < j ==> ls[a] != ls[b],
        decreases lines@.len() - j,
    {
        let mut i: usize = 0;
        while i < j
            invariant
                ls == texts(lines@),
                i <= j < lines@.len(),
                forall|a: int| 0 <= a < i ==> ls[a] != ls[j as int],
            decreases j - i,
        {
            if eq_chars(&lines[i], &lines[j]) {
                assert(ls[i as int] == ls[j as int]);
                return true;
            }
            i = i + 1;
        }
        j = j + 1;
    }
    false
}

/// The structure score: 100 less the deductions.
pub fn score_structure(code: &str) -> (s: u32)
    ensures
        s == 100 - structure_deductions(code@),
        s <= 100,
{
    let c = to_chars(code);
    let lines = split_lines(&c);
    let mut score: u32 = 100;
    if any_line_repeats(&lines) {
        score = score - 10;
    }
    if count_matches_chars(&c, &to_chars("function")) > 10 {
        score = score - 10;
    }
    score
}

/// The quick scores of a submission and their mean.
pub struct ScoreResult {
    pub cleanliness: u32,
    pub correctness: u32,
    pub structure: u32,
    pub overall: u32,
}

/// Judges a submission as its detected language: the three quick scores
/// and their mean, rounded down. Defined for texts with at most 100
/// cleanliness issues.
pub fn judge_submission(body: &str) -> (r: ScoreResult)
    requires
        cleanliness_issues(body@) <= 100,
    ensures
        r.cleanliness == 100 - cleanliness_issues(body@),
        r.correctness == 100 - correctness_deductions(body@, family_of(unicode_lowercase(body@))),
        r.structure == 100 - structure_deductions(body@),
        r.overall == (r.cleanliness + r.correctness + r.structure) / 3,
{
    let lang = detect_language(body);
    let c1 = score_cleanliness(body);
    let c2 = score_correctness(body, &lang);
    let c3 = score_structure(body);
    ScoreResult { cleanliness: c1, correctness: c2, structure: c3, overall: (c1 + c2 + c3) / 3 }
}

} // verus!
