# code_judge

Heuristic judging of submitted source code, verified with Verus.

A submission is scored in three categories (cleanliness, correctness,
structure), each from 0 to 100 and normalized by the number of lines, so
that a long file is judged by the density of its issues. Every issue found
becomes a note, and each category gets one advice note by twenty-point band.

## Layout

- `src/text.rs`: the text model (lines, trimming, searching, counting) that
  the rules are stated over.
- `src/scoring/`: language detection, the three categories and their
  combination (`compute_all`), with the laws of the normalization, the
  advice bands and detection.
- `src/scoring/correctness/`: bracket balance, HTML, CSS, JavaScript and
  Python rules.
- `src/quick.rs`: the quick judge, coarse scores served by the program.
- `src/models.rs`, `src/state.rs`: request, response and settings types.
- `app/`: the HTTP server (axum, tokio, tower-http) and the serde forms of
  the request and response types.
- `tests/`: tests of the library on concrete inputs.
