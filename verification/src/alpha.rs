use vstd::prelude::*;

use crate::text::{chars_of, prefix_before, prefix_before_char, string_of, text_is, words, words_of};

verus! {

/// The rate at which the preview pretends to process rows.
pub const ALPHA_ROWS_PER_SECOND: u64 = 52000;

/// The figures the preview shows for a simulated job.
#[derive(Debug, Clone, Copy, PartialEq, Eq, Structural)]
pub struct AlphaProgress {
    pub processed: u64,
    pub running: bool,
    pub matched: u64,
    pub ambiguous: u64,
    pub unmatched: u64,
    pub eta_seconds: u64,
}

/// The rows processed after `elapsed` seconds of a job of `total` rows:
/// 52,000 a second while it runs, never more than `total`.
pub open spec fn alpha_processed(running: bool, elapsed: u64, total: u64) -> nat {
    if running {
        if elapsed * 52000 <= total {
            (elapsed * 52000) as nat
        } else {
            total as nat
        }
    } else {
        0
    }
}

/// The preview's figures: 72% of processed rows matched, 3% ambiguous (both
/// rounded down), the rest unmatched; the job runs until every row is
/// processed, and the time left is the rows left at 52,000 a second, at
/// least one second while it runs.
pub open spec fn alpha_progress_of(running: bool, elapsed: u64, total: u64) -> AlphaProgress {
    let processed = alpha_processed(running, elapsed, total);
    let still_running = running && processed < total;
    let matched = processed * 72 / 100;
    let ambiguous = processed * 3 / 100;
    AlphaProgress {
        processed: processed as u64,
        running: still_running,
        matched: matched as u64,
        ambiguous: ambiguous as u64,
        unmatched: if processed >= matched + ambiguous {
            (processed - matched - ambiguous) as u64
        } else {
            0
        },
        eta_seconds: if processed == 0 || !still_running {
            0
        } else if (total - processed) / 52000 >= 1 {
            ((total - processed) / 52000) as u64
        } else {
            1
        },
    }
}

/// The preview's figures (see `alpha_progress_of`).
pub fn alpha_progress(running: bool, elapsed: u64, total: u64) -> (r: AlphaProgress)
    requires
        elapsed * 52000 <= u64::MAX,
        alpha_processed(running, elapsed, total) * 72 <= u64::MAX,
    ensures
        r == alpha_progress_of(running, elapsed, total),
{
    let processed = if running {
        let p = elapsed * ALPHA_ROWS_PER_SECOND;
        if p <= total {
            p
        } else {
            total
        }
    } else {
        0
    };
    let still_running = running && processed < total;
    let matched = processed * 72 / 100;
    let ambiguous = processed * 3 / 100;
    let unmatched = processed.saturating_sub(matched + ambiguous);
    let eta_seconds = if processed == 0 || !still_running {
        0
    } else {
        let left = (total - processed) / ALPHA_ROWS_PER_SECOND;
        if left >= 1 {
            left
        } else {
            1
        }
    };
    AlphaProgress { processed, running: still_running, matched, ambiguous, unmatched, eta_seconds }
}

/// Every processed row is counted once: matched, ambiguous or unmatched.
pub proof fn lemma_alpha_counts(running: bool, elapsed: u64, total: u64)
    ensures
        ({
            let p = alpha_progress_of(running, elapsed, total);
            p.matched + p.ambiguous + p.unmatched == p.processed
        }),
{
    let processed = alpha_processed(running, elapsed, total);
    assert(processed * 72 / 100 + processed * 3 / 100 <= processed) by (nonlinear_arith);
}

/// The phase shown for a job `percent` percent done (rounded down).
pub open spec fn alpha_phase_of(percent: u64) -> Seq<char> {
    if percent <= 7 {
        "Preparing and validating configuration"@
    } else if percent <= 22 {
        "Normalization and blocking"@
    } else if percent <= 48 {
        "Exact matching L1-L4"@
    } else if percent <= 73 {
        "Fuzzy matching L5-L7"@
    } else if percent <= 91 {
        "Bulk writing matched results"@
    } else if percent <= 99 {
        "Reconciliation and reports"@
    } else {
        "Completed"@
    }
}

/// The phase shown for a job `percent` percent done (see `alpha_phase_of`).
pub fn alpha_phase(percent: u64) -> (r: &'static str)
    ensures
        r@ == alpha_phase_of(percent),
{
    if percent <= 7 {
        "Preparing and validating configuration"
    } else if percent <= 22 {
        "Normalization and blocking"
    } else if percent <= 48 {
        "Exact matching L1-L4"
    } else if percent <= 73 {
        "Fuzzy matching L5-L7"
    } else if percent <= 91 {
        "Bulk writing matched results"
    } else if percent <= 99 {
        "Reconciliation and reports"
    } else {
        "Completed"
    }
}

/// The text of `bytes` with each invalid UTF-8 sequence replaced.
pub uninterp spec fn lossy_text(bytes: Seq<u8>) -> Seq<char>;

/// `String::from_utf8_lossy`. Trusted: the result is what `lossy_text`
/// names for the bytes, and valid UTF-8 is decoded as it is.
#[verifier::external_body]
fn utf8_lossy(bytes: &[u8]) -> (r: String)
    ensures
        r@ == lossy_text(bytes@),
        vstd::utf8::valid_utf8(bytes@) ==> r@ == vstd::utf8::decode_utf8(bytes@),
{
    String::from_utf8_lossy(bytes).into_owned()
}

/// The path that the preview serves for a request whose text is `text`: the
/// second word of its first line up to any '?', or "/".
pub open spec fn alpha_text_path_of(text: Seq<char>) -> Seq<char> {
    let tokens = words(prefix_before(text, '\n'));
    prefix_before(
        if tokens.len() > 1 {
            tokens[1]
        } else {
            seq!['/']
        },
        '?',
    )
}

/// The path that the preview serves for a request that begins with
/// `bytes`, read with invalid UTF-8 replaced.
pub open spec fn alpha_path_of(bytes: Seq<u8>) -> Seq<char> {
    alpha_text_path_of(lossy_text(bytes))
}

/// The path of the request whose text is `text` (see `alpha_text_path_of`).
pub fn alpha_text_path(text: &str) -> (r: String)
    ensures
        r@ == alpha_text_path_of(text@),
{
    let chars = chars_of(text);
    let first = prefix_before_char(chars.as_slice(), '\n');
    let tokens = words_of(first.as_slice());
    let ghost tviews = tokens@.map_values(|w: Vec<char>| w@);
    let path = if tokens.len() > 1 {
        assert(tviews[1] == tokens@[1]@);
        prefix_before_char(tokens[1].as_slice(), '?')
    } else {
        let mut slash: Vec<char> = Vec::new();
        slash.push('/');
        prefix_before_char(slash.as_slice(), '?')
    };
    string_of(path.as_slice())
}

/// The path of the request that `bytes` begin (see `alpha_path_of`).
pub fn alpha_request_path(bytes: &[u8]) -> (r: String)
    ensures
        r@ == alpha_path_of(bytes@),
{
    let text = utf8_lossy(bytes);
    alpha_text_path(text.as_str())
}

/// What the preview serves for a path.
#[derive(Debug, Clone, Copy, PartialEq, Eq, Structural)]
pub enum AlphaRoute {
    Index,
    Css,
    Js,
    Health,
    Login,
    JobStart,
    JobStatus,
    NotFound,
}

/// What the preview serves for `path`.
pub open spec fn alpha_route_of(path: Seq<char>) -> AlphaRoute {
    if path == "/"@ || path == "/index.html"@ {
        AlphaRoute::Index
    } else if path == "/app.css"@ {
        AlphaRoute::Css
    } else if path == "/app.js"@ {
        AlphaRoute::Js
    } else if path == "/api/health"@ {
        AlphaRoute::Health
    } else if path == "/api/login"@ {
        AlphaRoute::Login
    } else if path == "/api/job/start"@ {
        AlphaRoute::JobStart
    } else if path == "/api/job/status"@ {
        AlphaRoute::JobStatus
    } else {
        AlphaRoute::NotFound
    }
}

/// What the preview serves for `path` (see `alpha_route_of`).
pub fn alpha_route(path: &str) -> (r: AlphaRoute)
    ensures
        r == alpha_route_of(path@),
{
    if text_is(path, "/") || text_is(path, "/index.html") {
        AlphaRoute::Index
    } else if text_is(path, "/app.css") {
        AlphaRoute::Css
    } else if text_is(path, "/app.js") {
        AlphaRoute::Js
    } else if text_is(path, "/api/health") {
        AlphaRoute::Health
    } else if text_is(path, "/api/login") {
        AlphaRoute::Login
    } else if text_is(path, "/api/job/start") {
        AlphaRoute::JobStart
    } else if text_is(path, "/api/job/status") {
        AlphaRoute::JobStatus
    } else {
        AlphaRoute::NotFound
    }
}

} // verus!
