//! Fuzzy matching of search text against process fields.

use crate::data::model::ProcessInfo;
use crate::text::{lowercase, to_lowercase};
use vstd::prelude::*;

verus! {

/// The score that nucleo's fuzzy matcher gives `haystack` for the search
/// text `needle` (`None` where it does not match).
pub uninterp spec fn nucleo_score(needle: Seq<char>, haystack: Seq<char>) -> Option<u32>;

/// Scores `haystack` against `needle` with nucleo: the needle is split into
/// whitespace-separated atoms, each matched fuzzily, case-insensitively and
/// with smart normalisation, on a fresh matcher with the default
/// configuration (`Pattern::new(..).score(..)`). The result is named; the
/// contract also states what `Pattern::score` shows for a needle without
/// atoms: an empty needle matches everything with score 0.
#[verifier::external_body]
pub fn nucleo_fuzzy_score(needle: &str, haystack: &str) -> (r: Option<u32>)
    ensures
        r == nucleo_score(needle@, haystack@),
        needle@.len() == 0 ==> r == Some(0u32),
{
    let mut matcher = nucleo::Matcher::new(nucleo::Config::DEFAULT);
    let pattern = nucleo::pattern::Pattern::new(
        needle,
        nucleo::pattern::CaseMatching::Ignore,
        nucleo::pattern::Normalization::Smart,
        nucleo::pattern::AtomKind::Fuzzy,
    );
    let hs = nucleo::Utf32String::from(haystack);
    pattern.score(hs.slice(..), &mut matcher)
}

/// `needle` fuzzily matches `haystack`.
pub open spec fn fuzzy_matches(needle: Seq<char>, haystack: Seq<char>) -> bool {
    nucleo_score(needle, haystack) is Some
}

/// Whether `needle` fuzzily matches `haystack`.
pub fn fuzzy_match(needle: &str, haystack: &str) -> (r: bool)
    ensures
        r == fuzzy_matches(needle@, haystack@),
{
    nucleo_fuzzy_score(needle, haystack).is_some()
}

/// A score, or 0 where there is none.
pub open spec fn score_or_zero(s: Option<u32>) -> u32 {
    match s {
        Some(v) => v,
        None => 0,
    }
}

/// The larger of two scores.
pub open spec fn max_score(a: u32, b: u32) -> u32 {
    if a >= b {
        a
    } else {
        b
    }
}

/// The electron app name of a process, or the empty text.
pub open spec fn electron_text(p: ProcessInfo) -> Seq<char> {
    match p.electron_app_name {
        Some(s) => s@,
        None => seq![],
    }
}

/// The best score of `needle` against the lowercased name, command and
/// electron app name of a process.
pub open spec fn best_score_spec(needle: Seq<char>, p: ProcessInfo) -> u32 {
    max_score(
        max_score(
            score_or_zero(nucleo_score(needle, lowercase(p.name@))),
            score_or_zero(nucleo_score(needle, lowercase(p.command@))),
        ),
        score_or_zero(nucleo_score(needle, lowercase(electron_text(p)))),
    )
}

/// The best fuzzy score of `needle` against a process's lowercased name,
/// command and electron app name (0 where none matches).
pub fn best_fuzzy_score(needle: &str, p: &ProcessInfo) -> (r: u32)
    ensures
        r == best_score_spec(needle@, *p),
{
    let name = to_lowercase(p.name.as_str());
    let name_score = match nucleo_fuzzy_score(needle, name.as_str()) {
        Some(v) => v,
        None => 0,
    };
    let command = to_lowercase(p.command.as_str());
    let cmd_score = match nucleo_fuzzy_score(needle, command.as_str()) {
        Some(v) => v,
        None => 0,
    };
    let electron = match &p.electron_app_name {
        Some(s) => to_lowercase(s.as_str()),
        None => {
            proof {
                reveal_strlit("");
                assert(""@ =~= Seq::<char>::empty());
            }
            to_lowercase("")
        },
    };
    let electron_score = match nucleo_fuzzy_score(needle, electron.as_str()) {
        Some(v) => v,
        None => 0,
    };
    let m = if name_score >= cmd_score {
        name_score
    } else {
        cmd_score
    };
    if m >= electron_score {
        m
    } else {
        electron_score
    }
}

} // verus!
