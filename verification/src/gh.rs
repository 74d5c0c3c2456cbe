//! What the `gh` command line leaves.
use vstd::prelude::*;
use vstd::string::*;

verus! {

/// The end of one run of `gh`.
#[derive(Debug)]
pub struct Output {
    pub success: bool,
    pub stdout: String,
    pub stderr: String,
}

/// The message of a failed run: what it printed, or a text where it printed
/// nothing.
pub open spec fn failure(stderr: Seq<char>, fallback: Seq<char>) -> Seq<char> {
    if stderr.len() > 0 {
        stderr
    } else {
        fallback
    }
}

/// The message of a failed run: what it printed, or a text where it printed
/// nothing.
pub fn failure_text(stderr: &String, fallback: &str) -> (s: String)
    ensures
        s@ == failure(stderr@, fallback@),
{
    if stderr.as_str().is_empty() {
        fallback.to_owned()
    } else {
        stderr.clone()
    }
}

/// A failed run says what it printed; one that printed nothing says what failed.
pub proof fn law_failures_speak(stderr: Seq<char>, fallback: Seq<char>)
    ensures
        stderr.len() > 0 ==> failure(stderr, fallback) == stderr,
        stderr.len() == 0 ==> failure(stderr, fallback) == fallback,
{
}

} // verus!
