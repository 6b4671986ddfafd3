//! The confirmation rule: what the operator is asked, and which answer
//! authorizes the deletion. Reading the answer is the caller's task;
//! the caller strips surrounding whitespace from the line before the
//! comparison.

use vstd::prelude::*;
use vstd::string::StrSliceExecFns;
use vstd::string::StringExecFns;

use crate::path::{render_spec, CanonicalPath};

verus! {

/// The one affirmative answer: the single letter `y`, case-insensitive.
/// Everything else, the empty line included, is a decline.
pub open spec fn affirmative(answer: Seq<char>) -> bool {
    answer == seq!['y'] || answer == seq!['Y']
}

/// Decides whether a (trimmed) answer authorizes the deletion.
pub fn is_affirmative(answer: &str) -> (r: bool)
    ensures
        r == affirmative(answer@),
{
    if answer.unicode_len() != 1 {
        return false;
    }
    let c = answer.get_char(0);
    let r = c == 'y' || c == 'Y';
    proof {
        if r {
            assert(answer@ =~= seq![answer@[0]]);
        }
    }
    r
}

/// The prompt shown before anything is deleted: it names the canonical
/// absolute path and the affirmative token, with declining as the
/// default.
pub fn prompt_message(target: &CanonicalPath) -> (m: String)
    ensures
        m@ == "delete "@ + render_spec(target@) + "? [y/N]"@,
{
    let mut m = "delete ".to_owned();
    let rendered = target.render();
    m.append(rendered.as_str());
    m.append("? [y/N]");
    m
}

} // verus!
