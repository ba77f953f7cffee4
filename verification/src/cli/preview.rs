//! `preview`: render a payload against the current config or a candidate,
//! and with `--diff` compare the two.

use vstd::prelude::*;

use crate::config::invalid_with;
use crate::error::Error;
use crate::text::push_str;

verus! {

/// What `preview --diff` reports.
pub struct PreviewDiff {
    pub current: String,
    pub pending: String,
    pub identical: bool,
}

pub open spec fn diff_needs_config_msg() -> Seq<char> {
    "--diff requires --config <file>"@
}

/// `--diff` compares against a candidate, so it needs `--config`.
pub fn check_preview_args(diff: bool, has_config: bool) -> (r: Result<(), Error>)
    ensures
        diff && !has_config ==> r is Err && invalid_with(r->Err_0, diff_needs_config_msg()),
        !(diff && !has_config) ==> r is Ok,
{
    if diff && !has_config {
        let mut m = String::new();
        push_str(&mut m, "--diff requires --config <file>");
        return Err(Error::InvalidConfig { reason: m });
    }
    Ok(())
}

/// The two renders, and whether they are the same text.
pub fn diff_report(current: String, pending: String) -> (r: PreviewDiff)
    ensures
        r.current@ == current@,
        r.pending@ == pending@,
        r.identical == (current@ == pending@),
{
    let a = crate::text::chars_of(current.as_str());
    let b = crate::text::chars_of(pending.as_str());
    let identical = crate::render::color::seq_eq(a.as_slice(), b.as_slice());
    PreviewDiff { current, pending, identical }
}

} // verus!
