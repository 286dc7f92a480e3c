use vstd::prelude::*;

use crate::sanitize::{occurs_at, occurs_at_exec};
use crate::text::chars_of;

verus! {

/// The scheme and host that the webview puts before a local file path.
pub const ASSET_PREFIX: &'static str = "asset://localhost/";

/// `s` from position `i` on, with every occurrence of `pat` removed, taking
/// occurrences left to right without overlap.
pub open spec fn erase_from(s: Seq<char>, pat: Seq<char>, i: int) -> Seq<char>
    decreases s.len() - i,
{
    if i < 0 || i >= s.len() {
        seq![]
    } else if pat.len() > 0 && occurs_at(s, i, pat) {
        erase_from(s, pat, i + pat.len())
    } else {
        seq![s[i]] + erase_from(s, pat, i + 1)
    }
}

/// The file path that an asset URL names: `path` with every occurrence of
/// `asset://localhost/` removed. A plain path comes back as it is.
pub fn clean_asset_path(path: &str) -> (r: String)
    ensures
        r@ == erase_from(path@, ASSET_PREFIX@, 0),
{
    let s = chars_of(path);
    let pat = chars_of(ASSET_PREFIX);
    let mut out = String::new();
    let mut run_start: usize = 0;
    let mut i: usize = 0;
    while i < s.len()
        invariant
            run_start <= i <= s@.len(),
            s@ == path@,
            pat@ == ASSET_PREFIX@,
            out@ + s@.subrange(run_start as int, i as int) + erase_from(s@, pat@, i as int)
                == erase_from(s@, pat@, 0),
        decreases s@.len() - i,
    {
        if pat.len() > 0 && occurs_at_exec(&s, i, &pat) {
            out.append(path.substring_char(run_start, i));
            i = i + pat.len();
            run_start = i;
        } else {
            assert(s@.subrange(run_start as int, i as int) + seq![s@[i as int]] =~= s@.subrange(
                run_start as int,
                i + 1,
            ));
            i += 1;
        }
    }
    out.append(path.substring_char(run_start, i));
    assert(out@ =~= erase_from(s@, pat@, 0));
    out
}

} // verus!
