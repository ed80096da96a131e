//! Path resolution: expanding the leading home-directory shorthand `~/`.
//!
//! A path beginning with `~/` means "relative to the current user's home
//! directory". Resolution replaces that prefix with the given home directory
//! followed by a path separator. The home directory is an explicit argument
//! rather than ambient state, so resolution is deterministic: when no home
//! directory is available the path is returned unchanged and downstream
//! operations surface the failure instead.

use vstd::prelude::*;
use vstd::string::StrSliceExecFns;
use vstd::string::StringExecFns;

verus! {

/// A path is shorthand when it begins with the two characters `~/`.
///
/// A bare `~`, or a `~user/...` form, is not shorthand: only the `~/` prefix
/// is recognized, as a deliberate scope limitation.
pub open spec fn is_shorthand(raw: Seq<char>) -> bool {
    raw.len() >= 2 && raw[0] == '~' && raw[1] == '/'
}

/// What resolution returns: the home directory, a separator, and the
/// remainder after the shorthand prefix — or the input unchanged when the
/// input carries no shorthand or no home directory is known.
pub open spec fn spec_resolve(raw: Seq<char>, home: Option<Seq<char>>) -> Seq<char> {
    if is_shorthand(raw) && home is Some {
        home->Some_0 + seq!['/'] + raw.subrange(2, raw.len() as int)
    } else {
        raw
    }
}

/// Expand a leading `~/` shorthand against the given home directory.
///
/// When `raw` starts with `~/` and a home directory is known, the result is
/// the home directory, a `/` separator, and the rest of `raw`; otherwise
/// `raw` comes back unchanged. An unknown home directory is not an error at
/// this stage: resolution degrades silently and the operating-system call
/// made on the unresolved path reports the failure.
pub fn resolve(raw: &str, home: Option<&str>) -> (r: String)
    ensures
        r@ == spec_resolve(
            raw@,
            match home {
                Some(h) => Some(h@),
                None => None,
            },
        ),
{
    let n = raw.unicode_len();
    if n >= 2 && raw.get_char(0) == '~' && raw.get_char(1) == '/' {
        if let Some(h) = home {
            let mut out = h.to_owned();
            out.append("/");
            let rest = raw.substring_char(2, n);
            out.append(rest);
            proof {
                reveal_strlit("/");
                assert(out@ =~= h@ + seq!['/'] + raw@.subrange(2, raw@.len() as int));
            }
            return out;
        }
    }
    raw.to_owned()
}

} // verus!
