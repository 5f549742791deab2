//! Choosing a window title from raw property bytes.
//!
//! The windowing system offers a title through an ordered list of window
//! properties: a UTF-8 name first, a legacy name second. Fetching the raw
//! property bytes is the caller's business; this module holds the decision:
//! take the first lookup that produced nonempty bytes that really are UTF-8
//! text, and when every lookup failed, fall back to the sentinel title
//! `Unknown`. An unset window property reads back as a successful reply with
//! an empty value, so an empty candidate counts as unset and the next lookup
//! is tried.

use vstd::prelude::*;
use vstd::utf8::valid_utf8;

verus! {

/// What the ordered lookup yields: the first candidate that is present,
/// nonempty and valid UTF-8; else the second under the same test; else
/// nothing. An empty candidate is an unset property, never a title.
pub open spec fn selected_title(primary: Option<Seq<u8>>, fallback: Option<Seq<u8>>) -> Option<
    Seq<u8>,
> {
    match primary {
        Some(p) if p.len() > 0 && valid_utf8(p) => Some(p),
        _ => match fallback {
            Some(f) if f.len() > 0 && valid_utf8(f) => Some(f),
            _ => None,
        },
    }
}

/// Relies on `core::str::from_utf8`: it returns `Ok` exactly when the bytes
/// are valid UTF-8, which `vstd::utf8::valid_utf8` specifies.
#[verifier::external_body]
fn utf8_ok(v: &Vec<u8>) -> (r: bool)
    ensures
        r == valid_utf8(v@),
{
    core::str::from_utf8(v.as_slice()).is_ok()
}

/// Picks the title from the two property lookups, first one wins: the
/// result is the first candidate that is present, nonempty and valid UTF-8.
/// A chosen title is therefore never empty.
pub fn select_title(primary: Option<Vec<u8>>, fallback: Option<Vec<u8>>) -> (r: Option<Vec<u8>>)
    ensures
        r.deep_view() == selected_title(primary.deep_view(), fallback.deep_view()),
        r matches Some(t) ==> t@.len() > 0,
{
    if let Some(p) = primary {
        proof {
            assert(p.deep_view() =~= p@);
        }
        if p.len() > 0 && utf8_ok(&p) {
            return Some(p);
        }
        if let Some(f) = fallback {
            proof {
                assert(f.deep_view() =~= f@);
            }
            if f.len() > 0 && utf8_ok(&f) {
                return Some(f);
            }
        }
        return None;
    }
    if let Some(f) = fallback {
        proof {
            assert(f.deep_view() =~= f@);
        }
        if f.len() > 0 && utf8_ok(&f) {
            return Some(f);
        }
    }
    None
}

/// The view of the sentinel title, the text `Unknown`.
pub open spec fn unknown_title_seq() -> Seq<u8> {
    seq![0x55u8, 0x6eu8, 0x6bu8, 0x6eu8, 0x6fu8, 0x77u8, 0x6eu8]
}

/// The sentinel title used when no window title could be determined.
pub fn unknown_title() -> (v: Vec<u8>)
    ensures
        v@ == unknown_title_seq(),
{
    let v: Vec<u8> = vec![0x55u8, 0x6eu8, 0x6bu8, 0x6eu8, 0x6fu8, 0x77u8, 0x6eu8];
    proof {
        assert(v@ =~= unknown_title_seq());
    }
    v
}

/// The title a tick works with: the probed title when there is one, the
/// sentinel `Unknown` otherwise.
pub fn title_or_unknown(probed: Option<Vec<u8>>) -> (v: Vec<u8>)
    ensures
        v@ == match probed.deep_view() {
            Some(t) => t,
            None => unknown_title_seq(),
        },
{
    match probed {
        Some(t) => t,
        None => unknown_title(),
    }
}

} // verus!
