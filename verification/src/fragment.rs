//! The redirect token extractor.
//!
//! After the authorization redirect, the browser navigates back with the
//! access token in the URL fragment. The extractor matches the fragment
//! against the callback pattern: the fragment starts with `#`, holds the
//! `token_type` marker, and holds `access_token=` followed by a non-empty
//! run of non-`&` characters with at least one more character after the
//! captured run — the greedy pattern takes the last occurrence that admits a
//! match, and gives one character of the run back when the run reaches the
//! end. The captured value is percent-decoded.
//!
//! Extraction is pure: clearing the fragment from the visible URL is the
//! session's explicit action, never a side effect here.

use vstd::prelude::*;
use crate::chars::occurs_at;
use crate::chars::contains_seq;
use crate::chars::sep_end;
use crate::chars::sep_end_exec;
use crate::chars::str_to_chars;
use crate::chars::matches_at;
use crate::chars::contains_chars;
use crate::chars::chars_to_string;
use crate::chars::subvec;
use crate::pct::pct_ok;
use crate::pct::pct_decoded;
use crate::pct::pct_decode;

verus! {

/// Position `q`, right after an `access_token=` occurrence, admits a match:
/// a non-`&` character stands at `q`, and a character follows the captured
/// run.
pub open spec fn viable_at(s: Seq<char>, q: int) -> bool {
    &&& occurs_at(s, "access_token="@, q - "access_token="@.len())
    &&& q < s.len() && s[q] != '&'
    &&& (sep_end(s, q, '&') < s.len() || sep_end(s, q, '&') - q >= 2)
}

/// The token captured at a viable position `q`: the non-`&` run, giving one
/// character back when the run reaches the end of the fragment.
pub open spec fn group_at(s: Seq<char>, q: int) -> Seq<char> {
    let e = sep_end(s, q, '&');
    if e < s.len() {
        s.subrange(q, e)
    } else {
        s.subrange(q, e - 1)
    }
}

/// The last viable position at or below `q`.
pub open spec fn last_viable(s: Seq<char>, q: int) -> Option<int>
    decreases
            (if q < 0 {
                0int
            } else {
                q + 1
            }),
{
    if q < 0 {
        None
    } else if viable_at(s, q) {
        Some(q)
    } else {
        last_viable(s, q - 1)
    }
}

/// The raw captured token of a callback fragment: present when the fragment
/// starts with `#`, holds the `token_type` marker somewhere, and some
/// position admits a match. The last viable position wins, as it does under
/// the greedy pattern.
pub open spec fn fragment_token_raw(s: Seq<char>) -> Option<Seq<char>> {
    if s.len() > 0 && s[0] == '#' && contains_seq(s, "token_type"@) {
        match last_viable(s, s.len() - 1) {
            Some(q) => Some(group_at(s, q)),
            None => None,
        }
    } else {
        None
    }
}

/// What extraction yields: the captured token, percent-decoded; nothing
/// where the pattern does not match or the capture does not decode.
pub open spec fn extract_spec(s: Seq<char>) -> Option<Seq<char>> {
    match fragment_token_raw(s) {
        Some(g) => if pct_ok(g) {
            Some(pct_decoded(g))
        } else {
            None
        },
        None => None,
    }
}

/// Whether position `q` admits a match.
fn viable_exec(s: &Vec<char>, marker: &Vec<char>, q: usize) -> (b: bool)
    requires
        marker@ == "access_token="@,
        q < s@.len(),
    ensures
        b == viable_at(s@, q as int),
{
    if q < marker.len() {
        proof {
            assert(!occurs_at(s@, "access_token="@, q - "access_token="@.len()));
        }
        return false;
    }
    if !matches_at(s, marker, q - marker.len()) {
        return false;
    }
    if s[q] == '&' {
        return false;
    }
    let e = sep_end_exec(s, q, '&');
    e < s.len() || e - q >= 2
}

/// Extracts the access token from the current navigation fragment;
/// `None` where the callback pattern does not match or the captured value
/// is not percent-decodable.
pub fn extract(fragment: &str) -> (r: Option<String>)
    ensures
        match r {
            Some(t) => extract_spec(fragment@) == Some(t@),
            None => extract_spec(fragment@) is None,
        },
{
    let s = str_to_chars(fragment);
    if s.len() == 0 {
        return None;
    }
    if s[0] != '#' {
        return None;
    }
    let tt = str_to_chars("token_type");
    if !contains_chars(&s, &tt) {
        return None;
    }
    let marker = str_to_chars("access_token=");
    let mut qi = s.len();
    while qi > 0
        invariant
            marker@ == "access_token="@,
            s@ == fragment@,
            s@.len() > 0,
            s@[0] == '#',
            contains_seq(s@, "token_type"@),
            qi <= s@.len(),
            last_viable(s@, s@.len() - 1) == last_viable(s@, qi - 1),
        decreases qi,
    {
        qi = qi - 1;
        if viable_exec(&s, &marker, qi) {
            let e = sep_end_exec(&s, qi, '&');
            let raw = if e < s.len() {
                subvec(&s, qi, e)
            } else {
                subvec(&s, qi, e - 1)
            };
            let raw_str = chars_to_string(&raw);
            proof {
                assert(raw_str@ == group_at(s@, qi as int));
                assert(last_viable(s@, qi as int) == Some(qi as int));
                assert(last_viable(s@, s@.len() - 1) == Some(qi as int));
                assert(fragment_token_raw(s@) == Some(group_at(s@, qi as int)));
            }
            return match pct_decode(raw_str.as_str()) {
                Some(d) => Some(d),
                None => None,
            };
        }
    }
    proof {
        assert(last_viable(s@, -1) is None);
    }
    None
}

} // verus!
