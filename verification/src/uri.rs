//! URI authority extraction.
//!
//! The cookie key and the webfinger URL are built from the host (and port)
//! of the configured root and client URIs. Parsing a URI is the http
//! crate's work; the library only formats what the parser hands back.

use vstd::prelude::*;
use vstd::string::StringExecFns;
use crate::chars::dec_string;
use crate::chars::u16_to_chars;
use crate::chars::chars_to_string;

verus! {

/// The authority that the http crate's URI parser extracts from `s`: the
/// host, and the port when one is given; `None` where `s` does not parse as
/// a URI with a host.
pub uninterp spec fn uri_authority(s: Seq<char>) -> Option<(Seq<char>, Option<u16>)>;

/// Relies on `str::parse::<http::uri::Uri>`, `http::uri::Uri::host` and
/// `http::uri::Uri::port_u16`: the host and decimal port of the parsed
/// URI's authority.
#[verifier::external_body]
pub(crate) fn parse_authority(s: &str) -> (r: Option<(String, Option<u16>)>)
    ensures
        match r {
            Some(hp) => uri_authority(s@) == Some((hp.0@, hp.1)),
            None => uri_authority(s@) is None,
        },
{
    match s.parse::<http::uri::Uri>() {
        Ok(uri) => match uri.host() {
            Some(h) => Some((h.to_string(), uri.port_u16())),
            None => None,
        },
        Err(_) => None,
    }
}

/// `host`, with `:port` appended when a port is there.
pub open spec fn host_port(h: Seq<char>, p: Option<u16>) -> Seq<char> {
    match p {
        Some(p) => h + seq![':'] + dec_string(p as int),
        None => h,
    }
}

/// The `host[:port]` of `s`, or `None` where `s` has no authority.
pub open spec fn authority_of(s: Seq<char>) -> Option<Seq<char>> {
    match uri_authority(s) {
        Some(hp) => Some(host_port(hp.0, hp.1)),
        None => None,
    }
}

/// The host of `s`, or `None` where `s` has no authority.
pub open spec fn host_of(s: Seq<char>) -> Option<Seq<char>> {
    match uri_authority(s) {
        Some(hp) => Some(hp.0),
        None => None,
    }
}

/// The `host[:port]` of the URI `s`, as the cookie key uses it.
pub fn authority_string(s: &str) -> (r: Option<String>)
    ensures
        match r {
            Some(a) => authority_of(s@) == Some(a@),
            None => authority_of(s@) is None,
        },
{
    match parse_authority(s) {
        Some((h, p)) => {
            match p {
                Some(p) => {
                    let ghost h0 = h@;
                    let mut out = h;
                    out.append(":");
                    let digits = u16_to_chars(p);
                    let ds = chars_to_string(&digits);
                    out.append(ds.as_str());
                    proof {
                        reveal_strlit(":");
                        assert(out@ =~= host_port(h0, Some(p)));
                    }
                    Some(out)
                }
                None => Some(h),
            }
        }
        None => None,
    }
}

/// The host of the URI `s`, as the webfinger resource uses it.
pub fn host_string(s: &str) -> (r: Option<String>)
    ensures
        match r {
            Some(h) => host_of(s@) == Some(h@),
            None => host_of(s@) is None,
        },
{
    match parse_authority(s) {
        Some((h, _)) => Some(h),
        None => None,
    }
}

} // verus!
