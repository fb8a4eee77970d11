//! The discovery resolver.
//!
//! An account identifier is resolved to candidate storage links by a
//! webfinger lookup: a GET on the root's well-known discovery path, answered
//! by a JSON body with a `links` array. This module builds the discovery URL
//! and turns a response body into the list of links, with the schema stated
//! exactly over the JSON grammar.

use vstd::prelude::*;
use vstd::string::StringExecFns;
use vstd::string::StrSliceExecFns;
use crate::json::Json;
use crate::json::JsonV;
use crate::json::jview;
use crate::json::jview_members;
use crate::json::jview_seq;
use crate::json::json_parse;
use crate::json::json_parse_s;
use crate::chars::str_to_chars;
use crate::chars::chars_to_string;
use crate::chars::chars_eq;

verus! {

/// One discovered storage link: a storage base path, and opaque properties
/// keyed by property URIs. A property value may be null.
pub struct DiscoveryLink {
    pub href: String,
    pub properties: Vec<(String, Option<String>)>,
}

/// A discovered link, at the specification level.
pub struct LinkV {
    pub href: Seq<char>,
    pub properties: Seq<(Seq<char>, Option<Seq<char>>)>,
}

/// The view of one property pair.
pub open spec fn prop_view(p: (String, Option<String>)) -> (Seq<char>, Option<Seq<char>>) {
    (
        p.0@,
        match p.1 {
            Some(v) => Some(v@),
            None => None,
        },
    )
}

impl View for DiscoveryLink {
    type V = LinkV;

    open spec fn view(&self) -> LinkV {
        LinkV {
            href: self.href@,
            properties: self.properties@.map_values(|p: (String, Option<String>)| prop_view(p)),
        }
    }
}

/// The ordered sequence of discovered links; the first entry is the primary
/// candidate. At least one link must be there for the flow to proceed, and
/// parsing guarantees it.
pub struct DiscoveryResult {
    pub links: Vec<DiscoveryLink>,
}

impl View for DiscoveryResult {
    type V = Seq<LinkV>;

    open spec fn view(&self) -> Seq<LinkV> {
        self.links@.map_values(|l: DiscoveryLink| l@)
    }
}

/// Why discovery failed: the transport failed, the body was not the
/// expected JSON shape, or the `links` array was empty.
#[derive(Debug, Clone, Copy, PartialEq, Eq, Structural)]
pub enum DiscoveryError {
    Network,
    Malformed,
    NoLinks,
}

/// How many members of `ms` are named `k`.
pub open spec fn key_count(ms: Seq<(Seq<char>, JsonV)>, k: Seq<char>) -> int
    decreases ms.len(),
{
    if ms.len() == 0 {
        0
    } else {
        (if ms[0].0 == k {
            1int
        } else {
            0int
        }) + key_count(ms.drop_first(), k)
    }
}

/// The value of the first member of `ms` named `k`; meaningful when one is
/// there.
pub open spec fn key_first(ms: Seq<(Seq<char>, JsonV)>, k: Seq<char>) -> JsonV
    decreases ms.len(),
{
    if ms.len() == 0 {
        JsonV::Null
    } else if ms[0].0 == k {
        ms[0].1
    } else {
        key_first(ms.drop_first(), k)
    }
}

/// The properties mapping held by a `properties` object: every member value
/// must be a string or null. Pairs keep the member order; a repeated key
/// keeps all its pairs, and lookups take the last one.
pub open spec fn props_of(ms: Seq<(Seq<char>, JsonV)>) -> Option<
    Seq<(Seq<char>, Option<Seq<char>>)>,
>
    decreases ms.len(),
{
    if ms.len() == 0 {
        Some(Seq::empty())
    } else {
        let head = match ms[0].1 {
            JsonV::Str(v) => Some(Some(v)),
            JsonV::Null => Some(None),
            _ => None,
        };
        match head {
            Some(v) => match props_of(ms.drop_first()) {
                Some(r) => Some(seq![(ms[0].0, v)] + r),
                None => None,
            },
            None => None,
        }
    }
}

/// The link that a JSON value stands for: an object with a required string
/// `href`, an optional object `properties` (defaulting to an empty mapping),
/// and any other members ignored. A repeated `href` or `properties` member
/// is refused.
pub open spec fn link_of(v: JsonV) -> Option<LinkV> {
    match v {
        JsonV::Obj(ms) => {
            if key_count(ms, "href"@) == 1 && key_count(ms, "properties"@) <= 1 {
                match key_first(ms, "href"@) {
                    JsonV::Str(h) => {
                        if key_count(ms, "properties"@) == 0 {
                            Some(LinkV { href: h, properties: Seq::empty() })
                        } else {
                            match key_first(ms, "properties"@) {
                                JsonV::Obj(pm) => match props_of(pm) {
                                    Some(ps) => Some(LinkV { href: h, properties: ps }),
                                    None => None,
                                },
                                _ => None,
                            }
                        }
                    }
                    _ => None,
                }
            } else {
                None
            }
        }
        _ => None,
    }
}

/// The links that the elements of the `links` array stand for.
pub open spec fn links_of(es: Seq<JsonV>) -> Option<Seq<LinkV>>
    decreases es.len(),
{
    if es.len() == 0 {
        Some(Seq::empty())
    } else {
        match link_of(es[0]) {
            Some(l) => match links_of(es.drop_first()) {
                Some(r) => Some(seq![l] + r),
                None => None,
            },
            None => None,
        }
    }
}

/// What a discovery response body yields: the links of a JSON object's
/// `links` array, `Malformed` where the body is not of that shape, and
/// `NoLinks` where the array is empty.
pub open spec fn discovery_of(s: Seq<char>) -> Result<Seq<LinkV>, DiscoveryError> {
    match json_parse_s(s) {
        Some(v) => match v {
            JsonV::Obj(ms) => {
                if key_count(ms, "links"@) == 1 {
                    match key_first(ms, "links"@) {
                        JsonV::Arr(es) => match links_of(es) {
                            Some(ls) => {
                                if ls.len() == 0 {
                                    Err(DiscoveryError::NoLinks)
                                } else {
                                    Ok(ls)
                                }
                            }
                            None => Err(DiscoveryError::Malformed),
                        },
                        _ => Err(DiscoveryError::Malformed),
                    }
                } else {
                    Err(DiscoveryError::Malformed)
                }
            }
            _ => Err(DiscoveryError::Malformed),
        },
        None => Err(DiscoveryError::Malformed),
    }
}

/// Discovery idempotence: what a response body yields is a function of the
/// body alone, so two runs over one fixture are structurally identical.
pub proof fn lemma_discover_idempotent(first: Seq<char>, second: Seq<char>)
    requires
        first == second,
    ensures
        discovery_of(first) == discovery_of(second),
{
}

/// Member views are indexed pointwise.
proof fn lemma_jview_members_index(s: Seq<(Vec<char>, Json)>)
    ensures
        jview_members(s).len() == s.len(),
        forall|j: int|
            0 <= j < s.len() ==> #[trigger] jview_members(s)[j] == (s[j].0@, jview(s[j].1)),
    decreases s.len(),
{
    if s.len() > 0 {
        lemma_jview_members_index(s.drop_last());
    }
}

/// Element views are indexed pointwise.
proof fn lemma_jview_seq_index(s: Seq<Json>)
    ensures
        jview_seq(s).len() == s.len(),
        forall|j: int| 0 <= j < s.len() ==> #[trigger] jview_seq(s)[j] == jview(s[j]),
    decreases s.len(),
{
    if s.len() > 0 {
        lemma_jview_seq_index(s.drop_last());
    }
}

/// Scans the members named `key`: how many there are, and the index of the
/// first one.
fn scan_key(ms: &Vec<(Vec<char>, Json)>, key: &Vec<char>) -> (r: (usize, Option<usize>))
    ensures
        r.0 as int == key_count(jview_members(ms@), key@),
        match r.1 {
            Some(ix) => ix < ms@.len() && ms@[ix as int].0@ == key@ && jview(ms@[ix as int].1)
                == key_first(jview_members(ms@), key@),
            None => key_count(jview_members(ms@), key@) == 0,
        },
{
    let ghost mm = jview_members(ms@);
    proof {
        lemma_jview_members_index(ms@);
        assert(mm.skip(0) =~= mm);
    }
    let mut count: usize = 0;
    let mut first: Option<usize> = None;
    let mut i: usize = 0;
    while i < ms.len()
        invariant
            mm == jview_members(ms@),
            mm.len() == ms@.len(),
            forall|j: int| 0 <= j < ms@.len() ==> #[trigger] mm[j] == (ms@[j].0@, jview(ms@[j].1)),
            i <= ms@.len(),
            count <= i,
            key_count(mm, key@) == count + key_count(mm.skip(i as int), key@),
            match first {
                Some(ix) => ix < i && ms@[ix as int].0@ == key@ && jview(ms@[ix as int].1)
                    == key_first(mm, key@),
                None => count == 0 && key_first(mm, key@) == key_first(mm.skip(i as int), key@),
            },
        decreases ms@.len() - i,
    {
        let ghost rem = mm.skip(i as int);
        proof {
            assert(rem.len() == mm.len() - i);
            assert(rem[0] == mm[i as int]);
            assert(rem.drop_first() =~= mm.skip(i + 1));
        }
        if chars_eq(&ms[i].0, key) {
            count = count + 1;
            if first.is_none() {
                first = Some(i);
                proof {
                    assert(key_first(rem, key@) == rem[0].1);
                }
            }
        }
        i = i + 1;
    }
    proof {
        assert(mm.skip(ms@.len() as int) =~= Seq::<(Seq<char>, JsonV)>::empty());
    }
    (count, first)
}

/// Builds the properties mapping from a `properties` object's members.
fn props_from_json(pm: &Vec<(Vec<char>, Json)>) -> (r: Option<Vec<(String, Option<String>)>>)
    ensures
        match r {
            Some(ps) => props_of(jview_members(pm@)) == Some(
                ps@.map_values(|p: (String, Option<String>)| prop_view(p)),
            ),
            None => props_of(jview_members(pm@)) is None,
        },
{
    let ghost mm = jview_members(pm@);
    proof {
        lemma_jview_members_index(pm@);
        assert(mm.skip(0) =~= mm);
        assert(Seq::<(String, Option<String>)>::empty().map_values(
            |p: (String, Option<String>)| prop_view(p),
        ) =~= Seq::<(Seq<char>, Option<Seq<char>>)>::empty());
    }
    let mut out: Vec<(String, Option<String>)> = Vec::new();
    let mut i: usize = 0;
    while i < pm.len()
        invariant
            mm == jview_members(pm@),
            mm.len() == pm@.len(),
            forall|j: int| 0 <= j < pm@.len() ==> #[trigger] mm[j] == (pm@[j].0@, jview(pm@[j].1)),
            i <= pm@.len(),
            out@.len() == i,
            match props_of(mm) {
                Some(all) => props_of(mm.skip(i as int)) matches Some(rest) && all == out@.map_values(
                    |p: (String, Option<String>)| prop_view(p),
                ) + rest,
                None => props_of(mm.skip(i as int)) is None,
            },
        decreases pm@.len() - i,
    {
        let ghost rem = mm.skip(i as int);
        proof {
            assert(rem.len() == mm.len() - i);
            assert(rem[0] == mm[i as int]);
            assert(rem.drop_first() =~= mm.skip(i + 1));
        }
        let value: Option<String> = match &pm[i].1 {
            Json::Str(v) => Some(chars_to_string(v)),
            Json::Null => None,
            _ => {
                proof {
                    assert(props_of(rem) is None);
                }
                return None;
            }
        };
        let name = chars_to_string(&pm[i].0);
        let ghost out0 = out@;
        out.push((name, value));
        proof {
            assert(out@ =~= out0.push((name, value)));
            assert(out@.map_values(|p: (String, Option<String>)| prop_view(p)) =~= out0.map_values(
                |p: (String, Option<String>)| prop_view(p),
            ).push(prop_view((name, value))));
            assert(props_of(rem) matches Some(re) ==> re == seq![(mm[i as int].0, prop_view(
                (name, value),
            ).1)] + props_of(mm.skip(i + 1)).unwrap());
        }
        i = i + 1;
    }
    proof {
        assert(mm.skip(pm@.len() as int) =~= Seq::<(Seq<char>, JsonV)>::empty());
        assert(props_of(mm.skip(pm@.len() as int)) == Some(
            Seq::<(Seq<char>, Option<Seq<char>>)>::empty(),
        ));
    }
    Some(out)
}

/// Builds one link from a JSON value.
fn link_from_json(v: &Json) -> (r: Option<DiscoveryLink>)
    ensures
        match r {
            Some(l) => link_of(jview(*v)) == Some(l@),
            None => link_of(jview(*v)) is None,
        },
{
    match v {
        Json::Obj(ms) => {
            let href_key = str_to_chars("href");
            let props_key = str_to_chars("properties");
            let (hc, hix) = scan_key(ms, &href_key);
            let (pc, _) = scan_key(ms, &props_key);
            if hc != 1 || pc > 1 {
                return None;
            }
            let hix = match hix {
                Some(ix) => ix,
                None => {
                    proof {
                        assert(false);
                    }
                    0
                }
            };
            let href = match &ms[hix].1 {
                Json::Str(h) => chars_to_string(h),
                _ => {
                    return None;
                }
            };
            if pc == 0 {
                let properties: Vec<(String, Option<String>)> = Vec::new();
                let l = DiscoveryLink { href, properties };
                proof {
                    assert(l@.properties =~= Seq::<(Seq<char>, Option<Seq<char>>)>::empty());
                }
                Some(l)
            } else {
                let (_, pix) = scan_key(ms, &props_key);
                let pix = match pix {
                    Some(ix) => ix,
                    None => {
                        proof {
                            assert(false);
                        }
                        0
                    }
                };
                match &ms[pix].1 {
                    Json::Obj(pm) => match props_from_json(pm) {
                        Some(properties) => Some(DiscoveryLink { href, properties }),
                        None => None,
                    },
                    _ => None,
                }
            }
        }
        _ => None,
    }
}

/// Builds the link list from the `links` array's elements.
fn links_from_json(es: &Vec<Json>) -> (r: Option<Vec<DiscoveryLink>>)
    ensures
        match r {
            Some(ls) => links_of(jview_seq(es@)) == Some(
                ls@.map_values(|l: DiscoveryLink| l@),
            ) && ls@.len() == es@.len(),
            None => links_of(jview_seq(es@)) is None,
        },
{
    let ghost vs = jview_seq(es@);
    proof {
        lemma_jview_seq_index(es@);
        assert(vs.skip(0) =~= vs);
        assert(Seq::<DiscoveryLink>::empty().map_values(|l: DiscoveryLink| l@)
            =~= Seq::<LinkV>::empty());
    }
    let mut out: Vec<DiscoveryLink> = Vec::new();
    let mut i: usize = 0;
    while i < es.len()
        invariant
            vs == jview_seq(es@),
            vs.len() == es@.len(),
            forall|j: int| 0 <= j < es@.len() ==> #[trigger] vs[j] == jview(es@[j]),
            i <= es@.len(),
            out@.len() == i,
            match links_of(vs) {
                Some(all) => links_of(vs.skip(i as int)) matches Some(rest) && all == out@.map_values(
                    |l: DiscoveryLink| l@,
                ) + rest,
                None => links_of(vs.skip(i as int)) is None,
            },
        decreases es@.len() - i,
    {
        let ghost rem = vs.skip(i as int);
        proof {
            assert(rem.len() == vs.len() - i);
            assert(rem[0] == vs[i as int]);
            assert(rem.drop_first() =~= vs.skip(i + 1));
        }
        match link_from_json(&es[i]) {
            Some(l) => {
                let ghost out0 = out@;
                let ghost lv = l@;
                out.push(l);
                proof {
                    assert(out@ =~= out0.push(out@[out@.len() - 1]));
                    assert(out@.map_values(|l: DiscoveryLink| l@) =~= out0.map_values(
                        |l: DiscoveryLink| l@,
                    ).push(lv));
                }
            }
            None => {
                proof {
                    assert(links_of(rem) is None);
                }
                return None;
            }
        }
        i = i + 1;
    }
    proof {
        assert(vs.skip(es@.len() as int) =~= Seq::<JsonV>::empty());
    }
    Some(out)
}

/// Parses a discovery response body into the discovered links.
///
/// Returns `Malformed` where the body is not a JSON object with a `links`
/// array of well-formed link objects, and `NoLinks` where the array is
/// empty; a non-empty result always holds at least one link.
pub fn parse_discovery(body: &str) -> (r: Result<DiscoveryResult, DiscoveryError>)
    ensures
        match r {
            Ok(d) => discovery_of(body@) == Ok::<Seq<LinkV>, DiscoveryError>(d@) && d@.len() > 0
                && d.links@.len() > 0,
            Err(e) => discovery_of(body@) == Err::<Seq<LinkV>, DiscoveryError>(e),
        },
{
    let cs = str_to_chars(body);
    let parsed = match json_parse(&cs) {
        Some(v) => v,
        None => {
            return Err(DiscoveryError::Malformed);
        }
    };
    match parsed {
        Json::Obj(ms) => {
            let links_key = str_to_chars("links");
            let (lc, lix) = scan_key(&ms, &links_key);
            if lc != 1 {
                return Err(DiscoveryError::Malformed);
            }
            let lix = match lix {
                Some(ix) => ix,
                None => {
                    proof {
                        assert(false);
                    }
                    0
                }
            };
            match &ms[lix].1 {
                Json::Arr(es) => match links_from_json(es) {
                    Some(links) => {
                        if links.len() == 0 {
                            Err(DiscoveryError::NoLinks)
                        } else {
                            Ok(DiscoveryResult { links })
                        }
                    }
                    None => Err(DiscoveryError::Malformed),
                },
                _ => Err(DiscoveryError::Malformed),
            }
        }
        _ => Err(DiscoveryError::Malformed),
    }
}

/// The outcome of one discovery attempt: the response body where the
/// transport succeeded, `None` where it failed.
pub fn discover_outcome(body: Option<&str>) -> (r: Result<DiscoveryResult, DiscoveryError>)
    ensures
        match body {
            Some(b) => match r {
                Ok(d) => discovery_of(b@) == Ok::<Seq<LinkV>, DiscoveryError>(d@)
                    && d.links@.len() > 0,
                Err(e) => discovery_of(b@) == Err::<Seq<LinkV>, DiscoveryError>(e),
            },
            None => r == Err::<DiscoveryResult, DiscoveryError>(DiscoveryError::Network),
        },
{
    match body {
        Some(b) => parse_discovery(b),
        None => Err(DiscoveryError::Network),
    }
}

/// The value under `k` in a properties mapping; with a repeated key the
/// last pair wins, as a map filled by insertion holds.
pub open spec fn prop_lookup(ps: Seq<(Seq<char>, Option<Seq<char>>)>, k: Seq<char>) -> Option<
    Option<Seq<char>>,
>
    decreases ps.len(),
{
    if ps.len() == 0 {
        None
    } else if ps.last().0 == k {
        Some(ps.last().1)
    } else {
        prop_lookup(ps.drop_last(), k)
    }
}

/// Reads one property of a link by its key.
pub fn link_property(link: &DiscoveryLink, key: &str) -> (r: Option<Option<String>>)
    ensures
        match r {
            Some(Some(v)) => prop_lookup(link@.properties, key@) == Some(Some(v@)),
            Some(None) => prop_lookup(link@.properties, key@) == Some(Option::<Seq<char>>::None),
            None => prop_lookup(link@.properties, key@) is None,
        },
{
    let ghost ps = link@.properties;
    let key_string = key.to_owned();
    let mut i: usize = link.properties.len();
    proof {
        assert(ps =~= link.properties@.map_values(|p: (String, Option<String>)| prop_view(p)));
        assert(ps.take(i as int) =~= ps);
    }
    while i > 0
        invariant
            ps == link@.properties,
            ps.len() == link.properties@.len(),
            forall|j: int|
                0 <= j < ps.len() ==> #[trigger] ps[j] == prop_view(link.properties@[j]),
            i <= ps.len(),
            key_string@ == key@,
            prop_lookup(ps, key@) == prop_lookup(ps.take(i as int), key@),
        decreases i,
    {
        i = i - 1;
        proof {
            assert(ps.take(i + 1).last() == ps[i as int]);
            assert(ps.take(i + 1).drop_last() =~= ps.take(i as int));
        }
        if link.properties[i].0 == key_string {
            let value = match &link.properties[i].1 {
                Some(v) => Some(v.clone()),
                None => None,
            };
            return Some(value);
        }
    }
    proof {
        assert(ps.take(0) =~= Seq::<(Seq<char>, Option<Seq<char>>)>::empty());
    }
    None
}

/// One trailing slash of the root is dropped before the well-known path is
/// appended.
pub open spec fn strip_one_trailing_slash(s: Seq<char>) -> Seq<char> {
    if s.len() > 0 && s.last() == '/' {
        s.drop_last()
    } else {
        s
    }
}

/// The discovery URL: the normalized root, the well-known webfinger path,
/// and the account at the root's own host.
pub open spec fn webfinger_url_spec(root: Seq<char>, account: Seq<char>, host: Seq<char>) -> Seq<
    char,
> {
    strip_one_trailing_slash(root) + "/.well-known/webfinger?resource=acct:"@ + account + "@"@
        + host
}

/// Builds the discovery URL for `account` under `root`; `None` where the
/// root URI has no parseable host.
pub fn discovery_url(root: &str, account: &str) -> (r: Option<String>)
    ensures
        match r {
            Some(u) => crate::uri::host_of(root@) matches Some(h) && u@ == webfinger_url_spec(
                root@,
                account@,
                h,
            ),
            None => crate::uri::host_of(root@) is None,
        },
{
    let host = match crate::uri::host_string(root) {
        Some(h) => h,
        None => {
            return None;
        }
    };
    let n = root.unicode_len();
    let mut out: String;
    if n > 0 && root.get_char(n - 1) == '/' {
        let stripped = root.substring_char(0, n - 1);
        out = stripped.to_owned();
        proof {
            assert(out@ =~= strip_one_trailing_slash(root@));
        }
    } else {
        out = root.to_owned();
    }
    out.append("/.well-known/webfinger?resource=acct:");
    out.append(account);
    out.append("@");
    out.append(host.as_str());
    Some(out)
}

} // verus!
