//! The token store adapter.
//!
//! The persisted side-channel is a cookie string: `;`-separated entries,
//! each `name=value` with the value percent-encoded. This module is the only
//! place that reads or writes that format. It builds the scoped key that
//! keeps independent accounts apart, looks a key up (the last entry under a
//! name wins, and a value that does not decode fails the whole read), and
//! renders the assignment that persists a token.

use vstd::prelude::*;
use vstd::string::StringExecFns;
use crate::chars::sep_end;
use crate::chars::sep_end_exec;
use crate::chars::lemma_sep_end_absent;
use crate::chars::lemma_sep_end_at;
use crate::chars::str_to_chars;
use crate::chars::subvec;
use crate::chars::chars_eq;
use crate::chars::chars_to_string;
use crate::pct::pct_encoded;
use crate::pct::pct_ok;
use crate::pct::pct_decoded;
use crate::pct::pct_encode;
use crate::pct::pct_decode;

verus! {

/// Why a store access failed: an entry's value is not a well-formed
/// percent-encoded string.
#[derive(Debug, Clone, Copy, PartialEq, Eq, Structural)]
pub enum StoreError {
    NotDecodable,
}

/// Whitespace as `str::trim` removes it: the Unicode white-space property.
pub open spec fn is_trim_ws(c: char) -> bool {
    let d = c as u32;
    (0x09 <= d <= 0x0D) || d == 0x20 || d == 0x85 || d == 0xA0 || d == 0x1680 || (0x2000 <= d
        <= 0x200A) || d == 0x2028 || d == 0x2029 || d == 0x202F || d == 0x205F || d == 0x3000
}

/// `s` with leading whitespace removed.
pub open spec fn trim_start_s(s: Seq<char>) -> Seq<char>
    decreases s.len(),
{
    if s.len() > 0 && is_trim_ws(s[0]) {
        trim_start_s(s.drop_first())
    } else {
        s
    }
}

/// `s` with trailing whitespace removed.
pub open spec fn trim_end_s(s: Seq<char>) -> Seq<char>
    decreases s.len(),
{
    if s.len() > 0 && is_trim_ws(s.last()) {
        trim_end_s(s.drop_last())
    } else {
        s
    }
}

/// `s` with whitespace removed on both sides.
pub open spec fn trim_s(s: Seq<char>) -> Seq<char> {
    trim_end_s(trim_start_s(s))
}

/// The `;`-separated pieces of a cookie string.
pub open spec fn split_semi(s: Seq<char>) -> Seq<Seq<char>>
    decreases s.len(),
{
    let e = sep_end(s, 0, ';');
    if !(0 <= e < s.len()) {
        seq![s]
    } else {
        seq![s.subrange(0, e)] + split_semi(s.subrange(e + 1, s.len() as int))
    }
}

/// The name of one cookie entry: what stands before the first `=`, trimmed.
pub open spec fn entry_name(p: Seq<char>) -> Seq<char> {
    trim_s(p.subrange(0, sep_end(p, 0, '=')))
}

/// The raw value of one cookie entry: what stands between the first and the
/// second `=`, trimmed; nothing where the entry has no `=`.
pub open spec fn entry_value_raw(p: Seq<char>) -> Option<Seq<char>> {
    let e1 = sep_end(p, 0, '=');
    if e1 >= p.len() {
        None
    } else {
        Some(trim_s(p.subrange(e1 + 1, sep_end(p, e1 + 1, '='))))
    }
}

/// The raw value of the last entry named `name`.
pub open spec fn lookup_raw(entries: Seq<Seq<char>>, name: Seq<char>) -> Option<
    Option<Seq<char>>,
>
    decreases entries.len(),
{
    if entries.len() == 0 {
        None
    } else if entry_name(entries.last()) == name {
        Some(entry_value_raw(entries.last()))
    } else {
        lookup_raw(entries.drop_last(), name)
    }
}

/// Every entry value of the cookie string decodes; reading fails otherwise.
pub open spec fn store_wf(s: Seq<char>) -> bool {
    forall|i: int|
        0 <= i < split_semi(s).len() ==> (match entry_value_raw(#[trigger] split_semi(s)[i]) {
            Some(raw) => pct_ok(raw),
            None => true,
        })
}

/// What a successful read yields: the decoded value of the last entry under
/// `name`, nothing where no entry matches or the matching entry has no
/// value.
pub open spec fn cookie_get_spec(s: Seq<char>, name: Seq<char>) -> Option<Seq<char>> {
    match lookup_raw(split_semi(s), name) {
        Some(Some(raw)) => Some(pct_decoded(raw)),
        _ => None,
    }
}

/// The cookie assignment that persists `value` under `name`.
pub open spec fn cookie_set_spec(name: Seq<char>, value: Seq<char>) -> Seq<char> {
    name + "="@ + pct_encoded(value)
}

/// The scoped store key: the client host, account, root host and scope,
/// each percent-encoded, joined by `|`, with the fixed access-token suffix.
pub open spec fn store_key_spec(
    client_hp: Seq<char>,
    account: Seq<char>,
    root_hp: Seq<char>,
    scope: Seq<char>,
) -> Seq<char> {
    pct_encoded(client_hp) + "|"@ + pct_encoded(account) + "|"@ + pct_encoded(root_hp) + "|"@
        + pct_encoded(scope) + "|access_token"@
}

/// A character that the store format never treats specially: no entry
/// separator, no assignment, no whitespace to trim.
pub open spec fn benign_key_char(c: char) -> bool {
    !is_trim_ws(c) && c != ';' && c != '='
}

/// Trimming changes nothing where no character is whitespace.
proof fn lemma_trim_id(s: Seq<char>)
    requires
        forall|i: int| 0 <= i < s.len() ==> !is_trim_ws(#[trigger] s[i]),
    ensures
        trim_s(s) == s,
{
    assert(trim_start_s(s) == s);
    assert(trim_end_s(s) == s);
}

/// What encoding emits is benign for the store format.
proof fn lemma_pct_chars_benign(s: Seq<char>)
    requires
        forall|i: int|
            0 <= i < s.len() ==> crate::pct::is_unreserved(#[trigger] s[i]) || s[i] == '%',
    ensures
        forall|i: int| 0 <= i < s.len() ==> benign_key_char(#[trigger] s[i]),
{
    assert forall|i: int| 0 <= i < s.len() implies benign_key_char(#[trigger] s[i]) by {
        let c = s[i];
        assert(crate::pct::is_unreserved(c) || c == '%');
        assert(!is_trim_ws(c));
        assert(c != ';' && c != '=');
    }
}

/// The scoped key is never empty and holds only benign characters.
pub proof fn lemma_store_key_benign(
    client_hp: Seq<char>,
    account: Seq<char>,
    root_hp: Seq<char>,
    scope: Seq<char>,
)
    ensures
        store_key_spec(client_hp, account, root_hp, scope).len() > 0,
        forall|i: int|
            0 <= i < store_key_spec(client_hp, account, root_hp, scope).len()
                ==> benign_key_char(#[trigger] store_key_spec(client_hp, account, root_hp, scope)[i]),
{
    let key = store_key_spec(client_hp, account, root_hp, scope);
    let e1 = pct_encoded(client_hp);
    let e2 = pct_encoded(account);
    let e3 = pct_encoded(root_hp);
    let e4 = pct_encoded(scope);
    crate::pct::lemma_pct_encoded_charset(client_hp);
    crate::pct::lemma_pct_encoded_charset(account);
    crate::pct::lemma_pct_encoded_charset(root_hp);
    crate::pct::lemma_pct_encoded_charset(scope);
    lemma_pct_chars_benign(e1);
    lemma_pct_chars_benign(e2);
    lemma_pct_chars_benign(e3);
    lemma_pct_chars_benign(e4);
    reveal_strlit("|");
    reveal_strlit("|access_token");
    assert("|"@ =~= seq!['|']);
    assert("|access_token"@ =~= seq![
        '|',
        'a',
        'c',
        'c',
        'e',
        's',
        's',
        '_',
        't',
        'o',
        'k',
        'e',
        'n',
    ]);
    assert(benign_key_char('|') && benign_key_char('a') && benign_key_char('c')
        && benign_key_char('e') && benign_key_char('s') && benign_key_char('_')
        && benign_key_char('t') && benign_key_char('o') && benign_key_char('k')
        && benign_key_char('n'));
    assert(key.len() >= 13);
    assert forall|i: int| 0 <= i < key.len() implies benign_key_char(#[trigger] key[i]) by {
        let n1 = e1.len();
        let n2 = e2.len();
        let n3 = e3.len();
        let n4 = e4.len();
        if i < n1 {
            assert(key[i] == e1[i]);
        } else if i == n1 {
            assert(key[i] == '|');
        } else if i < n1 + 1 + n2 {
            assert(key[i] == e2[i - n1 - 1]);
        } else if i == n1 + 1 + n2 {
            assert(key[i] == '|');
        } else if i < n1 + 1 + n2 + 1 + n3 {
            assert(key[i] == e3[i - n1 - 1 - n2 - 1]);
        } else if i == n1 + 1 + n2 + 1 + n3 {
            assert(key[i] == '|');
        } else if i < n1 + 1 + n2 + 1 + n3 + 1 + n4 {
            assert(key[i] == e4[i - n1 - 1 - n2 - 1 - n3 - 1]);
        } else {
            assert(key[i] == "|access_token"@[i - n1 - 1 - n2 - 1 - n3 - 1 - n4]);
        }
    }
}

/// The store round trip: persisting a token under a benign key and reading
/// the same key back yields the identical token. The re-read decodes what
/// persisting encoded.
pub proof fn lemma_store_round_trip(key: Seq<char>, t: Seq<char>)
    requires
        key.len() > 0,
        forall|i: int| 0 <= i < key.len() ==> benign_key_char(#[trigger] key[i]),
    ensures
        store_wf(cookie_set_spec(key, t)),
        cookie_get_spec(cookie_set_spec(key, t), key) == Some(t),
{
    let enc = pct_encoded(t);
    let a = cookie_set_spec(key, t);
    reveal_strlit("=");
    assert("="@ =~= seq!['=']);
    assert(a.len() == key.len() + 1 + enc.len());
    assert(a[key.len() as int] == '=');
    crate::pct::lemma_pct_encoded_charset(t);
    lemma_pct_chars_benign(enc);
    assert(forall|j: int| 0 <= j < key.len() ==> a[j] == key[j]);
    assert(forall|j: int| 0 <= j < enc.len() ==> a[key.len() + 1 + j] == enc[j]);
    // the assignment holds no entry separator
    assert forall|j: int| 0 <= j < a.len() implies a[j] != ';' by {
        if j < key.len() {
            assert(benign_key_char(key[j]));
        } else if j > key.len() {
            assert(a[j] == enc[j - key.len() - 1]);
            assert(benign_key_char(enc[j - key.len() - 1]));
        }
    }
    lemma_sep_end_absent(a, 0, ';');
    assert(split_semi(a) =~= seq![a]);
    // its name is the key
    lemma_sep_end_at(a, 0, key.len() as int, '=');
    assert(a.subrange(0, key.len() as int) =~= key);
    lemma_trim_id(key);
    assert(entry_name(a) == key);
    // its raw value is the encoded token
    assert forall|j: int| key.len() + 1 <= j < a.len() implies a[j] != '=' by {
        assert(a[j] == enc[j - key.len() - 1]);
        assert(benign_key_char(enc[j - key.len() - 1]));
    }
    lemma_sep_end_absent(a, key.len() as int + 1, '=');
    assert(a.subrange(key.len() as int + 1, a.len() as int) =~= enc);
    lemma_trim_id(enc);
    assert(entry_value_raw(a) == Some(enc));
    // the one entry is found and well formed
    assert(lookup_raw(seq![a], key) == Some(Some(enc)));
    crate::pct::lemma_pct_round_trip(t);
    assert forall|i: int| 0 <= i < split_semi(a).len() implies (match entry_value_raw(
        #[trigger] split_semi(a)[i],
    ) {
        Some(raw) => pct_ok(raw),
        None => true,
    }) by {
        assert(split_semi(a)[i] == a);
    }
    assert(cookie_get_spec(a, key) == Some(pct_decoded(enc)));
}

/// Trims whitespace on both sides.
fn trim_exec(s: &Vec<char>) -> (r: Vec<char>)
    ensures
        r@ == trim_s(s@),
{
    let mut a: usize = 0;
    proof {
        assert(s@.subrange(0, s@.len() as int) =~= s@);
    }
    while a < s.len() && is_trim_ws_exec(s[a])
        invariant
            a <= s@.len(),
            trim_start_s(s@) == trim_start_s(s@.subrange(a as int, s@.len() as int)),
        decreases s@.len() - a,
    {
        proof {
            assert(s@.subrange(a as int, s@.len() as int).drop_first() =~= s@.subrange(
                a + 1,
                s@.len() as int,
            ));
        }
        a = a + 1;
    }
    proof {
        assert(trim_start_s(s@) =~= s@.subrange(a as int, s@.len() as int));
    }
    let mut b: usize = s.len();
    while b > a && is_trim_ws_exec(s[b - 1])
        invariant
            a <= b <= s@.len(),
            trim_start_s(s@) == s@.subrange(a as int, s@.len() as int),
            trim_end_s(trim_start_s(s@)) == trim_end_s(s@.subrange(a as int, b as int)),
        decreases b,
    {
        proof {
            assert(s@.subrange(a as int, b as int).drop_last() =~= s@.subrange(
                a as int,
                b - 1,
            ));
        }
        b = b - 1;
    }
    proof {
        assert(trim_end_s(s@.subrange(a as int, b as int)) =~= s@.subrange(a as int, b as int));
    }
    subvec(s, a, b)
}

/// Whether `c` is whitespace for trimming.
fn is_trim_ws_exec(c: char) -> (b: bool)
    ensures
        b == is_trim_ws(c),
{
    let d = c as u32;
    (0x09 <= d && d <= 0x0D) || d == 0x20 || d == 0x85 || d == 0xA0 || d == 0x1680 || (0x2000 <= d
        && d <= 0x200A) || d == 0x2028 || d == 0x2029 || d == 0x202F || d == 0x205F || d == 0x3000
}

/// Splits a cookie string at `;`.
fn split_semi_exec(s: &Vec<char>) -> (r: Vec<Vec<char>>)
    ensures
        r@.map_values(|p: Vec<char>| p@) == split_semi(s@),
        r@.len() >= 1,
    decreases s@.len(),
{
    let e = sep_end_exec(s, 0, ';');
    if e >= s.len() {
        let piece = subvec(s, 0, s.len());
        let mut out: Vec<Vec<char>> = Vec::new();
        out.push(piece);
        proof {
            assert(s@.subrange(0, s@.len() as int) =~= s@);
            assert(out@.map_values(|p: Vec<char>| p@) =~= split_semi(s@));
        }
        out
    } else {
        let piece = subvec(s, 0, e);
        let rest = subvec(s, e + 1, s.len());
        let mut tail = split_semi_exec(&rest);
        let ghost tail0 = tail@;
        tail.insert(0, piece);
        proof {
            assert(tail@ =~= seq![piece] + tail0);
            assert(tail@.map_values(|p: Vec<char>| p@) =~= seq![piece@] + tail0.map_values(
                |p: Vec<char>| p@,
            ));
        }
        tail
    }
}

/// The name and raw value of one cookie entry.
fn entry_parts(p: &Vec<char>) -> (r: (Vec<char>, Option<Vec<char>>))
    ensures
        r.0@ == entry_name(p@),
        match r.1 {
            Some(v) => entry_value_raw(p@) == Some(v@),
            None => entry_value_raw(p@) is None,
        },
{
    let e1 = sep_end_exec(p, 0, '=');
    let name_raw = subvec(p, 0, e1);
    let name = trim_exec(&name_raw);
    if e1 >= p.len() {
        (name, None)
    } else {
        let e2 = sep_end_exec(p, e1 + 1, '=');
        let value_raw = subvec(p, e1 + 1, e2);
        let value = trim_exec(&value_raw);
        (name, Some(value))
    }
}

/// Reads the value persisted under `name`.
///
/// The last entry under `name` wins; its value is percent-decoded. The read
/// fails where any entry's value is not decodable, as the adapter decodes
/// every entry it walks.
pub fn cookie_get(cookies: &str, name: &str) -> (r: Result<Option<String>, StoreError>)
    ensures
        match r {
            Ok(v) => store_wf(cookies@) && (match v {
                Some(t) => cookie_get_spec(cookies@, name@) == Some(t@),
                None => cookie_get_spec(cookies@, name@) is None,
            }),
            Err(e) => !store_wf(cookies@) && e == StoreError::NotDecodable,
        },
{
    let cs = str_to_chars(cookies);
    let name_cs = str_to_chars(name);
    let pieces = split_semi_exec(&cs);
    let ghost entries = split_semi(cookies@);
    proof {
        assert(entries =~= pieces@.map_values(|p: Vec<char>| p@));
        assert(entries.take(0) =~= Seq::<Seq<char>>::empty());
    }
    let mut best: Option<Option<String>> = None;
    let ghost mut best_raw: Option<Option<Seq<char>>> = None;
    let mut i: usize = 0;
    while i < pieces.len()
        invariant
            entries == split_semi(cookies@),
            entries == pieces@.map_values(|p: Vec<char>| p@),
            entries.len() == pieces@.len(),
            i <= pieces@.len(),
            name_cs@ == name@,
            forall|j: int|
                0 <= j < i ==> (match entry_value_raw(#[trigger] entries[j]) {
                    Some(raw) => pct_ok(raw),
                    None => true,
                }),
            best_raw == lookup_raw(entries.take(i as int), name@),
            match best {
                Some(Some(t)) => best_raw matches Some(Some(raw)) && pct_ok(raw) && t@
                    == pct_decoded(raw),
                Some(None) => best_raw == Some(Option::<Seq<char>>::None),
                None => best_raw is None,
            },
        decreases pieces@.len() - i,
    {
        let (ename, evalue) = entry_parts(&pieces[i]);
        proof {
            assert(entries[i as int] == pieces@[i as int]@);
            assert(entries.take(i + 1).drop_last() =~= entries.take(i as int));
            assert(entries.take(i + 1).last() == entries[i as int]);
        }
        let decoded: Option<String> = match &evalue {
            Some(v) => {
                let vs = chars_to_string(v);
                match pct_decode(vs.as_str()) {
                    Some(d) => Some(d),
                    None => {
                        proof {
                            assert(!store_wf(cookies@)) by {
                                assert(match entry_value_raw(entries[i as int]) {
                                    Some(raw) => !pct_ok(raw),
                                    None => false,
                                });
                            }
                        }
                        return Err(StoreError::NotDecodable);
                    }
                }
            }
            None => None,
        };
        if chars_eq(&ename, &name_cs) {
            proof {
                best_raw = Some(entry_value_raw(entries[i as int]));
            }
            best = match decoded {
                Some(d) => Some(Some(d)),
                None => Some(None),
            };
        }
        i = i + 1;
    }
    proof {
        assert(entries.take(entries.len() as int) =~= entries);
    }
    match best {
        Some(Some(t)) => Ok(Some(t)),
        _ => Ok(None),
    }
}

/// Renders the assignment that persists `value` under `name`.
pub fn cookie_set(name: &str, value: &str) -> (r: String)
    ensures
        r@ == cookie_set_spec(name@, value@),
{
    let mut out = name.to_owned();
    out.append("=");
    let enc = pct_encode(value);
    out.append(enc.as_str());
    proof {
        reveal_strlit("=");
        assert(out@ =~= cookie_set_spec(name@, value@));
    }
    out
}

/// Builds the scoped store key from the four scoping components.
pub fn store_key(client_hp: &str, account: &str, root_hp: &str, scope: &str) -> (r: String)
    ensures
        r@ == store_key_spec(client_hp@, account@, root_hp@, scope@),
{
    let mut out = pct_encode(client_hp);
    out.append("|");
    let e1 = pct_encode(account);
    out.append(e1.as_str());
    out.append("|");
    let e2 = pct_encode(root_hp);
    out.append(e2.as_str());
    out.append("|");
    let e3 = pct_encode(scope);
    out.append(e3.as_str());
    out.append("|access_token");
    proof {
        reveal_strlit("|");
        reveal_strlit("|access_token");
        assert(out@ =~= store_key_spec(client_hp@, account@, root_hp@, scope@));
    }
    out
}

} // verus!
