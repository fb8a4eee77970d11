//! A JSON parser with an exact specification.
//!
//! The discovery endpoint answers with a JSON document. This module defines
//! the accepted grammar as specification functions (`json_parse_s` and its
//! helpers) and an executable parser proved to return exactly what the
//! grammar says. Numbers are validated but their value is not retained: the
//! discovery schema never reads one.

use vstd::prelude::*;
use crate::chars::occurs_at;
use crate::chars::char_from_u32;

verus! {

broadcast use vstd::std_specs::vec::axiom_vec_index_decreases, vstd::std_specs::vec::axiom_vec_decreases_to_view;

/// A JSON value, at the specification level.
pub enum JsonV {
    Null,
    Bool(bool),
    Num,
    Str(Seq<char>),
    Arr(Seq<JsonV>),
    Obj(Seq<(Seq<char>, JsonV)>),
}

/// A parsed JSON value.
pub enum Json {
    Null,
    Bool(bool),
    Num,
    Str(Vec<char>),
    Arr(Vec<Json>),
    Obj(Vec<(Vec<char>, Json)>),
}

/// The specification-level value that a parsed value stands for.
pub open spec fn jview(j: Json) -> JsonV
    decreases j,
{
    match j {
        Json::Null => JsonV::Null,
        Json::Bool(b) => JsonV::Bool(b),
        Json::Num => JsonV::Num,
        Json::Str(v) => JsonV::Str(v@),
        Json::Arr(v) => JsonV::Arr(jview_seq(v@)),
        Json::Obj(v) => JsonV::Obj(jview_members(v@)),
    }
}

/// The views of a sequence of parsed values.
pub open spec fn jview_seq(s: Seq<Json>) -> Seq<JsonV>
    decreases s,
{
    if s.len() == 0 {
        Seq::empty()
    } else {
        jview_seq(s.drop_last()).push(jview(s.last()))
    }
}

/// The views of a sequence of parsed object members.
pub open spec fn jview_members(s: Seq<(Vec<char>, Json)>) -> Seq<(Seq<char>, JsonV)>
    decreases s,
{
    if s.len() == 0 {
        Seq::empty()
    } else {
        jview_members(s.drop_last()).push((s.last().0@, jview(s.last().1)))
    }
}

/// Viewing distributes over prepending an element.
proof fn lemma_jview_seq_cons(x: Json, t: Seq<Json>)
    ensures
        jview_seq(seq![x] + t) == seq![jview(x)] + jview_seq(t),
    decreases t.len(),
{
    let u = seq![x] + t;
    if t.len() == 0 {
        assert(u.drop_last() =~= Seq::<Json>::empty());
        assert(jview_seq(u.drop_last()) =~= Seq::<JsonV>::empty());
        assert(u.last() == x);
        assert(jview_seq(u) =~= seq![jview(x)]);
        assert(jview_seq(t) =~= Seq::<JsonV>::empty());
        assert(jview_seq(u) =~= seq![jview(x)] + jview_seq(t));
    } else {
        lemma_jview_seq_cons(x, t.drop_last());
        assert(u.drop_last() =~= seq![x] + t.drop_last());
        assert(u.last() == t.last());
        assert(jview_seq(u) == jview_seq(u.drop_last()).push(jview(u.last())));
        assert(jview_seq(u.drop_last()) == seq![jview(x)] + jview_seq(t.drop_last()));
        assert(jview_seq(t) == jview_seq(t.drop_last()).push(jview(t.last())));
        assert((seq![jview(x)] + jview_seq(t.drop_last())).push(jview(t.last())) =~= seq![jview(
            x,
        )] + jview_seq(t));
    }
}

/// Viewing distributes over prepending a member.
proof fn lemma_jview_members_cons(x: (Vec<char>, Json), t: Seq<(Vec<char>, Json)>)
    ensures
        jview_members(seq![x] + t) == seq![(x.0@, jview(x.1))] + jview_members(t),
    decreases t.len(),
{
    let u = seq![x] + t;
    if t.len() == 0 {
        assert(u.drop_last() =~= Seq::<(Vec<char>, Json)>::empty());
        assert(jview_members(u.drop_last()) =~= Seq::<(Seq<char>, JsonV)>::empty());
        assert(u.last() == x);
        assert(jview_members(u) =~= seq![(x.0@, jview(x.1))]);
        assert(jview_members(t) =~= Seq::<(Seq<char>, JsonV)>::empty());
        assert(jview_members(u) =~= seq![(x.0@, jview(x.1))] + jview_members(t));
    } else {
        lemma_jview_members_cons(x, t.drop_last());
        assert(u.drop_last() =~= seq![x] + t.drop_last());
        assert(u.last() == t.last());
        assert(jview_members(u) == jview_members(u.drop_last()).push(
            (u.last().0@, jview(u.last().1)),
        ));
        assert(jview_members(u.drop_last()) == seq![(x.0@, jview(x.1))] + jview_members(
            t.drop_last(),
        ));
        assert(jview_members(t) == jview_members(t.drop_last()).push(
            (t.last().0@, jview(t.last().1)),
        ));
        assert((seq![(x.0@, jview(x.1))] + jview_members(t.drop_last())).push(
            (t.last().0@, jview(t.last().1)),
        ) =~= seq![(x.0@, jview(x.1))] + jview_members(t));
    }
}

/// JSON whitespace.
pub open spec fn is_ws(c: char) -> bool {
    c == ' ' || c == '\t' || c == '\n' || c == '\r'
}

/// An ASCII decimal digit.
pub open spec fn is_digit(c: char) -> bool {
    0x30 <= c as u32 <= 0x39
}

/// An ASCII hexadecimal digit.
pub open spec fn is_hex_digit(c: char) -> bool {
    0x30 <= c as u32 <= 0x39 || 0x41 <= c as u32 <= 0x46 || 0x61 <= c as u32 <= 0x66
}

/// The value of a hexadecimal digit.
pub open spec fn hex_val(c: char) -> int {
    let d = c as u32 as int;
    if 0x30 <= d <= 0x39 {
        d - 0x30
    } else if 0x41 <= d <= 0x46 {
        d - 0x37
    } else {
        d - 0x57
    }
}

/// The first index at or after `i` holding a non-whitespace character.
pub open spec fn skip_ws_s(s: Seq<char>, i: int) -> int
    decreases s.len() - i,
{
    if 0 <= i < s.len() && is_ws(s[i]) {
        skip_ws_s(s, i + 1)
    } else {
        i
    }
}

/// The first index at or after `i` holding a non-digit character.
pub open spec fn digits_end_s(s: Seq<char>, i: int) -> int
    decreases s.len() - i,
{
    if 0 <= i < s.len() && is_digit(s[i]) {
        digits_end_s(s, i + 1)
    } else {
        i
    }
}

/// `j`, but kept inside `[lo, hi]`. Positions handed to nested parses are
/// clamped so that every recursion measure visibly decreases; the executable
/// parser proves that the clamps never move a real position.
pub open spec fn clamp_to(j: int, lo: int, hi: int) -> int {
    if j > hi {
        hi
    } else if j < lo {
        lo
    } else {
        j
    }
}

/// Four hexadecimal digits at `i`.
pub open spec fn hex4_at(s: Seq<char>, i: int) -> bool {
    &&& i + 4 <= s.len()
    &&& is_hex_digit(s[i])
    &&& is_hex_digit(s[i + 1])
    &&& is_hex_digit(s[i + 2])
    &&& is_hex_digit(s[i + 3])
}

/// The value of the four hexadecimal digits at `i`.
pub open spec fn hex4_val(s: Seq<char>, i: int) -> int {
    hex_val(s[i]) * 0x1000 + hex_val(s[i + 1]) * 0x100 + hex_val(s[i + 2]) * 0x10 + hex_val(
        s[i + 3],
    )
}

/// The character that a single-character escape stands for.
pub open spec fn unescaped_char(e: char) -> char {
    if e == 'b' {
        (0x08 as u8) as char
    } else if e == 'f' {
        (0x0C as u8) as char
    } else if e == 'n' {
        '\n'
    } else if e == 'r' {
        '\r'
    } else if e == 't' {
        '\t'
    } else {
        e
    }
}

/// Whether `e` is a single-character escape.
pub open spec fn is_simple_escape(e: char) -> bool {
    e == '"' || e == '\\' || e == '/' || e == 'b' || e == 'f' || e == 'n' || e == 'r' || e == 't'
}

/// Parses the remainder of a string literal, starting right after the
/// opening quote. Returns the decoded characters and the position after the
/// closing quote.
pub open spec fn parse_string_rest_s(s: Seq<char>, i: int) -> Option<(Seq<char>, int)>
    decreases s.len() - i,
{
    if !(0 <= i < s.len()) {
        None
    } else {
        let c = s[i];
        if c == '"' {
            Some((Seq::empty(), i + 1))
        } else if c == '\\' {
            if i + 1 < s.len() {
                let e = s[i + 1];
                if is_simple_escape(e) {
                    match parse_string_rest_s(s, i + 2) {
                        Some((rest, j)) => Some((seq![unescaped_char(e)] + rest, j)),
                        None => None,
                    }
                } else if e == 'u' && hex4_at(s, i + 2) {
                    let code = hex4_val(s, i + 2);
                    if 0xD800 <= code < 0xDC00 {
                        if i + 12 <= s.len() && s[i + 6] == '\\' && s[i + 7] == 'u' && hex4_at(
                            s,
                            i + 8,
                        ) {
                            let low = hex4_val(s, i + 8);
                            if 0xDC00 <= low < 0xE000 {
                                let cp = 0x10000 + (code - 0xD800) * 0x400 + (low - 0xDC00);
                                match parse_string_rest_s(s, i + 12) {
                                    Some((rest, j)) => Some(
                                        (seq![(cp as u32) as char] + rest, j),
                                    ),
                                    None => None,
                                }
                            } else {
                                None
                            }
                        } else {
                            None
                        }
                    } else if 0xDC00 <= code < 0xE000 {
                        None
                    } else {
                        match parse_string_rest_s(s, i + 6) {
                            Some((rest, j)) => Some((seq![(code as u32) as char] + rest, j)),
                            None => None,
                        }
                    }
                } else {
                    None
                }
            } else {
                None
            }
        } else if (c as u32) < 0x20 {
            None
        } else {
            match parse_string_rest_s(s, i + 1) {
                Some((rest, j)) => Some((seq![c] + rest, j)),
                None => None,
            }
        }
    }
}

/// Parses a string literal starting at the opening quote.
pub open spec fn parse_string_s(s: Seq<char>, i: int) -> Option<(Seq<char>, int)> {
    if 0 <= i < s.len() && s[i] == '"' {
        parse_string_rest_s(s, i + 1)
    } else {
        None
    }
}

/// Validates the fraction and exponent parts of a number; `i` is the
/// position after the integer part.
pub open spec fn parse_exp_s(s: Seq<char>, i: int) -> Option<int> {
    if 0 <= i < s.len() && (s[i] == 'e' || s[i] == 'E') {
        let k = if i + 1 < s.len() && (s[i + 1] == '+' || s[i + 1] == '-') {
            i + 2
        } else {
            i + 1
        };
        if k < s.len() && is_digit(s[k]) {
            Some(digits_end_s(s, k))
        } else {
            None
        }
    } else {
        Some(i)
    }
}

/// Validates the fraction part of a number and what follows it.
pub open spec fn parse_frac_s(s: Seq<char>, i: int) -> Option<int> {
    if 0 <= i < s.len() && s[i] == '.' {
        if i + 1 < s.len() && is_digit(s[i + 1]) {
            parse_exp_s(s, digits_end_s(s, i + 1))
        } else {
            None
        }
    } else {
        parse_exp_s(s, i)
    }
}

/// Validates a number starting at `i`; returns the position after it.
pub open spec fn parse_number_s(s: Seq<char>, i: int) -> Option<int> {
    if !(0 <= i < s.len()) {
        None
    } else {
        let j = if s[i] == '-' {
            i + 1
        } else {
            i
        };
        if j < s.len() && is_digit(s[j]) {
            let int_end = if s[j] == '0' {
                j + 1
            } else {
                digits_end_s(s, j)
            };
            parse_frac_s(s, int_end)
        } else {
            None
        }
    }
}

/// Parses one JSON value starting exactly at `i`.
pub open spec fn parse_value_s(s: Seq<char>, i: int) -> Option<(JsonV, int)>
    decreases s.len() - i, 0int,
{
    if !(0 <= i < s.len()) {
        None
    } else {
        let c = s[i];
        if c == 'n' {
            if occurs_at(s, "null"@, i) {
                Some((JsonV::Null, i + 4))
            } else {
                None
            }
        } else if c == 't' {
            if occurs_at(s, "true"@, i) {
                Some((JsonV::Bool(true), i + 4))
            } else {
                None
            }
        } else if c == 'f' {
            if occurs_at(s, "false"@, i) {
                Some((JsonV::Bool(false), i + 5))
            } else {
                None
            }
        } else if c == '"' {
            match parse_string_s(s, i) {
                Some((st, j)) => Some((JsonV::Str(st), j)),
                None => None,
            }
        } else if c == '[' {
            let j = clamp_to(skip_ws_s(s, i + 1), i + 1, s.len() as int);
            if j < s.len() && s[j] == ']' {
                Some((JsonV::Arr(Seq::empty()), j + 1))
            } else {
                match parse_elems_s(s, j) {
                    Some((elems, k)) => {
                        let m = skip_ws_s(s, clamp_to(k, j, s.len() as int));
                        if 0 <= m < s.len() && s[m] == ']' {
                            Some((JsonV::Arr(elems), m + 1))
                        } else {
                            None
                        }
                    }
                    None => None,
                }
            }
        } else if c == '{' {
            let j = clamp_to(skip_ws_s(s, i + 1), i + 1, s.len() as int);
            if j < s.len() && s[j] == '}' {
                Some((JsonV::Obj(Seq::empty()), j + 1))
            } else {
                match parse_members_s(s, j) {
                    Some((members, k)) => {
                        let m = skip_ws_s(s, clamp_to(k, j, s.len() as int));
                        if 0 <= m < s.len() && s[m] == '}' {
                            Some((JsonV::Obj(members), m + 1))
                        } else {
                            None
                        }
                    }
                    None => None,
                }
            }
        } else if c == '-' || is_digit(c) {
            match parse_number_s(s, i) {
                Some(j) => Some((JsonV::Num, j)),
                None => None,
            }
        } else {
            None
        }
    }
}

/// Parses a comma-separated list of values; `i` is the position of the
/// first value. Returns the values and the position right after the last
/// one.
pub open spec fn parse_elems_s(s: Seq<char>, i: int) -> Option<(Seq<JsonV>, int)>
    decreases s.len() - i, 1int,
{
    if !(0 <= i <= s.len()) {
        None
    } else {
        match parse_value_s(s, i) {
            Some((v, j0)) => {
                let j = skip_ws_s(s, clamp_to(j0, i, s.len() as int));
                if 0 <= j < s.len() && s[j] == ',' {
                    let k = clamp_to(skip_ws_s(s, j + 1), i + 1, s.len() as int);
                    match parse_elems_s(s, k) {
                        Some((rest, m)) => Some((seq![v] + rest, m)),
                        None => None,
                    }
                } else {
                    Some((seq![v], j0))
                }
            }
            None => None,
        }
    }
}

/// Parses a comma-separated list of object members; `i` is the position of
/// the first key. Returns the key/value pairs and the position right after
/// the last value.
pub open spec fn parse_members_s(s: Seq<char>, i: int) -> Option<(Seq<(Seq<char>, JsonV)>, int)>
    decreases s.len() - i, 1int,
{
    if !(0 <= i <= s.len()) {
        None
    } else {
        match parse_string_s(s, i) {
            Some((key, j0)) => {
                let j = skip_ws_s(s, clamp_to(j0, i, s.len() as int));
                if 0 <= j < s.len() && s[j] == ':' {
                    let k = clamp_to(skip_ws_s(s, j + 1), i + 1, s.len() as int);
                    match parse_value_s(s, k) {
                        Some((v, m0)) => {
                            let m = skip_ws_s(s, clamp_to(m0, k, s.len() as int));
                            if 0 <= m < s.len() && s[m] == ',' {
                                let p = clamp_to(skip_ws_s(s, m + 1), i + 1, s.len() as int);
                                match parse_members_s(s, p) {
                                    Some((rest, q)) => Some((seq![(key, v)] + rest, q)),
                                    None => None,
                                }
                            } else {
                                Some((seq![(key, v)], m0))
                            }
                        }
                        None => None,
                    }
                } else {
                    None
                }
            }
            None => None,
        }
    }
}

/// Parses a complete JSON document: one value surrounded by whitespace.
pub open spec fn json_parse_s(s: Seq<char>) -> Option<JsonV> {
    match parse_value_s(s, skip_ws_s(s, 0)) {
        Some((v, j)) => {
            if skip_ws_s(s, j) == s.len() {
                Some(v)
            } else {
                None
            }
        }
        None => None,
    }
}

/// Whether `c` is JSON whitespace.
fn is_ws_exec(c: char) -> (b: bool)
    ensures
        b == is_ws(c),
{
    c == ' ' || c == '\t' || c == '\n' || c == '\r'
}

/// Whether `c` is an ASCII decimal digit.
fn is_digit_exec(c: char) -> (b: bool)
    ensures
        b == is_digit(c),
{
    let d = c as u32;
    0x30 <= d && d <= 0x39
}

/// Whether `c` is an ASCII hexadecimal digit.
fn is_hex_digit_exec(c: char) -> (b: bool)
    ensures
        b == is_hex_digit(c),
{
    let d = c as u32;
    (0x30 <= d && d <= 0x39) || (0x41 <= d && d <= 0x46) || (0x61 <= d && d <= 0x66)
}

/// The value of a hexadecimal digit.
fn hex_val_exec(c: char) -> (v: u32)
    requires
        is_hex_digit(c),
    ensures
        v == hex_val(c),
{
    let d = c as u32;
    if 0x30 <= d && d <= 0x39 {
        d - 0x30
    } else if 0x41 <= d && d <= 0x46 {
        d - 0x37
    } else {
        d - 0x57
    }
}

/// Skips whitespace, starting at `i`.
fn skip_ws(s: &Vec<char>, i: usize) -> (r: usize)
    requires
        i <= s@.len(),
    ensures
        i <= r <= s@.len(),
        r as int == skip_ws_s(s@, i as int),
{
    let mut k = i;
    while k < s.len() && is_ws_exec(s[k])
        invariant
            i <= k <= s@.len(),
            skip_ws_s(s@, i as int) == skip_ws_s(s@, k as int),
        decreases s@.len() - k,
    {
        k = k + 1;
    }
    k
}

/// Skips decimal digits, starting at `i`.
fn skip_digits(s: &Vec<char>, i: usize) -> (r: usize)
    requires
        i <= s@.len(),
    ensures
        i <= r <= s@.len(),
        r as int == digits_end_s(s@, i as int),
{
    let mut k = i;
    while k < s.len() && is_digit_exec(s[k])
        invariant
            i <= k <= s@.len(),
            digits_end_s(s@, i as int) == digits_end_s(s@, k as int),
        decreases s@.len() - k,
    {
        k = k + 1;
    }
    k
}

/// Reads the four hexadecimal digits at `i`, if they are there.
fn read_hex4(s: &Vec<char>, i: usize) -> (r: Option<u32>)
    requires
        i <= s@.len(),
    ensures
        r is Some <==> hex4_at(s@, i as int),
        r matches Some(v) ==> v == hex4_val(s@, i as int) && v <= 0xFFFF,
{
    if i >= s.len() || s.len() - i < 4 {
        return None;
    }
    if !is_hex_digit_exec(s[i]) || !is_hex_digit_exec(s[i + 1]) || !is_hex_digit_exec(s[i + 2])
        || !is_hex_digit_exec(s[i + 3]) {
        return None;
    }
    let v = hex_val_exec(s[i]) * 0x1000 + hex_val_exec(s[i + 1]) * 0x100 + hex_val_exec(s[i + 2])
        * 0x10 + hex_val_exec(s[i + 3]);
    Some(v)
}

/// Parses the remainder of a string literal, after the opening quote.
fn parse_string_rest(s: &Vec<char>, i: usize) -> (r: Option<(Vec<char>, usize)>)
    requires
        i <= s@.len(),
    ensures
        match r {
            Some((st, j)) => parse_string_rest_s(s@, i as int) == Some((st@, j as int)) && i < j
                <= s@.len(),
            None => parse_string_rest_s(s@, i as int) is None,
        },
    decreases s@.len() - i,
{
    if i >= s.len() {
        return None;
    }
    let c = s[i];
    if c == '"' {
        let out: Vec<char> = Vec::new();
        proof {
            assert(out@ =~= Seq::<char>::empty());
        }
        return Some((out, i + 1));
    }
    if c == '\\' {
        if i + 1 >= s.len() {
            return None;
        }
        let e = s[i + 1];
        if e == '"' || e == '\\' || e == '/' || e == 'b' || e == 'f' || e == 'n' || e == 'r' || e
            == 't' {
            let ch: char = if e == 'b' {
                (0x08 as u8) as char
            } else if e == 'f' {
                (0x0C as u8) as char
            } else if e == 'n' {
                '\n'
            } else if e == 'r' {
                '\r'
            } else if e == 't' {
                '\t'
            } else {
                e
            };
            match parse_string_rest(s, i + 2) {
                Some((mut rest, j)) => {
                    rest.insert(0, ch);
                    proof {
                        assert(rest@ =~= seq![unescaped_char(e)] + rest@.drop_first());
                    }
                    return Some((rest, j));
                }
                None => {
                    return None;
                }
            }
        } else if e == 'u' {
            match read_hex4(s, i + 2) {
                Some(code) => {
                    if 0xD800 <= code && code < 0xDC00 {
                        if s.len() - i >= 12 && s[i + 6] == '\\' && s[i + 7] == 'u' {
                            match read_hex4(s, i + 8) {
                                Some(low) => {
                                    if 0xDC00 <= low && low < 0xE000 {
                                        let cp: u32 = 0x10000 + (code - 0xD800) * 0x400 + (low
                                            - 0xDC00);
                                        let ch = match char_from_u32(cp) {
                                            Some(ch) => ch,
                                            None => {
                                                proof {
                                                    assert(false);
                                                }
                                                ' '
                                            }
                                        };
                                        match parse_string_rest(s, i + 12) {
                                            Some((mut rest, j)) => {
                                                rest.insert(0, ch);
                                                proof {
                                                    assert(rest@ =~= seq![(cp as char)]
                                                        + rest@.drop_first());
                                                }
                                                return Some((rest, j));
                                            }
                                            None => {
                                                return None;
                                            }
                                        }
                                    } else {
                                        return None;
                                    }
                                }
                                None => {
                                    return None;
                                }
                            }
                        } else {
                            return None;
                        }
                    } else if 0xDC00 <= code && code < 0xE000 {
                        return None;
                    } else {
                        let ch = match char_from_u32(code) {
                            Some(ch) => ch,
                            None => {
                                proof {
                                    assert(false);
                                }
                                ' '
                            }
                        };
                        match parse_string_rest(s, i + 6) {
                            Some((mut rest, j)) => {
                                rest.insert(0, ch);
                                proof {
                                    assert(rest@ =~= seq![(code as char)] + rest@.drop_first());
                                }
                                return Some((rest, j));
                            }
                            None => {
                                return None;
                            }
                        }
                    }
                }
                None => {
                    return None;
                }
            }
        } else {
            return None;
        }
    }
    if (c as u32) < 0x20 {
        return None;
    }
    match parse_string_rest(s, i + 1) {
        Some((mut rest, j)) => {
            rest.insert(0, c);
            proof {
                assert(rest@ =~= seq![c] + rest@.drop_first());
            }
            Some((rest, j))
        }
        None => None,
    }
}

/// Parses a string literal starting at the opening quote.
fn parse_string(s: &Vec<char>, i: usize) -> (r: Option<(Vec<char>, usize)>)
    requires
        i <= s@.len(),
    ensures
        match r {
            Some((st, j)) => parse_string_s(s@, i as int) == Some((st@, j as int)) && i < j
                <= s@.len(),
            None => parse_string_s(s@, i as int) is None,
        },
{
    if i < s.len() && s[i] == '"' {
        parse_string_rest(s, i + 1)
    } else {
        None
    }
}

/// Validates a number starting at `i`; returns the position after it.
fn parse_number(s: &Vec<char>, i: usize) -> (r: Option<usize>)
    requires
        i < s@.len(),
    ensures
        match r {
            Some(j) => parse_number_s(s@, i as int) == Some(j as int) && i < j <= s@.len(),
            None => parse_number_s(s@, i as int) is None,
        },
{
    let n = s.len();
    let j = if s[i] == '-' {
        i + 1
    } else {
        i
    };
    if !(j < n && is_digit_exec(s[j])) {
        return None;
    }
    let int_end = if s[j] == '0' {
        j + 1
    } else {
        let e = skip_digits(s, j + 1);
        proof {
            assert(digits_end_s(s@, j as int) == digits_end_s(s@, j + 1));
        }
        e
    };
    // fraction part
    let frac_end = if int_end < s.len() && s[int_end] == '.' {
        if int_end + 1 < s.len() && is_digit_exec(s[int_end + 1]) {
            skip_digits(s, int_end + 1)
        } else {
            return None;
        }
    } else {
        int_end
    };
    proof {
        assert(parse_frac_s(s@, int_end as int) == parse_exp_s(s@, frac_end as int));
    }
    // exponent part
    if frac_end < s.len() && (s[frac_end] == 'e' || s[frac_end] == 'E') {
        let k = if frac_end + 1 < s.len() && (s[frac_end + 1] == '+' || s[frac_end + 1] == '-') {
            frac_end + 2
        } else {
            frac_end + 1
        };
        if k < s.len() && is_digit_exec(s[k]) {
            let e = skip_digits(s, k + 1);
            proof {
                assert(digits_end_s(s@, k as int) == digits_end_s(s@, k + 1));
            }
            Some(e)
        } else {
            None
        }
    } else {
        Some(frac_end)
    }
}

/// Parses one JSON value starting exactly at `i`.
fn parse_value(s: &Vec<char>, i: usize) -> (r: Option<(Json, usize)>)
    requires
        i <= s@.len(),
    ensures
        match r {
            Some((v, j)) => parse_value_s(s@, i as int) == Some((jview(v), j as int)) && i < j
                <= s@.len(),
            None => parse_value_s(s@, i as int) is None,
        },
    decreases s@.len() - i, 0int,
{
    if i >= s.len() {
        return None;
    }
    let c = s[i];
    if c == 'n' {
        let pat = crate::chars::str_to_chars("null");
        if crate::chars::matches_at(s, &pat, i) {
            proof {
                reveal_strlit("null");
            }
            Some((Json::Null, i + 4))
        } else {
            None
        }
    } else if c == 't' {
        let pat = crate::chars::str_to_chars("true");
        if crate::chars::matches_at(s, &pat, i) {
            proof {
                reveal_strlit("true");
            }
            Some((Json::Bool(true), i + 4))
        } else {
            None
        }
    } else if c == 'f' {
        let pat = crate::chars::str_to_chars("false");
        if crate::chars::matches_at(s, &pat, i) {
            proof {
                reveal_strlit("false");
            }
            Some((Json::Bool(false), i + 5))
        } else {
            None
        }
    } else if c == '"' {
        match parse_string(s, i) {
            Some((st, j)) => Some((Json::Str(st), j)),
            None => None,
        }
    } else if c == '[' {
        let j = skip_ws(s, i + 1);
        if j < s.len() && s[j] == ']' {
            let out: Vec<Json> = Vec::new();
            proof {
                assert(jview_seq(out@) =~= Seq::<JsonV>::empty());
            }
            Some((Json::Arr(out), j + 1))
        } else {
            match parse_elems(s, j) {
                Some((elems, k)) => {
                    let m = skip_ws(s, k);
                    if m < s.len() && s[m] == ']' {
                        Some((Json::Arr(elems), m + 1))
                    } else {
                        None
                    }
                }
                None => None,
            }
        }
    } else if c == '{' {
        let j = skip_ws(s, i + 1);
        if j < s.len() && s[j] == '}' {
            let out: Vec<(Vec<char>, Json)> = Vec::new();
            proof {
                assert(jview_members(out@) =~= Seq::<(Seq<char>, JsonV)>::empty());
            }
            Some((Json::Obj(out), j + 1))
        } else {
            match parse_members(s, j) {
                Some((members, k)) => {
                    let m = skip_ws(s, k);
                    if m < s.len() && s[m] == '}' {
                        Some((Json::Obj(members), m + 1))
                    } else {
                        None
                    }
                }
                None => None,
            }
        }
    } else if c == '-' || is_digit_exec(c) {
        match parse_number(s, i) {
            Some(j) => Some((Json::Num, j)),
            None => None,
        }
    } else {
        None
    }
}

/// Parses a comma-separated list of values starting at `i`.
fn parse_elems(s: &Vec<char>, i: usize) -> (r: Option<(Vec<Json>, usize)>)
    requires
        i <= s@.len(),
    ensures
        match r {
            Some((es, k)) => parse_elems_s(s@, i as int) == Some((jview_seq(es@), k as int)) && i
                < k <= s@.len(),
            None => parse_elems_s(s@, i as int) is None,
        },
    decreases s@.len() - i, 1int,
{
    match parse_value(s, i) {
        Some((v, j0)) => {
            let j = skip_ws(s, j0);
            if j < s.len() && s[j] == ',' {
                let k = skip_ws(s, j + 1);
                match parse_elems(s, k) {
                    Some((mut rest, m)) => {
                        let ghost tail = rest@;
                        rest.insert(0, v);
                        proof {
                            assert(rest@ =~= seq![v] + tail);
                            lemma_jview_seq_cons(v, tail);
                        }
                        Some((rest, m))
                    }
                    None => None,
                }
            } else {
                let mut out: Vec<Json> = Vec::new();
                out.push(v);
                proof {
                    assert(out@ =~= seq![v]);
                    assert(out@.drop_last() =~= Seq::<Json>::empty());
                    assert(jview_seq(out@.drop_last()) =~= Seq::<JsonV>::empty());
                    assert(out@.last() == v);
                    assert(jview_seq(out@) =~= seq![jview(v)]);
                }
                Some((out, j0))
            }
        }
        None => None,
    }
}

/// Parses a comma-separated list of object members starting at `i`.
fn parse_members(s: &Vec<char>, i: usize) -> (r: Option<(Vec<(Vec<char>, Json)>, usize)>)
    requires
        i <= s@.len(),
    ensures
        match r {
            Some((ms, k)) => parse_members_s(s@, i as int) == Some((jview_members(ms@), k as int))
                && i < k <= s@.len(),
            None => parse_members_s(s@, i as int) is None,
        },
    decreases s@.len() - i, 1int,
{
    match parse_string(s, i) {
        Some((key, j0)) => {
            let j = skip_ws(s, j0);
            if j < s.len() && s[j] == ':' {
                let k = skip_ws(s, j + 1);
                match parse_value(s, k) {
                    Some((v, m0)) => {
                        let m = skip_ws(s, m0);
                        if m < s.len() && s[m] == ',' {
                            let p = skip_ws(s, m + 1);
                            match parse_members(s, p) {
                                Some((mut rest, q)) => {
                                    let ghost tail = rest@;
                                    rest.insert(0, (key, v));
                                    proof {
                                        assert(rest@ =~= seq![rest@[0]] + tail);
                                        lemma_jview_members_cons(rest@[0], tail);
                                    }
                                    Some((rest, q))
                                }
                                None => None,
                            }
                        } else {
                            let mut out: Vec<(Vec<char>, Json)> = Vec::new();
                            let ghost kv = (key@, jview(v));
                            out.push((key, v));
                            proof {
                                assert(out@ =~= seq![out@[0]]);
                                assert(out@.drop_last() =~= Seq::<(Vec<char>, Json)>::empty());
                                assert(jview_members(out@.drop_last()) =~= Seq::<(
                                    Seq<char>,
                                    JsonV,
                                )>::empty());
                                assert(out@.last().0@ == kv.0 && jview(out@.last().1) == kv.1);
                                assert(jview_members(out@) =~= seq![kv]);
                            }
                            Some((out, m0))
                        }
                    }
                    None => None,
                }
            } else {
                None
            }
        }
        None => None,
    }
}

/// Parses a complete JSON document: one value surrounded by whitespace.
pub fn json_parse(s: &Vec<char>) -> (r: Option<Json>)
    ensures
        match r {
            Some(v) => json_parse_s(s@) == Some(jview(v)),
            None => json_parse_s(s@) is None,
        },
{
    let i = skip_ws(s, 0);
    match parse_value(s, i) {
        Some((v, j)) => {
            let k = skip_ws(s, j);
            if k == s.len() {
                Some(v)
            } else {
                None
            }
        }
        None => None,
    }
}

} // verus!
