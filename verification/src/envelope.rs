//! The response side of the codec: the envelope every response line
//! carries — success flag, optional data payload, optional error text.
//!
//! The decoder reads one line as a structured object. It makes no
//! assumption about member order and tolerates unknown extra members
//! and surrounding whitespace, so a worker that adds fields keeps
//! working. The `data` payload is carried as its raw text, uninterpreted:
//! the bridge only carries it, and the command surface reads the fields
//! it needs out of it. Member values inside `data` are scanned whole —
//! composites by bracket balance, strings as escaped wholes, and bare
//! values held to the number grammar or the three keywords; what a
//! carried value means is judged where it is read.

use vstd::prelude::*;
use vstd::string::{StrSliceExecFns, StringExecFns};

use crate::codec::{lit_at, scan_string_from, scan_string, lemma_scan_advances, match_lit};
use crate::text::{str_to_chars, string_of_chars};

verus! {

/// The whitespace accepted between tokens.
pub open spec fn is_ws(c: char) -> bool {
    c == ' ' || c == '\t' || c == '\r' || c == '\n'
}

/// The first position at or after `j` holding a non-whitespace
/// character, or the end of the text.
pub open spec fn skip_ws_spec(s: Seq<char>, j: int) -> int
    decreases s.len() - j,
{
    if 0 <= j && j < s.len() && is_ws(s[j]) {
        skip_ws_spec(s, j + 1)
    } else {
        j
    }
}

pub proof fn lemma_skip_ws_bounds(s: Seq<char>, j: int)
    requires
        0 <= j <= s.len(),
    ensures
        j <= skip_ws_spec(s, j) <= s.len(),
    decreases s.len() - j,
{
    if j < s.len() && is_ws(s[j]) {
        lemma_skip_ws_bounds(s, j + 1);
    }
}

pub fn skip_ws(v: &Vec<char>, j0: usize) -> (r: usize)
    requires
        j0 <= v@.len(),
    ensures
        r as int == skip_ws_spec(v@, j0 as int),
        j0 <= r <= v@.len(),
{
    let mut j = j0;
    loop
        invariant
            j0 <= j <= v@.len(),
            skip_ws_spec(v@, j0 as int) == skip_ws_spec(v@, j as int),
        decreases v@.len() - j,
    {
        if j >= v.len() {
            return j;
        }
        let c = v[j];
        if c == ' ' || c == '\t' || c == '\r' || c == '\n' {
            j = j + 1;
        } else {
            return j;
        }
    }
}

/// The characters a bare primitive token (a number, `true`, `false`,
/// `null`) is made of.
pub open spec fn tokenish(c: char) -> bool {
    c == '-' || c == '+' || c == '.' || ('0' <= c && c <= '9') || ('a' <= c && c <= 'z') || ('A'
        <= c && c <= 'Z')
}

pub fn tokenish_exec(c: char) -> (r: bool)
    ensures
        r == tokenish(c),
{
    c == '-' || c == '+' || c == '.' || ('0' <= c && c <= '9') || ('a' <= c && c <= 'z') || ('A'
        <= c && c <= 'Z')
}

pub open spec fn is_digit(c: char) -> bool {
    '0' <= c && c <= '9'
}

/// The first position at or after `j` past the end of a run of decimal
/// digits.
pub open spec fn digits_end(s: Seq<char>, j: int) -> int
    decreases s.len() - j,
{
    if 0 <= j && j < s.len() && is_digit(s[j]) {
        digits_end(s, j + 1)
    } else {
        j
    }
}

fn digits_end_exec(v: &Vec<char>, j0: usize) -> (r: usize)
    requires
        j0 <= v@.len(),
    ensures
        r as int == digits_end(v@, j0 as int),
        j0 <= r <= v@.len(),
{
    let mut j = j0;
    loop
        invariant
            j0 <= j <= v@.len(),
            digits_end(v@, j0 as int) == digits_end(v@, j as int),
        decreases v@.len() - j,
    {
        if j >= v.len() {
            return j;
        }
        let c = v[j];
        if '0' <= c && c <= '9' {
            j = j + 1;
        } else {
            return j;
        }
    }
}

/// Whether `t` is one whole number in the wire grammar: an optional
/// minus sign, an integer part without leading zeros, an optional
/// fraction with at least one digit, an optional exponent with at least
/// one digit, and nothing else.
pub open spec fn is_json_number(t: Seq<char>) -> bool {
    let n = t.len() as int;
    let i0: int = if n > 0 && t[0] == '-' {
        1
    } else {
        0
    };
    let i1 = digits_end(t, i0);
    if i1 == i0 {
        false
    } else if t[i0] == '0' && i1 != i0 + 1 {
        false
    } else if i1 < n && t[i1] == '.' && digits_end(t, i1 + 1) == i1 + 1 {
        false
    } else {
        let i2: int = if i1 < n && t[i1] == '.' {
            digits_end(t, i1 + 1)
        } else {
            i1
        };
        if i2 < n && (t[i2] == 'e' || t[i2] == 'E') {
            let k: int = if i2 + 1 < n && (t[i2 + 1] == '+' || t[i2 + 1] == '-') {
                i2 + 2
            } else {
                i2 + 1
            };
            digits_end(t, k) != k && digits_end(t, k) == n
        } else {
            i2 == n
        }
    }
}

/// Whether the characters of `w` spell one whole number, exactly as the
/// number grammar says.
pub fn is_json_number_exec(w: &Vec<char>) -> (r: bool)
    ensures
        r == is_json_number(w@),
{
    let n = w.len();
    let i0: usize = if n > 0 && w[0] == '-' {
        1
    } else {
        0
    };
    let i1 = digits_end_exec(w, i0);
    if i1 == i0 {
        return false;
    }
    if w[i0] == '0' && i1 != i0 + 1 {
        return false;
    }
    let i2: usize = if i1 < n && w[i1] == '.' {
        let j = digits_end_exec(w, i1 + 1);
        if j == i1 + 1 {
            return false;
        }
        j
    } else {
        i1
    };
    if i2 < n && (w[i2] == 'e' || w[i2] == 'E') {
        let k: usize = if i2 + 1 < n && (w[i2 + 1] == '+' || w[i2 + 1] == '-') {
            i2 + 2
        } else {
            i2 + 1
        };
        let i3 = digits_end_exec(w, k);
        i3 != k && i3 == n
    } else {
        i2 == n
    }
}

/// Whether `t` is one whole bare value of the wire grammar: a number,
/// `true`, `false` or `null`.
pub open spec fn token_wf(t: Seq<char>) -> bool {
    t == "true"@ || t == "false"@ || t == "null"@ || is_json_number(t)
}

/// The position just past the bare value starting at `j`, when the
/// whole token run there is one well-formed bare value.
pub open spec fn spec_token_end(s: Seq<char>, j: int) -> Option<int> {
    let e = scan_token_spec(s, j + 1);
    if token_wf(s.subrange(j, e)) {
        Some(e)
    } else {
        None
    }
}

/// The first position at or after `j` past the end of a run of token
/// characters.
pub open spec fn scan_token_spec(s: Seq<char>, j: int) -> int
    decreases s.len() - j,
{
    if 0 <= j && j < s.len() && tokenish(s[j]) {
        scan_token_spec(s, j + 1)
    } else {
        j
    }
}

pub proof fn lemma_scan_token_bounds(s: Seq<char>, j: int)
    requires
        0 <= j <= s.len(),
    ensures
        j <= scan_token_spec(s, j) <= s.len(),
    decreases s.len() - j,
{
    if j < s.len() && tokenish(s[j]) {
        lemma_scan_token_bounds(s, j + 1);
    }
}

/// The position just past one scanned value starting at `j`: a quoted
/// string, a well-formed bare value, or a bracketed composite taken
/// whole by bracket balance, its strings taken as escaped wholes and
/// its bare values held to the same token grammar.
pub open spec fn scan_value_from(s: Seq<char>, j: int) -> Option<int> {
    if j < 0 || j >= s.len() {
        None
    } else if s[j] == '"' {
        match scan_string_from(s, j + 1, Seq::empty()) {
            Some(p) => Some(p.1),
            None => None,
        }
    } else if s[j] == '{' || s[j] == '[' {
        scan_nested(s, j + 1, 1)
    } else if tokenish(s[j]) {
        spec_token_end(s, j)
    } else {
        None
    }
}

/// Scans forward with `depth` brackets open, to just past the one that
/// closes the outermost: strings pass as escaped wholes, bare values
/// must be well-formed tokens, and only commas, colons and whitespace
/// may stand between.
pub open spec fn scan_nested(s: Seq<char>, j: int, depth: int) -> Option<int>
    decreases s.len() - j,
        via scan_nested_dec
{
    if j < 0 || j >= s.len() {
        None
    } else if s[j] == '"' {
        match scan_string_from(s, j + 1, Seq::empty()) {
            Some(p) => scan_nested(s, p.1, depth),
            None => None,
        }
    } else if s[j] == '{' || s[j] == '[' {
        scan_nested(s, j + 1, depth + 1)
    } else if s[j] == '}' || s[j] == ']' {
        if depth == 1 {
            Some(j + 1)
        } else {
            scan_nested(s, j + 1, depth - 1)
        }
    } else if tokenish(s[j]) {
        match spec_token_end(s, j) {
            Some(e) => scan_nested(s, e, depth),
            None => None,
        }
    } else if s[j] == ',' || s[j] == ':' || is_ws(s[j]) {
        scan_nested(s, j + 1, depth)
    } else {
        None
    }
}

#[via_fn]
proof fn scan_nested_dec(s: Seq<char>, j: int, depth: int) {
    if 0 <= j && j < s.len() {
        if s[j] == '"' {
            lemma_scan_advances(s, j + 1, Seq::empty());
        } else if tokenish(s[j]) {
            lemma_scan_token_bounds(s, j + 1);
        }
    }
}

pub proof fn lemma_scan_nested_bounds(s: Seq<char>, j: int, depth: int)
    requires
        0 <= j,
    ensures
        scan_nested(s, j, depth) matches Some(e) ==> j < e <= s.len(),
    decreases s.len() - j,
{
    if j >= s.len() {
    } else if s[j] == '"' {
        match scan_string_from(s, j + 1, Seq::empty()) {
            Some(p) => {
                lemma_scan_advances(s, j + 1, Seq::empty());
                lemma_scan_nested_bounds(s, p.1, depth);
            },
            None => {},
        }
    } else if s[j] == '{' || s[j] == '[' {
        lemma_scan_nested_bounds(s, j + 1, depth + 1);
    } else if s[j] == '}' || s[j] == ']' {
        if depth != 1 {
            lemma_scan_nested_bounds(s, j + 1, depth - 1);
        }
    } else if tokenish(s[j]) {
        lemma_scan_token_bounds(s, j + 1);
        match spec_token_end(s, j) {
            Some(e) => {
                lemma_scan_nested_bounds(s, e, depth);
            },
            None => {},
        }
    } else if s[j] == ',' || s[j] == ':' || is_ws(s[j]) {
        lemma_scan_nested_bounds(s, j + 1, depth);
    } else {
    }
}

/// A successful value scan always moves forward and stays in bounds.
pub proof fn lemma_scan_value_bounds(s: Seq<char>, j: int)
    requires
        0 <= j,
    ensures
        scan_value_from(s, j) matches Some(e) ==> j < e <= s.len(),
{
    if j < s.len() {
        if s[j] == '"' {
            lemma_scan_advances(s, j + 1, Seq::empty());
        } else if s[j] == '{' || s[j] == '[' {
            lemma_scan_nested_bounds(s, j + 1, 1);
        } else if tokenish(s[j]) {
            lemma_scan_token_bounds(s, j + 1);
        }
    }
}

/// Finds the end of the bare value starting at `j0`, exactly as the
/// token specification says.
fn token_end(v: &Vec<char>, j0: usize) -> (r: Option<usize>)
    requires
        j0 < v@.len(),
    ensures
        match spec_token_end(v@, j0 as int) {
            Some(e) => r matches Some(re) && re as int == e,
            None => r is None,
        },
        r matches Some(re) ==> j0 < re <= v@.len(),
{
    let n = v.len();
    let mut j = j0 + 1;
    proof {
        lemma_scan_token_bounds(v@, j0 + 1 as int);
    }
    while j < n && tokenish_exec(v[j])
        invariant
            n == v@.len(),
            j0 < j <= v@.len(),
            scan_token_spec(v@, j0 + 1 as int) == scan_token_spec(v@, j as int),
            scan_token_spec(v@, j0 + 1 as int) <= v@.len(),
        decreases v@.len() - j,
    {
        j = j + 1;
    }
    proof {
        assert(scan_token_spec(v@, j as int) == j as int);
    }
    let w = chars_range(v, j0, j);
    if crate::text::chars_eq_str(&w, "true") || crate::text::chars_eq_str(&w, "false")
        || crate::text::chars_eq_str(&w, "null") || is_json_number_exec(&w) {
        Some(j)
    } else {
        None
    }
}

/// Scans one value out of `v` starting at `j0`, exactly as the value
/// scan specification says.
pub fn scan_value(v: &Vec<char>, j0: usize) -> (r: Option<usize>)
    ensures
        match scan_value_from(v@, j0 as int) {
            Some(e) => r matches Some(re) && re as int == e,
            None => r is None,
        },
{
    if j0 >= v.len() {
        return None;
    }
    let c = v[j0];
    if c == '"' {
        match scan_string(v, j0 + 1) {
            Some((_content, k)) => Some(k),
            None => None,
        }
    } else if c == '{' || c == '[' {
        let mut j = j0 + 1;
        let mut depth: usize = 1;
        proof {
            lemma_scan_nested_bounds(v@, j0 + 1 as int, 1);
        }
        loop
            invariant
                1 <= depth,
                j0 < j,
                depth <= j,
                scan_value_from(v@, j0 as int) == scan_nested(v@, j0 + 1 as int, 1),
                scan_nested(v@, j0 + 1 as int, 1) == scan_nested(v@, j as int, depth as int),
            decreases v@.len() - j,
        {
            if j >= v.len() {
                return None;
            }
            let cj = v[j];
            if cj == '"' {
                match scan_string(v, j + 1) {
                    Some((_content, k)) => {
                        proof {
                            lemma_scan_advances(v@, j + 1 as int, Seq::empty());
                        }
                        j = k;
                    },
                    None => {
                        return None;
                    },
                }
            } else if cj == '{' || cj == '[' {
                depth = depth + 1;
                j = j + 1;
            } else if cj == '}' || cj == ']' {
                if depth == 1 {
                    return Some(j + 1);
                }
                depth = depth - 1;
                j = j + 1;
            } else if tokenish_exec(cj) {
                match token_end(v, j) {
                    Some(e) => {
                        j = e;
                    },
                    None => {
                        return None;
                    },
                }
            } else if cj == ',' || cj == ':' || cj == ' ' || cj == '\t' || cj == '\r' || cj
                == '\n' {
                j = j + 1;
            } else {
                return None;
            }
        }
    } else if tokenish_exec(c) {
        token_end(v, j0)
    } else {
        None
    }
}


/// The characters of `v` from `a` up to `b`.
pub fn chars_range(v: &Vec<char>, a: usize, b: usize) -> (r: Vec<char>)
    requires
        a <= b <= v@.len(),
    ensures
        r@ == v@.subrange(a as int, b as int),
{
    let mut r: Vec<char> = Vec::new();
    let mut i = a;
    while i < b
        invariant
            a <= i <= b <= v@.len(),
            r@ == v@.subrange(a as int, i as int),
        decreases b - i,
    {
        r.push(v[i]);
        assert(v@.subrange(a as int, i + 1) =~= v@.subrange(a as int, i as int).push(
            v@[i as int],
        ));
        i = i + 1;
    }
    r
}

/// Whether the string `a` spells exactly the literal `lit`.
pub fn str_eq_lit(a: &String, lit: &str) -> (r: bool)
    ensures
        r == (a@ == lit@),
{
    let av = str_to_chars(a.as_str());
    crate::text::chars_eq_str(&av, lit)
}

/// The view of a member list: each key as its characters, each value as
/// the bounds of its raw text.
pub open spec fn members_view(ms: Seq<(String, (usize, usize))>) -> Seq<(Seq<char>, (int, int))> {
    ms.map_values(|m: (String, (usize, usize))| (m.0@, (m.1.0 as int, m.1.1 as int)))
}

/// Reading the members of an object, starting just after the opening
/// brace or a separating comma: each member's key and the bounds of its
/// raw value text, in order, and the position just past the closing
/// brace.
pub open spec fn scan_members_from(
    s: Seq<char>,
    j: int,
    acc: Seq<(Seq<char>, (int, int))>,
) -> Option<(Seq<(Seq<char>, (int, int))>, int)>
    decreases s.len() - j,
        via scan_members_dec
{
    if j < 0 {
        None
    } else {
        let a = skip_ws_spec(s, j);
        if a >= s.len() {
            None
        } else if s[a] == '}' {
            Some((acc, a + 1))
        } else if s[a] == '"' {
            match scan_string_from(s, a + 1, Seq::empty()) {
                None => None,
                Some((key, k)) => {
                    let c = skip_ws_spec(s, k);
                    if c >= s.len() || s[c] != ':' {
                        None
                    } else {
                        let v0 = skip_ws_spec(s, c + 1);
                        match scan_value_from(s, v0) {
                            None => None,
                            Some(e) => {
                                let t = skip_ws_spec(s, e);
                                if t >= s.len() {
                                    None
                                } else if s[t] == ',' {
                                    scan_members_from(s, t + 1, acc.push((key, (v0, e))))
                                } else if s[t] == '}' {
                                    Some((acc.push((key, (v0, e))), t + 1))
                                } else {
                                    None
                                }
                            },
                        }
                    }
                },
            }
        } else {
            None
        }
    }
}

#[via_fn]
proof fn scan_members_dec(s: Seq<char>, j: int, acc: Seq<(Seq<char>, (int, int))>) {
    if 0 <= j && j <= s.len() {
        lemma_skip_ws_bounds(s, j);
        let a = skip_ws_spec(s, j);
        if a < s.len() && s[a] == '"' {
            lemma_scan_advances(s, a + 1, Seq::empty());
            match scan_string_from(s, a + 1, Seq::empty()) {
                Some(p) => {
                    lemma_skip_ws_bounds(s, p.1);
                    let c = skip_ws_spec(s, p.1);
                    if c < s.len() && s[c] == ':' {
                        lemma_skip_ws_bounds(s, c + 1);
                        let v0 = skip_ws_spec(s, c + 1);
                        lemma_scan_value_bounds(s, v0);
                        match scan_value_from(s, v0) {
                            Some(e) => {
                                lemma_skip_ws_bounds(s, e);
                            },
                            None => {},
                        }
                    }
                },
                None => {},
            }
        }
    }
}

/// Reads the members of an object out of `v`, exactly as the member
/// scan specification says.
pub fn scan_members(v: &Vec<char>, j0: usize) -> (r: Option<(Vec<(String, (usize, usize))>, usize)>)
    requires
        j0 <= v@.len(),
    ensures
        match scan_members_from(v@, j0 as int, Seq::empty()) {
            Some(p) => r matches Some(e) && members_view(e.0@) == p.0 && e.1 as int == p.1,
            None => r is None,
        },
{
    let mut j = j0;
    let mut out: Vec<(String, (usize, usize))> = Vec::new();
    proof {
        assert(members_view(out@) =~= Seq::<(Seq<char>, (int, int))>::empty());
    }
    loop
        invariant
            j <= v@.len(),
            scan_members_from(v@, j0 as int, Seq::empty()) == scan_members_from(
                v@,
                j as int,
                members_view(out@),
            ),
        decreases v@.len() - j,
    {
        let a = skip_ws(v, j);
        if a >= v.len() {
            return None;
        }
        let ca = v[a];
        if ca == '}' {
            return Some((out, a + 1));
        } else if ca == '"' {
            match scan_string(v, a + 1) {
                None => {
                    return None;
                },
                Some((keyv, k)) => {
                    proof {
                        lemma_scan_advances(v@, a + 1 as int, Seq::empty());
                    }
                    let c = skip_ws(v, k);
                    if c >= v.len() {
                        return None;
                    }
                    if v[c] != ':' {
                        return None;
                    }
                    let v0 = skip_ws(v, c + 1);
                    match scan_value(v, v0) {
                        None => {
                            return None;
                        },
                        Some(e) => {
                            proof {
                                lemma_scan_value_bounds(v@, v0 as int);
                            }
                            let t = skip_ws(v, e);
                            if t >= v.len() {
                                return None;
                            }
                            let ct = v[t];
                            if ct == ',' {
                                let ghost old_out = out@;
                                let key = string_of_chars(&keyv);
                                out.push((key, (v0, e)));
                                proof {
                                    assert(members_view(out@) =~= members_view(old_out).push(
                                        (keyv@, (v0 as int, e as int)),
                                    ));
                                }
                                j = t + 1;
                            } else if ct == '}' {
                                let ghost old_out = out@;
                                let key = string_of_chars(&keyv);
                                out.push((key, (v0, e)));
                                proof {
                                    assert(members_view(out@) =~= members_view(old_out).push(
                                        (keyv@, (v0 as int, e as int)),
                                    ));
                                }
                                return Some((out, t + 1));
                            } else {
                                return None;
                            }
                        },
                    }
                },
            }
        } else {
            return None;
        }
    }
}

/// Reading the elements of an array, starting just after the opening
/// bracket or a separating comma: the bounds of each element's raw
/// text, in order, and the position just past the closing bracket.
pub open spec fn scan_elems_from(s: Seq<char>, j: int, acc: Seq<(int, int)>) -> Option<
    (Seq<(int, int)>, int),
>
    decreases s.len() - j,
        via scan_elems_dec
{
    if j < 0 {
        None
    } else {
        let a = skip_ws_spec(s, j);
        if a >= s.len() {
            None
        } else if s[a] == ']' {
            Some((acc, a + 1))
        } else {
            match scan_value_from(s, a) {
                None => None,
                Some(e) => {
                    let t = skip_ws_spec(s, e);
                    if t >= s.len() {
                        None
                    } else if s[t] == ',' {
                        scan_elems_from(s, t + 1, acc.push((a, e)))
                    } else if s[t] == ']' {
                        Some((acc.push((a, e)), t + 1))
                    } else {
                        None
                    }
                },
            }
        }
    }
}

#[via_fn]
proof fn scan_elems_dec(s: Seq<char>, j: int, acc: Seq<(int, int)>) {
    if 0 <= j && j <= s.len() {
        lemma_skip_ws_bounds(s, j);
        let a = skip_ws_spec(s, j);
        if a < s.len() && s[a] != ']' {
            lemma_scan_value_bounds(s, a);
            match scan_value_from(s, a) {
                Some(e) => {
                    lemma_skip_ws_bounds(s, e);
                },
                None => {},
            }
        }
    }
}

/// The view of an element list: the bounds of each element's raw text.
pub open spec fn elems_view(es: Seq<(usize, usize)>) -> Seq<(int, int)> {
    es.map_values(|e: (usize, usize)| (e.0 as int, e.1 as int))
}

/// Reads the elements of an array out of `v`, exactly as the element
/// scan specification says.
pub fn scan_elems(v: &Vec<char>, j0: usize) -> (r: Option<(Vec<(usize, usize)>, usize)>)
    requires
        j0 <= v@.len(),
    ensures
        match scan_elems_from(v@, j0 as int, Seq::empty()) {
            Some(p) => r matches Some(e) && elems_view(e.0@) == p.0 && e.1 as int == p.1,
            None => r is None,
        },
{
    let mut j = j0;
    let mut out: Vec<(usize, usize)> = Vec::new();
    proof {
        assert(elems_view(out@) =~= Seq::<(int, int)>::empty());
    }
    loop
        invariant
            j <= v@.len(),
            scan_elems_from(v@, j0 as int, Seq::empty()) == scan_elems_from(
                v@,
                j as int,
                elems_view(out@),
            ),
        decreases v@.len() - j,
    {
        let a = skip_ws(v, j);
        if a >= v.len() {
            return None;
        }
        if v[a] == ']' {
            return Some((out, a + 1));
        }
        match scan_value(v, a) {
            None => {
                return None;
            },
            Some(e) => {
                proof {
                    lemma_scan_value_bounds(v@, a as int);
                }
                let t = skip_ws(v, e);
                if t >= v.len() {
                    return None;
                }
                let ct = v[t];
                if ct == ',' {
                    let ghost old_out = out@;
                    out.push((a, e));
                    proof {
                        assert(elems_view(out@) =~= elems_view(old_out).push(
                            (a as int, e as int),
                        ));
                    }
                    j = t + 1;
                } else if ct == ']' {
                    let ghost old_out = out@;
                    out.push((a, e));
                    proof {
                        assert(elems_view(out@) =~= elems_view(old_out).push(
                            (a as int, e as int),
                        ));
                    }
                    return Some((out, t + 1));
                } else {
                    return None;
                }
            },
        }
    }
}


/// The mathematical model of a response envelope.
pub struct EnvModel {
    pub success: bool,
    pub data: Option<Seq<char>>,
    pub error: Option<Seq<char>>,
}

/// One decoded response envelope: the success flag, the raw text of
/// the data payload if one was sent (carried uninterpreted), and the
/// worker's error text if one was sent. A `null` data or error member
/// counts as absent.
#[derive(Debug)]
pub struct Envelope {
    pub success: bool,
    pub data: Option<String>,
    pub error: Option<String>,
}

impl View for Envelope {
    type V = EnvModel;

    open spec fn view(&self) -> EnvModel {
        EnvModel {
            success: self.success,
            data: match self.data {
                Some(d) => Some(d@),
                None => None,
            },
            error: match self.error {
                Some(e) => Some(e@),
                None => None,
            },
        }
    }
}

/// The envelope fields while members are being folded in: each is
/// unset until its member is seen.
pub struct EnvAcc {
    pub success: Option<bool>,
    pub data: Option<Seq<char>>,
    pub error: Option<Seq<char>>,
}

/// Folds a member list into the envelope fields: `success` must be a
/// boolean, `error` a string or null, `data` is kept as its raw text
/// (null counting as absent), and unknown members are ignored.
pub open spec fn env_of_members(
    s: Seq<char>,
    ms: Seq<(Seq<char>, (int, int))>,
    acc: EnvAcc,
) -> Option<EnvAcc>
    decreases ms.len(),
{
    if ms.len() == 0 {
        Some(acc)
    } else {
        let key = ms[0].0;
        let a = ms[0].1.0;
        let b = ms[0].1.1;
        let rest = ms.subrange(1, ms.len() as int);
        if !(0 <= a && a <= b && b <= s.len()) {
            None
        } else if key == "success"@ {
            if s.subrange(a, b) == "true"@ {
                env_of_members(s, rest, EnvAcc { success: Some(true), data: acc.data, error: acc.error })
            } else if s.subrange(a, b) == "false"@ {
                env_of_members(s, rest, EnvAcc { success: Some(false), data: acc.data, error: acc.error })
            } else {
                None
            }
        } else if key == "data"@ {
            if s.subrange(a, b) == "null"@ {
                env_of_members(s, rest, EnvAcc { success: acc.success, data: None, error: acc.error })
            } else {
                env_of_members(s, rest, EnvAcc { success: acc.success, data: Some(s.subrange(a, b)), error: acc.error })
            }
        } else if key == "error"@ {
            if s.subrange(a, b) == "null"@ {
                env_of_members(s, rest, EnvAcc { success: acc.success, data: acc.data, error: None })
            } else if a < b && s[a] == '"' {
                match scan_string_from(s, a + 1, Seq::empty()) {
                    Some(p) => {
                        if p.1 == b {
                            env_of_members(s, rest, EnvAcc { success: acc.success, data: acc.data, error: Some(p.0) })
                        } else {
                            None
                        }
                    },
                    None => None,
                }
            } else {
                None
            }
        } else {
            env_of_members(s, rest, acc)
        }
    }
}

/// One response line, parsed as the envelope: an object, member order
/// free, unknown members tolerated, whitespace tolerated, that carries
/// a boolean `success` member; or nothing, when the line is not of
/// that shape.
pub open spec fn spec_parse_envelope(s: Seq<char>) -> Option<EnvModel> {
    let a = skip_ws_spec(s, 0);
    if a >= s.len() || s[a] != '{' {
        None
    } else {
        match scan_members_from(s, a + 1, Seq::empty()) {
            None => None,
            Some((ms, p)) => {
                if skip_ws_spec(s, p) != s.len() {
                    None
                } else {
                    match env_of_members(s, ms, EnvAcc { success: None, data: None, error: None }) {
                        None => None,
                        Some(acc) => match acc.success {
                            Some(b) => Some(
                                EnvModel { success: b, data: acc.data, error: acc.error },
                            ),
                            None => None,
                        },
                    }
                }
            },
        }
    }
}

/// The view of the exec accumulator fields.
pub open spec fn acc_view(
    success: Option<bool>,
    data: Option<String>,
    error: Option<String>,
) -> EnvAcc {
    EnvAcc {
        success,
        data: match data {
            Some(d) => Some(d@),
            None => None,
        },
        error: match error {
            Some(e) => Some(e@),
            None => None,
        },
    }
}

/// Folds the scanned members into the envelope fields, exactly as the
/// member folding specification says.
fn fold_env_members(v: &Vec<char>, ms: &Vec<(String, (usize, usize))>) -> (r: Option<
    (Option<bool>, Option<String>, Option<String>),
>)
    ensures
        match env_of_members(
            v@,
            members_view(ms@),
            EnvAcc { success: None, data: None, error: None },
        ) {
            Some(acc) => r matches Some(t) && acc_view(t.0, t.1, t.2) == acc,
            None => r is None,
        },
{
    let ghost msv = members_view(ms@);
    let mut success: Option<bool> = None;
    let mut data: Option<String> = None;
    let mut error: Option<String> = None;
    let n = ms.len();
    let mut i: usize = 0;
    proof {
        assert(msv.subrange(0, n as int) =~= msv);
    }
    while i < n
        invariant
            i <= n,
            n == ms@.len(),
            msv == members_view(ms@),
            msv.len() == n,
            env_of_members(v@, msv, EnvAcc { success: None, data: None, error: None })
                == env_of_members(
                v@,
                msv.subrange(i as int, n as int),
                acc_view(success, data, error),
            ),
        decreases n - i,
    {
        let ghost m0 = msv[i as int];
        let ghost mrest = msv.subrange(i as int, n as int);
        proof {
            assert(mrest[0] == m0);
            assert(mrest.subrange(1, mrest.len() as int) =~= msv.subrange(i + 1, n as int));
            assert(m0 == (ms@[i as int].0@, (ms@[i as int].1.0 as int, ms@[i as int].1.1 as int)));
        }
        let key = &ms[i].0;
        let va = ms[i].1.0;
        let vb = ms[i].1.1;
        if !(va <= vb && vb <= v.len()) {
            return None;
        }
        if str_eq_lit(key, "success") {
            let tl: usize = "true".unicode_len();
            let fl: usize = "false".unicode_len();
            if vb - va == tl && match_lit(v, va, "true") {
                proof {
                    assert(v@.subrange(va as int, vb as int) == "true"@);
                }
                success = Some(true);
            } else if vb - va == fl && match_lit(v, va, "false") {
                proof {
                    assert(v@.subrange(va as int, vb as int) == "false"@);
                }
                success = Some(false);
            } else {
                proof {
                    if v@.subrange(va as int, vb as int) == "true"@ {
                        assert(vb - va == tl);
                        assert(lit_at(v@, va as int, "true"@));
                    }
                    if v@.subrange(va as int, vb as int) == "false"@ {
                        assert(vb - va == fl);
                        assert(lit_at(v@, va as int, "false"@));
                    }
                }
                return None;
            }
        } else if str_eq_lit(key, "data") {
            let nl: usize = "null".unicode_len();
            if vb - va == nl && match_lit(v, va, "null") {
                proof {
                    assert(v@.subrange(va as int, vb as int) == "null"@);
                }
                data = None;
            } else {
                proof {
                    if v@.subrange(va as int, vb as int) == "null"@ {
                        assert(vb - va == nl);
                        assert(lit_at(v@, va as int, "null"@));
                    }
                }
                let span = chars_range(v, va, vb);
                data = Some(string_of_chars(&span));
            }
        } else if str_eq_lit(key, "error") {
            let nl: usize = "null".unicode_len();
            if vb - va == nl && match_lit(v, va, "null") {
                proof {
                    assert(v@.subrange(va as int, vb as int) == "null"@);
                }
                error = None;
            } else if va < vb && v[va] == '"' {
                proof {
                    if v@.subrange(va as int, vb as int) == "null"@ {
                        assert(vb - va == nl);
                        assert(lit_at(v@, va as int, "null"@));
                    }
                }
                match scan_string(v, va + 1) {
                    Some((msg, e)) => {
                        if e == vb {
                            error = Some(string_of_chars(&msg));
                        } else {
                            return None;
                        }
                    },
                    None => {
                        return None;
                    },
                }
            } else {
                proof {
                    if v@.subrange(va as int, vb as int) == "null"@ {
                        assert(vb - va == nl);
                        assert(lit_at(v@, va as int, "null"@));
                    }
                }
                return None;
            }
        } else {
        }
        i = i + 1;
    }
    proof {
        assert(msv.subrange(n as int, n as int) =~= Seq::<(Seq<char>, (int, int))>::empty());
    }
    Some((success, data, error))
}

/// The parse diagnostic for a line that is not an envelope: which part
/// of the shape failed. Meaningful only for lines the envelope parse
/// rejects.
pub open spec fn spec_envelope_diag(s: Seq<char>) -> Seq<char> {
    let a = skip_ws_spec(s, 0);
    if a >= s.len() || s[a] != '{' {
        "no object opens the line"@
    } else {
        match scan_members_from(s, a + 1, Seq::empty()) {
            None => "the object's members do not scan"@,
            Some(p) => {
                if skip_ws_spec(s, p.1) != s.len() {
                    "text follows the object"@
                } else {
                    match env_of_members(
                        s,
                        p.0,
                        EnvAcc { success: None, data: None, error: None },
                    ) {
                        None => "a known member has the wrong shape"@,
                        Some(acc) => match acc.success {
                            Some(_b) => Seq::empty(),
                            None => "no boolean success member"@,
                        },
                    }
                }
            },
        }
    }
}

/// Decodes one response line into the envelope, exactly as the
/// envelope parse specification says; any line not of the envelope
/// shape is rejected, with the diagnostic naming the part of the shape
/// that failed.
pub fn decode_response(line: &str) -> (r: Result<Envelope, String>)
    ensures
        match spec_parse_envelope(line@) {
            Some(em) => r matches Ok(env) && env@ == em,
            None => r matches Err(d) && d@ == spec_envelope_diag(line@),
        },
{
    let v = str_to_chars(line);
    let a = skip_ws(&v, 0);
    if a >= v.len() {
        return Err(String::from_str("no object opens the line"));
    }
    if v[a] != '{' {
        return Err(String::from_str("no object opens the line"));
    }
    let (ms, p) = match scan_members(&v, a + 1) {
        Some(pair) => pair,
        None => {
            return Err(String::from_str("the object's members do not scan"));
        },
    };
    proof {
        lemma_members_end(v@, a + 1 as int, Seq::empty());
    }
    if skip_ws(&v, p) != v.len() {
        return Err(String::from_str("text follows the object"));
    }
    match fold_env_members(&v, &ms) {
        None => Err(String::from_str("a known member has the wrong shape")),
        Some((success, data, error)) => match success {
            Some(b) => Ok(Envelope { success: b, data, error }),
            None => Err(String::from_str("no boolean success member")),
        },
    }
}

/// Scanned member spans lie within the text.
pub proof fn lemma_members_end(s: Seq<char>, j: int, acc: Seq<(Seq<char>, (int, int))>)
    ensures
        scan_members_from(s, j, acc) matches Some(p) ==> p.1 <= s.len(),
    decreases s.len() - j,
{
    if 0 <= j && j <= s.len() {
        lemma_skip_ws_bounds(s, j);
        let a = skip_ws_spec(s, j);
        if a < s.len() && s[a] == '"' {
            lemma_scan_advances(s, a + 1, Seq::empty());
            match scan_string_from(s, a + 1, Seq::empty()) {
                Some(p) => {
                    lemma_skip_ws_bounds(s, p.1);
                    let c = skip_ws_spec(s, p.1);
                    if c < s.len() && s[c] == ':' {
                        lemma_skip_ws_bounds(s, c + 1);
                        let v0 = skip_ws_spec(s, c + 1);
                        lemma_scan_value_bounds(s, v0);
                        match scan_value_from(s, v0) {
                            Some(e) => {
                                lemma_skip_ws_bounds(s, e);
                                let t = skip_ws_spec(s, e);
                                if t < s.len() && s[t] == ',' {
                                    lemma_members_end(s, t + 1, acc.push((scan_string_from(s, a + 1, Seq::empty())->Some_0.0, (v0, e))));
                                }
                            },
                            None => {},
                        }
                    }
                },
                None => {},
            }
        }
    }
}

} // verus!


