//! The frame codec for request lines.
//!
//! `encode_request` writes one request as a single self-contained line:
//! a field-named serialization with the command tag first and the
//! optional fields present exactly when populated. The encoding is
//! canonical (fixed field order, fixed escaping) and never contains a
//! newline, so one request is always one line. `decode_request` reads
//! a canonical request line back; decoding a canonical encoding
//! reproduces the command tag and every populated field exactly.

use vstd::prelude::*;
use vstd::string::{StrSliceExecFns, StringExecFns};
use vstd::arithmetic::div_mod::lemma_fundamental_div_mod;

use crate::request::{Command, ReqModel, Request, strings_view};
use crate::text::{
    char_of_code, chars_eq_str, code_is, esc_char, esc_str, hex_value, hex_value_exec,
    lemma_code_unique, lemma_esc_str_no_newline, lemma_hex_round_trip, push_escaped, str_to_chars,
    string_of_chars,
};

verus! {

/// A sequence contains no newline, so it fits inside one line frame.
pub open spec fn no_newline(s: Seq<char>) -> bool {
    forall|i: int| 0 <= i < s.len() ==> s[i] != '\n'
}

pub proof fn lemma_no_newline_concat(a: Seq<char>, b: Seq<char>)
    requires
        no_newline(a),
        no_newline(b),
    ensures
        no_newline(a + b),
{
    assert forall|i: int| 0 <= i < (a + b).len() implies (a + b)[i] != '\n' by {
        if i < a.len() {
            assert((a + b)[i] == a[i]);
        } else {
            assert((a + b)[i] == b[i - a.len()]);
        }
    }
}

/// The literal `l` stands in `s` at position `j`.
pub open spec fn lit_at(s: Seq<char>, j: int, l: Seq<char>) -> bool {
    0 <= j && j + l.len() <= s.len() && s.subrange(j, j + l.len()) == l
}

/// Whether the literal `lit` stands in `v` at position `j`.
pub fn match_lit(v: &Vec<char>, j: usize, lit: &str) -> (r: bool)
    ensures
        r == lit_at(v@, j as int, lit@),
{
    let n: usize = lit.unicode_len();
    if n > v.len() || j > v.len() - n {
        return false;
    }
    let mut i: usize = 0;
    while i < n
        invariant
            i <= n,
            n == lit@.len(),
            j + n <= v@.len(),
            v@.len() <= usize::MAX,
            forall|k: int| 0 <= k < i ==> v@[j + k] == lit@[k],
        decreases n - i,
    {
        if v[j + i] != lit.get_char(i) {
            proof {
                assert(v@.subrange(j as int, j + n) != lit@) by {
                    assert(v@.subrange(j as int, j + n)[i as int] == v@[j + i]);
                }
            }
            return false;
        }
        i = i + 1;
    }
    proof {
        assert(v@.subrange(j as int, j + n) =~= lit@);
    }
    true
}

/// One step of reading the body of a quoted string, starting just after
/// the opening quote: `acc` is the content read so far; the result is
/// the full content and the position just past the closing quote, or
/// `None` when the text is not a properly closed quoted string.
pub open spec fn scan_string_from(s: Seq<char>, j: int, acc: Seq<char>) -> Option<
    (Seq<char>, int),
>
    decreases s.len() - j,
{
    if j < 0 || j >= s.len() {
        None
    } else if s[j] == '"' {
        Some((acc, j + 1))
    } else if s[j] == '\\' {
        if j + 1 >= s.len() {
            None
        } else {
            let c = s[j + 1];
            if c == '"' {
                scan_string_from(s, j + 2, acc.push('"'))
            } else if c == '\\' {
                scan_string_from(s, j + 2, acc.push('\\'))
            } else if c == '/' {
                scan_string_from(s, j + 2, acc.push('/'))
            } else if c == 'n' {
                scan_string_from(s, j + 2, acc.push('\n'))
            } else if c == 'r' {
                scan_string_from(s, j + 2, acc.push('\r'))
            } else if c == 't' {
                scan_string_from(s, j + 2, acc.push('\t'))
            } else if c == 'b' {
                scan_string_from(s, j + 2, acc.push('\u{8}'))
            } else if c == 'f' {
                scan_string_from(s, j + 2, acc.push('\u{c}'))
            } else if c == 'u' {
                if j + 6 > s.len() {
                    None
                } else {
                    match (
                        hex_value(s[j + 2]),
                        hex_value(s[j + 3]),
                        hex_value(s[j + 4]),
                        hex_value(s[j + 5]),
                    ) {
                        (Some(h3), Some(h2), Some(h1), Some(h0)) => {
                            let w = (h3 * 4096 + h2 * 256 + h1 * 16 + h0) as u32;
                            if w < 0xD800 || w >= 0xE000 {
                                scan_string_from(s, j + 6, acc.push(char_of_code(w)))
                            } else if w < 0xDC00 {
                                // a high surrogate: the paired low surrogate
                                // must follow as a second escape
                                if j + 12 > s.len() || s[j + 6] != '\\' || s[j + 7] != 'u' {
                                    None
                                } else {
                                    match (
                                        hex_value(s[j + 8]),
                                        hex_value(s[j + 9]),
                                        hex_value(s[j + 10]),
                                        hex_value(s[j + 11]),
                                    ) {
                                        (Some(g3), Some(g2), Some(g1), Some(g0)) => {
                                            let w2 = (g3 * 4096 + g2 * 256 + g1 * 16 + g0) as u32;
                                            if 0xDC00 <= w2 && w2 < 0xE000 {
                                                let code = (0x10000 + (w - 0xD800) * 0x400 + (w2
                                                    - 0xDC00)) as u32;
                                                scan_string_from(
                                                    s,
                                                    j + 12,
                                                    acc.push(char_of_code(code)),
                                                )
                                            } else {
                                                None
                                            }
                                        },
                                        _ => None,
                                    }
                                }
                            } else {
                                None
                            }
                        },
                        _ => None,
                    }
                }
            } else {
                None
            }
        }
    } else if (s[j] as u32) < 32 {
        None
    } else {
        scan_string_from(s, j + 1, acc.push(s[j]))
    }
}

/// A successful string scan always moves forward and stays in bounds.
pub proof fn lemma_scan_advances(s: Seq<char>, j: int, acc: Seq<char>)
    ensures
        scan_string_from(s, j, acc) matches Some(p) ==> j < p.1 <= s.len(),
    decreases s.len() - j,
{
    if j < 0 || j >= s.len() {
    } else if s[j] == '"' {
    } else if s[j] == '\\' {
        if j + 1 >= s.len() {
        } else {
            let c = s[j + 1];
            if c == '"' {
                lemma_scan_advances(s, j + 2, acc.push('"'));
            } else if c == '\\' {
                lemma_scan_advances(s, j + 2, acc.push('\\'));
            } else if c == '/' {
                lemma_scan_advances(s, j + 2, acc.push('/'));
            } else if c == 'n' {
                lemma_scan_advances(s, j + 2, acc.push('\n'));
            } else if c == 'r' {
                lemma_scan_advances(s, j + 2, acc.push('\r'));
            } else if c == 't' {
                lemma_scan_advances(s, j + 2, acc.push('\t'));
            } else if c == 'b' {
                lemma_scan_advances(s, j + 2, acc.push('\u{8}'));
            } else if c == 'f' {
                lemma_scan_advances(s, j + 2, acc.push('\u{c}'));
            } else if c == 'u' {
                if j + 6 > s.len() {
                } else {
                    match (
                        hex_value(s[j + 2]),
                        hex_value(s[j + 3]),
                        hex_value(s[j + 4]),
                        hex_value(s[j + 5]),
                    ) {
                        (Some(h3), Some(h2), Some(h1), Some(h0)) => {
                            let w = (h3 * 4096 + h2 * 256 + h1 * 16 + h0) as u32;
                            if w < 0xD800 || w >= 0xE000 {
                                lemma_scan_advances(s, j + 6, acc.push(char_of_code(w)));
                            } else if w < 0xDC00 {
                                if j + 12 > s.len() || s[j + 6] != '\\' || s[j + 7] != 'u' {
                                } else {
                                    match (
                                        hex_value(s[j + 8]),
                                        hex_value(s[j + 9]),
                                        hex_value(s[j + 10]),
                                        hex_value(s[j + 11]),
                                    ) {
                                        (Some(g3), Some(g2), Some(g1), Some(g0)) => {
                                            let w2 = (g3 * 4096 + g2 * 256 + g1 * 16 + g0) as u32;
                                            if 0xDC00 <= w2 && w2 < 0xE000 {
                                                let code = (0x10000 + (w - 0xD800) * 0x400 + (w2
                                                    - 0xDC00)) as u32;
                                                lemma_scan_advances(
                                                    s,
                                                    j + 12,
                                                    acc.push(char_of_code(code)),
                                                );
                                            }
                                        },
                                        _ => {},
                                    }
                                }
                            }
                        },
                        _ => {},
                    }
                }
            } else {
            }
        }
    } else if (s[j] as u32) < 32 {
    } else {
        lemma_scan_advances(s, j + 1, acc.push(s[j]));
    }
}

/// When the text at `j` is `a` followed by `b`, `a`'s characters stand
/// at `j` and `b` is the text from `j + a.len()` on.
pub proof fn lemma_concat_shift(s: Seq<char>, j: int, a: Seq<char>, b: Seq<char>)
    requires
        0 <= j <= s.len(),
        s.subrange(j, s.len() as int) == a + b,
    ensures
        j + a.len() <= s.len(),
        forall|k: int| 0 <= k < a.len() ==> #[trigger] s[j + k] == a[k],
        s.subrange(j, j + a.len()) == a,
        s.subrange(j + a.len(), s.len() as int) == b,
{
    let suf = s.subrange(j, s.len() as int);
    assert(suf.len() == a.len() + b.len());
    assert forall|k: int| 0 <= k < a.len() implies #[trigger] s[j + k] == a[k] by {
        assert(suf[k] == s[j + k]);
        assert((a + b)[k] == a[k]);
    }
    assert(s.subrange(j, j + a.len()) =~= a) by {
        assert forall|k: int| 0 <= k < a.len() implies s.subrange(j, j + a.len())[k] == a[k] by {
            assert(s.subrange(j, j + a.len())[k] == s[j + k]);
        }
    }
    assert(s.subrange(j + a.len(), s.len() as int) =~= b) by {
        assert forall|k: int| 0 <= k < b.len() implies s.subrange(
            j + a.len(),
            s.len() as int,
        )[k] == b[k] by {
            assert(s.subrange(j + a.len(), s.len() as int)[k] == s[j + a.len() + k]);
            assert(suf[a.len() + k] == s[j + a.len() + k]);
            assert((a + b)[a.len() + k] == b[k]);
        }
    }
}

/// Reading back an escaped string: when the text at `j` is the escaping
/// of `t`, a closing quote, and anything after, the scan returns exactly
/// `t` appended to the accumulator and stops just past that quote.
pub proof fn lemma_scan_complete(s: Seq<char>, j: int, acc: Seq<char>, t: Seq<char>, rest: Seq<char>)
    requires
        0 <= j <= s.len(),
        s.subrange(j, s.len() as int) == esc_str(t) + seq!['"'] + rest,
    ensures
        scan_string_from(s, j, acc) == Some((acc + t, j + esc_str(t).len() + 1)),
    decreases t.len(),
{
    let suf = s.subrange(j, s.len() as int);
    assert(suf.len() == s.len() - j);
    if t.len() == 0 {
        assert(esc_str(t).len() == 0);
        assert(suf =~= seq!['"'] + rest);
        assert(suf.len() == (seq!['"'] + rest).len());
        assert(suf.len() == 1 + rest.len());
        assert(j < s.len());
        assert(s[j] == '"') by {
            assert(suf[0] == s[j + 0]);
            assert((seq!['"'] + rest)[0] == '"');
        }
        assert(acc + t =~= acc);
    } else {
        let c = t[0];
        let t2 = t.subrange(1, t.len() as int);
        assert(esc_str(t) == esc_char(c) + esc_str(t2));
        let e = esc_char(c);
        assert(suf =~= e + (esc_str(t2) + seq!['"'] + rest));
        lemma_concat_shift(s, j, e, esc_str(t2) + seq!['"'] + rest);
        let j2 = j + e.len();
        assert(s.subrange(j2, s.len() as int) == esc_str(t2) + seq!['"'] + rest);
        if c == '"' {
            lemma_scan_complete(s, j2, acc.push('"'), t2, rest);
            assert(acc.push(c) + t2 =~= acc + t);
        } else if c == '\\' {
            lemma_scan_complete(s, j2, acc.push('\\'), t2, rest);
            assert(acc.push(c) + t2 =~= acc + t);
        } else if c == '\n' {
            lemma_scan_complete(s, j2, acc.push('\n'), t2, rest);
            assert(acc.push(c) + t2 =~= acc + t);
        } else if c == '\r' {
            lemma_scan_complete(s, j2, acc.push('\r'), t2, rest);
            assert(acc.push(c) + t2 =~= acc + t);
        } else if c == '\t' {
            lemma_scan_complete(s, j2, acc.push('\t'), t2, rest);
            assert(acc.push(c) + t2 =~= acc + t);
        } else if (c as u32) < 32 {
            let u = c as u32;
            assert(s[j + 0] == e[0]);
            assert(s[j] == '\\' && s[j + 1] == 'u' && s[j + 2] == '0' && s[j + 3] == '0');
            lemma_hex_round_trip(u / 16);
            lemma_hex_round_trip(u % 16);
            assert(hex_value(s[j + 2]) == Some(0u32));
            assert(hex_value(s[j + 3]) == Some(0u32));
            assert(hex_value(s[j + 4]) == Some(u / 16));
            assert(hex_value(s[j + 5]) == Some(u % 16));
            let w = (0 * 4096 + 0 * 256 + (u / 16) * 16 + u % 16) as u32;
            assert((u / 16) * 16 + u % 16 == u) by {
                lemma_fundamental_div_mod(u as int, 16);
            }
            assert(w == u);
            assert(w < 0xD800);
            assert(code_is(c, w));
            assert(exists|cc: char| code_is(cc, w));
            assert(code_is(char_of_code(w), w));
            assert(char_of_code(w) as u32 == c as u32);
            lemma_code_unique(char_of_code(w), c);
            assert(char_of_code(w) == c);
            lemma_scan_complete(s, j2, acc.push(c), t2, rest);
            assert(acc.push(c) + t2 =~= acc + t);
        } else {
            assert(e == seq![c]);
            assert(s[j + 0] == e[0]);
            assert(s[j] == c);
            assert(s[j] != '"' && s[j] != '\\' && (s[j] as u32) >= 32);
            lemma_scan_complete(s, j + 1, acc.push(c), t2, rest);
            assert(acc.push(c) + t2 =~= acc + t);
        }
    }
}

/// Reads a quoted string body out of `v`, starting just after the
/// opening quote; the result is the unescaped content and the position
/// just past the closing quote, exactly as the scan specification says.
pub fn scan_string(v: &Vec<char>, j0: usize) -> (r: Option<(Vec<char>, usize)>)
    ensures
        match scan_string_from(v@, j0 as int, Seq::empty()) {
            Some(p) => r matches Some(e) && e.0@ == p.0 && e.1 as int == p.1,
            None => r is None,
        },
{
    let mut j = j0;
    let mut out: Vec<char> = Vec::new();
    loop
        invariant
            j0 <= j,
            scan_string_from(v@, j0 as int, Seq::empty()) == scan_string_from(
                v@,
                j as int,
                out@,
            ),
        decreases v@.len() - j,
    {
        if j >= v.len() {
            return None;
        }
        let c = v[j];
        if c == '"' {
            return Some((out, j + 1));
        } else if c == '\\' {
            if j + 1 >= v.len() {
                return None;
            }
            let c2 = v[j + 1];
            if c2 == '"' {
                out.push('"');
                j = j + 2;
            } else if c2 == '\\' {
                out.push('\\');
                j = j + 2;
            } else if c2 == '/' {
                out.push('/');
                j = j + 2;
            } else if c2 == 'n' {
                out.push('\n');
                j = j + 2;
            } else if c2 == 'r' {
                out.push('\r');
                j = j + 2;
            } else if c2 == 't' {
                out.push('\t');
                j = j + 2;
            } else if c2 == 'b' {
                out.push('\u{8}');
                j = j + 2;
            } else if c2 == 'f' {
                out.push('\u{c}');
                j = j + 2;
            } else if c2 == 'u' {
                if v.len() - j < 6 {
                    proof {
                        assert(j + 6 > v@.len());
                    }
                    return None;
                }
                let h3 = hex_value_exec(v[j + 2]);
                let h2 = hex_value_exec(v[j + 3]);
                let h1 = hex_value_exec(v[j + 4]);
                let h0 = hex_value_exec(v[j + 5]);
                match (h3, h2, h1, h0) {
                    (Some(a3), Some(a2), Some(a1), Some(a0)) => {
                        let w: u32 = a3 * 4096 + a2 * 256 + a1 * 16 + a0;
                        if w < 0xD800 || w >= 0xE000 {
                            let ch = char::from_u32(w).unwrap();
                            proof {
                                assert(code_is(ch, w));
                                assert(exists|cc: char| code_is(cc, w));
                                assert(code_is(char_of_code(w), w));
                                lemma_code_unique(char_of_code(w), ch);
                            }
                            out.push(ch);
                            j = j + 6;
                        } else if w < 0xDC00 {
                            if v.len() - j < 12 {
                                proof {
                                    assert(j + 12 > v@.len());
                                }
                                return None;
                            }
                            if v[j + 6] != '\\' || v[j + 7] != 'u' {
                                return None;
                            }
                            let g3 = hex_value_exec(v[j + 8]);
                            let g2 = hex_value_exec(v[j + 9]);
                            let g1 = hex_value_exec(v[j + 10]);
                            let g0 = hex_value_exec(v[j + 11]);
                            match (g3, g2, g1, g0) {
                                (Some(b3), Some(b2), Some(b1), Some(b0)) => {
                                    let w2: u32 = b3 * 4096 + b2 * 256 + b1 * 16 + b0;
                                    if 0xDC00 <= w2 && w2 < 0xE000 {
                                        let code: u32 = 0x10000 + (w - 0xD800) * 0x400 + (w2
                                            - 0xDC00);
                                        let ch = char::from_u32(code).unwrap();
                                        proof {
                                            assert(code_is(ch, code));
                                            assert(exists|cc: char| code_is(cc, code));
                                            assert(code_is(char_of_code(code), code));
                                            lemma_code_unique(char_of_code(code), ch);
                                        }
                                        out.push(ch);
                                        j = j + 12;
                                    } else {
                                        return None;
                                    }
                                },
                                _ => {
                                    return None;
                                },
                            }
                        } else {
                            return None;
                        }
                    },
                    _ => {
                        return None;
                    },
                }
            } else {
                return None;
            }
        } else {
            let u = c as u32;
            if u < 32 {
                return None;
            }
            out.push(c);
            j = j + 1;
        }
    }
}

/// The fixed opening of every request line, up to and including the
/// quote that opens the command tag.
pub open spec fn pre_command() -> Seq<char> {
    "{\"command\":\""@
}

/// The fixed text between the command tag and the question field.
pub open spec fn key_question() -> Seq<char> {
    ",\"question\":\""@
}

/// The fixed text between the command tag and the paths field.
pub open spec fn key_paths() -> Seq<char> {
    ",\"paths\":["@
}

/// The fixed text between the command tag and the name field.
pub open spec fn key_name() -> Seq<char> {
    ",\"name\":\""@
}

/// The elements of the paths array, each quoted and escaped, separated
/// by commas and closed by the bracket that ends the array.
pub open spec fn paths_items(ps: Seq<Seq<char>>) -> Seq<char>
    decreases ps.len(),
{
    if ps.len() == 0 {
        seq![']']
    } else if ps.len() == 1 {
        seq!['"'] + esc_str(ps[0]) + seq!['"', ']']
    } else {
        seq!['"'] + esc_str(ps[0]) + seq!['"', ','] + paths_items(ps.subrange(1, ps.len() as int))
    }
}

/// The canonical encoding of a request: the command tag, then exactly
/// the populated optional fields, in a fixed order, all on one line.
pub open spec fn spec_encode_request(m: ReqModel) -> Seq<char> {
    pre_command() + esc_str(m.command.tag()) + seq!['"'] + (match m.question {
        Some(q) => key_question() + esc_str(q) + seq!['"'],
        None => Seq::empty(),
    }) + (match m.paths {
        Some(ps) => key_paths() + paths_items(ps),
        None => Seq::empty(),
    }) + (match m.name {
        Some(n) => key_name() + esc_str(n) + seq!['"'],
        None => Seq::empty(),
    }) + seq!['}']
}

/// Appends the characters of `lit` to `out`.
pub fn push_lit(out: &mut Vec<char>, lit: &str)
    ensures
        final(out)@ == old(out)@ + lit@,
{
    let n: usize = lit.unicode_len();
    let mut i: usize = 0;
    while i < n
        invariant
            i <= n,
            n == lit@.len(),
            out@ == old(out)@ + lit@.take(i as int),
        decreases n - i,
    {
        out.push(lit.get_char(i));
        assert(out@ =~= old(out)@ + lit@.take(i + 1));
        i = i + 1;
    }
    assert(old(out)@ + lit@.take(n as int) =~= old(out)@ + lit@);
}

/// The tag written on the wire for a command.
pub fn tag_str(c: Command) -> (r: &'static str)
    ensures
        r@ == c.tag(),
{
    match c {
        Command::Init => {
            proof {
                reveal_strlit("init");
                assert("init"@ =~= c.tag());
            }
            "init"
        },
        Command::AddDocuments => {
            proof {
                reveal_strlit("add_documents");
                assert("add_documents"@ =~= c.tag());
            }
            "add_documents"
        },
        Command::Ask => {
            proof {
                reveal_strlit("ask");
                assert("ask"@ =~= c.tag());
            }
            "ask"
        },
        Command::RemoveDocument => {
            proof {
                reveal_strlit("remove_document");
                assert("remove_document"@ =~= c.tag());
            }
            "remove_document"
        },
        Command::VoiceInput => {
            proof {
                reveal_strlit("voice_input");
                assert("voice_input"@ =~= c.tag());
            }
            "voice_input"
        },
    }
}

/// No piece of the canonical encoding holds a newline.
pub proof fn lemma_paths_items_no_newline(ps: Seq<Seq<char>>)
    ensures
        no_newline(paths_items(ps)),
    decreases ps.len(),
{
    reveal_strlit("\"");
    if ps.len() == 0 {
    } else {
        lemma_esc_str_no_newline(ps[0]);
        lemma_no_newline_concat(seq!['"'], esc_str(ps[0]));
        if ps.len() == 1 {
            lemma_no_newline_concat(seq!['"'] + esc_str(ps[0]), seq!['"', ']']);
        } else {
            lemma_paths_items_no_newline(ps.subrange(1, ps.len() as int));
            lemma_no_newline_concat(seq!['"'] + esc_str(ps[0]), seq!['"', ',']);
            lemma_no_newline_concat(
                seq!['"'] + esc_str(ps[0]) + seq!['"', ','],
                paths_items(ps.subrange(1, ps.len() as int)),
            );
        }
    }
}

/// The canonical encoding of a request holds no newline: every request
/// is one self-contained line.
pub proof fn lemma_encode_no_newline(m: ReqModel)
    ensures
        no_newline(spec_encode_request(m)),
{
    reveal_strlit("{\"command\":\"");
    reveal_strlit(",\"question\":\"");
    reveal_strlit(",\"paths\":[");
    reveal_strlit(",\"name\":\"");
    assert(no_newline(pre_command()));
    assert(no_newline(key_question()));
    assert(no_newline(key_paths()));
    assert(no_newline(key_name()));
    lemma_esc_str_no_newline(m.command.tag());
    lemma_no_newline_concat(pre_command(), esc_str(m.command.tag()));
    let p1 = pre_command() + esc_str(m.command.tag());
    lemma_no_newline_concat(p1, seq!['"']);
    let p2 = p1 + seq!['"'];
    let q = match m.question {
        Some(q) => key_question() + esc_str(q) + seq!['"'],
        None => Seq::<char>::empty(),
    };
    match m.question {
        Some(qq) => {
            lemma_esc_str_no_newline(qq);
            lemma_no_newline_concat(key_question(), esc_str(qq));
            lemma_no_newline_concat(key_question() + esc_str(qq), seq!['"']);
        },
        None => {},
    }
    assert(no_newline(q));
    lemma_no_newline_concat(p2, q);
    let p3 = p2 + q;
    let pa = match m.paths {
        Some(ps) => key_paths() + paths_items(ps),
        None => Seq::<char>::empty(),
    };
    match m.paths {
        Some(ps) => {
            lemma_paths_items_no_newline(ps);
            lemma_no_newline_concat(key_paths(), paths_items(ps));
        },
        None => {},
    }
    assert(no_newline(pa));
    lemma_no_newline_concat(p3, pa);
    let p4 = p3 + pa;
    let nm = match m.name {
        Some(n) => key_name() + esc_str(n) + seq!['"'],
        None => Seq::<char>::empty(),
    };
    match m.name {
        Some(n) => {
            lemma_esc_str_no_newline(n);
            lemma_no_newline_concat(key_name(), esc_str(n));
            lemma_no_newline_concat(key_name() + esc_str(n), seq!['"']);
        },
        None => {},
    }
    assert(no_newline(nm));
    lemma_no_newline_concat(p4, nm);
    lemma_no_newline_concat(p4 + nm, seq!['}']);
    assert(spec_encode_request(m) == p4 + nm + seq!['}']);
}

/// Encodes one request as its canonical line: the field-named
/// serialization with optional fields omitted when absent, free of any
/// embedded newline.
pub fn encode_request(req: &Request) -> (r: String)
    ensures
        r@ == spec_encode_request(req@),
        no_newline(r@),
{
    let mut out: Vec<char> = Vec::new();
    push_lit(&mut out, "{\"command\":\"");
    push_escaped(&mut out, tag_str(req.command));
    out.push('"');
    let ghost p2 = pre_command() + esc_str(req@.command.tag()) + seq!['"'];
    proof {
        assert(out@ =~= p2);
    }
    match &req.question {
        Some(q) => {
            push_lit(&mut out, ",\"question\":\"");
            push_escaped(&mut out, q.as_str());
            out.push('"');
        },
        None => {},
    }
    let ghost p3 = p2 + (match req@.question {
        Some(q) => key_question() + esc_str(q) + seq!['"'],
        None => Seq::<char>::empty(),
    });
    proof {
        assert(out@ =~= p3);
    }
    match &req.paths {
        Some(ps) => {
            push_lit(&mut out, ",\"paths\":[");
            let ghost base = out@;
            let ghost psv = strings_view(ps@);
            let n = ps.len();
            proof {
                assert(psv.subrange(0, n as int) =~= psv);
            }
            let mut i: usize = 0;
            while i < n
                invariant
                    i <= n,
                    n == ps@.len(),
                    psv == strings_view(ps@),
                    psv.len() == n,
                    forall|k: int| 0 <= k < n ==> psv[k] == ps@[k]@,
                    out@ + paths_items(psv.subrange(i as int, n as int)) == base + paths_items(
                        psv,
                    ),
                decreases n - i,
            {
                let ghost before = out@;
                out.push('"');
                push_escaped(&mut out, ps[i].as_str());
                out.push('"');
                if i + 1 < n {
                    out.push(',');
                    proof {
                        assert(psv.subrange(i as int, n as int).len() > 1);
                        assert(psv.subrange(i as int, n as int)[0] == psv[i as int]);
                        assert(psv.subrange(i as int, n as int).subrange(
                            1,
                            (n - i) as int,
                        ) =~= psv.subrange(i + 1, n as int));
                        assert(out@ =~= before + (seq!['"'] + esc_str(psv[i as int]) + seq![
                            '"',
                            ',',
                        ]));
                        assert(paths_items(psv.subrange(i as int, n as int)) =~= (seq!['"']
                            + esc_str(psv[i as int]) + seq!['"', ',']) + paths_items(
                            psv.subrange(i + 1, n as int),
                        ));
                        assert(out@ + paths_items(psv.subrange(i + 1, n as int)) =~= before
                            + paths_items(psv.subrange(i as int, n as int)));
                    }
                } else {
                    proof {
                        assert(psv.subrange(i as int, n as int).len() == 1);
                        assert(psv.subrange(i as int, n as int)[0] == psv[i as int]);
                        assert(psv.subrange(i + 1, n as int) =~= Seq::<Seq<char>>::empty());
                        assert(out@ =~= before + (seq!['"'] + esc_str(psv[i as int]) + seq![
                            '"',
                        ]));
                        assert(paths_items(psv.subrange(i as int, n as int)) =~= (seq!['"']
                            + esc_str(psv[i as int]) + seq!['"']) + seq![']']);
                        assert(paths_items(psv.subrange(i + 1, n as int)) == seq![']']);
                        assert(out@ + paths_items(psv.subrange(i + 1, n as int)) =~= before
                            + paths_items(psv.subrange(i as int, n as int)));
                    }
                }
                i = i + 1;
            }
            out.push(']');
            proof {
                assert(psv.subrange(n as int, n as int) =~= Seq::<Seq<char>>::empty());
                assert(paths_items(psv.subrange(n as int, n as int)) == seq![']']);
                assert(out@ =~= base + paths_items(psv));
            }
        },
        None => {},
    }
    let ghost p4 = p3 + (match req@.paths {
        Some(ps) => key_paths() + paths_items(ps),
        None => Seq::<char>::empty(),
    });
    proof {
        assert(out@ =~= p4);
    }
    match &req.name {
        Some(nm) => {
            push_lit(&mut out, ",\"name\":\"");
            push_escaped(&mut out, nm.as_str());
            out.push('"');
        },
        None => {},
    }
    out.push('}');
    proof {
        assert(out@ =~= spec_encode_request(req@));
        lemma_encode_no_newline(req@);
    }
    string_of_chars(&out)
}


/// Reading the elements of the paths array, starting just after the
/// opening bracket: the elements and the position just past the closing
/// bracket, or `None` when the text is not a properly closed array of
/// quoted strings.
pub open spec fn scan_paths(s: Seq<char>, j: int) -> Option<(Seq<Seq<char>>, int)>
    decreases s.len() - j,
        via scan_paths_dec
{
    if j < 0 || j >= s.len() {
        None
    } else if s[j] == ']' {
        Some((Seq::empty(), j + 1))
    } else if s[j] == '"' {
        match scan_string_from(s, j + 1, Seq::empty()) {
            None => None,
            Some((p, k)) => {
                if k >= s.len() {
                    None
                } else if s[k] == ',' {
                    match scan_paths(s, k + 1) {
                        None => None,
                        Some((tail, e)) => Some((seq![p] + tail, e)),
                    }
                } else if s[k] == ']' {
                    Some((seq![p], k + 1))
                } else {
                    None
                }
            },
        }
    } else {
        None
    }
}

#[via_fn]
proof fn scan_paths_dec(s: Seq<char>, j: int) {
    if 0 <= j && j < s.len() && s[j] == '"' {
        lemma_scan_advances(s, j + 1, Seq::empty());
    }
}

/// The fixed opening of a request line, the command tag read back, and
/// then exactly the members the tag calls for, in the canonical order:
/// the decoded request, or `None` for any other text.
pub open spec fn spec_parse_request(s: Seq<char>) -> Option<ReqModel> {
    if !lit_at(s, 0, pre_command()) {
        None
    } else {
        match scan_string_from(s, pre_command().len() as int, Seq::empty()) {
            None => None,
            Some((tag, j)) => {
                if tag == "init"@ {
                    if j + 1 == s.len() && s[j] == '}' {
                        Some(ReqModel { command: Command::Init, question: None, paths: None, name: None })
                    } else {
                        None
                    }
                } else if tag == "add_documents"@ {
                    if !lit_at(s, j, key_paths()) {
                        None
                    } else {
                        match scan_paths(s, j + key_paths().len()) {
                            None => None,
                            Some((ps, k)) => {
                                if k + 1 == s.len() && s[k] == '}' {
                                    Some(ReqModel { command: Command::AddDocuments, question: None, paths: Some(ps), name: None })
                                } else {
                                    None
                                }
                            },
                        }
                    }
                } else if tag == "ask"@ {
                    if !lit_at(s, j, key_question()) {
                        None
                    } else {
                        match scan_string_from(s, j + key_question().len(), Seq::empty()) {
                            None => None,
                            Some((q, k)) => {
                                if k + 1 == s.len() && s[k] == '}' {
                                    Some(ReqModel { command: Command::Ask, question: Some(q), paths: None, name: None })
                                } else {
                                    None
                                }
                            },
                        }
                    }
                } else if tag == "remove_document"@ {
                    if !lit_at(s, j, key_name()) {
                        None
                    } else {
                        match scan_string_from(s, j + key_name().len(), Seq::empty()) {
                            None => None,
                            Some((nm, k)) => {
                                if k + 1 == s.len() && s[k] == '}' {
                                    Some(ReqModel { command: Command::RemoveDocument, question: None, paths: None, name: Some(nm) })
                                } else {
                                    None
                                }
                            },
                        }
                    }
                } else if tag == "voice_input"@ {
                    if j + 1 == s.len() && s[j] == '}' {
                        Some(ReqModel { command: Command::VoiceInput, question: None, paths: None, name: None })
                    } else {
                        None
                    }
                } else {
                    None
                }
            },
        }
    }
}

/// Reading back an encoded paths array: when the text at `j` is the
/// canonical element list of `ps` and anything after, the scan returns
/// exactly `ps` and stops just past the closing bracket.
pub proof fn lemma_scan_paths_complete(s: Seq<char>, j: int, ps: Seq<Seq<char>>, rest: Seq<char>)
    requires
        0 <= j <= s.len(),
        s.subrange(j, s.len() as int) == paths_items(ps) + rest,
    ensures
        scan_paths(s, j) == Some((ps, j + paths_items(ps).len())),
    decreases ps.len(),
{
    if ps.len() == 0 {
        assert(paths_items(ps) == seq![']']);
        assert(s.subrange(j, s.len() as int) =~= seq![']'] + rest);
        lemma_concat_shift(s, j, seq![']'], rest);
        assert(s[j + 0] == ']');
        assert(j < s.len());
        assert(Seq::<Seq<char>>::empty() =~= ps);
    } else {
        let p0 = ps[0];
        let e = esc_str(p0);
        if ps.len() == 1 {
            assert(paths_items(ps) == seq!['"'] + e + seq!['"', ']']);
            let after = seq![']'] + rest;
            assert(s.subrange(j, s.len() as int) =~= seq!['"'] + ((e + seq!['"']) + after));
            lemma_concat_shift(s, j, seq!['"'], (e + seq!['"']) + after);
            assert(s[j + 0] == '"');
            assert(s.subrange(j + 1, s.len() as int) =~= e + seq!['"'] + after);
            lemma_scan_complete(s, j + 1, Seq::empty(), p0, after);
            let k = j + 1 + e.len() + 1;
            assert(scan_string_from(s, j + 1, Seq::empty()) == Some((Seq::empty() + p0, k)));
            assert(Seq::empty() + p0 =~= p0);
            lemma_concat_shift(s, j + 1, e + seq!['"'], after);
            assert(s.subrange(k, s.len() as int) == after);
            lemma_concat_shift(s, k, seq![']'], rest);
            assert(s[k + 0] == ']');
            assert(k < s.len());
            assert(seq![p0] =~= ps);
            assert(paths_items(ps).len() == 1 + e.len() + 2);
        } else {
            let ps2 = ps.subrange(1, ps.len() as int);
            assert(paths_items(ps) == seq!['"'] + e + seq!['"', ','] + paths_items(ps2));
            let after = seq![','] + (paths_items(ps2) + rest);
            assert(s.subrange(j, s.len() as int) =~= seq!['"'] + ((e + seq!['"']) + after));
            lemma_concat_shift(s, j, seq!['"'], (e + seq!['"']) + after);
            assert(s[j + 0] == '"');
            assert(s.subrange(j + 1, s.len() as int) =~= e + seq!['"'] + after);
            lemma_scan_complete(s, j + 1, Seq::empty(), p0, after);
            let k = j + 1 + e.len() + 1;
            assert(scan_string_from(s, j + 1, Seq::empty()) == Some((Seq::empty() + p0, k)));
            assert(Seq::empty() + p0 =~= p0);
            lemma_concat_shift(s, j + 1, e + seq!['"'], after);
            assert(s.subrange(k, s.len() as int) == after);
            lemma_concat_shift(s, k, seq![','], paths_items(ps2) + rest);
            assert(s[k + 0] == ',');
            assert(k < s.len());
            assert(s[k] != ']');
            lemma_scan_paths_complete(s, k + 1, ps2, rest);
            assert(scan_paths(s, k + 1) == Some((ps2, k + 1 + paths_items(ps2).len())));
            assert(seq![p0] + ps2 =~= ps);
            assert(paths_items(ps).len() == 1 + e.len() + 2 + paths_items(ps2).len());
        }
    }
}


proof fn round_trip_plain(m: ReqModel, lit: Seq<char>)
    requires
        m.wf(),
        m.question is None && m.paths is None && m.name is None,
        m.command.tag() == lit,
    ensures
        lit_at(spec_encode_request(m), 0, pre_command()),
        scan_string_from(
            spec_encode_request(m),
            pre_command().len() as int,
            Seq::empty(),
        ) == Some(
            (
                lit,
                pre_command().len() + esc_str(m.command.tag()).len() + 1 as int,
            ),
        ),
        spec_encode_request(m)[pre_command().len() as int + esc_str(m.command.tag()).len() + 1]
            == '}',
        pre_command().len() + esc_str(m.command.tag()).len() + 2 == spec_encode_request(m).len(),
{
    let s = spec_encode_request(m);
    let tag = m.command.tag();
    let e = esc_str(tag);
    let pre = pre_command();
    assert(s.subrange(0, s.len() as int) =~= s);
    assert(s.subrange(0, s.len() as int) =~= pre + (e + seq!['"'] + seq!['}']));
    lemma_concat_shift(s, 0, pre, e + seq!['"'] + seq!['}']);
    assert(lit_at(s, 0, pre));
    lemma_scan_complete(s, pre.len() as int, Seq::empty(), tag, seq!['}']);
    let j: int = pre.len() as int + e.len() as int + 1;
    assert(scan_string_from(s, pre.len() as int, Seq::empty()) == Some(
        (Seq::empty() + tag, j),
    ));
    assert(Seq::empty() + tag =~= tag);
    lemma_concat_shift(s, pre.len() as int, e + seq!['"'], seq!['}']);
    lemma_concat_shift(s, j, seq!['}'], Seq::empty());
    assert(s[j + 0] == seq!['}'][0]);
    assert(s.subrange(j + 1, s.len() as int).len() == 0);
}

proof fn round_trip_with_field(m: ReqModel, lit: Seq<char>, key: Seq<char>, val: Seq<char>)
    requires
        m.wf(),
        m.paths is None,
        m.command.tag() == lit,
        match m.command {
            Command::Ask => key == key_question() && m.question == Some(val) && m.name is None,
            Command::RemoveDocument => key == key_name() && m.name == Some(val)
                && m.question is None,
            _ => false,
        },
    ensures
        lit_at(spec_encode_request(m), 0, pre_command()),
        scan_string_from(
            spec_encode_request(m),
            pre_command().len() as int,
            Seq::empty(),
        ) == Some(
            (
                lit,
                pre_command().len() + esc_str(m.command.tag()).len() + 1 as int,
            ),
        ),
        lit_at(
            spec_encode_request(m),
            pre_command().len() as int + esc_str(m.command.tag()).len() + 1,
            key,
        ),
        scan_string_from(
            spec_encode_request(m),
            pre_command().len() as int + esc_str(m.command.tag()).len() + 1 + key.len(),
            Seq::empty(),
        ) == Some(
            (
                val,
                pre_command().len() + esc_str(m.command.tag()).len() + 1 + key.len()
                    + esc_str(val).len() + 1 as int,
            ),
        ),
        spec_encode_request(m)[pre_command().len() as int + esc_str(m.command.tag()).len() + 1
            + key.len() + esc_str(val).len() + 1] == '}',
        pre_command().len() + esc_str(m.command.tag()).len() + 1 + key.len() + esc_str(val).len()
            + 2 == spec_encode_request(m).len(),
{
    let s = spec_encode_request(m);
    let tag = m.command.tag();
    let e = esc_str(tag);
    let pre = pre_command();
    let tailv = esc_str(val) + seq!['"'] + seq!['}'];
    assert(s.subrange(0, s.len() as int) =~= s);
    assert(s.subrange(0, s.len() as int) =~= pre + (e + seq!['"'] + (key + tailv)));
    lemma_concat_shift(s, 0, pre, e + seq!['"'] + (key + tailv));
    assert(lit_at(s, 0, pre));
    lemma_scan_complete(s, pre.len() as int, Seq::empty(), tag, key + tailv);
    let j: int = pre.len() as int + e.len() as int + 1;
    assert(scan_string_from(s, pre.len() as int, Seq::empty()) == Some(
        (Seq::empty() + tag, j),
    ));
    assert(Seq::empty() + tag =~= tag);
    lemma_concat_shift(s, pre.len() as int, e + seq!['"'], key + tailv);
    assert(s.subrange(j, s.len() as int) == key + tailv);
    lemma_concat_shift(s, j, key, tailv);
    lemma_scan_complete(s, j + key.len(), Seq::empty(), val, seq!['}']);
    let k: int = j + key.len() as int + esc_str(val).len() as int + 1;
    assert(scan_string_from(s, j + key.len(), Seq::empty()) == Some(
        (Seq::empty() + val, k),
    ));
    assert(Seq::empty() + val =~= val);
    lemma_concat_shift(s, j + key.len(), esc_str(val) + seq!['"'], seq!['}']);
    lemma_concat_shift(s, k, seq!['}'], Seq::empty());
    assert(s[k + 0] == seq!['}'][0]);
    assert(s.subrange(k + 1, s.len() as int).len() == 0);
}

proof fn round_trip_paths(m: ReqModel, ps: Seq<Seq<char>>)
    requires
        m.wf(),
        m.command == Command::AddDocuments,
        m.paths == Some(ps),
    ensures
        lit_at(spec_encode_request(m), 0, pre_command()),
        scan_string_from(
            spec_encode_request(m),
            pre_command().len() as int,
            Seq::empty(),
        ) == Some(
            (
                m.command.tag(),
                pre_command().len() + esc_str(m.command.tag()).len() + 1 as int,
            ),
        ),
        lit_at(
            spec_encode_request(m),
            pre_command().len() as int + esc_str(m.command.tag()).len() + 1,
            key_paths(),
        ),
        scan_paths(
            spec_encode_request(m),
            pre_command().len() as int + esc_str(m.command.tag()).len() + 1
                + key_paths().len(),
        ) == Some(
            (
                ps,
                pre_command().len() + esc_str(m.command.tag()).len() + 1 + key_paths().len()
                    + paths_items(ps).len() as int,
            ),
        ),
        spec_encode_request(m)[pre_command().len() as int + esc_str(m.command.tag()).len() + 1
            + key_paths().len() + paths_items(ps).len()] == '}',
        pre_command().len() + esc_str(m.command.tag()).len() + 1 + key_paths().len()
            + paths_items(ps).len() + 1 == spec_encode_request(m).len(),
{
    let s = spec_encode_request(m);
    let tag = m.command.tag();
    let e = esc_str(tag);
    let pre = pre_command();
    let kp = key_paths();
    let tailp = paths_items(ps) + seq!['}'];
    assert(s.subrange(0, s.len() as int) =~= s);
    assert(s.subrange(0, s.len() as int) =~= pre + (e + seq!['"'] + (kp + tailp)));
    lemma_concat_shift(s, 0, pre, e + seq!['"'] + (kp + tailp));
    assert(lit_at(s, 0, pre));
    lemma_scan_complete(s, pre.len() as int, Seq::empty(), tag, kp + tailp);
    let j: int = pre.len() as int + e.len() as int + 1;
    assert(scan_string_from(s, pre.len() as int, Seq::empty()) == Some(
        (Seq::empty() + tag, j),
    ));
    assert(Seq::empty() + tag =~= tag);
    lemma_concat_shift(s, pre.len() as int, e + seq!['"'], kp + tailp);
    assert(s.subrange(j, s.len() as int) == kp + tailp);
    lemma_concat_shift(s, j, kp, tailp);
    lemma_scan_paths_complete(s, j + kp.len(), ps, seq!['}']);
    let k: int = j + kp.len() as int + paths_items(ps).len() as int;
    assert(scan_paths(s, j + kp.len()) == Some((ps, k)));
    lemma_concat_shift(s, j + kp.len(), paths_items(ps), seq!['}']);
    lemma_concat_shift(s, k, seq!['}'], Seq::empty());
    assert(s[k + 0] == seq!['}'][0]);
    assert(s.subrange(k + 1, s.len() as int).len() == 0);
}

/// The five command tags, as their wire strings.
proof fn lemma_tag_strings()
    ensures
        Command::Init.tag() == "init"@,
        Command::AddDocuments.tag() == "add_documents"@,
        Command::Ask.tag() == "ask"@,
        Command::RemoveDocument.tag() == "remove_document"@,
        Command::VoiceInput.tag() == "voice_input"@,
        "init"@ != "add_documents"@ && "init"@ != "ask"@ && "init"@ != "remove_document"@
            && "init"@ != "voice_input"@,
        "add_documents"@ != "ask"@ && "add_documents"@ != "remove_document"@ && "add_documents"@
            != "voice_input"@,
        "ask"@ != "remove_document"@ && "ask"@ != "voice_input"@,
        "remove_document"@ != "voice_input"@,
{
    reveal_strlit("init");
    reveal_strlit("add_documents");
    reveal_strlit("ask");
    reveal_strlit("remove_document");
    reveal_strlit("voice_input");
    assert(Command::Init.tag() =~= "init"@);
    assert(Command::AddDocuments.tag() =~= "add_documents"@);
    assert(Command::Ask.tag() =~= "ask"@);
    assert(Command::RemoveDocument.tag() =~= "remove_document"@);
    assert(Command::VoiceInput.tag() =~= "voice_input"@);
}

/// Law: decoding the canonical encoding of any well-formed request
/// reproduces the request exactly — the same command tag, and every
/// populated optional field with the same value; absent fields remain
/// absent.
pub proof fn lemma_request_round_trip(m: ReqModel)
    requires
        m.wf(),
    ensures
        spec_parse_request(spec_encode_request(m)) == Some(m),
{
    lemma_tag_strings();
    let s = spec_encode_request(m);
    match m.command {
        Command::Init => {
            round_trip_plain(m, "init"@);
        },
        Command::VoiceInput => {
            round_trip_plain(m, "voice_input"@);
        },
        Command::Ask => {
            round_trip_with_field(m, "ask"@, key_question(), m.question->Some_0);
            assert(m.question == Some(m.question->Some_0));
        },
        Command::RemoveDocument => {
            round_trip_with_field(m, "remove_document"@, key_name(), m.name->Some_0);
            assert(m.name == Some(m.name->Some_0));
        },
        Command::AddDocuments => {
            round_trip_paths(m, m.paths->Some_0);
            assert(m.paths == Some(m.paths->Some_0));
        },
    }
}



/// Reads the elements of a paths array out of `v`, starting just after
/// the opening bracket, exactly as the scan specification says.
pub fn scan_paths_exec(v: &Vec<char>, j0: usize) -> (r: Option<(Vec<String>, usize)>)
    ensures
        match scan_paths(v@, j0 as int) {
            Some(p) => r matches Some(e) && strings_view(e.0@) == p.0 && e.1 as int == p.1,
            None => r is None,
        },
{
    let mut j = j0;
    let mut out: Vec<String> = Vec::new();
    proof {
        assert(strings_view(out@) =~= Seq::<Seq<char>>::empty());
    }
    loop
        invariant
            j0 <= j,
            match scan_paths(v@, j as int) {
                Some(pp) => scan_paths(v@, j0 as int) == Some(
                    (strings_view(out@) + pp.0, pp.1),
                ),
                None => scan_paths(v@, j0 as int) is None,
            },
        decreases v@.len() - j,
    {
        if j >= v.len() {
            return None;
        }
        let c = v[j];
        if c == ']' {
            proof {
                assert(strings_view(out@) + Seq::<Seq<char>>::empty() =~= strings_view(out@));
            }
            return Some((out, j + 1));
        } else if c == '"' {
            match scan_string(v, j + 1) {
                None => {
                    return None;
                },
                Some((pv, k)) => {
                    proof {
                        lemma_scan_advances(v@, j + 1, Seq::empty());
                    }
                    if k >= v.len() {
                        return None;
                    }
                    let ck = v[k];
                    if ck == ',' {
                        let ghost old_out = out@;
                        let p = string_of_chars(&pv);
                        out.push(p);
                        proof {
                            assert(strings_view(out@) =~= strings_view(old_out) + seq![pv@]);
                            match scan_paths(v@, k + 1 as int) {
                                Some(pp2) => {
                                    assert(scan_paths(v@, j as int) == Some(
                                        (seq![pv@] + pp2.0, pp2.1),
                                    ));
                                    assert(strings_view(old_out) + (seq![pv@] + pp2.0)
                                        =~= strings_view(out@) + pp2.0);
                                },
                                None => {
                                    assert(scan_paths(v@, j as int) is None);
                                },
                            }
                        }
                        j = k + 1;
                    } else if ck == ']' {
                        let ghost old_out = out@;
                        let p = string_of_chars(&pv);
                        out.push(p);
                        proof {
                            assert(strings_view(out@) =~= strings_view(old_out) + seq![pv@]);
                            assert(scan_paths(v@, j as int) == Some((seq![pv@], k + 1 as int)));
                            assert(strings_view(old_out) + seq![pv@] =~= strings_view(out@));
                        }
                        return Some((out, k + 1));
                    } else {
                        return None;
                    }
                },
            }
        } else {
            return None;
        }
    }
}

/// Decodes one canonical request line back into the request it encodes.
/// The result reproduces the command tag and every populated field of
/// the request the line came from; any other text is rejected.
pub fn decode_request(line: &str) -> (r: Result<Request, String>)
    ensures
        match spec_parse_request(line@) {
            Some(m) => r matches Ok(q) && q@ == m && q.wf(),
            None => r is Err,
        },
{
    let v = str_to_chars(line);
    let pre = "{\"command\":\"";
    if !match_lit(&v, 0, pre) {
        return Err(bad_frame_text());
    }
    let j0: usize = pre.unicode_len();
    proof {
        assert(pre@ == pre_command());
    }
    match scan_string(&v, j0) {
        None => Err(bad_frame_text()),
        Some((tagv, j)) => {
            proof {
                lemma_scan_advances(v@, j0 as int, Seq::empty());
            }
            if chars_eq_str(&tagv, "init") {
                if j < v.len() && j + 1 == v.len() && v[j] == '}' {
                    Ok(Request::init())
                } else {
                    Err(bad_frame_text())
                }
            } else if chars_eq_str(&tagv, "add_documents") {
                let kp = ",\"paths\":[";
                if !match_lit(&v, j, kp) {
                    return Err(bad_frame_text());
                }
                proof {
                    assert(kp@ == key_paths());
                }
                match scan_paths_exec(&v, j + kp.unicode_len()) {
                    None => Err(bad_frame_text()),
                    Some((ps, k)) => {
                        if k < v.len() && k + 1 == v.len() && v[k] == '}' {
                            Ok(Request::add_documents(ps))
                        } else {
                            Err(bad_frame_text())
                        }
                    },
                }
            } else if chars_eq_str(&tagv, "ask") {
                let kq = ",\"question\":\"";
                if !match_lit(&v, j, kq) {
                    return Err(bad_frame_text());
                }
                proof {
                    assert(kq@ == key_question());
                }
                match scan_string(&v, j + kq.unicode_len()) {
                    None => Err(bad_frame_text()),
                    Some((qv, k)) => {
                        if k < v.len() && k + 1 == v.len() && v[k] == '}' {
                            Ok(Request::ask(string_of_chars(&qv)))
                        } else {
                            Err(bad_frame_text())
                        }
                    },
                }
            } else if chars_eq_str(&tagv, "remove_document") {
                let kn = ",\"name\":\"";
                if !match_lit(&v, j, kn) {
                    return Err(bad_frame_text());
                }
                proof {
                    assert(kn@ == key_name());
                }
                match scan_string(&v, j + kn.unicode_len()) {
                    None => Err(bad_frame_text()),
                    Some((nv, k)) => {
                        if k < v.len() && k + 1 == v.len() && v[k] == '}' {
                            Ok(Request::remove_document(string_of_chars(&nv)))
                        } else {
                            Err(bad_frame_text())
                        }
                    },
                }
            } else if chars_eq_str(&tagv, "voice_input") {
                if j < v.len() && j + 1 == v.len() && v[j] == '}' {
                    Ok(Request::voice_input())
                } else {
                    Err(bad_frame_text())
                }
            } else {
                Err(bad_frame_text())
            }
        },
    }
}

/// The diagnostic for a line that is not a canonical request frame.
fn bad_frame_text() -> String {
    String::from_str("line is not a canonical request frame")
}

} // verus!


