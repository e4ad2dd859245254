//! The backend body format: a JSON array of strings.
//!
//! A successful backend response must decode as `["value1","value2",...]`.
//! The grammar, stated by [`json_strings_of`], is the JSON (RFC 8259)
//! production for an array whose elements are all strings: optional
//! whitespace around the brackets, the comma-separated elements, and
//! within a string the escapes `\" \\ \/ \b \f \n \r \t` and `\uXXXX`,
//! including surrogate pairs, with unescaped control characters refused.
//! [`parse_json_strings`] is proved to return exactly that parse.

use vstd::prelude::*;

use crate::text::{char_from_u32, string_from_chars};

verus! {

/// JSON insignificant whitespace.
pub open spec fn is_json_ws(c: char) -> bool {
    c == ' ' || c == '\t' || c == '\n' || c == '\r'
}

/// Whether `c` is a hexadecimal digit.
pub open spec fn is_hex_digit(c: char) -> bool {
    ('0' <= c && c <= '9') || ('a' <= c && c <= 'f') || ('A' <= c && c <= 'F')
}

/// The value of a hexadecimal digit.
pub open spec fn hex_digit_value(c: char) -> int {
    if '0' <= c && c <= '9' {
        c as int - '0' as int
    } else if 'a' <= c && c <= 'f' {
        c as int - 'a' as int + 10
    } else {
        c as int - 'A' as int + 10
    }
}

/// The value of the four hexadecimal digits of `s` at `i`.
pub open spec fn hex4_value(s: Seq<char>, i: int) -> int {
    hex_digit_value(s[i]) * 0x1000 + hex_digit_value(s[i + 1]) * 0x100 + hex_digit_value(
        s[i + 2],
    ) * 0x10 + hex_digit_value(s[i + 3])
}

/// Whether `s` holds four hexadecimal digits at `i`.
pub open spec fn hex4_at(s: Seq<char>, i: int) -> bool {
    is_hex_digit(s[i]) && is_hex_digit(s[i + 1]) && is_hex_digit(s[i + 2]) && is_hex_digit(
        s[i + 3],
    )
}

/// The replacement character of a single-character escape, if `c` is one.
pub open spec fn escape_char(c: char) -> Option<char> {
    if c == '"' {
        Some('"')
    } else if c == '\\' {
        Some('\\')
    } else if c == '/' {
        Some('/')
    } else if c == 'b' {
        Some('\u{8}')
    } else if c == 'f' {
        Some('\u{c}')
    } else if c == 'n' {
        Some('\n')
    } else if c == 'r' {
        Some('\r')
    } else if c == 't' {
        Some('\t')
    } else {
        None
    }
}

/// Where the parse of an array of strings stands: before the `[`, before
/// the first element, before a later element, inside a string, between
/// elements, or after the `]`.
pub enum ArrayParse {
    Start,
    ExpectFirst,
    ExpectString { acc: Seq<Seq<char>> },
    InString { acc: Seq<Seq<char>>, cur: Seq<char> },
    AfterString { acc: Seq<Seq<char>> },
    Finished { acc: Seq<Seq<char>> },
}

/// One pass over `s` from `i` in state `st`: the strings of the array, or
/// `None` when `s` is not an array of strings.  This is the grammar,
/// written as the deterministic automaton that consumes it.
pub open spec fn json_run(s: Seq<char>, i: int, st: ArrayParse) -> Option<Seq<Seq<char>>>
    decreases s.len() - i,
{
    if i < 0 {
        None
    } else if i >= s.len() {
        match st {
            ArrayParse::Finished { acc } => Some(acc),
            _ => None,
        }
    } else {
        let c = s[i];
        match st {
            ArrayParse::Start => {
                if is_json_ws(c) {
                    json_run(s, i + 1, ArrayParse::Start)
                } else if c == '[' {
                    json_run(s, i + 1, ArrayParse::ExpectFirst)
                } else {
                    None
                }
            },
            ArrayParse::ExpectFirst => {
                if is_json_ws(c) {
                    json_run(s, i + 1, ArrayParse::ExpectFirst)
                } else if c == ']' {
                    json_run(s, i + 1, ArrayParse::Finished { acc: Seq::empty() })
                } else if c == '"' {
                    json_run(s, i + 1, ArrayParse::InString { acc: Seq::empty(), cur: Seq::empty() })
                } else {
                    None
                }
            },
            ArrayParse::ExpectString { acc } => {
                if is_json_ws(c) {
                    json_run(s, i + 1, ArrayParse::ExpectString { acc })
                } else if c == '"' {
                    json_run(s, i + 1, ArrayParse::InString { acc, cur: Seq::empty() })
                } else {
                    None
                }
            },
            ArrayParse::InString { acc, cur } => {
                if c == '"' {
                    json_run(s, i + 1, ArrayParse::AfterString { acc: acc.push(cur) })
                } else if c == '\\' {
                    if i + 2 > s.len() {
                        None
                    } else {
                        let e = s[i + 1];
                        match escape_char(e) {
                            Some(r) => json_run(
                                s,
                                i + 2,
                                ArrayParse::InString { acc, cur: cur.push(r) },
                            ),
                            None => {
                                if e != 'u' {
                                    None
                                } else if i + 6 > s.len() || !hex4_at(s, i + 2) {
                                    None
                                } else {
                                    let code = hex4_value(s, i + 2);
                                    if 0xD800 <= code && code < 0xDC00 {
                                        // A leading surrogate: the pair
                                        // encodes one supplementary
                                        // character.
                                        if i + 12 > s.len() || s[i + 6] != '\\' || s[i + 7] != 'u'
                                            || !hex4_at(s, i + 8) {
                                            None
                                        } else {
                                            let lo = hex4_value(s, i + 8);
                                            if 0xDC00 <= lo && lo < 0xE000 {
                                                let cp = 0x10000 + (code - 0xD800) * 0x400 + (lo
                                                    - 0xDC00);
                                                json_run(
                                                    s,
                                                    i + 12,
                                                    ArrayParse::InString {
                                                        acc,
                                                        cur: cur.push((cp as u32) as char),
                                                    },
                                                )
                                            } else {
                                                None
                                            }
                                        }
                                    } else if 0xDC00 <= code && code < 0xE000 {
                                        None
                                    } else {
                                        json_run(
                                            s,
                                            i + 6,
                                            ArrayParse::InString {
                                                acc,
                                                cur: cur.push((code as u32) as char),
                                            },
                                        )
                                    }
                                }
                            },
                        }
                    }
                } else if (c as u32) < 0x20 {
                    None
                } else {
                    json_run(s, i + 1, ArrayParse::InString { acc, cur: cur.push(c) })
                }
            },
            ArrayParse::AfterString { acc } => {
                if is_json_ws(c) {
                    json_run(s, i + 1, ArrayParse::AfterString { acc })
                } else if c == ',' {
                    json_run(s, i + 1, ArrayParse::ExpectString { acc })
                } else if c == ']' {
                    json_run(s, i + 1, ArrayParse::Finished { acc })
                } else {
                    None
                }
            },
            ArrayParse::Finished { acc } => {
                if is_json_ws(c) {
                    json_run(s, i + 1, ArrayParse::Finished { acc })
                } else {
                    None
                }
            },
        }
    }
}

/// The strings of `s` read as a JSON array of strings, or `None` when `s`
/// is no such array.
pub open spec fn json_strings_of(s: Seq<char>) -> Option<Seq<Seq<char>>> {
    json_run(s, 0, ArrayParse::Start)
}

/// Executable test for [`is_json_ws`].
fn is_json_ws_exec(c: char) -> (r: bool)
    ensures
        r == is_json_ws(c),
{
    c == ' ' || c == '\t' || c == '\n' || c == '\r'
}

/// The value of a hexadecimal digit, or `None`.
fn hex_val(c: char) -> (r: Option<u32>)
    ensures
        match r {
            Some(v) => is_hex_digit(c) && v == hex_digit_value(c) && v < 16,
            None => !is_hex_digit(c),
        },
{
    if '0' <= c && c <= '9' {
        Some((c as u32) - ('0' as u32))
    } else if 'a' <= c && c <= 'f' {
        Some((c as u32) - ('a' as u32) + 10)
    } else if 'A' <= c && c <= 'F' {
        Some((c as u32) - ('A' as u32) + 10)
    } else {
        None
    }
}

/// The four hexadecimal digits of `v` at `i`, or `None`.
fn hex4(v: &Vec<char>, i: usize) -> (r: Option<u32>)
    requires
        i + 4 <= v@.len(),
    ensures
        match r {
            Some(x) => hex4_at(v@, i as int) && x == hex4_value(v@, i as int) && x < 0x10000,
            None => !hex4_at(v@, i as int),
        },
{
    let n = v.len();
    let d0 = match hex_val(v[i]) {
        Some(d) => d,
        None => { return None; },
    };
    let d1 = match hex_val(v[i + 1]) {
        Some(d) => d,
        None => { return None; },
    };
    let d2 = match hex_val(v[i + 2]) {
        Some(d) => d,
        None => { return None; },
    };
    let d3 = match hex_val(v[i + 3]) {
        Some(d) => d,
        None => { return None; },
    };
    Some(d0 * 0x1000 + d1 * 0x100 + d2 * 0x10 + d3)
}

/// Parse `v` as a JSON array of strings, exactly as [`json_strings_of`]
/// states the grammar.
#[verifier::rlimit(100)]
pub fn parse_json_strings(v: &Vec<char>) -> (r: Option<Vec<String>>)
    ensures
        match r {
            Some(values) => json_strings_of(v@) == Some(values.deep_view()),
            None => json_strings_of(v@) is None,
        },
{
    let ghost s = v@;
    let mut mode: u8 = 0;  // 0 Start, 1 ExpectFirst, 2 ExpectString, 3 InString, 4 AfterString, 5 Finished
    let mut acc: Vec<String> = Vec::new();
    let mut cur: Vec<char> = Vec::new();
    let mut i: usize = 0;
    loop
        invariant
            s == v@,
            0 <= i <= s.len(),
            mode <= 5,
            json_run(s, 0, ArrayParse::Start) == json_run(s, i as int, state_model(mode, acc.deep_view(), cur@)),
            mode != 3 ==> cur@.len() == 0,
            mode <= 1 ==> acc.deep_view() =~= Seq::<Seq<char>>::empty(),
        decreases s.len() - i,
    {
        let ghost st = state_model(mode, acc.deep_view(), cur@);
        if i == v.len() {
            if mode == 5 {
                return Some(acc);
            }
            return None;
        }
        let c = v[i];
        if mode == 0 {
            if is_json_ws_exec(c) {
                i += 1;
            } else if c == '[' {
                mode = 1;
                i += 1;
            } else {
                return None;
            }
        } else if mode == 1 {
            if is_json_ws_exec(c) {
                i += 1;
            } else if c == ']' {
                mode = 5;
                i += 1;
                proof {
                    assert(acc.deep_view() =~= Seq::<Seq<char>>::empty());
                }
            } else if c == '"' {
                mode = 3;
                i += 1;
                proof {
                    assert(acc.deep_view() =~= Seq::<Seq<char>>::empty());
                    assert(cur@ =~= Seq::<char>::empty());
                }
            } else {
                return None;
            }
        } else if mode == 2 {
            if is_json_ws_exec(c) {
                i += 1;
            } else if c == '"' {
                mode = 3;
                i += 1;
                proof {
                    assert(cur@ =~= Seq::<char>::empty());
                }
            } else {
                return None;
            }
        } else if mode == 3 {
            if c == '"' {
                let ghost pre_cur = cur@;
                let finished = string_from_chars(&cur);
                let ghost pre_acc = acc.deep_view();
                acc.push(finished);
                cur = Vec::new();
                mode = 4;
                i += 1;
                proof {
                    assert(acc.deep_view() =~= pre_acc.push(pre_cur));
                }
            } else if c == '\\' {
                if v.len() - i <= 1 {
                    proof {
                        assert(json_run(s, i as int, st) is None);
                    }
                    return None;
                }
                let e = v[i + 1];
                let esc = escape_char_exec(e);
                match esc {
                    Some(rc) => {
                        cur.push(rc);
                        i += 2;
                    },
                    None => {
                        if e != 'u' {
                            return None;
                        }
                        if v.len() - i < 6 {
                            return None;
                        }
                        let code = match hex4(v, i + 2) {
                            Some(x) => x,
                            None => { return None; },
                        };
                        if 0xD800 <= code && code < 0xDC00 {
                            if v.len() - i < 12 {
                                return None;
                            }
                            if !(v[i + 6] == '\\' && v[i + 7] == 'u') {
                                return None;
                            }
                            let lo = match hex4(v, i + 8) {
                                Some(x) => x,
                                None => { return None; },
                            };
                            if !(0xDC00 <= lo && lo < 0xE000) {
                                return None;
                            }
                            let cp: u32 = 0x10000 + (code - 0xD800) * 0x400 + (lo - 0xDC00);
                            let ch = match char_from_u32(cp) {
                                Some(ch) => ch,
                                None => {
                                    // cp is in the supplementary planes, so
                                    // it is a Unicode scalar value.
                                    proof {
                                        assert(false);
                                    }
                                    return None;
                                },
                            };
                            proof {
                                vstd::utf8::char_u32_cast(ch, cp);
                            }
                            cur.push(ch);
                            i += 12;
                        } else if 0xDC00 <= code && code < 0xE000 {
                            return None;
                        } else {
                            let ch = match char_from_u32(code) {
                                Some(ch) => ch,
                                None => {
                                    // code is below 0xD800 or above the
                                    // surrogates and below 0x10000.
                                    proof {
                                        assert(false);
                                    }
                                    return None;
                                },
                            };
                            proof {
                                vstd::utf8::char_u32_cast(ch, code);
                            }
                            cur.push(ch);
                            i += 6;
                        }
                    },
                }
            } else if (c as u32) < 0x20 {
                return None;
            } else {
                cur.push(c);
                i += 1;
            }
        } else if mode == 4 {
            if is_json_ws_exec(c) {
                i += 1;
            } else if c == ',' {
                mode = 2;
                i += 1;
            } else if c == ']' {
                mode = 5;
                i += 1;
            } else {
                return None;
            }
        } else {
            if is_json_ws_exec(c) {
                i += 1;
            } else {
                return None;
            }
        }
        proof {
            assert(json_run(s, 0, ArrayParse::Start) == json_run(
                s,
                i as int,
                state_model(mode, acc.deep_view(), cur@),
            ));
        }
    }
}

/// The ghost state that the executable parser's variables stand for.
pub open spec fn state_model(mode: u8, acc: Seq<Seq<char>>, cur: Seq<char>) -> ArrayParse {
    if mode == 0 {
        ArrayParse::Start
    } else if mode == 1 {
        ArrayParse::ExpectFirst
    } else if mode == 2 {
        ArrayParse::ExpectString { acc }
    } else if mode == 3 {
        ArrayParse::InString { acc, cur }
    } else if mode == 4 {
        ArrayParse::AfterString { acc }
    } else {
        ArrayParse::Finished { acc }
    }
}

/// Executable counterpart of [`escape_char`].
fn escape_char_exec(c: char) -> (r: Option<char>)
    ensures
        r == escape_char(c),
{
    if c == '"' {
        Some('"')
    } else if c == '\\' {
        Some('\\')
    } else if c == '/' {
        Some('/')
    } else if c == 'b' {
        Some('\u{8}')
    } else if c == 'f' {
        Some('\u{c}')
    } else if c == 'n' {
        Some('\n')
    } else if c == 'r' {
        Some('\r')
    } else if c == 't' {
        Some('\t')
    } else {
        None
    }
}

} // verus!
