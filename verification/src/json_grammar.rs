//! The grammar of structured-value text, as specification functions.
//!
//! These functions define what it means to parse a structured document: each
//! takes the text and a position and yields the value recognized there and
//! the position just past it, or nothing when the text is not well formed.
//! The executable parser is verified to return exactly what these functions
//! say; the canonical renderer's output parses back to the value it came
//! from.
//!
//! The recognized form is the structured-value text form: the atoms `null`,
//! `true`, `false`, integer numbers, quoted strings with the usual escapes
//! (`\u` escapes up to `ÿ`, the range the renderer emits), sequences
//! and mappings with any whitespace between tokens. Numbers with a
//! fractional part or an exponent are not representable as structured
//! values and are rejected.

use vstd::prelude::*;

use crate::json::Json;

verus! {

/// The whitespace characters that may stand between tokens.
pub open spec fn is_ws(c: char) -> bool {
    c == ' ' || c == '\n' || c == '\t' || c == '\r'
}

/// A decimal digit.
pub open spec fn is_digit(c: char) -> bool {
    48 <= (c as u32) && (c as u32) <= 57
}

/// A hexadecimal digit, either case.
pub open spec fn is_hex(c: char) -> bool {
    is_digit(c) || (97 <= (c as u32) && (c as u32) <= 102) || (65 <= (c as u32) && (c as u32)
        <= 70)
}

/// The numeric value of a decimal digit.
pub open spec fn digit_val(c: char) -> int {
    (c as u32) - 48
}

/// The numeric value of a hexadecimal digit.
pub open spec fn hex_val(c: char) -> int {
    if is_digit(c) {
        (c as u32) - 48
    } else if 97 <= (c as u32) {
        (c as u32) - 87
    } else {
        (c as u32) - 55
    }
}

/// The first position at or after `i` holding no whitespace.
pub open spec fn skip_ws(s: Seq<char>, i: int) -> int
    decreases s.len() - i,
{
    if 0 <= i && i < s.len() && is_ws(s[i]) {
        skip_ws(s, i + 1)
    } else {
        i
    }
}

/// The first position at or after `i` holding no decimal digit.
pub open spec fn digits_end(s: Seq<char>, i: int) -> int
    decreases s.len() - i,
{
    if 0 <= i && i < s.len() && is_digit(s[i]) {
        digits_end(s, i + 1)
    } else {
        i
    }
}

/// The number the digits from `i` up to `end` spell out.
pub open spec fn digits_val(s: Seq<char>, i: int, end: int) -> int
    decreases end - i,
{
    if i < end {
        digits_val(s, i, end - 1) * 10 + digit_val(s[end - 1])
    } else {
        0
    }
}

/// The body of a quoted string beginning at `i` (just past the opening
/// quote): the characters it denotes and the position past the closing
/// quote. Unescaped control characters, unknown escapes, and `\u` escapes
/// beyond `ÿ` are rejected.
pub open spec fn parse_string_body(s: Seq<char>, i: int) -> Option<(Seq<char>, int)>
    decreases s.len() - i,
{
    if i < 0 || i >= s.len() {
        None
    } else if s[i] == '"' {
        Some((seq![], i + 1))
    } else if s[i] == '\\' {
        if i + 2 > s.len() {
            None
        } else {
            let e = s[i + 1];
            if e == 'u' {
                if i + 6 > s.len() {
                    None
                } else if is_hex(s[i + 2]) && is_hex(s[i + 3]) && is_hex(s[i + 4]) && is_hex(
                    s[i + 5],
                ) {
                    let v = ((hex_val(s[i + 2]) * 16 + hex_val(s[i + 3])) * 16 + hex_val(
                        s[i + 4],
                    )) * 16 + hex_val(s[i + 5]);
                    if v <= 255 {
                        match parse_string_body(s, i + 6) {
                            Some((rest, j)) => Some((seq![((v as u8) as char)] + rest, j)),
                            None => None,
                        }
                    } else {
                        None
                    }
                } else {
                    None
                }
            } else {
                let c: Option<char> = if e == '"' {
                    Some('"')
                } else if e == '\\' {
                    Some('\\')
                } else if e == '/' {
                    Some('/')
                } else if e == 'n' {
                    Some('\n')
                } else if e == 't' {
                    Some('\t')
                } else if e == 'r' {
                    Some('\r')
                } else if e == 'b' {
                    Some('\u{8}')
                } else if e == 'f' {
                    Some('\u{c}')
                } else {
                    None
                };
                match c {
                    Some(cc) => match parse_string_body(s, i + 2) {
                        Some((rest, j)) => Some((seq![cc] + rest, j)),
                        None => None,
                    },
                    None => None,
                }
            }
        }
    } else if (s[i] as u32) < 32 {
        None
    } else {
        match parse_string_body(s, i + 1) {
            Some((rest, j)) => Some((seq![s[i]] + rest, j)),
            None => None,
        }
    }
}

/// An integer number beginning at `i`: an optional sign and digits without
/// a leading zero, rejected when a fraction or exponent follows or the
/// value does not fit a 64-bit integer.
pub open spec fn parse_int(s: Seq<char>, i: int) -> Option<(i64, int)> {
    if i < 0 || i >= s.len() {
        None
    } else {
        let neg = s[i] == '-';
        let st = if neg {
            i + 1
        } else {
            i
        };
        if st >= s.len() || !is_digit(s[st]) {
            None
        } else {
            let end = digits_end(s, st);
            let m = digits_val(s, st, end);
            if s[st] == '0' && st + 1 < end {
                None
            } else if end < s.len() && (s[end] == '.' || s[end] == 'e' || s[end] == 'E') {
                None
            } else if neg {
                if m <= 0x8000000000000000 {
                    Some(((-m) as i64, end))
                } else {
                    None
                }
            } else {
                if m <= 0x7fffffffffffffff {
                    Some((m as i64, end))
                } else {
                    None
                }
            }
        }
    }
}

/// The value beginning at `i`, after any whitespace, and the position just
/// past it.
pub open spec fn parse_value(s: Seq<char>, i: int) -> Option<(Json, int)>
    decreases s.len() - i, 1int,
{
    let j = skip_ws(s, i);
    if j < i || j >= s.len() {
        None
    } else {
        let c = s[j];
        if c == 'n' {
            if j + 4 <= s.len() && s[j + 1] == 'u' && s[j + 2] == 'l' && s[j + 3] == 'l' {
                Some((Json::Null, j + 4))
            } else {
                None
            }
        } else if c == 't' {
            if j + 4 <= s.len() && s[j + 1] == 'r' && s[j + 2] == 'u' && s[j + 3] == 'e' {
                Some((Json::Bool(true), j + 4))
            } else {
                None
            }
        } else if c == 'f' {
            if j + 5 <= s.len() && s[j + 1] == 'a' && s[j + 2] == 'l' && s[j + 3] == 's' && s[j
                + 4] == 'e' {
                Some((Json::Bool(false), j + 5))
            } else {
                None
            }
        } else if c == '"' {
            match parse_string_body(s, j + 1) {
                Some((cs, k)) => Some((Json::Str(cs), k)),
                None => None,
            }
        } else if c == '[' {
            let j2 = skip_ws(s, j + 1);
            if j + 1 <= j2 && j2 < s.len() && s[j2] == ']' {
                Some((Json::Arr(seq![]), j2 + 1))
            } else {
                match parse_arr_items(s, j + 1) {
                    Some((els, k)) => Some((Json::Arr(els), k)),
                    None => None,
                }
            }
        } else if c == '{' {
            let j2 = skip_ws(s, j + 1);
            if j + 1 <= j2 && j2 < s.len() && s[j2] == '}' {
                Some((Json::Obj(seq![]), j2 + 1))
            } else {
                match parse_obj_items(s, j + 1) {
                    Some((ms, k)) => Some((Json::Obj(ms), k)),
                    None => None,
                }
            }
        } else if c == '-' || is_digit(c) {
            match parse_int(s, j) {
                Some((n, k)) => Some((Json::Int(n), k)),
                None => None,
            }
        } else {
            None
        }
    }
}

/// One or more sequence elements beginning at `i` (just past `[` or a
/// comma), up to and past the closing `]`.
pub open spec fn parse_arr_items(s: Seq<char>, i: int) -> Option<(Seq<Json>, int)>
    decreases s.len() - i, 2int,
{
    match parse_value(s, i) {
        None => None,
        Some((v, k0)) => {
            if k0 <= i {
                None
            } else {
                let k = skip_ws(s, k0);
                if k < k0 || k >= s.len() {
                    None
                } else if s[k] == ',' {
                    match parse_arr_items(s, k + 1) {
                        Some((rest, m)) => Some((seq![v] + rest, m)),
                        None => None,
                    }
                } else if s[k] == ']' {
                    Some((seq![v], k + 1))
                } else {
                    None
                }
            }
        },
    }
}

/// One or more mapping members beginning at `i` (just past `{` or a
/// comma), up to and past the closing `}`.
pub open spec fn parse_obj_items(s: Seq<char>, i: int) -> Option<(Seq<(Seq<char>, Json)>, int)>
    decreases s.len() - i, 2int,
{
    let j = skip_ws(s, i);
    if j < i || j >= s.len() || s[j] != '"' {
        None
    } else {
        match parse_string_body(s, j + 1) {
            None => None,
            Some((key, k1)) => {
                if k1 <= i {
                    None
                } else {
                    let k2 = skip_ws(s, k1);
                    if k2 < k1 || k2 >= s.len() || s[k2] != ':' {
                        None
                    } else {
                        match parse_value(s, k2 + 1) {
                            None => None,
                            Some((v, k3)) => {
                                if k3 <= k2 {
                                    None
                                } else {
                                    let k4 = skip_ws(s, k3);
                                    if k4 < k3 || k4 >= s.len() {
                                        None
                                    } else if s[k4] == ',' {
                                        match parse_obj_items(s, k4 + 1) {
                                            Some((rest, m)) => Some((seq![(key, v)] + rest, m)),
                                            None => None,
                                        }
                                    } else if s[k4] == '}' {
                                        Some((seq![(key, v)], k4 + 1))
                                    } else {
                                        None
                                    }
                                }
                            },
                        }
                    }
                }
            },
        }
    }
}

/// A whole document: one value with nothing but whitespace around it.
pub open spec fn parse_doc(s: Seq<char>) -> Option<Json> {
    match parse_value(s, 0) {
        None => None,
        Some((v, k)) => if skip_ws(s, k) == s.len() {
            Some(v)
        } else {
            None
        },
    }
}

} // verus!
