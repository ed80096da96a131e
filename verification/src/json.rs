//! The structured value model and its canonical text form.
//!
//! A structured value is a JSON-compatible tree: null, boolean, integer,
//! string, ordered sequence, or string-keyed mapping whose keys keep their
//! insertion order. The canonical text form is pretty-printed with two-space
//! indentation, keys in the order given, `": "` between key and value, and
//! one element per line; strings escape the quote, the backslash, and
//! control characters. Rendering a value and parsing the result returns the
//! value unchanged.

use vstd::prelude::*;

verus! {

broadcast use vstd::seq::group_seq_axioms, vstd::std_specs::vec::group_vec_axioms;

/// An executable structured value. Mapping members keep insertion order and
/// may repeat keys; numbers are integers.
#[derive(Debug, PartialEq, Eq)]
pub enum JsonValue {
    Null,
    Bool(bool),
    Int(i64),
    Str(String),
    Arr(Vec<JsonValue>),
    Obj(Vec<JsonMember>),
}

/// One key-value member of a structured mapping.
#[derive(Debug, PartialEq, Eq)]
pub struct JsonMember {
    pub key: String,
    pub value: JsonValue,
}

/// The mathematical form of a structured value, which the contracts speak of.
#[verifier::ext_equal]
pub ghost enum Json {
    Null,
    Bool(bool),
    Int(i64),
    Str(Seq<char>),
    Arr(Seq<Json>),
    Obj(Seq<(Seq<char>, Json)>),
}

impl JsonValue {
    /// The mathematical value this executable value denotes.
    pub open spec fn deep(self) -> Json
        decreases self,
    {
        match self {
            JsonValue::Null => Json::Null,
            JsonValue::Bool(b) => Json::Bool(b),
            JsonValue::Int(n) => Json::Int(n),
            JsonValue::Str(s) => Json::Str(s@),
            JsonValue::Arr(els) => Json::Arr(deep_seq(els@)),
            JsonValue::Obj(ms) => Json::Obj(deep_members(ms@)),
        }
    }
}

/// The mathematical values a sequence of executable values denotes,
/// element for element.
pub open spec fn deep_seq(els: Seq<JsonValue>) -> Seq<Json>
    decreases els,
{
    if els.len() == 0 {
        seq![]
    } else {
        seq![els[0].deep()] + deep_seq(els.drop_first())
    }
}

/// The mathematical members an executable member list denotes, in order.
pub open spec fn deep_members(ms: Seq<JsonMember>) -> Seq<(Seq<char>, Json)>
    decreases ms,
{
    if ms.len() == 0 {
        seq![]
    } else {
        seq![(ms[0].key@, ms[0].value.deep())] + deep_members(ms.drop_first())
    }
}

/// The decimal digit character for `n` (meaningful for `n < 10`).
pub open spec fn digit_char(n: nat) -> char {
    (((48 + n) as u8) as char)
}

/// The decimal digits of `n`, most significant first.
pub open spec fn dec_digits(n: nat) -> Seq<char>
    decreases n,
{
    if n < 10 {
        seq![digit_char(n)]
    } else {
        dec_digits(n / 10) + seq![digit_char(n % 10)]
    }
}

/// The canonical decimal rendering of an integer: a `-` sign for negative
/// values, then the digits without leading zeros.
pub open spec fn dec_of(n: int) -> Seq<char> {
    if n < 0 {
        seq!['-'] + dec_digits((-n) as nat)
    } else {
        dec_digits(n as nat)
    }
}

/// The lower-case hexadecimal digit character for `n` (meaningful for
/// `n < 16`).
pub open spec fn hex_char(n: nat) -> char {
    if n < 10 {
        (((48 + n) as u8) as char)
    } else {
        (((87 + n) as u8) as char)
    }
}

/// How one character is written inside a quoted string: quote and backslash
/// escaped, the common control characters by letter, other control
/// characters as a `\u00..` escape, everything else as itself.
pub open spec fn esc_char(c: char) -> Seq<char> {
    if c == '"' {
        seq!['\\', '"']
    } else if c == '\\' {
        seq!['\\', '\\']
    } else if c == '\n' {
        seq!['\\', 'n']
    } else if c == '\r' {
        seq!['\\', 'r']
    } else if c == '\t' {
        seq!['\\', 't']
    } else if (c as u32) < 32 {
        seq!['\\', 'u', '0', '0', hex_char((c as u32) as nat / 16), hex_char((c as u32) as nat % 16)]
    } else {
        seq![c]
    }
}

/// The escaped body of a quoted string.
pub open spec fn esc_str(s: Seq<char>) -> Seq<char>
    decreases s.len(),
{
    if s.len() == 0 {
        seq![]
    } else {
        esc_char(s[0]) + esc_str(s.drop_first())
    }
}

/// The quoted rendering of a string value.
pub open spec fn quoted(s: Seq<char>) -> Seq<char> {
    seq!['"'] + esc_str(s) + seq!['"']
}

/// `n` spaces.
pub open spec fn spaces(n: nat) -> Seq<char>
    decreases n,
{
    if n == 0 {
        seq![]
    } else {
        spaces((n - 1) as nat) + seq![' ']
    }
}

/// The canonical text form of a value standing at nesting depth `d`.
///
/// Sequences and mappings put each element on a line of its own, indented
/// two spaces per depth, with the closing bracket back at the parent depth;
/// empty ones render as `[]` and `{}`.
pub open spec fn ser(j: Json, d: nat) -> Seq<char>
    decreases j,
{
    match j {
        Json::Null => seq!['n', 'u', 'l', 'l'],
        Json::Bool(b) => if b {
            seq!['t', 'r', 'u', 'e']
        } else {
            seq!['f', 'a', 'l', 's', 'e']
        },
        Json::Int(n) => dec_of(n as int),
        Json::Str(s) => quoted(s),
        Json::Arr(els) => if els.len() == 0 {
            seq!['[', ']']
        } else {
            seq!['['] + ser_arr_items(els, d) + seq!['\n'] + spaces(2 * d) + seq![']']
        },
        Json::Obj(ms) => if ms.len() == 0 {
            seq!['{', '}']
        } else {
            seq!['{'] + ser_obj_items(ms, d) + seq!['\n'] + spaces(2 * d) + seq!['}']
        },
    }
}

/// The members of a non-empty sequence: each on its own line at depth
/// `d + 1`, separated by commas.
pub open spec fn ser_arr_items(els: Seq<Json>, d: nat) -> Seq<char>
    decreases els,
{
    if els.len() == 0 {
        seq![]
    } else {
        let head = seq!['\n'] + spaces(2 * (d + 1)) + ser(els[0], d + 1);
        if els.len() == 1 {
            head
        } else {
            head + seq![','] + ser_arr_items(els.drop_first(), d)
        }
    }
}

/// The members of a non-empty mapping: each `"key": value` on its own line
/// at depth `d + 1`, in the order given, separated by commas.
pub open spec fn ser_obj_items(ms: Seq<(Seq<char>, Json)>, d: nat) -> Seq<char>
    decreases ms,
{
    if ms.len() == 0 {
        seq![]
    } else {
        let head = seq!['\n'] + spaces(2 * (d + 1)) + quoted(ms[0].0) + seq![':', ' '] + ser(
            ms[0].1,
            d + 1,
        );
        if ms.len() == 1 {
            head
        } else {
            head + seq![','] + ser_obj_items(ms.drop_first(), d)
        }
    }
}

} // verus!
