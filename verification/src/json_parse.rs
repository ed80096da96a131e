//! Parsing structured-value text.
//!
//! The parser returns exactly what the grammar functions of `json_grammar`
//! recognize: a well-formed document yields its structured value, anything
//! else a classified parse failure.

use vstd::prelude::*;

use crate::errors::OpError;
use crate::json::deep_members;
use crate::json::deep_seq;
use crate::json::JsonMember;
use crate::json::JsonValue;
use crate::json_grammar::digits_end;
use crate::json_grammar::digits_val;
use crate::json_grammar::hex_val;
use crate::json_grammar::is_digit;
use crate::json_grammar::is_hex;
use crate::json_grammar::parse_arr_items;
use crate::json_grammar::parse_doc;
use crate::json_grammar::parse_int;
use crate::json_grammar::parse_obj_items;
use crate::json_grammar::parse_string_body;
use crate::json_grammar::parse_value;
use crate::json_grammar::skip_ws;
use crate::json::Json;
use crate::text::string_to_chars;

verus! {

broadcast use vstd::seq::group_seq_axioms, vstd::std_specs::vec::group_vec_axioms;

/// Digits spell out a number at least zero.
proof fn lemma_digits_val_nonneg(s: Seq<char>, st: int, end: int)
    requires
        st <= end,
        forall|k: int| st <= k < end ==> is_digit(s[k]),
    ensures
        digits_val(s, st, end) >= 0,
    decreases end - st,
{
    if st < end {
        lemma_digits_val_nonneg(s, st, end - 1);
    }
}

/// Reading more digits never shrinks the number they spell out.
proof fn lemma_digits_val_mono(s: Seq<char>, st: int, a: int, b: int)
    requires
        st <= a <= b,
        forall|k: int| st <= k < b ==> is_digit(s[k]),
    ensures
        digits_val(s, st, b) >= digits_val(s, st, a),
    decreases b - a,
{
    if a < b {
        lemma_digits_val_mono(s, st, a, b - 1);
        lemma_digits_val_nonneg(s, st, b - 1);
    }
}

/// A mathematical value sequence extends member for member.
proof fn lemma_deep_seq_cons(x: JsonValue, t: Seq<JsonValue>)
    ensures
        deep_seq(seq![x] + t) == seq![x.deep()] + deep_seq(t),
{
    assert((seq![x] + t)[0] == x);
    assert((seq![x] + t).drop_first() =~= t);
    assert(deep_seq(seq![x] + t) =~= seq![x.deep()] + deep_seq(t));
}

/// A mathematical member list extends member for member.
proof fn lemma_deep_members_cons(x: JsonMember, t: Seq<JsonMember>)
    ensures
        deep_members(seq![x] + t) == seq![(x.key@, x.value.deep())] + deep_members(t),
{
    assert((seq![x] + t)[0] == x);
    assert((seq![x] + t).drop_first() =~= t);
    assert(deep_members(seq![x] + t) =~= seq![(x.key@, x.value.deep())] + deep_members(t));
}

fn p_skip_ws(s: &Vec<char>, i: usize) -> (j: usize)
    requires
        i <= s@.len(),
    ensures
        j as int == skip_ws(s@, i as int),
        i <= j <= s@.len(),
{
    let mut cur = i;
    while cur < s.len() && (s[cur] == ' ' || s[cur] == '\n' || s[cur] == '\t' || s[cur] == '\r')
        invariant
            i <= cur <= s@.len(),
            skip_ws(s@, i as int) == skip_ws(s@, cur as int),
        decreases s@.len() - cur,
    {
        cur = cur + 1;
    }
    cur
}

fn hexv(c: char) -> (v: u32)
    requires
        is_hex(c),
    ensures
        v as int == hex_val(c),
{
    let u = c as u32;
    if u <= 57 {
        u - 48
    } else if u >= 97 {
        u - 87
    } else {
        u - 55
    }
}

fn p_string_body(s: &Vec<char>, i: usize) -> (r: Option<(Vec<char>, usize)>)
    requires
        i <= s@.len(),
    ensures
        match r {
            Some((cs, j)) => parse_string_body(s@, i as int) == Some((cs@, j as int)) && i < j
                <= s@.len(),
            None => parse_string_body(s@, i as int) is None,
        },
    decreases s@.len() - i,
{
    if i >= s.len() {
        return None;
    }
    let c = s[i];
    if c == '"' {
        let out: Vec<char> = Vec::new();
        proof {
            assert(out@ =~= Seq::<char>::empty());
        }
        return Some((out, i + 1));
    }
    if c == '\\' {
        if s.len() - i < 2 {
            return None;
        }
        let e = s[i + 1];
        if e == 'u' {
            if s.len() - i < 6 {
                return None;
            }
            let h2 = s[i + 2];
            let h3 = s[i + 3];
            let h4 = s[i + 4];
            let h5 = s[i + 5];
            if !(is_hex_exec(h2) && is_hex_exec(h3) && is_hex_exec(h4) && is_hex_exec(h5)) {
                return None;
            }
            let v: u32 = ((hexv(h2) * 16 + hexv(h3)) * 16 + hexv(h4)) * 16 + hexv(h5);
            if v > 255 {
                return None;
            }
            let cc = (v as u8) as char;
            match p_string_body(s, i + 6) {
                Some((mut rest, j)) => {
                    let ghost tail = rest@;
                    rest.insert(0, cc);
                    proof {
                        assert(rest@ =~= seq![cc] + tail);
                    }
                    Some((rest, j))
                },
                None => None,
            }
        } else {
            let cc: char = if e == '"' {
                '"'
            } else if e == '\\' {
                '\\'
            } else if e == '/' {
                '/'
            } else if e == 'n' {
                '\n'
            } else if e == 't' {
                '\t'
            } else if e == 'r' {
                '\r'
            } else if e == 'b' {
                '\u{8}'
            } else if e == 'f' {
                '\u{c}'
            } else {
                return None;
            };
            match p_string_body(s, i + 2) {
                Some((mut rest, j)) => {
                    let ghost tail = rest@;
                    rest.insert(0, cc);
                    proof {
                        assert(rest@ =~= seq![cc] + tail);
                    }
                    Some((rest, j))
                },
                None => None,
            }
        }
    } else if (c as u32) < 32 {
        None
    } else {
        match p_string_body(s, i + 1) {
            Some((mut rest, j)) => {
                let ghost tail = rest@;
                rest.insert(0, c);
                proof {
                    assert(rest@ =~= seq![c] + tail);
                }
                Some((rest, j))
            },
            None => None,
        }
    }
}

fn is_digit_exec(c: char) -> (r: bool)
    ensures
        r == is_digit(c),
{
    48 <= (c as u32) && (c as u32) <= 57
}

fn is_hex_exec(c: char) -> (r: bool)
    ensures
        r == is_hex(c),
{
    let u = c as u32;
    (48 <= u && u <= 57) || (97 <= u && u <= 102) || (65 <= u && u <= 70)
}

#[verifier::loop_isolation(false)]
fn p_int(s: &Vec<char>, i: usize) -> (r: Option<(i64, usize)>)
    requires
        i <= s@.len(),
    ensures
        match r {
            Some((n, j)) => parse_int(s@, i as int) == Some((n, j as int)) && i < j <= s@.len(),
            None => parse_int(s@, i as int) is None,
        },
{
    if i >= s.len() {
        return None;
    }
    let neg = s[i] == '-';
    let st = if neg {
        i + 1
    } else {
        i
    };
    if st >= s.len() {
        return None;
    }
    let c0 = s[st];
    if !is_digit_exec(c0) {
        return None;
    }
    let mut end = st;
    while end < s.len() && 48 <= (s[end] as u32) && (s[end] as u32) <= 57
        invariant
            st <= end <= s@.len(),
            digits_end(s@, st as int) == digits_end(s@, end as int),
            forall|k: int| st <= k < end ==> is_digit(s@[k]),
        decreases s@.len() - end,
    {
        end = end + 1;
    }
    let ghost e = end as int;
    proof {
        assert(e == digits_end(s@, st as int));
    }
    let mut acc: u64 = 0;
    let mut k = st;
    while k < end
        invariant
            st <= k <= end <= s@.len(),
            e == end as int,
            e == digits_end(s@, st as int),
            forall|kk: int| st <= kk < end ==> is_digit(s@[kk]),
            acc as int == digits_val(s@, st as int, k as int),
            acc <= 9223372036854775808u64,
        decreases end - k,
    {
        let c = s[k];
        let dv: u64 = ((c as u32) - 48) as u64;
        if acc > 922337203685477580u64 {
            proof {
                assert(digits_val(s@, st as int, k as int + 1) == acc * 10 + dv);
                lemma_digits_val_mono(s@, st as int, k as int + 1, e);
                assert(digits_val(s@, st as int, e) > 0x8000000000000000);
                assert(parse_int(s@, i as int) is None);
            }
            return None;
        }
        acc = acc * 10 + dv;
        if acc > 9223372036854775808u64 {
            proof {
                assert(digits_val(s@, st as int, k as int + 1) == acc);
                lemma_digits_val_mono(s@, st as int, k as int + 1, e);
                assert(digits_val(s@, st as int, e) > 0x8000000000000000);
                assert(parse_int(s@, i as int) is None);
            }
            return None;
        }
        k = k + 1;
    }
    if c0 == '0' && st + 1 < end {
        return None;
    }
    if end < s.len() {
        let t = s[end];
        if t == '.' || t == 'e' || t == 'E' {
            return None;
        }
    }
    if neg {
        let val: i64 = if acc == 9223372036854775808u64 {
            i64::MIN
        } else {
            -(acc as i64)
        };
        proof {
            assert(val as int == -(acc as int));
        }
        Some((val, end))
    } else {
        if acc > 9223372036854775807u64 {
            return None;
        }
        Some((acc as i64, end))
    }
}

fn p_value(s: &Vec<char>, i: usize) -> (r: Option<(JsonValue, usize)>)
    requires
        i <= s@.len(),
    ensures
        match r {
            Some((v, j)) => parse_value(s@, i as int) == Some((v.deep(), j as int)) && i < j
                <= s@.len(),
            None => parse_value(s@, i as int) is None,
        },
    decreases s@.len() - i, 1int,
{
    let j = p_skip_ws(s, i);
    if j >= s.len() {
        return None;
    }
    let c = s[j];
    if c == 'n' {
        if s.len() - j >= 4 && s[j + 1] == 'u' && s[j + 2] == 'l' && s[j + 3] == 'l' {
            Some((JsonValue::Null, j + 4))
        } else {
            None
        }
    } else if c == 't' {
        if s.len() - j >= 4 && s[j + 1] == 'r' && s[j + 2] == 'u' && s[j + 3] == 'e' {
            Some((JsonValue::Bool(true), j + 4))
        } else {
            None
        }
    } else if c == 'f' {
        if s.len() - j >= 5 && s[j + 1] == 'a' && s[j + 2] == 'l' && s[j + 3] == 's' && s[j + 4]
            == 'e' {
            Some((JsonValue::Bool(false), j + 5))
        } else {
            None
        }
    } else if c == '"' {
        match p_string_body(s, j + 1) {
            Some((cs, k)) => {
                let sv = crate::text::chars_to_string(&cs);
                Some((JsonValue::Str(sv), k))
            },
            None => None,
        }
    } else if c == '[' {
        let j2 = p_skip_ws(s, j + 1);
        if j2 < s.len() && s[j2] == ']' {
            let out: Vec<JsonValue> = Vec::new();
            proof {
                assert(deep_seq(out@) =~= Seq::<Json>::empty());
            }
            Some((JsonValue::Arr(out), j2 + 1))
        } else {
            match p_arr_items(s, j + 1) {
                Some((els, k)) => Some((JsonValue::Arr(els), k)),
                None => None,
            }
        }
    } else if c == '{' {
        let j2 = p_skip_ws(s, j + 1);
        if j2 < s.len() && s[j2] == '}' {
            let out: Vec<JsonMember> = Vec::new();
            proof {
                assert(deep_members(out@) =~= Seq::<(Seq<char>, Json)>::empty());
            }
            Some((JsonValue::Obj(out), j2 + 1))
        } else {
            match p_obj_items(s, j + 1) {
                Some((ms, k)) => Some((JsonValue::Obj(ms), k)),
                None => None,
            }
        }
    } else if c == '-' || is_digit_exec(c) {
        match p_int(s, j) {
            Some((n, k)) => Some((JsonValue::Int(n), k)),
            None => None,
        }
    } else {
        None
    }
}

fn p_arr_items(s: &Vec<char>, i: usize) -> (r: Option<(Vec<JsonValue>, usize)>)
    requires
        i <= s@.len(),
    ensures
        match r {
            Some((els, j)) => parse_arr_items(s@, i as int) == Some((deep_seq(els@), j as int))
                && i < j <= s@.len(),
            None => parse_arr_items(s@, i as int) is None,
        },
    decreases s@.len() - i, 2int,
{
    match p_value(s, i) {
        None => None,
        Some((v, k0)) => {
            let k = p_skip_ws(s, k0);
            if k >= s.len() {
                return None;
            }
            let c = s[k];
            if c == ',' {
                match p_arr_items(s, k + 1) {
                    None => None,
                    Some((mut rest, m)) => {
                        let ghost tail = rest@;
                        proof {
                            lemma_deep_seq_cons(v, tail);
                        }
                        rest.insert(0, v);
                        proof {
                            assert(rest@ =~= seq![v] + tail);
                        }
                        Some((rest, m))
                    },
                }
            } else if c == ']' {
                let mut out: Vec<JsonValue> = Vec::new();
                proof {
                    lemma_deep_seq_cons(v, Seq::<JsonValue>::empty());
                }
                out.push(v);
                proof {
                    assert(out@ =~= seq![v] + Seq::<JsonValue>::empty());
                    assert(deep_seq(Seq::<JsonValue>::empty()) =~= Seq::<Json>::empty());
                    assert(deep_seq(out@) =~= seq![v.deep()]);
                }
                Some((out, k + 1))
            } else {
                None
            }
        },
    }
}

fn p_obj_items(s: &Vec<char>, i: usize) -> (r: Option<(Vec<JsonMember>, usize)>)
    requires
        i <= s@.len(),
    ensures
        match r {
            Some((ms, j)) => parse_obj_items(s@, i as int) == Some((deep_members(ms@), j as int))
                && i < j <= s@.len(),
            None => parse_obj_items(s@, i as int) is None,
        },
    decreases s@.len() - i, 2int,
{
    let j = p_skip_ws(s, i);
    if j >= s.len() {
        return None;
    }
    if s[j] != '"' {
        return None;
    }
    match p_string_body(s, j + 1) {
        None => None,
        Some((key_cs, k1)) => {
            let k2 = p_skip_ws(s, k1);
            if k2 >= s.len() {
                return None;
            }
            if s[k2] != ':' {
                return None;
            }
            match p_value(s, k2 + 1) {
                None => None,
                Some((v, k3)) => {
                    let k4 = p_skip_ws(s, k3);
                    if k4 >= s.len() {
                        return None;
                    }
                    let key = crate::text::chars_to_string(&key_cs);
                    let member = JsonMember { key, value: v };
                    let c = s[k4];
                    if c == ',' {
                        match p_obj_items(s, k4 + 1) {
                            None => None,
                            Some((mut rest, m)) => {
                                let ghost tail = rest@;
                                proof {
                                    lemma_deep_members_cons(member, tail);
                                }
                                rest.insert(0, member);
                                proof {
                                    assert(rest@ =~= seq![member] + tail);
                                }
                                Some((rest, m))
                            },
                        }
                    } else if c == '}' {
                        let mut out: Vec<JsonMember> = Vec::new();
                        proof {
                            lemma_deep_members_cons(member, Seq::<JsonMember>::empty());
                        }
                        out.push(member);
                        proof {
                            assert(out@ =~= seq![member] + Seq::<JsonMember>::empty());
                            assert(deep_members(Seq::<JsonMember>::empty()) =~= Seq::<
                                (Seq<char>, Json),
                            >::empty());
                            assert(deep_members(out@) =~= seq![(member.key@, member.value.deep())]);
                        }
                        Some((out, k4 + 1))
                    } else {
                        None
                    }
                },
            }
        },
    }
}

/// Parse structured-value text read from `path`.
///
/// Succeeds exactly when the text is a well-formed structured document,
/// returning the value the grammar recognizes; anything else is classified
/// as a parse failure on `path`, distinct from the read having failed.
pub fn parse_text(path: &str, text: &str) -> (r: Result<JsonValue, OpError>)
    ensures
        r is Ok <==> parse_doc(text@) is Some,
        r is Ok ==> parse_doc(text@) == Some(r->Ok_0.deep()),
        r is Err ==> r->Err_0.kind is Parse && r->Err_0.path@ == path@,
{
    let cs = string_to_chars(text);
    match p_value(&cs, 0) {
        None => Err(OpError::parse(path, "text is not a well-formed structured document")),
        Some((v, k)) => {
            let j = p_skip_ws(&cs, k);
            if j == cs.len() {
                Ok(v)
            } else {
                Err(OpError::parse(path, "text continues after the structured document"))
            }
        },
    }
}

} // verus!
