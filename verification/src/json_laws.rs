//! The round-trip law: rendering a structured value to its canonical text
//! and parsing that text returns the value unchanged.

use vstd::prelude::*;

use crate::json::dec_digits;
use crate::json::dec_of;
use crate::json::esc_char;
use crate::json::esc_str;
use crate::json::hex_char;
use crate::json::quoted;
use crate::json::ser;
use crate::json::ser_arr_items;
use crate::json::ser_obj_items;
use crate::json::spaces;
use crate::json::Json;
use crate::json::JsonValue;
use crate::json_grammar::digit_val;
use crate::json_grammar::digits_end;
use crate::json_grammar::digits_val;
use crate::json_grammar::hex_val;
use crate::json_grammar::is_digit;
use crate::json_grammar::is_hex;
use crate::json_grammar::is_ws;
use crate::json_grammar::parse_arr_items;
use crate::json_grammar::parse_doc;
use crate::json_grammar::parse_int;
use crate::json_grammar::parse_obj_items;
use crate::json_grammar::parse_string_body;
use crate::json_grammar::parse_value;
use crate::json_grammar::skip_ws;

verus! {

broadcast use vstd::seq::group_seq_axioms;

/// A character that may legitimately follow a complete value: whitespace,
/// a separator, or a closing bracket.
pub open spec fn value_boundary(c: char) -> bool {
    is_ws(c) || c == ',' || c == ']' || c == '}'
}

/// A character that can begin the canonical rendering of some value.
pub open spec fn value_start(c: char) -> bool {
    c == 'n' || c == 't' || c == 'f' || c == '"' || c == '[' || c == '{' || c == '-' || is_digit(
        c,
    )
}

proof fn lemma_skip_ws_ge(s: Seq<char>, i: int)
    requires
        0 <= i <= s.len(),
    ensures
        i <= skip_ws(s, i) <= s.len(),
    decreases s.len() - i,
{
    if i < s.len() && is_ws(s[i]) {
        lemma_skip_ws_ge(s, i + 1);
    }
}

/// Skipping whitespace from the start of a whitespace run stops exactly at
/// its end.
proof fn lemma_skip_ws_run(s: Seq<char>, i: int, j: int)
    requires
        0 <= i <= j <= s.len(),
        forall|k: int| i <= k < j ==> is_ws(s[k]),
        j == s.len() || !is_ws(s[j]),
    ensures
        skip_ws(s, i) == j,
    decreases j - i,
{
    if i < j {
        lemma_skip_ws_run(s, i + 1, j);
    }
}

proof fn lemma_skip_ws_idem(s: Seq<char>, i: int)
    requires
        0 <= i <= s.len(),
    ensures
        skip_ws(s, skip_ws(s, i)) == skip_ws(s, i),
    decreases s.len() - i,
{
    if i < s.len() && is_ws(s[i]) {
        lemma_skip_ws_idem(s, i + 1);
    }
}

/// The value parsed at a position is the value parsed where its leading
/// whitespace ends.
proof fn lemma_parse_value_skip(s: Seq<char>, i: int)
    requires
        0 <= i <= s.len(),
    ensures
        parse_value(s, i) == parse_value(s, skip_ws(s, i)),
{
    lemma_skip_ws_ge(s, i);
    lemma_skip_ws_idem(s, i);
    let j = skip_ws(s, i);
    assert(skip_ws(s, j) == j);
    if j < i || j >= s.len() {
        assert(parse_value(s, i) is None && parse_value(s, j) is None);
    } else {
        assert(parse_value(s, i) == parse_value(s, j));
    }
}

/// An indent is spaces only, and spaces are whitespace.
proof fn lemma_spaces(n: nat)
    ensures
        spaces(n).len() == n,
        forall|k: int| 0 <= k < n ==> spaces(n)[k] == ' ',
    decreases n,
{
    if n > 0 {
        lemma_spaces((n - 1) as nat);
    }
}

/// The shape of a decimal rendering: at least one character, every one a
/// digit, no leading zero unless the value is zero itself.
proof fn lemma_dec_digits_shape(m: nat)
    ensures
        dec_digits(m).len() >= 1,
        forall|k: int| 0 <= k < dec_digits(m).len() ==> is_digit(#[trigger] dec_digits(m)[k]),
        m < 10 ==> dec_digits(m).len() == 1,
        m >= 10 ==> dec_digits(m).len() >= 2,
        m >= 1 ==> dec_digits(m)[0] != '0',
    decreases m,
{
    if m < 10 {
        assert(dec_digits(m) == seq![crate::json::digit_char(m)]);
        assert(crate::json::digit_char(m) as u32 == 48 + m);
    } else {
        lemma_dec_digits_shape(m / 10);
        assert(crate::json::digit_char(m % 10) as u32 == 48 + m % 10);
        assert(dec_digits(m)[0] == dec_digits(m / 10)[0]);
    }
}

/// A run of exactly the decimal digits ends where the rendering ends.
proof fn lemma_digits_end_run(s: Seq<char>, a: int, b: int)
    requires
        0 <= a <= b <= s.len(),
        forall|k: int| a <= k < b ==> is_digit(s[k]),
        b == s.len() || !is_digit(s[b]),
    ensures
        digits_end(s, a) == b,
    decreases b - a,
{
    if a < b {
        lemma_digits_end_run(s, a + 1, b);
    }
}

/// Digits placed in a text spell out the number they render.
proof fn lemma_digits_val_of_dec(s: Seq<char>, a: int, m: nat)
    requires
        0 <= a,
        a + dec_digits(m).len() <= s.len(),
        s.subrange(a, a + dec_digits(m).len()) == dec_digits(m),
    ensures
        digits_val(s, a, a + dec_digits(m).len()) == m,
    decreases m,
{
    lemma_dec_digits_shape(m);
    let w = dec_digits(m);
    let b = a + w.len();
    if m < 10 {
        assert(s[a] == w[0]);
        assert(digit_val(s[a]) == m) by {
            assert(crate::json::digit_char(m) as u32 == 48 + m);
        }
        assert(digits_val(s, a, b) == digits_val(s, a, a) * 10 + digit_val(s[b - 1]));
    } else {
        let wh = dec_digits(m / 10);
        assert(w == wh + seq![crate::json::digit_char(m % 10)]);
        lemma_dec_digits_shape((m / 10) as nat);
        assert(s.subrange(a, a + wh.len() as int) =~= wh) by {
            assert(forall|k: int| 0 <= k < wh.len() ==> s.subrange(a, b)[k] == s[a + k]);
            assert(forall|k: int| 0 <= k < wh.len() ==> w[k] == wh[k]);
        }
        lemma_digits_val_of_dec(s, a, (m / 10) as nat);
        assert(s[b - 1] == w[w.len() - 1]);
        assert(w[w.len() - 1] == crate::json::digit_char(m % 10));
        assert(digit_val(s[b - 1]) == m % 10) by {
            assert(crate::json::digit_char(m % 10) as u32 == 48 + m % 10);
        }
        assert(digits_val(s, a, b) == digits_val(s, a, b - 1) * 10 + digit_val(s[b - 1]));
        assert(digits_val(s, a, b) == (m / 10) * 10 + m % 10);
    }
}

/// An integer's rendering, followed by a value boundary or the end of the
/// text, parses back to that integer.
proof fn lemma_parse_int_of_dec(s: Seq<char>, i: int, n: i64)
    requires
        0 <= i,
        i + dec_of(n as int).len() <= s.len(),
        s.subrange(i, i + dec_of(n as int).len()) == dec_of(n as int),
        i + dec_of(n as int).len() == s.len() || value_boundary(
            s[i + dec_of(n as int).len()],
        ),
    ensures
        parse_int(s, i) == Some((n, i + dec_of(n as int).len())),
{
    let w = dec_of(n as int);
    let e = i + w.len();
    let mag: nat = if n < 0 {
        (-(n as int)) as nat
    } else {
        n as nat
    };
    lemma_dec_digits_shape(mag);
    let st: int = if n < 0 {
        i + 1
    } else {
        i
    };
    // the digit run of the rendering sits at [st, e)
    assert(s.subrange(st, e) =~= dec_digits(mag)) by {
        assert(forall|k: int| i <= k < e ==> s[k] == w[k - i]);
    }
    assert(forall|k: int| st <= k < e ==> is_digit(s[k])) by {
        assert(forall|k: int| st <= k < e ==> s[k] == dec_digits(mag)[k - st]);
    }
    assert(e == s.len() || !is_digit(s[e]));
    lemma_digits_end_run(s, st, e);
    lemma_digits_val_of_dec(s, st, mag);
    if n < 0 {
        assert(s[i] == w[0]);
        assert(s[i] == '-');
        assert(is_digit(s[st]));
        assert(!(s[st] == '0' && st + 1 < e)) by {
            if mag >= 10 {
                assert(s[st] == dec_digits(mag)[0]);
            }
        }
        assert(e == s.len() || !(s[e] == '.' || s[e] == 'e' || s[e] == 'E'));
        assert(digits_val(s, st, e) == mag && mag <= 0x8000000000000000);
        assert(((-(mag as int)) as i64) == n);
    } else {
        assert(s[i] == w[0]);
        assert(is_digit(s[i]));
        assert(s[i] != '-');
        assert(!(s[st] == '0' && st + 1 < e)) by {
            if mag >= 10 {
                assert(s[st] == dec_digits(mag)[0]);
            }
        }
        assert(e == s.len() || !(s[e] == '.' || s[e] == 'e' || s[e] == 'E'));
        assert(digits_val(s, st, e) == mag && mag <= 0x7fffffffffffffff);
        assert((mag as i64) == n);
    }
}

/// An escaped string body with its closing quote parses back to the string.
proof fn lemma_parse_string_of_esc(s: Seq<char>, i: int, cs: Seq<char>)
    requires
        0 <= i,
        i + esc_str(cs).len() + 1 <= s.len(),
        s.subrange(i, i + esc_str(cs).len() + 1) == esc_str(cs) + seq!['"'],
    ensures
        parse_string_body(s, i) == Some((cs, i + esc_str(cs).len() + 1)),
    decreases cs.len(),
{
    let w = esc_str(cs) + seq!['"'];
    let e = i + esc_str(cs).len() + 1;
    assert(forall|k: int| i <= k < e ==> s[k] == w[k - i]);
    if cs.len() == 0 {
        assert(s[i] == '"');
        assert(parse_string_body(s, i) == Some((Seq::<char>::empty(), i + 1)));
        assert(Seq::<char>::empty() =~= cs);
    } else {
        let c = cs[0];
        let rest = cs.drop_first();
        let ec = esc_char(c);
        assert(esc_str(cs) == ec + esc_str(rest));
        let i2 = i + ec.len();
        assert(forall|k: int| 0 <= k < ec.len() ==> s[i + k] == ec[k]);
        assert(s.subrange(i2, e) =~= esc_str(rest) + seq!['"']) by {
            assert(forall|k: int| 0 <= k < e - i2 ==> #[trigger] s.subrange(i2, e)[k] == w[i2 + k
                - i]);
            assert(forall|k: int|
                0 <= k < e - i2 ==> (esc_str(rest) + seq!['"'])[k] == w[ec.len() + k]);
        }
        lemma_parse_string_of_esc(s, i2, rest);
        if c == '"' || c == '\\' || c == '\n' || c == '\r' || c == '\t' {
            assert(s[i] == '\\');
            assert(parse_string_body(s, i) == Some((seq![c] + rest, e)));
            assert(seq![c] + rest =~= cs);
        } else if (c as u32) < 32 {
            let u = c as u32;
            assert(ec == seq!['\\', 'u', '0', '0', hex_char(u as nat / 16), hex_char(
                u as nat % 16,
            )]);
            assert(s[i] == '\\' && s[i + 1] == 'u');
            assert(s[i + 2] == '0' && s[i + 3] == '0');
            let h4 = hex_char(u as nat / 16);
            let h5 = hex_char(u as nat % 16);
            assert(s[i + 4] == h4 && s[i + 5] == h5);
            assert(is_hex('0') && hex_val('0') == 0);
            assert(is_hex(h4) && hex_val(h4) == u as nat / 16) by {
                if u as nat / 16 < 10 {
                    assert(h4 as u32 == 48 + u as nat / 16);
                } else {
                    assert(h4 as u32 == 87 + u as nat / 16);
                }
            }
            assert(is_hex(h5) && hex_val(h5) == u as nat % 16) by {
                if u as nat % 16 < 10 {
                    assert(h5 as u32 == 48 + u as nat % 16);
                } else {
                    assert(h5 as u32 == 87 + u as nat % 16);
                }
            }
            let v = ((hex_val(s[i + 2]) * 16 + hex_val(s[i + 3])) * 16 + hex_val(s[i + 4])) * 16
                + hex_val(s[i + 5]);
            assert(v == u);
            assert(((v as u8) as char) == c) by {
                vstd::utf8::char_u32_cast(c, u);
            }
            assert(parse_string_body(s, i) == Some((seq![c] + rest, e)));
            assert(seq![c] + rest =~= cs);
        } else {
            assert(ec == seq![c]);
            assert(s[i] == c);
            assert(s[i] != '"' && s[i] != '\\' && !((s[i] as u32) < 32));
            assert(parse_string_body(s, i) == Some((seq![c] + rest, e)));
            assert(seq![c] + rest =~= cs);
        }
    }
}

/// A value's canonical rendering, followed by a value boundary or the end
/// of the text, parses back to that value.
#[verifier::rlimit(100)]
proof fn lemma_parse_of_ser(s: Seq<char>, i: int, j: Json, d: nat)
    requires
        0 <= i,
        i + ser(j, d).len() <= s.len(),
        s.subrange(i, i + ser(j, d).len()) == ser(j, d),
        i + ser(j, d).len() == s.len() || value_boundary(s[i + ser(j, d).len()]),
    ensures
        parse_value(s, i) == Some((j, i + ser(j, d).len())),
    decreases j, 1int,
{
    let w = ser(j, d);
    let e = i + w.len();
    lemma_ser_start(j, d);
    assert(forall|k: int| i <= k < e ==> s[k] == w[k - i]);
    lemma_skip_ws_run(s, i, i);
    assert(skip_ws(s, i) == i);
    match j {
        Json::Null => {
            assert(s[i] == 'n' && s[i + 1] == 'u' && s[i + 2] == 'l' && s[i + 3] == 'l');
            assert(parse_value(s, i) == Some((Json::Null, i + 4)));
        },
        Json::Bool(b) => {
            if b {
                assert(s[i] == 't' && s[i + 1] == 'r' && s[i + 2] == 'u' && s[i + 3] == 'e');
            } else {
                assert(s[i] == 'f' && s[i + 1] == 'a' && s[i + 2] == 'l' && s[i + 3] == 's' && s[i
                    + 4] == 'e');
            }
        },
        Json::Int(n) => {
            lemma_parse_int_of_dec(s, i, n);
            assert(s[i] == '-' || is_digit(s[i]));
            assert(s[i] != 'n' && s[i] != 't' && s[i] != 'f' && s[i] != '"' && s[i] != '[' && s[i]
                != '{') by {
                if is_digit(s[i]) {
                    assert(48 <= s[i] as u32 <= 57);
                }
            }
        },
        Json::Str(cs) => {
            assert(s[i] == '"');
            assert(s.subrange(i + 1, e) =~= esc_str(cs) + seq!['"']) by {
                assert(forall|k: int|
                    0 <= k < e - i - 1 ==> #[trigger] s.subrange(i + 1, e)[k] == w[k + 1]);
            }
            lemma_parse_string_of_esc(s, i + 1, cs);
        },
        Json::Arr(els) => {
            assert(s[i] == '[');
            if els.len() == 0 {
                assert(s[i + 1] == ']');
                lemma_skip_ws_run(s, i + 1, i + 1);
                assert(parse_value(s, i) == Some((Json::Arr(seq![]), i + 2)));
                assert(seq![] =~= els);
            } else {
                lemma_parse_of_ser_arr_value(s, i, els, d);
            }
        },
        Json::Obj(ms) => {
            assert(s[i] == '{');
            if ms.len() == 0 {
                assert(s[i + 1] == '}');
                lemma_skip_ws_run(s, i + 1, i + 1);
                assert(parse_value(s, i) == Some((Json::Obj(seq![]), i + 2)));
                assert(seq![] =~= ms);
            } else {
                lemma_parse_of_ser_obj_value(s, i, ms, d);
            }
        },
    }
}

/// A non-empty sequence's rendering parses back to it.
#[verifier::rlimit(100)]
proof fn lemma_parse_of_ser_arr_value(s: Seq<char>, i: int, els: Seq<Json>, d: nat)
    requires
        els.len() >= 1,
        0 <= i,
        i + ser(Json::Arr(els), d).len() <= s.len(),
        s.subrange(i, i + ser(Json::Arr(els), d).len()) == ser(Json::Arr(els), d),
        skip_ws(s, i) == i,
    ensures
        parse_value(s, i) == Some((Json::Arr(els), i + ser(Json::Arr(els), d).len())),
    decreases els, 3int,
{
    let w = ser(Json::Arr(els), d);
    let e = i + w.len();
    assert(forall|k: int| i <= k < e ==> s[k] == w[k - i]);
    assert(s[i] == '[');
    let items = ser_arr_items(els, d);
    let tail = seq!['\n'] + spaces(2 * d) + seq![']'];
    assert(w == seq!['['] + items + tail);
    assert(s.subrange(i + 1, e) =~= items + tail) by {
        assert(forall|k: int|
            0 <= k < e - i - 1 ==> #[trigger] s.subrange(i + 1, e)[k] == w[k + 1]);
    }
    assert(s.subrange(i + 1, e) =~= ser_arr_items(els, d) + seq!['\n'] + spaces(2 * d)
        + seq![']']);
    lemma_parse_of_ser_arr(s, i + 1, els, d);
    let p = i + 2 + spaces(2 * (d + 1)).len();
    lemma_spaces(2 * (d + 1));
    lemma_ser_start(els[0], (d + 1) as nat);
    assert(s[i + 1] == '\n');
    assert(forall|k: int| i + 2 <= k < p ==> is_ws(s[k])) by {
        lemma_spaces(2 * (d + 1));
        assert(forall|k: int|
            i + 2 <= k < p ==> s[k] == #[trigger] spaces(2 * (d + 1))[k - i - 2]);
    }
    assert(s[p] == ser(els[0], (d + 1) as nat)[0]);
    lemma_skip_ws_run(s, i + 1, p);
    assert(skip_ws(s, i + 1) == p);
    assert(s[p] != ']');
    assert(parse_value(s, i) == Some((Json::Arr(els), e)));
}

/// A non-empty mapping's rendering parses back to it.
#[verifier::rlimit(100)]
proof fn lemma_parse_of_ser_obj_value(s: Seq<char>, i: int, ms: Seq<(Seq<char>, Json)>, d: nat)
    requires
        ms.len() >= 1,
        0 <= i,
        i + ser(Json::Obj(ms), d).len() <= s.len(),
        s.subrange(i, i + ser(Json::Obj(ms), d).len()) == ser(Json::Obj(ms), d),
        skip_ws(s, i) == i,
    ensures
        parse_value(s, i) == Some((Json::Obj(ms), i + ser(Json::Obj(ms), d).len())),
    decreases ms, 3int,
{
    let w = ser(Json::Obj(ms), d);
    let e = i + w.len();
    assert(forall|k: int| i <= k < e ==> s[k] == w[k - i]);
    assert(s[i] == '{');
    let items = ser_obj_items(ms, d);
    let tail = seq!['\n'] + spaces(2 * d) + seq!['}'];
    assert(w == seq!['{'] + items + tail);
    assert(s.subrange(i + 1, e) =~= items + tail) by {
        assert(forall|k: int|
            0 <= k < e - i - 1 ==> #[trigger] s.subrange(i + 1, e)[k] == w[k + 1]);
    }
    assert(s.subrange(i + 1, e) =~= ser_obj_items(ms, d) + seq!['\n'] + spaces(2 * d)
        + seq!['}']);
    lemma_parse_of_ser_obj(s, i + 1, ms, d);
    let p = i + 2 + spaces(2 * (d + 1)).len();
    lemma_spaces(2 * (d + 1));
    assert(s[i + 1] == '\n');
    assert(forall|k: int| i + 2 <= k < p ==> is_ws(s[k])) by {
        lemma_spaces(2 * (d + 1));
        assert(forall|k: int|
            i + 2 <= k < p ==> s[k] == #[trigger] spaces(2 * (d + 1))[k - i - 2]);
    }
    assert(s[p] == '"');
    lemma_skip_ws_run(s, i + 1, p);
    assert(skip_ws(s, i + 1) == p);
    assert(s[p] != '}');
    assert(parse_value(s, i) == Some((Json::Obj(ms), e)));
}

/// Rendered sequence elements, with the closing line and bracket after
/// them, parse back to those elements.
#[verifier::rlimit(100)]
proof fn lemma_parse_of_ser_arr(s: Seq<char>, i: int, els: Seq<Json>, d: nat)
    requires
        els.len() >= 1,
        0 <= i,
        i + ser_arr_items(els, d).len() + 2 + spaces(2 * d).len() <= s.len(),
        s.subrange(i, i + ser_arr_items(els, d).len() + 2 + spaces(2 * d).len()) == ser_arr_items(
            els,
            d,
        ) + seq!['\n'] + spaces(2 * d) + seq![']'],
    ensures
        parse_arr_items(s, i) == Some(
            (els, i + ser_arr_items(els, d).len() + 2 + spaces(2 * d).len()),
        ),
    decreases els, 2int,
{
    let items = ser_arr_items(els, d);
    let tail = seq!['\n'] + spaces(2 * d) + seq![']'];
    let w = items + tail;
    let e = i + w.len();
    assert(w =~= ser_arr_items(els, d) + seq!['\n'] + spaces(2 * d) + seq![']']);
    assert(s.subrange(i, e) == w);
    assert(forall|k: int| i <= k < e ==> s[k] == w[k - i]);
    lemma_spaces(2 * d);
    lemma_spaces(2 * (d + 1));
    let head = seq!['\n'] + spaces(2 * (d + 1)) + ser(els[0], (d + 1) as nat);
    let p = i + 1 + spaces(2 * (d + 1)).len();
    let q = p + ser(els[0], (d + 1) as nat).len();
    lemma_ser_start(els[0], (d + 1) as nat);
    if els.len() == 1 {
        assert(items == head);
    } else {
        assert(items == head + seq![','] + ser_arr_items(els.drop_first(), d));
    }
    assert(forall|k: int| 0 <= k < head.len() ==> s[i + k] == head[k]);
    assert(s[i] == '\n');
    assert(forall|k: int| i + 1 <= k < p ==> is_ws(s[k])) by {
        assert(forall|k: int|
            i + 1 <= k < p ==> s[k] == #[trigger] spaces(2 * (d + 1))[k - i - 1]);
    }
    assert(s[p] == ser(els[0], (d + 1) as nat)[0]);
    lemma_skip_ws_run(s, i, p);
    lemma_parse_value_skip(s, i);
    assert(s.subrange(p, q) =~= ser(els[0], (d + 1) as nat)) by {
        assert(forall|k: int|
            0 <= k < q - p ==> #[trigger] s.subrange(p, q)[k] == head[k + 1 + spaces(
                2 * (d + 1),
            ).len()]);
    }
    if els.len() == 1 {
        // the element is followed by the closing line and bracket
        assert(s[q] == '\n');
        lemma_parse_of_ser(s, p, els[0], (d + 1) as nat);
        assert(parse_value(s, i) == Some((els[0], q)));
        assert(forall|k: int| q <= k < e - 1 ==> is_ws(s[k])) by {
            assert(forall|k: int| q + 1 <= k < e - 1 ==> s[k] == #[trigger] spaces(2 * d)[k - q
                - 1]);
        }
        assert(s[e - 1] == ']');
        lemma_skip_ws_run(s, q, e - 1);
        assert(parse_arr_items(s, i) == Some((seq![els[0]], e)));
        assert(seq![els[0]] =~= els);
    } else {
        // the element is followed by a comma and the remaining elements
        assert(s[q] == ',');
        lemma_parse_of_ser(s, p, els[0], (d + 1) as nat);
        assert(parse_value(s, i) == Some((els[0], q)));
        lemma_skip_ws_run(s, q, q);
        assert(s.subrange(q + 1, e) =~= ser_arr_items(els.drop_first(), d) + tail) by {
            assert(forall|k: int|
                0 <= k < e - q - 1 ==> #[trigger] s.subrange(q + 1, e)[k] == w[q + 1 + k - i]);
            assert(forall|k: int|
                0 <= k < e - q - 1 ==> (ser_arr_items(els.drop_first(), d) + tail)[k] == w[q + 1
                    + k - i]);
        }
        assert(s.subrange(q + 1, e) =~= ser_arr_items(els.drop_first(), d) + seq!['\n']
            + spaces(2 * d) + seq![']']);
        lemma_parse_of_ser_arr(s, q + 1, els.drop_first(), d);
        assert(parse_arr_items(s, q + 1) == Some((els.drop_first(), e)));
        assert(seq![els[0]] + els.drop_first() =~= els);
        assert(parse_arr_items(s, i) == Some((els, e)));
    }
}

/// The facts the key of the head member gives the parser: the quote after
/// the indent, the key itself, and the colon and space after it.
#[verifier::rlimit(100)]
proof fn lemma_obj_member_key(s: Seq<char>, i: int, ms: Seq<(Seq<char>, Json)>, d: nat)
    requires
        ms.len() >= 1,
        0 <= i,
        i + ser_obj_items(ms, d).len() + 2 + spaces(2 * d).len() <= s.len(),
        s.subrange(i, i + ser_obj_items(ms, d).len() + 2 + spaces(2 * d).len()) == ser_obj_items(
            ms,
            d,
        ) + seq!['\n'] + spaces(2 * d) + seq!['}'],
    ensures
        ({
            let p = i + 1 + spaces(2 * (d + 1)).len();
            let k1 = p + quoted(ms[0].0).len();
            &&& skip_ws(s, i) == p
            &&& p < s.len() && s[p] == '"'
            &&& parse_string_body(s, p + 1) == Some((ms[0].0, k1))
            &&& k1 + 1 < s.len() && s[k1] == ':' && skip_ws(s, k1) == k1
            &&& s[k1 + 1] == ' '
            &&& i < k1
        }),
{
    let items = ser_obj_items(ms, d);
    let tail = seq!['\n'] + spaces(2 * d) + seq!['}'];
    let w = items + tail;
    let e = i + w.len();
    assert(w =~= ser_obj_items(ms, d) + seq!['\n'] + spaces(2 * d) + seq!['}']);
    assert(s.subrange(i, e) == w);
    assert(forall|k: int| i <= k < e ==> s[k] == w[k - i]);
    lemma_spaces(2 * d);
    lemma_spaces(2 * (d + 1));
    let key = ms[0].0;
    let val = ms[0].1;
    let head = seq!['\n'] + spaces(2 * (d + 1)) + quoted(key) + seq![':', ' '] + ser(
        val,
        (d + 1) as nat,
    );
    let p = i + 1 + spaces(2 * (d + 1)).len();
    let k1 = p + quoted(key).len();
    if ms.len() == 1 {
        assert(items == head);
    } else {
        assert(items == head + seq![','] + ser_obj_items(ms.drop_first(), d));
    }
    assert(forall|k: int| 0 <= k < head.len() ==> s[i + k] == head[k]);
    assert(s[i] == '\n');
    assert(forall|k: int| i + 1 <= k < p ==> is_ws(s[k])) by {
        assert(forall|k: int|
            i + 1 <= k < p ==> s[k] == #[trigger] spaces(2 * (d + 1))[k - i - 1]);
    }
    assert(s[p] == '"');
    lemma_skip_ws_run(s, i, p);
    assert(skip_ws(s, i) == p);
    assert(s.subrange(p + 1, k1) =~= esc_str(key) + seq!['"']) by {
        assert(forall|k: int|
            0 <= k < k1 - p - 1 ==> #[trigger] s.subrange(p + 1, k1)[k] == head[k + 2 + spaces(
                2 * (d + 1),
            ).len()]);
        assert(forall|k: int|
            0 <= k < k1 - p - 1 ==> (esc_str(key) + seq!['"'])[k] == quoted(key)[k + 1]);
    }
    lemma_parse_string_of_esc(s, p + 1, key);
    assert(parse_string_body(s, p + 1) == Some((key, k1)));
    assert(s[k1] == ':');
    lemma_skip_ws_run(s, k1, k1);
    assert(s[k1 + 1] == ' ');
}

/// The facts the member at the head of a rendered member list gives the
/// parser: the key's quote, the key itself, the colon, and the value's
/// rendering, each at its position.
#[verifier::rlimit(100)]
proof fn lemma_obj_member_head(s: Seq<char>, i: int, ms: Seq<(Seq<char>, Json)>, d: nat)
    requires
        ms.len() >= 1,
        0 <= i,
        i + ser_obj_items(ms, d).len() + 2 + spaces(2 * d).len() <= s.len(),
        s.subrange(i, i + ser_obj_items(ms, d).len() + 2 + spaces(2 * d).len()) == ser_obj_items(
            ms,
            d,
        ) + seq!['\n'] + spaces(2 * d) + seq!['}'],
    ensures
        ({
            let p = i + 1 + spaces(2 * (d + 1)).len();
            let k1 = p + quoted(ms[0].0).len();
            let q = k1 + 2 + ser(ms[0].1, (d + 1) as nat).len();
            &&& skip_ws(s, i) == p
            &&& p < s.len() && s[p] == '"'
            &&& parse_string_body(s, p + 1) == Some((ms[0].0, k1))
            &&& k1 < s.len() && s[k1] == ':' && skip_ws(s, k1) == k1
            &&& parse_value(s, k1 + 1) == Some((ms[0].1, q))
            &&& i < k1 && k1 + 1 < q < s.len()
            &&& (if ms.len() == 1 {
                s[q] == '\n'
            } else {
                s[q] == ','
            })
        }),
    decreases ms, 0int,
{
    let items = ser_obj_items(ms, d);
    let tail = seq!['\n'] + spaces(2 * d) + seq!['}'];
    let w = items + tail;
    let e = i + w.len();
    assert(w =~= ser_obj_items(ms, d) + seq!['\n'] + spaces(2 * d) + seq!['}']);
    assert(s.subrange(i, e) == w);
    assert(forall|k: int| i <= k < e ==> s[k] == w[k - i]);
    let key = ms[0].0;
    let val = ms[0].1;
    let head = seq!['\n'] + spaces(2 * (d + 1)) + quoted(key) + seq![':', ' '] + ser(
        val,
        (d + 1) as nat,
    );
    let p = i + 1 + spaces(2 * (d + 1)).len();
    let k1 = p + quoted(key).len();
    let pv = k1 + 2;
    let q = pv + ser(val, (d + 1) as nat).len();
    lemma_ser_start(val, (d + 1) as nat);
    lemma_obj_member_key(s, i, ms, d);
    if ms.len() == 1 {
        assert(items == head);
    } else {
        assert(items == head + seq![','] + ser_obj_items(ms.drop_first(), d));
    }
    assert(forall|k: int| 0 <= k < head.len() ==> s[i + k] == head[k]);
    assert(s[pv] == ser(val, (d + 1) as nat)[0]);
    assert(s[k1 + 1] == ' ');
    lemma_skip_ws_run(s, k1 + 1, pv);
    lemma_parse_value_skip(s, k1 + 1);
    assert(s.subrange(pv, q) =~= ser(val, (d + 1) as nat)) by {
        assert(forall|k: int|
            0 <= k < q - pv ==> #[trigger] s.subrange(pv, q)[k] == head[k + pv - i]);
    }
    assert(s[q] == w[q - i]);
    if ms.len() == 1 {
        assert(s[q] == '\n');
        lemma_parse_of_ser(s, pv, val, (d + 1) as nat);
    } else {
        assert(s[q] == ',');
        lemma_parse_of_ser(s, pv, val, (d + 1) as nat);
    }
    assert(parse_value(s, k1 + 1) == Some((val, q)));
}

/// A single rendered member, with the closing line and brace after it,
/// parses back to that one member.
#[verifier::rlimit(100)]
#[verifier::spinoff_prover]
proof fn lemma_parse_of_ser_obj_single(s: Seq<char>, i: int, ms: Seq<(Seq<char>, Json)>, d: nat)
    requires
        ms.len() == 1,
        0 <= i,
        i + ser_obj_items(ms, d).len() + 2 + spaces(2 * d).len() <= s.len(),
        s.subrange(i, i + ser_obj_items(ms, d).len() + 2 + spaces(2 * d).len()) == ser_obj_items(
            ms,
            d,
        ) + seq!['\n'] + spaces(2 * d) + seq!['}'],
    ensures
        parse_obj_items(s, i) == Some(
            (ms, i + ser_obj_items(ms, d).len() + 2 + spaces(2 * d).len()),
        ),
    decreases ms, 1int,
{
    let items = ser_obj_items(ms, d);
    let tail = seq!['\n'] + spaces(2 * d) + seq!['}'];
    let w = items + tail;
    let e = i + w.len();
    lemma_obj_member_head(s, i, ms, d);
    assert(w =~= ser_obj_items(ms, d) + seq!['\n'] + spaces(2 * d) + seq!['}']);
    assert(s.subrange(i, e) == w);
    lemma_spaces(2 * d);
    let key = ms[0].0;
    let val = ms[0].1;
    let head = seq!['\n'] + spaces(2 * (d + 1)) + quoted(key) + seq![':', ' '] + ser(
        val,
        (d + 1) as nat,
    );
    let k1 = i + 1 + spaces(2 * (d + 1)).len() + quoted(key).len();
    let q = k1 + 2 + ser(val, (d + 1) as nat).len();
    assert(items == head);
    assert(s[q] == '\n');
    assert(forall|k: int| q <= k < e - 1 ==> is_ws(s[k])) by {
        assert(forall|k: int| i <= k < e ==> s[k] == w[k - i]);
        assert(forall|k: int| q + 1 <= k < e - 1 ==> s[k] == #[trigger] spaces(2 * d)[k - q
            - 1]);
    }
    assert(s[e - 1] == '}') by {
        assert(s[e - 1] == w[e - 1 - i]);
    }
    lemma_skip_ws_run(s, q, e - 1);
    assert(parse_obj_items(s, i) == Some((seq![(key, val)], e)));
    assert(seq![(key, val)] =~= ms);
}

/// Two or more rendered members, with the closing line and brace after
/// them, parse back to those members in order.
#[verifier::rlimit(100)]
proof fn lemma_parse_of_ser_obj_multi(s: Seq<char>, i: int, ms: Seq<(Seq<char>, Json)>, d: nat)
    requires
        ms.len() >= 2,
        0 <= i,
        i + ser_obj_items(ms, d).len() + 2 + spaces(2 * d).len() <= s.len(),
        s.subrange(i, i + ser_obj_items(ms, d).len() + 2 + spaces(2 * d).len()) == ser_obj_items(
            ms,
            d,
        ) + seq!['\n'] + spaces(2 * d) + seq!['}'],
    ensures
        parse_obj_items(s, i) == Some(
            (ms, i + ser_obj_items(ms, d).len() + 2 + spaces(2 * d).len()),
        ),
    decreases ms, 1int,
{
    let items = ser_obj_items(ms, d);
    let tail = seq!['\n'] + spaces(2 * d) + seq!['}'];
    let w = items + tail;
    let e = i + w.len();
    lemma_obj_member_head(s, i, ms, d);
    assert(w =~= ser_obj_items(ms, d) + seq!['\n'] + spaces(2 * d) + seq!['}']);
    assert(s.subrange(i, e) == w);
    let key = ms[0].0;
    let val = ms[0].1;
    let head = seq!['\n'] + spaces(2 * (d + 1)) + quoted(key) + seq![':', ' '] + ser(
        val,
        (d + 1) as nat,
    );
    let k1 = i + 1 + spaces(2 * (d + 1)).len() + quoted(key).len();
    let q = k1 + 2 + ser(val, (d + 1) as nat).len();
    assert(items == head + seq![','] + ser_obj_items(ms.drop_first(), d));
    assert(s[q] == ',');
    lemma_skip_ws_run(s, q, q);
    assert(s.subrange(q + 1, e) =~= ser_obj_items(ms.drop_first(), d) + tail) by {
        assert(forall|k: int| i <= k < e ==> s[k] == w[k - i]);
        assert(forall|k: int|
            0 <= k < e - q - 1 ==> #[trigger] s.subrange(q + 1, e)[k] == w[q + 1 + k - i]);
        assert(forall|k: int|
            0 <= k < e - q - 1 ==> (ser_obj_items(ms.drop_first(), d) + tail)[k] == w[q + 1 + k
                - i]);
    }
    assert(s.subrange(q + 1, e) =~= ser_obj_items(ms.drop_first(), d) + seq!['\n'] + spaces(
        2 * d,
    ) + seq!['}']);
    lemma_parse_of_ser_obj(s, q + 1, ms.drop_first(), d);
    assert(parse_obj_items(s, q + 1) == Some((ms.drop_first(), e)));
    assert(seq![(key, val)] + ms.drop_first() =~= ms);
    assert(parse_obj_items(s, i) == Some((ms, e)));
}

/// Rendered mapping members, with the closing line and brace after them,
/// parse back to those members in order.
proof fn lemma_parse_of_ser_obj(s: Seq<char>, i: int, ms: Seq<(Seq<char>, Json)>, d: nat)
    requires
        ms.len() >= 1,
        0 <= i,
        i + ser_obj_items(ms, d).len() + 2 + spaces(2 * d).len() <= s.len(),
        s.subrange(i, i + ser_obj_items(ms, d).len() + 2 + spaces(2 * d).len()) == ser_obj_items(
            ms,
            d,
        ) + seq!['\n'] + spaces(2 * d) + seq!['}'],
    ensures
        parse_obj_items(s, i) == Some(
            (ms, i + ser_obj_items(ms, d).len() + 2 + spaces(2 * d).len()),
        ),
    decreases ms, 2int,
{
    if ms.len() == 1 {
        lemma_parse_of_ser_obj_single(s, i, ms, d);
    } else {
        lemma_parse_of_ser_obj_multi(s, i, ms, d);
    }
}

/// The round-trip law: the canonical rendering of any structured value is a
/// well-formed document, and parsing it returns exactly that value —
/// mapping keys in their original insertion order. Rendering at any nesting
/// depth parses back the same way.
pub proof fn lemma_structured_round_trip(j: Json)
    ensures
        parse_doc(ser(j, 0)) == Some(j),
{
    let t = ser(j, 0);
    lemma_ser_start(j, 0);
    assert(t.subrange(0, t.len() as int) =~= t);
    lemma_parse_of_ser(t, 0, j, 0);
    assert(parse_value(t, 0) == Some((j, t.len() as int)));
    lemma_skip_ws_run(t, t.len() as int, t.len() as int);
}

/// Every canonical rendering is non-empty, begins with a character that
/// starts a value, and that character is never whitespace or a closer.
proof fn lemma_ser_start(j: Json, d: nat)
    ensures
        ser(j, d).len() >= 1,
        value_start(ser(j, d)[0]),
        !is_ws(ser(j, d)[0]),
        ser(j, d)[0] != ']' && ser(j, d)[0] != '}' && ser(j, d)[0] != ',' && ser(j, d)[0] != ':',
{
    match j {
        Json::Int(n) => {
            let mag: nat = if n < 0 {
                (-(n as int)) as nat
            } else {
                n as nat
            };
            lemma_dec_digits_shape(mag);
            if n >= 0 {
                assert(ser(j, d)[0] == dec_digits(mag)[0]);
                assert(is_digit(ser(j, d)[0]));
            }
        },
        _ => {},
    }
}

/// The round-trip law at the executable boundary: the text that `to_text`
/// renders for a value is a well-formed document, and `parse_text` returns
/// from it a value that denotes exactly the same mathematical value —
/// members in the same order, keys as given.
pub proof fn lemma_value_round_trip(v: JsonValue)
    ensures
        parse_doc(ser(v.deep(), 0)) == Some(v.deep()),
{
    lemma_structured_round_trip(v.deep());
}

} // verus!
