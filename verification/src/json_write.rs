//! Rendering a structured value to its canonical text form.

use vstd::prelude::*;

use crate::json::dec_digits;
use crate::json::dec_of;
use crate::json::deep_members;
use crate::json::deep_seq;
use crate::json::digit_char;
use crate::json::esc_char;
use crate::json::esc_str;
use crate::json::hex_char;
use crate::json::quoted;
use crate::json::ser;
use crate::json::ser_arr_items;
use crate::json::ser_obj_items;
use crate::json::spaces;
use crate::json::Json;
use crate::json::JsonMember;
use crate::json::JsonValue;
use crate::text::chars_to_string;
use crate::text::string_to_chars;

verus! {

broadcast use vstd::seq::group_seq_axioms, vstd::std_specs::vec::group_vec_axioms;

/// Escaping distributes over concatenation of string bodies.
proof fn lemma_esc_str_concat(s1: Seq<char>, s2: Seq<char>)
    ensures
        esc_str(s1 + s2) == esc_str(s1) + esc_str(s2),
    decreases s1.len(),
{
    if s1.len() == 0 {
        assert(s1 + s2 =~= s2);
        assert(esc_str(s1) + esc_str(s2) =~= esc_str(s2));
    } else {
        lemma_esc_str_concat(s1.drop_first(), s2);
        assert((s1 + s2).drop_first() =~= s1.drop_first() + s2);
        assert(esc_str(s1 + s2) =~= esc_str(s1) + esc_str(s2));
    }
}

/// A mathematical sequence of values is as long as the executable one.
pub proof fn lemma_deep_seq_len(els: Seq<JsonValue>)
    ensures
        deep_seq(els).len() == els.len(),
    decreases els,
{
    if els.len() > 0 {
        lemma_deep_seq_len(els.drop_first());
    }
}

/// A mathematical member list is as long as the executable one.
pub proof fn lemma_deep_members_len(ms: Seq<JsonMember>)
    ensures
        deep_members(ms).len() == ms.len(),
    decreases ms,
{
    if ms.len() > 0 {
        lemma_deep_members_len(ms.drop_first());
    }
}

fn digit10(d: u8) -> (c: char)
    requires
        d < 10,
    ensures
        c == digit_char(d as nat),
{
    (48 + d) as char
}

fn hex16(d: u8) -> (c: char)
    requires
        d < 16,
    ensures
        c == hex_char(d as nat),
{
    if d < 10 {
        (48 + d) as char
    } else {
        (87 + d) as char
    }
}

fn push_all(out: &mut Vec<char>, src: &Vec<char>)
    ensures
        final(out)@ == old(out)@ + src@,
{
    let mut i: usize = 0;
    proof {
        assert(out@ =~= old(out)@ + src@.subrange(0, 0));
    }
    while i < src.len()
        invariant
            i <= src.len(),
            out@ == old(out)@ + src@.subrange(0, i as int),
        decreases src.len() - i,
    {
        out.push(src[i]);
        i = i + 1;
        proof {
            assert(src@.subrange(0, i as int) =~= src@.subrange(0, i as int - 1) + seq![
                src@[i as int - 1],
            ]);
            assert(out@ =~= old(out)@ + src@.subrange(0, i as int));
        }
    }
    proof {
        assert(src@.subrange(0, src@.len() as int) =~= src@);
    }
}

fn write_digits(out: &mut Vec<char>, m: u64)
    ensures
        final(out)@ == old(out)@ + dec_digits(m as nat),
    decreases m,
{
    if m < 10 {
        out.push(digit10(m as u8));
        proof {
            assert(out@ =~= old(out)@ + dec_digits(m as nat));
        }
    } else {
        write_digits(out, m / 10);
        out.push(digit10((m % 10) as u8));
        proof {
            assert(out@ =~= old(out)@ + dec_digits(m as nat));
        }
    }
}

fn write_int(out: &mut Vec<char>, n: i64)
    ensures
        final(out)@ == old(out)@ + dec_of(n as int),
{
    if n < 0 {
        out.push('-');
        let m: u64 = if n == i64::MIN {
            9223372036854775808u64
        } else {
            (-n) as u64
        };
        proof {
            assert(m as nat == (-(n as int)) as nat);
        }
        write_digits(out, m);
        proof {
            assert(out@ =~= old(out)@ + dec_of(n as int));
        }
    } else {
        write_digits(out, n as u64);
    }
}

fn write_quoted(out: &mut Vec<char>, s: &str)
    ensures
        final(out)@ == old(out)@ + quoted(s@),
{
    let cs = string_to_chars(s);
    out.push('"');
    let mut i: usize = 0;
    proof {
        assert(out@ =~= old(out)@ + seq!['"'] + esc_str(s@.subrange(0, 0)));
    }
    while i < cs.len()
        invariant
            i <= cs.len(),
            cs@ == s@,
            out@ == old(out)@ + seq!['"'] + esc_str(s@.subrange(0, i as int)),
        decreases cs.len() - i,
    {
        let c = cs[i];
        proof {
            lemma_esc_str_concat(s@.subrange(0, i as int), seq![c]);
            assert(s@.subrange(0, i as int + 1) =~= s@.subrange(0, i as int) + seq![c]);
            assert(seq![c].drop_first() =~= Seq::<char>::empty());
            assert(esc_str(Seq::<char>::empty()) =~= Seq::<char>::empty());
            assert(esc_str(seq![c]) =~= esc_char(c) + esc_str(Seq::<char>::empty()));
            assert(esc_str(seq![c]) =~= esc_char(c));
        }
        if c == '"' {
            out.push('\\');
            out.push('"');
        } else if c == '\\' {
            out.push('\\');
            out.push('\\');
        } else if c == '\n' {
            out.push('\\');
            out.push('n');
        } else if c == '\r' {
            out.push('\\');
            out.push('r');
        } else if c == '\t' {
            out.push('\\');
            out.push('t');
        } else if (c as u32) < 32 {
            let u = c as u32;
            out.push('\\');
            out.push('u');
            out.push('0');
            out.push('0');
            out.push(hex16((u / 16) as u8));
            out.push(hex16((u % 16) as u8));
        } else {
            out.push(c);
        }
        i = i + 1;
        proof {
            assert(out@ =~= old(out)@ + seq!['"'] + esc_str(s@.subrange(0, i as int)));
        }
    }
    out.push('"');
    proof {
        assert(s@.subrange(0, s@.len() as int) =~= s@);
        assert(out@ =~= old(out)@ + quoted(s@));
    }
}

fn write_value(out: &mut Vec<char>, v: &JsonValue, ind: &Vec<char>, Ghost(d): Ghost<nat>)
    requires
        ind@ == spaces(2 * d),
    ensures
        final(out)@ == old(out)@ + ser(v.deep(), d),
    decreases *v, 0int,
{
    match v {
        JsonValue::Null => {
            out.push('n');
            out.push('u');
            out.push('l');
            out.push('l');
            proof {
                assert(out@ =~= old(out)@ + ser(v.deep(), d));
            }
        },
        JsonValue::Bool(b) => {
            if *b {
                out.push('t');
                out.push('r');
                out.push('u');
                out.push('e');
            } else {
                out.push('f');
                out.push('a');
                out.push('l');
                out.push('s');
                out.push('e');
            }
            proof {
                assert(out@ =~= old(out)@ + ser(v.deep(), d));
            }
        },
        JsonValue::Int(n) => {
            write_int(out, *n);
        },
        JsonValue::Str(s) => {
            write_quoted(out, s.as_str());
        },
        JsonValue::Arr(els) => {
            out.push('[');
            proof {
                lemma_deep_seq_len(els@);
            }
            if els.len() == 0 {
                out.push(']');
                proof {
                    assert(out@ =~= old(out)@ + ser(v.deep(), d));
                }
            } else {
                let mut child = ind.clone();
                child.push(' ');
                child.push(' ');
                proof {
                    assert(spaces(2 * d + 1) =~= spaces(2 * d) + seq![' ']);
                    assert(spaces(2 * (d + 1)) =~= spaces(2 * d + 1) + seq![' ']);
                    assert(child@ =~= spaces(2 * (d + 1)));
                }
                write_arr_items(out, els, 0, &child, Ghost(d));
                out.push('\n');
                push_all(out, ind);
                out.push(']');
                proof {
                    assert(els@.subrange(0, els@.len() as int) =~= els@);
                    assert(out@ =~= old(out)@ + ser(v.deep(), d));
                }
            }
        },
        JsonValue::Obj(ms) => {
            out.push('{');
            proof {
                lemma_deep_members_len(ms@);
            }
            if ms.len() == 0 {
                out.push('}');
                proof {
                    assert(out@ =~= old(out)@ + ser(v.deep(), d));
                }
            } else {
                let mut child = ind.clone();
                child.push(' ');
                child.push(' ');
                proof {
                    assert(spaces(2 * d + 1) =~= spaces(2 * d) + seq![' ']);
                    assert(spaces(2 * (d + 1)) =~= spaces(2 * d + 1) + seq![' ']);
                    assert(child@ =~= spaces(2 * (d + 1)));
                }
                write_obj_items(out, ms, 0, &child, Ghost(d));
                out.push('\n');
                push_all(out, ind);
                out.push('}');
                proof {
                    assert(ms@.subrange(0, ms@.len() as int) =~= ms@);
                    assert(out@ =~= old(out)@ + ser(v.deep(), d));
                }
            }
        },
    }
}

fn write_arr_items(
    out: &mut Vec<char>,
    els: &Vec<JsonValue>,
    from: usize,
    ind: &Vec<char>,
    Ghost(d): Ghost<nat>,
)
    requires
        from < els@.len(),
        ind@ == spaces(2 * (d + 1)),
    ensures
        final(out)@ == old(out)@ + ser_arr_items(
            deep_seq(els@.subrange(from as int, els@.len() as int)),
            d,
        ),
    decreases els@, els@.len() - from,
{
    let n = els.len();
    let ghost rest = els@.subrange(from as int, els@.len() as int);
    proof {
        lemma_deep_seq_len(rest);
        assert(rest[0] == els@[from as int]);
        assert(rest.drop_first() =~= els@.subrange(from as int + 1, els@.len() as int));
        assert(deep_seq(rest) =~= seq![rest[0].deep()] + deep_seq(rest.drop_first()));
        assert(deep_seq(rest)[0] == rest[0].deep());
        assert(deep_seq(rest).drop_first() =~= deep_seq(rest.drop_first()));
    }
    out.push('\n');
    push_all(out, ind);
    write_value(out, &els[from], ind, Ghost((d + 1) as nat));
    if from + 1 < n {
        out.push(',');
        write_arr_items(out, els, from + 1, ind, Ghost(d));
    }
    proof {
        assert(out@ =~= old(out)@ + ser_arr_items(deep_seq(rest), d));
    }
}

fn write_obj_items(
    out: &mut Vec<char>,
    ms: &Vec<JsonMember>,
    from: usize,
    ind: &Vec<char>,
    Ghost(d): Ghost<nat>,
)
    requires
        from < ms@.len(),
        ind@ == spaces(2 * (d + 1)),
    ensures
        final(out)@ == old(out)@ + ser_obj_items(
            deep_members(ms@.subrange(from as int, ms@.len() as int)),
            d,
        ),
    decreases ms@, ms@.len() - from,
{
    let n = ms.len();
    let ghost rest = ms@.subrange(from as int, ms@.len() as int);
    proof {
        lemma_deep_members_len(rest);
        assert(rest[0] == ms@[from as int]);
        assert(rest.drop_first() =~= ms@.subrange(from as int + 1, ms@.len() as int));
        assert(deep_members(rest) =~= seq![(rest[0].key@, rest[0].value.deep())] + deep_members(
            rest.drop_first(),
        ));
        assert(deep_members(rest)[0] == (rest[0].key@, rest[0].value.deep()));
        assert(deep_members(rest).drop_first() =~= deep_members(rest.drop_first()));
    }
    out.push('\n');
    push_all(out, ind);
    write_quoted(out, ms[from].key.as_str());
    out.push(':');
    out.push(' ');
    write_value(out, &ms[from].value, ind, Ghost((d + 1) as nat));
    if from + 1 < n {
        out.push(',');
        write_obj_items(out, ms, from + 1, ind, Ghost(d));
    }
    proof {
        assert(out@ =~= old(out)@ + ser_obj_items(deep_members(rest), d));
    }
}

/// Render a structured value to its canonical text form: pretty-printed,
/// two-space indentation, mapping keys in the order given. Rendering is
/// total: every structured value has a canonical text.
pub fn to_text(v: &JsonValue) -> (r: String)
    ensures
        r@ == ser(v.deep(), 0),
{
    let mut out: Vec<char> = Vec::new();
    let ind: Vec<char> = Vec::new();
    proof {
        assert(ind@ =~= spaces(0));
        assert(out@ =~= Seq::<char>::empty());
    }
    write_value(&mut out, v, &ind, Ghost(0nat));
    proof {
        assert(out@ =~= Seq::<char>::empty() + ser(v.deep(), 0));
    }
    chars_to_string(&out)
}

} // verus!
