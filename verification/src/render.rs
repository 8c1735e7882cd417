//! Rendering a JSON value to text. The produced sequence of characters
//! is fixed exactly by `text_of`, so every consumer of the rendered
//! form can reason about it.
use vstd::prelude::*;
use vstd::string::StrSliceExecFns;
use vstd::string::StringExecFns;

use crate::json::{lemma_deep_arr, lemma_deep_obj, JsonVal, Jv};
use crate::text::push_char;

verus! {

pub open spec fn hex_digit(n: int) -> char {
    if n == 0 { '0' } else if n == 1 { '1' } else if n == 2 { '2' } else if n == 3 { '3' }
    else if n == 4 { '4' } else if n == 5 { '5' } else if n == 6 { '6' } else if n == 7 { '7' }
    else if n == 8 { '8' } else if n == 9 { '9' } else if n == 10 { 'a' } else if n == 11 { 'b' }
    else if n == 12 { 'c' } else if n == 13 { 'd' } else if n == 14 { 'e' } else { 'f' }
}

/// The escape of one character inside a JSON string literal.
pub open spec fn esc_char(c: char) -> Seq<char> {
    if c == '"' {
        seq!['\\', '"']
    } else if c == '\\' {
        seq!['\\', '\\']
    } else if c == '\n' {
        seq!['\\', 'n']
    } else if c == '\r' {
        seq!['\\', 'r']
    } else if c == '\t' {
        seq!['\\', 't']
    } else if (c as u32) < 32 {
        seq!['\\', 'u', '0', '0', hex_digit((c as u32) as int / 16), hex_digit((c as u32) as int % 16)]
    } else {
        seq![c]
    }
}

pub open spec fn esc(s: Seq<char>) -> Seq<char>
    decreases s.len(),
{
    if s.len() == 0 {
        Seq::empty()
    } else {
        esc(s.drop_last()) + esc_char(s.last())
    }
}

/// The rendered text of a JSON value.
pub open spec fn text_of(v: Jv) -> Seq<char>
    decreases v,
{
    match v {
        Jv::Null => seq!['n', 'u', 'l', 'l'],
        Jv::Bool(b) => if b {
            seq!['t', 'r', 'u', 'e']
        } else {
            seq!['f', 'a', 'l', 's', 'e']
        },
        Jv::Num(s) => s,
        Jv::Str(s) => seq!['"'] + esc(s) + seq!['"'],
        Jv::Arr(a) => seq!['['] + arr_text(a) + seq![']'],
        Jv::Obj(m) => seq!['{'] + obj_text(m) + seq!['}'],
    }
}

pub open spec fn arr_text(a: Seq<Jv>) -> Seq<char>
    decreases a,
{
    if a.len() == 0 {
        Seq::empty()
    } else {
        arr_text(a.drop_last()) + (if a.len() == 1 {
            Seq::<char>::empty()
        } else {
            seq![',']
        }) + text_of(a.last())
    }
}

pub open spec fn obj_text(m: Seq<(Seq<char>, Jv)>) -> Seq<char>
    decreases m,
{
    if m.len() == 0 {
        Seq::empty()
    } else {
        obj_text(m.drop_last()) + (if m.len() == 1 {
            Seq::<char>::empty()
        } else {
            seq![',']
        }) + seq!['"'] + esc(m.last().0) + seq!['"', ':'] + text_of(m.last().1)
    }
}

fn hex_char(n: u8) -> (c: char)
    requires
        n < 16,
    ensures
        c == hex_digit(n as int),
{
    if n == 0 { '0' } else if n == 1 { '1' } else if n == 2 { '2' } else if n == 3 { '3' }
    else if n == 4 { '4' } else if n == 5 { '5' } else if n == 6 { '6' } else if n == 7 { '7' }
    else if n == 8 { '8' } else if n == 9 { '9' } else if n == 10 { 'a' } else if n == 11 { 'b' }
    else if n == 12 { 'c' } else if n == 13 { 'd' } else if n == 14 { 'e' } else { 'f' }
}

#[verifier::loop_isolation(false)]
fn write_escaped(out: &mut String, s: &String)
    ensures
        final(out)@ == old(out)@ + esc(s@),
{
    let n = s.as_str().unicode_len();
    let mut i: usize = 0;
    proof {
        assert(esc(s@.take(0)) =~= Seq::<char>::empty());
        assert(out@ =~= old(out)@ + esc(s@.take(0)));
    }
    while i < n
        invariant
            0 <= i <= n,
            n == s@.len(),
            out@ == old(out)@ + esc(s@.take(i as int)),
        decreases n - i,
    {
        let c = s.as_str().get_char(i);
        proof {
            assert(s@.take(i + 1).drop_last() =~= s@.take(i as int));
            assert(s@.take(i + 1).last() == s@[i as int]);
        }
        if c == '"' {
            push_char(out, '\\');
            push_char(out, '"');
        } else if c == '\\' {
            push_char(out, '\\');
            push_char(out, '\\');
        } else if c == '\n' {
            push_char(out, '\\');
            push_char(out, 'n');
        } else if c == '\r' {
            push_char(out, '\\');
            push_char(out, 'r');
        } else if c == '\t' {
            push_char(out, '\\');
            push_char(out, 't');
        } else if (c as u32) < 32 {
            let code = c as u32;
            push_char(out, '\\');
            push_char(out, 'u');
            push_char(out, '0');
            push_char(out, '0');
            push_char(out, hex_char((code / 16) as u8));
            push_char(out, hex_char((code % 16) as u8));
        } else {
            push_char(out, c);
        }
        proof {
            assert(out@ =~= old(out)@ + esc(s@.take(i + 1)));
        }
        i = i + 1;
    }
    proof {
        assert(s@.take(n as int) =~= s@);
    }
}

/// Appends the rendered text of `v`.
#[verifier::loop_isolation(false)]
pub fn write_text(out: &mut String, v: &JsonVal)
    ensures
        final(out)@ == old(out)@ + text_of(v@),
    decreases v,
{
    match v {
        JsonVal::Null => {
            out.append("null");
            proof {
                reveal_strlit("null");
                assert(out@ =~= old(out)@ + text_of(v@));
            }
        },
        JsonVal::Bool(b) => {
            if *b {
                out.append("true");
                proof {
                    reveal_strlit("true");
                    assert(out@ =~= old(out)@ + text_of(v@));
                }
            } else {
                out.append("false");
                proof {
                    reveal_strlit("false");
                    assert(out@ =~= old(out)@ + text_of(v@));
                }
            }
        },
        JsonVal::Num(s) => {
            out.append(s.as_str());
        },
        JsonVal::Str(s) => {
            push_char(out, '"');
            write_escaped(out, s);
            push_char(out, '"');
            proof {
                assert(out@ =~= old(out)@ + text_of(v@));
            }
        },
        JsonVal::Arr(a) => {
            let ghost ga = JsonVal::deep_arr(a@);
            proof {
                broadcast use lemma_deep_arr;

            }
            push_char(out, '[');
            let mut i: usize = 0;
            proof {
                assert(arr_text(ga.take(0)) =~= Seq::<char>::empty());
                assert(out@ =~= old(out)@ + seq!['['] + arr_text(ga.take(0)));
            }
            while i < a.len()
                invariant
                    0 <= i <= a.len(),
                    out@ == old(out)@ + seq!['['] + arr_text(ga.take(i as int)),
                decreases a.len() - i,
            {
                if i > 0 {
                    push_char(out, ',');
                }
                proof {
                    assert(decreases_to!(*a => a@[i as int]));
                }
                write_text(out, &a[i]);
                proof {
                    assert(ga.take(i + 1).drop_last() =~= ga.take(i as int));
                    assert(ga.take(i + 1).last() == ga[i as int]);
                    assert(out@ =~= old(out)@ + seq!['['] + arr_text(ga.take(i + 1)));
                }
                i = i + 1;
            }
            push_char(out, ']');
            proof {
                assert(ga.take(a@.len() as int) =~= ga);
                assert(out@ =~= old(out)@ + text_of(v@));
            }
        },
        JsonVal::Obj(m) => {
            let ghost gm = JsonVal::deep_obj(m@);
            proof {
                broadcast use lemma_deep_obj;

            }
            push_char(out, '{');
            let mut i: usize = 0;
            proof {
                assert(obj_text(gm.take(0)) =~= Seq::<char>::empty());
                assert(out@ =~= old(out)@ + seq!['{'] + obj_text(gm.take(0)));
            }
            while i < m.len()
                invariant
                    0 <= i <= m.len(),
                    out@ == old(out)@ + seq!['{'] + obj_text(gm.take(i as int)),
                decreases m.len() - i,
            {
                if i > 0 {
                    push_char(out, ',');
                }
                push_char(out, '"');
                write_escaped(out, &m[i].0);
                push_char(out, '"');
                push_char(out, ':');
                proof {
                    assert(decreases_to!(*m => m@[i as int]));
                }
                write_text(out, &m[i].1);
                proof {
                    assert(gm.take(i + 1).drop_last() =~= gm.take(i as int));
                    assert(gm.take(i + 1).last() == gm[i as int]);
                    assert(out@ =~= old(out)@ + seq!['{'] + obj_text(gm.take(i + 1)));
                }
                i = i + 1;
            }
            push_char(out, '}');
            proof {
                assert(gm.take(m@.len() as int) =~= gm);
                assert(out@ =~= old(out)@ + text_of(v@));
            }
        },
    }
}

/// The rendered text of a JSON value, as a string.
pub fn to_text(v: &JsonVal) -> (r: String)
    ensures
        r@ == text_of(v@),
{
    let mut out = String::new();
    write_text(&mut out, v);
    proof {
        assert(out@ =~= text_of(v@));
    }
    out
}

} // verus!
