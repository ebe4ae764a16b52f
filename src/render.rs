use vstd::prelude::*;
use vstd::string::StringExecFns;
use crate::value::{Scalar, Value, ScalarModel, ValueModel, values_model, scalars_model};

verus! {

/// The character of a decimal digit.
pub open spec fn digit_char(d: nat) -> char {
    if d == 0 { '0' } else if d == 1 { '1' } else if d == 2 { '2' } else if d == 3 { '3' }
    else if d == 4 { '4' } else if d == 5 { '5' } else if d == 6 { '6' } else if d == 7 { '7' }
    else if d == 8 { '8' } else { '9' }
}

/// The decimal digits of `n`, without leading zeros.
pub open spec fn decimal(n: nat) -> Seq<char>
    decreases n,
{
    if n < 10 {
        seq![digit_char(n)]
    } else {
        decimal(n / 10).push(digit_char(n % 10))
    }
}

/// A number in decimal, with a leading `-` when negative.
pub open spec fn render_number(n: i64) -> Seq<char> {
    if n < 0 {
        seq!['-'] + decimal((-(n as int)) as nat)
    } else {
        decimal(n as nat)
    }
}

/// The printable form of a scalar: `NONE`, `NULL`, `true`, `false`, a
/// number, or a string in single quotes.
pub open spec fn render_scalar(s: ScalarModel) -> Seq<char> {
    match s {
        ScalarModel::Absent => seq!['N', 'O', 'N', 'E'],
        ScalarModel::Null => seq!['N', 'U', 'L', 'L'],
        ScalarModel::Bool(b) => if b { seq!['t', 'r', 'u', 'e'] } else { seq!['f', 'a', 'l', 's', 'e'] },
        ScalarModel::Number(n) => render_number(n),
        ScalarModel::Strand(c) => seq!['\''] + c + seq!['\''],
    }
}

/// Scalars separated by `, `.
pub open spec fn render_scalars(s: Seq<ScalarModel>) -> Seq<char>
    decreases s.len(),
{
    if s.len() == 0 {
        Seq::empty()
    } else if s.len() == 1 {
        render_scalar(s[0])
    } else {
        render_scalars(s.drop_last()) + seq![',', ' '] + render_scalar(s.last())
    }
}

/// The printable form of a value; an array is bracketed.
pub open spec fn render_value(v: ValueModel) -> Seq<char> {
    match v {
        ValueModel::Scalar(s) => render_scalar(s),
        ValueModel::Array(a) => seq!['['] + render_scalars(a) + seq![']'],
    }
}

/// Values separated by `, `.
pub open spec fn render_values(s: Seq<ValueModel>) -> Seq<char>
    decreases s.len(),
{
    if s.len() == 0 {
        Seq::empty()
    } else if s.len() == 1 {
        render_value(s[0])
    } else {
        render_values(s.drop_last()) + seq![',', ' '] + render_value(s.last())
    }
}

/// The printable form of a tuple: a single component bare, otherwise the
/// bracketed list of its components.
pub open spec fn render_tuple(t: Seq<ValueModel>) -> Seq<char> {
    if t.len() == 1 {
        render_value(t[0])
    } else {
        seq!['['] + render_values(t) + seq![']']
    }
}

fn push_digit(d: u64, out: &mut String)
    requires
        d < 10,
    ensures
        final(out)@ == old(out)@.push(digit_char(d as nat)),
{
    let s = if d == 0 { "0" } else if d == 1 { "1" } else if d == 2 { "2" } else if d == 3 { "3" }
        else if d == 4 { "4" } else if d == 5 { "5" } else if d == 6 { "6" } else if d == 7 { "7" }
        else if d == 8 { "8" } else { "9" };
    proof {
        reveal_strlit("0"); reveal_strlit("1"); reveal_strlit("2"); reveal_strlit("3");
        reveal_strlit("4"); reveal_strlit("5"); reveal_strlit("6"); reveal_strlit("7");
        reveal_strlit("8"); reveal_strlit("9");
    }
    out.append(s);
    assert(out@ =~= old(out)@.push(digit_char(d as nat)));
}

fn push_decimal(n: u64, out: &mut String)
    ensures
        final(out)@ == old(out)@ + decimal(n as nat),
    decreases n,
{
    if n < 10 {
        push_digit(n, out);
        assert(out@ =~= old(out)@ + decimal(n as nat));
    } else {
        push_decimal(n / 10, out);
        push_digit(n % 10, out);
        assert(out@ =~= old(out)@ + decimal(n as nat));
    }
}

fn push_lit(s: &str, out: &mut String)
    ensures
        final(out)@ == old(out)@ + s@,
{
    out.append(s);
}

fn push_separator(out: &mut String)
    ensures
        final(out)@ == old(out)@ + seq![',', ' '],
{
    proof {
        reveal_strlit(", ");
    }
    out.append(", ");
    assert(out@ =~= old(out)@ + seq![',', ' ']);
}

fn push_scalar(s: &Scalar, out: &mut String)
    ensures
        final(out)@ == old(out)@ + render_scalar(s@),
{
    proof {
        reveal_strlit("NONE"); reveal_strlit("NULL"); reveal_strlit("true"); reveal_strlit("false");
        reveal_strlit("-"); reveal_strlit("'");
    }
    match s {
        Scalar::Absent => push_lit("NONE", out),
        Scalar::Null => push_lit("NULL", out),
        Scalar::Bool(b) => if *b { push_lit("true", out) } else { push_lit("false", out) },
        Scalar::Number(n) => {
            if *n < 0 {
                push_lit("-", out);
                let u: u64 = if *n == i64::MIN { 0x8000_0000_0000_0000u64 } else { (-*n) as u64 };
                push_decimal(u, out);
            } else {
                push_decimal(*n as u64, out);
            }
        },
        Scalar::Strand(c) => {
            push_lit("'", out);
            out.append(c.as_str());
            push_lit("'", out);
        },
    }
    assert(out@ =~= old(out)@ + render_scalar(s@));
}

fn push_value(v: &Value, out: &mut String)
    ensures
        final(out)@ == old(out)@ + render_value(v@),
{
    proof {
        reveal_strlit("["); reveal_strlit("]"); reveal_strlit(", ");
    }
    match v {
        Value::Scalar(s) => push_scalar(s, out),
        Value::Array(a) => {
            let ghost start = out@;
            push_lit("[", out);
            let mut i: usize = 0;
            while i < a.len()
                invariant
                    i <= a@.len(),
                    out@ == start + seq!['['] + render_scalars(scalars_model(a@).take(i as int)),
                decreases a@.len() - i,
            {
                let ghost t = scalars_model(a@).take(i + 1);
                proof {
                    assert(t.drop_last() =~= scalars_model(a@).take(i as int));
                }
                if i > 0 {
                    push_separator(out);
                }
                push_scalar(&a[i], out);
                proof {
                    assert(t.last() == a@[i as int]@);
                    if i == 0 {
                        assert(render_scalars(t) == render_scalar(t[0]));
                    } else {
                        assert(render_scalars(t) == render_scalars(t.drop_last()) + seq![',', ' ']
                            + render_scalar(t.last()));
                    }
                    assert(out@ =~= start + seq!['['] + render_scalars(t));
                }
                i = i + 1;
            }
            push_lit("]", out);
            proof {
                assert(scalars_model(a@).take(a@.len() as int) =~= scalars_model(a@));
                assert(out@ =~= start + render_value(v@));
            }
        },
    }
}

/// The printable form of a tuple (see [`render_tuple`]).
pub fn tuple_to_string(t: &Vec<Value>) -> (r: String)
    ensures
        r@ == render_tuple(values_model(t@)),
{
    proof {
        reveal_strlit("["); reveal_strlit("]"); reveal_strlit(", ");
    }
    let mut out = String::new();
    if t.len() == 1 {
        push_value(&t[0], &mut out);
        assert(out@ =~= render_tuple(values_model(t@)));
        return out;
    }
    push_lit("[", &mut out);
    let mut i: usize = 0;
    while i < t.len()
        invariant
            i <= t@.len(),
            out@ == seq!['['] + render_values(values_model(t@).take(i as int)),
        decreases t@.len() - i,
    {
        let ghost p = values_model(t@).take(i + 1);
        proof {
            assert(p.drop_last() =~= values_model(t@).take(i as int));
        }
        if i > 0 {
            push_separator(&mut out);
        }
        push_value(&t[i], &mut out);
        proof {
            assert(p.last() == t@[i as int]@);
            if i == 0 {
                assert(render_values(p) == render_value(p[0]));
            } else {
                assert(render_values(p) == render_values(p.drop_last()) + seq![',', ' ']
                    + render_value(p.last()));
            }
            assert(out@ =~= seq!['['] + render_values(p));
        }
        i = i + 1;
    }
    push_lit("]", &mut out);
    proof {
        assert(values_model(t@).take(t@.len() as int) =~= values_model(t@));
        assert(out@ =~= render_tuple(values_model(t@)));
    }
    out
}

} // verus!
