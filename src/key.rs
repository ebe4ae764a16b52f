use vstd::prelude::*;
use vstd::string::StrSliceExecFns;
use crate::value::{Scalar, Value, ScalarModel, ValueModel, values_model, scalars_model};

verus! {

/// The last `n` base-256 digits of `u`, most significant first.
pub open spec fn be_bytes(u: nat, n: nat) -> Seq<u8>
    decreases n,
{
    if n == 0 {
        Seq::empty()
    } else {
        be_bytes(u / 256, (n - 1) as nat).push((u % 256) as u8)
    }
}

/// A signed integer shifted into the unsigned range so that byte order
/// follows numeric order.
pub open spec fn biased(n: i64) -> nat {
    (n as int + 0x8000_0000_0000_0000) as nat
}

/// The characters of a string, each as a marker byte and four code point
/// bytes, closed by a zero byte.
pub open spec fn enc_chars(s: Seq<char>) -> Seq<u8>
    decreases s.len(),
{
    if s.len() == 0 {
        Seq::empty()
    } else {
        enc_chars(s.drop_last()) + seq![1u8] + be_bytes(s.last() as nat, 4)
    }
}

/// A string as it stands in a key.
pub open spec fn enc_str(s: Seq<char>) -> Seq<u8> {
    enc_chars(s) + seq![0u8]
}

/// A scalar as it stands in a key: a tag byte, then its content.
pub open spec fn enc_scalar(s: ScalarModel) -> Seq<u8> {
    match s {
        ScalarModel::Absent => seq![1u8],
        ScalarModel::Null => seq![2u8],
        ScalarModel::Bool(b) => seq![3u8, if b { 1u8 } else { 0u8 }],
        ScalarModel::Number(n) => seq![4u8] + be_bytes(biased(n), 8),
        ScalarModel::Strand(c) => seq![5u8] + enc_str(c),
    }
}

/// The scalars of an array, one after the other.
pub open spec fn enc_scalars(s: Seq<ScalarModel>) -> Seq<u8>
    decreases s.len(),
{
    if s.len() == 0 {
        Seq::empty()
    } else {
        enc_scalars(s.drop_last()) + enc_scalar(s.last())
    }
}

/// A value as it stands in a key.
pub open spec fn enc_value(v: ValueModel) -> Seq<u8> {
    match v {
        ValueModel::Scalar(s) => enc_scalar(s),
        ValueModel::Array(a) => seq![6u8] + enc_scalars(a) + seq![0u8],
    }
}

/// The components of a tuple, one after the other.
pub open spec fn enc_tuple(t: Seq<ValueModel>) -> Seq<u8>
    decreases t.len(),
{
    if t.len() == 0 {
        Seq::empty()
    } else {
        enc_tuple(t.drop_last()) + enc_value(t.last())
    }
}

/// The storage key of an index entry:
/// `/*ns*db*tb+ix*` followed by the tuple and, for an index that is not
/// unique, the record's id.
pub open spec fn index_key(
    ns: Seq<char>,
    db: Seq<char>,
    tb: Seq<char>,
    ix: Seq<char>,
    fd: Seq<ValueModel>,
    id: Option<u64>,
) -> Seq<u8> {
    seq![0x2fu8, 0x2au8] + enc_str(ns) + seq![0x2au8] + enc_str(db) + seq![0x2au8] + enc_str(tb)
        + seq![0x2bu8] + enc_str(ix) + seq![0x2au8] + enc_tuple(fd) + match id {
        Some(i) => be_bytes(i as nat, 8),
        None => Seq::empty(),
    }
}

fn push_be(u: u64, n: usize, out: &mut Vec<u8>)
    ensures
        final(out)@ == old(out)@ + be_bytes(u as nat, n as nat),
    decreases n,
{
    if n == 0 {
        assert(old(out)@ + Seq::<u8>::empty() =~= old(out)@);
        return;
    }
    let ghost start = out@;
    push_be(u / 256, n - 1, out);
    out.push((u % 256) as u8);
    assert(out@ =~= start + be_bytes(u as nat, n as nat));
}

fn push_str(s: &String, out: &mut Vec<u8>)
    ensures
        final(out)@ == old(out)@ + enc_str(s@),
{
    let ghost start = out@;
    let n = s.as_str().unicode_len();
    let mut i: usize = 0;
    while i < n
        invariant
            n == s@.len(),
            i <= n,
            out@ == start + enc_chars(s@.take(i as int)),
        decreases n - i,
    {
        let c = s.as_str().get_char(i);
        out.push(1u8);
        push_be(c as u32 as u64, 4, out);
        proof {
            let t = s@.take(i + 1);
            assert(t.drop_last() =~= s@.take(i as int));
            assert(t.last() == c);
            assert(out@ =~= start + enc_chars(t));
        }
        i = i + 1;
    }
    out.push(0u8);
    proof {
        assert(s@.take(n as int) =~= s@);
        assert(out@ =~= start + enc_str(s@));
    }
}

fn push_scalar(s: &Scalar, out: &mut Vec<u8>)
    ensures
        final(out)@ == old(out)@ + enc_scalar(s@),
{
    let ghost start = out@;
    match s {
        Scalar::Absent => out.push(1u8),
        Scalar::Null => out.push(2u8),
        Scalar::Bool(b) => {
            out.push(3u8);
            out.push(if *b { 1u8 } else { 0u8 });
        },
        Scalar::Number(n) => {
            out.push(4u8);
            let u: u64 = if *n >= 0 {
                (*n as u64) + 0x8000_0000_0000_0000u64
            } else {
                (*n + 0x7fff_ffff_ffff_ffffi64 + 1) as u64
            };
            assert(u as nat == biased(*n));
            push_be(u, 8, out);
        },
        Scalar::Strand(c) => {
            out.push(5u8);
            push_str(c, out);
        },
    }
    assert(out@ =~= start + enc_scalar(s@));
}

fn push_value(v: &Value, out: &mut Vec<u8>)
    ensures
        final(out)@ == old(out)@ + enc_value(v@),
{
    match v {
        Value::Scalar(s) => push_scalar(s, out),
        Value::Array(a) => {
            let ghost start = out@;
            out.push(6u8);
            let mut i: usize = 0;
            while i < a.len()
                invariant
                    i <= a@.len(),
                    out@ == start + seq![6u8] + enc_scalars(scalars_model(a@).take(i as int)),
                decreases a@.len() - i,
            {
                push_scalar(&a[i], out);
                proof {
                    let t = scalars_model(a@).take(i + 1);
                    assert(t.drop_last() =~= scalars_model(a@).take(i as int));
                }
                i = i + 1;
            }
            out.push(0u8);
            proof {
                assert(scalars_model(a@).take(a@.len() as int) =~= scalars_model(a@));
                assert(out@ =~= start + enc_value(v@));
            }
        },
    }
}

fn push_tuple(t: &Vec<Value>, out: &mut Vec<u8>)
    ensures
        final(out)@ == old(out)@ + enc_tuple(values_model(t@)),
{
    let ghost start = out@;
    let mut i: usize = 0;
    while i < t.len()
        invariant
            i <= t@.len(),
            out@ == start + enc_tuple(values_model(t@).take(i as int)),
        decreases t@.len() - i,
    {
        push_value(&t[i], out);
        proof {
            let p = values_model(t@).take(i + 1);
            assert(p.drop_last() =~= values_model(t@).take(i as int));
            assert(out@ =~= start + enc_tuple(p));
        }
        i = i + 1;
    }
    proof {
        assert(values_model(t@).take(t@.len() as int) =~= values_model(t@));
    }
}

/// Builds the storage key of an index entry (see [`index_key`]).
pub fn build_index_key(
    ns: &String,
    db: &String,
    tb: &String,
    ix: &String,
    fd: &Vec<Value>,
    id: Option<u64>,
) -> (r: Vec<u8>)
    ensures
        r@ == index_key(ns@, db@, tb@, ix@, values_model(fd@), id),
{
    let mut out: Vec<u8> = Vec::new();
    out.push(0x2fu8);
    out.push(0x2au8);
    push_str(ns, &mut out);
    out.push(0x2au8);
    push_str(db, &mut out);
    out.push(0x2au8);
    push_str(tb, &mut out);
    out.push(0x2bu8);
    push_str(ix, &mut out);
    out.push(0x2au8);
    push_tuple(fd, &mut out);
    match id {
        Some(i) => push_be(i, 8, &mut out),
        None => {},
    }
    proof {
        assert(out@ =~= index_key(ns@, db@, tb@, ix@, values_model(fd@), id));
    }
    out
}

} // verus!
