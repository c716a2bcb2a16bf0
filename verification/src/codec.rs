//! The on-disk format of a column: one fixed-size record per row. A record is a
//! flag byte (0 for NULL, 1 otherwise) followed by the payload: an integer in
//! four little-endian bytes, or a string's UTF-8 bytes cut or zero-padded to the
//! column's size. NULL records carry a zero-filled payload.

use vstd::prelude::*;
use vstd::utf8::{decode_utf8, encode_utf8, valid_utf8};
use crate::text::{trim_end_nul, trim_trailing_nul};
use crate::types::{Type, Value, ValueV};

verus! {

/// Bytes of a record after its flag byte.
pub open spec fn payload_size(t: Type) -> nat {
    match t {
        Type::Int => 4,
        Type::VarChar(n) => n as nat,
    }
}

/// Bytes of a whole record.
pub open spec fn record_size(t: Type) -> nat {
    1 + payload_size(t)
}

pub open spec fn zeros(n: nat) -> Seq<u8> {
    Seq::new(n, |i: int| 0u8)
}

/// Whether a value may be stored in a column of type `t`.
pub open spec fn typed(v: ValueV, t: Type) -> bool {
    match (v, t) {
        (ValueV::Null, _) => true,
        (ValueV::Int(_), Type::Int) => true,
        (ValueV::VarChar(_), Type::VarChar(_)) => true,
        _ => false,
    }
}

/// Little-endian bytes of the two's complement of `x`.
pub open spec fn le_bytes(x: i32) -> Seq<u8> {
    let u = x as u32;
    seq![(u & 0xff) as u8, ((u >> 8u32) & 0xff) as u8, ((u >> 16u32) & 0xff) as u8, ((u >> 24u32) & 0xff) as u8]
}

/// The `i32` whose little-endian bytes are `b0 b1 b2 b3`.
pub open spec fn from_le(b0: u8, b1: u8, b2: u8, b3: u8) -> i32 {
    ((b0 as u32) | ((b1 as u32) << 8u32) | ((b2 as u32) << 16u32) | ((b3 as u32) << 24u32)) as i32
}

/// `b` cut or zero-padded to exactly `n` bytes.
pub open spec fn fit_bytes(b: Seq<u8>, n: nat) -> Seq<u8> {
    if b.len() >= n {
        b.take(n as int)
    } else {
        b + zeros((n - b.len()) as nat)
    }
}

/// The record that stores `v` in a column of type `t`, if `v` may be stored there.
pub open spec fn encode_record(v: ValueV, t: Type) -> Option<Seq<u8>> {
    match (v, t) {
        (ValueV::Null, _) => Some(seq![0u8] + zeros(payload_size(t))),
        (ValueV::Int(x), Type::Int) => Some(seq![1u8] + le_bytes(x)),
        (ValueV::VarChar(s), Type::VarChar(n)) => Some(seq![1u8] + fit_bytes(encode_utf8(s), n as nat)),
        _ => None,
    }
}

/// The characters that `String::from_utf8_lossy` makes of `bytes`.
pub uninterp spec fn utf8_lossy(bytes: Seq<u8>) -> Seq<char>;

/// The characters that `String::from_utf8_lossy` makes of `bytes`, with the case
/// of valid UTF-8 spelled out.
pub open spec fn lossy_decode(bytes: Seq<u8>) -> Seq<char> {
    if valid_utf8(bytes) {
        decode_utf8(bytes)
    } else {
        utf8_lossy(bytes)
    }
}

/// The value that a record of a column of type `t` holds.
pub open spec fn decode_record(r: Seq<u8>, t: Type) -> ValueV {
    if r[0] == 0 {
        ValueV::Null
    } else {
        match t {
            Type::Int => ValueV::Int(from_le(r[1], r[2], r[3], r[4])),
            Type::VarChar(_) => ValueV::VarChar(trim_end_nul(lossy_decode(r.subrange(1, r.len() as int)))),
        }
    }
}

/// What is read back after `v` has been written to a column of type `t`.
pub open spec fn stored(v: ValueV, t: Type) -> ValueV {
    decode_record(encode_record(v, t).unwrap(), t)
}

/// The bytes of a column file holding `vs`.
pub open spec fn encode_column(vs: Seq<ValueV>, t: Type) -> Seq<u8>
    decreases vs.len(),
{
    if vs.len() == 0 {
        Seq::empty()
    } else {
        encode_column(vs.drop_last(), t) + encode_record(vs.last(), t).unwrap()
    }
}

/// The values that a column file of `n` whole records holds.
pub open spec fn decode_records(b: Seq<u8>, t: Type, n: nat) -> Seq<ValueV>
    decreases n,
{
    if n == 0 {
        Seq::empty()
    } else {
        let k = record_size(t);
        decode_records(b, t, (n - 1) as nat).push(
            decode_record(b.subrange((n - 1) * k, (n * k) as int), t),
        )
    }
}

/// The values of a column file, or `None` when it ends inside a record.
pub open spec fn decode_column(b: Seq<u8>, t: Type) -> Option<Seq<ValueV>> {
    if b.len() % record_size(t) == 0 {
        Some(decode_records(b, t, b.len() / record_size(t)))
    } else {
        None
    }
}

/// Decodes bytes with `String::from_utf8_lossy`: invalid sequences become
/// U+FFFD; valid UTF-8 is decoded unchanged, as the documentation of that function states.
#[verifier::external_body]
fn lossy_string(bytes: &[u8]) -> (r: String)
    ensures
        r@ == utf8_lossy(bytes@),
        valid_utf8(bytes@) ==> r@ == decode_utf8(bytes@),
{
    String::from_utf8_lossy(bytes).into_owned()
}

/// Appends the record of `v` to `out`; returns `false`, leaving `out` unchanged,
/// when `v` may not be stored in a column of type `t`.
pub fn write_record(out: &mut Vec<u8>, v: &Value, t: Type) -> (ok: bool)
    ensures
        ok == typed(v@, t),
        ok ==> final(out)@ == old(out)@ + encode_record(v@, t).unwrap(),
        !ok ==> final(out)@ == old(out)@,
{
    match (v, t) {
        (Value::Null, _) => {
            let ghost start = out@;
            out.push(0u8);
            let n: usize = match t {
                Type::Int => 4,
                Type::VarChar(n) => n,
            };
            let mut i: usize = 0;
            while i < n
                invariant
                    i <= n,
                    n == payload_size(t),
                    out@ == start + seq![0u8] + zeros(i as nat),
                decreases n - i,
            {
                out.push(0u8);
                i = i + 1;
                assert(out@ =~= start + seq![0u8] + zeros(i as nat));
            }
            true
        },
        (Value::Int(x), Type::Int) => {
            let u = *x as u32;
            out.push(1u8);
            out.push((u & 0xff) as u8);
            out.push(((u >> 8u32) & 0xff) as u8);
            out.push(((u >> 16u32) & 0xff) as u8);
            out.push(((u >> 24u32) & 0xff) as u8);
            assert(out@ =~= old(out)@ + encode_record(v@, t).unwrap());
            true
        },
        (Value::VarChar(s), Type::VarChar(n)) => {
            let ghost start = out@;
            let b = s.as_str().as_bytes();
            out.push(1u8);
            let mut i: usize = 0;
            while i < n
                invariant
                    i <= n,
                    b@ == encode_utf8(s@),
                    out@ == start + seq![1u8] + fit_bytes(b@, i as nat),
                decreases n - i,
            {
                if i < b.len() {
                    out.push(b[i]);
                } else {
                    out.push(0u8);
                }
                i = i + 1;
                assert(out@ =~= start + seq![1u8] + fit_bytes(b@, i as nat));
            }
            true
        },
        _ => false,
    }
}

/// Reads the record of a column of type `t` that starts at `at` in `b`.
pub fn read_record(b: &[u8], at: usize, t: Type) -> (v: Value)
    requires
        at + record_size(t) <= b@.len(),
    ensures
        v@ == decode_record(b@.subrange(at as int, at + record_size(t)), t),
{
    let ghost r = b@.subrange(at as int, at + record_size(t));
    if b[at] == 0 {
        return Value::Null;
    }
    match t {
        Type::Int => {
            let x = ((b[at + 1] as u32) | ((b[at + 2] as u32) << 8u32) | ((b[at + 3] as u32) << 16u32)
                | ((b[at + 4] as u32) << 24u32)) as i32;
            assert(r[1] == b@[at + 1] && r[2] == b@[at + 2] && r[3] == b@[at + 3] && r[4] == b@[at + 4]);
            Value::Int(x)
        },
        Type::VarChar(n) => {
            let mut payload: Vec<u8> = Vec::new();
            let mut i: usize = 0;
            while i < n
                invariant
                    i <= n,
                    at + 1 + n <= b@.len(),
                    b@.len() == b.len(),
                    payload@ =~= b@.subrange(at + 1, at + 1 + i),
                decreases n - i,
            {
                payload.push(b[at + 1 + i]);
                i = i + 1;
            }
            assert(payload@ =~= r.subrange(1, r.len() as int));
            let s = lossy_string(payload.as_slice());
            Value::VarChar(trim_trailing_nul(s.as_str()))
        },
    }
}

/// Whether `v` may be stored in a column of type `t`.
pub fn is_typed(v: &Value, t: Type) -> (r: bool)
    ensures
        r == typed(v@, t),
{
    match (v, t) {
        (Value::Null, _) => true,
        (Value::Int(_), Type::Int) => true,
        (Value::VarChar(_), Type::VarChar(_)) => true,
        _ => false,
    }
}

/// The value read back after `v` has been written to a column of type `t`.
pub fn stored_value(v: &Value, t: Type) -> (r: Value)
    requires
        typed(v@, t),
    ensures
        r@ == stored(v@, t),
{
    let mut buf: Vec<u8> = Vec::new();
    write_record(&mut buf, v, t);
    assert(buf@ =~= encode_record(v@, t).unwrap());
    assert(buf@.subrange(0, record_size(t) as int) =~= buf@);
    read_record(buf.as_slice(), 0, t)
}


proof fn lemma_from_le_bytes(x: i32)
    ensures
        ({
            let b = le_bytes(x);
            from_le(b[0], b[1], b[2], b[3]) == x
        }),
{
    let u = x as u32;
    assert(((((u & 0xff) as u8) as u32) | (((((u >> 8u32) & 0xff) as u8) as u32) << 8u32)
        | (((((u >> 16u32) & 0xff) as u8) as u32) << 16u32) | (((((u >> 24u32) & 0xff) as u8) as u32) << 24u32))
        == u) by (bit_vector);
    assert((u as i32) == x) by (bit_vector)
        requires u == x as u32;
}

proof fn lemma_encode_utf8_concat(a: Seq<char>, b: Seq<char>)
    ensures
        encode_utf8(a + b) == encode_utf8(a) + encode_utf8(b),
    decreases a.len(),
{
    if a.len() > 0 {
        assert((a + b).drop_first() =~= a.drop_first() + b);
        lemma_encode_utf8_concat(a.drop_first(), b);
        assert(encode_utf8(a + b) =~= encode_utf8(a) + encode_utf8(b));
    } else {
        assert(a + b =~= b);
    }
}

pub open spec fn nuls(n: nat) -> Seq<char> {
    Seq::new(n, |i: int| '\0')
}

proof fn lemma_encode_nuls(n: nat)
    ensures
        encode_utf8(nuls(n)) == zeros(n),
    decreases n,
{
    if n > 0 {
        assert(nuls(n).drop_first() =~= nuls((n - 1) as nat));
        lemma_encode_nuls((n - 1) as nat);
        assert(('\0' as u32) == 0u32);
        assert((0u32 & 0x7F) as u8 == 0u8) by (bit_vector);
        assert(vstd::utf8::encode_scalar(nuls(n)[0] as u32) =~= seq![0u8]);
        assert(encode_utf8(nuls(n)) =~= zeros(n));
    } else {
        assert(nuls(n).len() == 0);
        assert(encode_utf8(nuls(n)) =~= zeros(n));
    }
}

proof fn lemma_trim_nuls(s: Seq<char>, n: nat)
    requires
        s.len() == 0 || s.last() != '\0',
    ensures
        trim_end_nul(s + nuls(n)) == s,
    decreases n,
{
    if n > 0 {
        assert((s + nuls(n)).drop_last() =~= s + nuls((n - 1) as nat));
        lemma_trim_nuls(s, (n - 1) as nat);
    } else {
        assert(s + nuls(n) =~= s);
        if s.len() > 0 {
            assert(trim_end_nul(s) == s);
        }
    }
}

/// Whether a value is read back exactly as it was written to a column of type
/// `t`: integers and NULL always are; strings are when their UTF-8 encoding fits
/// the column and they do not end in NUL.
pub open spec fn fits(v: ValueV, t: Type) -> bool {
    match (v, t) {
        (ValueV::Null, _) => true,
        (ValueV::Int(_), Type::Int) => true,
        (ValueV::VarChar(s), Type::VarChar(n)) => encode_utf8(s).len() <= n && (s.len() == 0 || s.last() != '\0'),
        _ => false,
    }
}

/// A value that fits its column is read back unchanged.
pub proof fn lemma_stored_fits(v: ValueV, t: Type)
    requires
        fits(v, t),
    ensures
        stored(v, t) == v,
{
    match (v, t) {
        (ValueV::Int(x), Type::Int) => {
            lemma_from_le_bytes(x);
        },
        (ValueV::VarChar(s), Type::VarChar(n)) => {
            let e = encode_utf8(s);
            let k = (n - e.len()) as nat;
            lemma_encode_nuls(k);
            lemma_encode_utf8_concat(s, nuls(k));
            let r = encode_record(v, t).unwrap();
            assert(r.subrange(1, r.len() as int) =~= encode_utf8(s + nuls(k)));
            vstd::utf8::encode_utf8_valid_utf8(s + nuls(k));
            vstd::utf8::encode_utf8_decode_utf8(s + nuls(k));
            lemma_trim_nuls(s, k);
        },
        _ => {},
    }
}


/// What is read back after a write fits the column's type.
pub proof fn lemma_stored_typed(v: ValueV, t: Type)
    requires
        typed(v, t),
    ensures
        typed(stored(v, t), t),
{
}

/// Abstract values of a sequence of cells.
pub open spec fn values_view(vs: Seq<Value>) -> Seq<ValueV> {
    vs.map_values(|v: Value| v@)
}

/// Whether every value may be stored in a column of type `t`.
pub open spec fn all_typed(vs: Seq<ValueV>, t: Type) -> bool {
    forall|i: int| 0 <= i < vs.len() ==> typed(#[trigger] vs[i], t)
}

proof fn lemma_encode_record_len(v: ValueV, t: Type)
    requires
        typed(v, t),
    ensures
        encode_record(v, t).unwrap().len() == record_size(t),
{
}

proof fn lemma_encode_column_len(vs: Seq<ValueV>, t: Type)
    requires
        all_typed(vs, t),
    ensures
        encode_column(vs, t).len() == vs.len() * record_size(t),
    decreases vs.len(),
{
    if vs.len() > 0 {
        assert(all_typed(vs.drop_last(), t));
        lemma_encode_column_len(vs.drop_last(), t);
        lemma_encode_record_len(vs.last(), t);
        assert(vs.len() * record_size(t) == (vs.len() - 1) * record_size(t) + record_size(t)) by (nonlinear_arith);
    }
}

proof fn lemma_decode_records_prefix(b1: Seq<u8>, b2: Seq<u8>, t: Type, n: nat)
    requires
        n * record_size(t) <= b1.len(),
        b1 =~= b2.subrange(0, b1.len() as int),
        b1.len() <= b2.len(),
    ensures
        decode_records(b1, t, n) == decode_records(b2, t, n),
    decreases n,
{
    if n > 0 {
        let k = record_size(t);
        assert((n - 1) * k <= n * k) by (nonlinear_arith);
        assert((n - 1) * k + k == n * k) by (nonlinear_arith);
        lemma_decode_records_prefix(b1, b2, t, (n - 1) as nat);
        assert(b1.subrange((n - 1) * k, (n * k) as int) =~= b2.subrange((n - 1) * k, (n * k) as int));
    }
}

/// Reading a column back gives, for each value written, the value that a
/// record of it holds.
pub proof fn lemma_column_roundtrip(vs: Seq<ValueV>, t: Type)
    requires
        all_typed(vs, t),
    ensures
        decode_column(encode_column(vs, t), t) == Some(vs.map_values(|v: ValueV| stored(v, t))),
    decreases vs.len(),
{
    let k = record_size(t);
    lemma_encode_column_len(vs, t);
    let b = encode_column(vs, t);
    assert(b.len() % k == 0 && b.len() / k == vs.len()) by (nonlinear_arith)
        requires b.len() == vs.len() * k, k > 0;
    if vs.len() > 0 {
        let p = vs.drop_last();
        assert(all_typed(p, t));
        lemma_column_roundtrip(p, t);
        lemma_encode_column_len(p, t);
        let pb = encode_column(p, t);
        let pn = p.len();
        assert(pb.len() / k == pn) by (nonlinear_arith)
            requires pb.len() == pn * k, k > 0;
        assert(pb.len() % k == 0) by (nonlinear_arith)
            requires pb.len() == pn * k, k > 0;
        assert(pb =~= b.subrange(0, pb.len() as int));
        lemma_decode_records_prefix(pb, b, t, pn);
        lemma_encode_record_len(vs.last(), t);
        assert(vs.len() * k == pn * k + k) by (nonlinear_arith)
            requires vs.len() == pn + 1;
        assert(b.subrange((pn * k) as int, (vs.len() * k) as int) =~= encode_record(vs.last(), t).unwrap());
        assert(decode_records(b, t, vs.len()) =~= vs.map_values(|v: ValueV| stored(v, t)));
    } else {
        assert(decode_records(b, t, 0) =~= vs.map_values(|v: ValueV| stored(v, t)));
    }
}

/// The bytes of a column file holding `values`.
pub fn column_bytes(values: &Vec<Value>, t: Type) -> (r: Vec<u8>)
    requires
        all_typed(values_view(values@), t),
    ensures
        r@ == encode_column(values_view(values@), t),
{
    let mut out: Vec<u8> = Vec::new();
    let mut i: usize = 0;
    while i < values.len()
        invariant
            i <= values@.len(),
            all_typed(values_view(values@), t),
            out@ == encode_column(values_view(values@.take(i as int)), t),
        decreases values@.len() - i,
    {
        assert(typed(values_view(values@)[i as int], t));
        write_record(&mut out, &values[i], t);
        assert(values_view(values@.take(i + 1)).drop_last() =~= values_view(values@.take(i as int)));
        i = i + 1;
    }
    assert(values@.take(i as int) =~= values@);
    out
}

/// The values of a column file, or `None` when the file ends inside a record.
pub fn column_values(b: &[u8], t: Type) -> (r: Option<Vec<Value>>)
    ensures
        match r {
            Some(vs) => decode_column(b@, t) == Some(values_view(vs@)),
            None => decode_column(b@, t) is None,
        },
{
    let k: usize = match t {
        Type::Int => 5,
        Type::VarChar(n) => {
            if n == usize::MAX {
                if b.len() == 0 {
                    let empty: Vec<Value> = Vec::new();
                    assert(decode_records(b@, t, 0) =~= values_view(empty@));
                    return Some(empty);
                } else {
                    return None;
                }
            }
            n + 1
        },
    };
    assert(k == record_size(t));
    if b.len() % k != 0 {
        return None;
    }
    let count = b.len() / k;
    let mut out: Vec<Value> = Vec::new();
    let mut i: usize = 0;
    let mut at: usize = 0;
    while i < count
        invariant
            k == record_size(t),
            k > 0,
            b@.len() == b.len(),
            count == b@.len() / (k as nat),
            b@.len() % (k as nat) == 0,
            i <= count,
            at == i * k,
            values_view(out@) =~= decode_records(b@, t, i as nat),
        decreases count - i,
    {
        assert(at + k <= b@.len()) by (nonlinear_arith)
            requires at == i * k, i < count, count == b@.len() / (k as nat), b@.len() % (k as nat) == 0, k > 0;
        let v = read_record(b, at, t);
        out.push(v);
        assert((i + 1) * k == i * k + k) by (nonlinear_arith);
        at = at + k;
        i = i + 1;
    }
    Some(out)
}

} // verus!
