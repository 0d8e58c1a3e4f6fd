use vstd::prelude::*;
use vstd::slice::*;
use vstd::utf8::*;

use crate::error::DbError;
use crate::relation::little_endian::{
    le_bytes, le_decode, le_encode, le_value, lemma_le_roundtrip, lemma_pow256_values,
};
use crate::relation::schema::{ColumnView, Schema};
use crate::relation::types::{string_from_utf8, DataType, Value, ValueView};

verus! {

broadcast use vstd::utf8::group_utf8_lib;

/// The in-memory representation of a single database row.
#[derive(Debug, Clone, PartialEq)]
pub struct Tuple {
    pub values: Vec<Value>,
}

impl View for Tuple {
    type V = Seq<ValueView>;

    open spec fn view(&self) -> Seq<ValueView> {
        self.values@.map_values(|v: Value| v@)
    }
}

/// The bytes that encode one column holding `v` under the declared type `dt`:
/// a null flag (1 for `Null`, 0 otherwise) followed, for a non-null value, by
/// its little-endian payload; a string is preceded by its UTF-8 byte length as
/// a little-endian `u32`. `None` when the value does not have the declared type.
pub open spec fn column_bytes(dt: DataType, v: ValueView) -> Option<Seq<u8>> {
    match v {
        ValueView::Null => Some(seq![1u8]),
        ValueView::BigInt(x) => if dt == DataType::BigInt {
            Some(seq![0u8] + le_bytes((x as u64) as nat, 8))
        } else {
            None
        },
        ValueView::Int(x) => if dt == DataType::Int {
            Some(seq![0u8] + le_bytes((x as u32) as nat, 4))
        } else {
            None
        },
        ValueView::Boolean(b) => if dt == DataType::Boolean {
            Some(seq![0u8, if b { 1u8 } else { 0u8 }])
        } else {
            None
        },
        ValueView::Varchar(s) => if dt == DataType::Varchar {
            Some(
                seq![0u8] + le_bytes((encode_utf8(s).len() as u32) as nat, 4) + encode_utf8(s),
            )
        } else {
            None
        },
    }
}

/// What encoding the first `k` columns writes: `Ok` with all their bytes, or,
/// at the first column whose value does not have the declared type, `Err` with
/// the bytes written before the failure (that column's null flag included).
pub open spec fn encode_columns(cols: Seq<ColumnView>, vals: Seq<ValueView>, k: nat) -> Result<
    Seq<u8>,
    Seq<u8>,
>
    decreases k,
{
    if k == 0 {
        Ok(seq![])
    } else {
        match encode_columns(cols, vals, (k - 1) as nat) {
            Err(b) => Err(b),
            Ok(b) => match column_bytes(cols[k - 1].data_type, vals[k - 1]) {
                Some(c) => Ok(b + c),
                None => Err(b.push(0u8)),
            },
        }
    }
}

/// What encoding a tuple writes: nothing, and a failure, when the number of
/// values differs from the number of columns; otherwise as [`encode_columns`].
pub open spec fn encode_tuple(cols: Seq<ColumnView>, vals: Seq<ValueView>) -> Result<
    Seq<u8>,
    Seq<u8>,
> {
    if vals.len() != cols.len() {
        Err(seq![])
    } else {
        encode_columns(cols, vals, cols.len())
    }
}

/// Why decoding failed.
pub enum DecodeFault {
    /// The input ended before a field was complete.
    Truncated,
    /// The bytes of a string are not valid UTF-8.
    InvalidText,
}

/// Decoding one column of type `dt` from `bytes` at position `p`: the value and
/// the position after it. A null flag of 1 gives `Null`; any other flag is
/// followed by the payload of the declared type. A boolean is `true` exactly
/// when its byte is 1.
pub open spec fn decode_column(dt: DataType, bytes: Seq<u8>, p: int) -> Result<
    (ValueView, int),
    DecodeFault,
> {
    if p + 1 > bytes.len() {
        Err(DecodeFault::Truncated)
    } else if bytes[p] == 1 {
        Ok((ValueView::Null, p + 1))
    } else {
        match dt {
            DataType::BigInt => if p + 9 > bytes.len() {
                Err(DecodeFault::Truncated)
            } else {
                Ok(
                    (
                        ValueView::BigInt((le_value(bytes.subrange(p + 1, p + 9)) as u64) as i64),
                        p + 9,
                    ),
                )
            },
            DataType::Int => if p + 5 > bytes.len() {
                Err(DecodeFault::Truncated)
            } else {
                Ok(
                    (
                        ValueView::Int((le_value(bytes.subrange(p + 1, p + 5)) as u32) as i32),
                        p + 5,
                    ),
                )
            },
            DataType::Boolean => if p + 2 > bytes.len() {
                Err(DecodeFault::Truncated)
            } else {
                Ok((ValueView::Boolean(bytes[p + 1] == 1), p + 2))
            },
            DataType::Varchar => if p + 5 > bytes.len() {
                Err(DecodeFault::Truncated)
            } else {
                let n = le_value(bytes.subrange(p + 1, p + 5)) as int;
                if p + 5 + n > bytes.len() {
                    Err(DecodeFault::Truncated)
                } else if !valid_utf8(bytes.subrange(p + 5, p + 5 + n)) {
                    Err(DecodeFault::InvalidText)
                } else {
                    Ok(
                        (
                            ValueView::Varchar(decode_utf8(bytes.subrange(p + 5, p + 5 + n))),
                            p + 5 + n,
                        ),
                    )
                }
            },
        }
    }
}

/// Decoding the first `k` columns from the start of `bytes`: their values and
/// the number of bytes they took, or the first failure.
pub open spec fn decode_columns(cols: Seq<ColumnView>, bytes: Seq<u8>, k: nat) -> Result<
    (Seq<ValueView>, int),
    DecodeFault,
>
    decreases k,
{
    if k == 0 {
        Ok((seq![], 0))
    } else {
        match decode_columns(cols, bytes, (k - 1) as nat) {
            Err(e) => Err(e),
            Ok((vs, p)) => match decode_column(cols[k - 1].data_type, bytes, p) {
                Err(e) => Err(e),
                Ok((v, q)) => Ok((vs.push(v), q)),
            },
        }
    }
}

/// Decoding a whole tuple of the given columns from the start of `bytes`.
pub open spec fn decode_tuple(cols: Seq<ColumnView>, bytes: Seq<u8>) -> Result<
    (Seq<ValueView>, int),
    DecodeFault,
> {
    decode_columns(cols, bytes, cols.len())
}

/// Every string of the tuple has a UTF-8 length that its `u32` length prefix can hold.
pub open spec fn strings_fit(vals: Seq<ValueView>) -> bool {
    forall|i: int|
        0 <= i < vals.len() ==> (#[trigger] vals[i] matches ValueView::Varchar(s) ==> encode_utf8(
            s,
        ).len() <= u32::MAX)
}

/// The bytes `b` read as a little-endian number, least significant first.
proof fn lemma_le_value_four(b: Seq<u8>)
    requires
        b.len() == 4,
    ensures
        le_value(b) == b[0] + 256 * b[1] + 65536 * b[2] + 16777216 * b[3],
{
    reveal_with_fuel(le_value, 5);
    assert(b.drop_first().drop_first().drop_first().drop_first().len() == 0);
}

proof fn lemma_le_value_eight(b: Seq<u8>)
    requires
        b.len() == 8,
    ensures
        le_value(b) == b[0] + 256 * b[1] + 65536 * b[2] + 16777216 * b[3] + 4294967296 * b[4]
            + 1099511627776 * b[5] + 281474976710656 * b[6] + 72057594037927936 * b[7],
{
    reveal_with_fuel(le_value, 9);
    assert(b.drop_first().drop_first().drop_first().drop_first().drop_first().drop_first().drop_first().drop_first().len() == 0);
}

/// An `Int` column holding `x` is written as the flag 0 followed by the four
/// bytes of `x`, least significant first (two's complement).
pub proof fn lemma_int_column_layout(x: i32)
    ensures
        column_bytes(DataType::Int, ValueView::Int(x)) matches Some(c) && c.len() == 5 && c[0]
            == 0 && c[1] + 256 * c[2] + 65536 * c[3] + 16777216 * c[4] == (x as u32) as int,
{
    lemma_le_roundtrip((x as u32) as nat, 4, seq![]);
    lemma_pow256_values();
    let v = (x as u32) as nat;
    let c = column_bytes(DataType::Int, ValueView::Int(x))->Some_0;
    let b = c.subrange(1, 5);
    assert(b =~= le_bytes(v, 4));
    assert(le_value(b) == v);
    lemma_le_value_four(b);
    assert(b[0] == c[1] && b[1] == c[2] && b[2] == c[3] && b[3] == c[4]);
}

/// A `BigInt` column holding `x` is written as the flag 0 followed by the
/// eight bytes of `x`, least significant first (two's complement).
pub proof fn lemma_bigint_column_layout(x: i64)
    ensures
        column_bytes(DataType::BigInt, ValueView::BigInt(x)) matches Some(c) && c.len() == 9
            && c[0] == 0 && c[1] + 256 * c[2] + 65536 * c[3] + 16777216 * c[4] + 4294967296 * c[5]
            + 1099511627776 * c[6] + 281474976710656 * c[7] + 72057594037927936 * c[8] == (x as u64) as int,
{
    lemma_le_roundtrip((x as u64) as nat, 8, seq![]);
    lemma_pow256_values();
    let v = (x as u64) as nat;
    let c = column_bytes(DataType::BigInt, ValueView::BigInt(x))->Some_0;
    let b = c.subrange(1, 9);
    assert(b =~= le_bytes(v, 8));
    assert(le_value(b) == v);
    lemma_le_value_eight(b);
    assert(b[0] == c[1] && b[1] == c[2] && b[2] == c[3] && b[3] == c[4]);
    assert(b[4] == c[5] && b[5] == c[6] && b[6] == c[7] && b[7] == c[8]);
}

/// A non-null string column is written as the flag 0, the UTF-8 length of
/// the string as four bytes least significant first, and the UTF-8 bytes.
pub proof fn lemma_varchar_column_layout(s: Seq<char>)
    requires
        encode_utf8(s).len() <= u32::MAX,
    ensures
        column_bytes(DataType::Varchar, ValueView::Varchar(s)) matches Some(c) && c.len() == 5
            + encode_utf8(s).len() && c[0] == 0 && c[1] + 256 * c[2] + 65536 * c[3] + 16777216
            * c[4] == encode_utf8(s).len() && c.subrange(5, c.len() as int) == encode_utf8(s),
{
    let n = encode_utf8(s).len() as u32;
    lemma_le_roundtrip(n as nat, 4, seq![]);
    lemma_pow256_values();
    let c = column_bytes(DataType::Varchar, ValueView::Varchar(s))->Some_0;
    let b = c.subrange(1, 5);
    assert(b =~= le_bytes(n as nat, 4));
    assert(le_value(b) == n);
    lemma_le_value_four(b);
    assert(b[0] == c[1] && b[1] == c[2] && b[2] == c[3] && b[3] == c[4]);
    assert(c.subrange(5, c.len() as int) =~= encode_utf8(s));
}

/// Reading an `Int` column whose flag is not the null flag takes five bytes
/// and gives the number whose four bytes, least significant first, follow
/// the flag.
pub proof fn lemma_int_column_read(bytes: Seq<u8>, p: int)
    requires
        0 <= p,
        p + 5 <= bytes.len(),
        bytes[p] != 1,
    ensures
        decode_column(DataType::Int, bytes, p) matches Ok((ValueView::Int(x), q)) && q == p + 5
            && (x as u32) as int == bytes[p + 1] + 256 * bytes[p + 2] + 65536 * bytes[p + 3]
            + 16777216 * bytes[p + 4],
{
    let b = bytes.subrange(p + 1, p + 5);
    lemma_le_value_four(b);
    lemma_le_roundtrip(0, 4, b);
    lemma_pow256_values();
    let v = le_value(b) as u32;
    assert(((v as i32) as u32) == v) by (bit_vector);
}

/// Reading a `BigInt` column whose flag is not the null flag takes nine bytes
/// and gives the number whose eight bytes, least significant first, follow
/// the flag.
pub proof fn lemma_bigint_column_read(bytes: Seq<u8>, p: int)
    requires
        0 <= p,
        p + 9 <= bytes.len(),
        bytes[p] != 1,
    ensures
        decode_column(DataType::BigInt, bytes, p) matches Ok((ValueView::BigInt(x), q)) && q == p
            + 9 && (x as u64) as int == bytes[p + 1] + 256 * bytes[p + 2] + 65536 * bytes[p + 3]
            + 16777216 * bytes[p + 4] + 4294967296 * bytes[p + 5] + 1099511627776 * bytes[p + 6]
            + 281474976710656 * bytes[p + 7] + 72057594037927936 * bytes[p + 8],
{
    let b = bytes.subrange(p + 1, p + 9);
    lemma_le_value_eight(b);
    lemma_le_roundtrip(0, 8, b);
    lemma_pow256_values();
    let v = le_value(b) as u64;
    assert(((v as i64) as u64) == v) by (bit_vector);
}

proof fn lemma_column_roundtrip(dt: DataType, v: ValueView, bytes: Seq<u8>, p: int)
    requires
        column_bytes(dt, v) is Some,
        0 <= p,
        p + column_bytes(dt, v).unwrap().len() <= bytes.len(),
        bytes.subrange(p, p + column_bytes(dt, v).unwrap().len()) == column_bytes(dt, v).unwrap(),
        v matches ValueView::Varchar(s) ==> encode_utf8(s).len() <= u32::MAX,
    ensures
        decode_column(dt, bytes, p) == Ok::<(ValueView, int), DecodeFault>(
            (v, p + column_bytes(dt, v).unwrap().len()),
        ),
{
    let c = column_bytes(dt, v).unwrap();
    assert(bytes[p] == c[0]);
    lemma_pow256_values();
    match v {
        ValueView::Null => {},
        ValueView::BigInt(x) => {
            lemma_le_roundtrip((x as u64) as nat, 8, seq![]);
            assert(bytes.subrange(p + 1, p + 9) =~= c.subrange(1, 9));
            assert(c.subrange(1, 9) =~= le_bytes((x as u64) as nat, 8));
            assert(((x as u64) as i64) == x) by (bit_vector);
        },
        ValueView::Int(x) => {
            lemma_le_roundtrip((x as u32) as nat, 4, seq![]);
            assert(bytes.subrange(p + 1, p + 5) =~= c.subrange(1, 5));
            assert(c.subrange(1, 5) =~= le_bytes((x as u32) as nat, 4));
            assert(((x as u32) as i32) == x) by (bit_vector);
        },
        ValueView::Boolean(b) => {
            assert(bytes[p + 1] == c[1]);
        },
        ValueView::Varchar(s) => {
            let e = encode_utf8(s);
            let len = e.len() as u32;
            assert(len as int == e.len());
            lemma_le_roundtrip(len as nat, 4, seq![]);
            assert(bytes.subrange(p + 1, p + 5) =~= c.subrange(1, 5));
            assert(c.subrange(1, 5) =~= le_bytes(len as nat, 4));
            assert(le_value(bytes.subrange(p + 1, p + 5)) == len);
            assert forall|i: int| 0 <= i < e.len() implies bytes.subrange(p + 5, p + 5 + e.len())[i]
                == e[i] by {
                assert(bytes.subrange(p, p + c.len())[5 + i] == c[5 + i]);
            }
            assert(bytes.subrange(p + 5, p + 5 + e.len()) =~= e);
            encode_utf8_valid_utf8(s);
            encode_utf8_decode_utf8(s);
        },
    }
}

proof fn lemma_decode_columns_shape(cols: Seq<ColumnView>, bytes: Seq<u8>, k: nat)
    ensures
        decode_columns(cols, bytes, k) matches Ok((vs, p)) ==> vs.len() == k && 0 <= p
            <= bytes.len(),
    decreases k,
{
    if k > 0 {
        lemma_decode_columns_shape(cols, bytes, (k - 1) as nat);
    }
}

proof fn lemma_encode_failure_sticks(cols: Seq<ColumnView>, vals: Seq<ValueView>, k: nat, n: nat)
    requires
        k <= n,
        encode_columns(cols, vals, k) is Err,
    ensures
        encode_columns(cols, vals, n) == encode_columns(cols, vals, k),
    decreases n - k,
{
    if k < n {
        lemma_encode_failure_sticks(cols, vals, k, (n - 1) as nat);
    }
}

proof fn lemma_decode_failure_sticks(cols: Seq<ColumnView>, bytes: Seq<u8>, k: nat, n: nat)
    requires
        k <= n,
        decode_columns(cols, bytes, k) is Err,
    ensures
        decode_columns(cols, bytes, n) == decode_columns(cols, bytes, k),
    decreases n - k,
{
    if k < n {
        lemma_decode_failure_sticks(cols, bytes, k, (n - 1) as nat);
    }
}

proof fn lemma_encode_columns_prefix(cols: Seq<ColumnView>, vals: Seq<ValueView>, k: nat, n: nat)
    requires
        k <= n,
        encode_columns(cols, vals, n) is Ok,
    ensures
        encode_columns(cols, vals, k) is Ok,
        encode_columns(cols, vals, k)->Ok_0.len() <= encode_columns(cols, vals, n)->Ok_0.len(),
        encode_columns(cols, vals, n)->Ok_0.subrange(
            0,
            encode_columns(cols, vals, k)->Ok_0.len() as int,
        ) == encode_columns(cols, vals, k)->Ok_0,
    decreases n - k,
{
    if k < n {
        lemma_encode_columns_prefix(cols, vals, k, (n - 1) as nat);
        let bk = encode_columns(cols, vals, k)->Ok_0;
        let bm = encode_columns(cols, vals, (n - 1) as nat)->Ok_0;
        let bn = encode_columns(cols, vals, n)->Ok_0;
        assert(bn.subrange(0, bm.len() as int) =~= bm);
        assert(bn.subrange(0, bk.len() as int) =~= bm.subrange(0, bk.len() as int));
    } else {
        assert(encode_columns(cols, vals, n)->Ok_0.subrange(
            0,
            encode_columns(cols, vals, n)->Ok_0.len() as int,
        ) =~= encode_columns(cols, vals, n)->Ok_0);
    }
}

proof fn lemma_decode_encoded_columns(
    cols: Seq<ColumnView>,
    vals: Seq<ValueView>,
    bytes: Seq<u8>,
    k: nat,
)
    requires
        k <= cols.len(),
        k <= vals.len(),
        encode_columns(cols, vals, k) is Ok,
        encode_columns(cols, vals, k)->Ok_0.len() <= bytes.len(),
        bytes.subrange(0, encode_columns(cols, vals, k)->Ok_0.len() as int) == encode_columns(
            cols,
            vals,
            k,
        )->Ok_0,
        strings_fit(vals),
    ensures
        decode_columns(cols, bytes, k) == Ok::<(Seq<ValueView>, int), DecodeFault>(
            (vals.take(k as int), encode_columns(cols, vals, k)->Ok_0.len() as int),
        ),
    decreases k,
{
    if k > 0 {
        let km = (k - 1) as nat;
        let b = encode_columns(cols, vals, km)->Ok_0;
        let c = column_bytes(cols[km as int].data_type, vals[km as int]).unwrap();
        let bk = encode_columns(cols, vals, k)->Ok_0;
        assert(bk == b + c);
        assert(bytes.subrange(0, b.len() as int) =~= bk.subrange(0, b.len() as int));
        assert(bk.subrange(0, b.len() as int) =~= b);
        lemma_decode_encoded_columns(cols, vals, bytes, km);
        assert(bytes.subrange(b.len() as int, (b.len() + c.len()) as int) =~= c) by {
            assert forall|i: int| 0 <= i < c.len() implies bytes.subrange(
                b.len() as int,
                (b.len() + c.len()) as int,
            )[i] == c[i] by {
                assert(bytes[b.len() + i] == bk[b.len() + i]);
            }
        }
        assert(vals[km as int] matches ValueView::Varchar(s) ==> encode_utf8(s).len()
            <= u32::MAX);
        lemma_column_roundtrip(cols[km as int].data_type, vals[km as int], bytes, b.len() as int);
        assert(vals.take(km as int).push(vals[km as int]) =~= vals.take(k as int));
    } else {
        assert(vals.take(0) =~= seq![]);
    }
}

/// A tuple that encodes without failure decodes back to the same values,
/// whatever bytes follow its encoding, and decoding takes exactly the bytes
/// that encoding wrote; this holds whenever each string's UTF-8 length fits
/// in the `u32` length prefix.
pub proof fn lemma_tuple_roundtrip(cols: Seq<ColumnView>, vals: Seq<ValueView>, rest: Seq<u8>)
    requires
        encode_tuple(cols, vals) is Ok,
        strings_fit(vals),
    ensures
        decode_tuple(cols, encode_tuple(cols, vals)->Ok_0 + rest) == Ok::<
            (Seq<ValueView>, int),
            DecodeFault,
        >((vals, encode_tuple(cols, vals)->Ok_0.len() as int)),
{
    let b = encode_tuple(cols, vals)->Ok_0;
    let bytes = b + rest;
    assert(bytes.subrange(0, b.len() as int) =~= b);
    lemma_decode_encoded_columns(cols, vals, bytes, cols.len());
    assert(vals.take(cols.len() as int) =~= vals);
}

/// Appends the bytes of one column to `writer`.
fn encode_column(dt: DataType, value: &Value, writer: &mut Vec<u8>) -> (ok: bool)
    ensures
        match column_bytes(dt, value@) {
            Some(c) => ok && final(writer)@ == old(writer)@ + c,
            None => !ok && final(writer)@ == old(writer)@.push(0u8),
        },
{
    let is_null: bool = match value {
        Value::Null => true,
        _ => false,
    };
    writer.push(if is_null { 1u8 } else { 0u8 });
    if is_null {
        return true;
    }
    match (dt, value) {
        (DataType::BigInt, Value::BigInt(v)) => {
            let mut b = le_encode(*v as u64, 8);
            writer.append(&mut b);
            true
        },
        (DataType::Int, Value::Int(v)) => {
            let mut b = le_encode((*v as u32) as u64, 4);
            writer.append(&mut b);
            true
        },
        (DataType::Boolean, Value::Boolean(v)) => {
            writer.push(if *v { 1u8 } else { 0u8 });
            true
        },
        (DataType::Varchar, Value::Varchar(v)) => {
            let mut text = v.as_str().as_bytes_vec();
            let length: u32 = text.len() as u32;
            let mut b = le_encode(length as u64, 4);
            writer.append(&mut b);
            writer.append(&mut text);
            true
        },
        _ => false,
    }
}

/// Reads one column of type `dt` from `bytes` at `pos`.
fn decode_column_at(dt: DataType, bytes: &[u8], pos: usize) -> (r: Result<(Value, usize), DbError>)
    requires
        pos <= bytes@.len(),
    ensures
        match decode_column(dt, bytes@, pos as int) {
            Ok((v, q)) => r matches Ok((val, p)) && val@ == v && p == q,
            Err(DecodeFault::Truncated) => r matches Err(DbError::Io(msg)) && msg@
                == "failed to fill whole buffer"@,
            Err(DecodeFault::InvalidText) => r matches Err(DbError::CorruptPage(msg))
                && "invalid utf-8: "@.is_prefix_of(msg@),
        },
{
    let len = bytes.len();
    if len - pos < 1 {
        return Err(unexpected_eof());
    }
    if bytes[pos] == 1 {
        return Ok((Value::Null, pos + 1));
    }
    match dt {
        DataType::BigInt => {
            if len - pos < 9 {
                return Err(unexpected_eof());
            }
            let v = le_decode(slice_subrange(bytes, pos + 1, pos + 9));
            Ok((Value::BigInt(v as i64), pos + 9))
        },
        DataType::Int => {
            if len - pos < 5 {
                return Err(unexpected_eof());
            }
            let raw = le_decode(slice_subrange(bytes, pos + 1, pos + 5));
            proof {
                lemma_pow256_values();
                lemma_le_roundtrip(0, 4, bytes@.subrange(pos + 1, pos + 5));
            }
            let v = raw as u32;
            Ok((Value::Int(v as i32), pos + 5))
        },
        DataType::Boolean => {
            if len - pos < 2 {
                return Err(unexpected_eof());
            }
            Ok((Value::Boolean(bytes[pos + 1] == 1), pos + 2))
        },
        DataType::Varchar => {
            if len - pos < 5 {
                return Err(unexpected_eof());
            }
            let raw = le_decode(slice_subrange(bytes, pos + 1, pos + 5));
            proof {
                lemma_pow256_values();
                lemma_le_roundtrip(0, 4, bytes@.subrange(pos + 1, pos + 5));
            }
            let n = raw as usize;
            if len - (pos + 5) < n {
                return Err(unexpected_eof());
            }
            let text = slice_to_vec(slice_subrange(bytes, pos + 5, pos + 5 + n));
            match string_from_utf8(text) {
                Ok(s) => Ok((Value::Varchar(s), pos + 5 + n)),
                Err(msg) => {
                    let prefix = String::from_str("invalid utf-8: ");
                    Err(DbError::CorruptPage(prefix.concat(msg.as_str())))
                },
            }
        },
    }
}

/// The error for input that ends in the middle of a field: an `Io` error
/// with the text "failed to fill whole buffer".
fn unexpected_eof() -> (e: DbError)
    ensures
        e matches DbError::Io(msg) && msg@ == "failed to fill whole buffer"@,
{
    DbError::Io(String::from_str("failed to fill whole buffer"))
}

impl Tuple {
    /// Constructs an initialized Tuple with the provided `values`.
    pub fn new(values: Vec<Value>) -> (t: Self)
        ensures
            t.values == values,
    {
        Self { values }
    }

    /// Encodes the tuple in little-endian binary format and appends the bytes
    /// to `writer`.
    ///
    /// The number of values must match the number of columns, and each value
    /// must be `Null` or have its column's type; otherwise the result is
    /// `CorruptPage`, and `writer` keeps what was written before the failure.
    pub fn encode(&self, schema: &Schema, writer: &mut Vec<u8>) -> (r: Result<(), DbError>)
        ensures
            match encode_tuple(schema@, self@) {
                Ok(b) => r is Ok && final(writer)@ == old(writer)@ + b,
                Err(b) => r matches Err(DbError::CorruptPage(_)) && final(writer)@ == old(writer)@ + b,
            },
    {
        if self.values.len() != schema.columns.len() {
            assert(old(writer)@ + seq![] =~= old(writer)@);
            return Err(
                DbError::CorruptPage(
                    String::from_str("tuple value count does not match schema column count"),
                ),
            );
        }
        let n = schema.columns.len();
        let mut i: usize = 0;
        assert(old(writer)@ + seq![] =~= old(writer)@);
        while i < n
            invariant
                i <= n,
                n == schema.columns@.len(),
                n == self.values@.len(),
                encode_columns(schema@, self@, i as nat) is Ok,
                writer@ == old(writer)@ + encode_columns(schema@, self@, i as nat)->Ok_0,
            decreases n - i,
        {
            let ok = encode_column(schema.columns[i].data_type, &self.values[i], writer);
            proof {
                let b = encode_columns(schema@, self@, i as nat)->Ok_0;
                assert(schema@[i as int] == schema.columns@[i as int]@);
                assert(self@[i as int] == self.values@[i as int]@);
                match column_bytes(schema@[i as int].data_type, self@[i as int]) {
                    Some(c) => {
                        assert(writer@ =~= old(writer)@ + (b + c));
                    },
                    None => {
                        assert(writer@ =~= old(writer)@ + b.push(0u8));
                        lemma_encode_failure_sticks(schema@, self@, (i + 1) as nat, n as nat);
                    },
                }
            }
            if !ok {
                return Err(
                    DbError::CorruptPage(
                        String::from_str("value type does not match schema type definition"),
                    ),
                );
            }
            i = i + 1;
        }
        Ok(())
    }

    /// Decodes a `Tuple` from the start of `bytes`, column by column as the
    /// schema lays them out, and returns it with the number of bytes read.
    ///
    /// Input that ends in the middle of a field gives `Io` with the text
    /// "failed to fill whole buffer"; a string whose bytes are not valid UTF-8
    /// gives `CorruptPage` with a text that starts with "invalid utf-8: " and
    /// goes on with the standard library's description of the fault.
    pub fn decode(schema: &Schema, bytes: &[u8]) -> (r: Result<(Self, usize), DbError>)
        ensures
            match decode_tuple(schema@, bytes@) {
                Ok((vs, p)) => r matches Ok((t, m)) && t@ == vs && m == p,
                Err(DecodeFault::Truncated) => r matches Err(DbError::Io(msg)) && msg@
                    == "failed to fill whole buffer"@,
                Err(DecodeFault::InvalidText) => r matches Err(DbError::CorruptPage(msg))
                    && "invalid utf-8: "@.is_prefix_of(msg@),
            },
            r matches Ok((t, m)) ==> t.values@.len() == schema.columns@.len() && m <= bytes@.len(),
    {
        proof {
            lemma_decode_columns_shape(schema@, bytes@, schema@.len());
        }
        let n = schema.columns.len();
        let mut values: Vec<Value> = Vec::with_capacity(n);
        let mut pos: usize = 0;
        let mut i: usize = 0;
        assert(values@.map_values(|v: Value| v@) =~= seq![]);
        while i < n
            invariant
                i <= n,
                n == schema.columns@.len(),
                pos <= bytes@.len(),
                decode_columns(schema@, bytes@, i as nat) == Ok::<(Seq<ValueView>, int), DecodeFault>(
                    (values@.map_values(|v: Value| v@), pos as int),
                ),
            decreases n - i,
        {
            assert(schema@[i as int] == schema.columns@[i as int]@);
            match decode_column_at(schema.columns[i].data_type, bytes, pos) {
                Ok((v, p)) => {
                    let ghost old_values = values@;
                    values.push(v);
                    assert(values@.map_values(|v: Value| v@) =~= old_values.map_values(
                        |v: Value| v@,
                    ).push(v@));
                    pos = p;
                },
                Err(e) => {
                    proof {
                        lemma_decode_failure_sticks(schema@, bytes@, (i + 1) as nat, n as nat);
                    }
                    return Err(e);
                },
            }
            i = i + 1;
        }
        Ok((Tuple { values }, pos))
    }
}

} // verus!
