use vstd::prelude::*;
use vstd::utf8::*;

use crate::error::DbError;

verus! {

broadcast use vstd::utf8::group_utf8_lib;

/// Represents the logical data type of a column defined in a schema.
///
/// Each type has a one-byte code (`BigInt` 0, `Int` 1, `Boolean` 2,
/// `Varchar` 3) under which it is stored in the system catalog.
#[derive(Debug, Clone, Copy, PartialEq, Eq, Structural)]
pub enum DataType {
    BigInt,
    Int,
    Boolean,
    Varchar,
}

/// The data type stored under the one-byte code `val`, if any.
pub open spec fn data_type_of_code(val: u8) -> Option<DataType> {
    if val == 0 {
        Some(DataType::BigInt)
    } else if val == 1 {
        Some(DataType::Int)
    } else if val == 2 {
        Some(DataType::Boolean)
    } else if val == 3 {
        Some(DataType::Varchar)
    } else {
        None
    }
}

/// The text of the error for a code that names no data type.
pub open spec fn invalid_code_text(val: u8) -> Seq<char> {
    "invalid DataType discriminant: "@ + ascii_chars(decimal_digits(val as nat))
}

impl DataType {
    /// The one-byte code of this data type.
    pub open spec fn spec_code(&self) -> u8 {
        match self {
            DataType::BigInt => 0,
            DataType::Int => 1,
            DataType::Boolean => 2,
            DataType::Varchar => 3,
        }
    }

    /// Returns the one-byte code of this data type.
    #[verifier::when_used_as_spec(spec_code)]
    pub fn code(&self) -> (r: u8)
        ensures
            r == self.spec_code(),
    {
        match self {
            DataType::BigInt => 0,
            DataType::Int => 1,
            DataType::Boolean => 2,
            DataType::Varchar => 3,
        }
    }

    /// Returns the DataType corresponding to the given u8 `val`.
    ///
    /// Every code above 3 is refused as a corrupt catalog entry.
    pub fn from_u8(val: u8) -> (r: Result<Self, DbError>)
        ensures
            match r {
                Ok(dt) => data_type_of_code(val) == Some(dt),
                Err(e) => data_type_of_code(val) is None && (e matches DbError::CorruptPage(msg)
                    && msg@ == invalid_code_text(val)),
            },
    {
        match val {
            0 => Ok(DataType::BigInt),
            1 => Ok(DataType::Int),
            2 => Ok(DataType::Boolean),
            3 => Ok(DataType::Varchar),
            _ => {
                let prefix = String::from_str("invalid DataType discriminant: ");
                let code = format_unsigned(val as u64);
                Err(DbError::CorruptPage(prefix.concat(code.as_str())))
            },
        }
    }
}

/// Reading back the code of a data type gives that data type, and exactly the
/// codes 0 to 3 name a data type.
pub proof fn lemma_data_type_code_roundtrip(dt: DataType, val: u8)
    ensures
        data_type_of_code(dt.spec_code()) == Some(dt),
        data_type_of_code(val) is Some <==> val < 4,
        data_type_of_code(val) matches Some(d) ==> d.spec_code() == val,
{
}

/// A concrete, physical value stored inside a tuple.
#[derive(Debug, Clone, PartialEq, Eq)]
pub enum Value {
    BigInt(i64),
    Int(i32),
    Null,
    Boolean(bool),
    Varchar(String),
}

/// The mathematical model of a [`Value`]: a string is seen as its characters.
pub enum ValueView {
    BigInt(i64),
    Int(i32),
    Null,
    Boolean(bool),
    Varchar(Seq<char>),
}

impl View for Value {
    type V = ValueView;

    open spec fn view(&self) -> ValueView {
        match self {
            Value::BigInt(v) => ValueView::BigInt(*v),
            Value::Int(v) => ValueView::Int(*v),
            Value::Null => ValueView::Null,
            Value::Boolean(b) => ValueView::Boolean(*b),
            Value::Varchar(s) => ValueView::Varchar(s@),
        }
    }
}

/// The ASCII digits of the natural number `n` in base ten, most significant first.
pub open spec fn decimal_digits(n: nat) -> Seq<u8>
    decreases n,
{
    if n < 10 {
        seq![(48 + n) as u8]
    } else {
        decimal_digits(n / 10).push((48 + n % 10) as u8)
    }
}

/// The ASCII text of the integer `i` in base ten, with a leading `-` when negative.
pub open spec fn decimal_text(i: int) -> Seq<u8> {
    if i < 0 {
        seq![45u8] + decimal_digits((-i) as nat)
    } else {
        decimal_digits(i as nat)
    }
}

/// The characters of a sequence of ASCII bytes.
pub open spec fn ascii_chars(bytes: Seq<u8>) -> Seq<char> {
    bytes.map_values(|b: u8| b as char)
}

/// The characters with which a value is displayed.
pub open spec fn display_chars(v: ValueView) -> Seq<char> {
    match v {
        ValueView::BigInt(x) => ascii_chars(decimal_text(x as int)),
        ValueView::Int(x) => ascii_chars(decimal_text(x as int)),
        ValueView::Null => seq!['N', 'U', 'L', 'L'],
        ValueView::Boolean(b) => if b {
            seq!['t', 'r', 'u', 'e']
        } else {
            seq!['f', 'a', 'l', 's', 'e']
        },
        ValueView::Varchar(s) => s,
    }
}

/// The number that a string of decimal digits spells, most significant first.
pub open spec fn digits_value(s: Seq<char>) -> int
    decreases s.len(),
{
    if s.len() == 0 {
        0
    } else {
        digits_value(s.drop_last()) * 10 + (s.last() as int - 48)
    }
}

/// A nonempty string of the characters `0` to `9`.
pub open spec fn all_digits(s: Seq<char>) -> bool {
    s.len() > 0 && forall|i: int| 0 <= i < s.len() ==> '0' <= #[trigger] s[i] <= '9'
}

/// The integer that a decimal text spells: digits, with a leading `-` for a
/// negative number.
pub open spec fn reads_as(s: Seq<char>, x: int) -> bool {
    if x < 0 {
        s.len() > 0 && s[0] == '-' && all_digits(s.drop_first()) && digits_value(s.drop_first()) == -x
    } else {
        all_digits(s) && digits_value(s) == x
    }
}

proof fn lemma_decimal_digits_read(n: nat)
    ensures
        all_digits(ascii_chars(decimal_digits(n))),
        digits_value(ascii_chars(decimal_digits(n))) == n,
    decreases n,
{
    let d = ascii_chars(decimal_digits(n));
    if n >= 10 {
        lemma_decimal_digits_read(n / 10);
        let prev = ascii_chars(decimal_digits(n / 10));
        let b = (48 + n % 10) as u8;
        assert(d =~= prev.push(b as char));
        assert(d.drop_last() =~= prev);
        assert(d.last() == b as char);
        assert((b as char) as int == b);
        assert(digits_value(d) == digits_value(prev) * 10 + (d.last() as int - 48));
        assert((n / 10) * 10 + n % 10 == n);
        assert forall|i: int| 0 <= i < d.len() implies '0' <= #[trigger] d[i] <= '9' by {
            if i < d.len() - 1 {
                assert(d[i] == prev[i]);
            }
        }
    } else {
        let b = (48 + n) as u8;
        assert(d =~= seq![b as char]);
        assert(d.drop_last() =~= Seq::<char>::empty());
        assert(d.last() == b as char);
        assert((b as char) as int == b);
        assert(digits_value(d) == digits_value(d.drop_last()) * 10 + (d.last() as int - 48));
    }
}

/// Every integer value is displayed as the decimal text of the integer:
/// reading the text back gives the value, and an `Int` shows the same text
/// as the `BigInt` of the same number.
pub proof fn lemma_integers_display_in_decimal(x: i64, y: i32)
    ensures
        reads_as(display_chars(ValueView::BigInt(x)), x as int),
        reads_as(display_chars(ValueView::Int(y)), y as int),
        display_chars(ValueView::Int(y)) == display_chars(ValueView::BigInt(y as i64)),
{
    lemma_decimal_text_read(x as int);
    lemma_decimal_text_read(y as int);
}

proof fn lemma_decimal_text_read(x: int)
    ensures
        reads_as(ascii_chars(decimal_text(x)), x),
{
    if x < 0 {
        let m = (-x) as nat;
        lemma_decimal_digits_read(m);
        let t = ascii_chars(decimal_text(x));
        assert(t =~= seq!['-'] + ascii_chars(decimal_digits(m)));
        assert(t.drop_first() =~= ascii_chars(decimal_digits(m)));
    } else {
        lemma_decimal_digits_read(x as nat);
    }
}

proof fn lemma_decimal_digits_ascii(n: nat)
    ensures
        decimal_digits(n).len() >= 1,
        forall|i: int| 0 <= i < decimal_digits(n).len() ==> 48 <= #[trigger] decimal_digits(n)[i] <= 57,
    decreases n,
{
    if n >= 10 {
        lemma_decimal_digits_ascii(n / 10);
    }
}

/// Appends the decimal digits of `n` to `out`.
fn push_decimal_digits(n: u64, out: &mut Vec<u8>)
    ensures
        final(out)@ == old(out)@ + decimal_digits(n as nat),
    decreases n,
{
    if n >= 10 {
        push_decimal_digits(n / 10, out);
    }
    let d: u8 = (n % 10) as u8;
    out.push(48 + d);
    proof {
        if n >= 10 {
            assert(decimal_digits(n as nat) == decimal_digits((n / 10) as nat).push((48 + n % 10) as u8));
        }
    }
}

/// ASCII bytes decode as UTF-8 to the same characters.
proof fn lemma_ascii_utf8(bytes: Seq<u8>)
    requires
        forall|i: int| 0 <= i < bytes.len() ==> #[trigger] bytes[i] < 128,
    ensures
        valid_utf8(bytes),
        decode_utf8(bytes) == ascii_chars(bytes),
{
    let chars = ascii_chars(bytes);
    assert(is_ascii_chars(chars)) by {
        assert forall|i| 0 <= i < chars.len() implies '\0' <= #[trigger] chars[i] <= '\u{7f}' by {
            assert(bytes[i] < 128);
        }
    }
    is_ascii_chars_encode_utf8(chars);
    assert(encode_utf8(chars) =~= bytes) by {
        assert forall|i| 0 <= i < bytes.len() implies encode_utf8(chars)[i] == bytes[i] by {
            assert(chars[i] as u8 == encode_utf8(chars)[i]);
            let b = bytes[i];
            assert(((b as char) as u8) == b);
        }
    }
    encode_utf8_valid_utf8(chars);
    encode_utf8_decode_utf8(chars);
}

/// Turns ASCII bytes into a `String`.
fn ascii_to_string(bytes: Vec<u8>) -> (s: String)
    requires
        forall|i: int| 0 <= i < bytes@.len() ==> #[trigger] bytes@[i] < 128,
    ensures
        s@ == ascii_chars(bytes@),
{
    proof {
        lemma_ascii_utf8(bytes@);
    }
    match string_from_utf8(bytes) {
        Ok(s) => s,
        Err(_) => {
            assert(false);
            String::new()
        },
    }
}

/// Formats an unsigned integer in base ten.
pub(crate) fn format_unsigned(x: u64) -> (s: String)
    ensures
        s@ == ascii_chars(decimal_digits(x as nat)),
{
    let mut out: Vec<u8> = Vec::new();
    push_decimal_digits(x, &mut out);
    proof {
        lemma_decimal_digits_ascii(x as nat);
        assert(out@ =~= decimal_digits(x as nat));
    }
    ascii_to_string(out)
}

/// Formats an integer in base ten.
fn format_integer(x: i64) -> (s: String)
    ensures
        s@ == ascii_chars(decimal_text(x as int)),
{
    let mut out: Vec<u8> = Vec::new();
    let mag: u64 = if x < 0 {
        out.push(45);
        if x == i64::MIN {
            9_223_372_036_854_775_808u64
        } else {
            (-x) as u64
        }
    } else {
        x as u64
    };
    push_decimal_digits(mag, &mut out);
    proof {
        lemma_decimal_digits_ascii(mag as nat);
        assert(out@ =~= decimal_text(x as int));
    }
    ascii_to_string(out)
}

/// Converts bytes to a `String` through `String::from_utf8`.
///
/// Contract: the call succeeds exactly when the bytes are valid UTF-8 (as
/// vstd's `valid_utf8` defines it), and then the string holds the decoded
/// characters; on failure the text of the standard library's error is handed
/// back. What that text says is left unstated.
#[verifier::external_body]
pub(crate) fn string_from_utf8(bytes: Vec<u8>) -> (r: Result<String, String>)
    ensures
        r is Ok <==> valid_utf8(bytes@),
        r matches Ok(s) ==> s@ == decode_utf8(bytes@),
{
    match String::from_utf8(bytes) {
        Ok(s) => Ok(s),
        Err(e) => Err(e.to_string()),
    }
}

impl Value {
    /// Returns the text of a `Varchar` value, or `None` for any other value.
    pub fn varchar_to_str(&self) -> (r: Option<&str>)
        ensures
            match self@ {
                ValueView::Varchar(s) => r matches Some(t) && t@ == s,
                _ => r is None,
            },
    {
        match self {
            Value::Varchar(s) => Some(s.as_str()),
            _ => None,
        }
    }

    /// Returns the integer of a `BigInt` value, or `None` for any other value.
    pub fn bigint_to_i64(&self) -> (r: Option<i64>)
        ensures
            match self@ {
                ValueView::BigInt(x) => r == Some(x),
                _ => r is None,
            },
    {
        match self {
            Value::BigInt(x) => Some(*x),
            _ => None,
        }
    }

    /// Returns the integer of an `Int` value, or `None` for any other value.
    pub fn int_to_i32(&self) -> (r: Option<i32>)
        ensures
            match self@ {
                ValueView::Int(x) => r == Some(x),
                _ => r is None,
            },
    {
        match self {
            Value::Int(x) => Some(*x),
            _ => None,
        }
    }

    /// The text with which the value is displayed: integers in base ten,
    /// `NULL`, `true` or `false`, and a string as it is.
    pub fn to_string(&self) -> (s: String)
        ensures
            s@ == display_chars(self@),
    {
        match self {
            Value::BigInt(x) => format_integer(*x),
            Value::Int(x) => format_integer(*x as i64),
            Value::Null => {
                let s = String::from_str("NULL");
                proof {
                    reveal_strlit("NULL");
                }
                s
            },
            Value::Boolean(b) => {
                if *b {
                    let s = String::from_str("true");
                    proof {
                        reveal_strlit("true");
                    }
                    s
                } else {
                    let s = String::from_str("false");
                    proof {
                        reveal_strlit("false");
                    }
                    s
                }
            },
            Value::Varchar(s) => s.clone(),
        }
    }
}

} // verus!
