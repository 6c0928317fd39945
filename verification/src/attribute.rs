//! Attribute values as the host hands them out: raw bytes decoded into
//! strings, integers and booleans.
use crate::text::owned;
use vstd::prelude::*;
use vstd::utf8::{decode_utf8, valid_utf8};

verus! {

/// The decimal digit of `d`, for `d < 10`.
pub open spec fn digit_char(d: nat) -> char {
    if d == 0 { '0' } else if d == 1 { '1' } else if d == 2 { '2' } else if d == 3 { '3' }
    else if d == 4 { '4' } else if d == 5 { '5' } else if d == 6 { '6' } else if d == 7 { '7' }
    else if d == 8 { '8' } else { '9' }
}

/// The decimal text of `n`.
pub open spec fn decimal(n: nat) -> Seq<char>
    decreases n,
{
    if n < 10 {
        seq![digit_char(n)]
    } else {
        decimal(n / 10).push(digit_char(n % 10))
    }
}

fn digit_exec(d: u64) -> (res: char)
    requires
        d < 10,
    ensures
        res == digit_char(d as nat),
{
    if d == 0 { '0' } else if d == 1 { '1' } else if d == 2 { '2' } else if d == 3 { '3' }
    else if d == 4 { '4' } else if d == 5 { '5' } else if d == 6 { '6' } else if d == 7 { '7' }
    else if d == 8 { '8' } else { '9' }
}

/// The decimal text of `n`.
pub fn to_decimal(n: u64) -> (res: String)
    ensures
        res@ == decimal(n as nat),
    decreases n,
{
    if n < 10 {
        let mut r = String::new();
        r.push(digit_exec(n));
        assert(r@ =~= seq![digit_char(n as nat)]);
        r
    } else {
        let mut r = to_decimal(n / 10);
        r.push(digit_exec(n % 10));
        r
    }
}

/// The unsigned little-endian value of `bytes`.
pub open spec fn le_value(bytes: Seq<u8>) -> nat
    decreases bytes.len(),
{
    if bytes.len() == 0 {
        0
    } else {
        bytes[0] as nat + 256 * le_value(bytes.drop_first())
    }
}

proof fn lemma_le_value_bound(bytes: Seq<u8>)
    ensures
        le_value(bytes) < vstd::arithmetic::power2::pow2(8 * bytes.len() as nat),
    decreases bytes.len(),
{
    vstd::arithmetic::power2::lemma2_to64();
    if bytes.len() > 0 {
        lemma_le_value_bound(bytes.drop_first());
        let r = le_value(bytes.drop_first());
        let k = 8 * (bytes.len() - 1) as nat;
        vstd::arithmetic::power2::lemma_pow2_adds(k, 8);
        assert(8 * bytes.len() as nat == k + 8);
        assert(bytes[0] as nat + 256 * r < vstd::arithmetic::power2::pow2(k) * 256) by (nonlinear_arith)
            requires
                r < vstd::arithmetic::power2::pow2(k),
                bytes[0] < 256,
        ;
    }
}

/// The value of eight little-endian bytes.
fn le_u64(bytes: &[u8]) -> (res: u64)
    requires
        bytes@.len() == 8,
    ensures
        res as nat == le_value(bytes@),
{
    let mut acc: u64 = 0;
    let mut i: usize = 8;
    assert(bytes@.skip(8) =~= Seq::<u8>::empty());
    while i > 0
        invariant
            bytes@.len() == 8,
            i <= 8,
            acc as nat == le_value(bytes@.skip(i as int)),
        decreases i,
    {
        proof {
            lemma_le_value_bound(bytes@.skip(i as int));
            vstd::arithmetic::power2::lemma_pow2_adds(8 * (8 - i) as nat, 8);
            vstd::arithmetic::power2::lemma2_to64();
            vstd::arithmetic::power2::lemma2_to64_rest();
            if 8 * (8 - i) < 56 {
                vstd::arithmetic::power2::lemma_pow2_strictly_increases(8 * (8 - i) as nat, 56);
            }
            assert(bytes@.skip(i - 1).drop_first() =~= bytes@.skip(i as int));
            assert(bytes@.skip(i - 1)[0] == bytes@[i - 1]);
        }
        let b = bytes[i - 1] as u64;
        assert(acc as nat * 256 + b < 0x1_0000_0000_0000_0000) by (nonlinear_arith)
            requires
                acc < vstd::arithmetic::power2::pow2(8 * (8 - i) as nat),
                8 * (8 - i) <= 56,
                vstd::arithmetic::power2::pow2(56) == 0x100_0000_0000_0000,
                vstd::arithmetic::power2::pow2(8 * (8 - i) as nat) <= 0x100_0000_0000_0000,
                b < 256,
        ;
        acc = acc * 256 + b;
        i -= 1;
    }
    assert(bytes@.skip(0) =~= bytes@);
    acc
}

/// A value decoded from an attribute's raw bytes.
pub trait Attribute: Sized {
    fn parse(raw_attribute: Vec<u8>) -> Result<Self, String>;
}

/// The message for a value of the wrong length.
pub open spec fn wrong_length(kind: Seq<char>, expected: Seq<char>, got: nat) -> Seq<char> {
    "parse: "@ + kind + " value expected to be "@ + expected + ", but got "@ + decimal(got)
}

fn wrong_length_exec(kind: &str, expected: &str, got: usize) -> (res: String)
    ensures
        res@ == wrong_length(kind@, expected@, got as nat),
{
    let mut r = String::from_str("parse: ");
    r.push_str(kind);
    r.push_str(" value expected to be ");
    r.push_str(expected);
    r.push_str(", but got ");
    r.push_str(to_decimal(got as u64).as_str());
    r
}

/// `String::from_utf8`: the text of valid UTF-8, or the error describing
/// why the bytes are not.
#[verifier::external_body]
pub(crate) fn string_from_utf8(raw: Vec<u8>) -> (res: Result<String, std::string::FromUtf8Error>)
    ensures
        res is Ok <==> valid_utf8(raw@),
        res matches Ok(s) ==> s@ == decode_utf8(raw@),
{
    String::from_utf8(raw)
}

/// `ToString::to_string` of a `FromUtf8Error`: its message. What it says
/// is std's own wording and is left unsaid.
#[verifier::external_body]
fn utf8_error_message(e: &std::string::FromUtf8Error) -> String {
    e.to_string()
}

/// `std::string::FromUtf8Error`, why bytes are not UTF-8 text.
#[verifier::external_type_specification]
#[verifier::external_body]
pub struct ExFromUtf8Error(std::string::FromUtf8Error);

impl Attribute for String {
    /// The text of the bytes; an error when they are not UTF-8.
    fn parse(raw_attribute: Vec<u8>) -> (res: Result<String, String>)
        ensures
            res is Ok <==> valid_utf8(raw_attribute@),
            res matches Ok(s) ==> s@ == decode_utf8(raw_attribute@),
            res matches Err(m) ==> "parse: failed to parse selector String value, error: "@.is_prefix_of(m@),
    {
        match string_from_utf8(raw_attribute) {
            Ok(s) => Ok(s),
            Err(e) => {
                let mut m = String::from_str("parse: failed to parse selector String value, error: ");
                let ghost head = m@;
                m.push_str(utf8_error_message(&e).as_str());
                assert(head.is_prefix_of(m@)) by {
                    assert(m@.subrange(0, head.len() as int) =~= head);
                }
                Err(m)
            },
        }
    }
}

impl Attribute for i64 {
    /// The little-endian signed value of exactly eight bytes.
    fn parse(raw_attribute: Vec<u8>) -> (res: Result<i64, String>)
        ensures
            raw_attribute@.len() == 8 ==> res == Ok::<i64, String>(le_value(raw_attribute@) as i64),
            raw_attribute@.len() != 8 ==> (res matches Err(m) && m@ == wrong_length("Int"@, "8 bytes"@, raw_attribute@.len())),
    {
        if raw_attribute.len() != 8 {
            return Err(wrong_length_exec("Int", "8 bytes", raw_attribute.len()));
        }
        let v = le_u64(raw_attribute.as_slice());
        Ok(v as i64)
    }
}

impl Attribute for u64 {
    /// The little-endian unsigned value of exactly eight bytes.
    fn parse(raw_attribute: Vec<u8>) -> (res: Result<u64, String>)
        ensures
            raw_attribute@.len() == 8 ==> (res matches Ok(v) && v as nat == le_value(raw_attribute@)),
            raw_attribute@.len() != 8 ==> (res matches Err(m) && m@ == wrong_length("UInt"@, "8 bytes"@, raw_attribute@.len())),
    {
        if raw_attribute.len() != 8 {
            return Err(wrong_length_exec("UInt", "8 bytes", raw_attribute.len()));
        }
        Ok(le_u64(raw_attribute.as_slice()))
    }
}

impl Attribute for bool {
    /// Whether the lowest bit of exactly one byte is set.
    fn parse(raw_attribute: Vec<u8>) -> (res: Result<bool, String>)
        ensures
            raw_attribute@.len() == 1 ==> res == Ok::<bool, String>(raw_attribute@[0] & 1 == 1),
            raw_attribute@.len() != 1 ==> (res matches Err(m) && m@ == wrong_length("Bool"@, "1 byte"@, raw_attribute@.len())),
    {
        if raw_attribute.len() != 1 {
            return Err(wrong_length_exec("Bool", "1 byte", raw_attribute.len()));
        }
        Ok(raw_attribute[0] & 1 == 1)
    }
}

/// A point in time: nanoseconds since the Unix epoch.
#[derive(Debug, Clone, Copy, PartialEq, Eq, Structural)]
pub struct Timestamp {
    pub nanos: i64,
}

impl Attribute for Timestamp {
    /// The little-endian signed count of nanoseconds of exactly eight bytes.
    fn parse(raw_attribute: Vec<u8>) -> (res: Result<Timestamp, String>)
        ensures
            raw_attribute@.len() == 8 ==> res == Ok::<Timestamp, String>(Timestamp { nanos: le_value(raw_attribute@) as i64 }),
            raw_attribute@.len() != 8 ==> (res matches Err(m)
                && m@ == "parse: Timestamp expected to be 8 bytes, but got "@ + decimal(raw_attribute@.len())),
    {
        if raw_attribute.len() != 8 {
            let mut m = String::from_str("parse: Timestamp expected to be 8 bytes, but got ");
            m.push_str(to_decimal(raw_attribute.len() as u64).as_str());
            return Err(m);
        }
        let v = le_u64(raw_attribute.as_slice());
        Ok(Timestamp { nanos: v as i64 })
    }
}

impl Attribute for Vec<u8> {
    /// The bytes themselves.
    fn parse(raw_attribute: Vec<u8>) -> (res: Result<Vec<u8>, String>)
        ensures
            res matches Ok(v) && v@ == raw_attribute@,
    {
        Ok(raw_attribute)
    }
}

/// The value of attribute `attr` from what the host returned for its
/// property: the parsed bytes, an error when the property is absent or
/// null, or the host's error.
pub fn attribute_from_property<T: Attribute>(attr: &str, fetched: Result<Option<Vec<u8>>, String>) -> (res: Result<T, String>)
    ensures
        fetched matches Ok(None) ==> (res matches Err(m) && m@ == "get_attribute: not found or null: "@ + attr@),
        fetched matches Err(e) ==> (res matches Err(m) && m@ == "get_attribute: error: "@ + e@),
{
    match fetched {
        Ok(Some(bytes)) => T::parse(bytes),
        Ok(None) => {
            let mut m = String::from_str("get_attribute: not found or null: ");
            m.push_str(attr);
            Err(m)
        },
        Err(e) => {
            let mut m = String::from_str("get_attribute: error: ");
            m.push_str(e.as_str());
            Err(m)
        },
    }
}

} // verus!
