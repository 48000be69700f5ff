//! The codec surface that wire types share.
use vstd::prelude::*;
use vstd::std_specs::cmp::PartialEqSpec;
use vstd::string::*;

use crate::bytes::{be16_at, read_be16, same_bytes};
use crate::text::{decimal, decimal_string};

verus! {

/// Why bytes do not hold a wire value.
#[derive(Debug, Clone, Copy, PartialEq, Eq)]
pub enum WireError {
    /// The input ends `needed` bytes too early for a value at `offset`.
    UnexpectedEof { offset: usize, needed: usize },
    /// The value at `offset` is not allowed.
    Invalid { offset: usize, reason: &'static str },
}

/// The text that describes an error.
pub open spec fn wire_error_text(e: WireError) -> Seq<char> {
    match e {
        WireError::UnexpectedEof { offset, needed } => "unexpected end of input: needed "@
            + decimal(needed as nat) + " more byte(s) at offset "@ + decimal(offset as nat),
        WireError::Invalid { offset, reason } => "invalid value at offset "@ + decimal(
            offset as nat,
        ) + ": "@ + reason@,
    }
}

impl WireError {
    /// The text that describes this error.
    pub fn message(&self) -> (r: String)
        ensures
            r@ == wire_error_text(*self),
    {
        match self {
            WireError::UnexpectedEof { offset, needed } => {
                let mut s = "unexpected end of input: needed ".to_owned();
                s.append(decimal_string(*needed as u64).as_str());
                s.append(" more byte(s) at offset ");
                s.append(decimal_string(*offset as u64).as_str());
                s
            },
            WireError::Invalid { offset, reason } => {
                let mut s = "invalid value at offset ".to_owned();
                s.append(decimal_string(*offset as u64).as_str());
                s.append(": ");
                s.append(reason);
                s
            },
        }
    }
}

/// A value with an exact form on the wire.
pub trait Wire: Sized {
    /// Append the bytes of this value to `out`.
    fn encode(&self, out: &mut Vec<u8>);

    /// Parse one value from the front of `input`.
    fn decode(input: &[u8]) -> Result<Self, WireError>;

    /// The bytes of this value in a vector of their own: what `encode` makes of an empty one.
    fn to_bytes(&self) -> (r: Vec<u8>)
        default_ensures
            exists|out: &mut Vec<u8>|
                #[trigger] call_ensures(Self::encode, (self, out), ()) && out@
                    == Seq::<u8>::empty() && *final(out) == r,
    {
        let mut out: Vec<u8> = Vec::new();
        self.encode(&mut out);
        out
    }
}

/// Read the big-endian 16-bit value at `off`; an input that is too short is an error that says
/// how many bytes are missing.
pub fn be_u16(input: &[u8], off: usize) -> (r: Result<u16, WireError>)
    ensures
        r == if off + 2 <= input@.len() {
            Ok(be16_at(input@, off as int))
        } else {
            Err(WireError::UnexpectedEof { offset: off, needed: missing(input@.len(), off) })
        },
{
    if input.len() >= 2 && off <= input.len() - 2 {
        Ok(read_be16(input, off))
    } else if off >= input.len() {
        let needed: usize = (off - input.len()).saturating_add(2);
        Err(WireError::UnexpectedEof { offset: off, needed })
    } else {
        Err(WireError::UnexpectedEof { offset: off, needed: 1 })
    }
}

/// The number of bytes that an input of `len` bytes lacks for a 16-bit value at `off`, or the
/// largest `usize` if that is smaller.
pub open spec fn missing(len: nat, off: usize) -> usize {
    if off + 2 - len <= usize::MAX {
        (off + 2 - len) as usize
    } else {
        usize::MAX
    }
}

/// How a value and its captured bytes can fail to agree.
#[derive(Debug, Clone, Copy, PartialEq, Eq, Structural)]
pub enum RoundtripError {
    /// Encoding the value does not give the bytes.
    Encode,
    /// Decoding the bytes fails.
    Decode,
    /// Decoding the bytes gives another value.
    Value,
}

/// Judge both directions of a value and its captured bytes, given what the value was encoded to and
/// what the bytes were decoded to.
pub fn judge_roundtrip<T: PartialEq>(
    encoded: &[u8],
    bytes: &[u8],
    decoded: Result<T, WireError>,
    value: &T,
) -> (r: Result<(), RoundtripError>)
    ensures
        T::obeys_eq_spec() ==> r == roundtrip_verdict(encoded@, bytes@, decoded, *value),
        r == Err::<(), _>(RoundtripError::Encode) <==> encoded@ != bytes@,
        r == Err::<(), _>(RoundtripError::Decode) <==> encoded@ == bytes@ && decoded is Err,
{
    if !same_bytes(encoded, bytes) {
        return Err(RoundtripError::Encode);
    }
    match decoded {
        Ok(v) => if v == *value {
            Ok(())
        } else {
            Err(RoundtripError::Value)
        },
        Err(_) => Err(RoundtripError::Decode),
    }
}

/// What is to be said of a value that was encoded to `encoded` and of bytes that were decoded to
/// `decoded`.
pub open spec fn roundtrip_verdict<T: PartialEq>(
    encoded: Seq<u8>,
    bytes: Seq<u8>,
    decoded: Result<T, WireError>,
    value: T,
) -> Result<(), RoundtripError> {
    if encoded != bytes {
        Err(RoundtripError::Encode)
    } else {
        match decoded {
            Err(_) => Err(RoundtripError::Decode),
            Ok(v) => if v.eq_spec(&value) {
                Ok(())
            } else {
                Err(RoundtripError::Value)
            },
        }
    }
}

/// Check both directions of a value and its captured bytes: encoding the value gives the bytes,
/// and decoding the bytes gives the value.
pub fn assert_roundtrip<T: Wire + PartialEq>(value: &T, bytes: &[u8]) -> (r: Result<
    (),
    RoundtripError,
>)
    ensures
        exists|encoded: Vec<u8>|
            #[trigger] call_ensures(T::to_bytes, (value,), encoded) && if encoded@ != bytes@ {
                r == Err::<(), _>(RoundtripError::Encode)
            } else {
                exists|decoded: Result<T, WireError>|
                    #[trigger] call_ensures(T::decode, (bytes,), decoded) && (T::obeys_eq_spec()
                        ==> r == roundtrip_verdict(encoded@, bytes@, decoded, *value))
            },
{
    let encoded: Vec<u8> = value.to_bytes();
    if !same_bytes(&encoded, bytes) {
        return Err(RoundtripError::Encode);
    }
    let decoded = T::decode(bytes);
    judge_roundtrip(&encoded, bytes, decoded, value)
}

/// What an input lacks is what would make it end right after the value.
pub proof fn law_missing(len: nat, off: usize)
    requires
        off + 2 > len,
        off + 2 - len <= usize::MAX,
    ensures
        len + missing(len, off) == off + 2,
        missing(len, off) >= 1,
{
}

} // verus!
