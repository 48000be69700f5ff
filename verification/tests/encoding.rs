use starfire::bytes::{push_be16, push_be32, push_le16, push_le32, read_be16, read_be32, read_le16, read_le32};
use starfire::hex::{decode, encode, encode_upper, HexError};
use starfire::text::{chars_of, decimal_string, parse_u16, parse_u32, split_on, string_of, trim};
use starfire::wire::{assert_roundtrip, be_u16, RoundtripError, Wire, WireError};

#[test]
fn roundtrip_and_case() {
    let bytes = [0x00, 0x12, 0xab, 0xff];
    assert_eq!(encode(&bytes), "0012abff");
    assert_eq!(encode_upper(&bytes), "0012ABFF");
    assert_eq!(decode("0012ABFF").unwrap(), bytes);
    assert_eq!(decode("0012abff").unwrap(), bytes);
    assert_eq!(decode("  0012abff \n").unwrap(), bytes);
}

#[test]
fn errors() {
    assert_eq!(decode("abc"), Err(HexError::OddLength(3)));
    assert!(matches!(decode("zz"), Err(HexError::InvalidChar('z', 0))));
}

#[test]
fn hex_errors_say_what_and_where() {
    assert_eq!(decode("abc").unwrap_err().message(), "odd-length hex string (3 chars)");
    assert_eq!(decode("0a'0").unwrap_err().message(), "invalid hex char '\\'' at offset 2");
}

#[test]
fn hex_of_every_byte_comes_back() {
    let all: Vec<u8> = (0..=255).collect();
    assert_eq!(decode(&encode(&all)).unwrap(), all);
    assert_eq!(decode(&encode_upper(&all)).unwrap(), all);
}

#[test]
fn values_read_back_in_both_orders() {
    let mut v = vec![0xee];
    push_be16(&mut v, 0x1234);
    push_le16(&mut v, 0x1234);
    push_be32(&mut v, 0x8912_3456);
    push_le32(&mut v, 0x8912_3456);
    assert_eq!(v, [0xee, 0x12, 0x34, 0x34, 0x12, 0x89, 0x12, 0x34, 0x56, 0x56, 0x34, 0x12, 0x89]);
    assert_eq!(read_be16(&v, 1), 0x1234);
    assert_eq!(read_le16(&v, 3), 0x1234);
    assert_eq!(read_be32(&v, 5), 0x8912_3456);
    assert_eq!(read_le32(&v, 9), 0x8912_3456);
}

#[test]
fn decimals_read_back() {
    for n in [0u64, 7, 10, 65535, 4294967295] {
        let text = decimal_string(n);
        assert_eq!(text, n.to_string());
        assert_eq!(parse_u32(&chars_of(&text)), Some(n as u32));
    }
    assert_eq!(parse_u16(&chars_of("65536")), None);
    assert_eq!(parse_u16(&chars_of("+80")), Some(80));
    assert_eq!(parse_u16(&chars_of("")), None);
    assert_eq!(parse_u16(&chars_of("-1")), None);
}

#[test]
fn text_is_trimmed_and_split() {
    assert_eq!(string_of(trim(&chars_of(" \u{3000}a b\t\n"))), "a b");
    let parts = split_on(&chars_of("a;;b"), ';');
    assert_eq!(parts, vec![vec!['a'], vec![], vec!['b']]);
}

#[test]
fn wire_reads_are_checked() {
    assert_eq!(be_u16(&[0, 0x12, 0x34], 1), Ok(0x1234));
    let short = be_u16(&[0, 0x12], 1).unwrap_err();
    assert_eq!(short, WireError::UnexpectedEof { offset: 1, needed: 1 });
    assert_eq!(
        short.message(),
        "unexpected end of input: needed 1 more byte(s) at offset 1"
    );
    let invalid = WireError::Invalid { offset: 4, reason: "odd" };
    assert_eq!(invalid.message(), "invalid value at offset 4: odd");
}

#[test]
fn an_offset_past_every_input_is_an_error() {
    for off in [usize::MAX - 2, usize::MAX - 1, usize::MAX] {
        assert_eq!(
            be_u16(&[1, 2, 3], off),
            Err(WireError::UnexpectedEof { offset: off, needed: off - 1 })
        );
    }
    assert_eq!(
        be_u16(&[], usize::MAX),
        Err(WireError::UnexpectedEof { offset: usize::MAX, needed: usize::MAX })
    );
    assert_eq!(be_u16(&[7], 0), Err(WireError::UnexpectedEof { offset: 0, needed: 1 }));
}

#[derive(Debug, Clone, PartialEq, Eq)]
struct Tag {
    value: u8,
    stray: bool,
}

impl Wire for Tag {
    fn encode(&self, out: &mut Vec<u8>) {
        out.push(self.value);
        if self.stray {
            out.push(0xff);
        }
    }

    fn decode(input: &[u8]) -> Result<Self, WireError> {
        match input.first() {
            Some(0xee) => Err(WireError::Invalid { offset: 0, reason: "reserved" }),
            Some(&value) => Ok(Tag { value, stray: false }),
            None => Err(WireError::UnexpectedEof { offset: 0, needed: 1 }),
        }
    }
}

#[test]
fn a_roundtrip_is_exact() {
    let tag = Tag { value: 9, stray: false };
    assert_eq!(tag.to_bytes(), [9]);
    assert!(assert_roundtrip(&tag, &[9]).is_ok());
    assert!(matches!(assert_roundtrip(&tag, &[8]), Err(RoundtripError::Encode)));
    let stray = Tag { value: 9, stray: true };
    assert!(matches!(assert_roundtrip(&stray, &[9, 0xff]), Err(RoundtripError::Value)));
    let none = Tag { value: 0xee, stray: false };
    assert!(matches!(assert_roundtrip(&none, &[0xee]), Err(RoundtripError::Decode)));
}
