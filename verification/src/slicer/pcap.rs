//! Capture files in the classic format, of either byte order.
use vstd::prelude::*;
use vstd::string::*;

use crate::bytes::{
    be32_at, be32_bytes, copy_range, law_read_of_write, le16_bytes, le32_at, le32_bytes, read_be32,
    read_le32,
};
use crate::hex::hex_digit;
use crate::slicer::testbuild::{pcap_file, pcap_header, pcap_records};
use crate::text::{copy_str, decimal, decimal_string, string_of};

verus! {

/// The link type and the records of a capture.
#[derive(Debug, Clone, PartialEq, Eq)]
pub struct PcapFile {
    pub datalink: u32,
    pub records: Vec<Record>,
}

/// One captured frame.
#[derive(Debug, Clone, PartialEq, Eq)]
pub struct Record {
    pub data: Vec<u8>,
}

/// Why bytes are no capture.
#[derive(Debug, Clone, Copy, PartialEq, Eq, Structural)]
pub enum PcapError {
    TooShort,
    BadMagic(u32),
    Truncated { offset: usize },
}

/// The eight hexadecimal digits of `n`.
pub open spec fn hex8(n: u32) -> Seq<char> {
    seq![
        hex_digit((n / 0x1000_0000) as int, false),
        hex_digit((n / 0x100_0000 % 16) as int, false),
        hex_digit((n / 0x10_0000 % 16) as int, false),
        hex_digit((n / 0x1_0000 % 16) as int, false),
        hex_digit((n / 0x1000 % 16) as int, false),
        hex_digit((n / 0x100 % 16) as int, false),
        hex_digit((n / 0x10 % 16) as int, false),
        hex_digit((n % 16) as int, false),
    ]
}

/// The text that describes an error.
pub open spec fn pcap_error_text(e: PcapError) -> Seq<char> {
    match e {
        PcapError::TooShort => "file shorter than a pcap global header (24 bytes)"@,
        PcapError::BadMagic(m) => "not a classic pcap file (magic 0x"@ + hex8(m)
            + "); pcapng is not supported — capture with `tcpdump -w session.pcap`"@,
        PcapError::Truncated { offset } => "record header/body truncated at offset "@ + decimal(
            offset as nat,
        ),
    }
}

fn hex_char(n: u32) -> (r: char)
    requires
        n < 16,
    ensures
        r == hex_digit(n as int, false),
{
    if n < 10 {
        (48 + n as u8) as char
    } else {
        (87 + n as u8) as char
    }
}

impl PcapError {
    /// The text that describes this error.
    pub fn message(&self) -> (r: String)
        ensures
            r@ == pcap_error_text(*self),
    {
        match self {
            PcapError::TooShort => copy_str("file shorter than a pcap global header (24 bytes)"),
            PcapError::BadMagic(m) => {
                let n: u32 = *m;
                let mut digits: Vec<char> = Vec::new();
                digits.push(hex_char(n / 0x1000_0000));
                digits.push(hex_char(n / 0x100_0000 % 16));
                digits.push(hex_char(n / 0x10_0000 % 16));
                digits.push(hex_char(n / 0x1_0000 % 16));
                digits.push(hex_char(n / 0x1000 % 16));
                digits.push(hex_char(n / 0x100 % 16));
                digits.push(hex_char(n / 0x10 % 16));
                digits.push(hex_char(n % 16));
                assert(digits@ =~= hex8(n));
                let mut s: String = copy_str("not a classic pcap file (magic 0x");
                s.append(string_of(&digits).as_str());
                s.append("); pcapng is not supported — capture with `tcpdump -w session.pcap`");
                s
            },
            PcapError::Truncated { offset } => {
                let mut s: String = copy_str("record header/body truncated at offset ");
                s.append(decimal_string(*offset as u64).as_str());
                s
            },
        }
    }
}

/// The byte order that the first four bytes tell: little-endian or not.
pub open spec fn magic_order(magic: u32) -> Option<bool> {
    if magic == 0xa1b2_c3d4 || magic == 0xa1b2_3c4d {
        Some(true)
    } else if magic == 0xd4c3_b2a1 || magic == 0x4d3c_b2a1 {
        Some(false)
    } else {
        None
    }
}

/// A 32-bit value in the byte order of the file.
pub open spec fn value_at(b: Seq<u8>, little: bool, at: int) -> u32 {
    if little {
        le32_at(b, at)
    } else {
        be32_at(b, at)
    }
}

/// The frames of the records from `pos` on. A record that is cut off ends the list.
pub open spec fn records_from(b: Seq<u8>, little: bool, pos: int) -> Seq<Seq<u8>>
    decreases b.len() - pos,
{
    if pos < 0 || pos + 16 > b.len() {
        Seq::empty()
    } else {
        let end = pos + 16 + value_at(b, little, pos + 8);
        if end > b.len() {
            Seq::empty()
        } else {
            seq![b.subrange(pos + 16, end)] + records_from(b, little, end)
        }
    }
}

/// The contents of a list of records.
pub open spec fn record_views(v: Seq<Record>) -> Seq<Seq<u8>> {
    v.map_values(|r: Record| r.data@)
}

/// Parse a capture. The last record of a capture that is still being written may be cut off; it
/// is dropped.
pub fn parse(bytes: &[u8]) -> (r: Result<PcapFile, PcapError>)
    ensures
        bytes@.len() < 24 ==> r == Err::<PcapFile, _>(PcapError::TooShort),
        bytes@.len() >= 24 ==> match magic_order(le32_at(bytes@, 0)) {
            None => r == Err::<PcapFile, _>(PcapError::BadMagic(le32_at(bytes@, 0))),
            Some(little) => r matches Ok(f) && f.datalink == value_at(bytes@, little, 20)
                && record_views(f.records@) == records_from(bytes@, little, 24),
        },
{
    if bytes.len() < 24 {
        return Err(PcapError::TooShort);
    }
    let magic: u32 = read_le32(bytes, 0);
    let little = if magic == 0xa1b2_c3d4 || magic == 0xa1b2_3c4d {
        true
    } else if magic == 0xd4c3_b2a1 || magic == 0x4d3c_b2a1 {
        false
    } else {
        return Err(PcapError::BadMagic(magic));
    };
    let datalink: u32 = read_value(bytes, little, 20);
    let mut records: Vec<Record> = Vec::new();
    let mut pos: usize = 24;
    let ghost all = records_from(bytes@, little, 24);
    assert(record_views(records@) + all =~= all);
    loop
        invariant
            24 <= pos <= bytes.len(),
            all == records_from(bytes@, little, 24),
            record_views(records@) + records_from(bytes@, little, pos as int) == all,
        ensures
            record_views(records@) == all,
        decreases bytes.len() - pos,
    {
        if bytes.len() - pos < 16 {
            assert(record_views(records@) =~= all);
            break;
        }
        let incl_len: usize = read_value(bytes, little, pos + 8) as usize;
        let start: usize = pos + 16;
        if incl_len > bytes.len() - start {
            assert(record_views(records@) =~= all);
            break;
        }
        let end: usize = start + incl_len;
        let data: Vec<u8> = copy_range(bytes, start, end);
        let ghost before = record_views(records@);
        let ghost bytes_read = data@;
        records.push(Record { data });
        assert(record_views(records@) =~= before.push(bytes_read));
        assert(record_views(records@) + records_from(bytes@, little, end as int) =~= before
            + records_from(bytes@, little, pos as int));
        pos = end;
    }
    Ok(PcapFile { datalink, records })
}

fn read_value(b: &[u8], little: bool, at: usize) -> (r: u32)
    requires
        at + 4 <= b.len(),
    ensures
        r == value_at(b@, little, at as int),
{
    if little {
        read_le32(b, at)
    } else {
        read_be32(b, at)
    }
}

/// The four bytes of a value in the byte order of a file.
pub open spec fn value_bytes(n: u32, little: bool) -> Seq<u8> {
    if little {
        le32_bytes(n)
    } else {
        be32_bytes(n)
    }
}

/// The header of a capture: the number that tells the format, what is not read of it, and the link
/// type.
pub open spec fn capture_header(
    little: bool,
    magic: u32,
    unread: Seq<u8>,
    datalink: u32,
) -> Seq<u8> {
    value_bytes(magic, little) + unread + value_bytes(datalink, little)
}

/// A record as it stands in a capture: when it was captured, the frame, and how long the frame was
/// on the wire.
pub struct RawRecord {
    pub stamp: Seq<u8>,
    pub frame: Seq<u8>,
    pub wire_len: Seq<u8>,
}

impl RawRecord {
    /// The fields have their lengths.
    pub open spec fn valid(self) -> bool {
        self.stamp.len() == 8 && self.wire_len.len() == 4 && self.frame.len() <= u32::MAX
    }

    /// The bytes of the record.
    pub open spec fn bytes(self, little: bool) -> Seq<u8> {
        self.stamp + value_bytes(self.frame.len() as u32, little) + self.wire_len + self.frame
    }
}

/// The bytes of the first `n` records.
pub open spec fn record_bytes(records: Seq<RawRecord>, little: bool, n: nat) -> Seq<u8>
    decreases n,
{
    if n == 0 {
        Seq::empty()
    } else {
        record_bytes(records, little, (n - 1) as nat) + records[n - 1].bytes(little)
    }
}

/// The frames of records.
pub open spec fn record_frames(records: Seq<RawRecord>) -> Seq<Seq<u8>> {
    records.map_values(|r: RawRecord| r.frame)
}

/// Whether the first `n` records are those that a file of `len` bytes after its header holds as a
/// whole.
pub open spec fn whole_records(
    records: Seq<RawRecord>,
    little: bool,
    len: nat,
    n: nat,
) -> bool {
    &&& n <= records.len()
    &&& record_bytes(records, little, n).len() <= len
    &&& n < records.len() ==> len < record_bytes(records, little, n + 1).len()
}

/// A capture of either byte order and either resolution of time that is cut anywhere after its
/// header is read as one: its link type, and the frames of the records that it holds as a whole.
pub proof fn law_parse_of_cut(
    little: bool,
    magic: u32,
    unread: Seq<u8>,
    datalink: u32,
    records: Seq<RawRecord>,
    len: nat,
    n: nat,
)
    requires
        magic == 0xa1b2_c3d4 || magic == 0xa1b2_3c4d,
        unread.len() == 16,
        forall|i: int| 0 <= i < records.len() ==> (#[trigger] records[i]).valid(),
        len <= record_bytes(records, little, records.len()).len(),
        whole_records(records, little, len, n),
    ensures
        ({
            let h = capture_header(little, magic, unread, datalink);
            let b = (h + record_bytes(records, little, records.len())).take((24 + len) as int);
            &&& b.len() == 24 + len
            &&& magic_order(le32_at(b, 0)) == Some(little)
            &&& value_at(b, little, 20) == datalink
            &&& records_from(b, little, 24) == record_frames(records).take(n as int)
        }),
{
    let h = capture_header(little, magic, unread, datalink);
    let all = record_bytes(records, little, records.len());
    let b = (h + all).take((24 + len) as int);
    assert(h.len() == 24);
    lemma_header(little, magic, unread, datalink);
    assert(b[0] == h[0] && b[1] == h[1] && b[2] == h[2] && b[3] == h[3]);
    assert(b[20] == h[20] && b[21] == h[21] && b[22] == h[22] && b[23] == h[23]);
    lemma_whole(h, records, little, len, n, n);
    assert(record_bytes(records, little, 0).len() == 0);
    assert(record_frames(records).subrange(0, n as int) =~= record_frames(records).take(
        n as int,
    ));
}

/// A capture of either byte order and either resolution of time is read as what was written: its
/// link type and its frames.
pub proof fn law_parse_of_capture(
    little: bool,
    magic: u32,
    unread: Seq<u8>,
    datalink: u32,
    records: Seq<RawRecord>,
)
    requires
        magic == 0xa1b2_c3d4 || magic == 0xa1b2_3c4d,
        unread.len() == 16,
        forall|i: int| 0 <= i < records.len() ==> (#[trigger] records[i]).valid(),
    ensures
        ({
            let b = capture_header(little, magic, unread, datalink) + record_bytes(
                records,
                little,
                records.len(),
            );
            &&& b.len() >= 24
            &&& magic_order(le32_at(b, 0)) == Some(little)
            &&& value_at(b, little, 20) == datalink
            &&& records_from(b, little, 24) == record_frames(records)
        }),
{
    let h = capture_header(little, magic, unread, datalink);
    let all = record_bytes(records, little, records.len());
    law_parse_of_cut(little, magic, unread, datalink, records, all.len(), records.len());
    assert(h.len() == 24);
    assert((h + all).take((24 + all.len()) as int) =~= h + all);
    assert(record_frames(records).take(records.len() as int) =~= record_frames(records));
}

/// Parsing gives back the link type and the frames of a capture that was built.
pub proof fn law_parse_of_build(datalink: u32, frames: Seq<Seq<u8>>)
    requires
        forall|i: int| 0 <= i < frames.len() ==> (#[trigger] frames[i]).len() <= u32::MAX,
    ensures
        ({
            let b = pcap_file(datalink, frames);
            &&& b.len() >= 24
            &&& magic_order(le32_at(b, 0)) == Some(true)
            &&& value_at(b, true, 20) == datalink
            &&& records_from(b, true, 24) == frames
        }),
{
    let z = le32_bytes(0);
    let unread = le16_bytes(2) + le16_bytes(4) + z + z + le32_bytes(65535);
    let records = frames.map_values(
        |f: Seq<u8>|
            RawRecord { stamp: z + z, frame: f, wire_len: le32_bytes(f.len() as u32) },
    );
    assert(unread.len() == 16);
    assert(pcap_header(datalink) =~= capture_header(true, 0xa1b2_c3d4, unread, datalink));
    lemma_built(frames, records, frames.len());
    assert forall|i: int| 0 <= i < records.len() implies (#[trigger] records[i]).valid() by {
        assert(frames[i].len() <= u32::MAX);
    }
    law_parse_of_capture(true, 0xa1b2_c3d4, unread, datalink, records);
    assert(record_frames(records) =~= frames);
}

/// The records that are built are records of a capture.
proof fn lemma_built(frames: Seq<Seq<u8>>, records: Seq<RawRecord>, n: nat)
    requires
        n <= frames.len(),
        frames.len() == records.len(),
        forall|i: int|
            0 <= i < frames.len() ==> #[trigger] records[i] == (RawRecord {
                stamp: le32_bytes(0) + le32_bytes(0),
                frame: frames[i],
                wire_len: le32_bytes(frames[i].len() as u32),
            }),
    ensures
        pcap_records(frames, n) == record_bytes(records, true, n),
    decreases n,
{
    if n > 0 {
        lemma_built(frames, records, (n - 1) as nat);
        assert(records[n - 1].frame == frames[n - 1]);
    }
}

/// What is read of a header.
proof fn lemma_header(little: bool, magic: u32, unread: Seq<u8>, datalink: u32)
    requires
        magic == 0xa1b2_c3d4 || magic == 0xa1b2_3c4d,
        unread.len() == 16,
    ensures
        ({
            let h = capture_header(little, magic, unread, datalink);
            &&& magic_order(le32_at(h, 0)) == Some(little)
            &&& value_at(h, little, 20) == datalink
        }),
{
    let h = capture_header(little, magic, unread, datalink);
    let m = value_bytes(magic, little);
    let d = value_bytes(datalink, little);
    assert(m.len() == 4 && d.len() == 4);
    assert(h[0] == m[0] && h[1] == m[1] && h[2] == m[2] && h[3] == m[3]);
    assert(h =~= (m + unread) + d + Seq::<u8>::empty());
    law_read_of_write(m + unread, Seq::empty(), 0, datalink);
}

/// From the record that is `m` before record `n` on, the frames up to record `n` are read.
#[verifier::spinoff_prover]
#[verifier::rlimit(30)]
proof fn lemma_whole(
    h: Seq<u8>,
    records: Seq<RawRecord>,
    little: bool,
    len: nat,
    n: nat,
    m: nat,
)
    requires
        forall|i: int| 0 <= i < records.len() ==> (#[trigger] records[i]).valid(),
        len <= record_bytes(records, little, records.len()).len(),
        whole_records(records, little, len, n),
        m <= n,
    ensures
        records_from(
            (h + record_bytes(records, little, records.len())).take((h.len() + len) as int),
            little,
            (h.len() + record_bytes(records, little, (n - m) as nat).len()) as int,
        ) == record_frames(records).subrange(n - m, n as int),
    decreases m,
{
    let all = record_bytes(records, little, records.len());
    let b = (h + all).take((h.len() + len) as int);
    let k = (n - m) as nat;
    let at = (h.len() + record_bytes(records, little, k).len()) as int;
    assert(b.len() == h.len() + len);
    if k < records.len() {
        assert(records[k as int].valid());
        lemma_record_at(h, records, little, k);
    }
    if m == 0 {
        assert(records_from(b, little, at) =~= Seq::empty()) by {
            if k < records.len() && at + 16 <= b.len() {
                lemma_value_of_take(h + all, little, at + 8, (h.len() + len) as int);
            }
        }
        assert(record_frames(records).subrange(n as int, n as int) =~= Seq::empty());
    } else {
        lemma_whole(h, records, little, len, n, (m - 1) as nat);
        lemma_records_grow(records, little, (k + 1) as nat, n);
        lemma_value_of_take(h + all, little, at + 8, (h.len() + len) as int);
        let f = records[k as int].frame;
        let end = at + 16 + f.len();
        assert(end <= b.len());
        assert(b.subrange(at + 16, end) =~= (h + all).subrange(at + 16, end));
        assert(record_frames(records).subrange(k as int, n as int) =~= seq![f] + record_frames(
            records,
        ).subrange((k + 1) as int, n as int));
    }
}

/// A value that lies before the cut is not changed by it.
proof fn lemma_value_of_take(b: Seq<u8>, little: bool, at: int, len: int)
    requires
        0 <= at,
        at + 4 <= len <= b.len(),
    ensures
        value_at(b.take(len), little, at) == value_at(b, little, at),
{
}

/// A part between two others.
proof fn lemma_middle(a: Seq<u8>, b: Seq<u8>, c: Seq<u8>)
    ensures
        (a + b + c).subrange(a.len() as int, (a.len() + b.len()) as int) == b,
        (a + b + c).len() == a.len() + b.len() + c.len(),
{
    assert((a + b + c).subrange(a.len() as int, (a.len() + b.len()) as int) =~= b);
}

/// Where record `k` stands in a file, its length and its frame stand.
#[verifier::spinoff_prover]
#[verifier::rlimit(30)]
proof fn lemma_record_at(h: Seq<u8>, records: Seq<RawRecord>, little: bool, k: nat)
    requires
        k < records.len(),
        records[k as int].valid(),
    ensures
        ({
            let b = h + record_bytes(records, little, records.len());
            let at = (h.len() + record_bytes(records, little, k).len()) as int;
            let f = records[k as int].frame;
            &&& h.len() + record_bytes(records, little, k + 1).len() == at + 16 + f.len()
            &&& at + 16 + f.len() <= b.len()
            &&& value_at(b, little, at + 8) == f.len()
            &&& b.subrange(at + 16, (at + 16 + f.len()) as int) == f
        }),
{
    let all = record_bytes(records, little, records.len());
    let r = records[k as int];
    let before = record_bytes(records, little, k);
    let upto = record_bytes(records, little, k + 1);
    lemma_records_grow(records, little, k + 1, records.len());
    let rest = all.skip(upto.len() as int);
    let v = value_bytes(r.frame.len() as u32, little);
    assert(v.len() == 4);
    assert(all =~= upto + rest);
    let pre = h + before + r.stamp;
    let post = r.wire_len + r.frame + rest;
    let b = h + all;
    assert(b =~= pre + v + post);
    law_read_of_write(pre, post, 0, r.frame.len() as u32);
    let head = h + before + r.stamp + v + r.wire_len;
    assert(b =~= head + r.frame + rest);
    lemma_middle(head, r.frame, rest);
}

/// The first `m` records come first.
proof fn lemma_records_grow(records: Seq<RawRecord>, little: bool, m: nat, n: nat)
    requires
        m <= n <= records.len(),
    ensures
        record_bytes(records, little, m).len() <= record_bytes(records, little, n).len(),
        record_bytes(records, little, n).take(record_bytes(records, little, m).len() as int)
            == record_bytes(records, little, m),
    decreases n,
{
    let l = record_bytes(records, little, m).len() as int;
    if m < n {
        lemma_records_grow(records, little, m, (n - 1) as nat);
        assert(record_bytes(records, little, n).take(l) =~= record_bytes(
            records,
            little,
            (n - 1) as nat,
        ).take(l));
    } else {
        assert(record_bytes(records, little, n).take(l) =~= record_bytes(records, little, m));
    }
}

} // verus!
