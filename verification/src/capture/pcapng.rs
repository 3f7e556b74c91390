//! Raw packets as pcapng files that rotate by size.
use crate::events;
use crate::events::RawPacketReference;
use crate::outside;
use crate::paths;
use crate::paths::FilePath;
use crate::text;
use crate::wire;
use vstd::prelude::*;
use vstd::string::StringExecFns;

verus! {

/// Where raw packets go, and how large a file may grow.
#[derive(Debug, Clone)]
pub struct RawCaptureOptions {
    pub path: FilePath,
    pub rotate_bytes: u64,
}

/// How far the files are written.
#[derive(Debug)]
pub struct PcapNgWriter {
    pub options: RawCaptureOptions,
    pub current_path: FilePath,
    pub bytes_written: u64,
    pub packet_number: u64,
    pub rotation: u64,
    pub link_type: u16,
}

/// What is to be written for one packet: a file to open first, if any, with its header, and the
/// block of the packet.
#[derive(Debug)]
pub struct PacketWrite {
    pub open: Option<FilePath>,
    pub header: Vec<u8>,
    pub block: Vec<u8>,
    pub reference: RawPacketReference,
}

/// The length of the header of a file.
pub const HEADER_LENGTH: u64 = 48;

// ---------------------------------------------------------------------------------------------
// Blocks
// ---------------------------------------------------------------------------------------------

/// A block: its kind, its whole length, its body, and its whole length again.
pub open spec fn framed(kind: u32, body: Seq<u8>) -> Seq<u8> {
    wire::le32(kind) + wire::le32((12 + body.len()) as u32) + body + wire::le32(
        (12 + body.len()) as u32,
    )
}

/// The header of a file: a section header block for little-endian data of unknown length, and an
/// interface description block with the link type and a snapshot length of 64 KiB.
pub open spec fn file_header(link_type: u16) -> Seq<u8> {
    framed(
        0x0a0d_0d0a,
        wire::le32(0x1a2b_3c4d) + wire::le32(1) + wire::le32(0xffff_ffff) + wire::le32(0xffff_ffff),
    ) + framed(1, wire::le32(link_type as u32) + wire::le32(0xffff))
}

/// A length rounded up to a multiple of four.
pub open spec fn padded(n: int) -> int {
    (n + 3) / 4 * 4
}

/// The fields in front of a packet: the interface, the time in microseconds, how much of the
/// packet was captured, and how long it was on the wire.
#[verifier::opaque]
pub open spec fn packet_fields(timestamp_micros: u64, length: int, wire_length: int) -> Seq<u8> {
    wire::le32(0) + wire::le32((timestamp_micros / 0x1_0000_0000) as u32) + wire::le32(
        (timestamp_micros % 0x1_0000_0000) as u32,
    ) + wire::le32(length as u32) + wire::le32((wire_length % 0x1_0000_0000) as u32)
}

/// Zeros.
pub open spec fn zeros(n: int) -> Seq<u8> {
    Seq::new(n as nat, |i: int| 0u8)
}

/// The body of an enhanced packet block: its fields, and the bytes padded with zeros.
pub open spec fn packet_body(timestamp_micros: u64, bytes: Seq<u8>, wire_length: usize) -> Seq<
    u8,
> {
    packet_fields(timestamp_micros, bytes.len() as int, wire_length as int) + bytes + zeros(
        padded(bytes.len() as int) - bytes.len(),
    )
}

proof fn lemma_packet_fields(timestamp_micros: u64, length: int, wire_length: int)
    ensures
        packet_fields(timestamp_micros, length, wire_length).len() == 20,
{
    reveal(packet_fields);
}

/// The block of a packet.
pub open spec fn packet_block(timestamp_micros: u64, bytes: Seq<u8>, wire_length: usize) -> Seq<
    u8,
> {
    framed(6, packet_body(timestamp_micros, bytes, wire_length))
}

/// The length of the block of a packet with `n` bytes.
pub open spec fn block_length(n: int) -> int {
    32 + padded(n)
}

/// Frames a block.
fn frame(kind: u32, body: &[u8]) -> (r: Vec<u8>)
    requires
        12 + body@.len() <= u32::MAX,
    ensures
        r@ == framed(kind, body@),
{
    let total: u32 = 12 + body.len() as u32;
    let mut out: Vec<u8> = Vec::new();
    wire::push_le32(&mut out, kind);
    wire::push_le32(&mut out, total);
    wire::push_bytes(&mut out, body);
    wire::push_le32(&mut out, total);
    assert(out@ =~= framed(kind, body@));
    out
}

/// Writes the header of a file.
fn write_header(link_type: u16) -> (r: Vec<u8>)
    ensures
        r@ == file_header(link_type),
        r@.len() == HEADER_LENGTH,
{
    let mut section: Vec<u8> = Vec::new();
    wire::push_le32(&mut section, 0x1a2b_3c4d);
    wire::push_le32(&mut section, 1);
    wire::push_le32(&mut section, 0xffff_ffff);
    wire::push_le32(&mut section, 0xffff_ffff);
    let mut description: Vec<u8> = Vec::new();
    wire::push_le32(&mut description, link_type as u32);
    wire::push_le32(&mut description, 0xffff);
    assert(section@ =~= wire::le32(0x1a2b_3c4d) + wire::le32(1) + wire::le32(0xffff_ffff)
        + wire::le32(0xffff_ffff));
    assert(description@ =~= wire::le32(link_type as u32) + wire::le32(0xffff));
    let mut out = frame(0x0a0d_0d0a, &section);
    let second = frame(1, &description);
    wire::push_bytes(&mut out, &second);
    out
}

/// Writes the fields in front of a packet.
fn write_fields(timestamp_micros: u64, length: usize, wire_length: usize) -> (r: Vec<u8>)
    requires
        length <= u32::MAX,
    ensures
        r@ == packet_fields(timestamp_micros, length as int, wire_length as int),
{
    let mut out: Vec<u8> = Vec::new();
    wire::push_le32(&mut out, 0);
    wire::push_le32(&mut out, (timestamp_micros / 0x1_0000_0000) as u32);
    wire::push_le32(&mut out, (timestamp_micros % 0x1_0000_0000) as u32);
    wire::push_le32(&mut out, length as u32);
    wire::push_le32(&mut out, (wire_length as u64 % 0x1_0000_0000) as u32);
    proof {
        reveal(packet_fields);
        assert(out@ =~= packet_fields(timestamp_micros, length as int, wire_length as int));
    }
    out
}

/// Writes the body of an enhanced packet block.
pub fn pcapng_packet_payload(timestamp_micros: u64, bytes: &[u8], wire_length: usize) -> (r: Vec<
    u8,
>)
    requires
        block_length(bytes@.len() as int) <= u32::MAX,
    ensures
        r@ == packet_body(timestamp_micros, bytes@, wire_length),
        r@.len() == 20 + padded(bytes@.len() as int),
{
    let n: usize = bytes.len();
    let mut out = write_fields(timestamp_micros, n, wire_length);
    proof {
        lemma_packet_fields(timestamp_micros, n as int, wire_length as int);
    }
    wire::push_bytes(&mut out, bytes);
    let ghost start = out@;
    let missing: usize = (4 - n % 4) % 4;
    assert(missing == padded(n as int) - n);
    let mut i: usize = 0;
    while i < missing
        invariant
            i <= missing,
            out@ =~= start + zeros(i as int),
        decreases missing - i,
    {
        out.push(0);
        i += 1;
    }
    out
}

// ---------------------------------------------------------------------------------------------
// Paths
// ---------------------------------------------------------------------------------------------

/// A number in decimal, with zeros in front up to four digits.
pub open spec fn four_digits(n: nat) -> Seq<char> {
    let digits = text::decimal(n);
    if digits.len() >= 4 {
        digits
    } else {
        Seq::new((4 - digits.len()) as nat, |i: int| '0') + digits
    }
}

/// The path of the file after a number of rotations.
pub open spec fn path_of_rotation(path: Seq<u8>, rotation: u64) -> Seq<u8> {
    paths::tagged(path, four_digits(rotation as nat), "capture"@, "pcapng"@)
}

/// The name of an interface with underscores for what is no ASCII letter or digit.
pub open spec fn safe_name(interface: Seq<char>) -> Seq<char> {
    interface.map_values(
        |c: char|
            if text::is_alphanumeric(c) {
                c
            } else {
                '_'
            },
    )
}

/// The path for the packets of one interface.
pub open spec fn path_of_interface(path: Seq<u8>, interface: Seq<char>, several: bool) -> Seq<u8> {
    if several {
        paths::tagged(path, safe_name(interface), "capture"@, "pcapng"@)
    } else {
        path
    }
}

/// Writes a number with at least four digits.
fn format_four_digits(n: u64) -> (r: String)
    ensures
        r@ == four_digits(n as nat),
{
    let digits = text::decimal_text(n as u128);
    let length: usize = text::chars_of(digits.as_str()).len();
    let mut r = String::new();
    if length < 4 {
        let mut i: usize = length;
        while i < 4
            invariant
                length <= i <= 4,
                r@ =~= Seq::new((i - length) as nat, |k: int| '0'),
            decreases 4 - i,
        {
            r.push('0');
            i += 1;
        }
    }
    r.append(digits.as_str());
    assert(r@ =~= four_digits(n as nat));
    r
}

/// The path of the file after a number of rotations.
pub fn rotated_path(path: &FilePath, rotation: u64) -> (r: FilePath)
    ensures
        r@ == path_of_rotation(path@, rotation),
{
    let tag = format_four_digits(rotation);
    path.with_tag(tag.as_str(), "capture", "pcapng")
}

/// The path for the packets of one interface.
pub fn raw_path_for_interface(path: &FilePath, interface: &str, multiple_interfaces: bool) -> (r:
    FilePath)
    ensures
        r@ == path_of_interface(path@, interface@, multiple_interfaces),
{
    if !multiple_interfaces {
        return path.clone();
    }
    let chars = text::chars_of(interface);
    let mut tag = String::new();
    let mut i: usize = 0;
    while i < chars.len()
        invariant
            i <= chars@.len(),
            chars@ == interface@,
            tag@ =~= safe_name(interface@).take(i as int),
        decreases chars@.len() - i,
    {
        let c = chars[i];
        let kept = ('a' <= c && c <= 'z') || ('A' <= c && c <= 'Z') || ('0' <= c && c <= '9');
        assert(safe_name(interface@)[i as int] == if kept {
            c
        } else {
            '_'
        });
        tag.push(
            if kept {
                c
            } else {
                '_'
            },
        );
        i += 1;
    }
    assert(tag@ =~= safe_name(interface@));
    path.with_tag(tag.as_str(), "capture", "pcapng")
}

// ---------------------------------------------------------------------------------------------
// Writing
// ---------------------------------------------------------------------------------------------

/// The model of a [`PcapNgWriter`].
pub struct WriterView {
    pub path: Seq<u8>,
    pub rotate_bytes: u64,
    pub current_path: Seq<u8>,
    pub bytes_written: u64,
    pub packet_number: u64,
    pub rotation: u64,
    pub link_type: u16,
}

impl View for PcapNgWriter {
    type V = WriterView;

    open spec fn view(&self) -> WriterView {
        WriterView {
            path: self.options.path@,
            rotate_bytes: self.options.rotate_bytes,
            current_path: self.current_path@,
            bytes_written: self.bytes_written,
            packet_number: self.packet_number,
            rotation: self.rotation,
            link_type: self.link_type,
        }
    }
}

/// How large a file may grow.
pub open spec fn size_limit(rotate_bytes: u64) -> u64 {
    if rotate_bytes > HEADER_LENGTH {
        rotate_bytes
    } else {
        HEADER_LENGTH
    }
}

/// The writer with one file that holds its header.
pub open spec fn new_writer(path: Seq<u8>, rotate_bytes: u64, link_type: u16) -> WriterView {
    WriterView {
        path,
        rotate_bytes,
        current_path: path,
        bytes_written: HEADER_LENGTH,
        packet_number: 0,
        rotation: 0,
        link_type,
    }
}

/// A packet of `n` bytes goes to a new file: some packet was written, and the file would grow too
/// large.
pub open spec fn rotates(writer: WriterView, n: int) -> bool {
    writer.packet_number > 0 && writer.bytes_written + block_length(n) > size_limit(
        writer.rotate_bytes,
    )
}

/// The writer when the file for a packet of `n` bytes is open.
pub open spec fn opened_for(writer: WriterView, n: int) -> WriterView {
    if rotates(writer, n) {
        WriterView {
            rotation: (writer.rotation + 1) as u64,
            current_path: path_of_rotation(writer.path, (writer.rotation + 1) as u64),
            bytes_written: HEADER_LENGTH,
            ..writer
        }
    } else {
        writer
    }
}

/// The writer after a packet of `n` bytes.
pub open spec fn written(writer: WriterView, n: int) -> WriterView {
    let opened = opened_for(writer, n);
    WriterView {
        bytes_written: (opened.bytes_written + block_length(n)) as u64,
        packet_number: (opened.packet_number + 1) as u64,
        ..opened
    }
}

/// The reference to a packet of `n` bytes: its number, its file and where its block starts.
pub open spec fn reference_to(writer: WriterView, n: int) -> events::RawPacketReferenceView {
    let opened = opened_for(writer, n);
    events::RawPacketReferenceView {
        packet_id: outside::lossy(opened.current_path) + "-"@ + text::decimal(
            (writer.packet_number + 1) as nat,
        ),
        file: outside::lossy(opened.current_path),
        offset: opened.bytes_written,
    }
}

/// The number of bytes in a number of mebibytes, as far as it can be counted.
pub open spec fn bytes_of_mebibytes(mebibytes: u64) -> u64 {
    if mebibytes * 0x10_0000 > u64::MAX {
        u64::MAX
    } else {
        (mebibytes * 0x10_0000) as u64
    }
}

/// The number of bytes in a number of mebibytes.
pub fn rotation_size(mebibytes: u64) -> (r: u64)
    ensures
        r == bytes_of_mebibytes(mebibytes),
{
    if mebibytes > u64::MAX / 0x10_0000 {
        u64::MAX
    } else {
        mebibytes * 0x10_0000
    }
}

/// The link type of a capture in the width that a file has for it.
pub fn file_link_type(datalink: i32) -> (r: Option<u16>)
    ensures
        match r {
            Some(n) => n == datalink,
            None => !(0 <= datalink <= u16::MAX),
        },
{
    if 0 <= datalink && datalink <= 0xffff {
        Some(datalink as u16)
    } else {
        None
    }
}

/// The counters of a writer have room for a packet of `n` bytes.
pub open spec fn has_room(writer: WriterView, n: int) -> bool {
    &&& block_length(n) <= u32::MAX
    &&& writer.bytes_written + block_length(n) <= u64::MAX
    &&& writer.packet_number < u64::MAX
    &&& writer.rotation < u64::MAX
}

impl PcapNgWriter {
    /// A writer whose first file holds the header that [`PcapNgWriter::header`] gives.
    pub fn new(options: RawCaptureOptions, link_type: u16) -> (r: Self)
        ensures
            r@ == new_writer(options.path@, options.rotate_bytes, link_type),
    {
        let current_path = options.path.clone();
        PcapNgWriter {
            options,
            current_path,
            bytes_written: HEADER_LENGTH,
            packet_number: 0,
            rotation: 0,
            link_type,
        }
    }

    /// The header of a file.
    pub fn header(&self) -> (r: Vec<u8>)
        ensures
            r@ == file_header(self@.link_type),
            r@.len() == HEADER_LENGTH,
    {
        write_header(self.link_type)
    }

    /// Says whether the counters have room for a packet.
    pub fn can_write(&self, length: usize) -> (r: bool)
        ensures
            r == has_room(self@, length as int),
    {
        let block: u128 = 32 + (length as u128 + 3) / 4 * 4;
        block <= u32::MAX as u128 && self.bytes_written as u128 + block <= u64::MAX as u128
            && self.packet_number < u64::MAX && self.rotation < u64::MAX
    }

    /// Takes note of a packet and says what is to be written for it.
    pub fn write(&mut self, bytes: &[u8], wire_length: usize, timestamp_micros: u64) -> (r:
        PacketWrite)
        requires
            has_room(old(self)@, bytes@.len() as int),
        ensures
            final(self)@ == written(old(self)@, bytes@.len() as int),
            r.reference@ == reference_to(old(self)@, bytes@.len() as int),
            r.block@ == packet_block(timestamp_micros, bytes@, wire_length),
            r.block@.len() == block_length(bytes@.len() as int),
            match r.open {
                Some(path) => {
                    &&& rotates(old(self)@, bytes@.len() as int)
                    &&& path@ == final(self)@.current_path
                    &&& r.header@ == file_header(old(self)@.link_type)
                },
                None => !rotates(old(self)@, bytes@.len() as int) && r.header@.len() == 0,
            },
    {
        let body = pcapng_packet_payload(timestamp_micros, bytes, wire_length);
        let block = frame(6, &body);
        let length: u64 = block.len() as u64;
        let limit: u64 = if self.options.rotate_bytes > HEADER_LENGTH {
            self.options.rotate_bytes
        } else {
            HEADER_LENGTH
        };
        let mut open: Option<FilePath> = None;
        let mut header: Vec<u8> = Vec::new();
        if self.packet_number > 0 && self.bytes_written + length > limit {
            self.rotation += 1;
            self.current_path = rotated_path(&self.options.path, self.rotation);
            self.bytes_written = HEADER_LENGTH;
            open = Some(self.current_path.clone());
            header = write_header(self.link_type);
        }
        let offset: u64 = self.bytes_written;
        self.bytes_written += length;
        self.packet_number += 1;
        let file = self.current_path.display();
        let mut packet_id = file.clone();
        packet_id.append("-");
        text::push_decimal(&mut packet_id, self.packet_number as u128);
        PacketWrite {
            open,
            header,
            block,
            reference: RawPacketReference { packet_id, file, offset },
        }
    }
}

// ---------------------------------------------------------------------------------------------
// Laws
// ---------------------------------------------------------------------------------------------

/// A block states its own length behind its kind and at its end, and that length is a multiple of
/// four.
pub proof fn blocks_state_their_length(
    timestamp_micros: u64,
    bytes: Seq<u8>,
    wire_length: usize,
)
    requires
        block_length(bytes.len() as int) <= u32::MAX,
    ensures
        ({
            let block = packet_block(timestamp_micros, bytes, wire_length);
            &&& block.len() == block_length(bytes.len() as int)
            &&& block.len() % 4 == 0
            &&& block.subrange(4, 8) == wire::le32(block.len() as u32)
            &&& block.subrange(block.len() - 4, block.len() as int) == wire::le32(
                block.len() as u32,
            )
        }),
{
    lemma_packet_fields(timestamp_micros, bytes.len() as int, wire_length as int);
    let body = packet_body(timestamp_micros, bytes, wire_length);
    lemma_framed(6, body);
}

proof fn lemma_framed(kind: u32, body: Seq<u8>)
    ensures
        framed(kind, body).len() == 12 + body.len(),
        framed(kind, body).subrange(4, 8) == wire::le32((12 + body.len()) as u32),
        framed(kind, body).subrange(8 + body.len() as int, 12 + body.len() as int) == wire::le32(
            (12 + body.len()) as u32,
        ),
        framed(kind, body).subrange(8, 8 + body.len() as int) == body,
{
    let block = framed(kind, body);
    assert(block.subrange(4, 8) =~= wire::le32((12 + body.len()) as u32));
    assert(block.subrange(8 + body.len() as int, 12 + body.len() as int) =~= wire::le32(
        (12 + body.len()) as u32,
    ));
    assert(block.subrange(8, 8 + body.len() as int) =~= body);
}

/// A block holds the captured bytes as they are, from its 28th byte on.
pub proof fn blocks_hold_the_packet(timestamp_micros: u64, bytes: Seq<u8>, wire_length: usize)
    ensures
        packet_block(timestamp_micros, bytes, wire_length).subrange(28, 28 + bytes.len() as int)
            == bytes,
{
    lemma_packet_fields(timestamp_micros, bytes.len() as int, wire_length as int);
    let body = packet_body(timestamp_micros, bytes, wire_length);
    let block = packet_block(timestamp_micros, bytes, wire_length);
    lemma_framed(6, body);
    assert(body.subrange(20, 20 + bytes.len() as int) =~= bytes);
    assert(block.subrange(28, 28 + bytes.len() as int) =~= block.subrange(
        8,
        8 + body.len() as int,
    ).subrange(20, 20 + bytes.len() as int));
}

/// A file grows past its limit only where it holds no packet but one.
pub proof fn files_rotate_before_they_exceed_their_limit(writer: WriterView, n: int)
    requires
        has_room(writer, n),
        n >= 0,
        writer.bytes_written == HEADER_LENGTH || writer.packet_number > 0,
    ensures
        written(writer, n).bytes_written <= size_limit(writer.rotate_bytes) || reference_to(
            writer,
            n,
        ).offset == HEADER_LENGTH,
        written(writer, n).packet_number > 0,
{
}

/// A reference gives the offset at which the block starts in its file: where the file ended
/// before, and the file then ends behind the block.
pub proof fn references_point_at_their_block(writer: WriterView, n: int)
    requires
        has_room(writer, n),
        n >= 0,
    ensures
        ({
            let reference = reference_to(writer, n);
            &&& !rotates(writer, n) ==> reference.offset == writer.bytes_written
            &&& rotates(writer, n) ==> reference.offset == file_header(writer.link_type).len()
            &&& written(writer, n).bytes_written == reference.offset + block_length(n)
            &&& reference.file == outside::lossy(written(writer, n).current_path)
        }),
{
    assert(file_header(writer.link_type).len() == HEADER_LENGTH);
}

proof fn lemma_four_digits(n: nat)
    ensures
        paths::plain(four_digits(n)),
        four_digits(n).len() >= 4,
{
    text::decimals_read_back(n);
    let digits = text::decimal(n);
    let padded = four_digits(n);
    assert forall|i: int| 0 <= i < padded.len() implies '0' <= #[trigger] padded[i] <= '9' by {
        if digits.len() < 4 && i >= 4 - digits.len() {
            assert(padded[i] == digits[i - (4 - digits.len())]);
        }
    }
}

/// The files after two different numbers of rotations have two different paths, and so has the
/// first file.
pub proof fn rotated_paths_differ(path: Seq<u8>, rotation1: u64, rotation2: u64)
    ensures
        rotation1 != rotation2 ==> path_of_rotation(path, rotation1) != path_of_rotation(
            path,
            rotation2,
        ),
        path_of_rotation(path, rotation1) != path,
{
    let m = rotation1 as nat;
    let n = rotation2 as nat;
    lemma_four_digits(m);
    lemma_four_digits(n);
    reveal_strlit("capture");
    reveal_strlit("pcapng");
    assert(paths::plain("capture"@));
    assert(paths::plain("pcapng"@));
    paths::tags_change_the_path(path, four_digits(m), "capture"@, "pcapng"@);
    if m != n {
        text::decimals_read_back(m);
        text::decimals_read_back(n);
        let a = text::decimal(m);
        let b = text::decimal(n);
        if four_digits(m) == four_digits(n) {
            let all = four_digits(m);
            assert(a =~= all.skip(all.len() - a.len()));
            assert(b =~= all.skip(all.len() - b.len()));
            if a.len() < b.len() {
                assert(all[all.len() - b.len()] == b[0]);
                assert(all[all.len() - b.len()] == '0');
            } else if b.len() < a.len() {
                assert(all[all.len() - a.len()] == a[0]);
                assert(all[all.len() - a.len()] == '0');
            }
        }
        paths::tags_tell_paths_apart(
            path,
            four_digits(m),
            four_digits(n),
            "capture"@,
            "pcapng"@,
        );
    }
}

// ---------------------------------------------------------------------------------------------
// Laws over all writes
// ---------------------------------------------------------------------------------------------

/// A packet as it is written.
pub struct RawPacketView {
    pub timestamp_micros: u64,
    pub bytes: Seq<u8>,
    pub wire_length: usize,
}

impl RawPacketView {
    /// The block of the packet.
    pub open spec fn block(self) -> Seq<u8> {
        packet_block(self.timestamp_micros, self.bytes, self.wire_length)
    }
}

/// The writer after packets were written, one after another.
pub open spec fn writer_after(start: WriterView, packets: Seq<RawPacketView>) -> WriterView
    decreases packets.len(),
{
    if packets.len() == 0 {
        start
    } else {
        written(writer_after(start, packets.drop_last()), packets.last().bytes.len() as int)
    }
}

/// Every packet finds room for its counters.
pub open spec fn all_have_room(start: WriterView, packets: Seq<RawPacketView>) -> bool
    decreases packets.len(),
{
    packets.len() > 0 ==> all_have_room(start, packets.drop_last()) && has_room(
        writer_after(start, packets.drop_last()),
        packets.last().bytes.len() as int,
    )
}

/// A file: what it holds, and how many packets that is.
pub struct RawFileView {
    pub bytes: Seq<u8>,
    pub packets: nat,
}

/// The files after packets were written, by their paths. The first file starts with a header. A
/// packet that rotates creates a file with a header, in place of one with the same path; the block
/// of a packet is appended to the current file.
pub open spec fn files_after(start: WriterView, packets: Seq<RawPacketView>) -> Map<
    Seq<u8>,
    RawFileView,
>
    decreases packets.len(),
{
    if packets.len() == 0 {
        map![start.path => RawFileView { bytes: file_header(start.link_type), packets: 0 }]
    } else {
        let before = files_after(start, packets.drop_last());
        let writer = writer_after(start, packets.drop_last());
        let n = packets.last().bytes.len() as int;
        let opened = opened_for(writer, n);
        let file = if rotates(writer, n) {
            RawFileView { bytes: file_header(writer.link_type), packets: 0 }
        } else {
            before[opened.current_path]
        };
        before.insert(
            opened.current_path,
            RawFileView {
                bytes: file.bytes + packets.last().block(),
                packets: file.packets + 1,
            },
        )
    }
}

/// The paths of the files that exist after a number of rotations.
spec fn known_path(path: Seq<u8>, rotation: u64, candidate: Seq<u8>) -> bool {
    candidate == path || exists|r: u64|
        1 <= r <= rotation && candidate == #[trigger] path_of_rotation(path, r)
}

/// What holds of the files and the writer after every packet.
spec fn files_sound(start: WriterView, packets: Seq<RawPacketView>) -> bool {
    let files = files_after(start, packets);
    let writer = writer_after(start, packets);
    &&& writer.path == start.path && writer.rotate_bytes == start.rotate_bytes && writer.link_type
        == start.link_type
    &&& writer.packet_number == packets.len()
    &&& files.contains_key(writer.current_path)
    &&& files[writer.current_path].bytes.len() == writer.bytes_written
    &&& writer.bytes_written >= HEADER_LENGTH
    &&& forall|p: Seq<u8>| #[trigger]
        files.contains_key(p) ==> known_path(start.path, writer.rotation, p) && files[p].bytes.len()
            >= HEADER_LENGTH + 32 * files[p].packets && (files[p].packets >= 2
            ==> files[p].bytes.len() <= size_limit(start.rotate_bytes))
    &&& packets.len() == 0 ==> files[writer.current_path].packets == 0
}

proof fn lemma_fresh_path(path: Seq<u8>, rotation: u64, next: u64)
    requires
        next == rotation + 1,
    ensures
        !known_path(path, rotation, path_of_rotation(path, next)),
{
    rotated_paths_differ(path, next, next);
    assert forall|r: u64| 1 <= r <= rotation implies path_of_rotation(path, next)
        != #[trigger] path_of_rotation(path, r) by {
        rotated_paths_differ(path, next, r);
    }
}

proof fn lemma_files_sound(
    path: Seq<u8>,
    rotate_bytes: u64,
    link_type: u16,
    packets: Seq<RawPacketView>,
)
    requires
        all_have_room(new_writer(path, rotate_bytes, link_type), packets),
    ensures
        files_sound(new_writer(path, rotate_bytes, link_type), packets),
    decreases packets.len(),
{
    let start = new_writer(path, rotate_bytes, link_type);
    assert(file_header(link_type).len() == HEADER_LENGTH);
    if packets.len() > 0 {
        let front = packets.drop_last();
        lemma_files_sound(path, rotate_bytes, link_type, front);
        let before = files_after(start, front);
        let writer = writer_after(start, front);
        let last = packets.last();
        let n = last.bytes.len() as int;
        let opened = opened_for(writer, n);
        let after = files_after(start, packets);
        let done = writer_after(start, packets);
        blocks_state_their_length(last.timestamp_micros, last.bytes, last.wire_length);
        assert(last.block().len() == block_length(n));
        assert forall|p: Seq<u8>| known_path(path, writer.rotation, p) implies known_path(
            path,
            done.rotation,
            p,
        ) by {
            if p != path {
                let r = choose|r: u64|
                    1 <= r <= writer.rotation && p == #[trigger] path_of_rotation(path, r);
                assert(1 <= r <= done.rotation);
            }
        }
        if rotates(writer, n) {
            assert(done.current_path == path_of_rotation(path, done.rotation));
        }
        assert forall|p: Seq<u8>| #[trigger]
            after.contains_key(p) implies known_path(path, done.rotation, p) && after[p].bytes.len()
            >= HEADER_LENGTH + 32 * after[p].packets && (after[p].packets >= 2
            ==> after[p].bytes.len() <= size_limit(rotate_bytes)) by {
            if p == opened.current_path {
                if !rotates(writer, n) {
                    assert(before.contains_key(p));
                }
            } else {
                assert(before.contains_key(p));
            }
        }
    } else {
        assert forall|p: Seq<u8>| #[trigger]
            files_after(start, packets).contains_key(p) implies known_path(
            path,
            0,
            p,
        ) by {}
    }
}

/// Whatever packets a writer was given, a file with two packets or more is no longer than the
/// limit that the writer was made with.
pub proof fn files_stay_within_their_limit(
    path: Seq<u8>,
    rotate_bytes: u64,
    link_type: u16,
    packets: Seq<RawPacketView>,
    file: Seq<u8>,
)
    requires
        all_have_room(new_writer(path, rotate_bytes, link_type), packets),
        files_after(new_writer(path, rotate_bytes, link_type), packets).contains_key(file),
    ensures
        ({
            let found = files_after(new_writer(path, rotate_bytes, link_type), packets)[file];
            found.packets >= 2 ==> found.bytes.len() <= rotate_bytes
        }),
{
    lemma_files_sound(path, rotate_bytes, link_type, packets);
}

/// What was written stays: whatever packets follow, every file that was there is still there, and
/// starts with what it held.
pub proof fn written_files_only_grow(
    path: Seq<u8>,
    rotate_bytes: u64,
    link_type: u16,
    packets: Seq<RawPacketView>,
    count: int,
    file: Seq<u8>,
)
    requires
        all_have_room(new_writer(path, rotate_bytes, link_type), packets),
        0 <= count <= packets.len(),
        files_after(new_writer(path, rotate_bytes, link_type), packets.take(count)).contains_key(
            file,
        ),
    ensures
        ({
            let start = new_writer(path, rotate_bytes, link_type);
            let now = files_after(start, packets.take(count));
            let later = files_after(start, packets);
            later.contains_key(file) && wire::begins_with(later[file].bytes, now[file].bytes)
        }),
    decreases packets.len(),
{
    let start = new_writer(path, rotate_bytes, link_type);
    let now = files_after(start, packets.take(count))[file].bytes;
    if count == packets.len() {
        assert(packets.take(count) =~= packets);
        assert(now.take(now.len() as int) =~= now);
    } else {
        let front = packets.drop_last();
        assert(front.take(count) =~= packets.take(count));
        written_files_only_grow(path, rotate_bytes, link_type, front, count, file);
        lemma_files_sound(path, rotate_bytes, link_type, front);
        let before = files_after(start, front);
        let writer = writer_after(start, front);
        let n = packets.last().bytes.len() as int;
        let opened = opened_for(writer, n);
        if rotates(writer, n) {
            lemma_fresh_path(path, writer.rotation, opened.rotation);
            assert(known_path(path, writer.rotation, file));
            assert(file != opened.current_path);
        }
        let later = files_after(start, packets)[file].bytes;
        assert(later.take(now.len() as int) =~= before[file].bytes.take(now.len() as int));
    }
}

/// A reference names the file that the packet went to and the size that the file had before. The
/// block of the packet, of the kind for packets, starts there, and still does after whatever
/// packets follow.
pub proof fn references_lead_to_their_packet(
    path: Seq<u8>,
    rotate_bytes: u64,
    link_type: u16,
    packets: Seq<RawPacketView>,
    i: int,
)
    requires
        all_have_room(new_writer(path, rotate_bytes, link_type), packets),
        0 <= i < packets.len(),
    ensures
        ({
            let start = new_writer(path, rotate_bytes, link_type);
            let before = writer_after(start, packets.take(i));
            let n = packets[i].bytes.len() as int;
            let reference = reference_to(before, n);
            let file = opened_for(before, n).current_path;
            let later = files_after(start, packets)[file].bytes;
            let end = reference.offset + packets[i].block().len();
            &&& reference.file == outside::lossy(file)
            &&& rotates(before, n) ==> reference.offset == file_header(link_type).len()
            &&& !rotates(before, n) ==> reference.offset == files_after(
                start,
                packets.take(i),
            )[file].bytes.len()
            &&& files_after(start, packets).contains_key(file)
            &&& end <= later.len()
            &&& later.subrange(reference.offset as int, end) == packets[i].block()
            &&& packets[i].block().take(4) == wire::le32(6)
            &&& packets[i].block().subrange(28, 28 + n) == packets[i].bytes
        }),
{
    let start = new_writer(path, rotate_bytes, link_type);
    let front = packets.take(i);
    let through = packets.take(i + 1);
    let last = packets[i];
    let n = last.bytes.len() as int;
    lemma_room_of_prefix(start, packets, i);
    lemma_room_of_prefix(start, packets, i + 1);
    assert(through.drop_last() =~= front);
    assert(through.last() == last);
    lemma_files_sound(path, rotate_bytes, link_type, front);
    lemma_files_sound(path, rotate_bytes, link_type, through);
    let before = writer_after(start, front);
    let opened = opened_for(before, n);
    let file = opened.current_path;
    let held = files_after(start, through)[file].bytes;
    assert(file_header(link_type).len() == HEADER_LENGTH);
    blocks_state_their_length(last.timestamp_micros, last.bytes, last.wire_length);
    blocks_hold_the_packet(last.timestamp_micros, last.bytes, last.wire_length);
    let offset = opened.bytes_written as int;
    assert(held.subrange(offset, offset + last.block().len()) =~= last.block());
    written_files_only_grow(path, rotate_bytes, link_type, packets, i + 1, file);
    let later = files_after(start, packets)[file].bytes;
    assert(later.subrange(offset, offset + last.block().len()) =~= later.take(
        held.len() as int,
    ).subrange(offset, offset + last.block().len()));
    assert(last.block().take(4) =~= wire::le32(6));
}

proof fn lemma_room_of_prefix(start: WriterView, packets: Seq<RawPacketView>, count: int)
    requires
        all_have_room(start, packets),
        0 <= count <= packets.len(),
    ensures
        all_have_room(start, packets.take(count)),
    decreases packets.len(),
{
    if count == packets.len() {
        assert(packets.take(count) =~= packets);
    } else {
        let front = packets.drop_last();
        lemma_room_of_prefix(start, front, count);
        assert(front.take(count) =~= packets.take(count));
    }
}

} // verus!
