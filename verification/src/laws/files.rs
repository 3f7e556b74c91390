//! Promises about the files of raw packets: what they hold, and where they stand.
use crate::capture::pcapng;
use crate::capture::pcapng::WriterView;
use crate::capture::plan;
use crate::outside;
use crate::paths;
use crate::text;
use crate::wire;
use vstd::prelude::*;

verus! {

/// The number that four bytes make up, the lowest one first.
pub open spec fn number_at(bytes: Seq<u8>, p: int) -> int {
    bytes[p] + 256 * bytes[p + 1] + 0x1_0000 * bytes[p + 2] + 0x100_0000 * bytes[p + 3]
}

proof fn lemma_number(n: u32)
    ensures
        wire::le32(n).len() == 4,
        number_at(wire::le32(n), 0) == n,
{
}

/// One sequence holds another at a position.
#[verifier::opaque]
spec fn holds_at(bytes: Seq<u8>, p: int, part: Seq<u8>) -> bool {
    0 <= p && p + part.len() <= bytes.len() && forall|i: int|
        0 <= i < part.len() ==> bytes[p + i] == #[trigger] part[i]
}

proof fn lemma_number_at(bytes: Seq<u8>, p: int, n: u32)
    requires
        holds_at(bytes, p, wire::le32(n)),
    ensures
        number_at(bytes, p) == n,
{
    let part = wire::le32(n);
    lemma_number(n);
    reveal(holds_at);
    assert(bytes[p + 0] == part[0] && bytes[p + 1] == part[1] && bytes[p + 2] == part[2] && bytes[p
        + 3] == part[3]);
}

proof fn lemma_fields(timestamp_micros: u64, length: int, wire_length: int)
    ensures
        ({
            let fields = pcapng::packet_fields(timestamp_micros, length, wire_length);
            &&& fields.len() == 20
            &&& holds_at(fields, 0, wire::le32(0))
            &&& holds_at(fields, 4, wire::le32((timestamp_micros / 0x1_0000_0000) as u32))
            &&& holds_at(fields, 8, wire::le32((timestamp_micros % 0x1_0000_0000) as u32))
            &&& holds_at(fields, 12, wire::le32(length as u32))
            &&& holds_at(fields, 16, wire::le32((wire_length % 0x1_0000_0000) as u32))
        }),
{
    reveal(pcapng::packet_fields);
    reveal(holds_at);
}

proof fn lemma_framed(kind: u32, body: Seq<u8>)
    ensures
        ({
            let block = pcapng::framed(kind, body);
            let length = (12 + body.len()) as u32;
            &&& block.len() == 12 + body.len()
            &&& holds_at(block, 0, wire::le32(kind))
            &&& holds_at(block, 4, wire::le32(length))
            &&& holds_at(block, 8, body)
            &&& holds_at(block, 8 + body.len() as int, wire::le32(length))
        }),
{
    reveal(holds_at);
}

proof fn lemma_parts(front: Seq<u8>, back: Seq<u8>)
    ensures
        holds_at(front + back, 0, front),
        holds_at(front + back, front.len() as int, back),
{
    reveal(holds_at);
}

proof fn lemma_held(bytes: Seq<u8>, p: int, part: Seq<u8>)
    requires
        holds_at(bytes, p, part),
    ensures
        0 <= p,
        p + part.len() <= bytes.len(),
        bytes.subrange(p, p + part.len()) == part,
{
    reveal(holds_at);
    assert(bytes.subrange(p, p + part.len()) =~= part);
}

proof fn lemma_four(a: u32, b: u32, c: u32, d: u32)
    ensures
        ({
            let all = wire::le32(a) + wire::le32(b) + wire::le32(c) + wire::le32(d);
            &&& all.len() == 16
            &&& holds_at(all, 0, wire::le32(a))
            &&& holds_at(all, 4, wire::le32(b))
            &&& holds_at(all, 8, wire::le32(c))
            &&& holds_at(all, 12, wire::le32(d))
        }),
{
    reveal(holds_at);
}

proof fn lemma_within(bytes: Seq<u8>, p: int, middle: Seq<u8>, q: int, part: Seq<u8>)
    requires
        holds_at(bytes, p, middle),
        holds_at(middle, q, part),
    ensures
        holds_at(bytes, p + q, part),
{
    reveal(holds_at);
    assert forall|i: int| 0 <= i < part.len() implies bytes[p + q + i] == #[trigger] part[i] by {
        assert(middle[q + i] == part[i]);
        assert(bytes[p + (q + i)] == middle[q + i]);
    }
}

/// A block says that it holds a packet: its kind, its length, the first interface, the time in
/// microseconds in two halves, the higher one first, the length of the captured bytes and the
/// length on the wire; it holds these bytes and up to three zeros behind them, and says its length
/// again.
pub open spec fn is_packet_block(
    block: Seq<u8>,
    timestamp_micros: u64,
    bytes: Seq<u8>,
    wire_length: usize,
) -> bool {
    let n = bytes.len() as int;
    &&& 32 + n <= block.len() < 36 + n
    &&& block.len() % 4 == 0
    &&& number_at(block, 0) == 6
    &&& number_at(block, 4) == block.len()
    &&& number_at(block, 8) == 0
    &&& 0x1_0000_0000 * number_at(block, 12) + number_at(block, 16) == timestamp_micros
    &&& number_at(block, 20) == n
    &&& number_at(block, 24) == wire_length as int % 0x1_0000_0000
    &&& block.subrange(28, 28 + n) == bytes
    &&& forall|i: int| 28 + n <= i < block.len() - 4 ==> #[trigger] block[i] == 0
    &&& number_at(block, block.len() - 4) == block.len()
}

/// The block of a packet says that it holds the packet.
pub proof fn packets_are_written_as_blocks(
    timestamp_micros: u64,
    bytes: Seq<u8>,
    wire_length: usize,
)
    requires
        36 + bytes.len() <= u32::MAX,
    ensures
        is_packet_block(
            pcapng::packet_block(timestamp_micros, bytes, wire_length),
            timestamp_micros,
            bytes,
            wire_length,
        ),
{
    let n = bytes.len() as int;
    let fields = pcapng::packet_fields(timestamp_micros, n, wire_length as int);
    let zeros = pcapng::zeros(pcapng::padded(n) - n);
    let body = fields + bytes + zeros;
    lemma_fields(timestamp_micros, n, wire_length as int);
    lemma_framed(6, body);
    lemma_body(fields, bytes, zeros);
    assert(body == pcapng::packet_body(timestamp_micros, bytes, wire_length));
    lemma_written(
        pcapng::framed(6, body),
        body,
        fields,
        bytes,
        zeros,
        timestamp_micros,
        wire_length,
    );
}

proof fn lemma_written(
    block: Seq<u8>,
    body: Seq<u8>,
    fields: Seq<u8>,
    bytes: Seq<u8>,
    zeros: Seq<u8>,
    timestamp_micros: u64,
    wire_length: usize,
)
    requires
        36 + bytes.len() <= u32::MAX,
        block.len() == 12 + body.len(),
        body.len() == 20 + bytes.len() + zeros.len(),
        zeros == pcapng::zeros(pcapng::padded(bytes.len() as int) - bytes.len()),
        holds_at(block, 0, wire::le32(6)),
        holds_at(block, 4, wire::le32((12 + body.len()) as u32)),
        holds_at(block, 8, body),
        holds_at(block, 8 + body.len() as int, wire::le32((12 + body.len()) as u32)),
        holds_at(body, 0, fields),
        holds_at(body, 20, bytes),
        holds_at(body, 20 + bytes.len() as int, zeros),
        holds_at(fields, 0, wire::le32(0)),
        holds_at(fields, 4, wire::le32((timestamp_micros / 0x1_0000_0000) as u32)),
        holds_at(fields, 8, wire::le32((timestamp_micros % 0x1_0000_0000) as u32)),
        holds_at(fields, 12, wire::le32(bytes.len() as int as u32)),
        holds_at(fields, 16, wire::le32((wire_length as int % 0x1_0000_0000) as u32)),
    ensures
        is_packet_block(block, timestamp_micros, bytes, wire_length),
{
    let high = (timestamp_micros / 0x1_0000_0000) as u32;
    let low = (timestamp_micros % 0x1_0000_0000) as u32;
    let whole = (wire_length as int % 0x1_0000_0000) as u32;
    lemma_block(block, body, fields, bytes, zeros, high, low, bytes.len() as int as u32, whole);
}

proof fn lemma_body(fields: Seq<u8>, bytes: Seq<u8>, zeros: Seq<u8>)
    requires
        fields.len() == 20,
    ensures
        ({
            let body = fields + bytes + zeros;
            &&& body.len() == 20 + bytes.len() + zeros.len()
            &&& holds_at(body, 0, fields)
            &&& holds_at(body, 20, bytes)
            &&& holds_at(body, 20 + bytes.len() as int, zeros)
        }),
{
    reveal(holds_at);
}

proof fn lemma_block(
    block: Seq<u8>,
    body: Seq<u8>,
    fields: Seq<u8>,
    bytes: Seq<u8>,
    zeros: Seq<u8>,
    high: u32,
    low: u32,
    length: u32,
    whole: u32,
)
    requires
        block.len() == 12 + body.len(),
        block.len() <= u32::MAX,
        body.len() == 20 + bytes.len() + zeros.len(),
        forall|i: int| 0 <= i < zeros.len() ==> #[trigger] zeros[i] == 0,
        holds_at(block, 0, wire::le32(6)),
        holds_at(block, 4, wire::le32(block.len() as u32)),
        holds_at(block, 8, body),
        holds_at(block, 8 + body.len() as int, wire::le32(block.len() as u32)),
        holds_at(body, 0, fields),
        holds_at(body, 20, bytes),
        holds_at(body, 20 + bytes.len() as int, zeros),
        holds_at(fields, 0, wire::le32(0)),
        holds_at(fields, 4, wire::le32(high)),
        holds_at(fields, 8, wire::le32(low)),
        holds_at(fields, 12, wire::le32(length)),
        holds_at(fields, 16, wire::le32(whole)),
    ensures
        number_at(block, 0) == 6,
        number_at(block, 4) == block.len(),
        number_at(block, 8) == 0,
        number_at(block, 12) == high,
        number_at(block, 16) == low,
        number_at(block, 20) == length,
        number_at(block, 24) == whole,
        block.subrange(28, 28 + bytes.len() as int) == bytes,
        forall|i: int| 28 + bytes.len() <= i < block.len() - 4 ==> #[trigger] block[i] == 0,
        number_at(block, block.len() - 4) == block.len(),
{
    let n = bytes.len() as int;
    lemma_within(block, 8, body, 0, fields);
    lemma_within(block, 8, fields, 0, wire::le32(0));
    lemma_within(block, 8, fields, 4, wire::le32(high));
    lemma_within(block, 8, fields, 8, wire::le32(low));
    lemma_within(block, 8, fields, 12, wire::le32(length));
    lemma_within(block, 8, fields, 16, wire::le32(whole));
    lemma_number_at(block, 0, 6);
    lemma_number_at(block, 4, block.len() as u32);
    lemma_number_at(block, 8, 0);
    lemma_number_at(block, 12, high);
    lemma_number_at(block, 16, low);
    lemma_number_at(block, 20, length);
    lemma_number_at(block, 24, whole);
    lemma_number_at(block, block.len() - 4, block.len() as u32);
    lemma_within(block, 8, body, 20, bytes);
    lemma_held(block, 28, bytes);
    lemma_within(block, 8, body, 20 + n, zeros);
    lemma_held(block, 28 + n, zeros);
    assert forall|i: int| 28 + n <= i < block.len() - 4 implies #[trigger] block[i] == 0 by {
        assert(block.subrange(28 + n, 28 + n + zeros.len())[i - 28 - n] == block[i]);
        assert(zeros[i - 28 - n] == 0);
    }
}

/// A file starts with forty-eight bytes: a section header of the first version, for numbers with
/// their lowest byte first and of unknown length, and the description of one interface with the
/// given link type and at most 65535 bytes for each packet.
pub proof fn files_start_with_their_header(link_type: u16)
    ensures
        ({
            let header = pcapng::file_header(link_type);
            &&& header.len() == 48
            &&& pcapng::HEADER_LENGTH == 48
            &&& number_at(header, 0) == 0x0a0d_0d0a
            &&& number_at(header, 4) == 28
            &&& number_at(header, 8) == 0x1a2b_3c4d
            &&& number_at(header, 12) == 1
            &&& number_at(header, 16) == 0xffff_ffff
            &&& number_at(header, 20) == 0xffff_ffff
            &&& number_at(header, 24) == 28
            &&& number_at(header, 28) == 1
            &&& number_at(header, 32) == 20
            &&& number_at(header, 36) == link_type
            &&& number_at(header, 40) == 65535
            &&& number_at(header, 44) == 20
        }),
{
    let one = wire::le32(0x1a2b_3c4d) + wire::le32(1) + wire::le32(0xffff_ffff) + wire::le32(
        0xffff_ffff,
    );
    let two = wire::le32(link_type as u32) + wire::le32(0xffff);
    let first = pcapng::framed(0x0a0d_0d0a, one);
    let second = pcapng::framed(1, two);
    let header = pcapng::file_header(link_type);
    lemma_framed(0x0a0d_0d0a, one);
    lemma_framed(1, two);
    lemma_parts(first, second);
    lemma_four(0x1a2b_3c4d, 1, 0xffff_ffff, 0xffff_ffff);
    lemma_number(link_type as u32);
    lemma_number(0xffff);
    lemma_parts(wire::le32(link_type as u32), wire::le32(0xffff));
    lemma_within(header, 0, first, 0, wire::le32(0x0a0d_0d0a));
    lemma_within(header, 0, first, 4, wire::le32(28));
    lemma_within(header, 0, first, 8, one);
    lemma_within(header, 0, first, 24, wire::le32(28));
    lemma_within(header, 8, one, 0, wire::le32(0x1a2b_3c4d));
    lemma_within(header, 8, one, 4, wire::le32(1));
    lemma_within(header, 8, one, 8, wire::le32(0xffff_ffff));
    lemma_within(header, 8, one, 12, wire::le32(0xffff_ffff));
    lemma_within(header, 28, second, 0, wire::le32(1));
    lemma_within(header, 28, second, 4, wire::le32(20));
    lemma_within(header, 28, second, 8, two);
    lemma_within(header, 28, second, 16, wire::le32(20));
    lemma_within(header, 36, two, 0, wire::le32(link_type as u32));
    lemma_within(header, 36, two, 4, wire::le32(0xffff));
    lemma_number_at(header, 0, 0x0a0d_0d0a);
    lemma_number_at(header, 4, 28);
    lemma_number_at(header, 8, 0x1a2b_3c4d);
    lemma_number_at(header, 12, 1);
    lemma_number_at(header, 16, 0xffff_ffff);
    lemma_number_at(header, 20, 0xffff_ffff);
    lemma_number_at(header, 24, 28);
    lemma_number_at(header, 28, 1);
    lemma_number_at(header, 32, 20);
    lemma_number_at(header, 36, link_type as u32);
    lemma_number_at(header, 40, 0xffff);
    lemma_number_at(header, 44, 20);
}

/// A packet is appended to the current file, unless one was written before and the file would grow
/// past its limit, which is at least the length of a header: then a new file is begun for it,
/// whose name holds the next number. The reference to the packet names the file, where in it the
/// block starts, and the number of the packet among all.
pub proof fn packets_are_appended_or_begin_a_file(writer: WriterView, n: int)
    requires
        0 <= n,
        36 + n <= u32::MAX,
        writer.bytes_written + 36 + n <= u64::MAX,
        writer.packet_number < u64::MAX,
        writer.rotation < u64::MAX,
    ensures
        ({
            let block = 32 + 4 * ((n + 3) / 4);
            let limit = if writer.rotate_bytes > 48 {
                writer.rotate_bytes as int
            } else {
                48
            };
            let full = writer.packet_number > 0 && writer.bytes_written + block > limit;
            let after = pcapng::written(writer, n);
            let reference = pcapng::reference_to(writer, n);
            &&& after.path == writer.path
            &&& after.rotate_bytes == writer.rotate_bytes
            &&& after.link_type == writer.link_type
            &&& after.packet_number == writer.packet_number + 1
            &&& full ==> {
                &&& after.rotation == writer.rotation + 1
                &&& after.current_path == pcapng::path_of_rotation(
                    writer.path,
                    (writer.rotation + 1) as u64,
                )
                &&& after.bytes_written == 48 + block
                &&& reference.offset == 48
            }
            &&& !full ==> {
                &&& after.rotation == writer.rotation
                &&& after.current_path == writer.current_path
                &&& after.bytes_written == writer.bytes_written + block
                &&& reference.offset == writer.bytes_written
            }
            &&& reference.file == outside::lossy(after.current_path)
            &&& reference.packet_id == outside::lossy(after.current_path) + seq!['-']
                + text::decimal(after.packet_number as nat)
            &&& pcapng::rotates(writer, n) == full
        }),
{
    reveal_strlit("-");
    assert("-"@ =~= seq!['-']);
}

/// A writer starts with the header in the file that it was made for.
pub proof fn writers_start_with_a_header(path: Seq<u8>, rotate_bytes: u64, link_type: u16)
    ensures
        ({
            let writer = pcapng::new_writer(path, rotate_bytes, link_type);
            &&& writer.path == path
            &&& writer.current_path == path
            &&& writer.rotate_bytes == rotate_bytes
            &&& writer.link_type == link_type
            &&& writer.bytes_written == 48
            &&& writer.packet_number == 0
            &&& writer.rotation == 0
        }),
{
}

/// A number of mebibytes is that many times 1048576 bytes, or the greatest number that can be
/// counted where that is more.
pub proof fn mebibytes_are_counted(mebibytes: u64)
    ensures
        1048576 * mebibytes <= u64::MAX ==> pcapng::bytes_of_mebibytes(mebibytes) == 1048576
            * mebibytes,
        1048576 * mebibytes > u64::MAX ==> pcapng::bytes_of_mebibytes(mebibytes) == u64::MAX,
{
}

/// The number of a file is written in decimal, with zeros before it up to four digits.
pub proof fn file_numbers_have_four_digits(rotation: u64)
    ensures
        ({
            let digits = text::decimal(rotation as nat);
            let written = pcapng::four_digits(rotation as nat);
            &&& digits.len() >= 4 ==> written == digits
            &&& digits.len() < 4 ==> written.len() == 4
            &&& written.len() >= digits.len()
            &&& written.skip(written.len() - digits.len()) == digits
            &&& forall|i: int| 0 <= i < written.len() - digits.len() ==> #[trigger] written[i] == '0'
        }),
{
    let digits = text::decimal(rotation as nat);
    let written = pcapng::four_digits(rotation as nat);
    assert(written.skip(written.len() - digits.len()) =~= digits);
}

/// In the name of an interface each character that is no ASCII letter or digit is replaced by an
/// underscore.
pub proof fn interface_names_are_made_safe(interface: Seq<char>)
    ensures
        pcapng::safe_name(interface).len() == interface.len(),
        forall|i: int|
            0 <= i < interface.len() ==> {
                let code = interface[i] as int;
                let plain = 48 <= code <= 57 || 65 <= code <= 90 || 97 <= code <= 122;
                &&& plain ==> #[trigger] pcapng::safe_name(interface)[i] == interface[i]
                &&& !plain ==> pcapng::safe_name(interface)[i] == '_'
            },
{
}

/// The packets of a single interface go to the given path, and those of one among several to the
/// path with the name of the interface put in.
pub proof fn interfaces_have_their_files(
    path: Seq<u8>,
    size: u64,
    interface: Seq<char>,
)
    ensures
        pcapng::path_of_interface(path, interface, false) == path,
        pcapng::path_of_interface(path, interface, true) == paths::tagged(
            path,
            pcapng::safe_name(interface),
            "capture"@,
            "pcapng"@,
        ),
        plan::interface_options(None, interface, true) is None,
        plan::interface_options(None, interface, false) is None,
        plan::interface_options(Some((path, size)), interface, false) == Some((path, size)),
        plan::interface_options(Some((path, size)), interface, true) == Some(
            (pcapng::path_of_interface(path, interface, true), size),
        ),
{
}

proof fn lemma_behind_last(front: Seq<u8>, b: u8, back: Seq<u8>)
    requires
        !back.contains(b),
    ensures
        paths::behind_last(front.push(b) + back, b) == front.len() + 1,
        paths::behind_last(back, b) == 0,
    decreases back.len(),
{
    let s = front.push(b) + back;
    if back.len() > 0 {
        let rest = back.drop_last();
        assert(back.contains(back.last()));
        assert forall|i: int| 0 <= i < rest.len() implies rest[i] != b by {
            assert(back.contains(back[i]));
        }
        lemma_behind_last(front, b, rest);
        assert(s.drop_last() =~= front.push(b) + rest);
        assert(s.last() == back.last());
    } else {
        assert(s =~= front.push(b));
    }
}

/// A path that holds a directory and a file name with an extension is tagged before the extension:
/// `directory/stem.extension` becomes `directory/stem.tag.extension`.
pub proof fn tags_stand_before_the_extension(
    directory: Seq<u8>,
    stem: Seq<u8>,
    extension: Seq<u8>,
    tag: Seq<char>,
    default_stem: Seq<char>,
    default_extension: Seq<char>,
)
    requires
        directory.len() > 0,
        directory.last() != 47,
        directory.last() != 46,
        stem.len() > 0,
        !stem.contains(47),
        vstd::utf8::valid_utf8(stem),
        extension.len() > 0,
        !extension.contains(47),
        !extension.contains(46),
        vstd::utf8::valid_utf8(extension),
    ensures
        paths::tagged(
            directory + seq![47u8] + stem + seq![46u8] + extension,
            tag,
            default_stem,
            default_extension,
        ) == directory + seq![47u8] + stem + seq![46u8] + vstd::utf8::encode_utf8(tag) + seq![46u8]
            + extension,
{
    let path = directory + seq![47u8] + stem + seq![46u8] + extension;
    let name = stem + seq![46u8] + extension;
    assert(extension.contains(extension.last()));
    assert(path.last() == extension.last());
    assert(!paths::idle_tail(path));
    assert(paths::trimmed(path) == path);
    assert forall|i: int| 0 <= i < name.len() implies name[i] != 47 by {
        if i < stem.len() {
            assert(stem.contains(stem[i]));
        } else if i > stem.len() {
            assert(extension.contains(extension[i - stem.len() - 1]));
        }
    }
    assert(path =~= directory.push(47) + name);
    lemma_behind_last(directory, 47, name);
    let cut = directory.len() + 1;
    assert(paths::behind_last(path, 47) == cut);
    assert(path.skip(cut as int) =~= name);
    assert(name.len() >= 3);
    assert(name != seq![46u8] && name != seq![46u8, 46u8]);
    assert(paths::file_name(path) == Some(name));
    let parent = path.take(cut as int);
    assert(parent =~= directory.push(47));
    assert(paths::idle_tail(parent)) by {
        assert(parent.last() == 47);
    }
    assert(parent.drop_last() =~= directory);
    assert(!paths::idle_tail(directory));
    assert(paths::trimmed(directory) == directory);
    assert(paths::trimmed(parent) == directory);
    assert(paths::directory(path) == directory);
    assert(name =~= stem.push(46) + extension);
    lemma_behind_last(stem, 46, extension);
    assert(paths::extension_start(name) == Some(stem.len() + 1int));
    assert(name.take(stem.len() as int) =~= stem);
    assert(name.skip(stem.len() + 1int) =~= extension);
    let word = vstd::utf8::encode_utf8(tag);
    let tagged = paths::tagged_name(path, tag, default_stem, default_extension);
    assert(tagged =~= stem.push(46) + word.push(46) + extension);
    assert(tagged[0] == stem[0]);
    assert(stem.contains(stem[0]));
    assert(directory.push(47) + tagged =~= directory + seq![47u8] + stem + seq![46u8] + word + seq![
        46u8,
    ] + extension);
}

/// A name below a directory stands behind it with a separator between them; an absolute path
/// stands for itself, and below the empty path a name stands alone.
pub proof fn names_stand_below_their_directory(directory: Seq<u8>, name: Seq<u8>)
    ensures
        name.len() > 0 && name[0] == 47 ==> paths::joined(directory, name) == name,
        !(name.len() > 0 && name[0] == 47) && directory.len() > 0 && directory.last() != 47
            ==> paths::joined(directory, name) == directory + seq![47u8] + name,
        !(name.len() > 0 && name[0] == 47) && (directory.len() == 0 || directory.last() == 47)
            ==> paths::joined(directory, name) == directory + name,
{
    assert(directory.push(47) + name =~= directory + seq![47u8] + name);
}

/// A path that is a file name alone is tagged before its extension; without an extension it gets
/// the default one behind the tag.
pub proof fn plain_names_are_tagged(
    stem: Seq<u8>,
    extension: Seq<u8>,
    tag: Seq<char>,
    default_stem: Seq<char>,
    default_extension: Seq<char>,
)
    requires
        stem.len() > 0,
        stem[0] != 46,
        !stem.contains(47),
        vstd::utf8::valid_utf8(stem),
        extension.len() > 0,
        !extension.contains(47),
        !extension.contains(46),
        vstd::utf8::valid_utf8(extension),
    ensures
        paths::tagged(stem + seq![46u8] + extension, tag, default_stem, default_extension) == stem
            + seq![46u8] + vstd::utf8::encode_utf8(tag) + seq![46u8] + extension,
        !stem.contains(46) ==> paths::tagged(stem, tag, default_stem, default_extension) == stem
            + seq![46u8] + vstd::utf8::encode_utf8(tag) + seq![46u8] + vstd::utf8::encode_utf8(
            default_extension,
        ),
{
    let word = vstd::utf8::encode_utf8(tag);
    let rest = vstd::utf8::encode_utf8(default_extension);
    let name = stem + seq![46u8] + extension;
    assert(name =~= stem.push(46) + extension);
    assert(stem.contains(stem[0]));
    assert(stem.contains(stem.last()));
    assert(extension.contains(extension.last()));
    assert forall|i: int| 0 <= i < name.len() implies name[i] != 47 by {
        if i < stem.len() {
            assert(stem.contains(stem[i]));
        } else if i > stem.len() {
            assert(extension.contains(extension[i - stem.len() - 1]));
        }
    }
    lemma_plain(name);
    lemma_behind_last(stem, 46, extension);
    assert(name[0] == stem[0]);
    assert(name.take(stem.len() as int) =~= stem);
    assert(name.skip(stem.len() + 1int) =~= extension);
    let tagged = paths::tagged_name(name, tag, default_stem, default_extension);
    assert(tagged =~= stem.push(46) + word.push(46) + extension);
    assert(tagged[0] == stem[0]);
    assert(Seq::<u8>::empty() + tagged =~= stem + seq![46u8] + word + seq![46u8] + extension);
    if !stem.contains(46) {
        lemma_plain(stem);
        lemma_behind_last(Seq::empty(), 46, stem);
        let bare = paths::tagged_name(stem, tag, default_stem, default_extension);
        assert(bare =~= stem.push(46) + word.push(46) + rest);
        assert(bare[0] == stem[0]);
        assert(Seq::<u8>::empty() + bare =~= stem + seq![46u8] + word + seq![46u8] + rest);
    }
}

proof fn lemma_plain(name: Seq<u8>)
    requires
        name.len() > 0,
        name[0] != 46,
        forall|i: int| 0 <= i < name.len() ==> name[i] != 47,
    ensures
        paths::file_name(name) == Some(name),
        paths::directory(name) == Seq::<u8>::empty(),
{
    assert(!name.contains(47));
    lemma_behind_last(Seq::empty(), 47, name);
    assert(name.last() != 47);
    assert(!paths::idle_tail(name)) by {
        if name.len() >= 2 {
            assert(name[name.len() - 2] != 47);
        }
    }
    assert(paths::trimmed(name) == name);
    assert(name.skip(0) =~= name);
    assert(name != seq![46u8] && name != seq![46u8, 46u8]);
    assert(name.take(0) =~= Seq::<u8>::empty());
}

/// Separators at the end of a path, and dots that are whole components there, mean nothing.
pub proof fn idle_ends_mean_nothing(
    path: Seq<u8>,
    tag: Seq<char>,
    default_stem: Seq<char>,
    default_extension: Seq<char>,
)
    requires
        path.len() > 0,
        paths::file_name(path) is Some,
    ensures
        paths::tagged(path.push(47), tag, default_stem, default_extension) == paths::tagged(
            path,
            tag,
            default_stem,
            default_extension,
        ),
        paths::tagged(path.push(47).push(46), tag, default_stem, default_extension)
            == paths::tagged(path, tag, default_stem, default_extension),
{
    let longer = path.push(47);
    assert(longer.drop_last() =~= path);
    assert(paths::idle_tail(longer));
    assert(paths::trimmed(longer) == paths::trimmed(path));
    let longest = longer.push(46);
    assert(longest.drop_last() =~= longer);
    assert(longest[longest.len() - 2] == 47);
    assert(paths::idle_tail(longest));
    assert(paths::trimmed(longest) == paths::trimmed(longer));
}

/// A file in the root stays there when it is tagged, and so does one in the current directory that
/// is named by a dot.
pub proof fn files_stay_in_their_directory(
    dotted: bool,
    stem: Seq<u8>,
    extension: Seq<u8>,
    tag: Seq<char>,
    default_stem: Seq<char>,
    default_extension: Seq<char>,
)
    requires
        stem.len() > 0,
        stem[0] != 46,
        !stem.contains(47),
        vstd::utf8::valid_utf8(stem),
        extension.len() > 0,
        !extension.contains(47),
        !extension.contains(46),
        vstd::utf8::valid_utf8(extension),
    ensures
        ({
            let place = if dotted {
                seq![46u8, 47u8]
            } else {
                seq![47u8]
            };
            paths::tagged(
                place + stem + seq![46u8] + extension,
                tag,
                default_stem,
                default_extension,
            ) == place + stem + seq![46u8] + vstd::utf8::encode_utf8(tag) + seq![46u8] + extension
        }),
{
    let word = vstd::utf8::encode_utf8(tag);
    let place = if dotted {
        seq![46u8, 47u8]
    } else {
        seq![47u8]
    };
    let front = if dotted {
        seq![46u8]
    } else {
        Seq::empty()
    };
    let name = stem + seq![46u8] + extension;
    let path = place + stem + seq![46u8] + extension;
    assert(place =~= front.push(47));
    assert(path =~= front.push(47) + name);
    assert(name =~= stem.push(46) + extension);
    assert(extension.contains(extension.last()));
    assert(stem.contains(stem[0]));
    assert(path.last() == extension.last());
    assert(!paths::idle_tail(path));
    assert(paths::trimmed(path) == path);
    assert forall|i: int| 0 <= i < name.len() implies name[i] != 47 by {
        if i < stem.len() {
            assert(stem.contains(stem[i]));
        } else if i > stem.len() {
            assert(extension.contains(extension[i - stem.len() - 1]));
        }
    }
    lemma_behind_last(front, 47, name);
    assert(path.skip(front.len() + 1int) =~= name);
    assert(name[0] == stem[0]);
    assert(name != seq![46u8] && name != seq![46u8, 46u8]);
    assert(paths::file_name(path) == Some(name));
    let parent = path.take(front.len() + 1int);
    assert(parent =~= place);
    let kept = if dotted {
        seq![46u8]
    } else {
        seq![47u8]
    };
    assert(paths::trimmed(place) == kept) by {
        if dotted {
            assert(paths::idle_tail(place));
            assert(place.drop_last() =~= kept);
            assert(!paths::idle_tail(kept));
            assert(paths::trimmed(kept) == kept);
        } else {
            assert(!paths::idle_tail(place));
        }
    }
    assert(paths::directory(path) == kept);
    lemma_behind_last(stem, 46, extension);
    assert(name.take(stem.len() as int) =~= stem);
    assert(name.skip(stem.len() + 1int) =~= extension);
    let tagged = paths::tagged_name(path, tag, default_stem, default_extension);
    assert(tagged =~= stem.push(46) + word.push(46) + extension);
    assert(tagged[0] == stem[0]);
    let whole = place + stem + seq![46u8] + word + seq![46u8] + extension;
    if dotted {
        assert(kept.push(47) + tagged =~= whole);
    } else {
        assert(kept + tagged =~= whole);
    }
}

} // verus!
