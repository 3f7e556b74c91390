//! IP addresses and their text forms.
use crate::text;
use crate::wire;
use vstd::prelude::*;
use vstd::string::StringExecFns;

verus! {

/// An IP address: the four octets of an IPv4 address or the eight segments of an IPv6 address.
#[derive(Debug, Clone, Copy, PartialEq, Eq, Structural)]
pub enum IpAddr {
    V4(u8, u8, u8, u8),
    V6(u16, u16, u16, u16, u16, u16, u16, u16),
}

// ---------------------------------------------------------------------------------------------
// Writing
// ---------------------------------------------------------------------------------------------

/// A number in lower-case hexadecimal, without leading zeros.
pub open spec fn hexadecimal(n: nat) -> Seq<char>
    decreases n,
{
    if n < 16 {
        seq![text::digit_char(n)]
    } else {
        hexadecimal(n / 16).push(text::digit_char(n % 16))
    }
}

/// An IPv4 address in dotted decimal.
pub open spec fn ipv4_text(a: u8, b: u8, c: u8, d: u8) -> Seq<char> {
    text::decimal(a as nat).push('.') + text::decimal(b as nat).push('.') + text::decimal(
        c as nat,
    ).push('.') + text::decimal(d as nat)
}

/// Segments in hexadecimal, with colons between them.
pub open spec fn group_text(segments: Seq<u16>) -> Seq<char>
    decreases segments.len(),
{
    if segments.len() == 0 {
        Seq::empty()
    } else if segments.len() == 1 {
        hexadecimal(segments[0] as nat)
    } else {
        group_text(segments.drop_last()).push(':') + hexadecimal(segments.last() as nat)
    }
}

/// How many zero segments stand in a row from a position on.
pub open spec fn zero_run(segments: Seq<u16>, i: int) -> nat
    decreases segments.len() - i,
{
    if 0 <= i < segments.len() && segments[i] == 0 {
        1 + zero_run(segments, i + 1)
    } else {
        0
    }
}

/// The first of the longest rows of zeros among those that start before `limit`: where it starts
/// and how long it is.
pub open spec fn longest_run(segments: Seq<u16>, limit: nat) -> (int, nat)
    decreases limit,
{
    if limit == 0 {
        (0, 0)
    } else {
        let best = longest_run(segments, (limit - 1) as nat);
        if zero_run(segments, limit - 1) > best.1 {
            (limit - 1, zero_run(segments, limit - 1))
        } else {
            best
        }
    }
}

/// The address is an IPv4 address mapped into IPv6.
pub open spec fn is_mapped(segments: Seq<u16>) -> bool {
    &&& segments.len() == 8
    &&& forall|i: int| 0 <= i < 5 ==> segments[i] == 0
    &&& segments[5] == 0xffff
}

/// An IPv6 address as text: a mapped IPv4 address in dotted decimal behind `::ffff:`; otherwise
/// the first of the longest rows of two or more zero segments is written `::`.
pub open spec fn ipv6_text(segments: Seq<u16>) -> Seq<char> {
    if is_mapped(segments) {
        seq![':', ':', 'f', 'f', 'f', 'f', ':'] + ipv4_text(
            (segments[6] / 256) as u8,
            (segments[6] % 256) as u8,
            (segments[7] / 256) as u8,
            (segments[7] % 256) as u8,
        )
    } else {
        let (start, length) = longest_run(segments, segments.len());
        if length > 1 {
            group_text(segments.take(start)) + seq![':', ':'] + group_text(
                segments.skip(start + length),
            )
        } else {
            group_text(segments)
        }
    }
}

impl IpAddr {
    /// The segments of an IPv6 address.
    pub open spec fn segments(self) -> Seq<u16> {
        match self {
            IpAddr::V4(..) => Seq::empty(),
            IpAddr::V6(a, b, c, d, e, f, g, h) => seq![a, b, c, d, e, f, g, h],
        }
    }

    /// The text form of an address.
    pub open spec fn spec_text(self) -> Seq<char> {
        match self {
            IpAddr::V4(a, b, c, d) => ipv4_text(a, b, c, d),
            IpAddr::V6(..) => ipv6_text(self.segments()),
        }
    }
}

/// Appends a number in hexadecimal.
fn push_hexadecimal(out: &mut String, n: u16)
    ensures
        final(out)@ == old(out)@ + hexadecimal(n as nat),
    decreases n,
{
    if n < 16 {
        out.push(text::char_of_digit(n as u8));
    } else {
        push_hexadecimal(out, n / 16);
        out.push(text::char_of_digit((n % 16) as u8));
    }
    assert(out@ =~= old(out)@ + hexadecimal(n as nat));
}

/// Appends segments with colons between them.
fn push_groups(out: &mut String, segments: &[u16])
    ensures
        final(out)@ == old(out)@ + group_text(segments@),
{
    let mut i: usize = 0;
    let ghost start = out@;
    assert(segments@.take(0) =~= Seq::empty());
    while i < segments.len()
        invariant
            i <= segments@.len(),
            out@ =~= start + group_text(segments@.take(i as int)),
        decreases segments@.len() - i,
    {
        if i > 0 {
            out.push(':');
        }
        push_hexadecimal(out, segments[i]);
        assert(segments@.take(i + 1).drop_last() =~= segments@.take(i as int));
        i += 1;
    }
    assert(segments@.take(i as int) =~= segments@);
}

/// Writes an IPv4 address.
pub fn format_ipv4(a: u8, b: u8, c: u8, d: u8) -> (r: String)
    ensures
        r@ == ipv4_text(a, b, c, d),
{
    let mut r = String::new();
    text::push_decimal(&mut r, a as u128);
    r.push('.');
    text::push_decimal(&mut r, b as u128);
    r.push('.');
    text::push_decimal(&mut r, c as u128);
    r.push('.');
    text::push_decimal(&mut r, d as u128);
    assert(r@ =~= ipv4_text(a, b, c, d));
    r
}

proof fn lemma_zero_run_bound(segments: Seq<u16>, i: int)
    requires
        0 <= i <= segments.len(),
    ensures
        zero_run(segments, i) <= segments.len() - i,
    decreases segments.len() - i,
{
    if i < segments.len() {
        lemma_zero_run_bound(segments, i + 1);
    }
}

/// Counts the zero segments from a position on.
fn count_zeros(segments: &[u16], i: usize) -> (r: usize)
    requires
        i <= segments@.len(),
    ensures
        r == zero_run(segments@, i as int),
        i + r <= segments@.len(),
    decreases segments@.len() - i,
{
    proof {
        lemma_zero_run_bound(segments@, i as int);
    }
    if i < segments.len() && segments[i] == 0 {
        1 + count_zeros(segments, i + 1)
    } else {
        0
    }
}

/// Writes an IPv6 address.
pub fn format_ipv6(segments: &[u16]) -> (r: String)
    requires
        segments@.len() == 8,
    ensures
        r@ == ipv6_text(segments@),
{
    let mut r = String::new();
    if segments[0] == 0 && segments[1] == 0 && segments[2] == 0 && segments[3] == 0 && segments[4]
        == 0 && segments[5] == 0xffff {
        assert(is_mapped(segments@));
        r.push(':');
        r.push(':');
        r.push('f');
        r.push('f');
        r.push('f');
        r.push('f');
        r.push(':');
        let four = format_ipv4(
            (segments[6] / 256) as u8,
            (segments[6] % 256) as u8,
            (segments[7] / 256) as u8,
            (segments[7] % 256) as u8,
        );
        r.append(four.as_str());
        assert(r@ =~= ipv6_text(segments@));
        return r;
    }
    assert(!is_mapped(segments@));
    let mut start: usize = 0;
    let mut length: usize = 0;
    let mut i: usize = 0;
    while i < 8
        invariant
            segments@.len() == 8,
            i <= 8,
            start + length <= 8,
            longest_run(segments@, i as nat) == (start as int, length as nat),
        decreases 8 - i,
    {
        let zeros: usize = count_zeros(segments, i);
        if zeros > length {
            start = i;
            length = zeros;
        }
        i += 1;
    }
    if length > 1 {
        push_groups(&mut r, vstd::slice::slice_subrange(segments, 0, start));
        r.push(':');
        r.push(':');
        push_groups(&mut r, vstd::slice::slice_subrange(segments, start + length, 8));
        assert(segments@.subrange(0, start as int) =~= segments@.take(start as int));
        assert(segments@.subrange(start + length, 8) =~= segments@.skip(start + length));
    } else {
        push_groups(&mut r, segments);
    }
    assert(r@ =~= ipv6_text(segments@));
    r
}

impl IpAddr {
    /// Writes an address.
    pub fn to_text(&self) -> (r: String)
        ensures
            r@ == self.spec_text(),
    {
        match self {
            IpAddr::V4(a, b, c, d) => format_ipv4(*a, *b, *c, *d),
            IpAddr::V6(a, b, c, d, e, f, g, h) => {
                let segments: [u16; 8] = [*a, *b, *c, *d, *e, *f, *g, *h];
                assert(segments@ =~= self.segments());
                format_ipv6(&segments)
            },
        }
    }
}

// ---------------------------------------------------------------------------------------------
// Packets
// ---------------------------------------------------------------------------------------------

/// The eight segments of the IPv6 address at a position.
pub open spec fn segments_at(bytes: Seq<u8>, p: int) -> Seq<u16> {
    Seq::new(8, |i: int| wire::be16(bytes, p + 2 * i))
}

/// Reads the eight segments of the IPv6 address at a position.
pub fn read_segments(bytes: &[u8], p: usize) -> (r: [u16; 8])
    requires
        p + 16 <= bytes@.len(),
    ensures
        r@ == segments_at(bytes@, p as int),
{
    let size: usize = bytes.len();
    assert(p + 16 <= size);
    let segments: [u16; 8] = [
        wire::read_be16(bytes, p),
        wire::read_be16(bytes, p + 2),
        wire::read_be16(bytes, p + 4),
        wire::read_be16(bytes, p + 6),
        wire::read_be16(bytes, p + 8),
        wire::read_be16(bytes, p + 10),
        wire::read_be16(bytes, p + 12),
        wire::read_be16(bytes, p + 14),
    ];
    assert(segments@ =~= segments_at(bytes@, p as int));
    segments
}

// ---------------------------------------------------------------------------------------------
// Reading
// ---------------------------------------------------------------------------------------------

/// The value of one decimal octet: one to three digits, no leading zero, at most 255.
pub open spec fn octet_value(s: Seq<char>) -> Option<u8> {
    match text::digits_value(s, 10) {
        Some(n) => if 1 <= s.len() <= 3 && (s.len() > 1 ==> s[0] != '0') && n <= 255 {
            Some(n as u8)
        } else {
            None
        },
        None => None,
    }
}

/// The address in dotted decimal, four octets with a dot between them.
pub open spec fn ipv4_value(s: Seq<char>) -> Option<(u8, u8, u8, u8)> {
    let parts = text::split(s, '.');
    if parts.len() != 4 {
        None
    } else {
        match (octet_value(parts[0]), octet_value(parts[1]), octet_value(parts[2]), octet_value(
            parts[3],
        )) {
            (Some(a), Some(b), Some(c), Some(d)) => Some((a, b, c, d)),
            _ => None,
        }
    }
}

/// The value of one hexadecimal segment: one to four digits.
pub open spec fn segment_value(s: Seq<char>) -> Option<u16> {
    match text::digits_value(s, 16) {
        Some(n) => if 1 <= s.len() <= 4 {
            Some(n as u16)
        } else {
            None
        },
        None => None,
    }
}

/// The segments that one piece between colons stands for: one segment in hexadecimal or, where
/// `ipv4` holds, two segments written as an address in dotted decimal.
pub open spec fn piece_values(s: Seq<char>, ipv4: bool) -> Option<Seq<u16>> {
    match segment_value(s) {
        Some(n) => Some(seq![n]),
        None => match ipv4_value(s) {
            Some((a, b, c, d)) => if ipv4 {
                Some(seq![(a * 256 + b) as u16, (c * 256 + d) as u16])
            } else {
                None
            },
            None => None,
        },
    }
}

/// The segments that pieces between colons stand for; where `ipv4` holds, the last piece may be
/// an address in dotted decimal.
pub open spec fn segment_values(pieces: Seq<Seq<char>>, ipv4: bool) -> Option<Seq<u16>>
    decreases pieces.len(),
{
    if pieces.len() == 0 {
        Some(Seq::empty())
    } else {
        match (segment_values(pieces.drop_last(), false), piece_values(pieces.last(), ipv4)) {
            (Some(front), Some(back)) => Some(front + back),
            _ => None,
        }
    }
}

/// The segments of a text with colons between them; the empty text has none.
pub open spec fn groups_value(s: Seq<char>, ipv4: bool) -> Option<Seq<u16>> {
    if s.len() == 0 {
        Some(Seq::empty())
    } else {
        segment_values(text::split(s, ':'), ipv4)
    }
}

/// The position of the first `::`.
pub open spec fn gap_index(s: Seq<char>) -> Option<int>
    decreases s.len(),
{
    if s.len() < 2 {
        None
    } else if s[0] == ':' && s[1] == ':' {
        Some(0int)
    } else {
        match gap_index(s.skip(1)) {
            Some(i) => Some(i + 1),
            None => None,
        }
    }
}

/// The eight segments of an IPv6 address: all of them, or with `::` for one or more zeros.
pub open spec fn ipv6_value(s: Seq<char>) -> Option<Seq<u16>> {
    match gap_index(s) {
        None => match groups_value(s, true) {
            Some(all) => if all.len() == 8 {
                Some(all)
            } else {
                None
            },
            None => None,
        },
        Some(i) => match (groups_value(s.take(i), false), groups_value(s.skip(i + 2), true)) {
            (Some(head), Some(tail)) => if head.len() + tail.len() <= 7 {
                Some(
                    head + Seq::new((8 - head.len() - tail.len()) as nat, |k: int| 0u16) + tail,
                )
            } else {
                None
            },
            _ => None,
        },
    }
}

/// The IPv6 address with the given eight segments.
pub open spec fn ipv6_of(segments: Seq<u16>) -> IpAddr {
    IpAddr::V6(
        segments[0],
        segments[1],
        segments[2],
        segments[3],
        segments[4],
        segments[5],
        segments[6],
        segments[7],
    )
}

/// The address that a text stands for.
pub open spec fn ip_value(s: Seq<char>) -> Option<IpAddr> {
    match ipv4_value(s) {
        Some((a, b, c, d)) => Some(IpAddr::V4(a, b, c, d)),
        None => match ipv6_value(s) {
            Some(segments) => Some(ipv6_of(segments)),
            None => None,
        },
    }
}

/// A number of few digits is below the corresponding power of the radix.
proof fn lemma_digits_bound(s: Seq<char>, radix: nat)
    requires
        radix == 10 || radix == 16,
        s.len() <= 4,
        digits_value_some(s, radix),
    ensures
        text::digits_value(s, radix)->0 < 65536,
    decreases s.len(),
{
    reveal_with_fuel(text::digits_value, 6);
}

spec fn digits_value_some(s: Seq<char>, radix: nat) -> bool {
    text::digits_value(s, radix) is Some
}

/// A text without a plus sign is read as it stands.
proof fn lemma_unsigned_without_sign(s: Seq<char>, radix: nat)
    requires
        radix == 10 || radix == 16,
        s.len() > 0,
    ensures
        text::digits_value(s, radix) is Some ==> s[0] != '+',
        s[0] != '+' ==> text::unsigned_value(s, radix) == text::digits_value(s, radix),
    decreases s.len(),
{
    if s.len() > 1 {
        lemma_unsigned_without_sign(s.drop_last(), radix);
    }
}

/// Reads one decimal octet.
fn parse_octet(s: &[char]) -> (r: Option<u8>)
    ensures
        r == octet_value(s@),
{
    let n: usize = s.len();
    if n == 0 || n > 3 || s[0] == '+' || (n > 1 && s[0] == '0') {
        proof {
            if n > 0 {
                lemma_unsigned_without_sign(s@, 10);
            }
        }
        return None;
    }
    proof {
        lemma_unsigned_without_sign(s@, 10);
    }
    match text::parse_unsigned(s, 10, 255) {
        Some(v) => Some(v as u8),
        None => None,
    }
}

/// Reads an IPv4 address.
fn parse_ipv4(s: &[char]) -> (r: Option<(u8, u8, u8, u8)>)
    ensures
        r == ipv4_value(s@),
{
    let parts = text::split_chars(s, '.');
    let ghost pieces = text::split(s@, '.');
    assert(text::char_texts(parts@) == pieces);
    if parts.len() != 4 {
        return None;
    }
    assert(pieces[0] == parts@[0]@ && pieces[1] == parts@[1]@ && pieces[2] == parts@[2]@
        && pieces[3] == parts@[3]@);
    match (
        parse_octet(&parts[0]),
        parse_octet(&parts[1]),
        parse_octet(&parts[2]),
        parse_octet(&parts[3]),
    ) {
        (Some(a), Some(b), Some(c), Some(d)) => Some((a, b, c, d)),
        _ => None,
    }
}

/// Reads one hexadecimal segment.
fn parse_segment(s: &[char]) -> (r: Option<u16>)
    ensures
        r == segment_value(s@),
{
    let n: usize = s.len();
    if n == 0 || n > 4 || s[0] == '+' {
        proof {
            if n > 0 {
                lemma_unsigned_without_sign(s@, 16);
            }
        }
        return None;
    }
    proof {
        lemma_unsigned_without_sign(s@, 16);
        if digits_value_some(s@, 16) {
            lemma_digits_bound(s@, 16);
        }
    }
    match text::parse_unsigned(s, 16, 65535) {
        Some(v) => Some(v as u16),
        None => None,
    }
}

spec fn segments_result(r: Option<Vec<u16>>) -> Option<Seq<u16>> {
    match r {
        Some(v) => Some(v@),
        None => None,
    }
}

/// An unreadable piece before the last makes the whole unreadable.
proof fn lemma_segments_fail(pieces: Seq<Seq<char>>, n: int, ipv4: bool)
    requires
        0 < n < pieces.len(),
        segment_values(pieces.take(n), false) is None,
    ensures
        segment_values(pieces, ipv4) is None,
    decreases pieces.len(),
{
    let front = pieces.drop_last();
    if n < front.len() {
        assert(front.take(n) =~= pieces.take(n));
        lemma_segments_fail(front, n, false);
    } else {
        assert(front =~= pieces.take(n));
    }
}

/// Reads one piece between colons and appends its segments.
fn parse_piece(out: &mut Vec<u16>, s: &[char], ipv4: bool) -> (r: bool)
    ensures
        match piece_values(s@, ipv4) {
            Some(values) => r && final(out)@ == old(out)@ + values,
            None => !r && final(out)@ == old(out)@,
        },
{
    match parse_segment(s) {
        Some(v) => {
            out.push(v);
            assert(out@ =~= old(out)@ + seq![v]);
            return true;
        },
        None => {},
    }
    if ipv4 {
        if let Some((a, b, c, d)) = parse_ipv4(s) {
            out.push(a as u16 * 256 + b as u16);
            out.push(c as u16 * 256 + d as u16);
            assert(out@ =~= old(out)@ + seq![(a * 256 + b) as u16, (c * 256 + d) as u16]);
            return true;
        }
    }
    false
}

/// Reads segments with colons between them.
fn parse_groups(s: &[char], ipv4: bool) -> (r: Option<Vec<u16>>)
    ensures
        segments_result(r) == groups_value(s@, ipv4),
{
    let mut out: Vec<u16> = Vec::new();
    if s.len() == 0 {
        assert(out@ =~= Seq::empty());
        return Some(out);
    }
    let parts = text::split_chars(s, ':');
    let ghost pieces = text::split(s@, ':');
    let n: usize = parts.len();
    let mut i: usize = 0;
    assert(pieces.take(0) =~= Seq::empty());
    while i + 1 < n
        invariant
            n == parts@.len(),
            text::char_texts(parts@) == pieces,
            pieces == text::split(s@, ':'),
            s@.len() > 0,
            pieces.len() == n,
            0 <= i < n,
            segment_values(pieces.take(i as int), false) == Some(out@),
        decreases n - i,
    {
        let ghost here = pieces.take(i + 1);
        assert(here.drop_last() =~= pieces.take(i as int));
        assert(here.last() == parts@[i as int]@);
        if !parse_piece(&mut out, &parts[i], false) {
            proof {
                lemma_segments_fail(pieces, i + 1, ipv4);
            }
            return None;
        }
        i += 1;
    }
    assert(pieces.drop_last() =~= pieces.take(i as int));
    assert(pieces.last() == parts@[i as int]@);
    if !parse_piece(&mut out, &parts[i], ipv4) {
        return None;
    }
    Some(out)
}

/// Finds the first `::`.
fn find_gap(s: &[char]) -> (r: Option<usize>)
    ensures
        match r {
            Some(i) => gap_index(s@) == Some(i as int) && i + 2 <= s@.len(),
            None => gap_index(s@) is None,
        },
{
    let n: usize = s.len();
    let mut i: usize = 0;
    assert(s@.skip(0) =~= s@);
    while i < n && n - i >= 2
        invariant
            n == s@.len(),
            i <= n,
            match gap_index(s@.skip(i as int)) {
                Some(k) => gap_index(s@) == Some(i + k),
                None => gap_index(s@) is None,
            },
        decreases n - i,
    {
        if s[i] == ':' && s[i + 1] == ':' {
            return Some(i);
        }
        assert(s@.skip(i as int).skip(1) =~= s@.skip(i + 1));
        i += 1;
    }
    None
}

/// Reads an IPv6 address.
fn parse_ipv6(s: &[char]) -> (r: Option<Vec<u16>>)
    ensures
        segments_result(r) == ipv6_value(s@),
        r matches Some(v) ==> v@.len() == 8,
{
    match find_gap(s) {
        None => match parse_groups(s, true) {
            Some(all) => if all.len() == 8 {
                Some(all)
            } else {
                None
            },
            None => None,
        },
        Some(i) => {
            let n: usize = s.len();
            let front = vstd::slice::slice_subrange(s, 0, i);
            let back = vstd::slice::slice_subrange(s, i + 2, n);
            assert(front@ =~= s@.take(i as int));
            assert(back@ =~= s@.skip(i + 2));
            let head = parse_groups(front, false);
            let tail = parse_groups(back, true);
            match (head, tail) {
                (Some(head), Some(tail)) => {
                    if head.len() > 7 || tail.len() > 7 || head.len() + tail.len() > 7 {
                        return None;
                    }
                    let mut all = head;
                    let zeros: usize = 8 - all.len() - tail.len();
                    let mut k: usize = 0;
                    while k < zeros
                        invariant
                            k <= zeros,
                            all@ =~= head@ + Seq::new(k as nat, |j: int| 0u16),
                        decreases zeros - k,
                    {
                        all.push(0);
                        k += 1;
                    }
                    let mut m: usize = 0;
                    while m < tail.len()
                        invariant
                            m <= tail@.len(),
                            all@ =~= head@ + Seq::new(zeros as nat, |j: int| 0u16) + tail@.take(
                                m as int,
                            ),
                        decreases tail@.len() - m,
                    {
                        all.push(tail[m]);
                        m += 1;
                    }
                    assert(tail@.take(m as int) =~= tail@);
                    Some(all)
                },
                _ => None,
            }
        },
    }
}

impl IpAddr {
    /// Reads an address.
    pub fn parse(s: &str) -> (r: Option<IpAddr>)
        ensures
            r == ip_value(s@),
    {
        let chars = text::chars_of(s);
        match parse_ipv4(&chars) {
            Some((a, b, c, d)) => Some(IpAddr::V4(a, b, c, d)),
            None => match parse_ipv6(&chars) {
                Some(v) => Some(IpAddr::V6(v[0], v[1], v[2], v[3], v[4], v[5], v[6], v[7])),
                None => None,
            },
        }
    }
}

// ---------------------------------------------------------------------------------------------
// Laws
// ---------------------------------------------------------------------------------------------

proof fn lemma_octet(n: u8)
    ensures
        octet_value(text::decimal(n as nat)) == Some(n),
        !text::decimal(n as nat).contains('.'),
{
    text::decimals_read_back(n as nat);
}

/// An IPv4 address reads back from its text, which has four pieces.
proof fn lemma_ipv4_reads_back(a: u8, b: u8, c: u8, d: u8)
    ensures
        ipv4_value(ipv4_text(a, b, c, d)) == Some((a, b, c, d)),
{
    let (ta, tb, tc, td) = (
        text::decimal(a as nat),
        text::decimal(b as nat),
        text::decimal(c as nat),
        text::decimal(d as nat),
    );
    lemma_octet(a);
    lemma_octet(b);
    lemma_octet(c);
    lemma_octet(d);
    text::lemma_split_whole(ta, '.');
    let s2 = ta.push('.') + tb;
    text::lemma_split_push(ta, '.', tb);
    let s3 = s2.push('.') + tc;
    text::lemma_split_push(s2, '.', tc);
    let s4 = s3.push('.') + td;
    text::lemma_split_push(s3, '.', td);
    assert(s4 =~= ipv4_text(a, b, c, d));
    let parts = text::split(s4, '.');
    assert(parts =~= seq![ta, tb, tc, td]);
}

proof fn lemma_digits_hold(s: Seq<char>, radix: nat, i: int)
    requires
        text::digits_value(s, radix) is Some,
        0 <= i < s.len(),
    ensures
        text::digit_value(s[i], radix) is Some,
    decreases s.len(),
{
    if i < s.len() - 1 {
        lemma_digits_hold(s.drop_last(), radix, i);
    }
}

/// A text with a character that occurs in no IPv4 address is none.
proof fn lemma_not_ipv4(s: Seq<char>, k: int)
    requires
        0 <= k < s.len(),
        s[k] == ':',
    ensures
        ipv4_value(s) is None,
{
    if ipv4_value(s) is Some {
        let parts = text::split(s, '.');
        text::lemma_split_covers(s, '.', k);
        let i = choose|i: int| 0 <= i < parts.len() && (#[trigger] parts[i]).contains(s[k]);
        let part = parts[i];
        assert(octet_value(part) is Some) by {
            assert(i == 0 || i == 1 || i == 2 || i == 3);
        }
        let j = choose|j: int| 0 <= j < part.len() && part[j] == s[k];
        lemma_digits_hold(part, 10, j);
    }
}

/// A number in hexadecimal reads back, and holds digits alone.
proof fn lemma_hexadecimal(n: nat)
    ensures
        hexadecimal(n).len() > 0,
        text::digits_value(hexadecimal(n), 16) == Some(n),
        forall|i: int|
            0 <= i < hexadecimal(n).len() ==> text::digit_value(
                #[trigger] hexadecimal(n)[i],
                16,
            ) is Some,
        n < 16 ==> hexadecimal(n).len() == 1,
        n < 256 ==> hexadecimal(n).len() <= 2,
        n < 4096 ==> hexadecimal(n).len() <= 3,
        n < 65536 ==> hexadecimal(n).len() <= 4,
    decreases n,
{
    let s = hexadecimal(n);
    if n < 16 {
        assert(s.drop_last() =~= Seq::empty());
        assert(text::digits_value(s.drop_last(), 16) == Some(0nat));
        assert(s[0] == text::digit_char(n));
    } else {
        lemma_hexadecimal(n / 16);
        assert(s.drop_last() =~= hexadecimal(n / 16));
        assert forall|i: int| 0 <= i < s.len() implies text::digit_value(
            #[trigger] s[i],
            16,
        ) is Some by {
            if i < s.len() - 1 {
                assert(s[i] == hexadecimal(n / 16)[i]);
            }
        }
    }
}

proof fn lemma_segment(n: u16)
    ensures
        segment_value(hexadecimal(n as nat)) == Some(n),
        !hexadecimal(n as nat).contains(':'),
        hexadecimal(n as nat).len() > 0,
{
    lemma_hexadecimal(n as nat);
    let s = hexadecimal(n as nat);
    assert forall|i: int| 0 <= i < s.len() implies s[i] != ':' by {
        assert(text::digit_value(s[i], 16) is Some);
    }
}

/// No two colons stand next to each other.
spec fn no_gap(s: Seq<char>) -> bool {
    forall|k: int| 0 <= k < s.len() - 1 ==> !(#[trigger] s[k] == ':' && s[k + 1] == ':')
}

/// The pieces of written segments are the segments in hexadecimal; they do not start or end with
/// a colon and hold no gap.
proof fn lemma_group_text(segments: Seq<u16>)
    requires
        segments.len() > 0,
    ensures
        text::split(group_text(segments), ':') == segments.map_values(
            |n: u16| hexadecimal(n as nat),
        ),
        group_text(segments).len() > 0,
        group_text(segments)[0] != ':',
        group_text(segments).last() != ':',
        no_gap(group_text(segments)),
    decreases segments.len(),
{
    let last = hexadecimal(segments.last() as nat);
    let pieces = segments.map_values(|n: u16| hexadecimal(n as nat));
    lemma_segment(segments.last());
    assert forall|k: int| 0 <= k < last.len() implies last[k] != ':' by {
        assert(last.contains(last[k]));
    }
    if segments.len() == 1 {
        text::lemma_split_whole(last, ':');
        assert(pieces =~= seq![last]);
    } else {
        let front = segments.drop_last();
        lemma_group_text(front);
        let t = group_text(front);
        text::lemma_split_push(t, ':', last);
        assert(pieces =~= front.map_values(|n: u16| hexadecimal(n as nat)).push(last));
        let s = group_text(segments);
        assert(s == t.push(':') + last);
        assert forall|k: int| 0 <= k < s.len() - 1 implies !(#[trigger] s[k] == ':' && s[k + 1]
            == ':') by {
            if k < t.len() - 1 {
                assert(s[k] == t[k] && s[k + 1] == t[k + 1]);
            } else if k == t.len() - 1 {
                assert(s[k] == t.last());
            } else if k == t.len() {
                assert(s[k + 1] == last[0]);
            } else {
                assert(s[k] == last[k - t.len() - 1]);
            }
        }
    }
}

/// Written segments read back.
proof fn lemma_groups_read_back(segments: Seq<u16>, ipv4: bool)
    ensures
        groups_value(group_text(segments), ipv4) == Some(segments),
{
    if segments.len() > 0 {
        lemma_group_text(segments);
        lemma_segments_read_back(segments, ipv4);
    }
}

proof fn lemma_segments_read_back(segments: Seq<u16>, ipv4: bool)
    ensures
        segment_values(segments.map_values(|n: u16| hexadecimal(n as nat)), ipv4) == Some(segments),
    decreases segments.len(),
{
    let pieces = segments.map_values(|n: u16| hexadecimal(n as nat));
    if segments.len() > 0 {
        let front = segments.drop_last();
        lemma_segments_read_back(front, false);
        assert(pieces.drop_last() =~= front.map_values(|n: u16| hexadecimal(n as nat)));
        lemma_segment(segments.last());
        assert(front + seq![segments.last()] =~= segments);
    } else {
        assert(segments =~= Seq::empty());
    }
}

proof fn lemma_gap_is(s: Seq<char>, i: int)
    requires
        0 <= i < s.len() - 1,
        s[i] == ':',
        s[i + 1] == ':',
        forall|k: int| 0 <= k < i ==> !(#[trigger] s[k] == ':' && s[k + 1] == ':'),
    ensures
        gap_index(s) == Some(i),
    decreases s.len(),
{
    if i > 0 {
        let t = s.skip(1);
        assert(!(s[0] == ':' && s[1] == ':'));
        assert forall|k: int| 0 <= k < i - 1 implies !(#[trigger] t[k] == ':' && t[k + 1]
            == ':') by {
            assert(s[k + 1] == t[k] && s[k + 2] == t[k + 1]);
        }
        lemma_gap_is(t, i - 1);
    }
}

proof fn lemma_no_gap(s: Seq<char>)
    requires
        no_gap(s),
    ensures
        gap_index(s) is None,
    decreases s.len(),
{
    if s.len() >= 2 {
        let t = s.skip(1);
        assert(!(s[0] == ':' && s[1] == ':'));
        assert forall|k: int| 0 <= k < t.len() - 1 implies !(#[trigger] t[k] == ':' && t[k + 1]
            == ':') by {
            assert(s[k + 1] == t[k] && s[k + 2] == t[k + 1]);
        }
        lemma_no_gap(t);
    }
}

proof fn lemma_zero_run_holds(segments: Seq<u16>, i: int, k: int)
    requires
        0 <= i,
        i <= k < i + zero_run(segments, i),
    ensures
        k < segments.len(),
        segments[k] == 0,
    decreases segments.len() - i,
{
    if i < k {
        lemma_zero_run_holds(segments, i + 1, k);
    }
}

proof fn lemma_longest_run(segments: Seq<u16>, limit: nat)
    requires
        limit <= segments.len(),
    ensures
        ({
            let (start, length) = longest_run(segments, limit);
            &&& 0 <= start
            &&& start + length <= segments.len()
            &&& forall|k: int| start <= k < start + length ==> segments[k] == 0
        }),
    decreases limit,
{
    if limit > 0 {
        lemma_longest_run(segments, (limit - 1) as nat);
        lemma_zero_run_bound(segments, limit - 1);
        let i = limit - 1;
        assert forall|k: int| i <= k < i + zero_run(segments, i) implies segments[k] == 0 by {
            lemma_zero_run_holds(segments, i, k);
        }
    }
}

/// A text with two groups of segments around a gap reads as those segments with zeros between.
proof fn lemma_gap_reads_back(head: Seq<u16>, tail: Seq<u16>)
    requires
        head.len() + tail.len() <= 7,
    ensures
        ipv6_value(group_text(head) + seq![':', ':'] + group_text(tail)) == Some(
            head + Seq::new((8 - head.len() - tail.len()) as nat, |k: int| 0u16) + tail,
        ),
        (group_text(head) + seq![':', ':'] + group_text(tail)).contains(':'),
{
    let h = group_text(head);
    let t = group_text(tail);
    let s = h + seq![':', ':'] + t;
    if head.len() > 0 {
        lemma_group_text(head);
    }
    lemma_groups_read_back(head, false);
    lemma_groups_read_back(tail, true);
    assert(s[h.len() as int] == ':');
    assert forall|k: int| 0 <= k < h.len() implies !(#[trigger] s[k] == ':' && s[k + 1]
        == ':') by {
        if k < h.len() - 1 {
            assert(s[k] == h[k] && s[k + 1] == h[k + 1]);
        } else {
            assert(s[k] == h.last());
        }
    }
    lemma_gap_is(s, h.len() as int);
    assert(s.take(h.len() as int) =~= h);
    assert(s.skip(h.len() as int + 2) =~= t);
}

/// The last segments of a mapped IPv4 address read back.
proof fn lemma_mapped_tail(a: u8, b: u8, c: u8, d: u8)
    ensures
        groups_value(seq!['f', 'f', 'f', 'f', ':'] + ipv4_text(a, b, c, d), true) == Some(
            seq![0xffffu16, (a * 256 + b) as u16, (c * 256 + d) as u16],
        ),
{
    let four = ipv4_text(a, b, c, d);
    let word = seq!['f', 'f', 'f', 'f'];
    let tail = seq!['f', 'f', 'f', 'f', ':'] + four;
    lemma_ipv4_reads_back(a, b, c, d);
    assert(tail =~= word.push(':') + four);
    assert forall|k: int| 0 <= k < four.len() implies four[k] != ':' by {
        if four[k] == ':' {
            lemma_not_ipv4(four, k);
        }
    }
    text::lemma_split_push(word, ':', four);
    text::lemma_split_whole(word, ':');
    let pieces = text::split(tail, ':');
    assert(pieces =~= seq![word, four]);
    assert(segment_value(word) == Some(0xffffu16)) by {
        assert(hexadecimal(0xffff) =~= word) by {
            reveal_with_fuel(hexadecimal, 5);
        }
        lemma_segment(0xffffu16);
    }
    assert(segment_value(four) is None) by {
        text::decimals_read_back(a as nat);
        let i = text::decimal(a as nat).len() as int;
        assert(four[i] == '.');
        if text::digits_value(four, 16) is Some {
            lemma_digits_hold(four, 16, i);
        }
    }
    let front = pieces.drop_last();
    assert(front =~= seq![word]);
    assert(front.drop_last() =~= Seq::empty());
    assert(segment_values(front.drop_last(), false) == Some(Seq::<u16>::empty()));
    assert(piece_values(front.last(), false) == Some(seq![0xffffu16]));
    assert(segment_values(front, false) == Some(Seq::<u16>::empty() + seq![0xffffu16]));
    let last = seq![(a * 256 + b) as u16, (c * 256 + d) as u16];
    assert(piece_values(pieces.last(), true) == Some(last));
    assert(Seq::<u16>::empty() + seq![0xffffu16] + last =~= seq![
        0xffffu16,
        (a * 256 + b) as u16,
        (c * 256 + d) as u16,
    ]);
}

/// A mapped IPv4 address reads back.
proof fn lemma_mapped_reads_back(segments: Seq<u16>)
    requires
        is_mapped(segments),
    ensures
        ipv6_value(ipv6_text(segments)) == Some(segments),
        ipv6_text(segments)[0] == ':',
        ipv6_text(segments).len() > 0,
{
    let (a, b, c, d) = (
        (segments[6] / 256) as u8,
        (segments[6] % 256) as u8,
        (segments[7] / 256) as u8,
        (segments[7] % 256) as u8,
    );
    let s = ipv6_text(segments);
    lemma_gap_is(s, 0);
    let head = s.take(0);
    assert(head =~= Seq::empty());
    assert(groups_value(head, false) == Some(Seq::<u16>::empty()));
    let tail = s.skip(2);
    assert(tail =~= seq!['f', 'f', 'f', 'f', ':'] + ipv4_text(a, b, c, d));
    lemma_mapped_tail(a, b, c, d);
    assert(segments[6] == a * 256 + b && segments[7] == c * 256 + d);
    let read = seq![0xffffu16, (a * 256 + b) as u16, (c * 256 + d) as u16];
    assert(Seq::<u16>::empty() + Seq::new(5, |k: int| 0u16) + read =~= segments);
}

/// An IPv6 address reads back from its text, which holds a colon.
proof fn lemma_ipv6_reads_back(segments: Seq<u16>)
    requires
        segments.len() == 8,
    ensures
        ipv6_value(ipv6_text(segments)) == Some(segments),
        ipv6_text(segments).contains(':'),
{
    if is_mapped(segments) {
        lemma_mapped_reads_back(segments);
    } else {
        let (start, length) = longest_run(segments, segments.len());
        lemma_longest_run(segments, segments.len());
        if length > 1 {
            let head = segments.take(start);
            let tail = segments.skip(start + length);
            lemma_gap_reads_back(head, tail);
            assert(head + Seq::new((8 - head.len() - tail.len()) as nat, |k: int| 0u16) + tail
                =~= segments);
        } else {
            let s = group_text(segments);
            lemma_group_text(segments);
            lemma_groups_read_back(segments, true);
            lemma_no_gap(s);
            let t = group_text(segments.drop_last());
            assert(s[t.len() as int] == ':');
        }
    }
}

/// Every address reads back from its own text as the same address.
pub proof fn addresses_read_back(ip: IpAddr)
    ensures
        ip_value(ip.spec_text()) == Some(ip),
{
    match ip {
        IpAddr::V4(a, b, c, d) => {
            lemma_ipv4_reads_back(a, b, c, d);
        },
        IpAddr::V6(..) => {
            let segments = ip.segments();
            lemma_ipv6_reads_back(segments);
            let k = choose|k: int|
                0 <= k < ipv6_text(segments).len() && ipv6_text(segments)[k] == ':';
            lemma_not_ipv4(ipv6_text(segments), k);
        },
    }
}

} // verus!
