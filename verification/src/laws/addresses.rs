//! Promises about addresses as texts, and about the limits and identities that events rest on.
use crate::addr;
use crate::capture::flow;
use crate::capture::queries;
use crate::capture::reassembly;
use crate::events;
use crate::events::EventDraftView;
use crate::hooks;
use crate::laws::hellos;
use crate::laws::texts;
use crate::parsers::dns;
use crate::parsers::http1;
use crate::proxy::framing;
use crate::text;
use vstd::prelude::*;

verus! {

/// A number in hexadecimal has no needless zero before it, and its digits are those of the number:
/// the last one that of the rest by sixteen, and the others those of the number without it.
pub proof fn hexadecimals_are_written(n: nat)
    ensures
        n < 16 ==> addr::hexadecimal(n) == seq![hellos::digit(n as int)],
        n >= 16 ==> addr::hexadecimal(n) == addr::hexadecimal(n / 16).push(
            hellos::digit(n as int % 16),
        ),
{
}

/// A row of zeros: from a position on a number of segments are zero, and the next one, if there is
/// any, is not.
pub open spec fn is_row(segments: Seq<u16>, start: int, length: int) -> bool {
    &&& 0 <= start && 0 <= length && start + length <= segments.len()
    &&& forall|k: int| start <= k < start + length ==> #[trigger] segments[k] == 0
    &&& start + length < segments.len() ==> segments[start + length] != 0
}

proof fn lemma_row(segments: Seq<u16>, i: int)
    requires
        0 <= i <= segments.len(),
    ensures
        is_row(segments, i, addr::zero_run(segments, i) as int),
    decreases segments.len() - i,
{
    if i < segments.len() && segments[i] == 0 {
        lemma_row(segments, i + 1);
        let n = addr::zero_run(segments, i) as int;
        assert forall|k: int| i <= k < i + n implies #[trigger] segments[k] == 0 by {}
    }
}

proof fn lemma_row_is(segments: Seq<u16>, start: int, length: int)
    requires
        is_row(segments, start, length),
    ensures
        addr::zero_run(segments, start) == length,
    decreases length,
{
    if length > 0 {
        assert(segments[start] == 0);
        lemma_row_is(segments, start + 1, length - 1);
    }
}

proof fn lemma_longest(segments: Seq<u16>, limit: nat)
    requires
        limit <= segments.len(),
    ensures
        ({
            let (start, length) = addr::longest_run(segments, limit);
            &&& 0 <= start <= segments.len()
            &&& length > 0 ==> start < limit && length == addr::zero_run(segments, start)
            &&& forall|i: int| 0 <= i < limit ==> #[trigger] addr::zero_run(segments, i) <= length
            &&& forall|i: int| 0 <= i < start ==> #[trigger] addr::zero_run(segments, i) < length
        }),
    decreases limit,
{
    if limit > 0 {
        lemma_longest(segments, (limit - 1) as nat);
    }
}

/// The segments in hexadecimal, with colons between them.
pub open spec fn grouped(segments: Seq<u16>) -> Seq<char> {
    text::join(segments.map_values(|n: u16| addr::hexadecimal(n as nat)), seq![':'])
}

proof fn lemma_grouped(segments: Seq<u16>)
    ensures
        addr::group_text(segments) == grouped(segments),
    decreases segments.len(),
{
    let pieces = segments.map_values(|n: u16| addr::hexadecimal(n as nat));
    if segments.len() > 1 {
        lemma_grouped(segments.drop_last());
        assert(pieces.drop_last() =~= segments.drop_last().map_values(
            |n: u16| addr::hexadecimal(n as nat),
        ));
        let front = addr::group_text(segments.drop_last());
        assert(front.push(':') =~= front + seq![':']);
    }
}

/// An IPv6 address whose first five segments are zero and whose sixth is full is written as the
/// IPv4 address in its last four bytes behind `::ffff:`.
pub proof fn mapped_addresses_are_written(a: u8, b: u8, c: u8, d: u8)
    ensures
        addr::ipv6_text(
            seq![0u16, 0u16, 0u16, 0u16, 0u16, 0xffffu16, (256 * a + b) as u16, (256 * c + d) as u16],
        ) == seq![':', ':', 'f', 'f', 'f', 'f', ':'] + addr::ipv4_text(a, b, c, d),
{
    let s = seq![
        0u16,
        0u16,
        0u16,
        0u16,
        0u16,
        0xffffu16,
        (256 * a + b) as u16,
        (256 * c + d) as u16,
    ];
    assert(addr::is_mapped(s));
    assert((s[6] / 256) as u8 == a && (s[6] % 256) as u8 == b);
    assert((s[7] / 256) as u8 == c && (s[7] % 256) as u8 == d);
}

/// Any other IPv6 address is written as its segments in hexadecimal with colons between them,
/// where the longest row of at least two zeros, the first of several such, is left out and stands
/// as two colons.
pub proof fn addresses_are_shortened(segments: Seq<u16>, start: int, length: int)
    requires
        segments.len() == 8,
        !(segments[0] == 0 && segments[1] == 0 && segments[2] == 0 && segments[3] == 0
            && segments[4] == 0 && segments[5] == 0xffff),
        is_row(segments, start, length),
        forall|i: int, n: int| #[trigger] is_row(segments, i, n) && i < start ==> n < length,
        forall|i: int, n: int| #[trigger] is_row(segments, i, n) ==> n <= length,
    ensures
        length >= 2 ==> addr::ipv6_text(segments) == grouped(segments.take(start)) + seq![':', ':']
            + grouped(segments.skip(start + length)),
        length < 2 ==> addr::ipv6_text(segments) == grouped(segments),
{
    assert(!addr::is_mapped(segments)) by {
        if addr::is_mapped(segments) {
            assert(segments[0] == 0 && segments[1] == 0 && segments[2] == 0 && segments[3] == 0
                && segments[4] == 0);
        }
    }
    let (b, l) = addr::longest_run(segments, segments.len());
    lemma_longest(segments, segments.len());
    lemma_row_is(segments, start, length);
    lemma_grouped(segments);
    lemma_grouped(segments.take(start));
    lemma_grouped(segments.skip(start + length));
    if start < segments.len() {
        assert(addr::zero_run(segments, start) <= l);
    }
    if l > 0 {
        lemma_row(segments, b);
        assert(is_row(segments, b, l as int));
        if b < start {
            assert(false);
        }
        if start < b {
            assert(addr::zero_run(segments, start) < l);
            assert(false);
        }
    }
}

proof fn lemma_digits_of(s: Seq<char>, n: nat)
    requires
        text::digits_value(s, 10) == Some(n),
        s.len() > 0,
        s.len() > 1 ==> s[0] != '0',
    ensures
        s == text::decimal(n),
        s.len() > 1 ==> n >= 10,
    decreases s.len(),
{
    let front = s.drop_last();
    let d = text::digit_value(s.last(), 10)->0;
    let high = text::digits_value(front, 10)->0;
    texts::digits_are_known(s.last(), 10);
    assert(n == high * 10 + d);
    if s.len() == 1 {
        assert(front =~= Seq::<char>::empty());
        assert(text::digits_value(front, 10) == Some(0nat));
        assert(s =~= seq![text::digit_char(n)]);
    } else {
        if front.len() > 1 {
            lemma_digits_of(front, high);
        } else {
            lemma_digits_of(front, high);
            assert(front =~= seq![s[0]]);
            assert(high > 0) by {
                texts::digits_are_known(s[0], 10);
                assert(front.drop_last() =~= Seq::<char>::empty());
                assert(text::digits_value(front.drop_last(), 10) == Some(0nat));
                assert(front.last() == s[0]);
            }
        }
        assert(n / 10 == high && n % 10 == d);
        assert(s =~= text::decimal(high).push(text::digit_char(d)));
    }
}

/// An IPv4 address is read from its own text and from no other.
pub proof fn dotted_addresses_have_one_text(s: Seq<char>, a: u8, b: u8, c: u8, d: u8)
    ensures
        (addr::ip_value(s) == Some(addr::IpAddr::V4(a, b, c, d))) == (s == addr::ipv4_text(
            a,
            b,
            c,
            d,
        )),
{
    addr::addresses_read_back(addr::IpAddr::V4(a, b, c, d));
    if addr::ip_value(s) == Some(addr::IpAddr::V4(a, b, c, d)) {
        let parts = text::split(s, '.');
        assert(addr::ipv4_value(s) == Some((a, b, c, d)));
        assert(addr::octet_value(parts[0]) == Some(a));
        assert(addr::octet_value(parts[1]) == Some(b));
        assert(addr::octet_value(parts[2]) == Some(c));
        assert(addr::octet_value(parts[3]) == Some(d));
        lemma_digits_of(parts[0], a as nat);
        lemma_digits_of(parts[1], b as nat);
        lemma_digits_of(parts[2], c as nat);
        lemma_digits_of(parts[3], d as nat);
        texts::split_texts_are_joined(s, '.');
        let w = text::decimal(a as nat);
        let x = text::decimal(b as nat);
        let y = text::decimal(c as nat);
        let z = text::decimal(d as nat);
        assert(parts =~= seq![w, x, y, z]);
        texts::texts_are_joined(seq![w, x, y, z], seq!['.']);
        assert(seq![w, x, y, z].skip(1) =~= seq![x, y, z]);
        texts::texts_are_joined(seq![x, y, z], seq!['.']);
        assert(seq![x, y, z].skip(1) =~= seq![y, z]);
        texts::texts_are_joined(seq![y, z], seq!['.']);
        assert(seq![y, z].skip(1) =~= seq![z]);
        texts::texts_are_joined(seq![z], seq!['.']);
        assert(s =~= addr::ipv4_text(a, b, c, d));
    }
}

/// A piece of an IPv6 address: one to four hexadecimal digits.
pub open spec fn is_piece(s: Seq<char>) -> bool {
    1 <= s.len() <= 4 && text::digits_value(s, 16) is Some
}

/// The numbers of pieces.
pub open spec fn numbers(pieces: Seq<Seq<char>>) -> Seq<u16> {
    pieces.map_values(|s: Seq<char>| text::digits_value(s, 16)->0 as u16)
}

/// All of a list are pieces.
pub open spec fn are_pieces(pieces: Seq<Seq<char>>) -> bool {
    forall|i: int| 0 <= i < pieces.len() ==> is_piece(#[trigger] pieces[i])
}

proof fn lemma_piece(s: Seq<char>, i: int)
    requires
        text::digits_value(s, 16) is Some,
        0 <= i < s.len(),
    ensures
        s[i] != ':',
    decreases s.len(),
{
    if i == s.len() - 1 {
        texts::digits_are_known(s.last(), 16);
    } else {
        lemma_piece(s.drop_last(), i);
    }
}

proof fn lemma_values(pieces: Seq<Seq<char>>, ipv4: bool)
    requires
        are_pieces(pieces),
    ensures
        addr::segment_values(pieces, ipv4) == Some(numbers(pieces)),
    decreases pieces.len(),
{
    if pieces.len() > 0 {
        let front = pieces.drop_last();
        assert forall|i: int| 0 <= i < front.len() implies is_piece(#[trigger] front[i]) by {
            assert(front[i] == pieces[i]);
        }
        lemma_values(front, false);
        assert(is_piece(pieces[pieces.len() - 1]));
        assert(numbers(front) + seq![text::digits_value(pieces.last(), 16)->0 as u16] =~= numbers(
            pieces,
        ));
    } else {
        assert(numbers(pieces) =~= Seq::empty());
    }
}

/// No two colons stand next to each other in a text, and none at its ends.
spec fn is_tight(s: Seq<char>) -> bool {
    &&& s.len() > 0
    &&& s[0] != ':'
    &&& s.last() != ':'
    &&& forall|k: int| 0 <= k < s.len() - 1 ==> !(#[trigger] s[k] == ':' && s[k + 1] == ':')
}

proof fn lemma_tight(pieces: Seq<Seq<char>>)
    requires
        are_pieces(pieces),
        pieces.len() > 0,
    ensures
        is_tight(text::join(pieces, seq![':'])),
    decreases pieces.len(),
{
    let last = pieces.last();
    assert(is_piece(pieces[pieces.len() - 1]));
    assert forall|k: int| 0 <= k < last.len() implies #[trigger] last[k] != ':' by {
        lemma_piece(last, k);
    }
    if pieces.len() > 1 {
        let front = pieces.drop_last();
        assert forall|i: int| 0 <= i < front.len() implies is_piece(#[trigger] front[i]) by {
            assert(front[i] == pieces[i]);
        }
        lemma_tight(front);
        let before = text::join(front, seq![':']);
        let s = text::join(pieces, seq![':']);
        assert(s == before + seq![':'] + last);
        let n = before.len() as int;
        assert forall|k: int| 0 <= k < s.len() - 1 implies !(#[trigger] s[k] == ':' && s[k + 1]
            == ':') by {
            if k < n - 1 {
                assert(s[k] == before[k] && s[k + 1] == before[k + 1]);
            } else if k == n - 1 {
                assert(s[k] == before.last());
            } else {
                assert(s[k + 1] == last[k + 1 - n - 1]);
            }
        }
        assert(s[0] == before[0]);
        assert(s.last() == last[last.len() - 1]);
    } else {
        assert(text::join(pieces, seq![':']) == last);
    }
}

proof fn lemma_gap(s: Seq<char>, i: int)
    requires
        0 <= i < s.len() - 1,
        s[i] == ':',
        s[i + 1] == ':',
        forall|k: int| 0 <= k < i ==> !(#[trigger] s[k] == ':' && s[k + 1] == ':'),
    ensures
        addr::gap_index(s) == Some(i),
    decreases s.len(),
{
    if i > 0 {
        let t = s.skip(1);
        assert(!(s[0] == ':' && s[1] == ':'));
        assert forall|k: int| 0 <= k < i - 1 implies !(#[trigger] t[k] == ':' && t[k + 1]
            == ':') by {
            assert(s[k + 1] == t[k] && s[k + 2] == t[k + 1]);
        }
        lemma_gap(t, i - 1);
    }
}

proof fn lemma_no_gap(s: Seq<char>)
    requires
        forall|k: int| 0 <= k < s.len() - 1 ==> !(#[trigger] s[k] == ':' && s[k + 1] == ':'),
    ensures
        addr::gap_index(s) is None,
    decreases s.len(),
{
    if s.len() >= 2 {
        let t = s.skip(1);
        assert(!(s[0] == ':' && s[1] == ':'));
        assert forall|k: int| 0 <= k < t.len() - 1 implies !(#[trigger] t[k] == ':' && t[k + 1]
            == ':') by {
            assert(s[k + 1] == t[k] && s[k + 2] == t[k + 1]);
        }
        lemma_no_gap(t);
    }
}

proof fn lemma_groups(pieces: Seq<Seq<char>>, ipv4: bool)
    requires
        are_pieces(pieces),
    ensures
        addr::groups_value(text::join(pieces, seq![':']), ipv4) == Some(numbers(pieces)),
{
    if pieces.len() > 0 {
        lemma_tight(pieces);
        assert forall|i: int| 0 <= i < pieces.len() implies !(#[trigger] pieces[i]).contains(
            ':',
        ) by {
            assert(is_piece(pieces[i]));
            assert forall|k: int| 0 <= k < pieces[i].len() implies pieces[i][k] != ':' by {
                lemma_piece(pieces[i], k);
            }
        }
        texts::joined_texts_are_split(pieces, ':');
        lemma_values(pieces, ipv4);
    } else {
        assert(numbers(pieces) =~= Seq::empty());
    }
}

proof fn lemma_not_dotted(s: Seq<char>, k: int)
    requires
        0 <= k < s.len(),
        s[k] == ':',
    ensures
        addr::ipv4_value(s) is None,
{
    match addr::ipv4_value(s) {
        Some((a, b, c, d)) => {
            dotted_addresses_have_one_text(s, a, b, c, d);
            let w = text::decimal(a as nat);
            let x = text::decimal(b as nat);
            let y = text::decimal(c as nat);
            let z = text::decimal(d as nat);
            text::decimals_read_back(a as nat);
            text::decimals_read_back(b as nat);
            text::decimals_read_back(c as nat);
            text::decimals_read_back(d as nat);
            let i = w.len() + 1;
            let j = i + x.len() + 1;
            let l = j + y.len() + 1;
            assert(s =~= w.push('.') + x.push('.') + y.push('.') + z);
            if k < w.len() {
                assert(s[k] == w[k]);
            } else if i <= k && k < i + x.len() {
                assert(s[k] == x[k - i]);
            } else if j <= k && k < j + y.len() {
                assert(s[k] == y[k - j]);
            } else if l <= k {
                assert(s[k] == z[k - l]);
            }
        },
        None => {},
    }
}

/// Eight pieces with colons between them are the IPv6 address with their numbers; another number
/// of pieces, without a gap, is none.
pub proof fn whole_addresses_are_read(pieces: Seq<Seq<char>>)
    requires
        are_pieces(pieces),
        pieces.len() > 1,
    ensures
        ({
            let r = addr::ip_value(text::join(pieces, seq![':']));
            let n = numbers(pieces);
            &&& pieces.len() == 8 ==> r == Some(
                addr::IpAddr::V6(n[0], n[1], n[2], n[3], n[4], n[5], n[6], n[7]),
            )
            &&& pieces.len() != 8 ==> r is None
        }),
{
    let s = text::join(pieces, seq![':']);
    lemma_tight(pieces);
    lemma_no_gap(s);
    lemma_groups(pieces, true);
    let before = text::join(pieces.drop_last(), seq![':']);
    assert(s == before + seq![':'] + pieces.last());
    assert(s[before.len() as int] == ':');
    lemma_not_dotted(s, before.len() as int);
}

/// Pieces around two colons are the IPv6 address with the numbers before them at its beginning,
/// those behind them at its end, and zeros between, of which there must be one at least.
pub proof fn shortened_addresses_are_read(head: Seq<Seq<char>>, tail: Seq<Seq<char>>)
    requires
        are_pieces(head),
        are_pieces(tail),
    ensures
        ({
            let s = text::join(head, seq![':']) + seq![':', ':'] + text::join(tail, seq![':']);
            let r = addr::ip_value(s);
            let h = numbers(head);
            let t = numbers(tail);
            &&& head.len() + tail.len() > 7 ==> r is None
            &&& head.len() + tail.len() <= 7 ==> (r matches Some(ip) && ip.segments().len() == 8
                && forall|i: int|
                0 <= i < 8 ==> #[trigger] ip.segments()[i] == (if i < h.len() {
                    h[i]
                } else if i < 8 - t.len() {
                    0
                } else {
                    t[i - (8 - t.len())]
                }))
        }),
{
    let s = text::join(head, seq![':']) + seq![':', ':'] + text::join(tail, seq![':']);
    lemma_shortened(head, tail);
    if head.len() + tail.len() <= 7 {
        let all = numbers(head) + Seq::new(
            (8 - head.len() - tail.len()) as nat,
            |k: int| 0u16,
        ) + numbers(tail);
        lemma_segments(all);
        assert(addr::ip_value(s) == Some(addr::ipv6_of(all)));
    }
}

proof fn lemma_segments(all: Seq<u16>)
    requires
        all.len() == 8,
    ensures
        addr::ipv6_of(all).segments() == all,
{
    assert(addr::ipv6_of(all).segments() =~= all);
}

proof fn lemma_shortened(head: Seq<Seq<char>>, tail: Seq<Seq<char>>)
    requires
        are_pieces(head),
        are_pieces(tail),
    ensures
        ({
            let s = text::join(head, seq![':']) + seq![':', ':'] + text::join(tail, seq![':']);
            &&& addr::ipv4_value(s) is None
            &&& head.len() + tail.len() > 7 ==> addr::ipv6_value(s) is None
            &&& head.len() + tail.len() <= 7 ==> addr::ipv6_value(s) == Some(
                numbers(head) + Seq::new((8 - head.len() - tail.len()) as nat, |k: int| 0u16)
                    + numbers(tail),
            )
        }),
{
    let a = text::join(head, seq![':']);
    let b = text::join(tail, seq![':']);
    let s = a + seq![':', ':'] + b;
    let n = a.len() as int;
    lemma_gap_found(head, b);
    assert(s[n] == ':');
    assert(s.take(n) =~= a);
    assert(s.skip(n + 2) =~= b);
    lemma_groups(head, false);
    lemma_groups(tail, true);
    lemma_not_dotted(s, n);
    assert(numbers(head).len() == head.len() && numbers(tail).len() == tail.len());
}

proof fn lemma_gap_found(head: Seq<Seq<char>>, b: Seq<char>)
    requires
        are_pieces(head),
    ensures
        ({
            let a = text::join(head, seq![':']);
            addr::gap_index(a + seq![':', ':'] + b) == Some(a.len() as int)
        }),
{
    let a = text::join(head, seq![':']);
    let s = a + seq![':', ':'] + b;
    let n = a.len() as int;
    assert(s[n] == ':' && s[n + 1] == ':');
    if head.len() > 0 {
        lemma_tight(head);
    }
    assert forall|k: int| 0 <= k < n implies !(#[trigger] s[k] == ':' && s[k + 1] == ':') by {
        if k < n - 1 {
            assert(s[k] == a[k] && s[k + 1] == a[k + 1]);
        } else {
            assert(s[k] == a.last());
        }
    }
    lemma_gap(s, n);
}

/// An IPv6 address may end with an IPv4 address in place of its last two segments.
pub proof fn dotted_ends_are_read(head: Seq<Seq<char>>, a: u8, b: u8, c: u8, d: u8)
    requires
        are_pieces(head),
        head.len() == 6,
    ensures
        ({
            let n = numbers(head);
            addr::ip_value(
                text::join(head, seq![':']) + seq![':'] + addr::ipv4_text(a, b, c, d),
            ) == Some(
                addr::IpAddr::V6(
                    n[0],
                    n[1],
                    n[2],
                    n[3],
                    n[4],
                    n[5],
                    (256 * a + b) as u16,
                    (256 * c + d) as u16,
                ),
            )
        }),
{
    let front = text::join(head, seq![':']);
    let four = addr::ipv4_text(a, b, c, d);
    let s = front + seq![':'] + four;
    addr::addresses_read_back(addr::IpAddr::V4(a, b, c, d));
    lemma_dotted(a, b, c, d);
    lemma_tight(head);
    let n = front.len() as int;
    assert(s[n] == ':');
    lemma_not_dotted(s, n);
    assert forall|k: int| 0 <= k < s.len() - 1 implies !(#[trigger] s[k] == ':' && s[k + 1]
        == ':') by {
        if k < n - 1 {
            assert(s[k] == front[k] && s[k + 1] == front[k + 1]);
        } else if k == n - 1 {
            assert(s[k] == front.last());
        } else {
            assert(s[k + 1] == four[k - n]);
        }
    }
    lemma_no_gap(s);
    assert forall|i: int| 0 <= i < head.len() implies !(#[trigger] head[i]).contains(':') by {
        assert(is_piece(head[i]));
        assert forall|k: int| 0 <= k < head[i].len() implies head[i][k] != ':' by {
            lemma_piece(head[i], k);
        }
    }
    texts::joined_texts_are_split(head, ':');
    assert(s =~= front.push(':') + four);
    text::lemma_split_push(front, ':', four);
    let pieces = head.push(four);
    assert(pieces.drop_last() =~= head);
    lemma_values(head, false);
    assert(text::split(s, ':') == pieces);
    let back = seq![(256 * a + b) as u16, (256 * c + d) as u16];
    assert(addr::piece_values(four, true) == Some(back));
    assert(addr::segment_values(pieces, true) == Some(numbers(head) + back));
    let all = numbers(head) + back;
    assert(all.len() == 8);
    assert(all[6] == back[0] && all[7] == back[1]);
}

/// A dotted address holds no colon, and is no segment.
proof fn lemma_dotted(a: u8, b: u8, c: u8, d: u8)
    ensures
        ({
            let s = addr::ipv4_text(a, b, c, d);
            &&& forall|k: int| 0 <= k < s.len() ==> #[trigger] s[k] != ':'
            &&& !s.contains(':')
            &&& addr::segment_value(s) is None
            &&& addr::ipv4_value(s) == Some((a, b, c, d))
            &&& s.len() > 0
        }),
{
    let s = addr::ipv4_text(a, b, c, d);
    addr::addresses_read_back(addr::IpAddr::V4(a, b, c, d));
    assert forall|k: int| 0 <= k < s.len() implies #[trigger] s[k] != ':' by {
        if s[k] == ':' {
            lemma_not_dotted(s, k);
            assert(addr::ip_value(s) == Some(addr::IpAddr::V4(a, b, c, d)));
        }
    }
    text::decimals_read_back(a as nat);
    text::decimals_read_back(b as nat);
    text::decimals_read_back(c as nat);
    text::decimals_read_back(d as nat);
    let n = text::decimal(a as nat).len() as int;
    assert(s[n] == '.');
    if text::digits_value(s, 16) is Some {
        lemma_no_dot(s, n);
    }
}

proof fn lemma_no_dot(s: Seq<char>, i: int)
    requires
        text::digits_value(s, 16) is Some,
        0 <= i < s.len(),
    ensures
        s[i] != '.',
    decreases s.len(),
{
    if i == s.len() - 1 {
        texts::digits_are_known(s.last(), 16);
    } else {
        lemma_no_dot(s.drop_last(), i);
    }
}

/// An event that is made of a draft holds the draft, its time, and an identity of its connection,
/// its time and its number.
pub proof fn drafts_become_events(draft: EventDraftView, timestamp_ms: u128, sequence: u64)
    ensures
        ({
            let event = events::stamped(draft, timestamp_ms, sequence);
            &&& event.id == draft.connection_id + seq!['-'] + text::decimal(timestamp_ms as nat)
                + seq!['-'] + text::decimal(sequence as nat)
            &&& event.timestamp_ms == timestamp_ms
            &&& event.connection_id == draft.connection_id
            &&& event.direction == draft.direction
            &&& event.source == draft.source
            &&& event.destination == draft.destination
            &&& event.kind == draft.kind
            &&& event.attributes == draft.attributes
        }),
{
    reveal_strlit("-");
    assert("-"@ =~= seq!['-']);
}

/// The limits: how many headers a head may have, how many references a name may follow, how many
/// bytes of a stream, segments of a direction and queries are remembered, how long heads and lines
/// may be, and the version of the protocol of hooks.
pub proof fn limits_are_fixed()
    ensures
        http1::MAX_HEADERS == 128,
        dns::MAX_JUMPS == 16,
        reassembly::MAX_REASSEMBLED_PREFIX == 131072,
        flow::MAX_SEEN_SEGMENTS == 4096,
        queries::MAX_OUTSTANDING_QUERIES == 4096,
        framing::MAX_HEAD_BYTES == 65536,
        framing::MAX_LINE_BYTES == 8192,
        hooks::HOOK_PROTOCOL_VERSION == 1,
{
}

} // verus!
