//! Promises about the TLS metadata that is reported: what a ClientHello offers is read back, and
//! so is the certificate of a server.
use crate::laws::frames;
use crate::outside;
use crate::parsers::tls;
use crate::parsers::tls::{ClientHelloView, TlsError};
use crate::text;
use crate::wire;
use vstd::prelude::*;

verus! {

/// The two bytes of a number, the higher one first.
pub open spec fn two(n: int) -> Seq<u8> {
    seq![(n / 256) as u8, (n % 256) as u8]
}

/// The three bytes of a number, the highest one first.
pub open spec fn three(n: int) -> Seq<u8> {
    seq![(n / 0x1_0000) as u8, (n / 256 % 256) as u8, (n % 256) as u8]
}

/// The hexadecimal digit of a number below sixteen.
pub open spec fn digit(n: int) -> char {
    seq!['0', '1', '2', '3', '4', '5', '6', '7', '8', '9', 'a', 'b', 'c', 'd', 'e', 'f'][n]
}

/// An extension as its sender means it: its type and its data.
pub struct SentExtension {
    pub kind: u16,
    pub data: Seq<u8>,
}

/// The bytes of a list of extensions, each with its type and the length of its data.
pub open spec fn extensions_bytes(extensions: Seq<SentExtension>) -> Seq<u8>
    decreases extensions.len(),
{
    if extensions.len() == 0 {
        Seq::empty()
    } else {
        two(extensions[0].kind as int) + two(extensions[0].data.len() as int) + extensions[0].data
            + extensions_bytes(extensions.skip(1))
    }
}

/// A record is a ClientHello with the given version, cipher suite codes and extensions: behind
/// the nine bytes that announce it come the version, the random bytes, a session identifier, the
/// codes, the compression methods and the extensions, the last four each with their length.
pub open spec fn is_hello(
    record: Seq<u8>,
    version: u16,
    suites: Seq<(u8, u8)>,
    extensions: Seq<SentExtension>,
) -> bool {
    let s = 44 + record[43];
    let c = s + 2 + 2 * suites.len();
    let e = c + 1 + record[c];
    let n = extensions_bytes(extensions).len();
    &&& record.len() >= e + 2 + n
    &&& record.len() >= 9 + 256 * frames::word(record, 6) + record[8]
    &&& record[0] == 22
    &&& record[5] == 1
    &&& frames::word(record, 9) == version
    &&& frames::word(record, s) == 2 * suites.len()
    &&& forall|i: int|
        0 <= i < suites.len() ==> record[s + 2 + 2 * i] == (#[trigger] suites[i]).0 && record[s + 3
            + 2 * i] == suites[i].1
    &&& frames::word(record, e) == n
    &&& record.subrange(e + 2, e + 2 + n) == extensions_bytes(extensions)
    &&& forall|i: int|
        0 <= i < extensions.len() ==> (#[trigger] extensions[i]).data.len() <= 0xffff
}

proof fn lemma_two(n: int)
    requires
        0 <= n <= 0xffff,
    ensures
        two(n).len() == 2,
        frames::word(two(n), 0) == n,
{
}

/// The extensions in a list, as they are read.
pub open spec fn read_as(extensions: Seq<SentExtension>) -> Seq<(u16, Seq<u8>)> {
    Seq::new(extensions.len(), |i: int| (extensions[i].kind, extensions[i].data))
}

proof fn lemma_extensions(record: Seq<u8>, p: int, extensions: Seq<SentExtension>)
    requires
        0 <= p,
        p + extensions_bytes(extensions).len() <= record.len(),
        record.subrange(p, p + extensions_bytes(extensions).len()) == extensions_bytes(extensions),
        forall|i: int|
            0 <= i < extensions.len() ==> (#[trigger] extensions[i]).data.len() <= 0xffff,
    ensures
        tls::extensions_at(record, p, p + extensions_bytes(extensions).len()) == Ok::<
            Seq<tls::ExtensionView>,
            TlsError,
        >(read_as(extensions)),
    decreases extensions.len(),
{
    let bytes = extensions_bytes(extensions);
    if extensions.len() == 0 {
        assert(read_as(extensions) =~= Seq::empty());
    } else {
        let first = extensions[0];
        let rest = extensions.skip(1);
        let n = first.data.len() as int;
        lemma_two(first.kind as int);
        lemma_two(n);
        assert(bytes == two(first.kind as int) + two(n) + first.data + extensions_bytes(rest));
        assert forall|i: int| 0 <= i < bytes.len() implies record[p + i] == #[trigger] bytes[i] by {
            assert(record.subrange(p, p + bytes.len())[i] == record[p + i]);
        }
        assert(bytes[0] == two(first.kind as int)[0] && bytes[1] == two(first.kind as int)[1]);
        assert(bytes[2] == two(n)[0] && bytes[3] == two(n)[1]);
        frames::words_are_read(record, p);
        frames::words_are_read(record, p + 2);
        assert(wire::be16(record, p) == first.kind);
        assert(wire::be16(record, p + 2) == n);
        assert(record.subrange(p + 4, p + 4 + n) =~= first.data) by {
            assert forall|i: int| 0 <= i < n implies record[p + 4 + i] == first.data[i] by {
                assert(bytes[4 + i] == first.data[i]);
            }
        }
        let q = p + 4 + n;
        let m = extensions_bytes(rest).len();
        assert(record.subrange(q, q + m) =~= extensions_bytes(rest)) by {
            assert forall|i: int| 0 <= i < m implies record[q + i] == extensions_bytes(rest)[i] by {
                assert(bytes[4 + n + i] == extensions_bytes(rest)[i]);
            }
        }
        assert forall|i: int| 0 <= i < rest.len() implies (#[trigger] rest[i]).data.len()
            <= 0xffff by {
            assert(rest[i] == extensions[i + 1]);
        }
        lemma_extensions(record, q, rest);
        assert(q + m == p + bytes.len());
        assert(seq![(first.kind, first.data)] + read_as(rest) =~= read_as(extensions));
    }
}

/// The last entry of a list that gives a value counts; none does where none gives one.
pub open spec fn last_of<A, B>(
    list: Seq<A>,
    gives: spec_fn(A) -> Option<B>,
    value: Option<B>,
) -> bool {
    match value {
        Some(v) => exists|i: int|
            0 <= i < list.len() && #[trigger] gives(list[i]) == Some(v) && (forall|j: int|
                i < j < list.len() ==> #[trigger] gives(list[j]) is None),
        None => forall|j: int| 0 <= j < list.len() ==> #[trigger] gives(list[j]) is None,
    }
}

/// The parts of a list of lists, one behind the other.
pub open spec fn joined<A>(lists: Seq<Seq<A>>) -> Seq<A>
    decreases lists.len(),
{
    if lists.len() == 0 {
        Seq::empty()
    } else {
        lists[0] + joined(lists.skip(1))
    }
}

/// The host name that an extension gives, if it is one of type 0 that gives any.
pub open spec fn gives_name(extension: SentExtension) -> Option<Seq<u8>> {
    if extension.kind == 0 {
        tls::server_name(extension.data)
    } else {
        None
    }
}

/// The protocol names that an extension gives, if it is one of type 16.
pub open spec fn gives_protocols(extension: SentExtension) -> Seq<Seq<u8>> {
    if extension.kind == 16 {
        tls::protocols(extension.data)
    } else {
        Seq::empty()
    }
}

/// The version that an extension gives, if it is one of type 43 that gives any.
pub open spec fn gives_version(extension: SentExtension) -> Option<u16> {
    if extension.kind == 43 {
        tls::supported_version(extension.data)
    } else {
        None
    }
}

proof fn lemma_joined_push<A>(lists: Seq<Seq<A>>, last: Seq<A>)
    ensures
        joined(lists.push(last)) == joined(lists) + last,
    decreases lists.len(),
{
    if lists.len() == 0 {
        assert(lists.push(last).skip(1) =~= Seq::<Seq<A>>::empty());
        assert(joined(lists.push(last).skip(1)) =~= Seq::<A>::empty());
        assert(lists.push(last)[0] == last);
        assert(joined(lists.push(last)) =~= last);
        assert(joined(lists) + last =~= last);
    } else {
        assert(lists.push(last).skip(1) =~= lists.skip(1).push(last));
        lemma_joined_push(lists.skip(1), last);
        assert(joined(lists.push(last)) =~= joined(lists) + last);
    }
}

proof fn lemma_offer(extensions: Seq<SentExtension>)
    ensures
        ({
            let offer = tls::offer_of(read_as(extensions));
            &&& last_of(extensions, |x: SentExtension| gives_name(x), offer.sni)
            &&& last_of(extensions, |x: SentExtension| gives_version(x), offer.version)
            &&& offer.alpn == joined(extensions.map_values(|x: SentExtension| gives_protocols(x)))
        }),
    decreases extensions.len(),
{
    let offer = tls::offer_of(read_as(extensions));
    let name = |x: SentExtension| gives_name(x);
    let version = |x: SentExtension| gives_version(x);
    let list = |x: SentExtension| gives_protocols(x);
    if extensions.len() > 0 {
        let front = extensions.drop_last();
        let last = extensions.last();
        lemma_offer(front);
        let before = tls::offer_of(read_as(front));
        assert(read_as(extensions).drop_last() =~= read_as(front));
        assert(extensions =~= front.push(last));
        assert forall|i: int| 0 <= i < front.len() implies extensions[i] == #[trigger] front[i] by {}
        if name(last) is Some {
            assert(name(extensions[extensions.len() - 1]) == offer.sni);
        } else if before.sni is Some {
            let v = before.sni->0;
            let i = choose|i: int|
                0 <= i < front.len() && #[trigger] name(front[i]) == Some(v) && (forall|j: int|
                    i < j < front.len() ==> #[trigger] name(front[j]) is None);
            assert(name(extensions[i]) == Some(v));
            assert forall|j: int| i < j < extensions.len() implies #[trigger] name(
                extensions[j],
            ) is None by {
                if j < front.len() {
                    assert(name(front[j]) is None);
                }
            }
        } else {
            assert forall|j: int| 0 <= j < extensions.len() implies #[trigger] name(
                extensions[j],
            ) is None by {
                if j < front.len() {
                    assert(name(front[j]) is None);
                }
            }
        }
        if version(last) is Some {
            assert(version(extensions[extensions.len() - 1]) == offer.version);
        } else if before.version is Some {
            let v = before.version->0;
            let i = choose|i: int|
                0 <= i < front.len() && #[trigger] version(front[i]) == Some(v) && (forall|j: int|
                    i < j < front.len() ==> #[trigger] version(front[j]) is None);
            assert(version(extensions[i]) == Some(v));
            assert forall|j: int| i < j < extensions.len() implies #[trigger] version(
                extensions[j],
            ) is None by {
                if j < front.len() {
                    assert(version(front[j]) is None);
                }
            }
        } else {
            assert forall|j: int| 0 <= j < extensions.len() implies #[trigger] version(
                extensions[j],
            ) is None by {
                if j < front.len() {
                    assert(version(front[j]) is None);
                }
            }
        }
        assert(extensions.map_values(list) =~= front.map_values(list).push(list(last)));
        lemma_joined_push(front.map_values(list), list(last));
        if last.kind != 16 {
            assert(joined(front.map_values(list)) + list(last) =~= joined(front.map_values(list)));
        }
    } else {
        assert(extensions.map_values(list) =~= Seq::<Seq<Seq<u8>>>::empty());
    }
}

/// A ClientHello with a given list of cipher suite codes, of any length, is read back with exactly
/// that list: each code is reported as `0x` and the four hexadecimal digits of its two bytes, in
/// order. The host name is the one that the last usable extension of type 0 gives, the protocols
/// are those that the extensions of type 16 give, in order, and the version is the one that the
/// last usable extension of type 43 gives, or else the one behind the announcement.
pub proof fn hellos_are_read_back(
    record: Seq<u8>,
    version: u16,
    suites: Seq<(u8, u8)>,
    extensions: Seq<SentExtension>,
    sni: Option<Seq<u8>>,
    supported: Option<u16>,
)
    requires
        is_hello(record, version, suites, extensions),
        last_of(extensions, |x: SentExtension| gives_name(x), sni),
        last_of(extensions, |x: SentExtension| gives_version(x), supported),
    ensures
        tls::client_hello(record) matches Ok(hello) && {
            &&& hello.cipher_suites.len() == suites.len()
            &&& forall|i: int|
                0 <= i < suites.len() ==> #[trigger] hello.cipher_suites[i] == seq![
                    '0',
                    'x',
                    digit((suites[i].0 / 16) as int),
                    digit((suites[i].0 % 16) as int),
                    digit((suites[i].1 / 16) as int),
                    digit((suites[i].1 % 16) as int),
                ]
            &&& hello.sni is Some == sni is Some
            &&& sni matches Some(name) ==> hello.sni == Some(outside::lossy(name))
            &&& hello.alpn == joined(
                extensions.map_values(|x: SentExtension| gives_protocols(x)),
            ).map_values(|name: Seq<u8>| outside::lossy(name))
            &&& hello.tls_version == tls::version_text(
                match supported {
                    Some(v) => v,
                    None => version,
                },
            )
        },
{
    let s = 44 + record[43];
    let c = s + 2 + 2 * suites.len();
    let e = c + 1 + record[c];
    frames::words_are_read(record, 6);
    frames::words_are_read(record, 9);
    frames::words_are_read(record, s);
    frames::words_are_read(record, e);
    assert(tls::suites_start(record) == s);
    assert(tls::compression_start(record) == c);
    assert(tls::extensions_start(record) == e);
    assert(tls::hello_fault(record) is None);
    lemma_extensions(record, e + 2, extensions);
    lemma_offer(extensions);
    let offer = tls::offer_of(read_as(extensions));
    lemma_last_is_unique(extensions, |x: SentExtension| gives_name(x), sni, offer.sni);
    lemma_last_is_unique(extensions, |x: SentExtension| gives_version(x), supported, offer.version);
    let hello = tls::client_hello(record)->Ok_0;
    assert((2 * suites.len()) / 2 == suites.len());
    assert(hello.cipher_suites == tls::suites_at(record, s + 2, suites.len()));
    assert forall|i: int| 0 <= i < suites.len() implies #[trigger] hello.cipher_suites[i] == seq![
        '0',
        'x',
        digit((suites[i].0 / 16) as int),
        digit((suites[i].0 % 16) as int),
        digit((suites[i].1 / 16) as int),
        digit((suites[i].1 % 16) as int),
    ] by {
        assert(record[s + 2 + 2 * i] == suites[i].0);
        assert(record[s + 3 + 2 * i] == suites[i].1);
        codes_are_written(suites[i].0, suites[i].1);
    }
}

proof fn lemma_last_is_unique<A, B>(
    list: Seq<A>,
    gives: spec_fn(A) -> Option<B>,
    value: Option<B>,
    other: Option<B>,
)
    requires
        last_of(list, gives, value),
        last_of(list, gives, other),
    ensures
        value == other,
{
    if value is Some && other is Some {
        let v = value->0;
        let w = other->0;
        let i = choose|i: int|
            0 <= i < list.len() && #[trigger] gives(list[i]) == Some(v) && (forall|j: int|
                i < j < list.len() ==> #[trigger] gives(list[j]) is None);
        let k = choose|i: int|
            0 <= i < list.len() && #[trigger] gives(list[i]) == Some(w) && (forall|j: int|
                i < j < list.len() ==> #[trigger] gives(list[j]) is None);
        assert(gives(list[i]) is Some && gives(list[k]) is Some);
    }
}

/// The bytes of a list of codes.
pub open spec fn suites_bytes(suites: Seq<(u8, u8)>) -> Seq<u8> {
    Seq::new(
        2 * suites.len(),
        |i: int|
            if i % 2 == 0 {
                suites[i / 2].0
            } else {
                suites[i / 2].1
            },
    )
}

/// A record made of the parts of a ClientHello, one behind the other, with their lengths before
/// them, is a ClientHello with these parts; whatever else follows.
pub proof fn built_hellos_are_hellos(
    front: Seq<u8>,
    version: u16,
    random: Seq<u8>,
    session: Seq<u8>,
    suites: Seq<(u8, u8)>,
    compression: Seq<u8>,
    extensions: Seq<SentExtension>,
    rest: Seq<u8>,
)
    requires
        front.len() == 9,
        front[0] == 22,
        front[5] == 1,
        random.len() == 32,
        session.len() <= 255,
        2 * suites.len() <= 0xffff,
        compression.len() <= 255,
        extensions_bytes(extensions).len() <= 0xffff,
        forall|i: int|
            0 <= i < extensions.len() ==> (#[trigger] extensions[i]).data.len() <= 0xffff,
        256 * frames::word(front, 6) + front[8] <= 40 + session.len() + 2 * suites.len()
            + compression.len() + extensions_bytes(extensions).len(),
    ensures
        is_hello(
            front + two(version as int) + random + seq![session.len() as u8] + session + two(
                2 * suites.len() as int,
            ) + suites_bytes(suites) + seq![compression.len() as u8] + compression + two(
                extensions_bytes(extensions).len() as int,
            ) + extensions_bytes(extensions) + rest,
            version,
            suites,
            extensions,
        ),
{
    let bytes = extensions_bytes(extensions);
    let n = bytes.len() as int;
    let k = 2 * suites.len() as int;
    let r0 = front + two(version as int);
    let r1 = r0 + random;
    let r2 = r1 + seq![session.len() as u8];
    let r3 = r2 + session;
    let r4 = r3 + two(k);
    let r5 = r4 + suites_bytes(suites);
    let r6 = r5 + seq![compression.len() as u8];
    let r7 = r6 + compression;
    let r8 = r7 + two(n);
    let r9 = r8 + bytes;
    let record = r9 + rest;
    lemma_appended(front, two(version as int));
    lemma_appended(r0, random);
    lemma_appended(r1, seq![session.len() as u8]);
    lemma_appended(r2, session);
    lemma_appended(r3, two(k));
    lemma_appended(r4, suites_bytes(suites));
    lemma_appended(r5, seq![compression.len() as u8]);
    lemma_appended(r6, compression);
    lemma_appended(r7, two(n));
    lemma_appended(r8, bytes);
    lemma_appended(r9, rest);
    lemma_two(version as int);
    lemma_two(k);
    lemma_two(n);
    lemma_built(
        front,
        version,
        session,
        suites,
        compression,
        extensions,
        seq![r0, r1, r2, r3, r4, r5, r6, r7, r8, r9],
        record,
    );
}

/// One sequence is another with a part behind it.
spec fn appended(before: Seq<u8>, part: Seq<u8>, after: Seq<u8>) -> bool {
    &&& after.len() == before.len() + part.len()
    &&& forall|i: int| 0 <= i < before.len() ==> #[trigger] after[i] == before[i]
    &&& forall|i: int| 0 <= i < part.len() ==> after[before.len() + i] == #[trigger] part[i]
}

proof fn lemma_appended(before: Seq<u8>, part: Seq<u8>)
    ensures
        appended(before, part, before + part),
{
}

proof fn lemma_built(
    front: Seq<u8>,
    version: u16,
    session: Seq<u8>,
    suites: Seq<(u8, u8)>,
    compression: Seq<u8>,
    extensions: Seq<SentExtension>,
    r: Seq<Seq<u8>>,
    record: Seq<u8>,
)
    requires
        front.len() == 9,
        front[0] == 22,
        front[5] == 1,
        session.len() <= 255,
        2 * suites.len() <= 0xffff,
        compression.len() <= 255,
        extensions_bytes(extensions).len() <= 0xffff,
        forall|i: int|
            0 <= i < extensions.len() ==> (#[trigger] extensions[i]).data.len() <= 0xffff,
        256 * frames::word(front, 6) + front[8] <= 40 + session.len() + 2 * suites.len()
            + compression.len() + extensions_bytes(extensions).len(),
        r.len() == 10,
        appended(front, two(version as int), r[0]),
        exists|random: Seq<u8>| random.len() == 32 && #[trigger] appended(r[0], random, r[1]),
        appended(r[1], seq![session.len() as u8], r[2]),
        appended(r[2], session, r[3]),
        appended(r[3], two(2 * suites.len() as int), r[4]),
        appended(r[4], suites_bytes(suites), r[5]),
        appended(r[5], seq![compression.len() as u8], r[6]),
        appended(r[6], compression, r[7]),
        appended(r[7], two(extensions_bytes(extensions).len() as int), r[8]),
        appended(r[8], extensions_bytes(extensions), r[9]),
        exists|rest: Seq<u8>| #[trigger] appended(r[9], rest, record),
    ensures
        is_hello(record, version, suites, extensions),
{
    let bytes = extensions_bytes(extensions);
    let n = bytes.len() as int;
    let k = 2 * suites.len() as int;
    let s = 44 + session.len() as int;
    let c = s + 2 + k;
    let e = c + 1 + compression.len();
    lemma_two(version as int);
    lemma_two(k);
    lemma_two(n);
    assert(r[0].len() == 11);
    assert(r[1].len() == 43);
    assert(r[3].len() == s);
    assert(r[5].len() == c);
    assert(r[7].len() == e);
    assert(record[0] == front[0] && record[5] == front[5] && record[6] == front[6] && record[7]
        == front[7] && record[8] == front[8]);
    let v = two(version as int);
    assert(r[0][9] == v[0] && r[0][10] == v[1]);
    assert(record[9] == v[0] && record[10] == v[1]);
    assert(r[2][43] == seq![session.len() as u8][0]);
    assert(record[43] == session.len());
    let kk = two(k);
    assert(r[4][s] == kk[0] && r[4][s + 1] == kk[1]);
    assert(record[s] == kk[0] && record[s + 1] == kk[1]);
    assert(r[6][c] == seq![compression.len() as u8][0]);
    assert(record[c] == compression.len());
    let nn = two(n);
    assert(r[8][e] == nn[0] && r[8][e + 1] == nn[1]);
    assert(record[e] == nn[0] && record[e + 1] == nn[1]);
    let codes = suites_bytes(suites);
    assert forall|i: int| 0 <= i < suites.len() implies record[s + 2 + 2 * i]
        == (#[trigger] suites[i]).0 && record[s + 3 + 2 * i] == suites[i].1 by {
        assert((2 * i) % 2 == 0 && (2 * i) / 2 == i);
        assert((2 * i + 1) % 2 == 1 && (2 * i + 1) / 2 == i);
        assert(r[5][s + 2 + (2 * i)] == codes[2 * i]);
        assert(r[5][s + 2 + (2 * i + 1)] == codes[2 * i + 1]);
        assert(record[s + 2 + 2 * i] == codes[2 * i]);
        assert(record[s + 3 + 2 * i] == codes[2 * i + 1]);
    }
    assert(record.subrange(e + 2, e + 2 + n) =~= bytes) by {
        assert forall|i: int| 0 <= i < n implies record[e + 2 + i] == bytes[i] by {
            assert(r[9][e + 2 + i] == bytes[i]);
        }
    }
}

/// A code is written as `0x` and the four hexadecimal digits of its two bytes.
pub proof fn codes_are_written(high: u8, low: u8)
    ensures
        tls::code_text(high, low) == seq![
            '0',
            'x',
            digit((high / 16) as int),
            digit((high % 16) as int),
            digit((low / 16) as int),
            digit((low % 16) as int),
        ],
{
    reveal_strlit("0x");
    lemma_digit((high / 16) as int);
    lemma_digit((high % 16) as int);
    lemma_digit((low / 16) as int);
    lemma_digit((low % 16) as int);
    assert("0x"@ =~= seq!['0', 'x']);
    assert(tls::code_text(high, low) =~= seq![
        '0',
        'x',
        digit((high / 16) as int),
        digit((high % 16) as int),
        digit((low / 16) as int),
        digit((low % 16) as int),
    ]);
}

proof fn lemma_digit(n: int)
    requires
        0 <= n < 16,
    ensures
        text::digit_char(n as nat) == digit(n),
{
}

/// Different codes are written differently.
pub proof fn different_codes_differ(high: u8, low: u8, other_high: u8, other_low: u8)
    requires
        tls::code_text(high, low) == tls::code_text(other_high, other_low),
    ensures
        high == other_high,
        low == other_low,
{
    codes_are_written(high, low);
    codes_are_written(other_high, other_low);
    let a = tls::code_text(high, low);
    let b = tls::code_text(other_high, other_low);
    assert(a[2] == b[2] && a[3] == b[3] && a[4] == b[4] && a[5] == b[5]);
    lemma_digits_differ((high / 16) as int, (other_high / 16) as int);
    lemma_digits_differ((high % 16) as int, (other_high % 16) as int);
    lemma_digits_differ((low / 16) as int, (other_low / 16) as int);
    lemma_digits_differ((low % 16) as int, (other_low % 16) as int);
}

proof fn lemma_digits_differ(m: int, n: int)
    requires
        0 <= m < 16,
        0 <= n < 16,
        digit(m) == digit(n),
    ensures
        m == n,
{
    lemma_digit(m);
    lemma_digit(n);
}

/// A version is named by its number, and any other code as codes are written.
pub proof fn versions_are_named(high: u8, low: u8)
    ensures
        ({
            let named = tls::version_text((256 * high + low) as u16);
            &&& high == 3 && low == 1 ==> named == "TLS 1.0"@
            &&& high == 3 && low == 2 ==> named == "TLS 1.1"@
            &&& high == 3 && low == 3 ==> named == "TLS 1.2"@
            &&& high == 3 && low == 4 ==> named == "TLS 1.3"@
            &&& high != 3 || low == 0 || low > 4 ==> named == tls::code_text(high, low)
        }),
{
    let v = (256 * high + low) as u16;
    assert(v / 256 == high && v % 256 == low);
}

/// A server_name extension gives back the name that it was made for: the length of the list, the
/// kind of the name, its length and the name itself.
pub proof fn server_names_are_read_back(name: Seq<u8>)
    requires
        0 < name.len() <= 0xffff - 3,
    ensures
        tls::server_name(
            two(name.len() as int + 3) + seq![0u8] + two(name.len() as int) + name,
        ) == Some(name),
{
    let n = name.len() as int;
    let data = two(n + 3) + seq![0u8] + two(n) + name;
    lemma_two(n);
    lemma_two(n + 3);
    assert(data[0] == two(n + 3)[0] && data[1] == two(n + 3)[1] && data[2] == 0);
    assert(data[3] == two(n)[0] && data[4] == two(n)[1]);
    frames::words_are_read(data, 0);
    frames::words_are_read(data, 3);
    assert(data.subrange(5, 5 + n) =~= name);
}

/// The bytes of a list of protocol names, each with its length.
pub open spec fn protocols_bytes(names: Seq<Seq<u8>>) -> Seq<u8>
    decreases names.len(),
{
    if names.len() == 0 {
        Seq::empty()
    } else {
        seq![names[0].len() as u8] + names[0] + protocols_bytes(names.skip(1))
    }
}

proof fn lemma_protocols(data: Seq<u8>, q: int, names: Seq<Seq<u8>>)
    requires
        0 <= q,
        q + protocols_bytes(names).len() <= data.len(),
        data.subrange(q, q + protocols_bytes(names).len()) == protocols_bytes(names),
        forall|i: int| 0 <= i < names.len() ==> (#[trigger] names[i]).len() <= 255,
    ensures
        tls::protocols_at(data, q, q + protocols_bytes(names).len()) == names,
    decreases names.len(),
{
    let bytes = protocols_bytes(names);
    if names.len() == 0 {
        assert(names =~= Seq::empty());
    } else {
        let first = names[0];
        let rest = names.skip(1);
        let n = first.len() as int;
        assert forall|i: int| 0 <= i < bytes.len() implies data[q + i] == #[trigger] bytes[i] by {
            assert(data.subrange(q, q + bytes.len())[i] == data[q + i]);
        }
        assert(bytes[0] == n);
        assert(data[q] == n);
        assert(data.subrange(q + 1, q + 1 + n) =~= first) by {
            assert forall|i: int| 0 <= i < n implies data[q + 1 + i] == first[i] by {
                assert(bytes[1 + i] == first[i]);
            }
        }
        let m = protocols_bytes(rest).len();
        assert(data.subrange(q + 1 + n, q + 1 + n + m) =~= protocols_bytes(rest)) by {
            assert forall|i: int| 0 <= i < m implies data[q + 1 + n + i] == protocols_bytes(
                rest,
            )[i] by {
                assert(bytes[1 + n + i] == protocols_bytes(rest)[i]);
            }
        }
        assert forall|i: int| 0 <= i < rest.len() implies (#[trigger] rest[i]).len() <= 255 by {
            assert(rest[i] == names[i + 1]);
        }
        lemma_protocols(data, q + 1 + n, rest);
        assert(seq![first] + rest =~= names);
    }
}

/// A protocol negotiation extension gives back the names that it was made for, in order; what
/// stands behind its list does not count, and a list that says it is longer than the extension
/// ends with it.
pub proof fn protocols_are_read_back(names: Seq<Seq<u8>>, rest: Seq<u8>, more: int)
    requires
        protocols_bytes(names).len() <= more <= 0xffff,
        forall|i: int| 0 <= i < names.len() ==> (#[trigger] names[i]).len() <= 255,
    ensures
        tls::protocols(
            two(protocols_bytes(names).len() as int) + protocols_bytes(names) + rest,
        ) == names,
        tls::protocols(two(more) + protocols_bytes(names)) == names,
{
    let n = protocols_bytes(names).len() as int;
    let data = two(n) + protocols_bytes(names) + rest;
    lemma_two(n);
    assert(data[0] == two(n)[0] && data[1] == two(n)[1]);
    frames::words_are_read(data, 0);
    assert(data.subrange(2, 2 + n) =~= protocols_bytes(names));
    lemma_protocols(data, 2, names);
    let short = two(more) + protocols_bytes(names);
    lemma_two(more);
    assert(short[0] == two(more)[0] && short[1] == two(more)[1]);
    frames::words_are_read(short, 0);
    assert(short.subrange(2, 2 + n) =~= protocols_bytes(names));
    lemma_protocols(short, 2, names);
}

/// A supported_versions extension gives the first version that it lists.
pub proof fn supported_versions_are_read_back(first: u16, others: Seq<u8>)
    requires
        2 + others.len() <= 255,
    ensures
        tls::supported_version(
            seq![(2 + others.len()) as u8] + two(first as int) + others,
        ) == Some(first),
{
    let data = seq![(2 + others.len()) as u8] + two(first as int) + others;
    lemma_two(first as int);
    assert(data[1] == two(first as int)[0] && data[2] == two(first as int)[1]);
    frames::words_are_read(data, 1);
}

/// A Certificate record gives back the first certificate of the list that it was made for,
/// whatever follows it in the list and in the stream.
pub proof fn certificates_are_read_back(
    versions: Seq<u8>,
    leaf: Seq<u8>,
    others: Seq<u8>,
    rest: Seq<u8>,
)
    requires
        versions.len() == 2,
        leaf.len() > 0,
        leaf.len() + others.len() + 10 <= 0xffff,
    ensures
        ({
            let list = three(leaf.len() as int) + leaf + others;
            let message = seq![11u8] + three(list.len() + 3int) + three(list.len() as int) + list;
            let record = seq![22u8] + versions + two(message.len() as int) + message;
            tls::certificate_at(record + rest, 0) == Ok::<Seq<u8>, TlsError>(leaf)
        }),
{
    let n = leaf.len() as int;
    let list = three(n) + leaf + others;
    let m = list.len() as int;
    let message = seq![11u8] + three(m + 3) + three(m) + list;
    let record = seq![22u8] + versions + two(message.len() as int) + message;
    let stream = record + rest;
    lemma_two(message.len() as int);
    lemma_three(n);
    lemma_three(m);
    lemma_three(m + 3);
    assert(stream[0] == 22);
    assert(stream[3] == two(message.len() as int)[0] && stream[4] == two(
        message.len() as int,
    )[1]);
    frames::words_are_read(stream, 3);
    let end = 5 + message.len() as int;
    assert(stream.subrange(5, end) =~= message);
    assert(stream[5] == message[0]);
    assert(message[1] == three(m + 3)[0] && message[2] == three(m + 3)[1] && message[3] == three(
        m + 3,
    )[2]);
    let body = message.subrange(4, 4 + m + 3);
    assert(body =~= three(m) + list);
    assert(body[0] == three(m)[0] && body[1] == three(m)[1] && body[2] == three(m)[2]);
    assert(body[3] == list[0] && body[4] == list[1] && body[5] == list[2]);
    assert(list[0] == three(n)[0] && list[1] == three(n)[1] && list[2] == three(n)[2]);
    assert(body.subrange(6, 6 + n) =~= leaf);
}

proof fn lemma_three(n: int)
    requires
        0 <= n <= 0xff_ffff,
    ensures
        three(n).len() == 3,
        three(n)[0] * 0x1_0000 + three(n)[1] * 256 + three(n)[2] == n,
{
}

/// A record that is no ClientHello, one that ends before it says it does, and one that ends within
/// one of its parts are refused, each for that reason; the number of bytes of the cipher suites
/// must be even.
pub proof fn broken_hellos_are_refused(record: Seq<u8>)
    ensures
        ({
            let r = tls::client_hello(record);
            let n = record.len();
            let announced = n >= 9 && record[0] == 22 && record[5] == 1;
            let whole = announced && n >= 9 + 256 * frames::word(record, 6) + record[8];
            let s = 44 + record[43];
            let c = s + 2 + frames::word(record, s);
            let e = c + 1 + record[c];
            let x = e + 2 + frames::word(record, e);
            let even = frames::word(record, s) % 2 == 0;
            &&& !announced ==> r == refused(TlsError::NotClientHello)
            &&& announced && !whole ==> r == refused(TlsError::TruncatedClientHello)
            &&& whole && n < 11 ==> r == refused(TlsError::Truncated)
            &&& whole && 11 <= n <= 43 ==> r == refused(TlsError::TruncatedHello)
            &&& whole && n > 43 && n < s + 2 ==> r == refused(TlsError::Truncated)
            &&& whole && n > 43 && n >= s + 2 && (!even || n < c) ==> r == refused(
                TlsError::TruncatedCipherSuites,
            )
            &&& whole && n > 43 && n >= s + 2 && even && n == c ==> r == refused(
                TlsError::TruncatedCompression,
            )
            &&& whole && n > 43 && n >= s + 2 && even && n > c && n < e + 2 ==> r == refused(
                TlsError::Truncated,
            )
            &&& whole && n > 43 && n >= s + 2 && even && n > c && n >= e + 2 && n < x ==> r
                == refused(TlsError::TruncatedExtensions)
        }),
{
    frames::words_are_read(record, 6);
    let s = 44 + record[43];
    frames::words_are_read(record, s);
    let c = s + 2 + frames::word(record, s);
    let e = c + 1 + record[c];
    frames::words_are_read(record, e);
}

/// The refusal of a ClientHello.
pub open spec fn refused(error: TlsError) -> Result<ClientHelloView, TlsError> {
    Err(error)
}

/// Extensions of which the last one, behind whole ones, says that it is longer than what is left
/// are refused; up to three bytes behind whole ones are passed over.
pub proof fn broken_extensions_are_refused(
    record: Seq<u8>,
    p: int,
    extensions: Seq<SentExtension>,
    end: int,
)
    requires
        0 <= p,
        p + extensions_bytes(extensions).len() <= end <= record.len(),
        record.subrange(p, p + extensions_bytes(extensions).len()) == extensions_bytes(extensions),
        forall|i: int|
            0 <= i < extensions.len() ==> (#[trigger] extensions[i]).data.len() <= 0xffff,
    ensures
        ({
            let q = p + extensions_bytes(extensions).len();
            &&& end < q + 4 ==> tls::extensions_at(record, p, end) == Ok::<
                Seq<tls::ExtensionView>,
                TlsError,
            >(read_as(extensions))
            &&& end >= q + 4 && end < q + 4 + frames::word(record, q + 2) ==> tls::extensions_at(
                record,
                p,
                end,
            ) == Err::<Seq<tls::ExtensionView>, TlsError>(TlsError::BadExtensionLength)
        }),
    decreases extensions.len(),
{
    let bytes = extensions_bytes(extensions);
    if extensions.len() == 0 {
        assert(read_as(extensions) =~= Seq::empty());
        frames::words_are_read(record, p + 2);
    } else {
        let first = extensions[0];
        let rest = extensions.skip(1);
        let n = first.data.len() as int;
        lemma_two(first.kind as int);
        lemma_two(n);
        assert(bytes == two(first.kind as int) + two(n) + first.data + extensions_bytes(rest));
        assert forall|i: int| 0 <= i < bytes.len() implies record[p + i] == #[trigger] bytes[i] by {
            assert(record.subrange(p, p + bytes.len())[i] == record[p + i]);
        }
        assert(bytes[0] == two(first.kind as int)[0] && bytes[1] == two(first.kind as int)[1]);
        assert(bytes[2] == two(n)[0] && bytes[3] == two(n)[1]);
        frames::words_are_read(record, p);
        frames::words_are_read(record, p + 2);
        assert(wire::be16(record, p) == first.kind);
        assert(wire::be16(record, p + 2) == n);
        assert(record.subrange(p + 4, p + 4 + n) =~= first.data) by {
            assert forall|i: int| 0 <= i < n implies record[p + 4 + i] == first.data[i] by {
                assert(bytes[4 + i] == first.data[i]);
            }
        }
        let q = p + 4 + n;
        let m = extensions_bytes(rest).len();
        assert(record.subrange(q, q + m) =~= extensions_bytes(rest)) by {
            assert forall|i: int| 0 <= i < m implies record[q + i] == extensions_bytes(rest)[i] by {
                assert(bytes[4 + n + i] == extensions_bytes(rest)[i]);
            }
        }
        assert forall|i: int| 0 <= i < rest.len() implies (#[trigger] rest[i]).data.len()
            <= 0xffff by {
            assert(rest[i] == extensions[i + 1]);
        }
        broken_extensions_are_refused(record, q, rest, end);
        assert(seq![(first.kind, first.data)] + read_as(rest) =~= read_as(extensions));
    }
}

/// An extension that says it lists more than it holds, lists another kind of name or an empty one
/// gives no host name; a list of versions without room for one gives no version.
pub proof fn unusable_extensions_give_nothing(data: Seq<u8>)
    ensures
        data.len() < 5 || frames::word(data, 0) + 2 > data.len() || data[2] != 0 || frames::word(
            data,
            3,
        ) == 0 || frames::word(data, 3) + 5 > data.len() ==> tls::server_name(data) is None,
        data.len() == 0 || data[0] < 2 || data[0] >= data.len() ==> tls::supported_version(
            data,
        ) is None,
        data.len() < 2 ==> tls::protocols(data).len() == 0,
{
    frames::words_are_read(data, 0);
    frames::words_are_read(data, 3);
}

/// A stream without a whole record, or with whole records of other kinds alone, holds no
/// certificate; the last record is refused where it is cut off. A Certificate message is refused
/// where it ends before its list or its first certificate does, or holds none.
pub proof fn broken_certificates_are_refused(stream: Seq<u8>)
    ensures
        stream.len() < 5 ==> tls::certificate_at(stream, 0) == Err::<Seq<u8>, TlsError>(
            TlsError::NoCertificateHandshake,
        ),
        stream.len() >= 5 && stream.len() < 5 + frames::word(stream, 3) ==> tls::certificate_at(
            stream,
            0,
        ) == Err::<Seq<u8>, TlsError>(TlsError::TruncatedRecord),
        stream.len() >= 12 && stream.len() == 5 + frames::word(stream, 3) && stream[0] == 22
            && stream[5] == 11 ==> {
            let r = tls::certificate_at(stream, 0);
            let n = 256 * frames::word(stream, 6) + stream[8];
            let list = 256 * frames::word(stream, 9) + stream[11];
            let first = 256 * frames::word(stream, 12) + stream[14];
            &&& 9 + n > stream.len() ==> r == Err::<Seq<u8>, TlsError>(
                TlsError::TruncatedCertificateHandshake,
            )
            &&& 9 + n <= stream.len() && (n < 3 || list < 3 || 3 + list > n) ==> r == Err::<
                Seq<u8>,
                TlsError,
            >(TlsError::TruncatedCertificateList)
            &&& 9 + n <= stream.len() && n >= 3 && list >= 3 && 3 + list <= n && (first == 0 || 6
                + first > n) ==> r == Err::<Seq<u8>, TlsError>(TlsError::TruncatedLeafCertificate)
        },
{
    frames::words_are_read(stream, 3);
    if stream.len() >= 12 && stream.len() == 5 + frames::word(stream, 3) && stream[0] == 22
        && stream[5] == 11 {
        let message = stream.subrange(5, stream.len() as int);
        assert(message[1] == stream[6] && message[2] == stream[7] && message[3] == stream[8]);
        let n = 256 * frames::word(stream, 6) + stream[8];
        if 9 + n <= stream.len() {
            let body = message.subrange(4, 4 + n);
            if n >= 3 {
                assert(body[0] == stream[9] && body[1] == stream[10] && body[2] == stream[11]);
                let list = 256 * frames::word(stream, 9) + stream[11];
                if list >= 3 && 3 + list <= n {
                    assert(body[3] == stream[12] && body[4] == stream[13] && body[5]
                        == stream[14]);
                }
            }
        }
    }
}

} // verus!
