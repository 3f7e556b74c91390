//! Promises about texts: cases, trimming, digits, pieces and the order of texts.
use crate::laws::hellos;
use crate::text;
use vstd::prelude::*;

verus! {

/// A text in lower case has each letter from A to Z replaced by the one 32 places behind it, and
/// every other character as before.
pub proof fn letters_are_lowered(s: Seq<char>)
    ensures
        text::lower(s).len() == s.len(),
        forall|i: int|
            0 <= i < s.len() ==> {
                let code = s[i] as int;
                let lowered = (#[trigger] text::lower(s)[i]) as int;
                if 65 <= code <= 90 {
                    lowered == code + 32
                } else {
                    lowered == code
                }
            },
{
}

/// The codes of white space: tabulator to carriage return, the space, and those of Unicode.
pub open spec fn white_codes() -> Set<int> {
    set![
        9int,
        10,
        11,
        12,
        13,
        32,
        0x85,
        0xa0,
        0x1680,
        0x2000,
        0x2001,
        0x2002,
        0x2003,
        0x2004,
        0x2005,
        0x2006,
        0x2007,
        0x2008,
        0x2009,
        0x200a,
        0x2028,
        0x2029,
        0x202f,
        0x205f,
        0x3000,
    ]
}

/// A character is white space exactly where its code is one of those of white space.
pub proof fn white_space_is_known(c: char)
    ensures
        text::is_white(c) == white_codes().contains(c as int),
{
}

/// One text is what is left of another without the characters of a class at its ends.
pub open spec fn is_trimmed(
    trimmed: Seq<char>,
    whole: Seq<char>,
    class: spec_fn(char) -> bool,
) -> bool {
    exists|a: int, b: int| {
        &&& 0 <= a <= b <= whole.len()
        &&& trimmed == #[trigger] whole.subrange(a, b)
        &&& forall|i: int| 0 <= i < a ==> class(#[trigger] whole[i])
        &&& forall|i: int| b <= i < whole.len() ==> class(#[trigger] whole[i])
        &&& a < b ==> !class(whole[a]) && !class(whole[b - 1])
    }
}

proof fn lemma_trim_start(s: Seq<char>, class: spec_fn(char) -> bool) -> (a: int)
    ensures
        0 <= a <= s.len(),
        text::trim_start_by(s, class) == s.subrange(a, s.len() as int),
        forall|i: int| 0 <= i < a ==> class(#[trigger] s[i]),
        a < s.len() ==> !class(s[a]),
    decreases s.len(),
{
    if s.len() > 0 && class(s[0]) {
        let b = lemma_trim_start(s.skip(1), class);
        assert(s.skip(1).subrange(b, s.len() - 1) =~= s.subrange(b + 1, s.len() as int));
        assert forall|i: int| 0 <= i < b + 1 implies class(#[trigger] s[i]) by {
            if i > 0 {
                assert(s.skip(1)[i - 1] == s[i]);
            }
        }
        if b + 1 < s.len() {
            assert(s.skip(1)[b] == s[b + 1]);
        }
        b + 1
    } else {
        assert(s =~= s.subrange(0, s.len() as int));
        0
    }
}

proof fn lemma_trim_end(s: Seq<char>, class: spec_fn(char) -> bool) -> (b: int)
    ensures
        0 <= b <= s.len(),
        text::trim_end_by(s, class) == s.subrange(0, b),
        forall|i: int| b <= i < s.len() ==> class(#[trigger] s[i]),
        b > 0 ==> !class(s[b - 1]),
    decreases s.len(),
{
    if s.len() > 0 && class(s.last()) {
        let t = s.drop_last();
        let b = lemma_trim_end(t, class);
        assert(t.subrange(0, b) =~= s.subrange(0, b));
        assert forall|i: int| b <= i < s.len() implies class(#[trigger] s[i]) by {
            if i < t.len() {
                assert(t[i] == s[i]);
            }
        }
        if b > 0 {
            assert(t[b - 1] == s[b - 1]);
        }
        b
    } else {
        assert(s =~= s.subrange(0, s.len() as int));
        s.len() as int
    }
}

proof fn lemma_trim(s: Seq<char>, class: spec_fn(char) -> bool)
    ensures
        is_trimmed(text::trim_by(s, class), s, class),
{
    let a = lemma_trim_start(s, class);
    let t = text::trim_start_by(s, class);
    let c = lemma_trim_end(t, class);
    let b = a + c;
    assert(t.subrange(0, c) =~= s.subrange(a, b));
    assert forall|i: int| b <= i < s.len() implies class(#[trigger] s[i]) by {
        assert(t[i - a] == s[i]);
    }
    if a < b {
        assert(t[c - 1] == s[b - 1]);
    }
}

/// A trimmed text is what is left without the white space at its ends; a text without its brackets
/// is what is left without the square brackets at its ends.
pub proof fn texts_are_trimmed(s: Seq<char>)
    ensures
        is_trimmed(text::trim(s), s, |c: char| white_codes().contains(c as int)),
        is_trimmed(text::trim_brackets(s), s, |c: char| c == '[' || c == ']'),
{
    let white = |c: char| text::is_white(c);
    let coded = |c: char| white_codes().contains(c as int);
    assert forall|c: char| white(c) == #[trigger] coded(c) by {
        white_space_is_known(c);
    }
    lemma_trim(s, white);
    let (a, b) = choose|a: int, b: int| {
        &&& 0 <= a <= b <= s.len()
        &&& text::trim(s) == #[trigger] s.subrange(a, b)
        &&& forall|i: int| 0 <= i < a ==> white(#[trigger] s[i])
        &&& forall|i: int| b <= i < s.len() ==> white(#[trigger] s[i])
        &&& a < b ==> !white(s[a]) && !white(s[b - 1])
    };
    assert(text::trim(s) == s.subrange(a, b));
    assert forall|i: int| 0 <= i < a implies coded(#[trigger] s[i]) by {
        assert(white(s[i]));
    }
    assert forall|i: int| b <= i < s.len() implies coded(#[trigger] s[i]) by {
        assert(white(s[i]));
    }
    if a < b {
        assert(!coded(s[a]) && !coded(s[b - 1]));
    }
    lemma_trim(s, |c: char| c == '[' || c == ']');
}

/// A text in hexadecimal digits has two of them for each byte: that of its upper half and that of
/// its lower half.
pub proof fn bytes_are_written_as_digits(bytes: Seq<u8>)
    ensures
        text::hex_text(bytes).len() == 2 * bytes.len(),
        forall|i: int|
            0 <= i < bytes.len() ==> text::hex_text(bytes)[2 * i] == hellos::digit(
                (#[trigger] bytes[i] / 16) as int,
            ) && text::hex_text(bytes)[2 * i + 1] == hellos::digit((bytes[i] % 16) as int),
    decreases bytes.len(),
{
    if bytes.len() > 0 {
        let front = bytes.drop_last();
        bytes_are_written_as_digits(front);
        let whole = text::hex_text(bytes);
        let before = text::hex_text(front);
        let last = bytes.last();
        assert(whole == before + text::hex_byte(last));
        assert forall|i: int| 0 <= i < bytes.len() implies whole[2 * i] == hellos::digit(
            (#[trigger] bytes[i] / 16) as int,
        ) && whole[2 * i + 1] == hellos::digit((bytes[i] % 16) as int) by {
            if i < front.len() {
                assert(front[i] == bytes[i]);
                assert(whole[2 * i] == before[2 * i]);
                assert(whole[2 * i + 1] == before[2 * i + 1]);
            } else {
                assert(whole[2 * i] == text::hex_byte(last)[0]);
                assert(whole[2 * i + 1] == text::hex_byte(last)[1]);
            }
        }
    }
}

/// A digit is read as its place among the digits and letters, in either case, where that lies
/// below the radix; no other character is a digit.
pub proof fn digits_are_known(c: char, radix: nat)
    requires
        radix <= 36,
    ensures
        match text::digit_value(c, radix) {
            Some(d) => d < radix && (c as int == 48 + d && d < 10 || c as int == 87 + d && d >= 10
                || c as int == 55 + d && d >= 10),
            None => !(48 <= c as int <= 57 && (c as int) < 48 + radix) && !(97 <= c as int <= 122
                && (c as int) < 87 + radix) && !(65 <= c as int <= 90 && (c as int) < 55 + radix),
        },
{
}

/// A number is read digit by digit: no digits give zero, and one more digit behind others gives
/// the radix times their value and the value of the digit. It takes at least one digit, a plus
/// sign before them changes nothing, and a number above the greatest allowed one is not read.
pub proof fn numbers_are_read(s: Seq<char>, c: char, radix: nat, max: nat)
    ensures
        text::digits_value(Seq::empty(), radix) == Some(0nat),
        text::digits_value(s.push(c), radix) == (match (
            text::digits_value(s, radix),
            text::digit_value(c, radix),
        ) {
            (Some(n), Some(d)) => Some(n * radix + d),
            _ => None,
        }),
        text::unsigned_value(Seq::empty(), radix) is None,
        text::unsigned_value(seq!['+'], radix) is None,
        s.len() > 0 && s[0] != '+' ==> text::unsigned_value(s, radix) == text::digits_value(
            s,
            radix,
        ),
        s.len() > 0 ==> text::unsigned_value(seq!['+'] + s, radix) == text::digits_value(s, radix),
        match text::unsigned_value(s, radix) {
            Some(n) if n <= max => text::bounded_value(s, radix, max) == Some(n),
            _ => text::bounded_value(s, radix, max) is None,
        },
{
    assert(s.push(c).drop_last() =~= s);
    assert(s.push(c).last() == c);
    assert(seq!['+'].skip(1) =~= Seq::<char>::empty());
    assert((seq!['+'] + s).skip(1) =~= s);
    assert(text::digits_value(s.push(c), radix) == (match (
        text::digits_value(s.push(c).drop_last(), radix),
        text::digit_value(s.push(c).last(), radix),
    ) {
        (Some(n), Some(d)) => Some(n * radix + d),
        _ => None,
    }));
}

/// A number below ten is written as its digit, and a greater one as the number without its last
/// digit, with that digit behind it.
pub proof fn numbers_are_written(n: nat)
    ensures
        n < 10 ==> text::decimal(n) == seq![hellos::digit(n as int)],
        n >= 10 ==> text::decimal(n) == text::decimal(n / 10).push(hellos::digit(n as int % 10)),
{
}

/// Texts are joined with the separator between each two of them: one text alone is itself, and
/// several are the first, the separator and the others joined.
pub proof fn texts_are_joined(parts: Seq<Seq<char>>, separator: Seq<char>)
    ensures
        parts.len() == 0 ==> text::join(parts, separator) == Seq::<char>::empty(),
        parts.len() == 1 ==> text::join(parts, separator) == parts[0],
        parts.len() > 1 ==> text::join(parts, separator) == parts[0] + separator + text::join(
            parts.skip(1),
            separator,
        ),
    decreases parts.len(),
{
    if parts.len() == 2 {
        assert(parts.drop_last() =~= seq![parts[0]]);
        assert(parts.skip(1) =~= seq![parts[1]]);
        assert(text::join(parts.drop_last(), separator) == parts[0]);
        assert(text::join(parts.skip(1), separator) == parts[1]);
    } else if parts.len() > 2 {
        let front = parts.drop_last();
        texts_are_joined(front, separator);
        assert(front.skip(1) =~= parts.skip(1).drop_last());
        let middle = text::join(front.skip(1), separator);
        assert(text::join(parts.skip(1), separator) == middle + separator + parts.last());
        assert(text::join(parts, separator) =~= parts[0] + separator + (middle + separator
            + parts.last()));
    }
}

/// Texts that were joined by a character that none of them holds are split back into them.
pub proof fn joined_texts_are_split(parts: Seq<Seq<char>>, c: char)
    requires
        parts.len() > 0,
        forall|i: int| 0 <= i < parts.len() ==> !(#[trigger] parts[i]).contains(c),
    ensures
        text::split(text::join(parts, seq![c]), c) == parts,
    decreases parts.len(),
{
    if parts.len() == 1 {
        assert(!parts[0].contains(c));
        text::lemma_split_whole(parts[0], c);
        assert(parts =~= seq![parts[0]]);
    } else {
        let front = parts.drop_last();
        assert forall|i: int| 0 <= i < front.len() implies !(#[trigger] front[i]).contains(c) by {
            assert(front[i] == parts[i]);
        }
        joined_texts_are_split(front, c);
        let before = text::join(front, seq![c]);
        assert(before + seq![c] =~= before.push(c));
        assert(!parts[parts.len() - 1].contains(c));
        text::lemma_split_push(before, c, parts.last());
        assert(text::split(before, c).push(parts.last()) =~= parts);
    }
}

/// The pieces of a text, joined by the character that it was split by, make up the text again, and
/// none of them holds that character.
pub proof fn split_texts_are_joined(s: Seq<char>, c: char)
    ensures
        text::split(s, c).len() > 0,
        text::join(text::split(s, c), seq![c]) == s,
        forall|i: int|
            0 <= i < text::split(s, c).len() ==> !(#[trigger] text::split(s, c)[i]).contains(c),
    decreases s.len(),
{
    text::lemma_first_index(s, c);
    let parts = text::split(s, c);
    match text::first_index(s, c) {
        None => {
            assert(parts == seq![s]);
        },
        Some(i) => {
            let rest = s.skip(i + 1);
            split_texts_are_joined(rest, c);
            assert(parts == seq![s.take(i)] + text::split(rest, c));
            texts_are_joined(parts, seq![c]);
            assert(parts.skip(1) =~= text::split(rest, c));
            assert(parts[0] == s.take(i));
            assert(s =~= s.take(i) + seq![c] + rest);
            assert forall|k: int| 0 <= k < parts.len() implies !(#[trigger] parts[k]).contains(
                c,
            ) by {
                if k > 0 {
                    assert(parts[k] == text::split(rest, c)[k - 1]);
                }
            }
        },
    }
}

/// What stands before a character is all before its first occurrence, or the whole text without
/// one.
pub proof fn texts_are_cut(front: Seq<char>, c: char, back: Seq<char>)
    requires
        !front.contains(c),
    ensures
        text::before_first(front, c) == front,
        text::before_first(front + seq![c] + back, c) == front,
{
    let s = front + seq![c] + back;
    text::lemma_first_index(front, c);
    assert(s[front.len() as int] == c);
    assert forall|j: int| 0 <= j < front.len() implies s[j] != c by {
        assert(s[j] == front[j]);
        assert(front.contains(front[j]));
    }
    text::lemma_first_index_is(s, c, front.len() as int);
    assert(s.take(front.len() as int) =~= front);
}

/// A text starts with another exactly where it is that one with something behind it, and holds
/// another exactly where it is that one with something around it.
pub proof fn parts_are_found(front: Seq<char>, part: Seq<char>, back: Seq<char>, s: Seq<char>)
    ensures
        text::starts_with(part + back, part),
        text::starts_with(s, part) ==> s == part + s.skip(part.len() as int),
        text::contains_text(front + part + back, part),
        text::contains_text(s, part) ==> exists|i: int|
            0 <= i <= s.len() - part.len() && #[trigger] s.take(i) + part + s.skip(i + part.len())
                == s,
{
    assert((part + back).take(part.len() as int) =~= part);
    if text::starts_with(s, part) {
        assert(s =~= part + s.skip(part.len() as int)) by {
            assert forall|j: int| 0 <= j < part.len() implies s[j] == part[j] by {
                assert(s.take(part.len() as int)[j] == s[j]);
            }
        }
    }
    let whole = front + part + back;
    let n = front.len() as int;
    assert(whole.subrange(n, n + part.len()) =~= part);
    if text::contains_text(s, part) {
        let i = choose|i: int|
            0 <= i <= s.len() - part.len() && #[trigger] s.subrange(i, i + part.len()) == part;
        assert(s.take(i) + part + s.skip(i + part.len()) =~= s) by {
            assert forall|j: int| i <= j < i + part.len() implies s[j] == part[j - i] by {
                assert(s.subrange(i, i + part.len())[j - i] == s[j]);
            }
        }
    }
}

/// One text comes before another exactly where the bytes of the first are the beginning of those
/// of the second, with more behind them, or where the first byte in which they differ is the
/// lower one.
pub proof fn texts_are_ordered(a: Seq<char>, b: Seq<char>)
    ensures
        text::text_less(a, b) == ({
            let x = vstd::utf8::encode_utf8(a);
            let y = vstd::utf8::encode_utf8(b);
            exists|k: int| #[trigger] differ_at(x, y, k) && (k == x.len() && k < y.len() || k < x.len()
                && k < y.len() && x[k] < y[k])
        }),
{
    lemma_less(vstd::utf8::encode_utf8(a), vstd::utf8::encode_utf8(b));
}

/// Two sequences of bytes agree before a position.
pub open spec fn differ_at(x: Seq<u8>, y: Seq<u8>, k: int) -> bool {
    0 <= k <= x.len() && k <= y.len() && forall|i: int| 0 <= i < k ==> x[i] == y[i]
}

proof fn lemma_less(x: Seq<u8>, y: Seq<u8>)
    ensures
        text::bytes_less(x, y) == (exists|k: int| #[trigger]
            differ_at(x, y, k) && (k == x.len() && k < y.len() || k < x.len() && k < y.len() && x[k]
                < y[k])),
    decreases y.len(),
{
    if y.len() == 0 {
    } else if x.len() == 0 {
        assert(differ_at(x, y, 0));
    } else if x[0] != y[0] {
        assert(differ_at(x, y, 0));
    } else {
        let u = x.skip(1);
        let v = y.skip(1);
        lemma_less(u, v);
        if text::bytes_less(u, v) {
            let k = choose|k: int| #[trigger]
                differ_at(u, v, k) && (k == u.len() && k < v.len() || k < u.len() && k < v.len()
                    && u[k] < v[k]);
            assert forall|i: int| 0 <= i < k + 1 implies x[i] == y[i] by {
                if i > 0 {
                    assert(u[i - 1] == v[i - 1]);
                }
            }
            assert(differ_at(x, y, k + 1));
        }
        if exists|k: int| #[trigger]
            differ_at(x, y, k) && (k == x.len() && k < y.len() || k < x.len() && k < y.len() && x[k]
                < y[k]) {
            let k = choose|k: int| #[trigger]
                differ_at(x, y, k) && (k == x.len() && k < y.len() || k < x.len() && k < y.len()
                    && x[k] < y[k]);
            assert forall|i: int| 0 <= i < k - 1 implies u[i] == v[i] by {
                assert(x[i + 1] == y[i + 1]);
            }
            assert(differ_at(u, v, k - 1));
        }
    }
}

} // verus!
