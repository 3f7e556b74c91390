//! Text as sequences of characters: ASCII case, trimming, splitting, numbers in decimal and
//! hexadecimal, and the byte order of strings.
use vstd::prelude::*;
use vstd::string::StringExecFns;

verus! {

broadcast use vstd::seq_lib::group_seq_properties;

/// What `String::push` does: the character is appended.
pub assume_specification[ String::push ](s: &mut String, c: char)
    ensures
        final(s)@ == old(s)@.push(c),
;

// ---------------------------------------------------------------------------------------------
// Characters
// ---------------------------------------------------------------------------------------------

/// The ASCII lower-case form of a character; characters outside `A..=Z` are kept.
pub open spec fn lower_char(c: char) -> char {
    if 'A' <= c <= 'Z' {
        ((c as u32) + 32) as char
    } else {
        c
    }
}

/// The ASCII lower-case form of a text.
pub open spec fn lower(s: Seq<char>) -> Seq<char> {
    s.map_values(|c: char| lower_char(c))
}

/// The characters with the Unicode property White_Space.
pub open spec fn is_white(c: char) -> bool {
    let v = c as u32;
    ||| 0x9 <= v <= 0xd
    ||| v == 0x20
    ||| v == 0x85
    ||| v == 0xa0
    ||| v == 0x1680
    ||| 0x2000 <= v <= 0x200a
    ||| v == 0x2028
    ||| v == 0x2029
    ||| v == 0x202f
    ||| v == 0x205f
    ||| v == 0x3000
}

/// An ASCII letter or digit.
pub open spec fn is_alphanumeric(c: char) -> bool {
    'a' <= c <= 'z' || 'A' <= c <= 'Z' || '0' <= c <= '9'
}

/// The value of a digit in a radix of at most 36, if the character is one.
pub open spec fn digit_value(c: char, radix: nat) -> Option<nat> {
    let v = c as u32;
    let value: Option<nat> = if '0' <= c <= '9' {
        Some((v - 0x30) as nat)
    } else if 'a' <= c <= 'z' {
        Some((v - 0x61 + 10) as nat)
    } else if 'A' <= c <= 'Z' {
        Some((v - 0x41 + 10) as nat)
    } else {
        None
    };
    match value {
        Some(d) => if d < radix {
            Some(d)
        } else {
            None
        },
        None => None,
    }
}

/// The lower-case character that stands for a digit value below 36.
pub open spec fn digit_char(d: nat) -> char {
    if d < 10 {
        (0x30 + d) as char
    } else {
        (0x61 + d - 10) as char
    }
}

/// Lower-cases one ASCII letter.
pub fn to_lower_char(c: char) -> (r: char)
    ensures
        r == lower_char(c),
{
    if 'A' <= c && c <= 'Z' {
        let v: u8 = c as u8;
        (v + 32) as char
    } else {
        c
    }
}

/// Tells whether a character is white space.
pub fn char_is_white(c: char) -> (r: bool)
    ensures
        r == is_white(c),
{
    let v: u32 = c as u32;
    (0x9 <= v && v <= 0xd) || v == 0x20 || v == 0x85 || v == 0xa0 || v == 0x1680 || (0x2000 <= v
        && v <= 0x200a) || v == 0x2028 || v == 0x2029 || v == 0x202f || v == 0x205f || v == 0x3000
}

/// The value of a digit in a radix of at most 36.
pub fn value_of_digit(c: char, radix: u8) -> (r: Option<u8>)
    requires
        radix <= 36,
    ensures
        match r {
            Some(d) => digit_value(c, radix as nat) == Some(d as nat) && d < radix,
            None => digit_value(c, radix as nat) is None,
        },
{
    let value: u8 = if '0' <= c && c <= '9' {
        c as u8 - 0x30
    } else if 'a' <= c && c <= 'z' {
        c as u8 - 0x61 + 10
    } else if 'A' <= c && c <= 'Z' {
        c as u8 - 0x41 + 10
    } else {
        return None;
    };
    if value < radix {
        Some(value)
    } else {
        None
    }
}

/// The character of a digit value below 36.
pub fn char_of_digit(d: u8) -> (r: char)
    requires
        d < 36,
    ensures
        r == digit_char(d as nat),
{
    if d < 10 {
        (0x30 + d) as char
    } else {
        (0x61 + (d - 10)) as char
    }
}

// ---------------------------------------------------------------------------------------------
// Conversions between strings and characters
// ---------------------------------------------------------------------------------------------

/// The texts of a sequence of strings.
pub open spec fn texts(v: Seq<String>) -> Seq<Seq<char>> {
    Seq::new(v.len(), |i: int| v[i]@)
}

/// The text of an optional string.
pub open spec fn opt_text(o: Option<String>) -> Option<Seq<char>> {
    match o {
        Some(s) => Some(s@),
        None => None,
    }
}

/// The characters of a string.
pub fn chars_of(s: &str) -> (v: Vec<char>)
    ensures
        v@ == s@,
{
    let mut v: Vec<char> = Vec::new();
    for c in iter: s.chars()
        invariant
            iter.seq() == s@,
            v@ == iter.seq().take(iter.index()),
    {
        v.push(c);
    }
    v
}

/// The string with the given characters.
pub fn text_of(v: &[char]) -> (s: String)
    ensures
        s@ == v@,
{
    let mut s = String::new();
    let mut i: usize = 0;
    while i < v.len()
        invariant
            i <= v@.len(),
            s@ == v@.take(i as int),
        decreases v@.len() - i,
    {
        s.push(v[i]);
        i += 1;
    }
    s
}

/// Two texts are equal when their UTF-8 encodings are.
pub proof fn lemma_utf8_injective(a: Seq<char>, b: Seq<char>)
    requires
        vstd::utf8::encode_utf8(a) == vstd::utf8::encode_utf8(b),
    ensures
        a == b,
{
    vstd::utf8::encode_utf8_decode_utf8(a);
    vstd::utf8::encode_utf8_decode_utf8(b);
}

/// Compares two byte slices.
pub fn bytes_eq(a: &[u8], b: &[u8]) -> (r: bool)
    ensures
        r == (a@ == b@),
{
    if a.len() != b.len() {
        return false;
    }
    let mut i: usize = 0;
    while i < a.len()
        invariant
            i <= a@.len(),
            a@.len() == b@.len(),
            forall|j: int| 0 <= j < i ==> a@[j] == b@[j],
        decreases a@.len() - i,
    {
        if a[i] != b[i] {
            return false;
        }
        i += 1;
    }
    assert(a@ =~= b@);
    true
}

/// Compares two strings.
pub fn text_eq(a: &str, b: &str) -> (r: bool)
    ensures
        r == (a@ == b@),
{
    let r = bytes_eq(a.as_bytes(), b.as_bytes());
    proof {
        if r {
            lemma_utf8_injective(a@, b@);
        }
    }
    r
}

/// Compares two slices of characters.
pub fn chars_eq(a: &[char], b: &[char]) -> (r: bool)
    ensures
        r == (a@ == b@),
{
    if a.len() != b.len() {
        return false;
    }
    let mut i: usize = 0;
    while i < a.len()
        invariant
            i <= a@.len(),
            a@.len() == b@.len(),
            forall|j: int| 0 <= j < i ==> a@[j] == b@[j],
        decreases a@.len() - i,
    {
        if a[i] != b[i] {
            return false;
        }
        i += 1;
    }
    assert(a@ =~= b@);
    true
}

/// The characters of a string in ASCII lower case.
pub fn lower_chars(s: &str) -> (v: Vec<char>)
    ensures
        v@ == lower(s@),
{
    let chars = chars_of(s);
    let mut v: Vec<char> = Vec::new();
    let mut i: usize = 0;
    while i < chars.len()
        invariant
            i <= chars@.len(),
            v@ == lower(chars@.take(i as int)),
        decreases chars@.len() - i,
    {
        v.push(to_lower_char(chars[i]));
        i += 1;
        assert(v@ =~= lower(chars@.take(i as int)));
    }
    assert(chars@.take(i as int) =~= chars@);
    v
}

/// A string in ASCII lower case.
pub fn lower_text(s: &str) -> (r: String)
    ensures
        r@ == lower(s@),
{
    text_of(&lower_chars(s))
}

/// Compares two strings without regard to ASCII case.
pub fn eq_ignore_case(a: &str, b: &str) -> (r: bool)
    ensures
        r == (lower(a@) == lower(b@)),
{
    chars_eq(&lower_chars(a), &lower_chars(b))
}

/// Lower-casing twice is lower-casing once.
pub proof fn lower_idempotent(s: Seq<char>)
    ensures
        lower(lower(s)) == lower(s),
{
    assert(lower(lower(s)) =~= lower(s));
}

// ---------------------------------------------------------------------------------------------
// Trimming
// ---------------------------------------------------------------------------------------------

/// A text without leading characters of a class.
pub open spec fn trim_start_by(s: Seq<char>, class: spec_fn(char) -> bool) -> Seq<char>
    decreases s.len(),
{
    if s.len() > 0 && class(s[0]) {
        trim_start_by(s.skip(1), class)
    } else {
        s
    }
}

/// A text without trailing characters of a class.
pub open spec fn trim_end_by(s: Seq<char>, class: spec_fn(char) -> bool) -> Seq<char>
    decreases s.len(),
{
    if s.len() > 0 && class(s.last()) {
        trim_end_by(s.drop_last(), class)
    } else {
        s
    }
}

/// A text without leading and trailing characters of a class.
pub open spec fn trim_by(s: Seq<char>, class: spec_fn(char) -> bool) -> Seq<char> {
    trim_end_by(trim_start_by(s, class), class)
}

/// A text without leading and trailing white space.
pub open spec fn trim(s: Seq<char>) -> Seq<char> {
    trim_by(s, |c: char| is_white(c))
}

/// A text without leading and trailing square brackets.
pub open spec fn trim_brackets(s: Seq<char>) -> Seq<char> {
    trim_by(s, |c: char| c == '[' || c == ']')
}

/// Removes leading and trailing white space.
pub fn trim_chars(s: &[char]) -> (r: &[char])
    ensures
        r@ == trim(s@),
{
    let ghost class = |c: char| is_white(c);
    let n: usize = s.len();
    let mut i: usize = 0;
    assert(s@.skip(0) =~= s@);
    while i < n && char_is_white(s[i])
        invariant
            i <= n == s@.len(),
            class == |c: char| is_white(c),
            trim_start_by(s@, class) == trim_start_by(s@.skip(i as int), class),
        decreases n - i,
    {
        assert(s@.skip(i as int).skip(1) =~= s@.skip(i + 1));
        i += 1;
    }
    assert(i < n ==> s@.skip(i as int)[0] == s@[i as int]);
    assert(trim_start_by(s@, class) == s@.skip(i as int));
    let mut j: usize = n;
    assert(s@.subrange(i as int, n as int) =~= s@.skip(i as int));
    while j > i && char_is_white(s[j - 1])
        invariant
            i <= j <= n == s@.len(),
            class == |c: char| is_white(c),
            trim_end_by(s@.skip(i as int), class) == trim_end_by(
                s@.subrange(i as int, j as int),
                class,
            ),
        decreases j,
    {
        assert(s@.subrange(i as int, j as int).last() == s@[j - 1]);
        assert(s@.subrange(i as int, j as int).drop_last() =~= s@.subrange(i as int, j - 1));
        j -= 1;
    }
    assert(j > i ==> s@.subrange(i as int, j as int).last() == s@[j - 1]);
    vstd::slice::slice_subrange(s, i, j)
}

/// Removes leading and trailing square brackets.
pub fn trim_bracket_chars(s: &[char]) -> (r: &[char])
    ensures
        r@ == trim_brackets(s@),
{
    let ghost class = |c: char| c == '[' || c == ']';
    let n: usize = s.len();
    let mut i: usize = 0;
    assert(s@.skip(0) =~= s@);
    while i < n && (s[i] == '[' || s[i] == ']')
        invariant
            i <= n == s@.len(),
            class == |c: char| c == '[' || c == ']',
            trim_start_by(s@, class) == trim_start_by(s@.skip(i as int), class),
        decreases n - i,
    {
        assert(s@.skip(i as int).skip(1) =~= s@.skip(i + 1));
        i += 1;
    }
    assert(i < n ==> s@.skip(i as int)[0] == s@[i as int]);
    assert(trim_start_by(s@, class) == s@.skip(i as int));
    let mut j: usize = n;
    assert(s@.subrange(i as int, n as int) =~= s@.skip(i as int));
    while j > i && (s[j - 1] == '[' || s[j - 1] == ']')
        invariant
            i <= j <= n == s@.len(),
            class == |c: char| c == '[' || c == ']',
            trim_end_by(s@.skip(i as int), class) == trim_end_by(
                s@.subrange(i as int, j as int),
                class,
            ),
        decreases j,
    {
        assert(s@.subrange(i as int, j as int).last() == s@[j - 1]);
        assert(s@.subrange(i as int, j as int).drop_last() =~= s@.subrange(i as int, j - 1));
        j -= 1;
    }
    assert(j > i ==> s@.subrange(i as int, j as int).last() == s@[j - 1]);
    vstd::slice::slice_subrange(s, i, j)
}

// ---------------------------------------------------------------------------------------------
// Searching and splitting
// ---------------------------------------------------------------------------------------------

/// The position of the first occurrence of a character.
pub open spec fn first_index(s: Seq<char>, c: char) -> Option<int>
    decreases s.len(),
{
    if s.len() == 0 {
        None
    } else if s[0] == c {
        Some(0int)
    } else {
        match first_index(s.skip(1), c) {
            Some(i) => Some(i + 1),
            None => None,
        }
    }
}

/// The position of the last occurrence of a character.
pub open spec fn last_index(s: Seq<char>, c: char) -> Option<int>
    decreases s.len(),
{
    if s.len() == 0 {
        None
    } else if s.last() == c {
        Some(s.len() - 1)
    } else {
        last_index(s.drop_last(), c)
    }
}

/// The pieces of a text between the occurrences of a separator.
pub open spec fn split(s: Seq<char>, c: char) -> Seq<Seq<char>>
    decreases s.len(),
{
    match first_index(s, c) {
        None => seq![s],
        Some(i) => if 0 <= i < s.len() {
            seq![s.take(i)] + split(s.skip(i + 1), c)
        } else {
            seq![s]
        },
    }
}

/// The part of a text before the first occurrence of a separator, or all of it.
pub open spec fn before_first(s: Seq<char>, c: char) -> Seq<char> {
    match first_index(s, c) {
        Some(i) => s.take(i),
        None => s,
    }
}

/// Text `prefix` starts `s`.
pub open spec fn starts_with(s: Seq<char>, prefix: Seq<char>) -> bool {
    prefix.len() <= s.len() && s.take(prefix.len() as int) == prefix
}

/// Text `part` occurs in `s`.
pub open spec fn contains_text(s: Seq<char>, part: Seq<char>) -> bool {
    exists|i: int| 0 <= i <= s.len() - part.len() && #[trigger] s.subrange(i, i + part.len()) == part
}

/// The first position is the one before which the character does not occur.
pub proof fn lemma_first_index(s: Seq<char>, c: char)
    ensures
        match first_index(s, c) {
            Some(i) => 0 <= i < s.len() && s[i] == c && forall|j: int| 0 <= j < i ==> s[j] != c,
            None => forall|j: int| 0 <= j < s.len() ==> s[j] != c,
        },
    decreases s.len(),
{
    if s.len() > 0 && s[0] != c {
        lemma_first_index(s.skip(1), c);
        assert forall|j: int| 1 <= j < s.len() implies s[j] == s.skip(1)[j - 1] by {}
        match first_index(s.skip(1), c) {
            Some(i) => {
                assert forall|j: int| 0 <= j < i + 1 implies s[j] != c by {
                    if j > 0 {
                        assert(s.skip(1)[j - 1] != c);
                    }
                }
            },
            None => {
                assert forall|j: int| 0 <= j < s.len() implies s[j] != c by {
                    if j > 0 {
                        assert(s.skip(1)[j - 1] != c);
                    }
                }
            },
        }
    }
}

/// The last position is the one after which the character does not occur.
pub proof fn lemma_last_index(s: Seq<char>, c: char)
    ensures
        match last_index(s, c) {
            Some(i) => 0 <= i < s.len() && s[i] == c && forall|j: int|
                i < j < s.len() ==> s[j] != c,
            None => forall|j: int| 0 <= j < s.len() ==> s[j] != c,
        },
    decreases s.len(),
{
    if s.len() > 0 && s.last() != c {
        lemma_last_index(s.drop_last(), c);
        let t = s.drop_last();
        assert forall|j: int| 0 <= j < t.len() implies s[j] == t[j] by {}
        match last_index(t, c) {
            Some(i) => {
                assert forall|j: int| i < j < s.len() implies s[j] != c by {
                    if j < t.len() {
                        assert(t[j] != c);
                    }
                }
            },
            None => {
                assert forall|j: int| 0 <= j < s.len() implies s[j] != c by {
                    if j < t.len() {
                        assert(t[j] != c);
                    }
                }
            },
        }
    }
}

/// A position with the two properties of the first one is the first one.
pub proof fn lemma_first_index_is(s: Seq<char>, c: char, i: int)
    requires
        0 <= i < s.len(),
        s[i] == c,
        forall|j: int| 0 <= j < i ==> s[j] != c,
    ensures
        first_index(s, c) == Some(i),
{
    lemma_first_index(s, c);
}

/// Finds the first occurrence of a character.
pub fn find_char(s: &[char], c: char) -> (r: Option<usize>)
    ensures
        match r {
            Some(i) => first_index(s@, c) == Some(i as int) && i < s@.len(),
            None => first_index(s@, c) is None,
        },
{
    let mut i: usize = 0;
    while i < s.len()
        invariant
            i <= s@.len(),
            forall|j: int| 0 <= j < i ==> s@[j] != c,
        decreases s@.len() - i,
    {
        if s[i] == c {
            proof {
                lemma_first_index_is(s@, c, i as int);
            }
            return Some(i);
        }
        i += 1;
    }
    proof {
        lemma_first_index(s@, c);
    }
    None
}

/// Finds the last occurrence of a character.
pub fn rfind_char(s: &[char], c: char) -> (r: Option<usize>)
    ensures
        match r {
            Some(i) => last_index(s@, c) == Some(i as int) && i < s@.len(),
            None => last_index(s@, c) is None,
        },
{
    proof {
        lemma_last_index(s@, c);
    }
    let mut i: usize = s.len();
    while i > 0
        invariant
            i <= s@.len(),
            forall|j: int| i <= j < s@.len() ==> s@[j] != c,
            match last_index(s@, c) {
                Some(i) => 0 <= i < s@.len() && s@[i] == c && forall|j: int|
                    i < j < s@.len() ==> s@[j] != c,
                None => forall|j: int| 0 <= j < s@.len() ==> s@[j] != c,
            },
        decreases i,
    {
        i -= 1;
        if s[i] == c {
            return Some(i);
        }
    }
    None
}

/// Tells whether a text starts with another.
pub fn chars_start_with(s: &[char], prefix: &[char]) -> (r: bool)
    ensures
        r == starts_with(s@, prefix@),
{
    if prefix.len() > s.len() {
        return false;
    }
    chars_eq(vstd::slice::slice_subrange(s, 0, prefix.len()), prefix)
}

/// Tells whether a text occurs in another.
pub fn chars_contain(s: &[char], part: &[char]) -> (r: bool)
    ensures
        r == contains_text(s@, part@),
{
    if part.len() > s.len() {
        return false;
    }
    let n: usize = s.len();
    let last: usize = n - part.len();
    let mut i: usize = 0;
    while i <= last
        invariant
            n == s@.len(),
            last == n - part@.len(),
            i <= last + 1,
            forall|j: int|
                0 <= j < i ==> #[trigger] s@.subrange(j, j + part@.len()) != part@,
        decreases last + 1 - i,
    {
        if chars_eq(vstd::slice::slice_subrange(s, i, i + part.len()), part) {
            return true;
        }
        if i == last {
            return false;
        }
        i += 1;
    }
    false
}

/// The texts of a sequence of character vectors.
pub open spec fn char_texts(v: Seq<Vec<char>>) -> Seq<Seq<char>> {
    Seq::new(v.len(), |i: int| v[i]@)
}

/// Splits a text at every occurrence of a separator.
pub fn split_chars(s: &[char], c: char) -> (r: Vec<Vec<char>>)
    ensures
        char_texts(r@) == split(s@, c),
{
    let mut r: Vec<Vec<char>> = Vec::new();
    let mut start: usize = 0;
    assert(s@.skip(0) =~= s@);
    assert(char_texts(r@) + split(s@, c) =~= split(s@, c));
    loop
        invariant
            start <= s@.len(),
            char_texts(r@) + split(s@.skip(start as int), c) == split(s@, c),
        decreases s@.len() - start,
    {
        let n: usize = s.len();
        let rest = vstd::slice::slice_subrange(s, start, n);
        assert(rest@ =~= s@.skip(start as int));
        let ghost before = r@;
        match find_char(rest, c) {
            Some(i) => {
                let piece = vstd::slice::slice_to_vec(vstd::slice::slice_subrange(rest, 0, i));
                r.push(piece);
                assert(rest@.skip(i + 1) =~= s@.skip(start + i + 1));
                assert(char_texts(r@) =~= char_texts(before).push(rest@.take(i as int)));
                assert(char_texts(r@) + split(s@.skip(start + i + 1), c) =~= char_texts(before) + (
                seq![rest@.take(i as int)] + split(rest@.skip(i + 1), c)));
                start = start + i + 1;
            },
            None => {
                r.push(vstd::slice::slice_to_vec(rest));
                assert(char_texts(r@) =~= char_texts(before) + seq![rest@]);
                return r;
            },
        }
    }
}

/// Texts joined by a separator.
pub open spec fn join(parts: Seq<Seq<char>>, separator: Seq<char>) -> Seq<char>
    decreases parts.len(),
{
    if parts.len() == 0 {
        Seq::empty()
    } else if parts.len() == 1 {
        parts[0]
    } else {
        join(parts.drop_last(), separator) + separator + parts.last()
    }
}

/// Joins strings by a separator.
pub fn join_texts(parts: &[String], separator: &str) -> (r: String)
    ensures
        r@ == join(texts(parts@), separator@),
{
    let mut r = String::new();
    let ghost all = texts(parts@);
    let mut i: usize = 0;
    assert(all.take(0) =~= Seq::empty());
    while i < parts.len()
        invariant
            i <= parts@.len(),
            all == texts(parts@),
            r@ == join(all.take(i as int), separator@),
        decreases parts@.len() - i,
    {
        if i > 0 {
            r.append(separator);
        }
        r.append(parts[i].as_str());
        assert(all.take(i + 1).drop_last() =~= all.take(i as int));
        assert(all.take(i + 1).last() == all[i as int]);
        i += 1;
    }
    assert(all.take(i as int) =~= all);
    r
}

// ---------------------------------------------------------------------------------------------
// Numbers
// ---------------------------------------------------------------------------------------------

/// A number in decimal, without leading zeros.
pub open spec fn decimal(n: nat) -> Seq<char>
    decreases n,
{
    if n < 10 {
        seq![digit_char(n)]
    } else {
        decimal(n / 10).push(digit_char(n % 10))
    }
}

/// The value of a sequence of digits, the most significant first.
pub open spec fn digits_value(s: Seq<char>, radix: nat) -> Option<nat>
    decreases s.len(),
{
    if s.len() == 0 {
        Some(0nat)
    } else {
        match (digits_value(s.drop_last(), radix), digit_value(s.last(), radix)) {
            (Some(high), Some(low)) => Some(high * radix + low),
            _ => None,
        }
    }
}

/// The value of an unsigned number with an optional plus sign: at least one digit, nothing else.
pub open spec fn unsigned_value(s: Seq<char>, radix: nat) -> Option<nat> {
    let digits = if s.len() > 0 && s[0] == '+' {
        s.skip(1)
    } else {
        s
    };
    if digits.len() == 0 {
        None
    } else {
        digits_value(digits, radix)
    }
}

/// The value of an unsigned number that is no larger than `max`.
pub open spec fn bounded_value(s: Seq<char>, radix: nat, max: nat) -> Option<nat> {
    match unsigned_value(s, radix) {
        Some(n) => if n <= max {
            Some(n)
        } else {
            None
        },
        None => None,
    }
}

/// Appends a number in decimal.
pub fn push_decimal(out: &mut String, n: u128)
    ensures
        final(out)@ == old(out)@ + decimal(n as nat),
    decreases n,
{
    if n < 10 {
        out.push(char_of_digit(n as u8));
        assert(out@ =~= old(out)@ + decimal(n as nat));
    } else {
        push_decimal(out, n / 10);
        out.push(char_of_digit((n % 10) as u8));
        assert(out@ =~= old(out)@ + decimal(n as nat));
    }
}

/// A number in decimal.
pub fn decimal_text(n: u128) -> (r: String)
    ensures
        r@ == decimal(n as nat),
{
    let mut r = String::new();
    push_decimal(&mut r, n);
    assert(r@ =~= decimal(n as nat));
    r
}

/// Whatever follows digits that already exceed a bound, the whole number exceeds it.
proof fn lemma_digits_exceed(s: Seq<char>, i: int, radix: nat, max: nat)
    requires
        0 <= i <= s.len(),
        radix > 0,
        match digits_value(s.take(i), radix) {
            Some(n) => n > max,
            None => true,
        },
    ensures
        match digits_value(s, radix) {
            Some(n) => n > max,
            None => true,
        },
    decreases s.len() - i,
{
    if i < s.len() {
        assert(s.take(i + 1).drop_last() =~= s.take(i));
        match (digits_value(s.take(i), radix), digit_value(s.take(i + 1).last(), radix)) {
            (Some(high), Some(low)) => {
                assert(high * radix >= high) by (nonlinear_arith)
                    requires
                        radix >= 1,
                        high >= 0,
                ;
            },
            _ => {},
        }
        lemma_digits_exceed(s, i + 1, radix, max);
    } else {
        assert(s.take(i) =~= s);
    }
}

/// Reads an unsigned number that is no larger than `max`.
pub fn parse_unsigned(s: &[char], radix: u8, max: u64) -> (r: Option<u64>)
    requires
        2 <= radix <= 36,
    ensures
        match r {
            Some(n) => bounded_value(s@, radix as nat, max as nat) == Some(n as nat) && n <= max,
            None => bounded_value(s@, radix as nat, max as nat) is None,
        },
{
    let n: usize = s.len();
    let start: usize = if n > 0 && s[0] == '+' {
        1
    } else {
        0
    };
    let digits = vstd::slice::slice_subrange(s, start, n);
    assert(digits@ =~= if s@.len() > 0 && s@[0] == '+' {
        s@.skip(1)
    } else {
        s@
    });
    if digits.len() == 0 {
        return None;
    }
    let mut value: u64 = 0;
    let mut i: usize = 0;
    assert(digits@.take(0) =~= Seq::empty());
    while i < digits.len()
        invariant
            2 <= radix <= 36,
            i <= digits@.len(),
            value <= max,
            digits_value(digits@.take(i as int), radix as nat) == Some(value as nat),
            digits@.len() > 0,
            digits@ == (if s@.len() > 0 && s@[0] == '+' {
                s@.skip(1)
            } else {
                s@
            }),
        decreases digits@.len() - i,
    {
        assert(digits@.take(i + 1).drop_last() =~= digits@.take(i as int));
        match value_of_digit(digits[i], radix) {
            Some(d) => {
                assert(0 <= value * radix <= 0xffff_ffff_ffff_ffff * 36) by (nonlinear_arith)
                    requires
                        0 <= value <= 0xffff_ffff_ffff_ffff,
                        0 <= radix <= 36,
                ;
                let next: u128 = value as u128 * radix as u128 + d as u128;
                if next > max as u128 {
                    proof {
                        lemma_digits_exceed(digits@, i + 1, radix as nat, max as nat);
                    }
                    return None;
                }
                value = next as u64;
            },
            None => {
                proof {
                    lemma_digits_exceed(digits@, i + 1, radix as nat, max as nat);
                }
                return None;
            },
        }
        i += 1;
    }
    assert(digits@.take(i as int) =~= digits@);
    Some(value)
}

/// A byte as two lower-case hexadecimal digits.
pub open spec fn hex_byte(b: u8) -> Seq<char> {
    seq![digit_char((b / 16) as nat), digit_char((b % 16) as nat)]
}

/// Appends a byte as two hexadecimal digits.
pub fn push_hex_byte(out: &mut String, b: u8)
    ensures
        final(out)@ == old(out)@ + hex_byte(b),
{
    out.push(char_of_digit(b / 16));
    out.push(char_of_digit(b % 16));
    assert(out@ =~= old(out)@ + hex_byte(b));
}

/// Bytes as pairs of lower-case hexadecimal digits.
pub open spec fn hex_text(bytes: Seq<u8>) -> Seq<char>
    decreases bytes.len(),
{
    if bytes.len() == 0 {
        Seq::empty()
    } else {
        hex_text(bytes.drop_last()) + hex_byte(bytes.last())
    }
}

// ---------------------------------------------------------------------------------------------
// The order of strings
// ---------------------------------------------------------------------------------------------

/// The lexicographic order of byte sequences.
pub open spec fn bytes_less(a: Seq<u8>, b: Seq<u8>) -> bool
    decreases b.len(),
{
    if b.len() == 0 {
        false
    } else if a.len() == 0 {
        true
    } else if a[0] != b[0] {
        a[0] < b[0]
    } else {
        bytes_less(a.skip(1), b.skip(1))
    }
}

/// The order of strings: lexicographic by the bytes of their UTF-8 encodings.
pub open spec fn text_less(a: Seq<char>, b: Seq<char>) -> bool {
    bytes_less(vstd::utf8::encode_utf8(a), vstd::utf8::encode_utf8(b))
}

proof fn lemma_bytes_less_total(a: Seq<u8>, b: Seq<u8>)
    ensures
        bytes_less(a, b) || bytes_less(b, a) || a == b,
        !(bytes_less(a, b) && bytes_less(b, a)),
        a == b ==> !bytes_less(a, b),
    decreases b.len(),
{
    if a.len() > 0 && b.len() > 0 && a[0] == b[0] {
        lemma_bytes_less_total(a.skip(1), b.skip(1));
        if a.skip(1) == b.skip(1) {
            assert(a =~= seq![a[0]] + a.skip(1));
            assert(b =~= seq![b[0]] + b.skip(1));
        }
    } else if a.len() == 0 && b.len() == 0 {
        assert(a =~= b);
    }
}

proof fn lemma_bytes_less_trans(a: Seq<u8>, b: Seq<u8>, c: Seq<u8>)
    requires
        bytes_less(a, b),
        bytes_less(b, c),
    ensures
        bytes_less(a, c),
    decreases c.len(),
{
    if a.len() > 0 && b.len() > 0 && c.len() > 0 && a[0] == b[0] && b[0] == c[0] {
        lemma_bytes_less_trans(a.skip(1), b.skip(1), c.skip(1));
    }
}

/// Of two texts exactly one of three holds: the first is less, the second is less, or they are
/// equal.
pub proof fn text_order_total(a: Seq<char>, b: Seq<char>)
    ensures
        text_less(a, b) || text_less(b, a) || a == b,
        !(text_less(a, b) && text_less(b, a)),
        a == b ==> !text_less(a, b),
{
    let x = vstd::utf8::encode_utf8(a);
    let y = vstd::utf8::encode_utf8(b);
    lemma_bytes_less_total(x, y);
    if x == y {
        lemma_utf8_injective(a, b);
    }
}

/// The order of texts is transitive.
pub proof fn text_order_transitive(a: Seq<char>, b: Seq<char>, c: Seq<char>)
    requires
        text_less(a, b),
        text_less(b, c),
    ensures
        text_less(a, c),
{
    lemma_bytes_less_trans(
        vstd::utf8::encode_utf8(a),
        vstd::utf8::encode_utf8(b),
        vstd::utf8::encode_utf8(c),
    );
}

/// Tells whether a string comes before another.
pub fn text_before(a: &str, b: &str) -> (r: bool)
    ensures
        r == text_less(a@, b@),
{
    let x = a.as_bytes();
    let y = b.as_bytes();
    let mut i: usize = 0;
    assert(x@.skip(0) =~= x@);
    assert(y@.skip(0) =~= y@);
    loop
        invariant
            i <= x@.len(),
            i <= y@.len(),
            bytes_less(x@, y@) == bytes_less(x@.skip(i as int), y@.skip(i as int)),
            x@ == vstd::utf8::encode_utf8(a@),
            y@ == vstd::utf8::encode_utf8(b@),
        decreases x@.len() - i,
    {
        if i == y.len() {
            return false;
        }
        if i == x.len() {
            return true;
        }
        if x[i] != y[i] {
            return x[i] < y[i];
        }
        assert(x@.skip(i as int).skip(1) =~= x@.skip(i + 1));
        assert(y@.skip(i as int).skip(1) =~= y@.skip(i + 1));
        i += 1;
    }
}

// ---------------------------------------------------------------------------------------------
// Laws
// ---------------------------------------------------------------------------------------------

/// A number in decimal reads back as the same number. It holds nothing but digits, and no zero
/// stands in front of others.
pub proof fn decimals_read_back(n: nat)
    ensures
        decimal(n).len() > 0,
        digits_value(decimal(n), 10) == Some(n),
        unsigned_value(decimal(n), 10) == Some(n),
        forall|i: int| 0 <= i < decimal(n).len() ==> '0' <= #[trigger] decimal(n)[i] <= '9',
        decimal(n).len() > 1 ==> decimal(n)[0] != '0',
        n < 1000 ==> decimal(n).len() <= 3,
    decreases n,
{
    let s = decimal(n);
    if n < 10 {
        assert(s.drop_last() =~= Seq::empty());
        assert(digits_value(s.drop_last(), 10) == Some(0nat));
    } else {
        decimals_read_back(n / 10);
        assert(s.drop_last() =~= decimal(n / 10));
        assert(s[0] == decimal(n / 10)[0]);
        assert forall|i: int| 0 <= i < s.len() implies '0' <= #[trigger] s[i] <= '9' by {
            if i < s.len() - 1 {
                assert(s[i] == decimal(n / 10)[i]);
            }
        }
        if n < 1000 {
            decimals_read_back(n / 100);
            if n / 10 >= 10 {
                assert(decimal(n / 10).drop_last() =~= decimal(n / 100)) by {
                    assert(n / 10 / 10 == n / 100);
                }
                assert(n / 100 < 10);
            }
        }
    }
}

/// A text without the separator is its own only piece.
pub proof fn lemma_split_whole(s: Seq<char>, c: char)
    requires
        !s.contains(c),
    ensures
        split(s, c) == seq![s],
{
    lemma_first_index(s, c);
}

/// A piece behind one more separator is one more piece.
pub proof fn lemma_split_push(front: Seq<char>, c: char, piece: Seq<char>)
    requires
        !piece.contains(c),
    ensures
        split(front.push(c) + piece, c) == split(front, c).push(piece),
    decreases front.len(),
{
    let s = front.push(c) + piece;
    lemma_first_index(front, c);
    match first_index(front, c) {
        None => {
            assert(s[front.len() as int] == c);
            assert forall|j: int| 0 <= j < front.len() implies s[j] != c by {
                assert(s[j] == front[j]);
            }
            lemma_first_index_is(s, c, front.len() as int);
            assert(s.take(front.len() as int) =~= front);
            assert(s.skip(front.len() as int + 1) =~= piece);
            lemma_split_whole(piece, c);
            assert(seq![front] + seq![piece] =~= seq![front].push(piece));
        },
        Some(i) => {
            assert(s[i] == c);
            assert forall|j: int| 0 <= j < i implies s[j] != c by {
                assert(s[j] == front[j]);
            }
            lemma_first_index_is(s, c, i);
            let rest = front.skip(i + 1);
            assert(s.take(i) =~= front.take(i));
            assert(s.skip(i + 1) =~= rest.push(c) + piece);
            lemma_split_push(rest, c, piece);
            assert(seq![front.take(i)] + split(rest, c).push(piece) =~= (seq![front.take(i)]
                + split(rest, c)).push(piece));
        },
    }
}

/// Every character of a text but the separator stands in one of its pieces.
pub proof fn lemma_split_covers(s: Seq<char>, c: char, k: int)
    requires
        0 <= k < s.len(),
        s[k] != c,
    ensures
        exists|i: int| 0 <= i < split(s, c).len() && (#[trigger] split(s, c)[i]).contains(s[k]),
    decreases s.len(),
{
    lemma_first_index(s, c);
    let parts = split(s, c);
    match first_index(s, c) {
        None => {
            assert(parts[0] == s);
            assert(parts[0].contains(s[k]));
        },
        Some(i) => {
            if k < i {
                assert(s.take(i)[k] == s[k]);
                assert(parts[0].contains(s[k]));
            } else {
                let rest = s.skip(i + 1);
                assert(rest[k - i - 1] == s[k]);
                lemma_split_covers(rest, c, k - i - 1);
                let j = choose|j: int|
                    0 <= j < split(rest, c).len() && (#[trigger] split(rest, c)[j]).contains(s[k]);
                assert(parts[j + 1] == split(rest, c)[j]);
            }
        },
    }
}

} // verus!
