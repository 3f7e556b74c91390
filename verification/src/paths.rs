//! Unix file paths, as the bytes they are made of.
use crate::outside;
use crate::wire;
use vstd::prelude::*;
use vstd::string::StringExecFns;

verus! {

/// A file path.
#[derive(Debug, PartialEq, Eq)]
pub struct FilePath {
    pub bytes: Vec<u8>,
}

impl View for FilePath {
    type V = Seq<u8>;

    open spec fn view(&self) -> Seq<u8> {
        self.bytes@
    }
}

/// The byte between components.
pub const SEPARATOR: u8 = 47;

/// The byte before an extension.
pub const DOT: u8 = 46;

// ---------------------------------------------------------------------------------------------
// Model
// ---------------------------------------------------------------------------------------------

/// The position behind the last occurrence of a byte; zero where it does not occur.
pub open spec fn behind_last(bytes: Seq<u8>, b: u8) -> int
    decreases bytes.len(),
{
    if bytes.len() == 0 {
        0
    } else if bytes.last() == b {
        bytes.len() as int
    } else {
        behind_last(bytes.drop_last(), b)
    }
}

/// How much of a path always stays: the root, or the dot that stands for the current directory.
pub open spec fn fixed_length(path: Seq<u8>) -> int {
    if path.len() > 0 && path[0] == SEPARATOR {
        1
    } else if path.len() > 0 && path[0] == DOT && (path.len() == 1 || path[1] == SEPARATOR) {
        1
    } else {
        0
    }
}

/// The last byte of a path means nothing: it is a separator, or a dot that is a whole component.
pub open spec fn idle_tail(path: Seq<u8>) -> bool {
    path.len() > fixed_length(path) && (path.last() == SEPARATOR || (path.last() == DOT
        && path.len() >= 2 && path[path.len() - 2] == SEPARATOR))
}

/// A path without the separators and single dots at its end.
pub open spec fn trimmed(path: Seq<u8>) -> Seq<u8>
    decreases path.len(),
{
    if path.len() > 0 && idle_tail(path) {
        trimmed(path.drop_last())
    } else {
        path
    }
}

/// The last component of a path, unless it is the root or a dot component.
pub open spec fn file_name(path: Seq<u8>) -> Option<Seq<u8>> {
    let t = trimmed(path);
    let name = t.skip(behind_last(t, SEPARATOR));
    if name.len() == 0 || name == seq![DOT] || name == seq![DOT, DOT] {
        None
    } else {
        Some(name)
    }
}

/// The path that holds the last component.
pub open spec fn directory(path: Seq<u8>) -> Seq<u8> {
    let t = trimmed(path);
    trimmed(t.take(behind_last(t, SEPARATOR)))
}

/// A path below another; an absolute one stands for itself.
pub open spec fn joined(path: Seq<u8>, name: Seq<u8>) -> Seq<u8> {
    if name.len() > 0 && name[0] == SEPARATOR {
        name
    } else if path.len() > 0 && path.last() != SEPARATOR {
        path.push(SEPARATOR) + name
    } else {
        path + name
    }
}

/// A path with another last component.
pub open spec fn renamed(path: Seq<u8>, name: Seq<u8>) -> Seq<u8> {
    joined(
        if file_name(path) is Some {
            directory(path)
        } else {
            path
        },
        name,
    )
}

/// Where the extension of a file name starts: behind its last dot, unless the name starts with
/// that dot.
pub open spec fn extension_start(name: Seq<u8>) -> Option<int> {
    if behind_last(name, DOT) >= 2 {
        Some(behind_last(name, DOT))
    } else {
        None
    }
}

/// The last component of a path without its extension.
pub open spec fn file_stem(path: Seq<u8>) -> Option<Seq<u8>> {
    match file_name(path) {
        Some(name) => match extension_start(name) {
            Some(i) => Some(name.take(i - 1)),
            None => Some(name),
        },
        None => None,
    }
}

/// The extension of the last component of a path.
pub open spec fn extension(path: Seq<u8>) -> Option<Seq<u8>> {
    match file_name(path) {
        Some(name) => match extension_start(name) {
            Some(i) => Some(name.skip(i)),
            None => None,
        },
        None => None,
    }
}

/// A part of a path if it is UTF-8, or else the given text.
pub open spec fn readable_or(part: Option<Seq<u8>>, default: Seq<char>) -> Seq<u8> {
    match part {
        Some(bytes) => if vstd::utf8::valid_utf8(bytes) {
            bytes
        } else {
            vstd::utf8::encode_utf8(default)
        },
        None => vstd::utf8::encode_utf8(default),
    }
}

/// The file name that a tagged path ends with.
pub open spec fn tagged_name(
    path: Seq<u8>,
    tag: Seq<char>,
    default_stem: Seq<char>,
    default_extension: Seq<char>,
) -> Seq<u8> {
    readable_or(file_stem(path), default_stem).push(DOT) + vstd::utf8::encode_utf8(tag).push(DOT)
        + readable_or(extension(path), default_extension)
}

/// A path with a word put in before its extension.
pub open spec fn tagged(
    path: Seq<u8>,
    tag: Seq<char>,
    default_stem: Seq<char>,
    default_extension: Seq<char>,
) -> Seq<u8> {
    renamed(path, tagged_name(path, tag, default_stem, default_extension))
}

// ---------------------------------------------------------------------------------------------
// Operations
// ---------------------------------------------------------------------------------------------

/// Finds the position behind the last occurrence of a byte.
fn find_behind_last(bytes: &[u8], b: u8) -> (r: usize)
    ensures
        r == behind_last(bytes@, b),
        r <= bytes@.len(),
{
    let mut i: usize = bytes.len();
    assert(bytes@.take(i as int) =~= bytes@);
    while i > 0
        invariant
            i <= bytes@.len(),
            behind_last(bytes@.take(i as int), b) == behind_last(bytes@, b),
        decreases i,
    {
        if bytes[i - 1] == b {
            return i;
        }
        assert(bytes@.take(i as int).drop_last() =~= bytes@.take(i - 1));
        i -= 1;
    }
    0
}

/// Cuts the separators and single dots at the end of a path.
fn trim_path(bytes: &[u8]) -> (r: &[u8])
    ensures
        r@ == trimmed(bytes@),
{
    let mut n: usize = bytes.len();
    assert(bytes@.take(n as int) =~= bytes@);
    while n > 0
        invariant_except_break
            n <= bytes@.len(),
            trimmed(bytes@.take(n as int)) == trimmed(bytes@),
        ensures
            n <= bytes@.len(),
            bytes@.take(n as int) == trimmed(bytes@),
        decreases n,
    {
        let ghost here = bytes@.take(n as int);
        let fixed: usize = if bytes[0] == SEPARATOR || (bytes[0] == DOT && (n == 1 || bytes[1]
            == SEPARATOR)) {
            1
        } else {
            0
        };
        assert(fixed == fixed_length(here));
        if n > fixed && (bytes[n - 1] == SEPARATOR || (bytes[n - 1] == DOT && n >= 2 && bytes[n - 2]
            == SEPARATOR)) {
            assert(idle_tail(here));
            assert(here.drop_last() =~= bytes@.take(n - 1));
            n -= 1;
        } else {
            assert(!idle_tail(here));
            break;
        }
    }
    assert(bytes@.take(n as int) =~= bytes@.subrange(0, n as int));
    vstd::slice::slice_subrange(bytes, 0, n)
}

/// Finds the last component of a path.
fn find_file_name(bytes: &[u8]) -> (r: Option<&[u8]>)
    ensures
        match r {
            Some(name) => file_name(bytes@) == Some(name@),
            None => file_name(bytes@) is None,
        },
{
    let t = trim_path(bytes);
    let i: usize = find_behind_last(t, SEPARATOR);
    let n: usize = t.len();
    let name = vstd::slice::slice_subrange(t, i, n);
    assert(name@ =~= t@.skip(i as int));
    if n == i {
        return None;
    }
    if n - i == 1 && name[0] == DOT {
        assert(name@ =~= seq![DOT]);
        return None;
    }
    if n - i == 2 && name[0] == DOT && name[1] == DOT {
        assert(name@ =~= seq![DOT, DOT]);
        return None;
    }
    proof {
        assert(name@ != seq![DOT]) by {
            if name@ == seq![DOT] {
                assert(name@[0] == DOT);
            }
        }
        assert(name@ != seq![DOT, DOT]) by {
            if name@ == seq![DOT, DOT] {
                assert(name@[0] == DOT && name@[1] == DOT);
            }
        }
    }
    Some(name)
}

/// Gives a part of a path if it is UTF-8, or else the given text.
fn readable_part(part: Option<&[u8]>, default: &str) -> (r: Vec<u8>)
    ensures
        r@ == readable_or(
            match part {
                Some(bytes) => Some(bytes@),
                None => None,
            },
            default@,
        ),
{
    match part {
        Some(bytes) => {
            if outside::decode_strict(bytes).is_some() {
                return vstd::slice::slice_to_vec(bytes);
            }
        },
        None => {},
    }
    vstd::slice::slice_to_vec(default.as_bytes())
}

impl Clone for FilePath {
    fn clone(&self) -> (r: Self)
        ensures
            r@ == self@,
    {
        FilePath { bytes: vstd::slice::slice_to_vec(&self.bytes) }
    }
}

impl FilePath {
    /// The path that a text stands for.
    pub fn new(path: &str) -> (r: Self)
        ensures
            r@ == vstd::utf8::encode_utf8(path@),
    {
        FilePath { bytes: vstd::slice::slice_to_vec(path.as_bytes()) }
    }

    /// The path of a name below this path.
    pub fn join(&self, name: &[u8]) -> (r: Self)
        ensures
            r@ == joined(self@, name@),
    {
        let n: usize = self.bytes.len();
        if name.len() > 0 && name[0] == SEPARATOR {
            return FilePath { bytes: vstd::slice::slice_to_vec(name) };
        }
        let mut bytes = vstd::slice::slice_to_vec(&self.bytes);
        if n > 0 && self.bytes[n - 1] != SEPARATOR {
            bytes.push(SEPARATOR);
        }
        wire::push_bytes(&mut bytes, name);
        FilePath { bytes }
    }

    /// The path with another last component.
    pub fn with_file_name(&self, name: &[u8]) -> (r: Self)
        ensures
            r@ == renamed(self@, name@),
    {
        if find_file_name(&self.bytes).is_none() {
            return self.join(name);
        }
        let t = trim_path(&self.bytes);
        let i: usize = find_behind_last(t, SEPARATOR);
        let front = vstd::slice::slice_subrange(t, 0, i);
        assert(front@ =~= t@.take(i as int));
        let directory = FilePath { bytes: vstd::slice::slice_to_vec(trim_path(front)) };
        directory.join(name)
    }

    /// The path with a word put in before its extension. A stem or an extension that is missing or
    /// not UTF-8 is replaced.
    pub fn with_tag(&self, tag: &str, default_stem: &str, default_extension: &str) -> (r: Self)
        ensures
            r@ == tagged(self@, tag@, default_stem@, default_extension@),
    {
        let mut stem: Option<&[u8]> = None;
        let mut suffix: Option<&[u8]> = None;
        if let Some(name) = find_file_name(&self.bytes) {
            let i: usize = find_behind_last(name, DOT);
            let n: usize = name.len();
            if i >= 2 {
                let front = vstd::slice::slice_subrange(name, 0, i - 1);
                let back = vstd::slice::slice_subrange(name, i, n);
                assert(front@ =~= name@.take(i - 1));
                assert(back@ =~= name@.skip(i as int));
                stem = Some(front);
                suffix = Some(back);
            } else {
                stem = Some(name);
            }
        }
        let mut name = readable_part(stem, default_stem);
        name.push(DOT);
        wire::push_bytes(&mut name, tag.as_bytes());
        name.push(DOT);
        let end = readable_part(suffix, default_extension);
        wire::push_bytes(&mut name, &end);
        assert(name@ =~= readable_or(file_stem(self@), default_stem@).push(DOT)
            + vstd::utf8::encode_utf8(tag@).push(DOT) + readable_or(
            extension(self@),
            default_extension@,
        ));
        self.with_file_name(&name)
    }

    /// The path as text, with replacement characters where it is not UTF-8.
    pub fn display(&self) -> (r: String)
        ensures
            r@ == outside::lossy(self@),
    {
        outside::decode_lossy(&self.bytes)
    }

    /// The path as text, if it is UTF-8.
    pub fn to_text(&self) -> (r: Option<String>)
        ensures
            match r {
                Some(s) => vstd::utf8::valid_utf8(self@) && s@ == vstd::utf8::decode_utf8(self@),
                None => !vstd::utf8::valid_utf8(self@),
            },
    {
        match outside::decode_strict(&self.bytes) {
            Some(s) => Some(s.to_owned()),
            None => None,
        }
    }
}

// ---------------------------------------------------------------------------------------------
// Laws
// ---------------------------------------------------------------------------------------------

proof fn lemma_behind_last(bytes: Seq<u8>, b: u8)
    ensures
        0 <= behind_last(bytes, b) <= bytes.len(),
        behind_last(bytes, b) > 0 ==> bytes[behind_last(bytes, b) - 1] == b,
        forall|i: int| behind_last(bytes, b) <= i < bytes.len() ==> bytes[i] != b,
    decreases bytes.len(),
{
    if bytes.len() > 0 && bytes.last() != b {
        let front = bytes.drop_last();
        lemma_behind_last(front, b);
        assert forall|i: int| behind_last(bytes, b) <= i < bytes.len() implies bytes[i] != b by {
            if i < front.len() {
                assert(bytes[i] == front[i]);
            }
        }
    }
}

proof fn lemma_behind_last_is(bytes: Seq<u8>, b: u8, at: int)
    requires
        0 <= at <= bytes.len(),
        at > 0 ==> bytes[at - 1] == b,
        forall|i: int| at <= i < bytes.len() ==> bytes[i] != b,
    ensures
        behind_last(bytes, b) == at,
{
    lemma_behind_last(bytes, b);
}

proof fn lemma_name_has_no_separator(path: Seq<u8>)
    ensures
        file_name(path) matches Some(name) ==> name.len() > 0 && !name.contains(SEPARATOR),
        file_stem(path) matches Some(stem) ==> stem.len() > 0 && !stem.contains(SEPARATOR),
        extension(path) matches Some(end) ==> !end.contains(SEPARATOR) && !end.contains(DOT),
{
    if let Some(name) = file_name(path) {
        let t = trimmed(path);
        lemma_behind_last(t, SEPARATOR);
        assert forall|i: int| 0 <= i < name.len() implies name[i] != SEPARATOR by {
            assert(name[i] == t[behind_last(t, SEPARATOR) + i]);
        }
        lemma_behind_last(name, DOT);
        if let Some(at) = extension_start(name) {
            let end = name.skip(at);
            assert forall|i: int| 0 <= i < end.len() implies end[i] != SEPARATOR && end[i]
                != DOT by {
                assert(end[i] == name[at + i]);
            }
            let stem = name.take(at - 1);
            assert forall|i: int| 0 <= i < stem.len() implies stem[i] != SEPARATOR by {
                assert(stem[i] == name[i]);
            }
        }
    }
}

proof fn lemma_file_name_of_joined(path: Seq<u8>, name: Seq<u8>)
    requires
        name.len() >= 3,
        !name.contains(SEPARATOR),
    ensures
        file_name(joined(path, name)) == Some(name),
{
    let p = joined(path, name);
    let at = p.len() - name.len();
    assert forall|i: int| 0 <= i < name.len() implies p[at + i] == name[i] && name[i]
        != SEPARATOR by {
        assert(name.contains(name[i]));
    }
    assert(p.last() == name[name.len() - 1]);
    assert(p[p.len() - 2] == name[name.len() - 2]);
    assert(!idle_tail(p));
    assert(trimmed(p) == p);
    assert forall|i: int| at <= i < p.len() implies p[i] != SEPARATOR by {
        assert(p[at + (i - at)] == name[i - at]);
    }
    lemma_behind_last_is(p, SEPARATOR, at);
    assert(p.skip(at) =~= name);
}

/// A tagged path ends with the tagged name: what follows the tag is the extension.
pub proof fn tagged_paths_end_with_their_name(
    path: Seq<u8>,
    tag: Seq<char>,
    default_stem: Seq<char>,
    default_extension: Seq<char>,
)
    requires
        plain(tag) && plain(default_stem) && plain(default_extension),
        default_stem.len() > 0,
    ensures
        file_name(tagged(path, tag, default_stem, default_extension)) == Some(
            tagged_name(path, tag, default_stem, default_extension),
        ),
{
    lemma_name_has_no_separator(path);
    lemma_plain(tag);
    lemma_plain(default_stem);
    lemma_plain(default_extension);
    let stem = readable_or(file_stem(path), default_stem);
    let word = vstd::utf8::encode_utf8(tag);
    let end = readable_or(extension(path), default_extension);
    let name = tagged_name(path, tag, default_stem, default_extension);
    assert(stem.len() > 0 && !stem.contains(SEPARATOR));
    assert(!end.contains(SEPARATOR));
    assert forall|i: int| 0 <= i < name.len() implies name[i] != SEPARATOR by {
        if i < stem.len() {
            assert(name[i] == stem[i]);
        } else if i == stem.len() {
        } else if i < stem.len() + 1 + word.len() {
            assert(name[i] == word[i - stem.len() - 1]);
        } else if i == stem.len() + 1 + word.len() {
        } else {
            assert(name[i] == end[i - stem.len() - word.len() - 2]);
        }
    }
    assert(!name.contains(SEPARATOR));
    lemma_file_name_of_joined(
        if file_name(path) is Some {
            directory(path)
        } else {
            path
        },
        name,
    );
}

/// A word of ASCII letters and digits.
pub open spec fn plain(word: Seq<char>) -> bool {
    forall|i: int|
        0 <= i < word.len() ==> '0' <= #[trigger] word[i] <= '9' || 'A' <= word[i] <= 'Z' || 'a'
            <= word[i] <= 'z'
}

proof fn lemma_plain(word: Seq<char>)
    requires
        plain(word),
    ensures
        vstd::utf8::encode_utf8(word).len() == word.len(),
        !vstd::utf8::encode_utf8(word).contains(SEPARATOR),
        !vstd::utf8::encode_utf8(word).contains(DOT),
        vstd::utf8::valid_utf8(vstd::utf8::encode_utf8(word)),
{
    vstd::utf8::is_ascii_chars_encode_utf8(word);
    vstd::utf8::encode_utf8_valid_utf8(word);
    let bytes = vstd::utf8::encode_utf8(word);
    assert forall|i: int| 0 <= i < bytes.len() implies bytes[i] != SEPARATOR && bytes[i]
        != DOT by {
        assert(bytes[i] == word[i] as u8);
    }
}

/// Two tags give two paths.
pub proof fn tags_tell_paths_apart(
    path: Seq<u8>,
    tag1: Seq<char>,
    tag2: Seq<char>,
    default_stem: Seq<char>,
    default_extension: Seq<char>,
)
    requires
        plain(tag1) && plain(tag2) && plain(default_stem) && plain(default_extension),
        default_stem.len() > 0,
        tag1 != tag2,
    ensures
        tagged(path, tag1, default_stem, default_extension) != tagged(
            path,
            tag2,
            default_stem,
            default_extension,
        ),
{
    tagged_paths_end_with_their_name(path, tag1, default_stem, default_extension);
    tagged_paths_end_with_their_name(path, tag2, default_stem, default_extension);
    let name1 = tagged_name(path, tag1, default_stem, default_extension);
    let name2 = tagged_name(path, tag2, default_stem, default_extension);
    let stem = readable_or(file_stem(path), default_stem);
    let word1 = vstd::utf8::encode_utf8(tag1);
    let word2 = vstd::utf8::encode_utf8(tag2);
    if name1 == name2 {
        assert(word1.len() == word2.len());
        assert(word1 =~= name1.subrange(
            stem.len() as int + 1,
            stem.len() as int + 1 + word1.len() as int,
        ));
        assert(word2 =~= name2.subrange(
            stem.len() as int + 1,
            stem.len() as int + 1 + word1.len() as int,
        ));
        vstd::utf8::encode_utf8_decode_utf8(tag1);
        vstd::utf8::encode_utf8_decode_utf8(tag2);
    }
}

/// A tagged path is another one than the path it was made of.
pub proof fn tags_change_the_path(
    path: Seq<u8>,
    tag: Seq<char>,
    default_stem: Seq<char>,
    default_extension: Seq<char>,
)
    requires
        plain(tag) && plain(default_stem) && plain(default_extension),
        default_stem.len() > 0,
    ensures
        tagged(path, tag, default_stem, default_extension) != path,
{
    let name = tagged_name(path, tag, default_stem, default_extension);
    let stem = readable_or(file_stem(path), default_stem);
    let word = vstd::utf8::encode_utf8(tag);
    let end = readable_or(extension(path), default_extension);
    tagged_paths_end_with_their_name(path, tag, default_stem, default_extension);
    if tagged(path, tag, default_stem, default_extension) == path {
        assert(file_name(path) == Some(name));
        lemma_name_has_no_separator(path);
        lemma_plain(tag);
        lemma_plain(default_stem);
        lemma_plain(default_extension);
        assert(!end.contains(DOT));
        let at = stem.len() + 1 + word.len() + 1;
        assert(name[at - 1] == DOT);
        assert forall|i: int| at <= i < name.len() implies name[i] != DOT by {
            assert(name[i] == end[i - at]);
            assert(end.contains(end[i - at]));
        }
        lemma_behind_last_is(name, DOT, at as int);
        let own = name.take(at - 1);
        assert(file_stem(path) == Some(own));
        assert(own =~= stem.push(DOT) + word);
        if vstd::utf8::valid_utf8(own) {
            assert(stem == own);
        } else {
            let dot = seq!['.'];
            vstd::utf8::is_ascii_chars_encode_utf8(dot);
            vstd::utf8::encode_utf8_valid_utf8(dot);
            assert(vstd::utf8::encode_utf8(dot) =~= seq![DOT]);
            assert(stem == vstd::utf8::encode_utf8(default_stem));
            vstd::utf8::valid_utf8_concat(stem, seq![DOT]);
            vstd::utf8::valid_utf8_concat(stem + seq![DOT], word);
            assert(stem + seq![DOT] + word =~= own);
        }
    }
}

} // verus!
