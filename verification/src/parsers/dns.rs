//! DNS messages: the header, the first question and the answer section.
use crate::addr;
use crate::outside;
use crate::text;
use crate::wire;
use vstd::prelude::*;
use vstd::string::StringExecFns;

verus! {

/// One record of the answer section.
#[derive(Debug, Clone, PartialEq, Eq)]
pub struct DnsAnswer {
    pub name: String,
    pub record_type: u16,
    pub ttl: u32,
    pub value: String,
}

/// What a message says.
#[derive(Debug, Clone, PartialEq, Eq)]
pub struct DnsSummary {
    pub transaction_id: u16,
    pub is_response: bool,
    pub query: Option<String>,
    pub record_type: Option<u16>,
    pub response_code: u8,
    pub answers: Vec<DnsAnswer>,
    pub cname_chain: Vec<String>,
}

/// Why a message cannot be read.
#[derive(Debug, Clone, Copy, PartialEq, Eq, Structural)]
pub enum DnsError {
    ShortMessage,
    TruncatedQuestion,
    TruncatedAnswer,
    TruncatedRdata,
    TruncatedName,
    TruncatedPointer,
    InvalidPointer,
    InvalidLabel,
    TruncatedLabel,
}

impl DnsError {
    /// The error in words.
    pub open spec fn spec_message(self) -> Seq<char> {
        match self {
            DnsError::ShortMessage => "short DNS message"@,
            DnsError::TruncatedQuestion => "truncated DNS question"@,
            DnsError::TruncatedAnswer => "truncated DNS answer"@,
            DnsError::TruncatedRdata => "truncated DNS rdata"@,
            DnsError::TruncatedName => "truncated DNS name"@,
            DnsError::TruncatedPointer => "truncated DNS pointer"@,
            DnsError::InvalidPointer => "invalid DNS compression pointer"@,
            DnsError::InvalidLabel => "invalid DNS label"@,
            DnsError::TruncatedLabel => "truncated DNS label"@,
        }
    }

    /// Says the error in words.
    pub fn message(self) -> (r: String)
        ensures
            r@ == self.spec_message(),
    {
        let words: &str = match self {
            DnsError::ShortMessage => "short DNS message",
            DnsError::TruncatedQuestion => "truncated DNS question",
            DnsError::TruncatedAnswer => "truncated DNS answer",
            DnsError::TruncatedRdata => "truncated DNS rdata",
            DnsError::TruncatedName => "truncated DNS name",
            DnsError::TruncatedPointer => "truncated DNS pointer",
            DnsError::InvalidPointer => "invalid DNS compression pointer",
            DnsError::InvalidLabel => "invalid DNS label",
            DnsError::TruncatedLabel => "truncated DNS label",
        };
        words.to_owned()
    }
}

// ---------------------------------------------------------------------------------------------
// Model
// ---------------------------------------------------------------------------------------------

/// The model of a [`DnsAnswer`].
#[verifier::ext_equal]
pub struct DnsAnswerView {
    pub name: Seq<char>,
    pub record_type: u16,
    pub ttl: u32,
    pub value: Seq<char>,
}

/// The model of a [`DnsSummary`].
#[verifier::ext_equal]
pub struct DnsSummaryView {
    pub transaction_id: u16,
    pub is_response: bool,
    pub query: Option<Seq<char>>,
    pub record_type: Option<u16>,
    pub response_code: u8,
    pub answers: Seq<DnsAnswerView>,
    pub cname_chain: Seq<Seq<char>>,
}

impl View for DnsAnswer {
    type V = DnsAnswerView;

    open spec fn view(&self) -> DnsAnswerView {
        DnsAnswerView {
            name: self.name@,
            record_type: self.record_type,
            ttl: self.ttl,
            value: self.value@,
        }
    }
}

/// The models of a sequence of answers.
pub open spec fn answer_views(answers: Seq<DnsAnswer>) -> Seq<DnsAnswerView> {
    Seq::new(answers.len(), |i: int| answers[i]@)
}

impl View for DnsSummary {
    type V = DnsSummaryView;

    open spec fn view(&self) -> DnsSummaryView {
        DnsSummaryView {
            transaction_id: self.transaction_id,
            is_response: self.is_response,
            query: text::opt_text(self.query),
            record_type: self.record_type,
            response_code: self.response_code,
            answers: answer_views(self.answers@),
            cname_chain: text::texts(self.cname_chain@),
        }
    }
}

/// How many compression pointers one name may go through.
pub const MAX_JUMPS: usize = 16;

/// The labels of the name at a position after `jumps` pointers were followed, and the position
/// behind the name where it stands: behind its closing zero, or behind its first pointer.
pub open spec fn labels_at(bytes: Seq<u8>, p: int, jumps: int) -> Result<
    (Seq<Seq<u8>>, int),
    DnsError,
>
    decreases MAX_JUMPS - jumps, bytes.len() - p,
{
    if p < 0 || p >= bytes.len() {
        Err(DnsError::TruncatedName)
    } else if bytes[p] >= 192 {
        if p + 1 >= bytes.len() {
            Err(DnsError::TruncatedPointer)
        } else {
            let target = (bytes[p] - 192) * 256 + bytes[p + 1];
            if target >= bytes.len() || jumps >= MAX_JUMPS {
                Err(DnsError::InvalidPointer)
            } else {
                match labels_at(bytes, target, jumps + 1) {
                    Ok((labels, _)) => Ok((labels, p + 2)),
                    Err(e) => Err(e),
                }
            }
        }
    } else if bytes[p] >= 64 {
        Err(DnsError::InvalidLabel)
    } else if bytes[p] == 0 {
        Ok((Seq::empty(), p + 1))
    } else if p + 1 + bytes[p] > bytes.len() {
        Err(DnsError::TruncatedLabel)
    } else {
        match labels_at(bytes, p + 1 + bytes[p], jumps) {
            Ok((labels, next)) => Ok(
                (seq![bytes.subrange(p + 1, p + 1 + bytes[p])] + labels, next),
            ),
            Err(e) => Err(e),
        }
    }
}

/// The texts of labels.
pub open spec fn label_texts(labels: Seq<Seq<u8>>) -> Seq<Seq<char>> {
    labels.map_values(|label: Seq<u8>| outside::lossy(label))
}

/// The name at a position, with dots between its labels, and the position behind it.
pub open spec fn name_at(bytes: Seq<u8>, p: int) -> Result<(Seq<char>, int), DnsError> {
    match labels_at(bytes, p, 0) {
        Ok((labels, next)) => Ok((text::join(label_texts(labels), "."@), next)),
        Err(e) => Err(e),
    }
}

/// The question at a position: its name, its type and the position behind it.
pub open spec fn question_at(bytes: Seq<u8>, p: int) -> Result<(Seq<char>, u16, int), DnsError> {
    match name_at(bytes, p) {
        Ok((name, next)) => if next + 4 > bytes.len() {
            Err(DnsError::TruncatedQuestion)
        } else {
            Ok((name, wire::be16(bytes, next), next + 4))
        },
        Err(e) => Err(e),
    }
}

/// The position behind `count` questions.
pub open spec fn questions_end(bytes: Seq<u8>, p: int, count: nat) -> Result<int, DnsError>
    decreases count,
{
    if count == 0 {
        Ok(p)
    } else {
        match question_at(bytes, p) {
            Ok((_, _, next)) => questions_end(bytes, next, (count - 1) as nat),
            Err(e) => Err(e),
        }
    }
}

/// The value of a record of type `record_type` whose data takes `length` bytes from `p` on: an
/// address, a name, or the bytes in hexadecimal.
pub open spec fn value_at(bytes: Seq<u8>, p: int, record_type: u16, length: int) -> Result<
    Seq<char>,
    DnsError,
> {
    if record_type == 1 && length == 4 {
        Ok(addr::ipv4_text(bytes[p], bytes[p + 1], bytes[p + 2], bytes[p + 3]))
    } else if record_type == 28 && length == 16 {
        Ok(addr::ipv6_text(addr::segments_at(bytes, p)))
    } else if record_type == 5 || record_type == 2 || record_type == 12 {
        match name_at(bytes, p) {
            Ok((name, _)) => Ok(name),
            Err(e) => Err(e),
        }
    } else {
        Ok("0x"@ + text::hex_text(bytes.subrange(p, p + length)))
    }
}

/// The answer at a position and the position behind it.
pub open spec fn answer_at(bytes: Seq<u8>, p: int) -> Result<(DnsAnswerView, int), DnsError> {
    match name_at(bytes, p) {
        Err(e) => Err(e),
        Ok((name, q)) => if q + 10 > bytes.len() {
            Err(DnsError::TruncatedAnswer)
        } else {
            let record_type = wire::be16(bytes, q);
            let length = wire::be16(bytes, q + 8);
            if q + 10 + length > bytes.len() {
                Err(DnsError::TruncatedRdata)
            } else {
                match value_at(bytes, q + 10, record_type, length as int) {
                    Err(e) => Err(e),
                    Ok(value) => Ok(
                        (
                            DnsAnswerView {
                                name,
                                record_type,
                                ttl: wire::be32(bytes, q + 4),
                                value,
                            },
                            q + 10 + length,
                        ),
                    ),
                }
            }
        },
    }
}

/// The `count` answers from a position on.
pub open spec fn answers_at(bytes: Seq<u8>, p: int, count: nat) -> Result<
    Seq<DnsAnswerView>,
    DnsError,
>
    decreases count,
{
    if count == 0 {
        Ok(Seq::empty())
    } else {
        match answer_at(bytes, p) {
            Err(e) => Err(e),
            Ok((first, next)) => match answers_at(bytes, next, (count - 1) as nat) {
                Err(e) => Err(e),
                Ok(rest) => Ok(seq![first] + rest),
            },
        }
    }
}

/// The chain of alias names: the owner of the first alias record, and after it the name that each
/// alias record gives.
pub open spec fn chain_of(answers: Seq<DnsAnswerView>) -> Seq<Seq<char>>
    decreases answers.len(),
{
    if answers.len() == 0 {
        Seq::empty()
    } else {
        let chain = chain_of(answers.drop_last());
        let last = answers.last();
        if last.record_type != 5 {
            chain
        } else if chain.len() == 0 {
            seq![last.name, last.value]
        } else {
            chain.push(last.value)
        }
    }
}

/// What a message says, or why it cannot be read.
pub open spec fn dns_summary(bytes: Seq<u8>) -> Result<DnsSummaryView, DnsError> {
    if bytes.len() < 12 {
        Err(DnsError::ShortMessage)
    } else {
        let questions = wire::be16(bytes, 4) as nat;
        match questions_end(bytes, 12, questions) {
            Err(e) => Err(e),
            Ok(p) => match answers_at(bytes, p, wire::be16(bytes, 6) as nat) {
                Err(e) => Err(e),
                Ok(answers) => Ok(
                    DnsSummaryView {
                        transaction_id: wire::be16(bytes, 0),
                        is_response: bytes[2] >= 128,
                        query: if questions == 0 {
                            None
                        } else {
                            Some(question_at(bytes, 12)->Ok_0.0)
                        },
                        record_type: if questions == 0 {
                            None
                        } else {
                            Some(question_at(bytes, 12)->Ok_0.1)
                        },
                        response_code: bytes[3] % 16,
                        answers,
                        cname_chain: chain_of(answers),
                    },
                ),
            },
        }
    }
}

// ---------------------------------------------------------------------------------------------
// Reading
// ---------------------------------------------------------------------------------------------

/// The position behind a name lies in the message or at its end.
proof fn lemma_labels_end(bytes: Seq<u8>, p: int, jumps: int)
    ensures
        labels_at(bytes, p, jumps) matches Ok((_, next)) ==> p < next <= bytes.len(),
    decreases MAX_JUMPS - jumps, bytes.len() - p,
{
    if 0 <= p < bytes.len() && 0 < bytes[p] < 64 && p + 1 + bytes[p] <= bytes.len() {
        lemma_labels_end(bytes, p + 1 + bytes[p], jumps);
    }
}

/// The model of what reading a name gives.
pub open spec fn read_labels_model(r: Result<(Vec<Vec<u8>>, usize), DnsError>) -> Result<
    (Seq<Seq<u8>>, int),
    DnsError,
> {
    match r {
        Ok((labels, next)) => Ok((label_bytes(labels@), next as int)),
        Err(e) => Err(e),
    }
}

/// The bytes of labels.
pub open spec fn label_bytes(labels: Seq<Vec<u8>>) -> Seq<Seq<u8>> {
    Seq::new(labels.len(), |i: int| labels[i]@)
}

/// What is found at `start`, when `labels` were read from there and `found` comes next.
spec fn extended(
    labels: Seq<Seq<u8>>,
    consumed: Option<usize>,
    found: Result<(Seq<Seq<u8>>, int), DnsError>,
) -> Result<(Seq<Seq<u8>>, int), DnsError> {
    match found {
        Ok((rest, next)) => Ok(
            (
                labels + rest,
                match consumed {
                    Some(c) => c as int,
                    None => next,
                },
            ),
        ),
        Err(e) => Err(e),
    }
}

/// Reads the labels of the name at a position, through at most [`MAX_JUMPS`] compression
/// pointers, and says where the name ends.
pub fn read_labels(bytes: &[u8], start: usize) -> (r: Result<(Vec<Vec<u8>>, usize), DnsError>)
    ensures
        read_labels_model(r) == labels_at(bytes@, start as int, 0),
{
    let size: usize = bytes.len();
    let mut p: usize = start;
    let mut consumed: Option<usize> = None;
    let mut labels: Vec<Vec<u8>> = Vec::new();
    let mut jumps: usize = 0;
    assert(label_bytes(labels@) =~= Seq::empty());
    proof {
        let found = labels_at(bytes@, start as int, 0);
        assert(extended(label_bytes(labels@), consumed, found) == found) by {
            if let Ok((rest, _)) = found {
                assert(label_bytes(labels@) + rest =~= rest);
            }
        }
    }
    loop
        invariant
            size == bytes@.len(),
            jumps <= MAX_JUMPS,
            extended(
                label_bytes(labels@),
                consumed,
                labels_at(bytes@, p as int, jumps as int),
            ) == labels_at(bytes@, start as int, 0),
        decreases MAX_JUMPS - jumps, size - p,
    {
        if p >= size {
            return Err(DnsError::TruncatedName);
        }
        let n: u8 = bytes[p];
        if n >= 192 {
            if size - p < 2 {
                return Err(DnsError::TruncatedPointer);
            }
            let target: usize = (n - 192) as usize * 256 + bytes[p + 1] as usize;
            if target >= size || jumps >= MAX_JUMPS {
                return Err(DnsError::InvalidPointer);
            }
            if consumed.is_none() {
                consumed = Some(p + 2);
            }
            p = target;
            jumps += 1;
        } else if n >= 64 {
            return Err(DnsError::InvalidLabel);
        } else if n == 0 {
            let next: usize = match consumed {
                Some(c) => c,
                None => p + 1,
            };
            assert(label_bytes(labels@) + Seq::empty() =~= label_bytes(labels@));
            return Ok((labels, next));
        } else {
            if (n as usize) >= size - p {
                return Err(DnsError::TruncatedLabel);
            }
            let end: usize = p + 1 + n as usize;
            let label = vstd::slice::slice_to_vec(vstd::slice::slice_subrange(bytes, p + 1, end));
            let ghost before = labels@;
            labels.push(label);
            proof {
                let piece = bytes@.subrange(p + 1, end as int);
                assert(label_bytes(labels@) =~= label_bytes(before).push(piece));
                if let Ok((rest, _)) = labels_at(bytes@, end as int, jumps as int) {
                    assert(label_bytes(labels@) + rest =~= label_bytes(before) + (seq![piece]
                        + rest));
                }
            }
            p = end;
        }
    }
}

/// Writes labels with dots between them.
pub fn name_text(labels: &[Vec<u8>]) -> (r: String)
    ensures
        r@ == text::join(label_texts(label_bytes(labels@)), "."@),
{
    let mut parts: Vec<String> = Vec::new();
    let mut i: usize = 0;
    while i < labels.len()
        invariant
            i <= labels@.len(),
            text::texts(parts@) =~= label_texts(label_bytes(labels@)).take(i as int),
        decreases labels@.len() - i,
    {
        let ghost before = parts@;
        let part = outside::decode_lossy(&labels[i]);
        assert(part@ == label_texts(label_bytes(labels@))[i as int]);
        parts.push(part);
        assert(text::texts(parts@) =~= text::texts(before).push(part@));
        i += 1;
    }
    assert(text::texts(parts@) =~= label_texts(label_bytes(labels@)));
    text::join_texts(&parts, ".")
}

/// Reads a name.
fn read_name(bytes: &[u8], start: usize) -> (r: Result<(String, usize), DnsError>)
    ensures
        match r {
            Ok((name, next)) => name_at(bytes@, start as int) == Ok::<(Seq<char>, int), DnsError>(
                (name@, next as int),
            ) && start < next <= bytes@.len(),
            Err(e) => name_at(bytes@, start as int) == Err::<(Seq<char>, int), DnsError>(e),
        },
{
    proof {
        lemma_labels_end(bytes@, start as int, 0);
    }
    match read_labels(bytes, start) {
        Ok((labels, next)) => Ok((name_text(&labels), next)),
        Err(e) => Err(e),
    }
}

/// Reads a question.
fn read_question(bytes: &[u8], start: usize) -> (r: Result<(String, u16, usize), DnsError>)
    ensures
        match r {
            Ok((name, ty, next)) => question_at(bytes@, start as int) == Ok::<
                (Seq<char>, u16, int),
                DnsError,
            >((name@, ty, next as int)) && next <= bytes@.len(),
            Err(e) => question_at(bytes@, start as int) == Err::<(Seq<char>, u16, int), DnsError>(
                e,
            ),
        },
{
    match read_name(bytes, start) {
        Ok((name, next)) => {
            if bytes.len() - next < 4 {
                return Err(DnsError::TruncatedQuestion);
            }
            Ok((name, wire::read_be16(bytes, next), next + 4))
        },
        Err(e) => Err(e),
    }
}

/// Reads the value of a record.
fn read_value(bytes: &[u8], p: usize, record_type: u16, length: usize) -> (r: Result<
    String,
    DnsError,
>)
    requires
        p + length <= bytes@.len(),
    ensures
        match r {
            Ok(value) => value_at(bytes@, p as int, record_type, length as int) == Ok::<
                Seq<char>,
                DnsError,
            >(value@),
            Err(e) => value_at(bytes@, p as int, record_type, length as int) == Err::<
                Seq<char>,
                DnsError,
            >(e),
        },
{
    let size: usize = bytes.len();
    assert(p + length <= size);
    if record_type == 1 && length == 4 {
        Ok(addr::format_ipv4(bytes[p], bytes[p + 1], bytes[p + 2], bytes[p + 3]))
    } else if record_type == 28 && length == 16 {
        let segments = addr::read_segments(bytes, p);
        Ok(addr::format_ipv6(&segments))
    } else if record_type == 5 || record_type == 2 || record_type == 12 {
        match read_name(bytes, p) {
            Ok((name, _)) => Ok(name),
            Err(e) => Err(e),
        }
    } else {
        let mut value = "0x".to_owned();
        let digits = outside::hex_encode(vstd::slice::slice_subrange(bytes, p, p + length));
        value.append(digits.as_str());
        Ok(value)
    }
}

/// Reads an answer.
fn read_answer(bytes: &[u8], start: usize) -> (r: Result<(DnsAnswer, usize), DnsError>)
    ensures
        match r {
            Ok((answer, next)) => answer_at(bytes@, start as int) == Ok::<
                (DnsAnswerView, int),
                DnsError,
            >((answer@, next as int)) && next <= bytes@.len(),
            Err(e) => answer_at(bytes@, start as int) == Err::<(DnsAnswerView, int), DnsError>(e),
        },
{
    match read_name(bytes, start) {
        Err(e) => Err(e),
        Ok((name, q)) => {
            let size: usize = bytes.len();
            if size - q < 10 {
                return Err(DnsError::TruncatedAnswer);
            }
            let record_type: u16 = wire::read_be16(bytes, q);
            let ttl: u32 = wire::read_be32(bytes, q + 4);
            let length: usize = wire::read_be16(bytes, q + 8) as usize;
            if size - q - 10 < length {
                return Err(DnsError::TruncatedRdata);
            }
            match read_value(bytes, q + 10, record_type, length) {
                Err(e) => Err(e),
                Ok(value) => Ok((DnsAnswer { name, record_type, ttl, value }, q + 10 + length)),
            }
        },
    }
}

/// What is found when `answers` were read and `found` comes next.
spec fn prepended(
    answers: Seq<DnsAnswerView>,
    found: Result<Seq<DnsAnswerView>, DnsError>,
) -> Result<Seq<DnsAnswerView>, DnsError> {
    match found {
        Ok(rest) => Ok(answers + rest),
        Err(e) => Err(e),
    }
}

/// Reads the answer section.
fn read_answers(bytes: &[u8], start: usize, count: usize) -> (r: Result<Vec<DnsAnswer>, DnsError>)
    ensures
        match r {
            Ok(answers) => answers_at(bytes@, start as int, count as nat) == Ok::<
                Seq<DnsAnswerView>,
                DnsError,
            >(answer_views(answers@)),
            Err(e) => answers_at(bytes@, start as int, count as nat) == Err::<
                Seq<DnsAnswerView>,
                DnsError,
            >(e),
        },
{
    let mut answers: Vec<DnsAnswer> = Vec::new();
    let mut p: usize = start;
    let mut left: usize = count;
    proof {
        if let Ok(rest) = answers_at(bytes@, start as int, count as nat) {
            assert(answer_views(answers@) + rest =~= rest);
        }
    }
    while left > 0
        invariant
            prepended(answer_views(answers@), answers_at(bytes@, p as int, left as nat))
                == answers_at(bytes@, start as int, count as nat),
        decreases left,
    {
        match read_answer(bytes, p) {
            Err(e) => {
                return Err(e);
            },
            Ok((answer, next)) => {
                let ghost before = answers@;
                answers.push(answer);
                left -= 1;
                proof {
                    assert(answer_views(answers@) =~= answer_views(before).push(answer@));
                    if let Ok(rest) = answers_at(bytes@, next as int, left as nat) {
                        assert(answer_views(answers@) + rest =~= answer_views(before) + (
                        seq![answer@] + rest));
                    }
                }
                p = next;
            },
        }
    }
    assert(answer_views(answers@) + Seq::empty() =~= answer_views(answers@));
    Ok(answers)
}

/// Collects the chain of alias names.
fn collect_chain(answers: &[DnsAnswer]) -> (r: Vec<String>)
    ensures
        text::texts(r@) == chain_of(answer_views(answers@)),
{
    let mut chain: Vec<String> = Vec::new();
    let ghost all = answer_views(answers@);
    let mut i: usize = 0;
    assert(all.take(0) =~= Seq::empty());
    while i < answers.len()
        invariant
            i <= answers@.len(),
            all == answer_views(answers@),
            text::texts(chain@) =~= chain_of(all.take(i as int)),
        decreases answers@.len() - i,
    {
        assert(all.take(i + 1).drop_last() =~= all.take(i as int));
        assert(all.take(i + 1).last() == answers@[i as int]@);
        if answers[i].record_type == 5 {
            if chain.len() == 0 {
                chain.push(answers[i].name.clone());
            }
            chain.push(answers[i].value.clone());
        }
        i += 1;
    }
    assert(all.take(i as int) =~= all);
    chain
}

/// Parses the DNS header, first question, and answer section. Names are decoded with
/// bounded RFC 1035 compression pointers so response CNAME chains are available.
pub fn parse_dns(bytes: &[u8]) -> (r: Result<DnsSummary, DnsError>)
    ensures
        match r {
            Ok(summary) => dns_summary(bytes@) == Ok::<DnsSummaryView, DnsError>(summary@),
            Err(e) => dns_summary(bytes@) == Err::<DnsSummaryView, DnsError>(e),
        },
{
    if bytes.len() < 12 {
        return Err(DnsError::ShortMessage);
    }
    let questions: usize = wire::read_be16(bytes, 4) as usize;
    let answer_count: usize = wire::read_be16(bytes, 6) as usize;
    let mut p: usize = 12;
    let mut query: Option<String> = None;
    let mut record_type: Option<u16> = None;
    let mut done: usize = 0;
    while done < questions
        invariant
            done <= questions,
            p <= bytes@.len(),
            questions == wire::be16(bytes@, 4),
            bytes@.len() >= 12,
            done == 0 ==> p == 12,
            questions_end(bytes@, p as int, (questions - done) as nat) == questions_end(
                bytes@,
                12,
                questions as nat,
            ),
            done == 0 ==> query is None && record_type is None,
            done > 0 ==> {
                &&& question_at(bytes@, 12) is Ok
                &&& text::opt_text(query) == Some(question_at(bytes@, 12)->Ok_0.0)
                &&& record_type == Some(question_at(bytes@, 12)->Ok_0.1)
            },
        decreases questions - done,
    {
        match read_question(bytes, p) {
            Err(e) => {
                return Err(e);
            },
            Ok((name, ty, next)) => {
                if done == 0 {
                    query = Some(name);
                    record_type = Some(ty);
                }
                p = next;
            },
        }
        done += 1;
    }
    match read_answers(bytes, p, answer_count) {
        Err(e) => Err(e),
        Ok(answers) => {
            let cname_chain = collect_chain(&answers);
            Ok(
                DnsSummary {
                    transaction_id: wire::read_be16(bytes, 0),
                    is_response: bytes[2] >= 128,
                    query,
                    record_type,
                    response_code: bytes[3] % 16,
                    answers,
                    cname_chain,
                },
            )
        },
    }
}

} // verus!
