//! Promises about DNS messages: what stands in a message is what is reported of it.
use crate::addr;
use crate::laws::frames;
use crate::outside;
use crate::parsers::dns;
use crate::parsers::dns::{DnsAnswerView, DnsError, DnsSummaryView};
use crate::text;
use vstd::prelude::*;

verus! {

/// The answers that give another name for one, in order.
pub open spec fn aliases(answers: Seq<DnsAnswerView>) -> Seq<DnsAnswerView> {
    answers.filter(|answer: DnsAnswerView| answer.record_type == 5)
}

/// A list is the chain of names of some aliases: empty without any, and otherwise the owner of the
/// first and then the name that each of them gives.
pub open spec fn is_chain(chain: Seq<Seq<char>>, aliases: Seq<DnsAnswerView>) -> bool {
    &&& aliases.len() == 0 ==> chain.len() == 0
    &&& aliases.len() > 0 ==> {
        &&& chain.len() == aliases.len() + 1
        &&& chain[0] == aliases[0].name
        &&& forall|i: int| 0 <= i < aliases.len() ==> chain[i + 1] == (#[trigger] aliases[i]).value
    }
}

proof fn lemma_chain(answers: Seq<DnsAnswerView>)
    ensures
        is_chain(dns::chain_of(answers), aliases(answers)),
    decreases answers.len(),
{
    reveal(Seq::filter);
    if answers.len() > 0 {
        let front = answers.drop_last();
        lemma_chain(front);
        let before = aliases(front);
        let after = aliases(answers);
        let chain = dns::chain_of(answers);
        if answers.last().record_type == 5 {
            assert(after == before.push(answers.last()));
            assert forall|i: int| 0 <= i < after.len() implies chain[i + 1]
                == (#[trigger] after[i]).value by {
                if i < before.len() {
                    assert(after[i] == before[i]);
                }
            }
        } else {
            assert(after == before);
        }
    }
}

/// The chain of a message with some CNAME answers has one entry more than these: first the owner
/// of the first of them, and then, for each in order, the name that it gives. Without CNAME
/// answers the chain is empty.
pub proof fn chains_follow_the_aliases(message: Seq<u8>)
    ensures
        dns::dns_summary(message) matches Ok(summary) ==> is_chain(
            summary.cname_chain,
            aliases(summary.answers),
        ),
{
    if dns::dns_summary(message) is Ok {
        lemma_chain(dns::dns_summary(message)->Ok_0.answers);
    }
}

/// A part stands in a message at a position.
pub open spec fn stands(message: Seq<u8>, p: int, part: Seq<u8>) -> bool {
    0 <= p && p + part.len() <= message.len() && message.subrange(p, p + part.len()) == part
}

/// The bytes of labels, each with its length.
pub open spec fn labels_bytes(labels: Seq<Seq<u8>>) -> Seq<u8>
    decreases labels.len(),
{
    if labels.len() == 0 {
        Seq::empty()
    } else {
        seq![labels[0].len() as u8] + labels[0] + labels_bytes(labels.skip(1))
    }
}

/// Labels that can be written: none is empty or longer than a length byte can say.
pub open spec fn are_labels(labels: Seq<Seq<u8>>) -> bool {
    forall|i: int| 0 <= i < labels.len() ==> 1 <= (#[trigger] labels[i]).len() <= 63
}

/// The labels of a name stand at a position, with an empty one behind them.
pub open spec fn stands_whole(message: Seq<u8>, p: int, labels: Seq<Seq<u8>>, next: int) -> bool {
    &&& stands(message, p, labels_bytes(labels))
    &&& next == p + labels_bytes(labels).len() + 1
    &&& next <= message.len()
    &&& message[next - 1] == 0
}

/// The first labels of a name stand at a position, with two bytes behind them that say where in
/// the message the others stand.
pub open spec fn stands_shortened(
    message: Seq<u8>,
    p: int,
    labels: Seq<Seq<u8>>,
    kept: int,
    end: int,
    next: int,
) -> bool {
    &&& 0 <= kept <= labels.len()
    &&& stands(message, p, labels_bytes(labels.take(kept)))
    &&& next == p + labels_bytes(labels.take(kept)).len() + 2
    &&& next <= message.len()
    &&& message[next - 2] >= 192
    &&& stands_whole(
        message,
        256 * (message[next - 2] - 192) + message[next - 1],
        labels.skip(kept),
        end,
    )
}

/// A name stands at a position, and something else follows it.
pub open spec fn stands_as_name(
    message: Seq<u8>,
    p: int,
    labels: Seq<Seq<u8>>,
    next: int,
) -> bool {
    &&& are_labels(labels)
    &&& stands_whole(message, p, labels, next) || exists|kept: int, end: int| #[trigger]
        stands_shortened(message, p, labels, kept, end, next)
}

proof fn lemma_front(
    message: Seq<u8>,
    p: int,
    front: Seq<Seq<u8>>,
    jumps: int,
    back: Seq<Seq<u8>>,
    next: int,
)
    requires
        are_labels(front),
        stands(message, p, labels_bytes(front)),
        dns::labels_at(message, p + labels_bytes(front).len(), jumps) == Ok::<
            (Seq<Seq<u8>>, int),
            DnsError,
        >((back, next)),
    ensures
        dns::labels_at(message, p, jumps) == Ok::<(Seq<Seq<u8>>, int), DnsError>(
            (front + back, next),
        ),
    decreases front.len(),
{
    let bytes = labels_bytes(front);
    if front.len() == 0 {
        assert(front + back =~= back);
    } else {
        let first = front[0];
        let rest = front.skip(1);
        let n = first.len() as int;
        assert forall|i: int| 0 <= i < bytes.len() implies message[p + i] == #[trigger] bytes[i] by {
            assert(message.subrange(p, p + bytes.len())[i] == message[p + i]);
        }
        assert(bytes[0] == n);
        assert(message[p] == n);
        assert(message.subrange(p + 1, p + 1 + n) =~= first) by {
            assert forall|i: int| 0 <= i < n implies message[p + 1 + i] == first[i] by {
                assert(bytes[1 + i] == first[i]);
            }
        }
        let tail = labels_bytes(rest);
        assert(message.subrange(p + 1 + n, p + 1 + n + tail.len()) =~= tail) by {
            assert forall|i: int| 0 <= i < tail.len() implies message[p + 1 + n + i] == tail[i] by {
                assert(bytes[1 + n + i] == tail[i]);
            }
        }
        assert forall|i: int| 0 <= i < rest.len() implies 1 <= (#[trigger] rest[i]).len()
            <= 63 by {
            assert(rest[i] == front[i + 1]);
        }
        lemma_front(message, p + 1 + n, rest, jumps, back, next);
        assert(seq![first] + (rest + back) =~= front + back);
    }
}

proof fn lemma_whole(message: Seq<u8>, p: int, labels: Seq<Seq<u8>>, next: int, jumps: int)
    requires
        are_labels(labels),
        stands_whole(message, p, labels, next),
    ensures
        dns::labels_at(message, p, jumps) == Ok::<(Seq<Seq<u8>>, int), DnsError>((labels, next)),
{
    lemma_front(message, p, labels, jumps, Seq::empty(), next);
    assert(labels + Seq::<Seq<u8>>::empty() =~= labels);
}

/// A name is read back as the texts of its labels with dots between them, whether it stands in the
/// message as a whole or ends with a reference to an earlier place, and what follows it is found
/// behind it.
pub proof fn names_are_read_back(message: Seq<u8>, p: int, labels: Seq<Seq<u8>>, next: int)
    requires
        stands_as_name(message, p, labels, next),
    ensures
        dns::name_at(message, p) == Ok::<(Seq<char>, int), DnsError>(
            (text::join(labels.map_values(|label: Seq<u8>| outside::lossy(label)), "."@), next),
        ),
{
    if stands_whole(message, p, labels, next) {
        lemma_whole(message, p, labels, next, 0);
    } else {
        let (kept, end) = choose|kept: int, end: int| #[trigger]
            stands_shortened(message, p, labels, kept, end, next);
        let front = labels.take(kept);
        let back = labels.skip(kept);
        let target = 256 * (message[next - 2] - 192) + message[next - 1];
        assert forall|i: int| 0 <= i < front.len() implies 1 <= (#[trigger] front[i]).len()
            <= 63 by {
            assert(front[i] == labels[i]);
        }
        assert forall|i: int| 0 <= i < back.len() implies 1 <= (#[trigger] back[i]).len() <= 63 by {
            assert(back[i] == labels[i + kept]);
        }
        lemma_whole(message, target, back, end, 1);
        lemma_front(message, p, front, 0, back, next);
        assert(front + back =~= labels);
    }
    assert(dns::label_texts(labels) =~= labels.map_values(
        |label: Seq<u8>| outside::lossy(label),
    ));
}

/// A place where no name can be read: the message ends there, or in the label or the reference
/// that starts there; the reference leads out of the message; or the length is neither that of a
/// label nor the mark of a reference.
pub proof fn broken_names_are_refused(message: Seq<u8>, p: int)
    requires
        0 <= p,
    ensures
        p >= message.len() ==> dns::name_at(message, p) == Err::<(Seq<char>, int), DnsError>(
            DnsError::TruncatedName,
        ),
        p + 1 == message.len() && message[p] >= 192 ==> dns::name_at(message, p) == Err::<
            (Seq<char>, int),
            DnsError,
        >(DnsError::TruncatedPointer),
        p + 1 < message.len() && message[p] >= 192 && 256 * (message[p] - 192) + message[p + 1]
            >= message.len() ==> dns::name_at(message, p) == Err::<(Seq<char>, int), DnsError>(
            DnsError::InvalidPointer,
        ),
        p < message.len() && 64 <= message[p] < 192 ==> dns::name_at(message, p) == Err::<
            (Seq<char>, int),
            DnsError,
        >(DnsError::InvalidLabel),
        p < message.len() && 0 < message[p] < 64 && p + message[p] >= message.len()
            ==> dns::name_at(message, p) == Err::<(Seq<char>, int), DnsError>(
            DnsError::TruncatedLabel,
        ),
{
}

/// A reference that leads back to itself is refused.
pub proof fn circular_names_are_refused(message: Seq<u8>, p: int)
    requires
        0 <= p,
        p + 1 < message.len(),
        message[p] >= 192,
        256 * (message[p] - 192) + message[p + 1] == p,
    ensures
        dns::name_at(message, p) == Err::<(Seq<char>, int), DnsError>(DnsError::InvalidPointer),
{
    lemma_circle(message, p, 0);
}

proof fn lemma_circle(message: Seq<u8>, p: int, jumps: int)
    requires
        0 <= p,
        0 <= jumps <= dns::MAX_JUMPS,
        p + 1 < message.len(),
        message[p] >= 192,
        256 * (message[p] - 192) + message[p + 1] == p,
    ensures
        dns::labels_at(message, p, jumps) == Err::<(Seq<Seq<u8>>, int), DnsError>(
            DnsError::InvalidPointer,
        ),
    decreases dns::MAX_JUMPS - jumps,
{
    if jumps < dns::MAX_JUMPS {
        lemma_circle(message, p, jumps + 1);
    }
}

/// An answer as its sender means it. Where its type is that of an alias, a name server or a
/// reverse name, the data is the name with the given labels.
pub struct SentAnswer {
    pub owner: Seq<Seq<u8>>,
    pub record_type: u16,
    pub ttl: u32,
    pub data: Seq<u8>,
    pub target: Seq<Seq<u8>>,
}

/// The text of a name with given labels.
pub open spec fn name_text(labels: Seq<Seq<u8>>) -> Seq<char> {
    text::join(labels.map_values(|label: Seq<u8>| outside::lossy(label)), "."@)
}

/// The data of the type is a name.
pub open spec fn is_named(record_type: u16) -> bool {
    record_type == 2 || record_type == 5 || record_type == 12
}

/// An answer stands in a message between two positions: its owner, its type, a class, how long it
/// may be kept, the length of its data, and the data.
pub open spec fn stands_as_answer(
    message: Seq<u8>,
    p: int,
    q: int,
    answer: SentAnswer,
    next: int,
) -> bool {
    &&& stands_as_name(message, p, answer.owner, q)
    &&& next == q + 10 + answer.data.len()
    &&& next <= message.len()
    &&& frames::word(message, q) == answer.record_type
    &&& frames::long(message, q + 4) == answer.ttl
    &&& frames::word(message, q + 8) == answer.data.len()
    &&& stands(message, q + 10, answer.data)
    &&& is_named(answer.record_type) ==> exists|end: int| #[trigger]
        stands_as_name(message, q + 10, answer.target, end)
}

/// What is reported of an answer: its owner, its type, how long it may be kept, and its data as
/// the address that four or sixteen bytes are, as a name, or as `0x` and hexadecimal digits.
pub open spec fn is_reported(reported: DnsAnswerView, answer: SentAnswer) -> bool {
    let data = answer.data;
    &&& reported.name == name_text(answer.owner)
    &&& reported.record_type == answer.record_type
    &&& reported.ttl == answer.ttl
    &&& reported.value == (if answer.record_type == 1 && data.len() == 4 {
        text::decimal(data[0] as nat) + "."@ + text::decimal(data[1] as nat) + "."@ + text::decimal(
            data[2] as nat,
        ) + "."@ + text::decimal(data[3] as nat)
    } else if answer.record_type == 28 && data.len() == 16 {
        addr::ipv6_text(Seq::new(8, |i: int| frames::word(data, 2 * i) as u16))
    } else if is_named(answer.record_type) {
        name_text(answer.target)
    } else {
        "0x"@ + text::hex_text(data)
    })
}

/// An IPv4 address is written as the decimal numbers of its four bytes with dots between them.
pub proof fn dotted_addresses_are_written(a: u8, b: u8, c: u8, d: u8)
    ensures
        addr::ipv4_text(a, b, c, d) == text::decimal(a as nat) + "."@ + text::decimal(b as nat)
            + "."@ + text::decimal(c as nat) + "."@ + text::decimal(d as nat),
{
    reveal_strlit(".");
    assert("."@ =~= seq!['.']);
    let w = text::decimal(a as nat);
    let x = text::decimal(b as nat);
    let y = text::decimal(c as nat);
    let z = text::decimal(d as nat);
    assert(w.push('.') + x.push('.') + y.push('.') + z =~= w + "."@ + x + "."@ + y + "."@ + z);
}

/// An answer is read back as it was sent, and what follows it is found behind it.
pub proof fn answers_are_read_back(
    message: Seq<u8>,
    p: int,
    q: int,
    answer: SentAnswer,
    next: int,
)
    requires
        stands_as_answer(message, p, q, answer, next),
    ensures
        dns::answer_at(message, p) matches Ok((reported, end)) && is_reported(reported, answer)
            && end == next,
{
    names_are_read_back(message, p, answer.owner, q);
    frames::words_are_read(message, q);
    frames::words_are_read(message, q + 4);
    frames::words_are_read(message, q + 8);
    let data = answer.data;
    assert(message.subrange(q + 10, next) == data);
    assert forall|i: int| 0 <= i < data.len() implies message[q + 10 + i] == #[trigger] data[i] by {
        assert(message.subrange(q + 10, next)[i] == message[q + 10 + i]);
    }
    if answer.record_type == 1 && data.len() == 4 {
        assert(message[q + 10] == data[0] && message[q + 11] == data[1] && message[q + 12]
            == data[2] && message[q + 13] == data[3]);
        dotted_addresses_are_written(data[0], data[1], data[2], data[3]);
    } else if answer.record_type == 28 && data.len() == 16 {
        let words = Seq::new(8, |i: int| frames::word(data, 2 * i) as u16);
        assert(addr::segments_at(message, q + 10) =~= words) by {
            assert forall|i: int| 0 <= i < 8 implies addr::segments_at(message, q + 10)[i]
                == words[i] by {
                frames::words_are_read(message, q + 10 + 2 * i);
                assert(message[q + 10 + 2 * i] == data[2 * i]);
                assert(message[q + 10 + (2 * i + 1)] == data[2 * i + 1]);
            }
        }
    } else if is_named(answer.record_type) {
        let end = choose|end: int| #[trigger]
            stands_as_name(message, q + 10, answer.target, end);
        names_are_read_back(message, q + 10, answer.target, end);
    }
}

/// Answers stand in a message one behind the other.
pub open spec fn stand_as_answers(message: Seq<u8>, p: int, answers: Seq<SentAnswer>) -> bool
    decreases answers.len(),
{
    answers.len() > 0 ==> exists|q: int, next: int| #[trigger]
        stands_as_answer(message, p, q, answers[0], next) && stand_as_answers(
            message,
            next,
            answers.skip(1),
        )
}

proof fn lemma_answers(message: Seq<u8>, p: int, answers: Seq<SentAnswer>)
    requires
        stand_as_answers(message, p, answers),
    ensures
        dns::answers_at(message, p, answers.len()) matches Ok(reported) && reported.len()
            == answers.len() && forall|i: int|
            0 <= i < answers.len() ==> is_reported(#[trigger] reported[i], answers[i]),
    decreases answers.len(),
{
    if answers.len() > 0 {
        let (q, next) = choose|q: int, next: int| #[trigger]
            stands_as_answer(message, p, q, answers[0], next) && stand_as_answers(
                message,
                next,
                answers.skip(1),
            );
        answers_are_read_back(message, p, q, answers[0], next);
        lemma_answers(message, next, answers.skip(1));
        let rest = dns::answers_at(message, next, (answers.len() - 1) as nat)->Ok_0;
        let reported = dns::answers_at(message, p, answers.len())->Ok_0;
        assert forall|i: int| 0 <= i < answers.len() implies is_reported(
            #[trigger] reported[i],
            answers[i],
        ) by {
            if i > 0 {
                assert(reported[i] == rest[i - 1]);
                assert(answers[i] == answers.skip(1)[i - 1]);
            }
        }
    }
}

/// A question as its sender means it.
pub struct SentQuestion {
    pub name: Seq<Seq<u8>>,
    pub record_type: u16,
}

/// A question stands in a message between two positions: its name, its type and a class.
pub open spec fn stands_as_question(
    message: Seq<u8>,
    p: int,
    question: SentQuestion,
    next: int,
) -> bool {
    &&& stands_as_name(message, p, question.name, next - 4)
    &&& next <= message.len()
    &&& frames::word(message, next - 4) == question.record_type
}

/// Questions stand in a message one behind the other, up to a position.
pub open spec fn stand_as_questions(
    message: Seq<u8>,
    p: int,
    questions: Seq<SentQuestion>,
    end: int,
) -> bool
    decreases questions.len(),
{
    if questions.len() == 0 {
        end == p
    } else {
        exists|next: int| #[trigger]
            stands_as_question(message, p, questions[0], next) && stand_as_questions(
                message,
                next,
                questions.skip(1),
                end,
            )
    }
}

proof fn lemma_questions(message: Seq<u8>, p: int, questions: Seq<SentQuestion>, end: int)
    requires
        stand_as_questions(message, p, questions, end),
    ensures
        dns::questions_end(message, p, questions.len()) == Ok::<int, DnsError>(end),
        questions.len() > 0 ==> (dns::question_at(message, p) matches Ok((name, record_type, _))
            && name == name_text(questions[0].name) && record_type == questions[0].record_type),
    decreases questions.len(),
{
    if questions.len() > 0 {
        let next = choose|next: int| #[trigger]
            stands_as_question(message, p, questions[0], next) && stand_as_questions(
                message,
                next,
                questions.skip(1),
                end,
            );
        names_are_read_back(message, p, questions[0].name, next - 4);
        frames::words_are_read(message, next - 4);
        lemma_questions(message, next, questions.skip(1), end);
    }
}

/// A message is read back as it was sent: its number, whether it is a response, the name and the
/// type of its first question, its response code and its answers, in order.
pub proof fn messages_are_read_back(
    message: Seq<u8>,
    questions: Seq<SentQuestion>,
    end: int,
    answers: Seq<SentAnswer>,
)
    requires
        message.len() >= 12,
        frames::word(message, 4) == questions.len(),
        frames::word(message, 6) == answers.len(),
        stand_as_questions(message, 12, questions, end),
        stand_as_answers(message, end, answers),
    ensures
        dns::dns_summary(message) matches Ok(summary) && {
            &&& summary.transaction_id == frames::word(message, 0)
            &&& summary.is_response == (message[2] / 128 == 1)
            &&& questions.len() == 0 ==> summary.query is None && summary.record_type is None
            &&& questions.len() > 0 ==> summary.query == Some(name_text(questions[0].name))
            &&& questions.len() > 0 ==> summary.record_type == Some(questions[0].record_type)
            &&& summary.response_code == message[3] % 16
            &&& summary.answers.len() == answers.len()
            &&& forall|i: int|
                0 <= i < answers.len() ==> is_reported(#[trigger] summary.answers[i], answers[i])
        },
{
    frames::words_are_read(message, 0);
    frames::words_are_read(message, 4);
    frames::words_are_read(message, 6);
    lemma_questions(message, 12, questions, end);
    lemma_answers(message, end, answers);
}

/// A message that is shorter than its header is refused.
pub proof fn short_messages_are_refused(message: Seq<u8>)
    requires
        message.len() < 12,
    ensures
        dns::dns_summary(message) == Err::<DnsSummaryView, DnsError>(DnsError::ShortMessage),
{
}

/// A question and an answer that end too early are refused: behind the name of a question come
/// four bytes, behind that of an answer ten, and then as many as it states.
pub proof fn cut_parts_are_refused(message: Seq<u8>, p: int, labels: Seq<Seq<u8>>, next: int)
    requires
        stands_as_name(message, p, labels, next),
    ensures
        next + 4 > message.len() ==> dns::question_at(message, p) == Err::<
            (Seq<char>, u16, int),
            DnsError,
        >(DnsError::TruncatedQuestion),
        next + 10 > message.len() ==> dns::answer_at(message, p) == Err::<
            (DnsAnswerView, int),
            DnsError,
        >(DnsError::TruncatedAnswer),
        next + 10 <= message.len() && next + 10 + frames::word(message, next + 8) > message.len()
            ==> dns::answer_at(message, p) == Err::<(DnsAnswerView, int), DnsError>(
            DnsError::TruncatedRdata,
        ),
{
    names_are_read_back(message, p, labels, next);
    frames::words_are_read(message, next + 8);
}

/// A message is refused with what is wrong with its first question or answer that is.
pub proof fn faults_are_handed_on(
    message: Seq<u8>,
    questions: Seq<SentQuestion>,
    end: int,
    error: DnsError,
)
    requires
        message.len() >= 12,
        stand_as_questions(message, 12, questions, end),
    ensures
        frames::word(message, 4) == questions.len() + 1 && dns::question_at(message, end) == Err::<
            (Seq<char>, u16, int),
            DnsError,
        >(error) ==> dns::dns_summary(message) == Err::<DnsSummaryView, DnsError>(error),
        frames::word(message, 4) == questions.len() && frames::word(message, 6) > 0
            && dns::answer_at(message, end) == Err::<(DnsAnswerView, int), DnsError>(error)
            ==> dns::dns_summary(message) == Err::<DnsSummaryView, DnsError>(error),
{
    frames::words_are_read(message, 4);
    frames::words_are_read(message, 6);
    lemma_questions(message, 12, questions, end);
    lemma_faulty_question(message, 12, questions, end, error);
}

proof fn lemma_faulty_question(
    message: Seq<u8>,
    p: int,
    questions: Seq<SentQuestion>,
    end: int,
    error: DnsError,
)
    requires
        stand_as_questions(message, p, questions, end),
    ensures
        dns::question_at(message, end) == Err::<(Seq<char>, u16, int), DnsError>(error)
            ==> dns::questions_end(message, p, questions.len() + 1) == Err::<int, DnsError>(error),
    decreases questions.len(),
{
    if questions.len() > 0 {
        let next = choose|next: int| #[trigger]
            stands_as_question(message, p, questions[0], next) && stand_as_questions(
                message,
                next,
                questions.skip(1),
                end,
            );
        names_are_read_back(message, p, questions[0].name, next - 4);
        lemma_faulty_question(message, next, questions.skip(1), end, error);
    } else {
        reveal_with_fuel(dns::questions_end, 2);
    }
}

/// Bytes that are the encoding of a text are read as that text.
pub proof fn texts_are_decoded(s: Seq<char>)
    ensures
        outside::lossy(vstd::utf8::encode_utf8(s)) == s,
{
    vstd::utf8::encode_utf8_valid_utf8(s);
    vstd::utf8::encode_utf8_decode_utf8(s);
}

} // verus!
