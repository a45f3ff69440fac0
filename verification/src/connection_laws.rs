//! What holds of two ends of a session, and of operations that read until
//! they are over.

use crate::connection::{
    answer_to, control_message, linktest_step, next_data_step, reply_step, said, selection,
    system_after, ConnectionView, Next, NextView, Step, StepView,
};
use crate::error::Error;
use crate::hsms::{
    after_messages, data_header, messages_read_back, next_message, reply_header, stream_bytes,
    Header, Message, MessageView, SType, HEADER_LEN, MAX_MESSAGE,
};
use crate::text::decimal;
use vstd::arithmetic::div_mod::{lemma_mod_equivalence, lemma_small_mod};
use vstd::prelude::*;

verus! {

/// How an operation that reads until it is over went: what it answered, how
/// it ended, and how many messages it read.
pub struct Conversation {
    pub answers: Seq<MessageView>,
    pub outcome: NextView,
    pub read: nat,
}

/// What one step answers, as a sequence.
pub open spec fn answers_of(step: StepView) -> Seq<MessageView> {
    match step.answer {
        Some(message) => seq![message],
        None => Seq::empty(),
    }
}

/// How an operation with the steps `step` goes where the peer sends `reads`
/// and closes.
pub open spec fn conversation(
    step: spec_fn(Option<MessageView>) -> StepView,
    reads: Seq<MessageView>,
) -> Conversation
    decreases reads.len(),
{
    if reads.len() == 0 {
        let last = step(None);
        Conversation { answers: answers_of(last), outcome: last.next, read: 0 }
    } else {
        let first = step(Some(reads[0]));
        if first.next is ReadOn {
            let later = conversation(step, reads.skip(1));
            Conversation {
                answers: answers_of(first) + later.answers,
                outcome: later.outcome,
                read: 1 + later.read,
            }
        } else {
            Conversation { answers: answers_of(first), outcome: first.next, read: 1 }
        }
    }
}

/// What `step` answers to `reads`, one after the other.
pub open spec fn answers_to(
    step: spec_fn(Option<MessageView>) -> StepView,
    reads: Seq<MessageView>,
) -> Seq<MessageView>
    decreases reads.len(),
{
    if reads.len() == 0 {
        Seq::empty()
    } else {
        answers_of(step(Some(reads[0]))) + answers_to(step, reads.skip(1))
    }
}

/// An operation reads on until the first message that ends it, answers all
/// up to that one, and ends as that one has it; where no message ends it, the
/// close does.
proof fn conversation_ends_at(
    step: spec_fn(Option<MessageView>) -> StepView,
    reads: Seq<MessageView>,
    at: int,
)
    requires
        0 <= at <= reads.len(),
        forall|i: int|
            0 <= i < at ==> (#[trigger] step(Some(reads[i]))).next is ReadOn,
        at < reads.len() ==> !(step(Some(reads[at])).next is ReadOn),
    ensures
        at < reads.len() ==> conversation(step, reads) == (Conversation {
            answers: answers_to(step, reads.take(at + 1)),
            outcome: step(Some(reads[at])).next,
            read: (at + 1) as nat,
        }),
        at == reads.len() ==> conversation(step, reads) == (Conversation {
            answers: answers_to(step, reads) + answers_of(step(None)),
            outcome: step(None).next,
            read: reads.len(),
        }),
    decreases reads.len(),
{
    if reads.len() == 0 {
        assert(answers_to(step, reads) + answers_of(step(None)) =~= answers_of(step(None)));
    } else if at == 0 {
        let taken = reads.take(1);
        assert(taken.skip(1) =~= Seq::empty());
        assert(answers_to(step, taken.skip(1)) =~= Seq::empty());
        assert(answers_to(step, taken) =~= answers_of(step(Some(reads[0]))));
    } else {
        let later = reads.skip(1);
        assert(step(Some(reads[0])).next is ReadOn);
        assert forall|i: int| 0 <= i < at - 1 implies (#[trigger] step(
            Some(later[i]),
        )).next is ReadOn by {
            assert(step(Some(reads[i + 1])).next is ReadOn);
        }
        conversation_ends_at(step, later, at - 1);
        if at < reads.len() {
            assert(reads.take(at + 1).skip(1) =~= later.take(at));
        } else {
            assert(answers_to(step, reads) + answers_of(step(None)) =~= answers_of(
                step(Some(reads[0])),
            ) + (answers_to(step, later) + answers_of(step(None))));
        }
    }
}

/// Whether a message is the next data message, or ends the session.
pub open spec fn decides_next_data(message: MessageView) -> bool {
    message.header.stype == SType::Data || message.header.stype == SType::DeselectReq
        || message.header.stype == SType::SeparateReq
}

/// Taking the next data message, as a whole.
pub open spec fn taking_next_data(reads: Seq<MessageView>) -> Conversation {
    conversation(|read: Option<MessageView>| next_data_step(read), reads)
}

/// The next data message is the first that arrives before the peer separates,
/// deselects or closes, and there is none where it does so first. On the way
/// every Linktest.req is answered, and every Select.req refused, under its
/// own session id and system bytes, and nothing else is written but the
/// answer to Deselect.req.
pub proof fn next_data_is_first(reads: Seq<MessageView>, at: int)
    requires
        0 <= at <= reads.len(),
        forall|i: int| 0 <= i < at ==> !decides_next_data(#[trigger] reads[i]),
        at < reads.len() ==> decides_next_data(reads[at]),
    ensures
        taking_next_data(reads).outcome == if at < reads.len() && reads[at].header.stype
            == SType::Data {
            NextView::Deliver(reads[at])
        } else {
            NextView::Finished
        },
        taking_next_data(reads).read == if at < reads.len() {
            (at + 1) as nat
        } else {
            reads.len()
        },
        taking_next_data(reads).answers == answers_to(
            |read: Option<MessageView>| next_data_step(read),
            reads.take(
                if at < reads.len() {
                    at + 1
                } else {
                    at
                },
            ),
        ),
{
    let step = |read: Option<MessageView>| next_data_step(read);
    assert forall|i: int| 0 <= i < at implies (#[trigger] step(Some(reads[i]))).next is ReadOn by {
        assert(!decides_next_data(reads[i]));
    }
    conversation_ends_at(step, reads, at);
    assert(reads.take(reads.len() as int) =~= reads);
    assert(answers_to(step, reads) + answers_of(step(None)) =~= answers_to(step, reads));
}

/// Whether a message is the reply under `system`, or ends the session.
pub open spec fn decides_reply(system: u32, message: MessageView) -> bool {
    decides_next_data(message) && (message.header.stype == SType::Data ==> message.header.system
        == system)
}

/// Waiting for the reply under `system`, as a whole.
pub open spec fn awaiting_reply(system: u32, reads: Seq<MessageView>) -> Conversation {
    conversation(|read: Option<MessageView>| reply_step(system, read), reads)
}

/// The reply is the first data message under the system bytes of its primary
/// that arrives before the peer separates, deselects or closes; where it does
/// so first, that is a failure. Requests on the way are answered as while the
/// next data message is due.
pub proof fn reply_is_first(system: u32, reads: Seq<MessageView>, at: int)
    requires
        0 <= at <= reads.len(),
        forall|i: int| 0 <= i < at ==> !decides_reply(system, #[trigger] reads[i]),
        at < reads.len() ==> decides_reply(system, reads[at]),
    ensures
        awaiting_reply(system, reads).outcome == if at < reads.len() && reads[at].header.stype
            == SType::Data {
            NextView::Deliver(reads[at])
        } else {
            NextView::Refused(Error::SeparatedBeforeReply)
        },
        awaiting_reply(system, reads).read == if at < reads.len() {
            (at + 1) as nat
        } else {
            reads.len()
        },
        awaiting_reply(system, reads).answers == answers_to(
            |read: Option<MessageView>| next_data_step(read),
            reads.take(
                if at < reads.len() {
                    at + 1
                } else {
                    at
                },
            ),
        ),
{
    let step = |read: Option<MessageView>| reply_step(system, read);
    assert forall|i: int| 0 <= i < at implies (#[trigger] step(Some(reads[i]))).next is ReadOn by {
        assert(!decides_reply(system, reads[i]));
    }
    conversation_ends_at(step, reads, at);
    assert(reads.take(reads.len() as int) =~= reads);
    assert(answers_to(step, reads) + answers_of(step(None)) =~= answers_to(step, reads));
    same_answers(
        system,
        reads.take(
            if at < reads.len() {
                at + 1
            } else {
                at
            },
        ),
    );
}

/// Requests are answered alike, whichever data message is due.
proof fn same_answers(system: u32, reads: Seq<MessageView>)
    ensures
        answers_to(|read: Option<MessageView>| reply_step(system, read), reads) == answers_to(
            |read: Option<MessageView>| next_data_step(read),
            reads,
        ),
    decreases reads.len(),
{
    if reads.len() > 0 {
        same_answers(system, reads.skip(1));
    }
}

/// Waiting for the answer to a linktest, as a whole.
pub open spec fn awaiting_linktest(reads: Seq<MessageView>) -> Conversation {
    conversation(|read: Option<MessageView>| linktest_step(read), reads)
}

/// A linktest is over with the first Linktest.rsp that arrives; where the
/// peer closes before one does, that is a failure.
pub proof fn linktest_ends_with_answer(reads: Seq<MessageView>, at: int)
    requires
        0 <= at <= reads.len(),
        forall|i: int|
            0 <= i < at ==> (#[trigger] reads[i]).header.stype != SType::LinktestRsp,
        at < reads.len() ==> reads[at].header.stype == SType::LinktestRsp,
    ensures
        awaiting_linktest(reads).outcome == if at < reads.len() {
            NextView::Finished
        } else {
            NextView::Refused(Error::ClosedDuringLinktest)
        },
        awaiting_linktest(reads).read == if at < reads.len() {
            (at + 1) as nat
        } else {
            reads.len()
        },
        awaiting_linktest(reads).answers == answers_to(
            |read: Option<MessageView>| linktest_step(read),
            reads.take(at),
        ),
{
    let step = |read: Option<MessageView>| linktest_step(read);
    assert forall|i: int| 0 <= i < at implies (#[trigger] step(Some(reads[i]))).next is ReadOn by {
        assert(reads[i].header.stype != SType::LinktestRsp);
    }
    conversation_ends_at(step, reads, at);
    assert(reads.take(reads.len() as int) =~= reads);
    assert(answers_to(step, reads) + answers_of(step(None)) =~= answers_to(step, reads));
    if at < reads.len() {
        last_unanswered(step, reads.take(at + 1));
        assert(reads.take(at + 1).drop_last() =~= reads.take(at));
    }
}

/// A last message that is not answered adds no answer.
proof fn last_unanswered(
    step: spec_fn(Option<MessageView>) -> StepView,
    reads: Seq<MessageView>,
)
    requires
        reads.len() > 0,
        step(Some(reads.last())).answer is None,
    ensures
        answers_to(step, reads) == answers_to(step, reads.drop_last()),
    decreases reads.len(),
{
    let later = reads.skip(1);
    if reads.len() == 1 {
        assert(later =~= Seq::empty());
        assert(answers_to(step, later) =~= Seq::empty());
        assert(answers_to(step, reads) =~= Seq::empty());
    } else {
        last_unanswered(step, later);
        assert(reads.drop_last().skip(1) =~= later.drop_last());
    }
}

/// The data messages of `reads` before the first that ends the session.
pub open spec fn data_before_end(reads: Seq<MessageView>) -> Seq<MessageView>
    decreases reads.len(),
{
    if reads.len() == 0 {
        Seq::empty()
    } else if reads[0].header.stype == SType::Data {
        seq![reads[0]] + data_before_end(reads.skip(1))
    } else if decides_next_data(reads[0]) {
        Seq::empty()
    } else {
        data_before_end(reads.skip(1))
    }
}

/// What taking the next data message, over and over until there is none,
/// takes.
pub open spec fn taking_all(reads: Seq<MessageView>) -> Seq<MessageView>
    decreases reads.len(),
{
    let taken = taking_next_data(reads);
    match taken.outcome {
        NextView::Deliver(message) => if 0 < taken.read <= reads.len() {
            seq![message] + taking_all(reads.skip(taken.read as int))
        } else {
            Seq::empty()
        },
        _ => Seq::empty(),
    }
}

/// Taking the next data message over and over takes every data message until
/// the peer separates, deselects or closes, in order.
pub proof fn all_data_taken(reads: Seq<MessageView>)
    ensures
        taking_all(reads) == data_before_end(reads),
    decreases reads.len(),
{
    if reads.len() > 0 {
        let later = reads.skip(1);
        let taken = taking_next_data(reads);
        if reads[0].header.stype == SType::Data {
            all_data_taken(later);
        } else if !decides_next_data(reads[0]) {
            all_data_taken(later);
            let rest = taking_next_data(later);
            assert(taken.outcome == rest.outcome);
            assert(taken.read == 1 + rest.read);
            if let NextView::Deliver(_) = rest.outcome {
                reads_counted(later);
                assert(reads.skip(taken.read as int) =~= later.skip(rest.read as int));
            }
        }
    }
}

/// A data message that is delivered was read, and no more than there are.
proof fn reads_counted(reads: Seq<MessageView>)
    ensures
        taking_next_data(reads).read <= reads.len(),
        taking_next_data(reads).outcome is Deliver ==> taking_next_data(reads).read > 0,
    decreases reads.len(),
{
    if reads.len() > 0 {
        reads_counted(reads.skip(1));
    }
}

/// The select of an active side is granted by a passive one, and both come
/// out of it with the session id the active side asked for.
pub proof fn select_granted(session_id: u16, system: u32)
    ensures
        ({
            let asked = control_message(session_id, SType::SelectReq, 0, system);
            let granted = answer_to(asked, SType::SelectRsp, 0);
            &&& asked.readable() && granted.readable()
            &&& asked.header.session_id == session_id
            &&& selection(Some(granted)) == Ok::<u16, Error>(session_id)
        }),
{
}

/// A select on a connection that is selected already is refused with status
/// 1, and the side that made it takes it so.
pub proof fn second_select_refused(session_id: u16, system: u32)
    ensures
        ({
            let asked = control_message(session_id, SType::SelectReq, 0, system);
            let step = next_data_step(Some(asked));
            &&& step.next is ReadOn
            &&& step.answer matches Some(refused)
            &&& refused.readable()
            &&& selection(Some(refused)) == Err::<u16, Error>(Error::SelectRefused(1))
        }),
{
}

/// The reply to a data message, under the next function up with the wait bit
/// clear, is what the side that sent it waits for.
pub proof fn reply_delivered(primary: MessageView, body: Seq<u8>)
    requires
        primary.readable(),
        primary.header.stype == SType::Data,
        primary.header.function < 255,
        HEADER_LEN + body.len() <= MAX_MESSAGE,
    ensures
        ({
            let reply = MessageView { header: reply_header(primary.header), body };
            &&& reply.readable()
            &&& reply.header.stream == primary.header.stream
            &&& reply.header.function == primary.header.function + 1
            &&& !reply.header.wait
            &&& reply_step(primary.header.system, Some(reply)) == (StepView {
                answer: None,
                next: NextView::Deliver(reply),
            })
        }),
{
}

/// A linktest is answered by a side that waits for data or for the answer to
/// a linktest of its own, and its answer ends the linktest.
pub proof fn linktest_answered(session_id: u16, system: u32)
    ensures
        ({
            let asked = control_message(session_id, SType::LinktestReq, 0, system);
            let answer = answer_to(asked, SType::LinktestRsp, 0);
            let answering = StepView { answer: Some(answer), next: NextView::ReadOn };
            &&& asked.readable() && answer.readable()
            &&& next_data_step(Some(asked)) == answering
            &&& linktest_step(Some(asked)) == answering
            &&& linktest_step(Some(answer)) == (StepView {
                answer: None,
                next: NextView::Finished,
            })
        }),
{
}

/// A session that one side separates is over for the other, unanswered.
pub proof fn separate_ends(session_id: u16, system: u32)
    ensures
        control_message(session_id, SType::SeparateReq, 0, system).readable(),
        next_data_step(Some(control_message(session_id, SType::SeparateReq, 0, system))) == (
        StepView { answer: None, next: NextView::Finished }),
{
}

/// Every data message that a connection sends can be read, but for one whose
/// body is too long.
pub proof fn sent_data_readable(
    connection: ConnectionView,
    stream: u8,
    function: u8,
    wait: bool,
    body: Seq<u8>,
)
    requires
        HEADER_LEN + body.len() <= MAX_MESSAGE,
    ensures
        (MessageView {
            header: data_header(
                connection.session_id,
                stream,
                function,
                wait,
                connection.advanced().last_system,
            ),
            body,
        }).readable(),
{
}

/// What the active side writes in a session of one data message: Select.req
/// for the session id `asked`, then, under the session id `granted`, the
/// message and Separate.req.
pub open spec fn one_message_session(
    asked: u16,
    granted: u16,
    stream: u8,
    function: u8,
    wait: bool,
    body: Seq<u8>,
) -> Seq<MessageView> {
    seq![
        control_message(asked, SType::SelectReq, 0, 1),
        MessageView { header: data_header(granted, stream, function, wait, 2), body },
        control_message(granted, SType::SeparateReq, 0, 3),
    ]
}

/// What the passive side writes in that session: Select.rsp, which grants the
/// session id `granted`, and the reply to the message where one is awaited.
pub open spec fn one_message_answers(
    granted: u16,
    stream: u8,
    function: u8,
    wait: bool,
    reply: Seq<u8>,
) -> Seq<MessageView> {
    let select = control_message(granted, SType::SelectRsp, 0, 1);
    let primary = data_header(granted, stream, function, wait, 2);
    if wait {
        seq![select, MessageView { header: reply_header(primary), body: reply }]
    } else {
        seq![select]
    }
}

/// Whether `bytes` hold `messages` and no more: read one by one, they are
/// these, and then the end.
pub open spec fn read_as(bytes: Seq<u8>, messages: Seq<MessageView>) -> bool {
    &&& forall|i: int|
        0 <= i < messages.len() ==> next_message(after_messages(bytes, i as nat)) == Ok::<
            Option<MessageView>,
            Error,
        >(Some(#[trigger] messages[i]))
    &&& next_message(after_messages(bytes, messages.len())) == Ok::<Option<MessageView>, Error>(
        None,
    )
}

/// Messages that were written one behind the other are read as what they are.
proof fn written_read_as(messages: Seq<MessageView>)
    requires
        forall|i: int| 0 <= i < messages.len() ==> (#[trigger] messages[i]).readable(),
    ensures
        read_as(stream_bytes(messages), messages),
{
    let bytes = stream_bytes(messages);
    assert(bytes + Seq::empty() =~= bytes);
    assert forall|i: int| 0 <= i < messages.len() implies next_message(
        after_messages(bytes, i as nat),
    ) == Ok::<Option<MessageView>, Error>(Some(#[trigger] messages[i])) by {
        messages_read_back(messages, Seq::empty(), i);
    }
    messages_read_back(messages, Seq::empty(), messages.len() as int);
}

/// A body that is sent arrives whole, and so does the reply to it. Each side
/// reads what the other wrote and then the end. The passive side reads a
/// select first; the message is its next data message, and there is none
/// behind it. The active side takes the session id that was granted, whether
/// or not it is the one it asked for, and the reply, where it waits for one,
/// is delivered to it before it separates. That is so of every body and reply
/// that a message can hold, and of every function that has a next to reply
/// under.
pub proof fn sent_body_arrives(
    connection: ConnectionView,
    granted: u16,
    stream: u8,
    function: u8,
    wait: bool,
    body: Seq<u8>,
    reply: Seq<u8>,
)
    requires
        connection.last_system == 1,
        HEADER_LEN + body.len() <= MAX_MESSAGE,
        wait ==> function < 255 && HEADER_LEN + reply.len() <= MAX_MESSAGE,
    ensures
        ({
            let asked = connection.session_id;
            let selected = ConnectionView { session_id: granted, ..connection };
            let sent = one_message_session(asked, granted, stream, function, wait, body);
            let answered = one_message_answers(granted, stream, function, wait, reply);
            let taken = taking_next_data(sent.skip(1));
            &&& read_as(stream_bytes(sent), sent)
            &&& read_as(stream_bytes(answered), answered)
            &&& sent[0].header.stype == SType::SelectReq
            &&& granted == asked ==> answered[0] == answer_to(sent[0], SType::SelectRsp, 0)
            &&& selection(Some(answered[0])) == Ok::<u16, Error>(granted)
            &&& taken.outcome == NextView::Deliver(sent[1])
            &&& sent[1].header.system == selected.advanced().last_system
            &&& sent[1].body == body
            &&& wait ==> {
                let waited = awaiting_reply(sent[1].header.system, answered.skip(1));
                &&& answered[1].header == reply_header(sent[1].header)
                &&& answered[1].body == reply
                &&& waited.outcome == NextView::Deliver(answered[1])
                &&& waited.read == 1
                &&& waited.answers =~= Seq::empty()
            }
            &&& sent[2].header.system == selected.advanced().advanced().last_system
            &&& taking_next_data(sent.skip(1).skip(taken.read as int)).outcome
                == NextView::Finished
        }),
{
    let sent = one_message_session(connection.session_id, granted, stream, function, wait, body);
    let answered = one_message_answers(granted, stream, function, wait, reply);
    written_read_as(sent);
    written_read_as(answered);
    let behind = sent.skip(1);
    next_data_is_first(behind, 0);
    next_data_is_first(behind.skip(1), 0);
    if wait {
        let step = |read: Option<MessageView>| next_data_step(read);
        let replies = answered.skip(1);
        reply_is_first(2, replies, 0);
        last_unanswered(step, replies.take(1));
        assert(answers_to(step, replies.take(1).drop_last()) =~= Seq::empty());
    }
}

/// The connection once it has used the next `count` system bytes.
pub open spec fn advanced_by(connection: ConnectionView, count: nat) -> ConnectionView
    decreases count,
{
    if count == 0 {
        connection
    } else {
        advanced_by(connection, (count - 1) as nat).advanced()
    }
}

/// System bytes count up by one, and start over at 0 behind the greatest;
/// nothing else of the connection changes. A connection starts at 0, so the
/// first are 1.
pub proof fn systems_count_up(connection: ConnectionView, count: nat)
    ensures
        advanced_by(connection, count) == (ConnectionView {
            last_system: ((connection.last_system + count) % 0x1_0000_0000) as u32,
            ..connection
        }),
        connection.last_system == 0 && count <= u32::MAX ==> advanced_by(
            connection,
            count,
        ).last_system == count,
    decreases count,
{
    if count == 0 {
        lemma_small_mod(connection.last_system as nat, 0x1_0000_0000);
    } else {
        systems_count_up(connection, (count - 1) as nat);
    }
}

/// No two of the messages that a connection wants answered share their system
/// bytes, unless there are 2^32 or more between them; so a reply is not taken
/// for the reply to another message.
pub proof fn systems_differ(connection: ConnectionView, one: nat, other: nat)
    requires
        one < other < one + 0x1_0000_0000,
    ensures
        advanced_by(connection, one).last_system != advanced_by(connection, other).last_system,
{
    systems_count_up(connection, one);
    systems_count_up(connection, other);
    let a = connection.last_system + one;
    let b = connection.last_system + other;
    if a % 0x1_0000_0000 == b % 0x1_0000_0000 {
        lemma_mod_equivalence(b, a, 0x1_0000_0000);
        lemma_small_mod((b - a) as nat, 0x1_0000_0000);
    }
}

/// A control message says what it was made of, and has no body.
pub proof fn control_message_says(session_id: u16, stype: SType, status: u8, system: u32)
    ensures
        ({
            let message = control_message(session_id, stype, status, system);
            &&& message.header.session_id == session_id
            &&& message.header.stype == stype
            &&& message.header.function == status
            &&& message.header.system == system
            &&& message.header.stream == 0 && !message.header.wait && message.header.ptype == 0
            &&& message.body.len() == 0
        }),
{
}

/// An answer is paired with its request: it is under the request's session id
/// and system bytes, all of both, and has no body.
pub proof fn answer_paired(message: MessageView, stype: SType, status: u8)
    ensures
        ({
            let answer = answer_to(message, stype, status);
            &&& answer.header.stype == stype
            &&& answer.header.function == status
            &&& answer.header.session_id == message.header.session_id
            &&& answer.header.system == message.header.system
            &&& answer.header.stream == 0 && !answer.header.wait && answer.header.ptype == 0
            &&& answer.body.len() == 0
        }),
{
}

/// What was read, what is answered and what is next say what they hold.
pub proof fn step_says(read: Option<Message>, step: Step)
    ensures
        read matches Some(message) ==> said(read) == Some(message@),
        read is None ==> said(read) is None,
        step.answer matches Some(answer) ==> step@.answer == Some(answer@),
        step.answer is None ==> step@.answer is None,
        step.next is ReadOn ==> step@.next == NextView::ReadOn,
        step.next is Finished ==> step@.next == NextView::Finished,
        step.next matches Next::Deliver(message) ==> step@.next == NextView::Deliver(message@),
        step.next matches Next::Refused(error) ==> step@.next == NextView::Refused(error),
{
}

/// What the active side makes of what it read for an answer to its select:
/// Select.rsp with status 0 grants the session id it is under, with another
/// status it refuses; anything else, and a close, is no answer.
pub proof fn select_answer_read(message: MessageView)
    ensures
        selection(None) == Err::<u16, Error>(Error::SelectNotAnswered),
        message.header.stype != SType::SelectRsp ==> selection(Some(message)) == Err::<u16, Error>(
            Error::SelectNotAnswered,
        ),
        message.header.stype == SType::SelectRsp && message.header.function != 0 ==> selection(
            Some(message),
        ) == Err::<u16, Error>(Error::SelectRefused(message.header.function)),
        message.header.stype == SType::SelectRsp && message.header.function == 0 ==> selection(
            Some(message),
        ) == Ok::<u16, Error>(message.header.session_id),
{
}

/// What is done about a message while the next data message is due: a data
/// message is delivered as it is; Linktest.req is answered with Linktest.rsp, a
/// second Select.req with Select.rsp and status 1, and both are read past;
/// Deselect.req is answered with Deselect.rsp and ends it; Separate.req and a
/// close end it; the rest is passed over. Each answer is under its request's
/// session id and system bytes.
pub proof fn read_while_data_due(message: MessageView)
    ensures
        next_data_step(None).answer is None && next_data_step(None).next == NextView::Finished,
        ({
            let step = next_data_step(Some(message));
            &&& message.header.stype == SType::Data ==> step.answer is None && step.next
                == NextView::Deliver(message)
            &&& message.header.stype == SType::LinktestReq ==> {
                &&& step.answer matches Some(answer)
                &&& answer.header.stype == SType::LinktestRsp
                &&& answer.header.function == 0
                &&& answer.header.session_id == message.header.session_id
                &&& answer.header.system == message.header.system
                &&& answer.header.stream == 0 && !answer.header.wait && answer.header.ptype == 0
                &&& answer.body.len() == 0
                &&& step.next == NextView::ReadOn
            }
            &&& message.header.stype == SType::SelectReq ==> {
                &&& step.answer matches Some(answer)
                &&& answer.header.stype == SType::SelectRsp
                &&& answer.header.function == 1
                &&& answer.header.session_id == message.header.session_id
                &&& answer.header.system == message.header.system
                &&& answer.header.stream == 0 && !answer.header.wait && answer.header.ptype == 0
                &&& answer.body.len() == 0
                &&& step.next == NextView::ReadOn
            }
            &&& message.header.stype == SType::DeselectReq ==> {
                &&& step.answer matches Some(answer)
                &&& answer.header.stype == SType::DeselectRsp
                &&& answer.header.function == 0
                &&& answer.header.session_id == message.header.session_id
                &&& answer.header.system == message.header.system
                &&& answer.header.stream == 0 && !answer.header.wait && answer.header.ptype == 0
                &&& answer.body.len() == 0
                &&& step.next == NextView::Finished
            }
            &&& message.header.stype == SType::SeparateReq ==> step.answer is None && step.next
                == NextView::Finished
            &&& (message.header.stype == SType::LinktestRsp || message.header.stype
                == SType::SelectRsp || message.header.stype == SType::DeselectRsp
                || message.header.stype == SType::RejectReq) ==> step.answer is None && step.next
                == NextView::ReadOn
        }),
{
}

/// What is done about a message while the reply under `system` is due: a data
/// message under these system bytes is delivered as it is, another is passed
/// over; requests are answered as while any data message is due; and an end is
/// a failure.
pub proof fn read_while_reply_due(system: u32, message: MessageView)
    ensures
        reply_step(system, None).answer is None && reply_step(system, None).next
            == NextView::Refused(Error::SeparatedBeforeReply),
        ({
            let step = reply_step(system, Some(message));
            &&& message.header.stype == SType::Data && message.header.system == system ==> step.answer is None && step.next
                == NextView::Deliver(message)
            &&& message.header.stype == SType::Data && message.header.system != system ==> step.answer is None && step.next
                == NextView::ReadOn
            &&& message.header.stype == SType::LinktestReq ==> {
                &&& step.answer matches Some(answer)
                &&& answer.header.stype == SType::LinktestRsp
                &&& answer.header.function == 0
                &&& answer.header.session_id == message.header.session_id
                &&& answer.header.system == message.header.system
                &&& answer.header.stream == 0 && !answer.header.wait && answer.header.ptype == 0
                &&& answer.body.len() == 0
                &&& step.next == NextView::ReadOn
            }
            &&& message.header.stype == SType::SelectReq ==> {
                &&& step.answer matches Some(answer)
                &&& answer.header.stype == SType::SelectRsp
                &&& answer.header.function == 1
                &&& answer.header.session_id == message.header.session_id
                &&& answer.header.system == message.header.system
                &&& answer.header.stream == 0 && !answer.header.wait && answer.header.ptype == 0
                &&& answer.body.len() == 0
                &&& step.next == NextView::ReadOn
            }
            &&& message.header.stype == SType::DeselectReq ==> {
                &&& step.answer matches Some(answer)
                &&& answer.header.stype == SType::DeselectRsp
                &&& answer.header.function == 0
                &&& answer.header.session_id == message.header.session_id
                &&& answer.header.system == message.header.system
                &&& answer.header.stream == 0 && !answer.header.wait && answer.header.ptype == 0
                &&& answer.body.len() == 0
                &&& step.next == NextView::Refused(Error::SeparatedBeforeReply)
            }
            &&& message.header.stype == SType::SeparateReq ==> step.answer is None && step.next
                == NextView::Refused(Error::SeparatedBeforeReply)
            &&& (message.header.stype == SType::LinktestRsp || message.header.stype
                == SType::SelectRsp || message.header.stype == SType::DeselectRsp
                || message.header.stype == SType::RejectReq) ==> step.answer is None && step.next
                == NextView::ReadOn
        }),
{
}

/// What is done about a message while the answer to a linktest is due:
/// Linktest.rsp ends it, Linktest.req is answered under its own session id and
/// system bytes, the rest is passed over, and a close is a failure.
pub proof fn read_while_linktest_due(message: MessageView)
    ensures
        linktest_step(None).answer is None && linktest_step(None).next == NextView::Refused(
            Error::ClosedDuringLinktest,
        ),
        ({
            let step = linktest_step(Some(message));
            &&& message.header.stype == SType::LinktestRsp ==> step.answer is None && step.next
                == NextView::Finished
            &&& message.header.stype == SType::LinktestReq ==> {
                &&& step.answer matches Some(answer)
                &&& answer.header.stype == SType::LinktestRsp
                &&& answer.header.function == 0
                &&& answer.header.session_id == message.header.session_id
                &&& answer.header.system == message.header.system
                &&& answer.header.stream == 0 && !answer.header.wait && answer.header.ptype == 0
                &&& answer.body.len() == 0
                &&& step.next == NextView::ReadOn
            }
            &&& message.header.stype != SType::LinktestRsp && message.header.stype
                != SType::LinktestReq ==> step.answer is None && step.next
                == NextView::ReadOn
        }),
{
}

/// An origin URI spells the far end's address and the session id, stream and
/// function of the header, each in full.
pub proof fn origin_spells(connection: ConnectionView, header: Header)
    ensures
        connection.origin(header) == "secs-gem://"@ + connection.peer + "?session="@ + decimal(
            header.session_id as nat,
        ) + "&stream="@ + decimal(header.stream as nat) + "&function="@ + decimal(
            header.function as nat,
        ),
{
}

/// System bytes go up by one, from the greatest to 0, and nothing else of the
/// connection changes.
pub proof fn system_counted(connection: ConnectionView)
    ensures
        system_after(connection.last_system) == (connection.last_system + 1) % 0x1_0000_0000,
        connection.advanced().last_system == (connection.last_system + 1) % 0x1_0000_0000,
        connection.advanced().peer == connection.peer,
        connection.advanced().session_id == connection.session_id,
{
}

} // verus!
