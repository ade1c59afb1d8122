//! One ISDU transfer, as the master drives it: the request across the channel
//! two bytes at a time, the response back the same way. What passes on the
//! line is left to whoever holds the line: a [`Transfer`] says which message
//! to exchange next, and is told what the device answered.
use vstd::prelude::*;

use crate::bytes::append;
use crate::error::Error;
use crate::isdu::{self, Isdu, IsduView};
use crate::m_sequence::{Channel, DeviceMessage, Kind, MasterMessage, MasterView};

verus! {

/// A transfer under way.
pub struct Transfer {
    bytes: Vec<u8>,
    written: usize,
    address: u8,
    polled: bool,
    response: Option<Vec<u8>>,
    length: usize,
    timeout: u128,
}

/// What comes next in a transfer.
pub enum Step {
    /// Exchange this message, and hand its answer to [`Transfer::step`].
    Send(MasterMessage),
    /// The transfer is over.
    Finished(Result<Isdu, Error>),
}

/// How far a transfer has come.
#[verifier::ext_equal]
pub struct TransferView {
    /// The bytes of the request.
    pub bytes: Seq<u8>,
    /// How many of them have been sent.
    pub written: nat,
    /// The count of the next message that carries one.
    pub address: u8,
    /// The response has been asked for.
    pub polled: bool,
    /// The response as far as it has come.
    pub response: Option<Seq<u8>>,
    /// The length that the response names.
    pub length: nat,
    /// How long a busy device is waited for, in nanoseconds.
    pub timeout: u128,
}

/// What comes next in a transfer.
pub enum StepView {
    Send(MasterView),
    Finished(Result<IsduView, Error>),
}

impl View for Step {
    type V = StepView;

    open spec fn view(&self) -> StepView {
        match self {
            Step::Send(message) => StepView::Send(message@),
            Step::Finished(result) => StepView::Finished(crate::error::viewed(*result)),
        }
    }
}

impl View for Transfer {
    type V = TransferView;

    closed spec fn view(&self) -> TransferView {
        TransferView {
            bytes: self.bytes@,
            written: self.written as nat,
            address: self.address,
            polled: self.polled,
            response: match self.response {
                None => None,
                Some(response) => Some(response@),
            },
            length: self.length as nat,
            timeout: self.timeout,
        }
    }
}

/// The count after `address`, cycling.
pub open spec fn next_count(address: u8) -> u8 {
    ((address + 1) as u8) & isdu::COUNT_MASK
}

/// The message that carries two bytes of `bytes` from `at`, a zero where the
/// bytes end.
pub open spec fn write_message(bytes: Seq<u8>, at: nat, address: u8) -> MasterView {
    MasterView::writing(
        Kind::Type1,
        Channel::Isdu,
        address,
        crate::device::chunk(bytes, at, 2),
    )
}

/// The message that reads two bytes of the response.
pub open spec fn read_message(address: u8) -> MasterView {
    MasterView::reading(Kind::Type1, Channel::Isdu, address)
}

/// `message` writes two bytes of `bytes` from `at` on the ISDU channel under
/// `address`, the second a zero where the bytes end with the first.
pub open spec fn brings_two(message: MasterView, bytes: Seq<u8>, at: int, address: int) -> bool {
    &&& !message.read
    &&& message.channel is Isdu
    &&& message.kind is Type1
    &&& message.address == address
    &&& message.process_out.len() == 0
    &&& message.on_request.len() == 2
    &&& message.on_request[0] == bytes[at]
    &&& message.on_request[1] == if at + 1 < bytes.len() {
        bytes[at + 1]
    } else {
        0u8
    }
}

/// `message` reads two bytes on the ISDU channel under `address`.
pub open spec fn asks_for_two(message: MasterView, address: int) -> bool {
    &&& message.read
    &&& message.channel is Isdu
    &&& message.kind is Type1
    &&& message.address == address
    &&& message.process_out.len() == 0
    &&& message.on_request.len() == 0
}

/// The two messages a transfer is made of, field by field.
pub proof fn law_messages(bytes: Seq<u8>, at: nat, address: u8)
    requires
        at < bytes.len(),
        address < 32,
    ensures
        brings_two(write_message(bytes, at, address), bytes, at as int, address as int),
        asks_for_two(read_message(address), address as int),
{
    crate::m_sequence::lemma_address_bits(address);
}

impl TransferView {
    /// What every transfer keeps: it has sent no more than there is, and its
    /// count is one.
    pub open spec fn well_formed(self) -> bool {
        &&& self.written <= self.bytes.len()
        &&& self.address <= isdu::COUNT_MASK
    }

    /// The transfer of `request` as it begins, its first message sent.
    pub open spec fn started(request: IsduView, timeout: u128) -> TransferView {
        TransferView {
            bytes: request.encoded(),
            written: 2,
            address: next_count(isdu::START),
            polled: false,
            response: None,
            length: 0,
            timeout,
        }
    }

    /// With some of the response there: on to the next two bytes, or done.
    pub open spec fn gathered(self, response: Seq<u8>, length: nat) -> (TransferView, StepView) {
        let gathered = TransferView { response: Some(response), length, ..self };
        if response.len() < length {
            (
                TransferView { address: next_count(self.address), ..gathered },
                StepView::Send(read_message(self.address)),
            )
        } else {
            (gathered, StepView::Finished(IsduView::decoded(response.take(length as int))))
        }
    }

    /// What comes after an answer with `on_request`, `waited` nanoseconds
    /// after the request was written.
    pub open spec fn stepped(self, on_request: Seq<u8>, waited: u128) -> (TransferView, StepView) {
        if !self.polled && self.written < self.bytes.len() {
            (
                TransferView {
                    written: if self.written + 2 <= self.bytes.len() {
                        self.written + 2
                    } else {
                        self.bytes.len()
                    },
                    address: next_count(self.address),
                    ..self
                },
                StepView::Send(write_message(self.bytes, self.written, self.address)),
            )
        } else if !self.polled {
            (TransferView { polled: true, ..self }, StepView::Send(read_message(isdu::START)))
        } else {
            match self.response {
                None => if on_request.len() > 0 && on_request[0] == isdu::BUSY {
                    if waited >= self.timeout {
                        (self, StepView::Finished(Err(Error::StayedBusy)))
                    } else {
                        (self, StepView::Send(read_message(isdu::START)))
                    }
                } else {
                    match isdu::named_length(on_request) {
                        None => (self, StepView::Finished(Err(Error::IsduCutShort))),
                        Some(length) => TransferView { address: 0, ..self }.gathered(
                            on_request,
                            length,
                        ),
                    }
                },
                Some(response) => self.gathered(response + on_request, self.length),
            }
        }
    }
}

/// A count stays within its four bits.
pub proof fn lemma_count_bits(address: u8)
    requires
        address <= isdu::START,
    ensures
        next_count(address) <= isdu::COUNT_MASK,
        next_count(isdu::START) == 1,
{
    let next = (address + 1) as u8;
    assert(next & 0x0f <= 0x0f) by (bit_vector);
    assert(0x11u8 & 0x0f == 1) by (bit_vector);
}

fn count_after(address: u8) -> (next: u8)
    requires
        address <= isdu::START,
    ensures
        next == next_count(address),
        next <= isdu::COUNT_MASK,
{
    proof {
        lemma_count_bits(address);
    }
    (address + 1) & isdu::COUNT_MASK
}

/// The message that carries two bytes of `bytes` from `at`.
fn write_two(bytes: &[u8], at: usize, address: u8) -> (message: MasterMessage)
    requires
        at < bytes@.len(),
    ensures
        message@ == write_message(bytes@, at as nat, address),
{
    let second: u8 = if bytes.len() - at > 1 {
        bytes[at + 1]
    } else {
        0
    };
    let mut two: Vec<u8> = Vec::new();
    two.push(bytes[at]);
    two.push(second);
    assert(two@ =~= crate::device::chunk(bytes@, at as nat, 2));
    match MasterMessage::write(Kind::Type1, Channel::Isdu, address, &two) {
        Ok(message) => message,
        Err(_) => MasterMessage::read(Kind::Type1, Channel::Isdu, address),
    }
}

impl Transfer {
    /// Begin the transfer of `request`, giving up on a device that stays busy
    /// for `timeout` nanoseconds: the transfer, and the first message to
    /// exchange.
    pub fn start(request: &Isdu, timeout: u128) -> (begun: (Transfer, MasterMessage))
        ensures
            begun.0@ == TransferView::started(request@, timeout),
            begun.0@.well_formed(),
            begun.1@ == write_message(request@.encoded(), 0, isdu::START),
            brings_two(begun.1@, request@.encoded(), 0, 0x10),
    {
        proof {
            law_messages(request@.encoded(), 0, isdu::START);
        }
        let bytes = request.encode();
        let message = write_two(&bytes, 0, isdu::START);
        let transfer = Transfer {
            bytes,
            written: 2,
            address: count_after(isdu::START),
            polled: false,
            response: None,
            length: 0,
            timeout,
        };
        (transfer, message)
    }

    /// What to do after `answer`, which came `waited` nanoseconds after the
    /// request was written.
    pub fn step(&mut self, answer: &DeviceMessage, waited: u128) -> (step: Step)
        requires
            old(self)@.well_formed(),
        ensures
            (final(self)@, step@) == old(self)@.stepped(answer@.on_request, waited),
            final(self)@.well_formed(),
    {
        if !self.polled {
            if self.written < self.bytes.len() {
                let message = write_two(&self.bytes, self.written, self.address);
                self.address = count_after(self.address);
                if self.bytes.len() - self.written >= 2 {
                    self.written += 2;
                } else {
                    self.written = self.bytes.len();
                }
                return Step::Send(message);
            }
            self.polled = true;
            return Step::Send(MasterMessage::read(Kind::Type1, Channel::Isdu, isdu::START));
        }
        match self.response.take() {
            None => {
                let first = &answer.on_request;
                if first.len() > 0 && first[0] == isdu::BUSY {
                    if waited >= self.timeout {
                        return Step::Finished(Err(Error::StayedBusy));
                    }
                    return Step::Send(MasterMessage::read(Kind::Type1, Channel::Isdu, isdu::START));
                }
                match Isdu::length_of(first) {
                    None => Step::Finished(Err(Error::IsduCutShort)),
                    Some(length) => {
                        self.address = 0;
                        self.length = length;
                        self.gather(crate::bytes::copy(first))
                    },
                }
            },
            Some(response) => {
                let mut response = response;
                append(&mut response, &answer.on_request);
                self.gather(response)
            },
        }
    }

    fn gather(&mut self, response: Vec<u8>) -> (step: Step)
        requires
            old(self)@.well_formed(),
        ensures
            (final(self)@, step@) == old(self)@.gathered(response@, old(self)@.length),
            final(self)@.well_formed(),
    {
        if response.len() < self.length {
            let message = MasterMessage::read(Kind::Type1, Channel::Isdu, self.address);
            self.address = count_after(self.address);
            self.response = Some(response);
            return Step::Send(message);
        }
        let result = Isdu::decode(vstd::slice::slice_subrange(&response, 0, self.length));
        assert(response@.subrange(0, self.length as int) =~= response@.take(self.length as int));
        self.response = Some(response);
        Step::Finished(result)
    }
}

impl TransferView {
    /// The transfer after `answers`, each the on-request data of one and the
    /// time waited for it.
    pub open spec fn after_answers(self, answers: Seq<(Seq<u8>, u128)>) -> TransferView
        decreases answers.len(),
    {
        if answers.len() == 0 {
            self
        } else {
            self.after_answers(answers.drop_last()).stepped(answers.last().0, answers.last().1).0
        }
    }
}

proof fn lemma_count_after(address: u8)
    requires
        address < 16,
    ensures
        next_count(address) == (address + 1) % 16,
{
    let next = (address + 1) as u8;
    assert(next & 0x0f == next % 16) by (bit_vector);
}

#[verifier::spinoff_prover]
proof fn lemma_while_writing(request: IsduView, timeout: u128, answers: Seq<(Seq<u8>, u128)>)
    requires
        2 * answers.len() < request.encoded().len(),
    ensures
        ({
            let transfer = TransferView::started(request, timeout).after_answers(answers);
            let sent = 2 * answers.len() + 2;
            &&& transfer.bytes == request.encoded()
            &&& !transfer.polled
            &&& transfer.address == (answers.len() + 1) % 16
            &&& transfer.written == if sent <= request.encoded().len() {
                sent
            } else {
                request.encoded().len()
            }
        }),
    decreases answers.len(),
{
    if answers.len() == 0 {
        lemma_count_bits(isdu::START);
    } else {
        let count = answers.len();
        lemma_while_writing(request, timeout, answers.drop_last());
        lemma_count_after((count % 16) as u8);
        assert((count % 16 + 1) % 16 == (count + 1) % 16);
    }
}

/// Whatever the device answers meanwhile, the whole request goes out: the
/// message after so many answers carries the next two bytes, under a count
/// that cycles through sixteen, and after the last bytes the response is asked
/// for.
pub proof fn law_request_goes_out_whole(
    request: IsduView,
    timeout: u128,
    answers: Seq<(Seq<u8>, u128)>,
)
    requires
        answers.len() > 0,
        2 * (answers.len() - 1) < request.encoded().len(),
    ensures
        ({
            let before = TransferView::started(request, timeout).after_answers(
                answers.drop_last(),
            );
            before.stepped(answers.last().0, answers.last().1).1 == if 2 * answers.len()
                < request.encoded().len() {
                StepView::Send(
                    write_message(
                        request.encoded(),
                        2 * answers.len(),
                        (answers.len() % 16) as u8,
                    ),
                )
            } else {
                StepView::Send(read_message(isdu::START))
            }
        }),
{
    lemma_while_writing(request, timeout, answers.drop_last());
}

/// A device that is busy is asked again, as often as it takes, until the
/// deadline; from then on the transfer is over.
pub proof fn law_busy_device_is_asked_again(
    transfer: TransferView,
    on_request: Seq<u8>,
    waited: u128,
)
    requires
        transfer.polled,
        transfer.response is None,
        on_request.len() > 0,
        on_request[0] == isdu::BUSY,
    ensures
        transfer.stepped(on_request, waited) == if waited < transfer.timeout {
            (transfer, StepView::Send(read_message(isdu::START)))
        } else {
            (transfer, StepView::Finished(Err::<IsduView, Error>(Error::StayedBusy)))
        },
{
}

/// `answers` hand `unit` over, two bytes at a time from its beginning.
pub open spec fn hand_over(answers: Seq<(Seq<u8>, u128)>, unit: IsduView) -> bool {
    forall|i: int|
        0 <= i < answers.len() ==> (#[trigger] answers[i]).0 == crate::device::chunk(
            unit.encoded(),
            (2 * i) as nat,
            2,
        )
}

#[verifier::spinoff_prover]
proof fn lemma_while_reading(
    asked: TransferView,
    unit: IsduView,
    answers: Seq<(Seq<u8>, u128)>,
)
    requires
        asked.polled,
        asked.response is None,
        unit.length() <= 255,
        hand_over(answers, unit),
        0 < 2 * answers.len() < unit.length(),
    ensures
        ({
            let transfer = asked.after_answers(answers);
            &&& transfer.polled
            &&& transfer.response == Some(unit.encoded().take(2 * answers.len() as int))
            &&& transfer.length == unit.length()
            &&& transfer.address == answers.len() % 16
        }),
    decreases answers.len(),
{
    let count = answers.len() as int;
    let wire = unit.encoded();
    let last = answers.last().0;
    assert(last == answers[count - 1].0);
    isdu::law_encoded_names_its_length(unit, 2);
    isdu::law_unit_is_not_busy(unit);
    if count == 1 {
        assert(answers.drop_last().len() == 0);
        assert(asked.after_answers(answers.drop_last()) == asked);
        assert(last =~= wire.take(2));
        assert(last[0] == wire[0]);
        lemma_count_after(0);
    } else {
        let before = answers.drop_last();
        assert forall|i: int| 0 <= i < before.len() implies (#[trigger] before[i]).0
            == crate::device::chunk(wire, (2 * i) as nat, 2) by {
            assert(before[i] == answers[i]);
        }
        lemma_while_reading(asked, unit, before);
        assert(wire.take(2 * (count - 1)) + last =~= wire.take(2 * count));
        lemma_count_after(((count - 1) % 16) as u8);
        assert(((count - 1) % 16 + 1) % 16 == count % 16);
    }
}

/// Whatever the request and whoever the device, a response handed over two
/// bytes at a time is gathered whole: until its last bytes are there the next
/// two are asked for, under a count that cycles through sixteen, and then the
/// transfer ends with the unit.
pub proof fn law_response_is_gathered(
    asked: TransferView,
    unit: IsduView,
    answers: Seq<(Seq<u8>, u128)>,
)
    requires
        asked.polled,
        asked.response is None,
        unit.well_formed(),
        hand_over(answers, unit),
        answers.len() > 0,
        2 * (answers.len() - 1) < unit.length(),
    ensures
        asked.after_answers(answers.drop_last()).stepped(answers.last().0, answers.last().1).1
            == if 2 * answers.len() < unit.length() {
            StepView::Send(read_message(((answers.len() - 1) % 16) as u8))
        } else {
            StepView::Finished(Ok::<IsduView, Error>(unit))
        },
{
    let count = answers.len() as int;
    let wire = unit.encoded();
    let last = answers.last().0;
    let before = answers.drop_last();
    assert(last == answers[count - 1].0);
    isdu::law_encoded_names_its_length(unit, 2);
    isdu::law_unit_is_not_busy(unit);
    isdu::law_isdu_round_trip(unit);
    if count == 1 {
        assert(before.len() == 0);
        assert(asked.after_answers(before) == asked);
        assert(last =~= wire.take(2));
        assert(last[0] == wire[0]);
    } else {
        assert forall|i: int| 0 <= i < before.len() implies (#[trigger] before[i]).0
            == crate::device::chunk(wire, (2 * i) as nat, 2) by {
            assert(before[i] == answers[i]);
        }
        lemma_while_reading(asked, unit, before);
        let gathered = wire.take(2 * (count - 1)) + last;
        if 2 * count >= unit.length() {
            assert(gathered.take(unit.length() as int) =~= wire);
        }
    }
}

/// Whatever the device answers meanwhile, byte after byte of the request goes
/// out: the message after so many answers writes the two bytes that come next,
/// under the number of answers modulo sixteen, and after the last bytes two
/// bytes of the response are asked for under 0x10.
pub proof fn law_every_byte_goes_out(
    request: IsduView,
    timeout: u128,
    answers: Seq<(Seq<u8>, u128)>,
)
    requires
        answers.len() > 0,
        2 * (answers.len() - 1) < request.encoded().len(),
    ensures
        ({
            let count = answers.len() as int;
            let bytes = request.encoded();
            let before = TransferView::started(request, timeout).after_answers(
                answers.drop_last(),
            );
            &&& before.stepped(answers.last().0, answers.last().1).1 matches StepView::Send(message)
            &&& if 2 * count < bytes.len() {
                brings_two(message, bytes, 2 * count, count % 16)
            } else {
                asks_for_two(message, 0x10)
            }
        }),
{
    law_request_goes_out_whole(request, timeout, answers);
    if 2 * answers.len() < request.encoded().len() {
        law_messages(request.encoded(), 2 * answers.len(), (answers.len() % 16) as u8);
    } else {
        law_messages(request.encoded(), 0, 0x10);
    }
}

/// A busy device, one whose answer begins with 0x01, is asked again for two
/// bytes under 0x10 as long as the time waited is less than the time allowed,
/// and given up on from then on.
pub proof fn law_busy_until_the_deadline(
    asked: TransferView,
    on_request: Seq<u8>,
    waited: u128,
)
    requires
        asked.polled,
        asked.response is None,
        on_request.len() > 0,
        on_request[0] == 0x01,
    ensures
        asked.stepped(on_request, waited).0 == asked,
        waited < asked.timeout ==> (asked.stepped(on_request, waited).1 matches StepView::Send(
            message,
        ) && asks_for_two(message, 0x10)),
        waited >= asked.timeout ==> asked.stepped(on_request, waited).1 == StepView::Finished(
            Err::<IsduView, Error>(Error::StayedBusy),
        ),
{
    law_messages(seq![0u8], 0, 0x10);
}

/// An answer too short to name a length ends the transfer.
pub proof fn law_answer_cut_short(asked: TransferView, on_request: Seq<u8>, waited: u128)
    requires
        asked.polled,
        asked.response is None,
        on_request.len() < 2,
        on_request.len() == 1 ==> on_request[0] != 0x01,
    ensures
        asked.stepped(on_request, waited).1 == StepView::Finished(
            Err::<IsduView, Error>(Error::IsduCutShort),
        ),
{
}

/// What `answers` brought, in a row.
pub open spec fn brought(answers: Seq<(Seq<u8>, u128)>) -> Seq<u8>
    decreases answers.len(),
{
    if answers.len() == 0 {
        seq![]
    } else {
        brought(answers.drop_last()) + answers.last().0
    }
}

/// `answers` begin a response that is not whole before the last of them.
pub open spec fn answer_on(answers: Seq<(Seq<u8>, u128)>) -> bool {
    &&& answers.len() > 0
    &&& answers[0].0.len() >= 2
    &&& answers[0].0[0] != 0x01
    &&& answers.len() > 1 ==> brought(answers.drop_last()).len() < crate::flow::length_named(
        answers[0].0,
    )
}

proof fn lemma_brought_grows(answers: Seq<(Seq<u8>, u128)>)
    requires
        answers.len() > 0,
    ensures
        brought(answers).len() >= brought(answers.drop_last()).len(),
{
}

#[verifier::spinoff_prover]
proof fn lemma_while_gathering(asked: TransferView, answers: Seq<(Seq<u8>, u128)>)
    requires
        asked.polled,
        asked.response is None,
        answer_on(answers),
        brought(answers).len() < crate::flow::length_named(answers[0].0),
    ensures
        ({
            let transfer = asked.after_answers(answers);
            &&& transfer.polled
            &&& transfer.response == Some(brought(answers))
            &&& transfer.length == crate::flow::length_named(answers[0].0)
            &&& transfer.address == answers.len() % 16
        }),
    decreases answers.len(),
{
    let before = answers.drop_last();
    crate::wire::law_length_is_named(answers[0].0);
    if answers.len() == 1 {
        assert(asked.after_answers(before) == asked);
        assert(brought(before) =~= seq![]);
        assert(brought(answers) =~= answers[0].0);
        lemma_count_after(0);
    } else {
        assert(before[0] == answers[0]);
        if before.len() > 1 {
            lemma_brought_grows(before);
        }
        let count = before.len();
        lemma_while_gathering(asked, before);
        lemma_count_after((count % 16) as u8);
        assert((count % 16 + 1) % 16 == (count + 1) % 16);
    }
}

/// Whatever a device answers once it has an answer, the first two bytes name
/// its length, in either form; two more bytes are asked for, under counts that
/// cycle through sixteen from zero, until that many are there, and no longer;
/// and the transfer ends with what those bytes decode to.
pub proof fn law_answers_are_gathered(asked: TransferView, answers: Seq<(Seq<u8>, u128)>)
    requires
        asked.polled,
        asked.response is None,
        answer_on(answers),
    ensures
        ({
            let length = crate::flow::length_named(answers[0].0);
            let bytes = brought(answers);
            let step = asked.after_answers(answers.drop_last()).stepped(
                answers.last().0,
                answers.last().1,
            ).1;
            if bytes.len() < length {
                step matches StepView::Send(message) && asks_for_two(
                    message,
                    (answers.len() - 1) % 16,
                )
            } else {
                step == StepView::Finished(IsduView::decoded(bytes.take(length as int)))
            }
        }),
{
    let before = answers.drop_last();
    crate::wire::law_length_is_named(answers[0].0);
    law_messages(seq![0u8], 0, ((answers.len() - 1) % 16) as u8);
    if answers.len() == 1 {
        assert(asked.after_answers(before) == asked);
        assert(brought(before) =~= seq![]);
        assert(brought(answers) =~= answers[0].0);
    } else {
        assert(before[0] == answers[0]);
        if before.len() > 1 {
            lemma_brought_grows(before);
        }
        lemma_while_gathering(asked, before);
    }
}

/// `answers` bring `bytes`, two at a time from the first, with a zero beyond
/// the last.
pub open spec fn bring(answers: Seq<(Seq<u8>, u128)>, bytes: Seq<u8>) -> bool {
    forall|i: int|
        0 <= i < answers.len() ==> {
            &&& (#[trigger] answers[i]).0.len() == 2
            &&& 2 * i < bytes.len() ==> answers[i].0[0] == bytes[2 * i]
            &&& 2 * i + 1 < bytes.len() ==> answers[i].0[1] == bytes[2 * i + 1]
        }
}

proof fn lemma_brought(answers: Seq<(Seq<u8>, u128)>, bytes: Seq<u8>)
    requires
        bring(answers, bytes),
    ensures
        brought(answers).len() == 2 * answers.len(),
        forall|j: int|
            0 <= j < 2 * answers.len() && j < bytes.len() ==> #[trigger] brought(answers)[j]
                == bytes[j],
    decreases answers.len(),
{
    if answers.len() > 0 {
        let before = answers.drop_last();
        let count = before.len() as int;
        assert forall|i: int| 0 <= i < before.len() implies {
            &&& (#[trigger] before[i]).0.len() == 2
            &&& 2 * i < bytes.len() ==> before[i].0[0] == bytes[2 * i]
            &&& 2 * i + 1 < bytes.len() ==> before[i].0[1] == bytes[2 * i + 1]
        } by {
            assert(before[i] == answers[i]);
        }
        lemma_brought(before, bytes);
        assert(answers.last() == answers[count]);
        assert forall|j: int| 0 <= j < 2 * answers.len() && j < bytes.len() implies #[trigger]
        brought(answers)[j] == bytes[j] by {
            if j < 2 * count {
                assert(brought(answers)[j] == brought(before)[j]);
            } else {
                assert(brought(answers)[j] == answers[count].0[j - 2 * count]);
            }
        }
    }
}

/// Every byte string that decodes to a unit, in the short form or the
/// extended, and is brought two bytes at a time, is asked for with exactly as
/// many messages as cover it, and then the transfer ends with that unit.
pub proof fn law_every_form_is_gathered(
    asked: TransferView,
    bytes: Seq<u8>,
    answers: Seq<(Seq<u8>, u128)>,
)
    requires
        asked.polled,
        asked.response is None,
        IsduView::decoded(bytes) is Ok,
        bring(answers, bytes),
        answers.len() > 0,
        2 * (answers.len() - 1) < bytes.len(),
    ensures
        ({
            let step = asked.after_answers(answers.drop_last()).stepped(
                answers.last().0,
                answers.last().1,
            ).1;
            if 2 * answers.len() < bytes.len() {
                step matches StepView::Send(message) && asks_for_two(
                    message,
                    (answers.len() - 1) % 16,
                )
            } else {
                step == StepView::Finished(IsduView::decoded(bytes))
            }
        }),
{
    let before = answers.drop_last();
    crate::wire::law_unit_is_read_by_place(bytes);
    assert(answers[0].0[0] == bytes[0]);
    assert(answers[0].0[1] == bytes[1]);
    assert forall|i: int| 0 <= i < before.len() implies {
        &&& (#[trigger] before[i]).0.len() == 2
        &&& 2 * i < bytes.len() ==> before[i].0[0] == bytes[2 * i]
        &&& 2 * i + 1 < bytes.len() ==> before[i].0[1] == bytes[2 * i + 1]
    } by {
        assert(before[i] == answers[i]);
    }
    lemma_brought(before, bytes);
    lemma_brought(answers, bytes);
    law_answers_are_gathered(asked, answers);
    if 2 * answers.len() >= bytes.len() {
        assert(brought(answers).take(bytes.len() as int) =~= bytes);
    }
}

/// Once the device has answered for all of the request, the response has been
/// asked for and nothing of it is there, and the time allowed is what the
/// transfer began with.
pub proof fn law_response_is_asked_for(
    request: IsduView,
    timeout: u128,
    answers: Seq<(Seq<u8>, u128)>,
)
    requires
        2 * (answers.len() - 1) < request.encoded().len() <= 2 * answers.len(),
    ensures
        ({
            let asked = TransferView::started(request, timeout).after_answers(answers);
            &&& asked.polled
            &&& asked.response is None
            &&& asked.timeout == timeout
        }),
{
    lemma_while_writing(request, timeout, answers.drop_last());
    lemma_nothing_gathered(request, timeout, answers.drop_last());
}

proof fn lemma_nothing_gathered(request: IsduView, timeout: u128, answers: Seq<(Seq<u8>, u128)>)
    requires
        2 * answers.len() < request.encoded().len(),
    ensures
        ({
            let transfer = TransferView::started(request, timeout).after_answers(answers);
            &&& transfer.response is None
            &&& transfer.timeout == timeout
        }),
    decreases answers.len(),
{
    if answers.len() > 0 {
        lemma_nothing_gathered(request, timeout, answers.drop_last());
        lemma_while_writing(request, timeout, answers.drop_last());
    }
}

} // verus!
