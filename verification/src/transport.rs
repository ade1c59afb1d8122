//! The master's side of one port: what it sends, what it makes of the
//! answers, and the parameter it is about. A device attached in-process
//! answers every message as it is written, over a line that delivers what is
//! written on it.
use vstd::prelude::*;
use vstd::string::StringExecFns;

use crate::device::{Device, DeviceView};
use crate::error::Error;
use crate::isdu::{self, Isdu, IsduView, Service};
use crate::m_sequence::{AnswerView, Channel, DeviceMessage, Kind, MasterMessage, MasterView};
use crate::transfer::{Step, StepView, Transfer, TransferView};

verus! {

/// The parameter a Stream travels as unless a target says otherwise: the
/// first vendor-specific index.
pub const STREAM_PARAMETER: (u16, u8) = (0x0100, 0);

/// How long a busy device is waited for unless said otherwise: one second, in
/// nanoseconds.
pub const TIMEOUT: u128 = 1_000_000_000;

/// The master's side of one port, speaking to the device on it.
pub struct IoLinkTransport {
    line: String,
    device: Option<Device>,
    process_in: usize,
    index: u16,
    subindex: u8,
    timeout: u128,
}

/// What a port holds.
#[verifier::ext_equal]
pub struct PortView {
    /// The origin URI of the line.
    pub line: Seq<char>,
    /// The device attached in-process, where there is one.
    pub device: Option<DeviceView>,
    /// The bytes of process data in that the device presents.
    pub process_in: usize,
    /// The parameter the port is about.
    pub index: u16,
    pub subindex: u8,
    /// How long a busy device is waited for, in nanoseconds.
    pub timeout: u128,
}

impl View for IoLinkTransport {
    type V = PortView;

    closed spec fn view(&self) -> PortView {
        PortView {
            line: self.line@,
            device: match self.device {
                None => None,
                Some(device) => Some(device@),
            },
            process_in: self.process_in,
            index: self.index,
            subindex: self.subindex,
            timeout: self.timeout,
        }
    }
}

impl DeviceView {
    /// The device after it heard `bytes`, and the bytes it writes in answer:
    /// none where the bytes are not a message.
    pub open spec fn heard(self, bytes: Seq<u8>, process_out: nat) -> (DeviceView, Result<
        Seq<u8>,
        Error,
    >) {
        match MasterView::decoded(bytes, process_out) {
            Err(error) => (self, Err(error)),
            Ok(master) => (self.answered(master).0, Ok(self.answered(master).1.encoded())),
        }
    }
}

impl PortView {
    /// What every port keeps: its device is well-formed.
    pub open spec fn well_formed(self) -> bool {
        self.device matches Some(device) ==> device.well_formed()
    }

    /// The process data in that the answer to `message` brings: type 2 only,
    /// beside process data out.
    pub open spec fn expects(self, message: MasterView) -> nat {
        if message.kind is Type2 && message.process_out.len() > 0 {
            self.process_in as nat
        } else {
            0
        }
    }

    /// One M-sequence with the device attached in-process: the message on the
    /// line, the device's answer off it. With nobody on the line, or an answer
    /// of another length than is read, nothing comes off it.
    pub open spec fn exchanged(self, message: MasterView) -> (PortView, Result<AnswerView, Error>) {
        match self.device {
            None => (self, Err(Error::NothingArrived)),
            Some(device) => {
                let (device, heard) = device.heard(message.encoded(), message.process_out.len());
                let port = PortView { device: Some(device), ..self };
                match heard {
                    Err(error) => (port, Err(error)),
                    Ok(bytes) => if bytes.len() != crate::m_sequence::answer_length(
                        self.expects(message),
                        message.wanted(),
                    ) {
                        (port, Err(Error::NothingArrived))
                    } else {
                        (port, AnswerView::decoded(bytes, self.expects(message)))
                    },
                }
            },
        }
    }

    /// One ISDU transfer with the device attached in-process.
    pub open spec fn transferred(self, request: IsduView) -> (PortView, Result<IsduView, Error>) {
        match self.device {
            None => (self, Err(Error::NothingArrived)),
            Some(device) => (
                PortView { device: Some(device.transferred(request).0), ..self },
                device.transferred(request).1,
            ),
        }
    }
}

/// What came off a port: where it came from, and its bytes.
#[derive(Clone, Debug, PartialEq, Eq)]
pub struct Arrived {
    pub origin_uri: String,
    pub bytes: Vec<u8>,
}

/// `error` is a device's answer with `service` and `data`.
pub open spec fn refused_with(error: Error, service: Service, data: Seq<u8>) -> bool {
    error matches Error::Refused { service: answered, data: carried } && answered == service
        && carried@ == data
}

/// What a negative response carries for an index that is not there.
pub open spec fn index_not_available() -> Seq<u8> {
    seq![0x80u8, 0x11u8]
}

impl PortView {
    /// The device holds a parameter under `key`.
    pub open spec fn holds(self, key: (u16, u8)) -> bool {
        self.device matches Some(device) && device.parameters.contains_key(key)
    }

    /// The port after `data` was written to the parameter `key`: held where
    /// the device has that parameter and one ISDU carries the data.
    pub open spec fn written(self, key: (u16, u8), data: Seq<u8>) -> PortView {
        match self.device {
            Some(device) if data.len() <= isdu::DATA_MAX => if self.holds(key) {
                PortView {
                    device: Some(
                        DeviceView {
                            parameters: device.parameters.insert(key, data),
                            ..device.settled()
                        },
                    ),
                    ..self
                }
            } else {
                PortView { device: Some(device.settled()), ..self }
            },
            _ => self,
        }
    }

    /// What the writing of `data` to the parameter `key` comes to.
    pub open spec fn write_gives(
        self,
        key: (u16, u8),
        data: Seq<u8>,
        result: Result<(), Error>,
    ) -> bool {
        if data.len() > isdu::DATA_MAX {
            result == Err::<(), Error>(isdu::over_ceiling(data.len()))
        } else if self.device is None {
            result == Err::<(), Error>(Error::NothingArrived)
        } else if self.holds(key) {
            result is Ok
        } else {
            result matches Err(error) && refused_with(
                error,
                Service::WriteResponseNegative,
                index_not_available(),
            )
        }
    }

    /// The port after a parameter was read.
    pub open spec fn after_read(self) -> PortView {
        match self.device {
            Some(device) => PortView { device: Some(device.settled()), ..self },
            None => self,
        }
    }

    /// What the reading of the parameter `key` comes to.
    pub open spec fn read_gives(self, key: (u16, u8), result: Result<Seq<u8>, Error>) -> bool {
        if self.device is None {
            result == Err::<Seq<u8>, Error>(Error::NothingArrived)
        } else if self.holds(key) && self.device->0.parameters[key].len() <= isdu::DATA_MAX {
            result == Ok::<Seq<u8>, Error>(self.device->0.parameters[key])
        } else {
            result matches Err(error) && refused_with(
                error,
                Service::ReadResponseNegative,
                index_not_available(),
            )
        }
    }

    /// The parameter that `target` names on this port.
    pub open spec fn resolved(self, target: Seq<char>) -> Option<(u16, u8)> {
        crate::target::resolved(
            crate::target::target_path(target),
            (self.index, self.subindex),
        )
    }

    /// The origin URI of parameter `index:subindex` on this port.
    pub open spec fn origin(self, index: u16, subindex: u8) -> Seq<char> {
        crate::target::origin_uri(crate::target::port_name(self.line), index, subindex)
    }
}

/// An exchange with the device attached in-process is that device's answer,
/// wherever the message is well-formed and the process data in is as long as
/// the port was told.
pub proof fn law_exchange_is_the_answer(port: PortView, message: MasterView)
    requires
        port.device is Some,
        message.well_formed(),
        port.well_formed(),
        message.kind is Type2 && message.process_out.len() > 0
            ==> port.device->0.process_in.len() == port.process_in,
    ensures
        port.exchanged(message) == (
            PortView { device: Some(port.device->0.answered(message).0), ..port },
            Ok::<AnswerView, Error>(port.device->0.answered(message).1),
        ),
{
    let answer = port.device->0.answered(message).1;
    crate::m_sequence::law_master_round_trip(message);
    crate::m_sequence::law_answer_round_trip(answer);
    lemma_answer_has_what_is_wanted(port.device->0, message);
}

/// An answer carries the on-request bytes that are wanted.
proof fn lemma_answer_has_what_is_wanted(device: DeviceView, message: MasterView)
    ensures
        device.answered(message).1.on_request.len() == message.wanted(),
{
}

impl Device {
    /// The device's part in an exchange on its line: the bytes that answer
    /// `heard`, which carries `process_out` bytes of process data out.
    ///
    /// # Errors
    /// What is heard is not a master message.
    pub fn hear(&mut self, heard: &[u8], process_out: usize) -> (result: Result<Vec<u8>, Error>)
        requires
            old(self)@.well_formed(),
        ensures
            (final(self)@, crate::error::viewed(result)) == old(self)@.heard(
                heard@,
                process_out as nat,
            ),
            final(self)@.well_formed(),
    {
        match MasterMessage::decode(heard, process_out) {
            Ok(master) => {
                proof {
                    crate::m_sequence::law_master_encoding_is_unique(heard@, process_out as nat);
                }
                let answer = self.answer(&master);
                Ok(answer.encode())
            },
            Err(error) => Err(error),
        }
    }
}

impl IoLinkTransport {
    /// A master on the line that `line` is the origin URI of, no process data,
    /// about the Stream parameter, and no device attached.
    #[must_use]
    pub fn new(line: &str) -> (port: IoLinkTransport)
        ensures
            port@ == (PortView {
                line: line@,
                device: None,
                process_in: 0,
                index: STREAM_PARAMETER.0,
                subindex: STREAM_PARAMETER.1,
                timeout: TIMEOUT,
            }),
            port@.timeout == 1_000_000_000,
            port@.index == 0x0100,
            port@.subindex == 0,
            port@.well_formed(),
    {
        IoLinkTransport {
            line: String::from_str(line),
            device: None,
            process_in: 0,
            index: STREAM_PARAMETER.0,
            subindex: STREAM_PARAMETER.1,
            timeout: TIMEOUT,
        }
    }

    /// The device presents `process_in` bytes of process data in.
    #[must_use]
    pub fn with_process_in(self, process_in: usize) -> (port: IoLinkTransport)
        ensures
            port@ == (PortView { process_in, ..self@ }),
    {
        let mut port = self;
        port.process_in = process_in;
        port
    }

    /// Speak about `index:subindex` instead.
    #[must_use]
    pub fn about(self, index: u16, subindex: u8) -> (port: IoLinkTransport)
        ensures
            port@ == (PortView { index, subindex, ..self@ }),
    {
        let mut port = self;
        port.index = index;
        port.subindex = subindex;
        port
    }

    /// Give up on a device that stays busy for `timeout` nanoseconds.
    #[must_use]
    pub fn timing_out_after(self, timeout: u128) -> (port: IoLinkTransport)
        ensures
            port@ == (PortView { timeout, ..self@ }),
    {
        let mut port = self;
        port.timeout = timeout;
        port
    }

    /// The same master with `device` at the far end of its line, answering
    /// every M-sequence as it is written.
    #[must_use]
    pub fn attached(self, device: Device) -> (port: IoLinkTransport)
        ensures
            port@ == (PortView { device: Some(device@), ..self@ }),
    {
        let mut port = self;
        port.device = Some(device);
        port
    }

    /// The process data in that the answer to `message` brings: type 2 only,
    /// beside process data out.
    pub fn process_in_of(&self, message: &MasterMessage) -> (count: usize)
        ensures
            count == self@.expects(message@),
    {
        if matches!(message.kind, Kind::Type2) && !message.process_out.is_empty() {
            self.process_in
        } else {
            0
        }
    }

    /// How long the answer to `message` is on the line.
    pub fn reply_length(&self, message: &MasterMessage) -> (length: usize)
        requires
            crate::m_sequence::answer_length(self@.expects(message@), message@.wanted())
                <= usize::MAX,
        ensures
            length == crate::m_sequence::answer_length(
                self@.expects(message@),
                message@.wanted(),
            ),
    {
        let want: usize = if message.read {
            message.kind.on_request()
        } else {
            0
        };
        DeviceMessage::length(self.process_in_of(message), want)
    }

    /// What `bytes` off the line answer to `message`.
    ///
    /// # Errors
    /// The bytes are not a device message.
    pub fn take_reply(&self, message: &MasterMessage, bytes: &[u8]) -> (result: Result<
        DeviceMessage,
        Error,
    >)
        ensures
            crate::error::viewed(result) == AnswerView::decoded(bytes@, self@.expects(message@)),
    {
        DeviceMessage::decode(bytes, self.process_in_of(message))
    }

    /// One M-sequence with the device attached in-process: the master message
    /// on the line, the device message off it.
    ///
    /// # Errors
    /// Nobody on the line, or a message that is not one.
    pub fn exchange(&mut self, message: &MasterMessage) -> (result: Result<DeviceMessage, Error>)
        requires
            old(self)@.well_formed(),
        ensures
            (final(self)@, crate::error::viewed(result)) == old(self)@.exchanged(message@),
            final(self)@.well_formed(),
    {
        let want: usize = if message.read {
            message.kind.on_request()
        } else {
            0
        };
        let bytes = message.encode();
        let heard = match &mut self.device {
            None => return Err(Error::NothingArrived),
            Some(device) => device.hear(&bytes, message.process_out.len()),
        };
        match heard {
            Err(error) => Err(error),
            Ok(answer) => {
                if answer.len() <= want || answer.len() - 1 - want != self.process_in_of(message) {
                    return Err(Error::NothingArrived);
                }
                self.take_reply(message, &answer)
            },
        }
    }

    /// One ISDU transfer with the device attached in-process: `request` across
    /// the channel two bytes at a time, the response back the same way. What
    /// that device has not answered it will not answer later, so it is not
    /// waited for.
    ///
    /// # Errors
    /// Nobody on the line, or what the device answers is not an ISDU.
    pub fn transfer(&mut self, request: &Isdu) -> (result: Result<Isdu, Error>)
        requires
            old(self)@.well_formed(),
        ensures
            (final(self)@, crate::error::viewed(result)) == old(self)@.transferred(request@),
            final(self)@.well_formed(),
    {
        let (mut transfer, mut message) = Transfer::start(request, self.timeout);
        let ghost bytes = request@.encoded();
        let ghost mut at: nat = 0;
        let ghost mut address: u8 = isdu::START;
        proof {
            crate::transfer::lemma_count_bits(isdu::START);
        }
        loop
            invariant
                self@.well_formed(),
                transfer@.well_formed(),
                transfer@.bytes == bytes,
                bytes == request@.encoded(),
                transfer@.timeout == self@.timeout,
                self@ == (PortView { device: self@.device, ..old(self)@ }),
                self@.device is Some == old(self)@.device is Some,
                address <= isdu::START,
                transfer@.polled || transfer@.response is None,
                !transfer@.polled ==> {
                    &&& at < bytes.len()
                    &&& transfer@.written == if at + 2 <= bytes.len() {
                        at + 2
                    } else {
                        bytes.len()
                    }
                    &&& message@ == crate::transfer::write_message(bytes, at, address)
                    &&& transfer@.address == crate::transfer::next_count(address)
                    &&& self@.device matches Some(device) ==> device.fed(bytes, at, address)
                        == old(self)@.device->0.fed(bytes, 0, isdu::START)
                },
                transfer@.polled && transfer@.response is None ==> {
                    &&& message@ == crate::transfer::read_message(isdu::START)
                    &&& self@.device matches Some(device) ==> device == old(self)@.device->0.fed(
                        bytes,
                        0,
                        isdu::START,
                    )
                },
                transfer@.response matches Some(response) ==> {
                    &&& address <= isdu::COUNT_MASK
                    &&& response.len() < transfer@.length
                    &&& message@ == crate::transfer::read_message(address)
                    &&& transfer@.address == crate::transfer::next_count(address)
                    &&& self@.device matches Some(device) ==> {
                        let (last, whole) = device.drained(response, transfer@.length, address);
                        old(self)@.device->0.transferred(request@) == (
                            last,
                            IsduView::decoded(whole.take(transfer@.length as int)),
                        )
                    }
                },
            decreases
                    if !transfer@.polled {
                        2int
                    } else if transfer@.response is None {
                        1int
                    } else {
                        0int
                    },
                    if !transfer@.polled {
                        bytes.len() - at
                    } else {
                        transfer@.length - transfer@.response->0.len()
                    },
        {
            let ghost before = self@;
            let ghost progress = transfer@;
            proof {
                crate::m_sequence::lemma_address_bits(address);
                crate::m_sequence::lemma_address_bits(isdu::START);
                crate::transfer::lemma_count_bits(address);
                if before.device is Some {
                    law_exchange_is_the_answer(before, message@);
                }
            }
            let answer = match self.exchange(&message) {
                Ok(answer) => answer,
                Err(error) => return Err(error),
            };
            proof {
                let device = self@.device->0;
                let gathered = match progress.response {
                    Some(response) => response + answer@.on_request,
                    None => answer@.on_request,
                };
                assert(gathered.len() >= progress.length ==> device.drained(
                    gathered,
                    progress.length,
                    crate::transfer::next_count(address),
                ) == (device, gathered));
            }
            match transfer.step(&answer, self.timeout) {
                Step::Finished(result) => return result,
                Step::Send(next) => {
                    message = next;
                },
            }
            proof {
                if !progress.polled {
                    at = at + 2;
                    address = crate::transfer::next_count(address);
                } else if progress.response is None {
                    address = 0;
                } else {
                    address = crate::transfer::next_count(address);
                }
            }
        }
    }

    /// One byte of the direct parameter page.
    ///
    /// # Errors
    /// Nobody on the line.
    pub fn read_page(&mut self, address: u8) -> (result: Result<u8, Error>)
        requires
            old(self)@.well_formed(),
        ensures
            final(self)@ == old(self)@,
            result == match old(self)@.device {
                Some(device) => Ok(device.page[(address & 0x1f) as int]),
                None => Err(Error::NothingArrived),
            },
    {
        let message = page_request(address);
        proof {
            crate::m_sequence::lemma_address_bits(address);
            if self@.device is Some {
                law_exchange_is_the_answer(self@, message@);
            }
        }
        match self.exchange(&message) {
            Ok(answer) => page_byte(&answer),
            Err(error) => Err(error),
        }
    }

    /// One process data cycle: `process_out` to the device, its process
    /// data in back.
    ///
    /// # Errors
    /// Nobody on the line, process data in of another length than the port was
    /// told, or process data the device says is not valid.
    pub fn cycle(&mut self, process_out: &[u8]) -> (result: Result<Vec<u8>, Error>)
        requires
            old(self)@.well_formed(),
        ensures
            final(self)@ == match old(self)@.device {
                Some(device) if process_out@.len() > 0 => PortView {
                    device: Some(DeviceView { process_out: process_out@, ..device }),
                    ..old(self)@
                },
                _ => old(self)@,
            },
            crate::error::viewed(result) == match old(self)@.device {
                None => Err(Error::NothingArrived),
                Some(device) => if process_out@.len() > 0 && device.process_in.len() != old(
                    self,
                )@.process_in {
                    Err(Error::NothingArrived)
                } else if device.process_in.len() == 0 {
                    Err(Error::ProcessInvalid)
                } else if process_out@.len() == 0 {
                    Ok(seq![])
                } else {
                    Ok(device.process_in)
                },
            },
    {
        let message = cycle_request(process_out);
        proof {
            crate::m_sequence::law_master_round_trip(message@);
            if self@.device is Some {
                let answer = self@.device->0.answered(message@).1;
                crate::m_sequence::law_answer_round_trip(answer);
            }
        }
        match self.exchange(&message) {
            Ok(answer) => process_data(answer),
            Err(error) => Err(error),
        }
    }

    /// Write `bytes` to parameter `index:subindex`.
    ///
    /// # Errors
    /// Over [`isdu::DATA_MAX`], nobody on the line, or a device that answers
    /// negatively.
    pub fn write_parameter(&mut self, index: u16, subindex: u8, bytes: &[u8]) -> (result: Result<
        (),
        Error,
    >)
        requires
            old(self)@.well_formed(),
        ensures
            final(self)@ == old(self)@.written((index, subindex), bytes@),
            final(self)@.well_formed(),
            old(self)@.write_gives((index, subindex), bytes@, result),
    {
        let request = match Isdu::write(index, subindex, bytes) {
            Ok(request) => request,
            Err(error) => return Err(error),
        };
        proof {
            if self@.device is Some {
                crate::loopback::law_transfer_is_the_service(self@.device->0, request@);
            }
        }
        match self.transfer(&request) {
            Ok(answer) => write_result(answer),
            Err(error) => Err(error),
        }
    }

    /// Read parameter `index:subindex`.
    ///
    /// # Errors
    /// Nobody on the line, or a device that answers negatively.
    pub fn read_parameter(&mut self, index: u16, subindex: u8) -> (result: Result<Vec<u8>, Error>)
        requires
            old(self)@.well_formed(),
        ensures
            final(self)@ == old(self)@.after_read(),
            final(self)@.well_formed(),
            old(self)@.read_gives((index, subindex), crate::error::viewed(result)),
    {
        let request = Isdu::read(index, subindex);
        proof {
            if self@.device is Some {
                crate::loopback::law_transfer_is_the_service(self@.device->0, request@);
            }
        }
        match self.transfer(&request) {
            Ok(answer) => read_result(answer),
            Err(error) => Err(error),
        }
    }

    /// `iolink://<port>/0x<index>/<sub>`.
    #[must_use]
    pub fn origin(&self, index: u16, subindex: u8) -> (origin: String)
        ensures
            origin@ == self@.origin(index, subindex),
    {
        crate::target::origin_of(self.line.as_str(), index, subindex)
    }

    /// The parameter that `target` names, or the configured one, given what
    /// follows the port in the target where that is known: nothing for the
    /// configured parameter, and otherwise `0x<index>/<sub>` as its last two
    /// parts, the port's name being free to hold a stroke.
    ///
    /// # Errors
    /// A target that is not `0x<index>/<sub>`, alone or after a port.
    pub fn resolve_after(&self, target: &str, after: Option<&str>) -> (result: Result<
        (u16, u8),
        Error,
    >)
        ensures
            match crate::target::resolved(
                crate::target::path_in(
                    target@,
                    match after {
                        Some(path) => Some(path@),
                        None => None,
                    },
                ),
                (self@.index, self@.subindex),
            ) {
                Some(named) => result == Ok::<(u16, u8), Error>(named),
                None => result matches Err(error) && error.refuses_target(target@),
            },
    {
        match crate::target::resolve(target, after, (self.index, self.subindex)) {
            Some(named) => Ok(named),
            None => Err(Error::Target { target: String::from_str(target) }),
        }
    }

    /// The parameter a target names, or the configured one.
    ///
    /// # Errors
    /// A target that is not `0x<index>/<sub>`, alone or after a port.
    pub fn resolve(&self, target: &str) -> (result: Result<(u16, u8), Error>)
        ensures
            match self@.resolved(target@) {
                Some(named) => result == Ok::<(u16, u8), Error>(named),
                None => result matches Err(error) && error.refuses_target(target@),
            },
    {
        self.resolve_after(target, crate::target::rest_of(target))
    }

    /// The name of this transport.
    pub fn name(&self) -> (name: &'static str)
        ensures
            name@ == "io-link"@,
    {
        "io-link"
    }

    /// A Stream travels as one ISDU, and an ISDU is at most 238 bytes with
    /// its framing.
    pub fn ceiling(&self) -> (most: Option<usize>)
        ensures
            most == Some(isdu::DATA_MAX),
    {
        Some(isdu::DATA_MAX)
    }

    /// One read of the parameter: its bytes as one Stream.
    ///
    /// # Errors
    /// As [`Self::read_parameter`].
    pub fn receive(&mut self) -> (result: Result<Vec<Arrived>, Error>)
        requires
            old(self)@.well_formed(),
        ensures
            final(self)@ == old(self)@.after_read(),
            final(self)@.well_formed(),
            result matches Ok(arrived) ==> {
                &&& arrived@.len() == 1
                &&& arrived@[0].origin_uri@ == old(self)@.origin(
                    old(self)@.index,
                    old(self)@.subindex,
                )
            },
            old(self)@.read_gives(
                (old(self)@.index, old(self)@.subindex),
                match result {
                    Ok(arrived) => Ok(arrived@[0].bytes@),
                    Err(error) => Err(error),
                },
            ),
    {
        match self.read_parameter(self.index, self.subindex) {
            Ok(bytes) => {
                let origin_uri = self.origin(self.index, self.subindex);
                Ok(vec![Arrived { origin_uri, bytes }])
            },
            Err(error) => Err(error),
        }
    }

    /// One write of `bytes` to the parameter `target` names.
    ///
    /// # Errors
    /// As [`Self::resolve`] and [`Self::write_parameter`].
    pub fn send(&mut self, target: &str, bytes: &[u8]) -> (result: Result<(), Error>)
        requires
            old(self)@.well_formed(),
        ensures
            final(self)@ == match old(self)@.resolved(target@) {
                Some(key) => old(self)@.written(key, bytes@),
                None => old(self)@,
            },
            final(self)@.well_formed(),
            match old(self)@.resolved(target@) {
                Some(key) => old(self)@.write_gives(key, bytes@, result),
                None => result matches Err(error) && error.refuses_target(target@),
            },
    {
        match self.resolve(target) {
            Ok((index, subindex)) => self.write_parameter(index, subindex, bytes),
            Err(error) => Err(error),
        }
    }

    /// Both ends on an in-process line: a master and a device holding the
    /// Stream parameter empty.
    #[must_use]
    pub fn loopback() -> (port: IoLinkTransport)
        ensures
            port@ == (PortView {
                line: "serial://loopback"@,
                device: Some(
                    DeviceView {
                        parameters: Map::<(u16, u8), Seq<u8>>::empty().insert(
                            STREAM_PARAMETER,
                            seq![],
                        ),
                        ..DeviceView::fresh(0)
                    },
                ),
                process_in: 0,
                index: STREAM_PARAMETER.0,
                subindex: STREAM_PARAMETER.1,
                timeout: TIMEOUT,
            }),
            port@.well_formed(),
    {
        let device = Device::new(0).with_parameter(
            STREAM_PARAMETER.0,
            STREAM_PARAMETER.1,
            Vec::new(),
        );
        IoLinkTransport::new("serial://loopback").attached(device)
    }

    /// The address of the far end: where the device holds what the master
    /// writes, until it is read back.
    ///
    /// # Errors
    /// No device attached in-process.
    pub fn far_end(&self) -> (result: Result<String, Error>)
        ensures
            crate::error::viewed(result) == if self@.device is Some {
                Ok(self@.origin(self@.index, self@.subindex))
            } else {
                Err(Error::NoDevice)
            },
    {
        if self.device.is_none() {
            return Err(Error::NoDevice);
        }
        Ok(self.origin(self.index, self.subindex))
    }

    /// The write goes first and the read-back finds what it left.
    ///
    /// # Errors
    /// No device attached in-process, or as [`Self::send`] and
    /// [`Self::receive`].
    pub fn round(&mut self, payload: &[u8]) -> (result: Result<Arrived, Error>)
        requires
            old(self)@.well_formed(),
        ensures
            final(self)@.well_formed(),
            old(self)@.round_gives(payload@, final(self)@, result),
    {
        let address = match self.far_end() {
            Ok(address) => address,
            Err(error) => return Err(error),
        };
        let ghost before = self@;
        proof {
            let port = crate::target::port_name(before.line);
            let key = (before.index, before.subindex);
            crate::target::law_origin_is_a_target(port, key.0, key.1, key);
        }
        match self.send(address.as_str(), payload) {
            Ok(_) => {},
            Err(error) => return Err(error),
        }
        let mut arrived = match self.receive() {
            Ok(arrived) => arrived,
            Err(error) => return Err(error),
        };
        match arrived.pop() {
            Some(arrived) => match read_back(&arrived.bytes, payload) {
                Ok(_) => Ok(arrived),
                Err(error) => Err(error),
            },
            None => Err(Error::NothingArrived),
        }
    }
}

impl PortView {
    /// What a round of `payload` through the device and back comes to: the
    /// payload, from where it was written to, wherever the device holds the
    /// parameter and one ISDU carries the payload.
    pub open spec fn round_gives(
        self,
        payload: Seq<u8>,
        after: PortView,
        result: Result<Arrived, Error>,
    ) -> bool {
        let key = (self.index, self.subindex);
        if self.device is None {
            after == self && result == Err::<Arrived, Error>(Error::NoDevice)
        } else {
            &&& after == self.written(key, payload)
            &&& if payload.len() > isdu::DATA_MAX {
                result == Err::<Arrived, Error>(isdu::over_ceiling(payload.len()))
            } else if !self.holds(key) {
                result matches Err(error) && refused_with(
                    error,
                    Service::WriteResponseNegative,
                    index_not_available(),
                )
            } else {
                &&& result matches Ok(arrived)
                &&& arrived.bytes@ == payload
                &&& arrived.origin_uri@ == self.origin(key.0, key.1)
            }
        }
    }
}

/// The two hold the same bytes.
fn same(one: &[u8], other: &[u8]) -> (yes: bool)
    ensures
        yes == (one@ == other@),
{
    if one.len() != other.len() {
        return false;
    }
    let mut at: usize = 0;
    while at < one.len()
        invariant
            at <= one@.len() == other@.len(),
            forall|i: int| 0 <= i < at ==> one@[i] == other@[i],
        decreases one@.len() - at,
    {
        if one[at] != other[at] {
            return false;
        }
        at += 1;
    }
    assert(one@ =~= other@);
    true
}

/// What reading `bytes` back after `payload` was written comes to.
///
/// # Errors
/// The two differ.
pub fn read_back(bytes: &[u8], payload: &[u8]) -> (result: Result<(), Error>)
    ensures
        result == if bytes@ == payload@ {
            Ok(())
        } else {
            Err(Error::ReadBackDiffers)
        },
{
    if same(bytes, payload) {
        Ok(())
    } else {
        Err(Error::ReadBackDiffers)
    }
}

/// The message that reads one byte of the direct parameter page.
pub fn page_request(address: u8) -> (message: MasterMessage)
    ensures
        message@ == MasterView::reading(Kind::Type0, Channel::Page, address),
        message@.well_formed(),
{
    MasterMessage::read(Kind::Type0, Channel::Page, address)
}

/// The byte that a page read was answered with.
///
/// # Errors
/// No byte.
pub fn page_byte(answer: &DeviceMessage) -> (result: Result<u8, Error>)
    ensures
        result == if answer@.on_request.len() > 0 {
            Ok(answer@.on_request[0])
        } else {
            Err(Error::PageByteMissing)
        },
{
    if answer.on_request.is_empty() {
        return Err(Error::PageByteMissing);
    }
    Ok(answer.on_request[0])
}

/// The message of one process data cycle.
pub fn cycle_request(process_out: &[u8]) -> (message: MasterMessage)
    ensures
        message@ == (MasterView {
            process_out: process_out@,
            ..MasterView::reading(Kind::Type2, Channel::Process, 0)
        }),
        message@.well_formed(),
{
    MasterMessage::read(Kind::Type2, Channel::Process, 0).with_process(process_out)
}

/// The process data in that a cycle was answered with.
///
/// # Errors
/// Process data the device says is not valid.
pub fn process_data(answer: DeviceMessage) -> (result: Result<Vec<u8>, Error>)
    ensures
        crate::error::viewed(result) == if answer@.process_invalid {
            Err(Error::ProcessInvalid)
        } else {
            Ok(answer@.process_in)
        },
{
    if answer.process_invalid {
        return Err(Error::ProcessInvalid);
    }
    Ok(answer.process_in)
}

/// What the answer to a write comes to.
///
/// # Errors
/// Anything but a positive response to a write.
pub fn write_result(answer: Isdu) -> (result: Result<(), Error>)
    ensures
        result is Ok <==> answer@.service is WriteResponsePositive,
        result matches Err(error) ==> refused_with(error, answer@.service, answer@.data),
{
    match answer.service {
        Service::WriteResponsePositive => Ok(()),
        other => Err(Error::Refused { service: other, data: answer.data }),
    }
}

/// What the answer to a read comes to.
///
/// # Errors
/// Anything but a positive response to a read.
pub fn read_result(answer: Isdu) -> (result: Result<Vec<u8>, Error>)
    ensures
        result is Ok <==> answer@.service is ReadResponsePositive,
        result matches Ok(data) ==> data@ == answer@.data,
        result matches Err(error) ==> refused_with(error, answer@.service, answer@.data),
{
    match answer.service {
        Service::ReadResponsePositive => Ok(answer.data),
        other => Err(Error::Refused { service: other, data: answer.data }),
    }
}

/// What is written is read back: after a write that the device takes, a read
/// of the same parameter gives the bytes written.
pub proof fn law_write_then_read(
    port: PortView,
    key: (u16, u8),
    data: Seq<u8>,
    result: Result<Seq<u8>, Error>,
)
    requires
        port.holds(key),
        data.len() <= isdu::DATA_MAX,
        port.written(key, data).read_gives(key, result),
    ensures
        result == Ok::<Seq<u8>, Error>(data),
{
}

/// A write to one parameter leaves what a read of another gives.
pub proof fn law_write_leaves_the_others(
    port: PortView,
    key: (u16, u8),
    data: Seq<u8>,
    other: (u16, u8),
    result: Result<Seq<u8>, Error>,
)
    requires
        other != key,
    ensures
        port.written(key, data).read_gives(other, result) == port.read_gives(other, result),
{
}

/// A write that is refused changes no parameter, and neither does a read.
pub proof fn law_refused_write_changes_nothing(
    port: PortView,
    key: (u16, u8),
    data: Seq<u8>,
    result: Result<(), Error>,
)
    requires
        port.device is Some,
        port.write_gives(key, data, result),
        result is Err,
    ensures
        port.written(key, data).device is Some,
        port.written(key, data).device->0.parameters == port.device->0.parameters,
        port.after_read().device is Some,
        port.after_read().device->0.parameters == port.device->0.parameters,
{
}

/// A round returns every Stream that one ISDU carries whole, and refuses every
/// longer one; and it goes on doing so, round after round. The loopback is
/// such a port, and so is every other whose device holds the parameter.
pub proof fn law_round_carries_every_stream(
    port: PortView,
    payload: Seq<u8>,
    after: PortView,
    result: Result<Arrived, Error>,
)
    requires
        port.holds((port.index, port.subindex)),
        port.round_gives(payload, after, result),
    ensures
        payload.len() <= isdu::DATA_MAX ==> (result matches Ok(arrived) && arrived.bytes@
            == payload && arrived.origin_uri@ == port.origin(port.index, port.subindex)),
        payload.len() > isdu::DATA_MAX ==> result == Err::<Arrived, Error>(
            isdu::over_ceiling(payload.len()),
        ),
        after.line == port.line,
        (after.index, after.subindex) == (port.index, port.subindex),
        after.holds((port.index, port.subindex)),
{
}

impl PortView {
    /// The port and the result once `transfer`, with `message` to send next,
    /// was driven to its end over exchanges, in no more than `steps` of them
    /// after the first; time being up whenever the device is busy.
    pub open spec fn driven(
        self,
        transfer: TransferView,
        message: MasterView,
        steps: nat,
    ) -> Option<(PortView, Result<IsduView, Error>)>
        decreases steps,
    {
        let (port, answer) = self.exchanged(message);
        match answer {
            Err(error) => Some((port, Err(error))),
            Ok(answer) => match transfer.stepped(answer.on_request, transfer.timeout) {
                (_, StepView::Finished(result)) => Some((port, result)),
                (next, StepView::Send(message)) => if steps == 0 {
                    None
                } else {
                    port.driven(next, message, (steps - 1) as nat)
                },
            },
        }
    }
}

proof fn lemma_driven_reading(
    port: PortView,
    transfer: TransferView,
    response: Seq<u8>,
    address: u8,
) -> (steps: nat)
    requires
        port.device is Some,
        port.well_formed(),
        transfer.polled,
        transfer.response == Some(response),
        response.len() < transfer.length,
        transfer.address == crate::transfer::next_count(address),
        address <= isdu::COUNT_MASK,
    ensures
        ({
            let (last, whole) = port.device->0.drained(response, transfer.length, address);
            port.driven(transfer, crate::transfer::read_message(address), steps) == Some(
                (
                    PortView { device: Some(last), ..port },
                    IsduView::decoded(whole.take(transfer.length as int)),
                ),
            )
        }),
    decreases transfer.length - response.len(),
{
    let message = crate::transfer::read_message(address);
    let device = port.device->0;
    crate::m_sequence::lemma_address_bits(address);
    crate::transfer::lemma_count_bits(address);
    law_exchange_is_the_answer(port, message);
    crate::device::law_device_stays_well_formed(device, message);
    let (next_device, two) = device.isdu_read(address, 2);
    let next = PortView { device: Some(next_device), ..port };
    let grown = response + two;
    assert(port.exchanged(message).0 == next);
    assert(port.exchanged(message).1->Ok_0.on_request == two);
    let (stepped, step) = transfer.stepped(two, transfer.timeout);
    if grown.len() < transfer.length {
        let rest = lemma_driven_reading(
            next,
            stepped,
            grown,
            crate::transfer::next_count(address),
        );
        rest + 1
    } else {
        assert(next_device.drained(
            grown,
            transfer.length,
            crate::transfer::next_count(address),
        ) == (next_device, grown));
        0
    }
}

proof fn lemma_driven_asking(port: PortView, transfer: TransferView) -> (steps: nat)
    requires
        port.device is Some,
        port.well_formed(),
        transfer.polled,
        transfer.response is None,
    ensures
        port.driven(transfer, crate::transfer::read_message(isdu::START), steps) == Some(
            (
                PortView { device: Some(port.device->0.read_out().0), ..port },
                port.device->0.read_out().1,
            ),
        ),
{
    let message = crate::transfer::read_message(isdu::START);
    let device = port.device->0;
    crate::m_sequence::lemma_address_bits(isdu::START);
    law_exchange_is_the_answer(port, message);
    crate::device::law_device_stays_well_formed(device, message);
    let (next_device, first) = device.isdu_read(isdu::START, 2);
    let next = PortView { device: Some(next_device), ..port };
    assert(port.exchanged(message).0 == next);
    assert(port.exchanged(message).1->Ok_0.on_request == first);
    let (stepped, step) = transfer.stepped(first, transfer.timeout);
    if first[0] == isdu::BUSY {
        0
    } else {
        let length = isdu::named_length(first)->0;
        if first.len() < length {
            let rest = lemma_driven_reading(next, stepped, first, 0);
            rest + 1
        } else {
            assert(next_device.drained(first, length, 0) == (next_device, first));
            0
        }
    }
}

proof fn lemma_driven_writing(
    port: PortView,
    transfer: TransferView,
    at: nat,
    address: u8,
) -> (steps: nat)
    requires
        port.device is Some,
        port.well_formed(),
        !transfer.polled,
        transfer.response is None,
        at < transfer.bytes.len(),
        transfer.written == if at + 2 <= transfer.bytes.len() {
            at + 2
        } else {
            transfer.bytes.len()
        },
        transfer.address == crate::transfer::next_count(address),
        address <= isdu::START,
    ensures
        ({
            let fed = port.device->0.fed(transfer.bytes, at, address);
            port.driven(
                transfer,
                crate::transfer::write_message(transfer.bytes, at, address),
                steps,
            ) == Some((PortView { device: Some(fed.read_out().0), ..port }, fed.read_out().1))
        }),
    decreases transfer.bytes.len() - at,
{
    let message = crate::transfer::write_message(transfer.bytes, at, address);
    let device = port.device->0;
    crate::m_sequence::lemma_address_bits(address);
    crate::transfer::lemma_count_bits(address);
    law_exchange_is_the_answer(port, message);
    crate::device::law_device_stays_well_formed(device, message);
    let next_device = device.isdu_written(
        address,
        crate::device::chunk(transfer.bytes, at, 2),
    );
    let next = PortView { device: Some(next_device), ..port };
    assert(port.exchanged(message).0 == next);
    let on_request = port.exchanged(message).1->Ok_0.on_request;
    let (stepped, step) = transfer.stepped(on_request, transfer.timeout);
    if at + 2 < transfer.bytes.len() {
        let rest = lemma_driven_writing(
            next,
            stepped,
            at + 2,
            crate::transfer::next_count(address),
        );
        rest + 1
    } else {
        assert(next_device.fed(
            transfer.bytes,
            at + 2,
            crate::transfer::next_count(address),
        ) == next_device);
        let rest = lemma_driven_asking(next, stepped);
        rest + 1
    }
}

/// A transfer in-process is a transfer: the same messages in the same order,
/// each answered by an exchange, to the same end, whatever the request.
pub proof fn law_transfer_is_driven_by_exchanges(port: PortView, request: IsduView) -> (steps: nat)
    requires
        port.well_formed(),
    ensures
        port.driven(
            TransferView::started(request, port.timeout),
            crate::transfer::write_message(request.encoded(), 0, 0x10),
            steps,
        ) == Some(port.transferred(request)),
{
    if port.device is Some {
        lemma_driven_writing(
            port,
            TransferView::started(request, port.timeout),
            0,
            isdu::START,
        )
    } else {
        0
    }
}

/// What a device makes of a message that it hears, and of bytes that are none:
/// it answers the one, and the other leaves it as it was.
pub proof fn law_device_hears(device: DeviceView, message: MasterView, bytes: Seq<u8>, count: nat)
    requires
        message.well_formed(),
    ensures
        device.heard(message.encoded(), message.process_out.len()) == (
            device.answered(message).0,
            Ok::<Seq<u8>, Error>(device.answered(message).1.encoded()),
        ),
        MasterView::decoded(bytes, count) matches Err(error) ==> device.heard(bytes, count) == (
            device,
            Err::<Seq<u8>, Error>(error),
        ),
{
    crate::m_sequence::law_master_round_trip(message);
}

/// What an exchange comes to where it is not the device's answer: nothing with
/// nobody there; the fault of a message that is none; and nothing, once the
/// device has answered, where the process data in is not as long as the port
/// was told.
pub proof fn law_exchange_that_fails(port: PortView, message: MasterView)
    ensures
        port.device is None ==> port.exchanged(message) == (
            port,
            Err::<AnswerView, Error>(Error::NothingArrived),
        ),
        port.device is Some ==> (MasterView::decoded(
            message.encoded(),
            message.process_out.len(),
        ) matches Err(error) ==> port.exchanged(message) == (
            port,
            Err::<AnswerView, Error>(error),
        )),
        port.device is Some && message.well_formed() && message.kind is Type2
            && message.process_out.len() > 0 && port.device->0.process_in.len() != port.process_in
            ==> port.exchanged(message) == (
            PortView { device: Some(port.device->0.answered(message).0), ..port },
            Err::<AnswerView, Error>(Error::NothingArrived),
        ),
{
    if message.well_formed() {
        crate::m_sequence::law_master_round_trip(message);
        if port.device is Some {
            crate::m_sequence::law_answer_round_trip(port.device->0.answered(message).1);
            lemma_answer_has_what_is_wanted(port.device->0, message);
        }
    }
}

/// The process data in that an answer brings: what the port was told, beside
/// process data out in a type 2 message, and none otherwise.
pub proof fn law_expected_process_data(port: PortView, message: MasterView)
    ensures
        message.kind is Type2 && message.process_out.len() > 0 ==> port.expects(message)
            == port.process_in,
        !(message.kind is Type2) || message.process_out.len() == 0 ==> port.expects(message) == 0,
{
}

/// What a write leaves: the bytes under their parameter where the device has
/// it and they are no more than 232, and every parameter as it was otherwise.
/// Nothing else of the device or the port changes, but that no request or
/// response is left over once anything was sent.
pub proof fn law_what_a_write_leaves(port: PortView, key: (u16, u8), data: Seq<u8>)
    ensures
        ({
            let after = port.written(key, data);
            &&& after == (PortView { device: after.device, ..port })
            &&& match port.device {
                None => after.device is None,
                Some(device) => {
                    let left = after.device->0;
                    &&& after.device is Some
                    &&& left.page == device.page
                    &&& left.process_in == device.process_in
                    &&& left.process_out == device.process_out
                    &&& data.len() > 232 ==> left == device
                    &&& data.len() <= 232 ==> left.request.len() == 0 && left.reply is None
                    &&& forall|other: (u16, u8)| #[trigger]
                        left.parameters.contains_key(other) <==> device.parameters.contains_key(
                            other,
                        )
                    &&& forall|other: (u16, u8)| #[trigger]
                        left.parameters.contains_key(other) ==> left.parameters[other] == if other
                            == key && data.len() <= 232 {
                            data
                        } else {
                            device.parameters[other]
                        }
                },
            }
        }),
{
}

/// What a read leaves: everything, but that no request or response is left
/// over.
pub proof fn law_what_a_read_leaves(port: PortView)
    ensures
        ({
            let after = port.after_read();
            &&& after == (PortView { device: after.device, ..port })
            &&& match port.device {
                None => after.device is None,
                Some(device) => {
                    let left = after.device->0;
                    &&& after.device is Some
                    &&& left.page == device.page
                    &&& left.process_in == device.process_in
                    &&& left.process_out == device.process_out
                    &&& left.parameters == device.parameters
                    &&& left.request.len() == 0
                    &&& left.reply is None
                },
            }
        }),
{
}

/// What a write comes to: refused above 232 bytes; nothing with nobody there;
/// done where the device has the parameter; and its refusal with 0x80, 0x11
/// where it has not.
pub proof fn law_what_a_write_comes_to(
    port: PortView,
    key: (u16, u8),
    data: Seq<u8>,
    result: Result<(), Error>,
)
    requires
        port.write_gives(key, data, result),
    ensures
        data.len() > 232 ==> result == Err::<(), Error>(
            Error::DataOverCeiling { length: data.len() as usize, ceiling: 232 },
        ),
        data.len() <= 232 && port.device is None ==> result == Err::<(), Error>(
            Error::NothingArrived,
        ),
        data.len() <= 232 && port.device is Some ==> (result is Ok
            <==> port.device->0.parameters.contains_key(key)),
        data.len() <= 232 && port.device is Some && result is Err ==> {
            &&& result->Err_0 matches Error::Refused { service, data: carried }
            &&& service is WriteResponseNegative
            &&& carried@.len() == 2
            &&& carried@[0] == 0x80
            &&& carried@[1] == 0x11
        },
{
}

/// What a read comes to: nothing with nobody there; the bytes that the device
/// holds under the parameter, where it has it and they are no more than 232;
/// and its refusal with 0x80, 0x11 otherwise.
pub proof fn law_what_a_read_comes_to(
    port: PortView,
    key: (u16, u8),
    result: Result<Seq<u8>, Error>,
)
    requires
        port.read_gives(key, result),
    ensures
        match port.device {
            None => result == Err::<Seq<u8>, Error>(Error::NothingArrived),
            Some(device) => if device.parameters.contains_key(key) && device.parameters[key].len()
                <= 232 {
                result == Ok::<Seq<u8>, Error>(device.parameters[key])
            } else {
                &&& result matches Err(error)
                &&& error matches Error::Refused { service, data }
                &&& service is ReadResponseNegative
                &&& data@.len() == 2
                &&& data@[0] == 0x80
                &&& data@[1] == 0x11
            },
        },
{
}

/// What a round comes to: nothing without a device; otherwise the write and
/// then the read of the port's own parameter, and the payload from where it was
/// written to.
pub proof fn law_round_is_write_and_read(
    port: PortView,
    payload: Seq<u8>,
    after: PortView,
    result: Result<Arrived, Error>,
    write: Result<(), Error>,
)
    requires
        port.round_gives(payload, after, result),
        port.write_gives((port.index, port.subindex), payload, write),
    ensures
        port.device is None ==> after == port && result == Err::<Arrived, Error>(Error::NoDevice),
        port.device is Some ==> after == port.written((port.index, port.subindex), payload),
        port.device is Some ==> (result is Ok <==> write is Ok),
        result matches Ok(arrived) ==> {
            &&& arrived.bytes@ == payload
            &&& arrived.origin_uri@ == crate::target::origin_uri(
                crate::target::port_name(port.line),
                port.index,
                port.subindex,
            )
            &&& after.read_gives(
                (port.index, port.subindex),
                Ok::<Seq<u8>, Error>(arrived.bytes@),
            )
        },
{
}

/// Where a port says that a parameter comes from, and which one a target names
/// on it: by the name of its line, and with its own parameter for none.
pub proof fn law_port_has_its_names(port: PortView, index: u16, subindex: u8, target: Seq<char>)
    ensures
        port.origin(index, subindex) == crate::target::origin_uri(
            crate::target::port_name(port.line),
            index,
            subindex,
        ),
        port.resolved(target) == crate::target::resolved(
            crate::target::target_path(target),
            (port.index, port.subindex),
        ),
        port.resolved(port.origin(index, subindex)) == Some((index, subindex)),
        port.resolved(seq![]) == Some((port.index, port.subindex)),
{
    crate::target::law_origin_is_a_target(
        crate::target::port_name(port.line),
        index,
        subindex,
        (port.index, port.subindex),
    );
    reveal_strlit("iolink://");
}

} // verus!
