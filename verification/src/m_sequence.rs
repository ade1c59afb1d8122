//! The M-sequence: one master message and the device message that answers
//! it, the whole of what passes on an IO-Link line. Nothing else ever does.
//!
//! The master message opens with the M-sequence control byte — read or
//! write, which of four channels, and an address — and the checksum and
//! type byte, then process data out and on-request data to write. The
//! device answers process data in, on-request data read, and its own
//! checksum and status byte. Type 0 carries one on-request byte, type 1
//! two, type 2 one beside the process data. The checksum is the eight-bit
//! XOR seeded with `0x52`, folded to six bits.
use vstd::prelude::*;

use crate::bytes::{append, copy, part, xor_bytes};
use crate::error::Error;

verus! {

/// The checksum seed of every message.
pub const SEED: u8 = 0x52;

/// Which of the four channels an on-request byte is on.
#[derive(Clone, Copy, Debug, PartialEq, Eq)]
pub enum Channel {
    Process,
    Page,
    Diagnosis,
    Isdu,
}

impl Channel {
    /// The two bits that name the channel in the control byte.
    pub open spec fn code(self) -> u8 {
        match self {
            Channel::Process => 0,
            Channel::Page => 1,
            Channel::Diagnosis => 2,
            Channel::Isdu => 3,
        }
    }

    /// The channel whose code the low two bits of `bits` are.
    pub open spec fn of_bits(bits: u8) -> Channel {
        if bits & 0x03 == 0 {
            Channel::Process
        } else if bits & 0x03 == 1 {
            Channel::Page
        } else if bits & 0x03 == 2 {
            Channel::Diagnosis
        } else {
            Channel::Isdu
        }
    }

    /// The two bits that name the channel in the control byte.
    pub fn bits(self) -> (bits: u8)
        ensures
            bits == self.code(),
    {
        match self {
            Channel::Process => 0,
            Channel::Page => 1,
            Channel::Diagnosis => 2,
            Channel::Isdu => 3,
        }
    }

    fn from_bits(bits: u8) -> (channel: Channel)
        ensures
            channel == Channel::of_bits(bits),
    {
        match bits & 0x03 {
            0 => Channel::Process,
            1 => Channel::Page,
            2 => Channel::Diagnosis,
            _ => Channel::Isdu,
        }
    }
}

/// The M-sequence type: how many on-request bytes ride, and whether
/// process data does.
#[derive(Clone, Copy, Debug, PartialEq, Eq)]
pub enum Kind {
    Type0,
    Type1,
    Type2,
}

impl Kind {
    /// The number of the type, as the checksum and type byte carries it.
    pub open spec fn code(self) -> u8 {
        match self {
            Kind::Type0 => 0,
            Kind::Type1 => 1,
            Kind::Type2 => 2,
        }
    }

    /// The on-request bytes this type carries each way.
    pub open spec fn carries(self) -> nat {
        match self {
            Kind::Type0 => 1,
            Kind::Type1 => 2,
            Kind::Type2 => 1,
        }
    }

    /// The number of the type, as the checksum and type byte carries it.
    pub fn bits(self) -> (bits: u8)
        ensures
            bits == self.code(),
    {
        match self {
            Kind::Type0 => 0,
            Kind::Type1 => 1,
            Kind::Type2 => 2,
        }
    }

    /// The on-request bytes this type carries each way.
    #[must_use]
    pub fn on_request(self) -> (count: usize)
        ensures
            count == self.carries(),
    {
        match self {
            Kind::Type0 | Kind::Type2 => 1,
            Kind::Type1 => 2,
        }
    }
}

/// Bit `n` of `byte`.
pub open spec fn bit(byte: u8, n: u8) -> u8 {
    (byte >> n) & 1
}

/// Eight bits folded to six: the odd bits, the even bits, and the four
/// neighbouring pairs, each under XOR.
pub open spec fn fold(eight: u8) -> u8 {
    let d5 = bit(eight, 7) ^ bit(eight, 5) ^ bit(eight, 3) ^ bit(eight, 1);
    let d4 = bit(eight, 6) ^ bit(eight, 4) ^ bit(eight, 2) ^ bit(eight, 0);
    let d3 = bit(eight, 7) ^ bit(eight, 6);
    let d2 = bit(eight, 5) ^ bit(eight, 4);
    let d1 = bit(eight, 3) ^ bit(eight, 2);
    let d0 = bit(eight, 1) ^ bit(eight, 0);
    (d5 << 5) | (d4 << 4) | (d3 << 3) | (d2 << 2) | (d1 << 1) | d0
}

/// The checksum of `bytes`: their XOR under the seed, folded to six bits.
pub open spec fn checksum_of(bytes: Seq<u8>) -> u8 {
    fold(crate::bytes::xor_all(SEED, bytes))
}

/// The eight-bit XOR of `bytes` under the seed, folded to six bits.
#[must_use]
pub fn checksum(bytes: &[u8]) -> (six: u8)
    ensures
        six == checksum_of(bytes@),
        six < 64,
{
    let eight = xor_bytes(SEED, bytes);
    proof {
        lemma_fold_is_six_bits(eight);
    }
    let d5 = nth_bit(eight, 7) ^ nth_bit(eight, 5) ^ nth_bit(eight, 3) ^ nth_bit(eight, 1);
    let d4 = nth_bit(eight, 6) ^ nth_bit(eight, 4) ^ nth_bit(eight, 2) ^ nth_bit(eight, 0);
    let d3 = nth_bit(eight, 7) ^ nth_bit(eight, 6);
    let d2 = nth_bit(eight, 5) ^ nth_bit(eight, 4);
    let d1 = nth_bit(eight, 3) ^ nth_bit(eight, 2);
    let d0 = nth_bit(eight, 1) ^ nth_bit(eight, 0);
    (d5 << 5) | (d4 << 4) | (d3 << 3) | (d2 << 2) | (d1 << 1) | d0
}

fn nth_bit(byte: u8, n: u8) -> (set: u8)
    requires
        n < 8,
    ensures
        set == bit(byte, n),
{
    (byte >> n) & 1
}

/// A checksum has six bits.
pub proof fn lemma_fold_is_six_bits(eight: u8)
    ensures
        fold(eight) < 64,
{
    assert(fold(eight) < 64) by (bit_vector);
}

/// The master's message.
#[derive(Clone, Debug, PartialEq, Eq)]
pub struct MasterMessage {
    pub read: bool,
    pub channel: Channel,
    pub address: u8,
    pub kind: Kind,
    /// Process data out: type 2 only, empty otherwise.
    pub process_out: Vec<u8>,
    /// On-request data to write: the type's count on a write, empty on a read.
    pub on_request: Vec<u8>,
}

/// What a master message says.
#[verifier::ext_equal]
pub struct MasterView {
    pub read: bool,
    pub channel: Channel,
    pub address: u8,
    pub kind: Kind,
    pub process_out: Seq<u8>,
    pub on_request: Seq<u8>,
}

impl View for MasterMessage {
    type V = MasterView;

    open spec fn view(&self) -> MasterView {
        MasterView {
            read: self.read,
            channel: self.channel,
            address: self.address,
            kind: self.kind,
            process_out: self.process_out@,
            on_request: self.on_request@,
        }
    }
}

impl MasterView {
    /// A read of `address` on `channel`.
    pub open spec fn reading(kind: Kind, channel: Channel, address: u8) -> MasterView {
        MasterView {
            read: true,
            channel,
            address: address & 0x1f,
            kind,
            process_out: seq![],
            on_request: seq![],
        }
    }

    /// A write of `on_request` to `address` on `channel`.
    pub open spec fn writing(
        kind: Kind,
        channel: Channel,
        address: u8,
        on_request: Seq<u8>,
    ) -> MasterView {
        MasterView {
            read: false,
            channel,
            address: address & 0x1f,
            kind,
            process_out: seq![],
            on_request,
        }
    }

    /// The address fits its five bits, and the on-request data is the type's
    /// count on a write and none on a read.
    pub open spec fn well_formed(self) -> bool {
        &&& self.address < 32
        &&& self.on_request.len() == if self.read {
            0
        } else {
            self.kind.carries()
        }
    }

    /// The on-request bytes the device owes in its answer.
    pub open spec fn wanted(self) -> nat {
        if self.read {
            self.kind.carries()
        } else {
            0
        }
    }

    /// The M-sequence control byte.
    pub open spec fn control(self) -> u8 {
        (if self.read {
            0x80u8
        } else {
            0u8
        }) | (self.channel.code() << 5) | self.address
    }

    /// The message as it stands before its checksum is put in.
    pub open spec fn unchecked(self) -> Seq<u8> {
        seq![self.control(), self.kind.code() << 6] + self.process_out + self.on_request
    }

    /// The bytes on the line: the checksum in the low six bits of the second.
    pub open spec fn encoded(self) -> Seq<u8> {
        self.unchecked().update(1, self.unchecked()[1] | checksum_of(self.unchecked()))
    }

    /// The message that `bytes` carry, with `process_out` bytes of process
    /// data out, or why they carry none.
    pub open spec fn decoded(bytes: Seq<u8>, process_out: nat) -> Result<MasterView, Error> {
        if bytes.len() < 2 {
            Err(Error::MasterShort)
        } else if checksum_of(bytes.update(1, bytes[1] & 0xc0)) != bytes[1] & 0x3f {
            Err(Error::MasterChecksum)
        } else if bytes[1] >> 6 == 3 {
            Err(Error::TypeReserved)
        } else {
            let read = bytes[0] & 0x80 != 0;
            let kind = kind_of(bytes[1] >> 6);
            if bytes.len() != master_length(kind, process_out, read) {
                Err(Error::MasterLength)
            } else {
                Ok(
                    MasterView {
                        read,
                        channel: Channel::of_bits(bytes[0] >> 5),
                        address: bytes[0] & 0x1f,
                        kind,
                        process_out: bytes.subrange(2, 2 + process_out as int),
                        on_request: bytes.skip(2 + process_out as int),
                    },
                )
            }
        }
    }
}

/// The type with number `code`; 2 stands for whatever is above.
pub open spec fn kind_of(code: u8) -> Kind {
    if code == 0 {
        Kind::Type0
    } else if code == 1 {
        Kind::Type1
    } else {
        Kind::Type2
    }
}

/// How long a master message is on the line.
pub open spec fn master_length(kind: Kind, process_out: nat, read: bool) -> nat {
    2 + process_out + if read {
        0
    } else {
        kind.carries()
    }
}

impl MasterMessage {
    /// A read of `address` on `channel`.
    #[must_use]
    pub fn read(kind: Kind, channel: Channel, address: u8) -> (message: MasterMessage)
        ensures
            message@ == MasterView::reading(kind, channel, address),
            message@.well_formed(),
    {
        proof {
            lemma_address_bits(address);
        }
        MasterMessage {
            read: true,
            channel,
            address: address & 0x1f,
            kind,
            process_out: Vec::new(),
            on_request: Vec::new(),
        }
    }

    /// A write of `on_request` to `address` on `channel`.
    ///
    /// # Errors
    /// On-request data that is not the type's count.
    pub fn write(kind: Kind, channel: Channel, address: u8, on_request: &[u8]) -> (result: Result<
        MasterMessage,
        Error,
    >)
        ensures
            result is Ok <==> on_request@.len() == kind.carries(),
            result matches Ok(message) ==> {
                &&& message@ == MasterView::writing(kind, channel, address, on_request@)
                &&& message@.well_formed()
            },
            result matches Err(error) ==> error == (Error::OnRequestCount {
                given: on_request@.len() as usize,
                carried: kind.carries() as usize,
            }),
    {
        if on_request.len() != kind.on_request() {
            return Err(
                Error::OnRequestCount { given: on_request.len(), carried: kind.on_request() },
            );
        }
        proof {
            lemma_address_bits(address);
        }
        Ok(
            MasterMessage {
                read: false,
                channel,
                address: address & 0x1f,
                kind,
                process_out: Vec::new(),
                on_request: copy(on_request),
            },
        )
    }

    /// The same message with `process_out` beside it, as type 2 carries.
    #[must_use]
    pub fn with_process(self, process_out: &[u8]) -> (message: MasterMessage)
        ensures
            message@ == (MasterView { process_out: process_out@, ..self@ }),
    {
        MasterMessage {
            read: self.read,
            channel: self.channel,
            address: self.address,
            kind: self.kind,
            process_out: copy(process_out),
            on_request: self.on_request,
        }
    }

    /// The bytes on the line, checksum in place.
    #[must_use]
    pub fn encode(&self) -> (out: Vec<u8>)
        ensures
            out@ == self@.encoded(),
            out@.len() == 2 + self@.process_out.len() + self@.on_request.len(),
    {
        let read: u8 = if self.read {
            0x80
        } else {
            0
        };
        let control = read | (self.channel.bits() << 5) | self.address;
        let mut out: Vec<u8> = vec![control, self.kind.bits() << 6];
        append(&mut out, &self.process_out);
        append(&mut out, &self.on_request);
        assert(out@ =~= self@.unchecked());
        let second = out[1] | checksum(&out);
        out[1] = second;
        out
    }

    /// How long the master message is on the line, for a `kind` with
    /// `process_out` bytes of process data out and a `read` or a write.
    #[must_use]
    pub fn length(kind: Kind, process_out: usize, read: bool) -> (length: usize)
        requires
            master_length(kind, process_out as nat, read) <= usize::MAX,
        ensures
            length == master_length(kind, process_out as nat, read),
    {
        2 + process_out + if read {
            0
        } else {
            kind.on_request()
        }
    }

    /// The message `bytes` carry, `process_out` bytes of process data out
    /// expected before the on-request data.
    ///
    /// # Errors
    /// Shorter than two bytes, a checksum that does not match, or a length
    /// that is not the type's.
    pub fn decode(bytes: &[u8], process_out: usize) -> (result: Result<MasterMessage, Error>)
        ensures
            crate::error::viewed(result) == MasterView::decoded(bytes@, process_out as nat),
    {
        if bytes.len() < 2 {
            return Err(Error::MasterShort);
        }
        let mut check = copy(bytes);
        let first = bytes[0];
        let second = bytes[1];
        check[1] = second & 0xc0;
        if checksum(&check) != second & 0x3f {
            return Err(Error::MasterChecksum);
        }
        let read = first & 0x80 != 0;
        assert(second >> 6 <= 3) by (bit_vector);
        let kind = match second >> 6 {
            0 => Kind::Type0,
            1 => Kind::Type1,
            2 => Kind::Type2,
            _ => return Err(Error::TypeReserved),
        };
        let on_request: usize = if read {
            0
        } else {
            kind.on_request()
        };
        let rest = bytes.len() - 2;
        if rest < on_request || rest - on_request != process_out {
            return Err(Error::MasterLength);
        }
        Ok(
            MasterMessage {
                read,
                channel: Channel::from_bits(first >> 5),
                address: first & 0x1f,
                kind,
                process_out: part(bytes, 2, 2 + process_out),
                on_request: part(bytes, 2 + process_out, bytes.len()),
            },
        )
    }
}

/// Five bits stay below 32.
pub proof fn lemma_address_bits(address: u8)
    ensures
        address & 0x1f < 32,
        address < 32 ==> address & 0x1f == address,
{
    assert(address & 0x1f < 32) by (bit_vector);
    assert(address < 32 ==> address & 0x1f == address) by (bit_vector);
}

/// The device's message.
#[derive(Clone, Debug, PartialEq, Eq)]
pub struct DeviceMessage {
    /// Process data in: type 2 only, empty otherwise.
    pub process_in: Vec<u8>,
    /// On-request data read: the type's count on a read, empty on a write.
    pub on_request: Vec<u8>,
    /// The device has an event pending.
    pub event: bool,
    /// The process data in is not valid.
    pub process_invalid: bool,
}

/// What a device message says.
#[verifier::ext_equal]
pub struct AnswerView {
    pub process_in: Seq<u8>,
    pub on_request: Seq<u8>,
    pub event: bool,
    pub process_invalid: bool,
}

impl View for DeviceMessage {
    type V = AnswerView;

    open spec fn view(&self) -> AnswerView {
        AnswerView {
            process_in: self.process_in@,
            on_request: self.on_request@,
            event: self.event,
            process_invalid: self.process_invalid,
        }
    }
}

impl AnswerView {
    /// The two status bits, in place.
    pub open spec fn status(self) -> u8 {
        (if self.event {
            0x80u8
        } else {
            0u8
        }) | (if self.process_invalid {
            0x40u8
        } else {
            0u8
        })
    }

    /// The message as it stands before its checksum is put in.
    pub open spec fn unchecked(self) -> Seq<u8> {
        (self.process_in + self.on_request).push(self.status())
    }

    /// The bytes on the line: the checksum in the low six bits of the last.
    pub open spec fn encoded(self) -> Seq<u8> {
        (self.process_in + self.on_request).push(self.status() | checksum_of(self.unchecked()))
    }

    /// The message that `bytes` carry, with `process_in` bytes of process
    /// data in, or why they carry none.
    pub open spec fn decoded(bytes: Seq<u8>, process_in: nat) -> Result<AnswerView, Error> {
        if bytes.len() == 0 {
            Err(Error::DeviceEmpty)
        } else if checksum_of(bytes.drop_last().push(bytes.last() & 0xc0)) != bytes.last() & 0x3f {
            Err(Error::DeviceChecksum)
        } else if bytes.len() - 1 < process_in {
            Err(Error::DeviceShort)
        } else {
            Ok(
                AnswerView {
                    process_in: bytes.take(process_in as int),
                    on_request: bytes.subrange(process_in as int, bytes.len() - 1),
                    event: bytes.last() & 0x80 != 0,
                    process_invalid: bytes.last() & 0x40 != 0,
                },
            )
        }
    }
}

/// How long a device message is on the line.
pub open spec fn answer_length(process_in: nat, on_request: nat) -> nat {
    process_in + on_request + 1
}

impl DeviceMessage {
    /// The bytes on the line, checksum and status in place.
    #[must_use]
    pub fn encode(&self) -> (out: Vec<u8>)
        ensures
            out@ == self@.encoded(),
            out@.len() == answer_length(self@.process_in.len(), self@.on_request.len()),
    {
        let mut out: Vec<u8> = Vec::new();
        append(&mut out, &self.process_in);
        append(&mut out, &self.on_request);
        let event: u8 = if self.event {
            0x80
        } else {
            0
        };
        let process_invalid: u8 = if self.process_invalid {
            0x40
        } else {
            0
        };
        let status = event | process_invalid;
        out.push(status);
        assert(out@ =~= self@.unchecked());
        let last = out.len() - 1;
        out[last] = status | checksum(&out);
        assert(out@ =~= self@.encoded());
        out
    }

    /// How long the device message is on the line, with `process_in` bytes of
    /// process data in and `on_request` bytes read.
    #[must_use]
    pub fn length(process_in: usize, on_request: usize) -> (length: usize)
        requires
            answer_length(process_in as nat, on_request as nat) <= usize::MAX,
        ensures
            length == answer_length(process_in as nat, on_request as nat),
    {
        process_in + on_request + 1
    }

    /// The message `bytes` carry, `process_in` bytes of process data in
    /// before the on-request data.
    ///
    /// # Errors
    /// Empty, shorter than its process data, or a checksum that does not
    /// match.
    pub fn decode(bytes: &[u8], process_in: usize) -> (result: Result<DeviceMessage, Error>)
        ensures
            crate::error::viewed(result) == AnswerView::decoded(bytes@, process_in as nat),
    {
        if bytes.len() == 0 {
            return Err(Error::DeviceEmpty);
        }
        let last = bytes.len() - 1;
        let status = bytes[last];
        let mut check = part(bytes, 0, last);
        check.push(status & 0xc0);
        assert(check@ =~= bytes@.drop_last().push(status & 0xc0));
        if checksum(&check) != status & 0x3f {
            return Err(Error::DeviceChecksum);
        }
        if last < process_in {
            return Err(Error::DeviceShort);
        }
        let message = DeviceMessage {
            process_in: part(bytes, 0, process_in),
            on_request: part(bytes, process_in, last),
            event: status & 0x80 != 0,
            process_invalid: status & 0x40 != 0,
        };
        assert(message.process_in@ =~= bytes@.take(process_in as int));
        Ok(message)
    }
}

/// How the control byte comes apart again.
proof fn lemma_control_bits(message: MasterView)
    requires
        message.address < 32,
    ensures
        (message.control() & 0x80 != 0) == message.read,
        Channel::of_bits(message.control() >> 5) == message.channel,
        message.control() & 0x1f == message.address,
{
    let high: u8 = if message.read {
        0x80
    } else {
        0
    };
    let code = message.channel.code();
    let address = message.address;
    assert(((high | (code << 5) | address) & 0x80) == high && (((high | (code << 5) | address) >> 5)
        & 0x03) == code && ((high | (code << 5) | address) & 0x1f) == address) by (bit_vector)
        requires
            high == 0x80 || high == 0,
            code < 4,
            address < 32,
    ;
}

/// How the checksum and type byte, or the checksum and status byte, comes
/// apart again: `high` is the two upper bits, in place.
proof fn lemma_check_bits(high: u8, six: u8)
    requires
        high & 0x3f == 0,
        six < 64,
    ensures
        (high | six) & 0xc0 == high,
        (high | six) & 0x3f == six,
        (high | six) & 0x80 == high & 0x80,
        (high | six) & 0x40 == high & 0x40,
        (high | six) >> 6 == high >> 6,
{
    assert((high | six) & 0xc0 == high && (high | six) & 0x3f == six && (high | six) & 0x80 == high
        & 0x80 && (high | six) & 0x40 == high & 0x40 && (high | six) >> 6 == high >> 6)
        by (bit_vector)
        requires
            high & 0x3f == 0,
            six < 64,
    ;
}

/// The type's two bits, in place.
proof fn lemma_type_bits(code: u8)
    requires
        code < 3,
    ensures
        (code << 6) & 0x3f == 0,
        (code << 6) >> 6 == code,
{
    assert((code << 6) & 0x3f == 0 && (code << 6) >> 6 == code) by (bit_vector)
        requires
            code < 3,
    ;
}

/// The two status bits, in place.
proof fn lemma_status_bits(answer: AnswerView)
    ensures
        answer.status() & 0x3f == 0,
        (answer.status() & 0x80 != 0) == answer.event,
        (answer.status() & 0x40 != 0) == answer.process_invalid,
{
    let event: u8 = if answer.event {
        0x80
    } else {
        0
    };
    let invalid: u8 = if answer.process_invalid {
        0x40
    } else {
        0
    };
    assert((event | invalid) & 0x3f == 0 && (event | invalid) & 0x80 == event && (event | invalid)
        & 0x40 == invalid) by (bit_vector)
        requires
            event == 0x80 || event == 0,
            invalid == 0x40 || invalid == 0,
    ;
}

/// A byte put together again from its parts.
proof fn lemma_byte_parts(byte: u8)
    ensures
        (byte & 0xc0) | (byte & 0x3f) == byte,
        (byte & 0xc0) & 0x3f == 0,
        (byte >> 6) << 6 == byte & 0xc0,
        (byte & 0x80) | (byte & 0x40) == byte & 0xc0,
        (byte & 0x80) | (((byte >> 5) & 0x03) << 5) | (byte & 0x1f) == byte,
        byte & 0x80 == 0 || byte & 0x80 == 0x80,
        byte & 0x40 == 0 || byte & 0x40 == 0x40,
        (byte >> 5) & 0x03 < 4,
        byte >> 6 <= 3,
{
    assert((byte & 0xc0) | (byte & 0x3f) == byte && (byte & 0xc0) & 0x3f == 0 && (byte >> 6) << 6
        == byte & 0xc0 && (byte & 0x80) | (byte & 0x40) == byte & 0xc0) by (bit_vector);
    assert((byte & 0x80) | (((byte >> 5) & 0x03) << 5) | (byte & 0x1f) == byte && (byte & 0x80 == 0
        || byte & 0x80 == 0x80) && (byte & 0x40 == 0 || byte & 0x40 == 0x40) && (byte >> 5) & 0x03
        < 4 && byte >> 6 <= 3) by (bit_vector);
}

/// What a master encodes, a device decodes: a well-formed message is as long
/// as its type says and comes back whole.
pub proof fn law_master_round_trip(message: MasterView)
    requires
        message.well_formed(),
    ensures
        message.encoded().len() == master_length(
            message.kind,
            message.process_out.len(),
            message.read,
        ),
        MasterView::decoded(message.encoded(), message.process_out.len()) == Ok::<
            MasterView,
            Error,
        >(message),
{
    let plain = message.unchecked();
    let wire = message.encoded();
    let high = message.kind.code() << 6;
    let six = checksum_of(plain);
    lemma_control_bits(message);
    lemma_type_bits(message.kind.code());
    lemma_fold_is_six_bits(crate::bytes::xor_all(SEED, plain));
    lemma_check_bits(high, six);
    assert(wire.update(1, wire[1] & 0xc0) =~= plain);
    assert(wire[0] == message.control());
    assert(wire.subrange(2, 2 + message.process_out.len() as int) =~= message.process_out);
    assert(wire.skip(2 + message.process_out.len() as int) =~= message.on_request);
}

/// One message, one encoding: whatever decodes to a message is what that
/// message encodes to, and the message is well-formed.
pub proof fn law_master_encoding_is_unique(bytes: Seq<u8>, process_out: nat)
    ensures
        MasterView::decoded(bytes, process_out) matches Ok(message) ==> {
            &&& message.well_formed()
            &&& message.process_out.len() == process_out
            &&& message.encoded() == bytes
        },
{
    if let Ok(message) = MasterView::decoded(bytes, process_out) {
        let plain = message.unchecked();
        lemma_byte_parts(bytes[0]);
        lemma_byte_parts(bytes[1]);
        lemma_address_bits(bytes[0]);
        assert(message.channel.code() == (bytes[0] >> 5) & 0x03);
        assert(message.control() == bytes[0]);
        assert(plain =~= bytes.update(1, bytes[1] & 0xc0));
        assert(message.encoded() =~= bytes);
    }
}

/// What a device encodes, a master decodes: a device message comes back whole.
pub proof fn law_answer_round_trip(answer: AnswerView)
    ensures
        answer.encoded().len() == answer_length(answer.process_in.len(), answer.on_request.len()),
        AnswerView::decoded(answer.encoded(), answer.process_in.len()) == Ok::<AnswerView, Error>(
            answer,
        ),
{
    let plain = answer.unchecked();
    let wire = answer.encoded();
    let body = answer.process_in + answer.on_request;
    lemma_status_bits(answer);
    lemma_fold_is_six_bits(crate::bytes::xor_all(SEED, plain));
    lemma_check_bits(answer.status(), checksum_of(plain));
    assert(wire.drop_last() =~= body);
    assert(wire.take(answer.process_in.len() as int) =~= answer.process_in);
    assert(wire.subrange(answer.process_in.len() as int, wire.len() - 1) =~= answer.on_request);
}

/// One device message, one encoding.
pub proof fn law_answer_encoding_is_unique(bytes: Seq<u8>, process_in: nat)
    ensures
        AnswerView::decoded(bytes, process_in) matches Ok(answer) ==> {
            &&& answer.process_in.len() == process_in
            &&& answer.encoded() == bytes
        },
{
    if let Ok(answer) = AnswerView::decoded(bytes, process_in) {
        lemma_byte_parts(bytes.last());
        assert(answer.process_in + answer.on_request =~= bytes.drop_last());
        assert(answer.status() == bytes.last() & 0xc0);
        assert(answer.encoded() =~= bytes);
    }
}

/// Folding respects XOR, and no single bit folds to nothing.
proof fn lemma_fold_one_bit(eight: u8, n: u8)
    requires
        n < 8,
    ensures
        fold(eight ^ (1u8 << n)) != fold(eight),
{
    assert(fold(eight ^ (1u8 << n)) != fold(eight)) by (bit_vector)
        requires
            n < 8,
    ;
}

/// One bit turned over in the checksum and type byte, or the checksum and
/// status byte, is either one of the six or one of the upper two.
proof fn lemma_turned_bit(byte: u8, n: u8)
    requires
        n < 8,
    ensures
        n < 6 ==> (byte ^ (1u8 << n)) & 0xc0 == byte & 0xc0,
        n < 6 ==> (byte ^ (1u8 << n)) & 0x3f != byte & 0x3f,
        n >= 6 ==> (byte ^ (1u8 << n)) & 0xc0 == (byte & 0xc0) ^ (1u8 << n),
        n >= 6 ==> (byte ^ (1u8 << n)) & 0x3f == byte & 0x3f,
{
    assert((n < 6 ==> (byte ^ (1u8 << n)) & 0xc0 == byte & 0xc0 && (byte ^ (1u8 << n)) & 0x3f
        != byte & 0x3f) && (n >= 6 ==> (byte ^ (1u8 << n)) & 0xc0 == (byte & 0xc0) ^ (1u8 << n) && (
    byte ^ (1u8 << n)) & 0x3f == byte & 0x3f)) by (bit_vector)
        requires
            n < 8,
    ;
}

/// One bit turned over anywhere in a master message is caught by the
/// checksum, however much process data is expected.
pub proof fn law_master_turned_bit_is_refused(
    message: MasterView,
    at: int,
    n: u8,
    process_out: nat,
)
    requires
        0 <= at < message.encoded().len(),
        n < 8,
    ensures
        MasterView::decoded(
            message.encoded().update(at, message.encoded()[at] ^ (1u8 << n)),
            process_out,
        ) == Err::<MasterView, Error>(Error::MasterChecksum),
{
    let plain = message.unchecked();
    let wire = message.encoded();
    let turned = wire.update(at, wire[at] ^ (1u8 << n));
    let checked = turned.update(1, turned[1] & 0xc0);
    lemma_type_bits(message.kind.code());
    lemma_fold_is_six_bits(crate::bytes::xor_all(SEED, plain));
    lemma_check_bits(message.kind.code() << 6, checksum_of(plain));
    lemma_fold_one_bit(crate::bytes::xor_all(SEED, plain), n);
    crate::bytes::lemma_xor_update(SEED, plain, at, 1u8 << n);
    lemma_turned_bit(wire[1], n);
    if at == 1 && n < 6 {
        assert(checked =~= plain);
    } else {
        assert(checked =~= plain.update(at, plain[at] ^ (1u8 << n)));
    }
}

/// One bit turned over anywhere in a device message is caught by the
/// checksum, however much process data is expected.
pub proof fn law_answer_turned_bit_is_refused(answer: AnswerView, at: int, n: u8, process_in: nat)
    requires
        0 <= at < answer.encoded().len(),
        n < 8,
    ensures
        AnswerView::decoded(
            answer.encoded().update(at, answer.encoded()[at] ^ (1u8 << n)),
            process_in,
        ) == Err::<AnswerView, Error>(Error::DeviceChecksum),
{
    let plain = answer.unchecked();
    let wire = answer.encoded();
    let last = wire.len() - 1;
    let turned = wire.update(at, wire[at] ^ (1u8 << n));
    let checked = turned.drop_last().push(turned.last() & 0xc0);
    lemma_status_bits(answer);
    lemma_fold_is_six_bits(crate::bytes::xor_all(SEED, plain));
    lemma_check_bits(answer.status(), checksum_of(plain));
    lemma_fold_one_bit(crate::bytes::xor_all(SEED, plain), n);
    crate::bytes::lemma_xor_update(SEED, plain, at, 1u8 << n);
    lemma_turned_bit(wire[last], n);
    if at == last && n < 6 {
        assert(checked =~= plain);
    } else {
        assert(checked =~= plain.update(at, plain[at] ^ (1u8 << n)));
    }
}

} // verus!
