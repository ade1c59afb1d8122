//! What stands where on the line, byte by byte and bit by bit. The messages
//! and the units have functions of their own that put them together and take
//! them apart; here it is said of each, in plain arithmetic, which byte of the
//! line is which part of it, and what every byte string is taken for.
use vstd::prelude::*;

use crate::error::Error;
use crate::isdu::{Isdu, IsduView, Service};
use crate::m_sequence::{AnswerView, Channel, DeviceMessage, Kind, MasterMessage, MasterView};

verus! {

/// The number of bits that are set in `byte`, modulo two.
pub open spec fn parity(byte: u8) -> int {
    (byte % 2 + byte / 2 % 2 + byte / 4 % 2 + byte / 8 % 2 + byte / 16 % 2 + byte / 32 % 2 + byte
        / 64 % 2 + byte / 128 % 2) % 2
}

/// How often bit `n` is set in `bytes`.
pub open spec fn times_set(bytes: Seq<u8>, n: u8) -> nat {
    bytes.filter(|byte: u8| (byte >> n) & 1 == 1).len()
}

proof fn lemma_one_more(byte: u8, more: u8, n: u8)
    requires
        n < 8,
    ensures
        ((byte ^ more) >> n) & 1 == (((byte >> n) & 1) + ((more >> n) & 1)) % 2,
        (byte >> n) & 1 <= 1,
        (more >> n) & 1 <= 1,
{
    assert(((byte ^ more) >> n) & 1 == (((byte >> n) & 1) + ((more >> n) & 1)) % 2 && (byte >> n)
        & 1 <= 1 && (more >> n) & 1 <= 1) by (bit_vector)
        requires
            n < 8,
    ;
}

/// Every byte counts in an XOR, and counts once: bit `n` of it is the parity
/// of how often that bit is set in the bytes, turned over where it is set in
/// what the XOR began with.
pub proof fn law_xor_counts_every_byte(acc: u8, bytes: Seq<u8>, n: u8)
    requires
        n < 8,
    ensures
        (crate::bytes::xor_all(acc, bytes) >> n) & 1 == (((acc >> n) & 1) + times_set(bytes, n))
            % 2,
    decreases bytes.len(),
{
    reveal(Seq::filter);
    if bytes.len() == 0 {
        lemma_one_more(acc, 0, n);
    } else {
        law_xor_counts_every_byte(acc, bytes.drop_last(), n);
        lemma_one_more(crate::bytes::xor_all(acc, bytes.drop_last()), bytes.last(), n);
    }
}

/// What the six bits of a checksum are, with `x` the XOR of 0x52 and every
/// byte: the parities of the odd bits of `x`, of its even bits, and of its four
/// pairs of neighbours, from the highest.
pub proof fn law_checksum_bits(bytes: Seq<u8>)
    ensures
        ({
            let x = crate::bytes::xor_all(0x52, bytes);
            let six = crate::m_sequence::checksum_of(bytes);
            &&& six < 64
            &&& six / 32 % 2 == parity(x & 0xaa)
            &&& six / 16 % 2 == parity(x & 0x55)
            &&& six / 8 % 2 == parity(x & 0xc0)
            &&& six / 4 % 2 == parity(x & 0x30)
            &&& six / 2 % 2 == parity(x & 0x0c)
            &&& six % 2 == parity(x & 0x03)
        }),
{
    let x = crate::bytes::xor_all(0x52, bytes);
    lemma_fold_bits(x);
}

proof fn lemma_fold_bits(x: u8)
    ensures
        crate::m_sequence::fold(x) < 64,
        crate::m_sequence::fold(x) / 32 % 2 == parity(x & 0xaa),
        crate::m_sequence::fold(x) / 16 % 2 == parity(x & 0x55),
        crate::m_sequence::fold(x) / 8 % 2 == parity(x & 0xc0),
        crate::m_sequence::fold(x) / 4 % 2 == parity(x & 0x30),
        crate::m_sequence::fold(x) / 2 % 2 == parity(x & 0x0c),
        crate::m_sequence::fold(x) % 2 == parity(x & 0x03),
{
    assert(crate::m_sequence::fold(x) < 64 && crate::m_sequence::fold(x) / 32 % 2 == parity(
        x & 0xaa,
    ) && crate::m_sequence::fold(x) / 16 % 2 == parity(x & 0x55) && crate::m_sequence::fold(x) / 8
        % 2 == parity(x & 0xc0) && crate::m_sequence::fold(x) / 4 % 2 == parity(x & 0x30)
        && crate::m_sequence::fold(x) / 2 % 2 == parity(x & 0x0c) && crate::m_sequence::fold(x) % 2
        == parity(x & 0x03)) by (bit_vector);
}

/// The fields of a byte as numbers.
proof fn lemma_fields(byte: u8)
    ensures
        byte & 0xc0 == byte / 64 * 64,
        byte & 0x3f == byte % 64,
        byte >> 6 == byte / 64,
        byte & 0x80 != 0 <==> byte >= 128,
        byte & 0x40 != 0 <==> byte / 64 % 2 == 1,
        (byte >> 5) & 0x03 == byte / 32 % 4,
        byte & 0x1f == byte % 32,
        byte & 0x0f == byte % 16,
        byte >> 4 == byte / 16,
{
    assert(byte & 0xc0 == byte / 64 * 64 && byte & 0x3f == byte % 64 && byte >> 6 == byte / 64 && (
    byte & 0x80 != 0 <==> byte >= 128) && (byte & 0x40 != 0 <==> byte / 64 % 2 == 1) && (byte >> 5)
        & 0x03 == byte / 32 % 4 && byte & 0x1f == byte % 32 && byte & 0x0f == byte % 16 && byte >> 4
        == byte / 16) by (bit_vector);
}

/// The numbers of the types are their places, and type 1 carries two bytes
/// where the others carry one.
pub proof fn law_types(kind: Kind)
    ensures
        kind.code() == match kind {
            Kind::Type0 => 0u8,
            Kind::Type1 => 1u8,
            Kind::Type2 => 2u8,
        },
        kind.carries() == if kind is Type1 {
            2nat
        } else {
            1nat
        },
{
}

/// The two bits of the type in place.
pub open spec fn type_bits(kind: Kind) -> u8 {
    match kind {
        Kind::Type0 => 0x00,
        Kind::Type1 => 0x40,
        Kind::Type2 => 0x80,
    }
}

/// The bit of a read and the two bits of the channel in place.
pub open spec fn channel_bits(read: bool, channel: Channel) -> u8 {
    match (read, channel) {
        (false, Channel::Process) => 0x00,
        (false, Channel::Page) => 0x20,
        (false, Channel::Diagnosis) => 0x40,
        (false, Channel::Isdu) => 0x60,
        (true, Channel::Process) => 0x80,
        (true, Channel::Page) => 0xa0,
        (true, Channel::Diagnosis) => 0xc0,
        (true, Channel::Isdu) => 0xe0,
    }
}

proof fn lemma_type_byte(kind: Kind, six: u8)
    requires
        six < 64,
    ensures
        kind.code() << 6 == type_bits(kind),
        (kind.code() << 6) | six == type_bits(kind) + six,
{
    assert(0u8 << 6 == 0 && 1u8 << 6 == 0x40 && 2u8 << 6 == 0x80 && 0u8 | six == six && 0x40u8 | six
        == 0x40 + six && 0x80u8 | six == 0x80 + six) by (bit_vector)
        requires
            six < 64,
    ;
}

proof fn lemma_control_byte(message: MasterView)
    ensures
        message.control() == channel_bits(message.read, message.channel) | message.address,
{
    let high: u8 = if message.read {
        0x80
    } else {
        0
    };
    assert(high | (0u8 << 5) == high && high | (1u8 << 5) == high + 0x20 && high | (2u8 << 5)
        == high + 0x40 && high | (3u8 << 5) == high + 0x60) by (bit_vector)
        requires
            high == 0x80 || high == 0,
    ;
}

/// Where everything is in a master message: read, channel and address in the
/// first byte; type and checksum in the second; then process data out; then
/// on-request data.
pub proof fn law_master_layout(message: MasterView)
    ensures
        ({
            let wire = message.encoded();
            let count = message.process_out.len() as int;
            &&& wire.len() == 2 + message.process_out.len() + message.on_request.len()
            &&& wire[0] == channel_bits(message.read, message.channel) | message.address
            &&& wire[1] == type_bits(message.kind) + crate::m_sequence::checksum_of(
                wire.update(1, type_bits(message.kind)),
            )
            &&& wire.subrange(2, 2 + count) == message.process_out
            &&& wire.skip(2 + count) == message.on_request
        }),
{
    let wire = message.encoded();
    let plain = message.unchecked();
    let count = message.process_out.len() as int;
    let six = crate::m_sequence::checksum_of(plain);
    crate::m_sequence::lemma_fold_is_six_bits(
        crate::bytes::xor_all(crate::m_sequence::SEED, plain),
    );
    lemma_type_byte(message.kind, six);
    lemma_control_byte(message);
    assert(wire[0] == message.control());
    assert(plain[1] == message.kind.code() << 6);
    assert(wire.update(1, plain[1]) =~= plain);
    assert(wire.subrange(2, 2 + count) =~= message.process_out);
    assert(wire.skip(2 + count) =~= message.on_request);
}

/// What every byte string is taken for as a master message: the first of its
/// faults, or the message whose parts stand in their places.
pub proof fn law_master_is_read_by_place(bytes: Seq<u8>, process_out: nat)
    ensures
        ({
            let result = MasterView::decoded(bytes, process_out);
            let bare = bytes.update(1, (bytes[1] / 64 * 64) as u8);
            let carried: nat = if bytes[0] >= 128 {
                0
            } else if bytes[1] / 64 == 1 {
                2
            } else {
                1
            };
            if bytes.len() < 2 {
                result == Err::<MasterView, Error>(Error::MasterShort)
            } else if crate::m_sequence::checksum_of(bare) != bytes[1] % 64 {
                result == Err::<MasterView, Error>(Error::MasterChecksum)
            } else if bytes[1] >= 192 {
                result == Err::<MasterView, Error>(Error::TypeReserved)
            } else if bytes.len() != 2 + process_out + carried {
                result == Err::<MasterView, Error>(Error::MasterLength)
            } else {
                &&& result matches Ok(message)
                &&& message.read == (bytes[0] >= 128)
                &&& message.channel == match bytes[0] / 32 % 4 {
                    0 => Channel::Process,
                    1 => Channel::Page,
                    2 => Channel::Diagnosis,
                    _ => Channel::Isdu,
                }
                &&& message.address == bytes[0] % 32
                &&& message.kind == match bytes[1] / 64 {
                    0 => Kind::Type0,
                    1 => Kind::Type1,
                    _ => Kind::Type2,
                }
                &&& message.process_out == bytes.subrange(2, 2 + process_out as int)
                &&& message.on_request == bytes.subrange(
                    2 + process_out as int,
                    bytes.len() as int,
                )
            }
        }),
{
    lemma_fields(bytes[0]);
    lemma_fields(bytes[1]);
    assert(bytes.update(1, bytes[1] & 0xc0) == bytes.update(1, (bytes[1] / 64 * 64) as u8));
    if bytes.len() >= 2 + process_out {
        assert(bytes.skip(2 + process_out as int) =~= bytes.subrange(
            2 + process_out as int,
            bytes.len() as int,
        ));
    }
}

/// Where everything is in a device message: process data in first, then the
/// on-request data, and event, validity and checksum in the last byte.
pub proof fn law_answer_layout(answer: AnswerView)
    ensures
        ({
            let wire = answer.encoded();
            let count = answer.process_in.len() as int;
            let status = (if answer.event {
                128int
            } else {
                0int
            }) + (if answer.process_invalid {
                64int
            } else {
                0int
            });
            &&& wire.len() == answer.process_in.len() + answer.on_request.len() + 1
            &&& wire.take(count) == answer.process_in
            &&& wire.subrange(count, wire.len() - 1) == answer.on_request
            &&& wire.last() == status + crate::m_sequence::checksum_of(
                wire.drop_last().push(status as u8),
            )
        }),
{
    let wire = answer.encoded();
    let plain = answer.unchecked();
    let count = answer.process_in.len() as int;
    let six = crate::m_sequence::checksum_of(plain);
    crate::m_sequence::lemma_fold_is_six_bits(
        crate::bytes::xor_all(crate::m_sequence::SEED, plain),
    );
    assert(0x80u8 | 0x40u8 == 0xc0 && 0x80u8 | 0u8 == 0x80 && 0u8 | 0x40u8 == 0x40 && 0u8 | 0u8 == 0
        && 0u8 | six == six && (six < 64 ==> 0x40u8 | six == 0x40 + six && 0x80u8 | six == 0x80
        + six && 0xc0u8 | six == 0xc0 + six)) by (bit_vector);
    assert(wire.take(count) =~= answer.process_in);
    assert(wire.subrange(count, wire.len() - 1) =~= answer.on_request);
    assert(wire.drop_last() =~= answer.process_in + answer.on_request);
}

/// What every byte string is taken for as a device message: the first of its
/// faults, or the message whose parts stand in their places.
pub proof fn law_answer_is_read_by_place(bytes: Seq<u8>, process_in: nat)
    ensures
        ({
            let result = AnswerView::decoded(bytes, process_in);
            let bare = bytes.drop_last().push((bytes.last() / 64 * 64) as u8);
            if bytes.len() == 0 {
                result == Err::<AnswerView, Error>(Error::DeviceEmpty)
            } else if crate::m_sequence::checksum_of(bare) != bytes.last() % 64 {
                result == Err::<AnswerView, Error>(Error::DeviceChecksum)
            } else if bytes.len() < process_in + 1 {
                result == Err::<AnswerView, Error>(Error::DeviceShort)
            } else {
                &&& result matches Ok(answer)
                &&& answer.process_in == bytes.take(process_in as int)
                &&& answer.on_request == bytes.subrange(process_in as int, bytes.len() - 1)
                &&& answer.event == (bytes.last() >= 128)
                &&& answer.process_invalid == (bytes.last() / 64 % 2 == 1)
            }
        }),
{
    lemma_fields(bytes.last());
}

/// How long messages are: a master message its two bytes, its process data out
/// and what it writes; a device message its process data in, what was read,
/// and one byte.
pub proof fn law_lengths(kind: Kind, process: nat, on_request: nat)
    ensures
        crate::m_sequence::master_length(kind, process, true) == 2 + process,
        crate::m_sequence::master_length(kind, process, false) == 2 + process + (
        if kind is Type1 {
            2nat
        } else {
            1nat
        }),
        crate::m_sequence::answer_length(process, on_request) == process + on_request + 1,
{
}

/// The nibble of a service: 3, 4 and 5 for a write and its answers, 8 more for
/// a read and its own.
pub open spec fn nibble_of(service: Service) -> u8 {
    match service {
        Service::WriteRequest => 3,
        Service::WriteResponseNegative => 4,
        Service::WriteResponsePositive => 5,
        Service::ReadRequest => 11,
        Service::ReadResponseNegative => 12,
        Service::ReadResponsePositive => 13,
    }
}

/// The services and the nibbles that name them: these six and no others, and
/// the two requests among them.
pub proof fn law_service_nibbles(service: Service, nibble: u8)
    ensures
        service.code() == nibble_of(service),
        Service::of_nibble(nibble_of(service)) == Some(service),
        Service::of_nibble(nibble) is Some <==> (nibble == 3 || nibble == 4 || nibble == 5 || nibble
            == 11 || nibble == 12 || nibble == 13),
        service.is_request() <==> (nibble_of(service) == 3 || nibble_of(service) == 11),
{
}

/// The length that a byte string names: none where fewer than two bytes are
/// there; the second byte where the first one's lower half is 1; that half
/// otherwise, up to 15.
pub proof fn law_length_is_named(head: Seq<u8>)
    ensures
        crate::isdu::named_length(head) == if head.len() < 2 {
            None
        } else if head[0] % 16 == 1 {
            Some(head[1] as nat)
        } else {
            Some((head[0] % 16) as nat)
        },
{
    lemma_fields(head[0]);
}

/// Where everything is in an encoded unit: the service above a 1; the length,
/// or 255 where it is more; the index, higher byte first, and the subindex of a
/// request; the data; and the byte that makes the XOR of them all zero.
pub proof fn law_unit_layout(unit: IsduView)
    ensures
        ({
            let wire = unit.encoded();
            let from: int = if unit.service is WriteRequest || unit.service is ReadRequest {
                5
            } else {
                2
            };
            &&& wire.len() == from + unit.data.len() + 1
            &&& wire[0] == 16 * nibble_of(unit.service) + 1
            &&& wire[1] == if wire.len() < 255 {
                wire.len()
            } else {
                255
            }
            &&& from == 5 ==> {
                &&& wire[2] * 256 + wire[3] == unit.index
                &&& wire[4] == unit.subindex
            }
            &&& wire.subrange(from, wire.len() - 1) == unit.data
            &&& crate::bytes::xor_all(0, wire) == 0
        }),
{
    let wire = unit.encoded();
    assert((3u8 << 4) | 1 == 49 && (4u8 << 4) | 1 == 65 && (5u8 << 4) | 1 == 81 && (11u8 << 4) | 1
        == 177 && (12u8 << 4) | 1 == 193 && (13u8 << 4) | 1 == 209) by (bit_vector);
    crate::isdu::law_encoded_xor_is_zero(unit);
    let from: int = if unit.service.is_request() {
        5
    } else {
        2
    };
    assert(wire.subrange(from, wire.len() - 1) =~= unit.data);
}

/// What every byte string is taken for as a unit: the first of its faults, or
/// the unit whose parts stand in their places, one byte earlier where there is
/// no byte for the length.
pub proof fn law_unit_is_read_by_place(bytes: Seq<u8>)
    ensures
        ({
            let result = IsduView::decoded(bytes);
            let extended = bytes[0] % 16 == 1;
            let length: nat = if extended {
                bytes[1] as nat
            } else {
                (bytes[0] % 16) as nat
            };
            let from: int = if extended {
                2
            } else {
                1
            };
            let nibble = bytes[0] / 16;
            if bytes.len() < 2 {
                result == Err::<IsduView, Error>(Error::IsduCutShort)
            } else if length != bytes.len() || length < 3 {
                result == Err::<IsduView, Error>(Error::IsduLength)
            } else if crate::bytes::xor_all(0, bytes) != 0 {
                result == Err::<IsduView, Error>(Error::IsduChecksum)
            } else if nibble == 4 || nibble == 5 || nibble == 12 || nibble == 13 {
                &&& result matches Ok(unit)
                &&& nibble_of(unit.service) == nibble
                &&& unit.index == 0
                &&& unit.subindex == 0
                &&& unit.data == bytes.subrange(from, bytes.len() - 1)
            } else if nibble != 3 && nibble != 11 {
                result == Err::<IsduView, Error>(Error::ServiceUnknown { nibble })
            } else if bytes.len() < from + 4 {
                result == Err::<IsduView, Error>(Error::IndexMissing)
            } else {
                &&& result matches Ok(unit)
                &&& nibble_of(unit.service) == nibble
                &&& unit.index == bytes[from] * 256 + bytes[from + 1]
                &&& unit.subindex == bytes[from + 2]
                &&& unit.data == bytes.subrange(from + 3, bytes.len() - 1)
            }
        }),
{
    let from: int = if bytes[0] % 16 == 1 {
        2
    } else {
        1
    };
    lemma_fields(bytes[0]);
    if bytes.len() >= from + 4 {
        assert(bytes.subrange(from, bytes.len() - 1).skip(3) =~= bytes.subrange(
            from + 3,
            bytes.len() - 1,
        ));
    }
}

/// The short form is whole: under any service, up to fifteen bytes name their
/// own length in the first of them, and, closed by their XOR, decode to that
/// service with that body.
pub proof fn law_short_form(service: Service, body: Seq<u8>)
    requires
        body.len() <= 13,
        service is WriteRequest || service is ReadRequest ==> body.len() >= 3,
    ensures
        ({
            let open = seq![(16 * nibble_of(service) + body.len() + 2) as u8] + body;
            let wire = open.push(crate::bytes::xor_all(0, open));
            &&& crate::isdu::named_length(wire) == Some(body.len() + 2)
            &&& body.len() > 0 ==> {
                &&& IsduView::decoded(wire) matches Ok(unit)
                &&& unit.service == service
                &&& if service is WriteRequest || service is ReadRequest {
                    &&& unit.index == body[0] * 256 + body[1]
                    &&& unit.subindex == body[2]
                    &&& unit.data == body.skip(3)
                } else {
                    &&& unit.index == 0
                    &&& unit.subindex == 0
                    &&& unit.data == body
                }
            }
        }),
{
    let open = seq![(16 * nibble_of(service) + body.len() + 2) as u8] + body;
    let check = crate::bytes::xor_all(0, open);
    let wire = open.push(check);
    assert(check ^ check == 0) by (bit_vector);
    assert(wire.drop_last() =~= open);
    assert(wire[0] % 16 == body.len() + 2);
    assert(wire[0] / 16 == nibble_of(service));
    law_length_is_named(wire);
    law_unit_is_read_by_place(wire);
    assert(wire.subrange(1, wire.len() - 1) =~= body);
    if body.len() >= 3 {
        assert(wire.subrange(4, wire.len() - 1) =~= body.skip(3));
    }
    if let Ok(unit) = IsduView::decoded(wire) {
        law_service_nibbles(unit.service, 0);
        law_service_nibbles(service, 0);
    }
}

/// What a message or a unit says is what its fields hold.
pub proof fn law_views_are_the_fields(master: MasterMessage, answer: DeviceMessage, unit: Isdu)
    ensures
        master@.read == master.read,
        master@.channel == master.channel,
        master@.address == master.address,
        master@.kind == master.kind,
        master@.process_out == master.process_out@,
        master@.on_request == master.on_request@,
        answer@.process_in == answer.process_in@,
        answer@.on_request == answer.on_request@,
        answer@.event == answer.event,
        answer@.process_invalid == answer.process_invalid,
        unit@.service == unit.service,
        unit@.index == unit.index,
        unit@.subindex == unit.subindex,
        unit@.data == unit.data@,
{
}

/// A result with a view in the place of its value is otherwise as it was.
pub proof fn law_viewed_result(result: Result<Isdu, Error>)
    ensures
        result matches Ok(unit) ==> crate::error::viewed(result) == Ok::<IsduView, Error>(unit@),
        result matches Err(error) ==> crate::error::viewed(result) == Err::<IsduView, Error>(error),
{
}

/// What a read and a write message are made of: what they were asked for, the
/// address modulo 32, and no process data out.
pub proof fn law_messages_made(kind: Kind, channel: Channel, address: u8, on_request: Seq<u8>)
    ensures
        ({
            let read = MasterView::reading(kind, channel, address);
            let write = MasterView::writing(kind, channel, address, on_request);
            &&& read.read
            &&& !write.read
            &&& read.channel == channel
            &&& write.channel == channel
            &&& read.address == address % 32
            &&& write.address == address % 32
            &&& read.kind == kind
            &&& write.kind == kind
            &&& read.process_out.len() == 0
            &&& write.process_out.len() == 0
            &&& read.on_request.len() == 0
            &&& write.on_request == on_request
        }),
{
    lemma_fields(address);
}

/// What the units are made of: what they were asked for, and neither index nor
/// subindex in a response.
pub proof fn law_units_made(service: Service, index: u16, subindex: u8, data: Seq<u8>)
    ensures
        ({
            let write = IsduView::writing(index, subindex, data);
            let read = IsduView::reading(index, subindex);
            let response = IsduView::responding(service, data);
            &&& write.service is WriteRequest
            &&& write.index == index
            &&& write.subindex == subindex
            &&& write.data == data
            &&& read.service is ReadRequest
            &&& read.index == index
            &&& read.subindex == subindex
            &&& read.data.len() == 0
            &&& response.service == service
            &&& response.index == 0
            &&& response.subindex == 0
            &&& response.data == data
        }),
{
}

/// The refusal of more than one unit carries names how much it was, and that
/// 232 is the most.
pub proof fn law_ceiling_is_named(length: usize)
    ensures
        crate::isdu::over_ceiling(length as nat) matches Error::DataOverCeiling {
            length: given,
            ceiling,
        } && given == length && ceiling == 232,
        crate::isdu::DATA_MAX == 232,
        crate::isdu::MAX_LENGTH == 238,
{
}

} // verus!
