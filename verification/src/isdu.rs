//! The indexed service data unit: a read or a write of one parameter by
//! index and subindex, up to 238 bytes in all, carried across the ISDU
//! channel two on-request bytes at a time under the flow control the
//! master's address field spells out.
//!
//! The first byte is the I-Service in its high nibble and the length in
//! its low one, where a length of one says an extended length byte
//! follows; then the index, the subindex, the data, and a checksum byte
//! that makes the XOR of the whole unit zero. The master starts a transfer
//! with `START`, counts the bytes it sends, and reads the answer back the
//! same way; a device still working answers `BUSY`.
use vstd::prelude::*;

use crate::bytes::{append, copy, part, xor_bytes};
use crate::error::Error;

verus! {

/// The longest ISDU there is: what the extended length byte can name.
pub const MAX_LENGTH: usize = 238;

/// The I-Service, `ExtLength`, two bytes of index, subindex and checksum of
/// a 16-bit write or read.
pub const OVERHEAD: usize = 6;

/// The data one ISDU carries: the longest, less its framing.
pub const DATA_MAX: usize = MAX_LENGTH - OVERHEAD;

/// The flow control in the address field of an ISDU-channel message.
pub const START: u8 = 0x10;

pub const IDLE: u8 = 0x11;

pub const ABORT: u8 = 0x1f;

/// A count is the low four bits, `0x00` to `0x0f`, cycling.
pub const COUNT_MASK: u8 = 0x0f;

/// What a device answers on the ISDU channel while it is still working,
/// and when it has no service to answer.
pub const BUSY: u8 = 0x01;

pub const NO_SERVICE: u8 = 0x00;

/// The I-Service codes this crate speaks: 16-bit index with subindex.
#[derive(Clone, Copy, Debug, PartialEq, Eq)]
pub enum Service {
    WriteRequest,
    WriteResponseNegative,
    WriteResponsePositive,
    ReadRequest,
    ReadResponseNegative,
    ReadResponsePositive,
}

impl Service {
    /// The nibble that names the service on the line.
    pub open spec fn code(self) -> u8 {
        match self {
            Service::WriteRequest => 0x3,
            Service::WriteResponseNegative => 0x4,
            Service::WriteResponsePositive => 0x5,
            Service::ReadRequest => 0xb,
            Service::ReadResponseNegative => 0xc,
            Service::ReadResponsePositive => 0xd,
        }
    }

    /// The service that `nibble` names, if there is one.
    pub open spec fn of_nibble(nibble: u8) -> Option<Service> {
        if nibble == 0x3 {
            Some(Service::WriteRequest)
        } else if nibble == 0x4 {
            Some(Service::WriteResponseNegative)
        } else if nibble == 0x5 {
            Some(Service::WriteResponsePositive)
        } else if nibble == 0xb {
            Some(Service::ReadRequest)
        } else if nibble == 0xc {
            Some(Service::ReadResponseNegative)
        } else if nibble == 0xd {
            Some(Service::ReadResponsePositive)
        } else {
            None
        }
    }

    /// A write or a read request, which carries an index.
    pub open spec fn is_request(self) -> bool {
        self is WriteRequest || self is ReadRequest
    }

    /// The nibble that names the service on the line.
    pub fn nibble(self) -> (nibble: u8)
        ensures
            nibble == self.code(),
    {
        match self {
            Service::WriteRequest => 0x3,
            Service::WriteResponseNegative => 0x4,
            Service::WriteResponsePositive => 0x5,
            Service::ReadRequest => 0xb,
            Service::ReadResponseNegative => 0xc,
            Service::ReadResponsePositive => 0xd,
        }
    }

    fn from_nibble(nibble: u8) -> (result: Result<Service, Error>)
        ensures
            result == match Service::of_nibble(nibble) {
                Some(service) => Ok(service),
                None => Err(Error::ServiceUnknown { nibble }),
            },
    {
        match nibble {
            0x3 => Ok(Service::WriteRequest),
            0x4 => Ok(Service::WriteResponseNegative),
            0x5 => Ok(Service::WriteResponsePositive),
            0xb => Ok(Service::ReadRequest),
            0xc => Ok(Service::ReadResponseNegative),
            0xd => Ok(Service::ReadResponsePositive),
            other => Err(Error::ServiceUnknown { nibble: other }),
        }
    }

    /// True for a response, which carries no index.
    #[must_use]
    pub fn is_response(self) -> (response: bool)
        ensures
            response == !self.is_request(),
    {
        !matches!(self, Service::WriteRequest | Service::ReadRequest)
    }
}

/// One ISDU.
#[derive(Clone, Debug, PartialEq, Eq)]
pub struct Isdu {
    pub service: Service,
    /// The index and subindex: a request's; zero on a response.
    pub index: u16,
    pub subindex: u8,
    pub data: Vec<u8>,
}

/// What an ISDU says.
#[verifier::ext_equal]
pub struct IsduView {
    pub service: Service,
    pub index: u16,
    pub subindex: u8,
    pub data: Seq<u8>,
}

impl View for Isdu {
    type V = IsduView;

    open spec fn view(&self) -> IsduView {
        IsduView {
            service: self.service,
            index: self.index,
            subindex: self.subindex,
            data: self.data@,
        }
    }
}

/// The two bytes of `index`, the higher first.
pub open spec fn index_bytes(index: u16) -> Seq<u8> {
    seq![(index / 256) as u8, (index % 256) as u8]
}

/// The index that `high` and `low` are the bytes of.
pub open spec fn index_of(high: u8, low: u8) -> u16 {
    (high * 256 + low) as u16
}

/// The whole length of the unit that the first two bytes of `head` name,
/// where they are there.
pub open spec fn named_length(head: Seq<u8>) -> Option<nat> {
    if head.len() < 2 {
        None
    } else if head[0] & 0x0f == 1 {
        Some(head[1] as nat)
    } else {
        Some((head[0] & 0x0f) as nat)
    }
}

impl IsduView {
    /// A write of `data` to `index:subindex`.
    pub open spec fn writing(index: u16, subindex: u8, data: Seq<u8>) -> IsduView {
        IsduView { service: Service::WriteRequest, index, subindex, data }
    }

    /// A read of `index:subindex`.
    pub open spec fn reading(index: u16, subindex: u8) -> IsduView {
        IsduView { service: Service::ReadRequest, index, subindex, data: seq![] }
    }

    /// A response carrying `data`.
    pub open spec fn responding(service: Service, data: Seq<u8>) -> IsduView {
        IsduView { service, index: 0, subindex: 0, data }
    }

    /// The unit's whole length: I-Service, extended length, the index and
    /// subindex of a request, data and checksum.
    pub open spec fn length(self) -> nat {
        (if self.service.is_request() {
            6nat
        } else {
            3nat
        }) + self.data.len()
    }

    /// The unit can name its own length, and a response has no index.
    pub open spec fn well_formed(self) -> bool {
        &&& self.length() <= 255
        &&& !self.service.is_request() ==> self.index == 0 && self.subindex == 0
    }

    /// The extended length byte: the length, or 255 where it does not fit.
    pub open spec fn length_byte(self) -> u8 {
        if self.length() <= 255 {
            self.length() as u8
        } else {
            255
        }
    }

    /// The unit without its checksum.
    pub open spec fn framed(self) -> Seq<u8> {
        seq![(self.service.code() << 4) | 0x1, self.length_byte()] + (
        if self.service.is_request() {
            index_bytes(self.index).push(self.subindex)
        } else {
            seq![]
        }) + self.data
    }

    /// The unit's bytes: the last one makes the XOR of them all zero.
    pub open spec fn encoded(self) -> Seq<u8> {
        self.framed().push(crate::bytes::xor_all(0, self.framed()))
    }

    /// The unit that `bytes` carry, or why they carry none.
    pub open spec fn decoded(bytes: Seq<u8>) -> Result<IsduView, Error> {
        match named_length(bytes) {
            None => Err(Error::IsduCutShort),
            Some(length) => if length != bytes.len() || length < 3 {
                Err(Error::IsduLength)
            } else if crate::bytes::xor_all(0, bytes) != 0 {
                Err(Error::IsduChecksum)
            } else {
                let at: int = if bytes[0] & 0x0f == 1 {
                    2
                } else {
                    1
                };
                let body = bytes.subrange(at, bytes.len() - 1);
                match Service::of_nibble(bytes[0] >> 4) {
                    None => Err(Error::ServiceUnknown { nibble: bytes[0] >> 4 }),
                    Some(service) => if !service.is_request() {
                        Ok(IsduView::responding(service, body))
                    } else if body.len() < 3 {
                        Err(Error::IndexMissing)
                    } else {
                        Ok(
                            IsduView {
                                service,
                                index: index_of(body[0], body[1]),
                                subindex: body[2],
                                data: body.skip(3),
                            },
                        )
                    },
                }
            },
        }
    }
}

impl Isdu {
    /// A write of `data` to `index:subindex`.
    ///
    /// # Errors
    /// Data over [`DATA_MAX`].
    pub fn write(index: u16, subindex: u8, data: &[u8]) -> (result: Result<Isdu, Error>)
        ensures
            crate::error::viewed(result) == if data@.len() <= DATA_MAX {
                Ok(IsduView::writing(index, subindex, data@))
            } else {
                Err(over_ceiling(data@.len()))
            },
    {
        Isdu::new(Service::WriteRequest, index, subindex, data)
    }

    /// A read of `index:subindex`.
    #[must_use]
    pub fn read(index: u16, subindex: u8) -> (unit: Isdu)
        ensures
            unit@ == IsduView::reading(index, subindex),
    {
        Isdu { service: Service::ReadRequest, index, subindex, data: Vec::new() }
    }

    /// A response carrying `data`.
    ///
    /// # Errors
    /// Data over [`DATA_MAX`].
    pub fn response(service: Service, data: &[u8]) -> (result: Result<Isdu, Error>)
        ensures
            crate::error::viewed(result) == if data@.len() <= DATA_MAX {
                Ok(IsduView::responding(service, data@))
            } else {
                Err(over_ceiling(data@.len()))
            },
    {
        Isdu::new(service, 0, 0, data)
    }

    fn new(service: Service, index: u16, subindex: u8, data: &[u8]) -> (result: Result<Isdu, Error>)
        ensures
            crate::error::viewed(result) == if data@.len() <= DATA_MAX {
                Ok(IsduView { service, index, subindex, data: data@ })
            } else {
                Err(over_ceiling(data@.len()))
            },
    {
        if data.len() > DATA_MAX {
            return Err(Error::DataOverCeiling { length: data.len(), ceiling: DATA_MAX });
        }
        Ok(Isdu { service, index, subindex, data: copy(data) })
    }

    /// The unit's bytes, checksum in place.
    #[must_use]
    pub fn encode(&self) -> (out: Vec<u8>)
        ensures
            out@ == self@.encoded(),
            out@.len() == self@.length(),
    {
        let mut out: Vec<u8> = vec![(self.service.nibble() << 4) | 0x1, 0];
        if !self.service.is_response() {
            out.push((self.index / 256) as u8);
            out.push((self.index % 256) as u8);
            out.push(self.subindex);
        }
        append(&mut out, &self.data);
        out.push(0);
        let length: u8 = if out.len() <= 255 {
            out.len() as u8
        } else {
            255
        };
        out[1] = length;
        let ghost framed = self@.framed();
        assert(out@ =~= framed.push(0));
        let check = xor_bytes(0, &out);
        proof {
            let eight = crate::bytes::xor_all(0, framed);
            assert(out@.drop_last() =~= framed);
            assert(eight ^ 0 == eight) by (bit_vector);
        }
        let last = out.len() - 1;
        out[last] = check;
        assert(out@ =~= self@.encoded());
        out
    }

    /// The whole length of the unit the first two bytes of `head` name, or
    /// `None` where fewer than two bytes are there yet.
    #[must_use]
    pub fn length_of(head: &[u8]) -> (length: Option<usize>)
        ensures
            length matches Some(length) ==> named_length(head@) == Some(length as nat),
            length is None ==> named_length(head@) is None,
    {
        if head.len() < 2 {
            return None;
        }
        let first = head[0];
        match first & 0x0f {
            1 => Some(head[1] as usize),
            n => Some(n as usize),
        }
    }

    /// The unit `bytes` carry.
    ///
    /// # Errors
    /// A length that is not the bytes present, a checksum that is not zero,
    /// or a service this transport does not speak.
    pub fn decode(bytes: &[u8]) -> (result: Result<Isdu, Error>)
        ensures
            crate::error::viewed(result) == IsduView::decoded(bytes@),
    {
        let length = match Isdu::length_of(bytes) {
            Some(length) => length,
            None => return Err(Error::IsduCutShort),
        };
        if length != bytes.len() || length < 3 {
            return Err(Error::IsduLength);
        }
        if xor_bytes(0, bytes) != 0 {
            return Err(Error::IsduChecksum);
        }
        let first = bytes[0];
        let service = match Service::from_nibble(first >> 4) {
            Ok(service) => service,
            Err(error) => return Err(error),
        };
        let at: usize = if first & 0x0f == 1 {
            2
        } else {
            1
        };
        let end = bytes.len() - 1;
        let ghost body = bytes@.subrange(at as int, end as int);
        if service.is_response() {
            return Ok(Isdu { service, index: 0, subindex: 0, data: part(bytes, at, end) });
        }
        if end - at < 3 {
            return Err(Error::IndexMissing);
        }
        let unit = Isdu {
            service,
            index: bytes[at] as u16 * 256 + bytes[at + 1] as u16,
            subindex: bytes[at + 2],
            data: part(bytes, at + 3, end),
        };
        assert(unit.data@ =~= body.skip(3));
        Ok(unit)
    }
}

/// The refusal of `length` bytes of data.
pub open spec fn over_ceiling(length: nat) -> Error {
    Error::DataOverCeiling { length: length as usize, ceiling: DATA_MAX }
}

/// How the first byte comes apart again.
proof fn lemma_service_bits(code: u8)
    requires
        code < 16,
    ensures
        ((code << 4) | 0x1) & 0x0f == 1,
        ((code << 4) | 0x1) >> 4 == code,
{
    assert(((code << 4) | 0x1) & 0x0f == 1 && ((code << 4) | 0x1) >> 4 == code) by (bit_vector)
        requires
            code < 16,
    ;
}

/// The first byte of a unit is never taken for `BUSY`.
pub proof fn law_unit_is_not_busy(unit: IsduView)
    ensures
        unit.encoded()[0] != BUSY,
{
    let code = unit.service.code();
    assert((code << 4) | 0x1 != 0x01) by (bit_vector)
        requires
            1 <= code < 16,
    ;
}

/// The XOR of a whole encoded unit is zero, whatever its data.
pub proof fn law_encoded_xor_is_zero(unit: IsduView)
    ensures
        crate::bytes::xor_all(0, unit.encoded()) == 0,
{
    let check = crate::bytes::xor_all(0, unit.framed());
    assert(unit.encoded().drop_last() =~= unit.framed());
    assert(check ^ check == 0) by (bit_vector);
}

/// From the second byte on, any beginning of an encoded unit names the length
/// that the unit has.
pub proof fn law_encoded_names_its_length(unit: IsduView, count: int)
    requires
        unit.length() <= 255,
        2 <= count <= unit.length(),
    ensures
        unit.encoded().len() == unit.length(),
        named_length(unit.encoded().take(count)) == Some(unit.length()),
{
    lemma_service_bits(unit.service.code());
    assert(unit.encoded().take(count)[0] == (unit.service.code() << 4) | 0x1);
    assert(unit.encoded().take(count)[1] == unit.length_byte());
}

/// What one end encodes the other decodes: a unit that can name its length
/// comes back whole.
pub proof fn law_isdu_round_trip(unit: IsduView)
    requires
        unit.well_formed(),
    ensures
        IsduView::decoded(unit.encoded()) == Ok::<IsduView, Error>(unit),
{
    let wire = unit.encoded();
    let body = wire.subrange(2, wire.len() - 1);
    law_encoded_xor_is_zero(unit);
    law_encoded_names_its_length(unit, unit.length() as int);
    assert(wire.take(wire.len() as int) =~= wire);
    lemma_service_bits(unit.service.code());
    if unit.service.is_request() {
        assert(body =~= index_bytes(unit.index).push(unit.subindex) + unit.data);
        assert(index_of(body[0], body[1]) == unit.index);
        assert(body.skip(3) =~= unit.data);
    } else {
        assert(body =~= unit.data);
    }
}

/// A unit too long to name its length is refused, not misread.
pub proof fn law_overlong_isdu_is_refused(unit: IsduView)
    requires
        unit.length() > 255,
    ensures
        IsduView::decoded(unit.encoded()) == Err::<IsduView, Error>(Error::IsduLength),
{
    lemma_service_bits(unit.service.code());
    assert(unit.encoded()[0] == (unit.service.code() << 4) | 0x1);
    assert(unit.encoded()[1] == 255);
}

/// One unit, one encoding with an extended length byte: what decodes to a
/// unit and has that byte is what the unit encodes to.
pub proof fn law_extended_encoding_is_unique(bytes: Seq<u8>)
    requires
        bytes.len() > 0,
        bytes[0] & 0x0f == 1,
    ensures
        IsduView::decoded(bytes) matches Ok(unit) ==> unit.well_formed() && unit.encoded() == bytes,
{
    if let Ok(unit) = IsduView::decoded(bytes) {
        let first = bytes[0];
        let last = bytes.last();
        let body = bytes.subrange(2, bytes.len() - 1);
        let rest = crate::bytes::xor_all(0, bytes.drop_last());
        assert(((first >> 4) << 4) | 0x1 == first) by (bit_vector)
            requires
                first & 0x0f == 1,
        ;
        assert(unit.service.code() == first >> 4);
        assert(unit.length() == bytes.len());
        if unit.service.is_request() {
            assert(index_bytes(unit.index) =~= seq![body[0], body[1]]);
        }
        assert(unit.framed() =~= bytes.drop_last());
        assert(rest == last) by (bit_vector)
            requires
                rest ^ last == 0,
        ;
        assert(unit.encoded() =~= bytes);
    }
}

/// One byte of what decodes replaced by another is never overlooked, in the
/// short form as in the extended one.
pub proof fn law_changed_byte_is_refused(bytes: Seq<u8>, at: int, byte: u8)
    requires
        IsduView::decoded(bytes) is Ok,
        0 <= at < bytes.len(),
        byte != bytes[at],
    ensures
        IsduView::decoded(bytes.update(at, byte)) is Err,
{
    lemma_change_shows(bytes, at, byte);
}

/// One byte changed makes an XOR that was zero another.
proof fn lemma_change_shows(bytes: Seq<u8>, at: int, byte: u8)
    requires
        crate::bytes::xor_all(0, bytes) == 0,
        0 <= at < bytes.len(),
        byte != bytes[at],
    ensures
        crate::bytes::xor_all(0, bytes.update(at, byte)) != 0,
{
    let before = bytes[at];
    assert(before ^ (before ^ byte) == byte) by (bit_vector);
    assert(0u8 ^ (before ^ byte) != 0) by (bit_vector)
        requires
            byte != before,
    ;
    crate::bytes::lemma_xor_update(0, bytes, at, before ^ byte);
}

/// One byte of an encoded unit replaced by another is never overlooked.
pub proof fn law_isdu_changed_byte_is_refused(unit: IsduView, at: int, byte: u8)
    requires
        0 <= at < unit.encoded().len(),
        byte != unit.encoded()[at],
    ensures
        IsduView::decoded(unit.encoded().update(at, byte)) is Err,
{
    law_encoded_xor_is_zero(unit);
    lemma_change_shows(unit.encoded(), at, byte);
}

/// Data within the ceiling makes a unit within the longest there is, and a
/// request with data to the brim is as long as that.
pub proof fn law_ceiling_keeps_the_longest(unit: IsduView)
    requires
        unit.data.len() <= DATA_MAX,
    ensures
        unit.encoded().len() <= MAX_LENGTH,
        unit.service.is_request() && unit.data.len() == DATA_MAX ==> unit.encoded().len()
            == MAX_LENGTH,
{
}

} // verus!
