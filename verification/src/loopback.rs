//! A whole ISDU transfer with a device on the same line, from the request's
//! first byte to the response's last, and why it comes to this: the device
//! serves the request, and the master has the response.
use vstd::prelude::*;

use crate::device::{DeviceView, ReplyView};
use crate::error::Error;
use crate::isdu::{self, IsduView};

verus! {

impl DeviceView {
    /// The device after the bytes of a request from `at` on were written to
    /// it, two at a time, the first of them under `address`.
    pub open spec fn fed(self, bytes: Seq<u8>, at: nat, address: u8) -> DeviceView
        decreases bytes.len() + 1 - at,
    {
        if at >= bytes.len() {
            self
        } else {
            self.isdu_written(address, crate::device::chunk(bytes, at, 2)).fed(
                bytes,
                at + 2,
                crate::transfer::next_count(address),
            )
        }
    }

    /// The device after a response of `length` bytes was read from it, two
    /// bytes at a time, with `response` there already, and all that was read.
    pub open spec fn drained(self, response: Seq<u8>, length: nat, address: u8) -> (
        DeviceView,
        Seq<u8>,
    )
        decreases length + 1 - response.len(),
    {
        if response.len() >= length {
            (self, response)
        } else {
            let (device, two) = self.isdu_read(address, 2);
            device.drained(response + two, length, crate::transfer::next_count(address))
        }
    }

    /// The device after a response was asked for and read, and what it was.
    pub open spec fn read_out(self) -> (DeviceView, Result<IsduView, Error>) {
        let (device, first) = self.isdu_read(isdu::START, 2);
        if first[0] == isdu::BUSY {
            (device, Err(Error::StayedBusy))
        } else {
            let length = isdu::named_length(first)->0;
            let (device, response) = device.drained(first, length, 0);
            (device, IsduView::decoded(response.take(length as int)))
        }
    }

    /// The device after a whole transfer, and what the master has from it.
    pub open spec fn transferred(self, request: IsduView) -> (DeviceView, Result<IsduView, Error>) {
        self.fed(request.encoded(), 0, isdu::START).read_out()
    }

    /// The device with no request begun and no response waiting.
    pub open spec fn settled(self) -> DeviceView {
        DeviceView { request: seq![], reply: None, ..self }
    }
}

/// A device makes of an encoded unit what it makes of the unit.
proof fn lemma_served_as_encoded(device: DeviceView, unit: IsduView)
    requires
        unit.length() <= 255,
    ensures
        device.served(IsduView::decoded(unit.encoded())) == device.served(
            Ok::<IsduView, Error>(unit),
        ),
{
    if unit.service.is_request() {
        isdu::law_isdu_round_trip(unit);
    } else {
        let bare = IsduView { index: 0, subindex: 0, ..unit };
        assert(bare.encoded() == unit.encoded());
        isdu::law_isdu_round_trip(bare);
    }
}

/// From the second byte on, each two bytes bring the request nearer to being
/// whole, and the last ones make it whole.
proof fn lemma_fed_the_rest(device: DeviceView, unit: IsduView, at: nat, address: u8)
    requires
        unit.length() <= 255,
        2 <= at < unit.length(),
        address <= isdu::COUNT_MASK,
        device.request == unit.encoded().take(at as int),
        device.reply is None,
    ensures
        device.fed(unit.encoded(), at, address) == (DeviceView {
            request: seq![],
            reply: Some(
                ReplyView {
                    bytes: device.served(Ok::<IsduView, Error>(unit)).1.encoded(),
                    at: 0,
                },
            ),
            ..device.served(Ok::<IsduView, Error>(unit)).0
        }),
    decreases unit.length() - at,
{
    let bytes = unit.encoded();
    let two = crate::device::chunk(bytes, at, 2);
    let next = device.isdu_written(address, two);
    let grown = device.request + two;
    crate::transfer::lemma_count_bits(address);
    isdu::law_encoded_names_its_length(unit, at as int);
    lemma_served_as_encoded(device, unit);
    assert(grown[0] == bytes.take(at as int)[0]);
    assert(grown[1] == bytes.take(at as int)[1]);
    assert(isdu::named_length(grown) == Some(unit.length()));
    if at + 2 < unit.length() {
        assert(grown =~= bytes.take(at as int + 2));
        lemma_fed_the_rest(
            DeviceView { request: grown, ..device },
            unit,
            at + 2,
            crate::transfer::next_count(address),
        );
        let later = DeviceView { request: grown, ..device };
        assert(later.served(Ok::<IsduView, Error>(unit)).1 == device.served(
            Ok::<IsduView, Error>(unit),
        ).1);
    } else {
        assert(grown.take(unit.length() as int) =~= bytes);
        assert(next.fed(bytes, at + 2, crate::transfer::next_count(address)) == next);
    }
}

/// A whole request written under flow control is served once, whatever the
/// device had begun before.
pub proof fn law_fed_request_is_served(device: DeviceView, unit: IsduView)
    requires
        unit.length() <= 255,
    ensures
        device.fed(unit.encoded(), 0, isdu::START) == (DeviceView {
            reply: Some(
                ReplyView {
                    bytes: device.served(Ok::<IsduView, Error>(unit)).1.encoded(),
                    at: 0,
                },
            ),
            ..device.served(Ok::<IsduView, Error>(unit)).0.settled()
        }),
{
    let bytes = unit.encoded();
    let two = crate::device::chunk(bytes, 0, 2);
    let begun = DeviceView { request: two, reply: None, ..device };
    crate::transfer::lemma_count_bits(isdu::START);
    isdu::law_encoded_names_its_length(unit, 2);
    assert(two =~= bytes.take(2));
    assert(device.isdu_written(isdu::START, two) == begun);
    lemma_fed_the_rest(begun, unit, 2, crate::transfer::next_count(isdu::START));
}

/// From the second byte on, each two bytes bring the response nearer to being
/// whole, and the last ones empty the device.
proof fn lemma_drained_the_rest(device: DeviceView, unit: IsduView, at: nat, address: u8)
    requires
        unit.length() <= 255,
        2 <= at < unit.length(),
        address <= isdu::COUNT_MASK,
        device.reply == Some(ReplyView { bytes: unit.encoded(), at }),
    ensures
        device.drained(unit.encoded().take(at as int), unit.length(), address).0 == (DeviceView {
            reply: None,
            ..device
        }),
        device.drained(unit.encoded().take(at as int), unit.length(), address).1.take(
            unit.length() as int,
        ) == unit.encoded(),
    decreases unit.length() - at,
{
    let bytes = unit.encoded();
    let (next, two) = device.isdu_read(address, 2);
    let grown = bytes.take(at as int) + two;
    crate::transfer::lemma_count_bits(address);
    if at + 2 < unit.length() {
        assert(grown =~= bytes.take(at as int + 2));
        lemma_drained_the_rest(next, unit, at + 2, crate::transfer::next_count(address));
    } else {
        assert(grown.take(unit.length() as int) =~= bytes);
        assert(next.drained(grown, unit.length(), crate::transfer::next_count(address)) == (
            next,
            grown,
        ));
    }
}

/// A response that waits is read back whole, however much of it had been read
/// before, and then the device has none.
pub proof fn law_response_is_read_out(device: DeviceView, unit: IsduView, at: nat)
    requires
        unit.well_formed(),
        device.reply == Some(ReplyView { bytes: unit.encoded(), at }),
    ensures
        device.read_out() == (DeviceView { reply: None, ..device }, Ok::<IsduView, Error>(unit)),
{
    let bytes = unit.encoded();
    let (next, first) = device.isdu_read(isdu::START, 2);
    isdu::law_encoded_names_its_length(unit, 2);
    isdu::law_isdu_round_trip(unit);
    isdu::law_unit_is_not_busy(unit);
    assert(first =~= bytes.take(2));
    lemma_drained_the_rest(next, unit, 2, 0);
}

/// What a device answers to a request can name its length.
proof fn lemma_served_is_well_formed(device: DeviceView, unit: IsduView)
    ensures
        device.served(Ok::<IsduView, Error>(unit)).1.well_formed(),
{
}

/// A transfer is the service: a request that can name its length is served by
/// the device as it stands, and the master has the whole response. Nothing of
/// either is left behind.
pub proof fn law_transfer_is_the_service(device: DeviceView, unit: IsduView)
    requires
        unit.length() <= 255,
    ensures
        device.transferred(unit) == (
            device.served(Ok::<IsduView, Error>(unit)).0.settled(),
            Ok::<IsduView, Error>(device.served(Ok::<IsduView, Error>(unit)).1),
        ),
{
    let (served, response) = device.served(Ok::<IsduView, Error>(unit));
    let fed = device.fed(unit.encoded(), 0, isdu::START);
    law_fed_request_is_served(device, unit);
    lemma_served_is_well_formed(device, unit);
    law_response_is_read_out(fed, response, 0);
    assert(DeviceView { reply: None, ..fed } == served.settled());
}

/// From the second byte on, two more bytes that do not end the request only
/// add to it.
proof fn lemma_fed_on(device: DeviceView, unit: IsduView, at: nat, count: nat, address: u8)
    requires
        unit.length() <= 255,
        2 <= at <= count < unit.length(),
        at % 2 == 0,
        count % 2 == 0,
        address <= isdu::COUNT_MASK,
        device.request == unit.encoded().take(at as int),
        device.reply is None,
    ensures
        device.fed(unit.encoded().take(count as int), at, address) == (DeviceView {
            request: unit.encoded().take(count as int),
            ..device
        }),
    decreases count - at,
{
    let bytes = unit.encoded().take(count as int);
    if at < count {
        let two = crate::device::chunk(bytes, at, 2);
        let grown = unit.encoded().take(at as int + 2);
        let next = DeviceView { request: grown, ..device };
        crate::transfer::lemma_count_bits(address);
        isdu::law_encoded_names_its_length(unit, at as int + 2);
        assert(device.request + two =~= grown);
        assert(device.isdu_written(address, two) == next);
        lemma_fed_on(next, unit, at + 2, count, crate::transfer::next_count(address));
    }
}

/// A device is `BUSY` until the request is whole: as long as something of it
/// is still to come, there is nothing to read, and no parameter has changed.
pub proof fn law_busy_until_the_request_is_whole(device: DeviceView, unit: IsduView, count: nat)
    requires
        unit.length() <= 255,
        2 <= count < unit.length(),
        count % 2 == 0,
    ensures
        ({
            let fed = device.fed(unit.encoded().take(count as int), 0, isdu::START);
            &&& fed == (DeviceView {
                request: unit.encoded().take(count as int),
                reply: None,
                ..device
            })
            &&& fed.isdu_read(isdu::START, 2) == (fed, seq![isdu::BUSY, 0u8])
        }),
{
    let bytes = unit.encoded().take(count as int);
    let two = crate::device::chunk(bytes, 0, 2);
    let begun = DeviceView { request: two, reply: None, ..device };
    crate::transfer::lemma_count_bits(isdu::START);
    isdu::law_encoded_names_its_length(unit, 2);
    assert(two =~= unit.encoded().take(2));
    assert(device.isdu_written(isdu::START, two) == begun);
    lemma_fed_on(begun, unit, 2, count, crate::transfer::next_count(isdu::START));
    assert(crate::device::chunk(seq![isdu::BUSY], 0, 2) =~= seq![isdu::BUSY, 0u8]);
}

impl DeviceView {
    /// The device after the bytes of a request were written to it from the
    /// beginning, two at a time, each two under the address beside them.
    pub open spec fn fed_under(self, bytes: Seq<u8>, addresses: Seq<u8>) -> DeviceView
        decreases addresses.len(),
    {
        if addresses.len() == 0 {
            self
        } else {
            self.fed_under(bytes, addresses.drop_last()).isdu_written(
                addresses.last(),
                crate::device::chunk(bytes, (2 * (addresses.len() - 1)) as nat, 2),
            )
        }
    }
}

/// `addresses` begin a request and go on with it: `START`, and then counts,
/// or whatever else neither begins a request nor drops one.
pub open spec fn go_on(addresses: Seq<u8>) -> bool {
    &&& addresses.len() > 0
    &&& addresses[0] == isdu::START
    &&& forall|i: int|
        1 <= i < addresses.len() ==> {
            &&& #[trigger] addresses[i] != isdu::START
            &&& addresses[i] != isdu::ABORT
            &&& addresses[i] != isdu::IDLE
        }
}

/// Under addresses that go on, a device has the request as far as it has come.
proof fn lemma_fed_under(device: DeviceView, unit: IsduView, addresses: Seq<u8>)
    requires
        unit.length() <= 255,
        go_on(addresses),
        2 * addresses.len() < unit.length(),
    ensures
        device.fed_under(unit.encoded(), addresses) == (DeviceView {
            request: unit.encoded().take(2 * addresses.len() as int),
            reply: None,
            ..device
        }),
    decreases addresses.len(),
{
    let count = addresses.len() as int;
    let wire = unit.encoded();
    let before = addresses.drop_last();
    let two = crate::device::chunk(wire, (2 * (count - 1)) as nat, 2);
    isdu::law_encoded_names_its_length(unit, 2 * count);
    if count == 1 {
        assert(device.fed_under(wire, before) == device);
        assert(two =~= wire.take(2));
    } else {
        assert(go_on(before)) by {
            assert forall|i: int| 1 <= i < before.len() implies #[trigger] before[i] != isdu::START
                && before[i] != isdu::ABORT && before[i] != isdu::IDLE by {
                assert(before[i] == addresses[i]);
            }
        }
        lemma_fed_under(device, unit, before);
        assert(addresses.last() == addresses[count - 1]);
        assert(wire.take(2 * (count - 1)) + two =~= wire.take(2 * count));
    }
}

/// It does not matter which counts a request is written under: after `START`,
/// any will do, and the whole request is served once, whatever the device had
/// begun before.
pub proof fn law_any_counts_will_do(device: DeviceView, unit: IsduView, addresses: Seq<u8>)
    requires
        unit.length() <= 255,
        go_on(addresses),
        2 * (addresses.len() - 1) < unit.length() <= 2 * addresses.len(),
    ensures
        device.fed_under(unit.encoded(), addresses) == device.fed(unit.encoded(), 0, isdu::START),
        device.fed_under(unit.encoded(), addresses) == (DeviceView {
            reply: Some(
                ReplyView {
                    bytes: device.served(Ok::<IsduView, Error>(unit)).1.encoded(),
                    at: 0,
                },
            ),
            ..device.served(Ok::<IsduView, Error>(unit)).0.settled()
        }),
{
    let count = addresses.len() as int;
    let wire = unit.encoded();
    let before = addresses.drop_last();
    let two = crate::device::chunk(wire, (2 * (count - 1)) as nat, 2);
    let begun = device.fed_under(wire, before);
    let grown = wire.take(2 * (count - 1)) + two;
    assert forall|i: int| 1 <= i < before.len() implies #[trigger] before[i] != isdu::START
        && before[i] != isdu::ABORT && before[i] != isdu::IDLE by {
        assert(before[i] == addresses[i]);
    }
    lemma_fed_under(device, unit, before);
    isdu::law_encoded_names_its_length(unit, 2);
    lemma_served_as_encoded(begun, unit);
    assert(addresses.last() == addresses[count - 1]);
    assert(grown[0] == wire.take(2)[0]);
    assert(grown[1] == wire.take(2)[1]);
    assert(isdu::named_length(grown) == Some(unit.length()));
    assert(grown.take(unit.length() as int) =~= wire);
    assert(begun.served(Ok::<IsduView, Error>(unit)).1 == device.served(
        Ok::<IsduView, Error>(unit),
    ).1);
    law_fed_request_is_served(device, unit);
}

} // verus!
