//! An IO-Link device at the far end of a line: what a test or the loopback
//! puts there so a master can be driven without a sensor in the room.
//!
//! Not a device profile. One device holds a direct parameter page, process
//! data each way, and parameters as byte vectors keyed by index and
//! subindex; it answers every M-sequence the master sends — a page byte, a
//! process data cycle, and the ISDU channel's flow control, assembling a
//! request two bytes at a time and handing the response back the same way,
//! `BUSY` until it has one.
use std::collections::HashMap;

use vstd::prelude::*;

use crate::bytes::{append, copy, zero_bytes};
use crate::error::Error;
use crate::isdu::{self, Isdu, IsduView, Service};
use crate::m_sequence::{AnswerView, Channel, DeviceMessage, Kind, MasterMessage, MasterView};

verus! {

broadcast use vstd::std_specs::hash::group_hash_axioms;

/// The error a negative response carries for an index that is not there.
pub const INDEX_NOT_AVAILABLE: [u8; 2] = [0x80, 0x11];

/// One device.
pub struct Device {
    page: [u8; 32],
    parameters: HashMap<u32, Vec<u8>>,
    process_in: Vec<u8>,
    process_out: Vec<u8>,
    request: Vec<u8>,
    response: Option<Vec<u8>>,
    response_at: usize,
}

/// A response on its way to the master: its bytes, and how many of them have
/// been handed over.
#[verifier::ext_equal]
pub struct ReplyView {
    pub bytes: Seq<u8>,
    pub at: nat,
}

/// What a device holds.
#[verifier::ext_equal]
pub struct DeviceView {
    /// The direct parameter page, 32 bytes.
    pub page: Seq<u8>,
    /// The parameters, by index and subindex.
    pub parameters: Map<(u16, u8), Seq<u8>>,
    pub process_in: Seq<u8>,
    pub process_out: Seq<u8>,
    /// The beginning of a request, as far as it has come.
    pub request: Seq<u8>,
    /// The response that waits to be read, where there is one.
    pub reply: Option<ReplyView>,
}

/// Where parameter `index:subindex` is kept.
pub open spec fn slot(key: (u16, u8)) -> u32 {
    (key.0 * 256 + key.1) as u32
}

/// `page` with `bytes` laid over it from `at`, as far as the page goes.
pub open spec fn overlaid(page: Seq<u8>, at: int, bytes: Seq<u8>) -> Seq<u8> {
    Seq::new(
        page.len(),
        |i: int|
            if at <= i < at + bytes.len() {
                bytes[i - at]
            } else {
                page[i]
            },
    )
}

/// `count` bytes of `bytes` from `at`, zeros where there are none.
pub open spec fn chunk(bytes: Seq<u8>, at: nat, count: nat) -> Seq<u8> {
    Seq::new(
        count,
        |i: int|
            if at + i < bytes.len() {
                bytes[at + i]
            } else {
                0u8
            },
    )
}

/// The negative response for an index that is not there.
pub open spec fn not_available(service: Service) -> IsduView {
    IsduView::responding(service, seq![0x80u8, 0x11u8])
}

impl DeviceView {
    /// A page of 32 bytes, and a response of which something is still to be
    /// read.
    pub open spec fn steady(self) -> bool {
        &&& self.page.len() == 32
        &&& self.reply matches Some(reply) ==> {
            &&& reply.at < reply.bytes.len()
            &&& 3 <= reply.bytes.len() <= isdu::MAX_LENGTH
        }
    }

    /// What every device keeps: it is steady, and its request is not yet whole.
    pub open spec fn well_formed(self) -> bool {
        &&& self.steady()
        &&& isdu::named_length(self.request) matches Some(length) ==> self.request.len() < length
    }

    /// A new device.
    pub open spec fn fresh(process_in: nat) -> DeviceView {
        DeviceView {
            page: crate::bytes::zeros(32),
            parameters: Map::empty(),
            process_in: crate::bytes::zeros(process_in),
            process_out: seq![],
            request: seq![],
            reply: None,
        }
    }

    /// What the device makes of an ISDU, and what it answers.
    pub open spec fn served(self, request: Result<IsduView, Error>) -> (DeviceView, IsduView) {
        match request {
            Err(_) => (self, not_available(Service::WriteResponseNegative)),
            Ok(request) => {
                let key = (request.index, request.subindex);
                if request.service is WriteRequest && self.parameters.contains_key(key) {
                    (
                        DeviceView {
                            parameters: self.parameters.insert(key, request.data),
                            ..self
                        },
                        IsduView::responding(Service::WriteResponsePositive, seq![]),
                    )
                } else if request.service is ReadRequest {
                    if self.parameters.contains_key(key) && self.parameters[key].len()
                        <= isdu::DATA_MAX {
                        (
                            self,
                            IsduView::responding(
                                Service::ReadResponsePositive,
                                self.parameters[key],
                            ),
                        )
                    } else {
                        (self, not_available(Service::ReadResponseNegative))
                    }
                } else {
                    (self, not_available(Service::WriteResponseNegative))
                }
            },
        }
    }

    /// The device once its request is looked at: served and answered where it
    /// is whole, as it was where it is not.
    pub open spec fn assembled(self) -> DeviceView {
        match isdu::named_length(self.request) {
            Some(length) if self.request.len() >= length => {
                let (device, response) = self.served(
                    IsduView::decoded(self.request.take(length as int)),
                );
                DeviceView {
                    request: seq![],
                    reply: Some(ReplyView { bytes: response.encoded(), at: 0 }),
                    ..device
                }
            },
            _ => self,
        }
    }

    /// The device after a write of `on_request` on the ISDU channel: `START`
    /// begins a request, `ABORT` and `IDLE` drop what there is, and anything
    /// else goes on with the request.
    pub open spec fn isdu_written(self, address: u8, on_request: Seq<u8>) -> DeviceView {
        if address == isdu::START {
            DeviceView { request: on_request, reply: None, ..self }.assembled()
        } else if address == isdu::ABORT || address == isdu::IDLE {
            DeviceView { request: seq![], reply: None, ..self }
        } else {
            DeviceView { request: self.request + on_request, ..self }.assembled()
        }
    }

    /// A read of `count` bytes on the ISDU channel: the next bytes of the
    /// response, from its beginning on `START`, or `BUSY` where there is none.
    pub open spec fn isdu_read(self, address: u8, count: nat) -> (DeviceView, Seq<u8>) {
        match self.reply {
            None => (self, chunk(seq![isdu::BUSY], 0, count)),
            Some(reply) => {
                let at: nat = if address == isdu::START {
                    0
                } else {
                    reply.at
                };
                let left = if at + count >= reply.bytes.len() {
                    None
                } else {
                    Some(ReplyView { bytes: reply.bytes, at: at + count })
                };
                (DeviceView { reply: left, ..self }, chunk(reply.bytes, at, count))
            },
        }
    }

    /// The device's part on the page channel.
    pub open spec fn page_channel(self, master: MasterView) -> (DeviceView, Seq<u8>) {
        if master.read {
            (self, Seq::new(master.wanted(), |i: int| self.page[(master.address + i) % 32]))
        } else {
            (
                DeviceView {
                    page: overlaid(self.page, master.address as int, master.on_request),
                    ..self
                },
                seq![],
            )
        }
    }

    /// The device's part on the ISDU channel.
    pub open spec fn isdu_channel(self, master: MasterView) -> (DeviceView, Seq<u8>) {
        if master.read {
            self.isdu_read(master.address, master.wanted())
        } else {
            (self.isdu_written(master.address, master.on_request), seq![])
        }
    }

    /// The device after one master message, and its answer.
    pub open spec fn answered(self, master: MasterView) -> (DeviceView, AnswerView) {
        let cycled = if master.process_out.len() > 0 {
            DeviceView { process_out: master.process_out, ..self }
        } else {
            self
        };
        let (device, on_request) = match master.channel {
            Channel::Page => cycled.page_channel(master),
            Channel::Isdu => cycled.isdu_channel(master),
            _ => (cycled, crate::bytes::zeros(master.wanted())),
        };
        (
            device,
            AnswerView {
                process_in: if master.kind is Type2 && master.process_out.len() > 0 {
                    self.process_in
                } else {
                    seq![]
                },
                on_request,
                event: false,
                process_invalid: self.process_in.len() == 0,
            },
        )
    }
}

impl View for Device {
    type V = DeviceView;

    closed spec fn view(&self) -> DeviceView {
        DeviceView {
            page: self.page@,
            parameters: Map::new(
                |key: (u16, u8)| self.parameters@.contains_key(slot(key)),
                |key: (u16, u8)| self.parameters@[slot(key)]@,
            ),
            process_in: self.process_in@,
            process_out: self.process_out@,
            request: self.request@,
            reply: match self.response {
                None => None,
                Some(bytes) => Some(ReplyView { bytes: bytes@, at: self.response_at as nat }),
            },
        }
    }
}

/// Two parameters are kept in two places.
proof fn lemma_slots_differ(one: (u16, u8), other: (u16, u8))
    ensures
        slot(one) == slot(other) <==> one == other,
{
}

impl Device {
    /// A device with `process_in` bytes of process data in, none of it
    /// yet, and an empty direct parameter page.
    #[must_use]
    pub fn new(process_in: usize) -> (device: Device)
        ensures
            device@ == DeviceView::fresh(process_in as nat),
            device@.well_formed(),
    {
        let device = Device {
            page: [0; 32],
            parameters: HashMap::new(),
            process_in: zero_bytes(process_in),
            process_out: Vec::new(),
            request: Vec::new(),
            response: None,
            response_at: 0,
        };
        assert(device@ =~= DeviceView::fresh(process_in as nat));
        device
    }

    fn hold(&mut self, index: u16, subindex: u8, bytes: Vec<u8>)
        ensures
            final(self)@ == (DeviceView {
                parameters: old(self)@.parameters.insert((index, subindex), bytes@),
                ..old(self)@
            }),
    {
        let place = index as u32 * 256 + subindex as u32;
        assert(place == slot((index, subindex)));
        self.parameters.insert(place, bytes);
        assert forall|key: (u16, u8)| slot(key) == place <==> key == (index, subindex) by {
            lemma_slots_differ(key, (index, subindex));
        }
        assert(self@.parameters =~= old(self)@.parameters.insert((index, subindex), bytes@));
    }

    /// Hold `bytes` as parameter `index:subindex`.
    #[must_use]
    pub fn with_parameter(self, index: u16, subindex: u8, bytes: Vec<u8>) -> (device: Device)
        ensures
            device@ == (DeviceView {
                parameters: self@.parameters.insert((index, subindex), bytes@),
                ..self@
            }),
    {
        let mut device = self;
        device.hold(index, subindex, bytes);
        device
    }

    fn overlay(&mut self, at: usize, bytes: &[u8])
        requires
            at <= 32,
        ensures
            final(self)@ == (DeviceView {
                page: overlaid(old(self)@.page, at as int, bytes@),
                ..old(self)@
            }),
    {
        let mut i: usize = 0;
        while i < bytes.len() && at + i < 32
            invariant
                at <= 32,
                i <= bytes@.len(),
                at + i <= 32,
                self@ == (DeviceView {
                    page: overlaid(old(self)@.page, at as int, bytes@.take(i as int)),
                    ..old(self)@
                }),
                old(self)@.page.len() == 32,
            decreases bytes@.len() - i,
        {
            self.page[at + i] = bytes[i];
            i += 1;
            assert(self@.page =~= overlaid(old(self)@.page, at as int, bytes@.take(i as int)));
        }
        assert(self@.page =~= overlaid(old(self)@.page, at as int, bytes@));
    }

    /// Hold `bytes` from `address` on the direct parameter page.
    #[must_use]
    pub fn with_page(self, address: u8, bytes: &[u8]) -> (device: Device)
        ensures
            device@ == (DeviceView {
                page: overlaid(self@.page, (address & 0x1f) as int, bytes@),
                ..self@
            }),
            forall|i: int|
                #![trigger bytes@[i]]
                0 <= i < bytes@.len() && address % 32 + i < 32 ==> device@.page[address % 32 + i]
                    == bytes@[i],
            forall|j: int|
                #![trigger device@.page[j]]
                0 <= j < 32 && !(address % 32 <= j < address % 32 + bytes@.len())
                    ==> device@.page[j] == self@.page[j],
    {
        proof {
            crate::m_sequence::lemma_address_bits(address);
            assert(address & 0x1f == address % 32) by (bit_vector);
        }
        let mut device = self;
        device.overlay((address & 0x1f) as usize, bytes);
        device
    }

    /// The bytes held as `index:subindex`, as they are now.
    #[must_use]
    pub fn parameter(&self, index: u16, subindex: u8) -> (bytes: Option<&[u8]>)
        ensures
            bytes is Some <==> self@.parameters.contains_key((index, subindex)),
            bytes matches Some(bytes) ==> bytes@ == self@.parameters[(index, subindex)],
    {
        let place = index as u32 * 256 + subindex as u32;
        assert(place == slot((index, subindex)));
        match self.parameters.get(&place) {
            Some(bytes) => Some(bytes.as_slice()),
            None => None,
        }
    }

    /// The process data the master last sent.
    #[must_use]
    pub fn process_out(&self) -> (bytes: &[u8])
        ensures
            bytes@ == self@.process_out,
    {
        &self.process_out
    }

    /// What the device presents as process data in from now on.
    pub fn set_process_in(&mut self, bytes: &[u8])
        ensures
            final(self)@ == (DeviceView { process_in: bytes@, ..old(self)@ }),
    {
        self.process_in = copy(bytes);
    }

    /// The device's answer to one master message.
    pub fn answer(&mut self, master: &MasterMessage) -> (answer: DeviceMessage)
        requires
            old(self)@.well_formed(),
            master@.channel is Page && !master@.read ==> master@.address <= 32,
        ensures
            (final(self)@, answer@) == old(self)@.answered(master@),
            final(self)@.well_formed(),
            answer@.on_request.len() == master@.wanted(),
    {
        if !master.process_out.is_empty() {
            self.process_out = copy(&master.process_out);
        }
        let want: usize = if master.read {
            master.kind.on_request()
        } else {
            0
        };
        let on_request = match master.channel {
            Channel::Page => self.page_channel(master, want),
            Channel::Isdu => self.isdu_channel(master, want),
            Channel::Process | Channel::Diagnosis => zero_bytes(want),
        };
        DeviceMessage {
            process_in: if matches!(master.kind, Kind::Type2) && !master.process_out.is_empty() {
                copy(&self.process_in)
            } else {
                Vec::new()
            },
            on_request,
            event: false,
            process_invalid: self.process_in.is_empty(),
        }
    }

    fn page_channel(&mut self, master: &MasterMessage, want: usize) -> (on_request: Vec<u8>)
        requires
            old(self)@.well_formed(),
            want == master@.wanted(),
            !master@.read ==> master@.address <= 32,
        ensures
            (final(self)@, on_request@) == old(self)@.page_channel(master@),
            final(self)@.well_formed(),
            on_request@.len() == want,
    {
        let at = master.address as usize;
        if master.read {
            let mut out: Vec<u8> = Vec::new();
            while out.len() < want
                invariant
                    out@.len() <= want <= 2,
                    at == master@.address,
                    forall|i: int| 0 <= i < out@.len() ==> out@[i] == self@.page[(at + i) % 32],
                    self@ == old(self)@,
                decreases want - out@.len(),
            {
                out.push(self.page[(at + out.len()) % 32]);
            }
            assert(out@ =~= self@.page_channel(master@).1);
            return out;
        }
        self.overlay(at, &master.on_request);
        Vec::new()
    }

    fn isdu_channel(&mut self, master: &MasterMessage, want: usize) -> (on_request: Vec<u8>)
        requires
            old(self)@.well_formed(),
            want == master@.wanted(),
        ensures
            (final(self)@, on_request@) == old(self)@.isdu_channel(master@),
            final(self)@.well_formed(),
            on_request@.len() == want,
    {
        if master.read {
            return self.isdu_read(master.address, want);
        }
        match master.address {
            isdu::START => {
                self.request.clear();
                self.response = None;
                append(&mut self.request, &master.on_request);
            },
            isdu::ABORT | isdu::IDLE => {
                self.request.clear();
                self.response = None;
                return Vec::new();
            },
            _ => {
                append(&mut self.request, &master.on_request);
            },
        }
        self.assemble();
        Vec::new()
    }

    fn assemble(&mut self)
        requires
            old(self)@.steady(),
        ensures
            final(self)@ == old(self)@.assembled(),
            final(self)@.well_formed(),
    {
        let length = match Isdu::length_of(&self.request) {
            Some(length) => length,
            None => return ,
        };
        if self.request.len() < length {
            return ;
        }
        self.request.truncate(length);
        let request = Isdu::decode(&self.request);
        let response = self.serve(request);
        self.response = Some(response.encode());
        self.response_at = 0;
        self.request.clear();
    }

    fn isdu_read(&mut self, address: u8, want: usize) -> (on_request: Vec<u8>)
        requires
            old(self)@.well_formed(),
            want <= 2,
        ensures
            (final(self)@, on_request@) == old(self)@.isdu_read(address, want as nat),
            final(self)@.well_formed(),
            on_request@.len() == want,
    {
        let response = match self.response.take() {
            Some(response) => response,
            None => {
                let mut busy: Vec<u8> = vec![isdu::BUSY];
                busy.resize(want, 0);
                assert(busy@ =~= chunk(seq![isdu::BUSY], 0, want as nat));
                return busy;
            },
        };
        if address == isdu::START {
            self.response_at = 0;
        }
        let at = self.response_at;
        self.response_at = at + want;
        let mut out: Vec<u8> = Vec::new();
        while out.len() < want
            invariant
                out@.len() <= want <= 2,
                at < response@.len() <= isdu::MAX_LENGTH,
                forall|i: int|
                    0 <= i < out@.len() ==> out@[i] == if at + i < response@.len() {
                        response@[at + i]
                    } else {
                        0u8
                    },
            decreases want - out@.len(),
        {
            let next = at + out.len();
            if next < response.len() {
                out.push(response[next]);
            } else {
                out.push(0);
            }
        }
        assert(out@ =~= chunk(response@, at as nat, want as nat));
        if self.response_at < response.len() {
            self.response = Some(response);
        }
        out
    }

    fn serve(&mut self, request: Result<Isdu, Error>) -> (response: Isdu)
        ensures
            (final(self)@, response@) == old(self)@.served(crate::error::viewed(request)),
            3 <= response@.length() <= isdu::MAX_LENGTH,
            response@.well_formed(),
    {
        let request = match request {
            Ok(request) => request,
            Err(_) => return negative(Service::WriteResponseNegative),
        };
        match request.service {
            Service::WriteRequest => {
                if self.parameter(request.index, request.subindex).is_none() {
                    return negative(Service::WriteResponseNegative);
                }
                self.hold(request.index, request.subindex, request.data);
                match Isdu::response(Service::WriteResponsePositive, &[]) {
                    Ok(response) => response,
                    Err(_) => negative(Service::WriteResponseNegative),
                }
            },
            Service::ReadRequest => match self.parameter(request.index, request.subindex) {
                Some(bytes) => match Isdu::response(Service::ReadResponsePositive, bytes) {
                    Ok(response) => response,
                    Err(_) => negative(Service::ReadResponseNegative),
                },
                None => negative(Service::ReadResponseNegative),
            },
            _ => negative(Service::WriteResponseNegative),
        }
    }
}

fn negative(service: Service) -> (response: Isdu)
    requires
        !service.is_request(),
    ensures
        response@ == not_available(service),
        response@.length() == 5,
        response@.well_formed(),
{
    let data = INDEX_NOT_AVAILABLE;
    assert(data@ =~= seq![0x80u8, 0x11u8]);
    match Isdu::response(service, &data) {
        Ok(response) => response,
        Err(_) => Isdu::read(0, 0),
    }
}

/// What is written on the page is read back from it, as far as the page goes.
pub proof fn law_page_reads_back(device: DeviceView, kind: Kind, address: u8, bytes: Seq<u8>)
    requires
        device.page.len() == 32,
        bytes.len() == kind.carries(),
        (address & 0x1f) + bytes.len() <= 32,
    ensures
        ({
            let write = MasterView::writing(kind, Channel::Page, address, bytes);
            let read = MasterView::reading(kind, Channel::Page, address);
            device.answered(write).0.answered(read).1.on_request == bytes
        }),
{
    let write = MasterView::writing(kind, Channel::Page, address, bytes);
    let read = MasterView::reading(kind, Channel::Page, address);
    crate::m_sequence::lemma_address_bits(address);
    assert(device.answered(write).0.answered(read).1.on_request =~= bytes);
}

/// `ABORT` and `IDLE` drop the request and the response: what is read next is
/// `BUSY`.
pub proof fn law_abort_leaves_nothing_to_read(
    device: DeviceView,
    abort: MasterView,
    read: MasterView,
)
    requires
        abort.channel is Isdu,
        !abort.read,
        abort.address == isdu::ABORT || abort.address == isdu::IDLE,
        read.channel is Isdu,
        read.read,
    ensures
        device.answered(abort).0.request.len() == 0,
        device.answered(abort).0.answered(read).1.on_request == chunk(
            seq![isdu::BUSY],
            0,
            read.wanted(),
        ),
{
}

/// `START` begins the response again: two reads under it, one after the
/// other, bring the same bytes, as long as there is more of it than one read
/// brings.
pub proof fn law_start_reads_from_the_beginning(device: DeviceView, read: MasterView)
    requires
        device.reply matches Some(reply) && reply.bytes.len() > read.wanted(),
        read.channel is Isdu,
        read.read,
        read.address == isdu::START,
    ensures
        device.answered(read).0.answered(read).1.on_request == device.answered(read).1.on_request,
{
}

/// Looking at the request adds and drops no parameter, and leaves the page and
/// the process data.
proof fn lemma_assembled_keeps_parameters(device: DeviceView)
    ensures
        device.assembled().parameters.dom() == device.parameters.dom(),
        device.assembled().page == device.page,
        device.assembled().process_in == device.process_in,
        device.assembled().process_out == device.process_out,
{
    assert(device.assembled().parameters.dom() =~= device.parameters.dom());
}

/// The channels are apart. No message adds or drops a parameter or touches
/// the process data in; only a write on the page channel touches the page;
/// only the ISDU channel touches parameters, request and response; and the
/// process data out is what came last.
pub proof fn law_channels_are_apart(device: DeviceView, master: MasterView)
    ensures
        ({
            let after = device.answered(master).0;
            &&& after.parameters.dom() == device.parameters.dom()
            &&& after.process_in == device.process_in
            &&& after.process_out == if master.process_out.len() > 0 {
                master.process_out
            } else {
                device.process_out
            }
            &&& !(master.channel is Page) || master.read ==> after.page == device.page
            &&& !(master.channel is Isdu) ==> {
                &&& after.parameters == device.parameters
                &&& after.request == device.request
                &&& after.reply == device.reply
            }
            &&& master.read ==> {
                &&& after.parameters == device.parameters
                &&& after.request == device.request
            }
        }),
{
    let cycled = if master.process_out.len() > 0 {
        DeviceView { process_out: master.process_out, ..device }
    } else {
        device
    };
    lemma_assembled_keeps_parameters(
        DeviceView { request: master.on_request, reply: None, ..cycled },
    );
    lemma_assembled_keeps_parameters(
        DeviceView { request: cycled.request + master.on_request, ..cycled },
    );
}

/// A request changes no parameter but the one it names, and that one only as
/// a write.
pub proof fn law_service_changes_only_what_it_names(
    device: DeviceView,
    request: IsduView,
    key: (u16, u8),
)
    requires
        key != (request.index, request.subindex) || !(request.service is WriteRequest),
    ensures
        ({
            let after = device.served(Ok::<IsduView, Error>(request)).0;
            &&& after.parameters.contains_key(key) == device.parameters.contains_key(key)
            &&& device.parameters.contains_key(key) ==> after.parameters[key]
                == device.parameters[key]
        }),
{
}

/// Every byte that is laid over a page lies there, as far as the page goes,
/// and every other byte of the page is as before.
pub proof fn law_every_byte_is_laid(page: Seq<u8>, at: int, bytes: Seq<u8>)
    requires
        0 <= at,
    ensures
        overlaid(page, at, bytes).len() == page.len(),
        forall|i: int|
            #![trigger bytes[i]]
            0 <= i < bytes.len() && at + i < page.len() ==> overlaid(page, at, bytes)[at + i]
                == bytes[i],
        forall|j: int|
            #![trigger overlaid(page, at, bytes)[j]]
            0 <= j < page.len() && !(at <= j < at + bytes.len()) ==> overlaid(page, at, bytes)[j]
                == page[j],
{
}

/// What a new device is: a page of 32 zeros, no parameter, as many zeros of
/// process data in as asked for, and nothing else.
pub proof fn law_fresh_device(process_in: nat)
    ensures
        ({
            let device = DeviceView::fresh(process_in);
            &&& device.page.len() == 32
            &&& forall|i: int| 0 <= i < 32 ==> #[trigger] device.page[i] == 0
            &&& forall|key: (u16, u8)| !#[trigger] device.parameters.contains_key(key)
            &&& device.process_in.len() == process_in
            &&& forall|i: int| 0 <= i < process_in ==> #[trigger] device.process_in[i] == 0
            &&& device.process_out.len() == 0
            &&& device.request.len() == 0
            &&& device.reply is None
        }),
{
}

/// The page channel: a read brings the bytes from the address on, going round
/// at the end of the page; a write lays its bytes from the address on, and
/// stops there.
pub proof fn law_page_channel(device: DeviceView, master: MasterView)
    requires
        device.page.len() == 32,
        master.channel is Page,
    ensures
        ({
            let (after, answer) = device.answered(master);
            if master.read {
                &&& after.page == device.page
                &&& answer.on_request.len() == if master.kind is Type1 {
                    2nat
                } else {
                    1nat
                }
                &&& forall|i: int|
                    0 <= i < answer.on_request.len() ==> #[trigger] answer.on_request[i]
                        == device.page[(master.address + i) % 32]
            } else {
                &&& answer.on_request.len() == 0
                &&& after.page.len() == 32
                &&& forall|j: int|
                    0 <= j < 32 ==> #[trigger] after.page[j] == if master.address <= j
                        < master.address + master.on_request.len() {
                        master.on_request[j - master.address]
                    } else {
                        device.page[j]
                    }
            }
        }),
{
}

/// Process data: that in comes beside that out in a type 2 message and in no
/// other, and is not valid where the device has none; that out is kept; and
/// what is read on the process and the diagnosis channel is zeros. No device
/// has an event.
pub proof fn law_process_data(device: DeviceView, master: MasterView)
    ensures
        ({
            let (after, answer) = device.answered(master);
            let wanted: nat = if !master.read {
                0
            } else if master.kind is Type1 {
                2
            } else {
                1
            };
            &&& master.wanted() == wanted
            &&& answer.process_in == if master.kind is Type2 && master.process_out.len() > 0 {
                device.process_in
            } else {
                seq![]
            }
            &&& answer.process_invalid == (device.process_in.len() == 0)
            &&& !answer.event
            &&& master.process_out.len() > 0 ==> after.process_out == master.process_out
            &&& answer.on_request.len() == wanted
            &&& master.channel is Process || master.channel is Diagnosis ==> forall|i: int|
                0 <= i < wanted ==> #[trigger] answer.on_request[i] == 0
        }),
{
}

/// What a device makes of a request: a parameter that it has is written and
/// the write confirmed, or read and its bytes answered, up to 232 of them;
/// everything else is refused with 0x80, 0x11, a read as a read and the rest as
/// a write, and changes nothing.
pub proof fn law_service(device: DeviceView, request: Result<IsduView, Error>)
    ensures
        ({
            let (after, response) = device.served(request);
            let refused = |service: Service|
                after == device && response.service == service && response.data.len() == 2
                    && response.data[0] == 0x80 && response.data[1] == 0x11;
            &&& response.index == 0
            &&& response.subindex == 0
            &&& match request {
                Err(_) => refused(Service::WriteResponseNegative),
                Ok(unit) => {
                    let key = (unit.index, unit.subindex);
                    match unit.service {
                        Service::WriteRequest => if device.parameters.contains_key(key) {
                            &&& response.service is WriteResponsePositive
                            &&& response.data.len() == 0
                            &&& after == (DeviceView { parameters: after.parameters, ..device })
                            &&& forall|other: (u16, u8)| #[trigger]
                                after.parameters.contains_key(other)
                                    <==> device.parameters.contains_key(other)
                            &&& after.parameters[key] == unit.data
                            &&& forall|other: (u16, u8)|
                                other != key && device.parameters.contains_key(other)
                                    ==> #[trigger] after.parameters[other]
                                    == device.parameters[other]
                        } else {
                            refused(Service::WriteResponseNegative)
                        },
                        Service::ReadRequest => if device.parameters.contains_key(key)
                            && device.parameters[key].len() <= 232 {
                            &&& after == device
                            &&& response.service is ReadResponsePositive
                            &&& response.data == device.parameters[key]
                        } else {
                            refused(Service::ReadResponseNegative)
                        },
                        _ => refused(Service::WriteResponseNegative),
                    }
                },
            }
        }),
{
}

/// Every device stays well-formed, whatever it is sent.
pub proof fn law_device_stays_well_formed(device: DeviceView, master: MasterView)
    requires
        device.well_formed(),
    ensures
        device.answered(master).0.well_formed(),
{
    let cycled = if master.process_out.len() > 0 {
        DeviceView { process_out: master.process_out, ..device }
    } else {
        device
    };
    lemma_assembled_is_well_formed(
        DeviceView { request: master.on_request, reply: None, ..cycled },
    );
    lemma_assembled_is_well_formed(
        DeviceView { request: cycled.request + master.on_request, ..cycled },
    );
}

proof fn lemma_assembled_is_well_formed(device: DeviceView)
    requires
        device.steady(),
    ensures
        device.assembled().well_formed(),
{
    if let Some(length) = isdu::named_length(device.request) {
        let request = IsduView::decoded(device.request.take(length as int));
        isdu::law_ceiling_keeps_the_longest(device.served(request).1);
    }
}

} // verus!
