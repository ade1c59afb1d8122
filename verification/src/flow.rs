//! The flow control of the ISDU channel as a device keeps it, over whole runs
//! of messages: a request may come in pieces of any size and under any counts,
//! and a response may be asked for in pieces of any size too.
use vstd::prelude::*;

use crate::device::{DeviceView, ReplyView};
use crate::error::Error;
use crate::isdu::IsduView;
use crate::m_sequence::MasterView;

verus! {

impl DeviceView {
    /// The device after `messages`, one after the other.
    pub open spec fn after_messages(self, messages: Seq<MasterView>) -> DeviceView
        decreases messages.len(),
    {
        if messages.len() == 0 {
            self
        } else {
            self.after_messages(messages.drop_last()).answered(messages.last()).0
        }
    }

    /// The on-request data of all the answers to `messages`, in a row.
    pub open spec fn read_by(self, messages: Seq<MasterView>) -> Seq<u8>
        decreases messages.len(),
    {
        if messages.len() == 0 {
            seq![]
        } else {
            self.read_by(messages.drop_last()) + self.after_messages(
                messages.drop_last(),
            ).answered(messages.last()).1.on_request
        }
    }
}

/// The on-request data of `messages`, in a row.
pub open spec fn written_by(messages: Seq<MasterView>) -> Seq<u8>
    decreases messages.len(),
{
    if messages.len() == 0 {
        seq![]
    } else {
        written_by(messages.drop_last()) + messages.last().on_request
    }
}

/// `messages` write on the ISDU channel: the first of them begins a request,
/// and the others go on with it.
pub open spec fn write_on(messages: Seq<MasterView>) -> bool {
    &&& messages.len() > 0
    &&& messages[0].address == 0x10
    &&& forall|i: int|
        0 <= i < messages.len() ==> (#[trigger] messages[i]).channel is Isdu && !messages[i].read
    &&& forall|i: int|
        1 <= i < messages.len() ==> {
            &&& (#[trigger] messages[i]).address != 0x10
            &&& messages[i].address != 0x11
            &&& messages[i].address != 0x1f
        }
}

/// `messages` read on the ISDU channel, and none but the first of them from
/// the beginning.
pub open spec fn read_on(messages: Seq<MasterView>) -> bool {
    &&& messages.len() > 0
    &&& forall|i: int|
        0 <= i < messages.len() ==> (#[trigger] messages[i]).channel is Isdu && messages[i].read
    &&& forall|i: int| 1 <= i < messages.len() ==> (#[trigger] messages[i]).address != 0x10
}

/// The length that the first two bytes of `bytes` name.
pub open spec fn length_named(bytes: Seq<u8>) -> nat {
    if bytes[0] % 16 == 1 {
        bytes[1] as nat
    } else {
        (bytes[0] % 16) as nat
    }
}

/// All of the unit that `bytes` begin is there.
pub open spec fn whole(bytes: Seq<u8>) -> bool {
    bytes.len() >= 2 && bytes.len() >= length_named(bytes)
}

proof fn lemma_write_on(messages: Seq<MasterView>)
    requires
        write_on(messages),
        messages.len() > 1,
    ensures
        write_on(messages.drop_last()),
{
    let before = messages.drop_last();
    assert forall|i: int| 0 <= i < before.len() implies (#[trigger] before[i]).channel is Isdu
        && !before[i].read by {
        assert(before[i] == messages[i]);
    }
    assert forall|i: int| 1 <= i < before.len() implies (#[trigger] before[i]).address != 0x10
        && before[i].address != 0x11 && before[i].address != 0x1f by {
        assert(before[i] == messages[i]);
    }
}

proof fn lemma_part_of_a_part(messages: Seq<MasterView>)
    requires
        messages.len() > 0,
        !whole(written_by(messages)),
    ensures
        !whole(written_by(messages.drop_last())),
{
    let less = written_by(messages.drop_last());
    let more = written_by(messages);
    assert(more.len() >= less.len());
    if less.len() >= 2 {
        assert(more[0] == less[0]);
        assert(more[1] == less[1]);
    }
}

/// As long as something of the request is still to come, a device keeps what
/// there is of it, has nothing to answer, and has changed nothing else.
pub proof fn law_request_is_kept(device: DeviceView, messages: Seq<MasterView>)
    requires
        write_on(messages),
        !whole(written_by(messages)),
    ensures
        ({
            let after = device.after_messages(messages);
            &&& after.request == written_by(messages)
            &&& after.reply is None
            &&& after.parameters == device.parameters
            &&& after.page == device.page
            &&& after.process_in == device.process_in
        }),
    decreases messages.len(),
{
    let before = messages.drop_last();
    let last = messages.last();
    let bytes = written_by(messages);
    assert(last == messages[messages.len() - 1]);
    crate::wire::law_length_is_named(bytes);
    if messages.len() == 1 {
        assert(written_by(before) =~= seq![]);
        assert(bytes =~= last.on_request);
        assert(device.after_messages(before) == device);
    } else {
        lemma_write_on(messages);
        lemma_part_of_a_part(messages);
        law_request_is_kept(device, before);
    }
}

/// However a request comes, a byte or two at a time and in the short form as
/// in the extended, it is served once, with its last byte: as the unit that its
/// bytes decode to, or as none where they decode to none. What came beyond its
/// length is dropped, and its response waits to be read.
pub proof fn law_request_is_served_when_whole(device: DeviceView, messages: Seq<MasterView>)
    requires
        write_on(messages),
        whole(written_by(messages)),
        !whole(written_by(messages.drop_last())),
    ensures
        ({
            let after = device.after_messages(messages);
            let bytes = written_by(messages);
            let (served, response) = device.served(
                IsduView::decoded(bytes.take(length_named(bytes) as int)),
            );
            &&& after.parameters == served.parameters
            &&& after.reply == Some(ReplyView { bytes: response.encoded(), at: 0 })
            &&& after.request.len() == 0
            &&& after.page == device.page
            &&& after.process_in == device.process_in
        }),
{
    let before = messages.drop_last();
    let last = messages.last();
    let bytes = written_by(messages);
    assert(last == messages[messages.len() - 1]);
    crate::wire::law_length_is_named(bytes);
    if messages.len() == 1 {
        assert(written_by(before) =~= seq![]);
        assert(bytes =~= last.on_request);
        assert(device.after_messages(before) == device);
    } else {
        lemma_write_on(messages);
        law_request_is_kept(device, before);
    }
}

/// With no response waiting, every read on the ISDU channel brings 0x01 and
/// then zeros, and leaves the device as it was.
pub proof fn law_nothing_to_read_is_busy(device: DeviceView, read: MasterView)
    requires
        device.reply is None,
        read.channel is Isdu,
        read.read,
    ensures
        ({
            let (after, answer) = device.answered(read);
            &&& after.reply is None
            &&& after.request == device.request
            &&& after.parameters == device.parameters
            &&& answer.on_request.len() == if read.kind is Type1 {
                2nat
            } else {
                1nat
            }
            &&& answer.on_request[0] == 0x01
            &&& answer.on_request.len() == 2 ==> answer.on_request[1] == 0x00
        }),
{
}

/// A write under 0x1f or 0x11 drops the request and the response, and changes
/// no parameter.
pub proof fn law_abort_drops_both(device: DeviceView, abort: MasterView)
    requires
        abort.channel is Isdu,
        !abort.read,
        abort.address == 0x1f || abort.address == 0x11,
    ensures
        ({
            let after = device.answered(abort).0;
            &&& after.request.len() == 0
            &&& after.reply is None
            &&& after.parameters == device.parameters
            &&& after.page == device.page
        }),
{
}

/// However a response is asked for, a byte or two at a time, its bytes come in
/// their order, from the first where the reading begins with 0x10 and from
/// where it stood otherwise, and zeros where they end; with the last of them it
/// is gone, and until then it waits.
pub proof fn law_response_is_handed_over(
    device: DeviceView,
    messages: Seq<MasterView>,
    reply: ReplyView,
)
    requires
        device.reply == Some(reply),
        reply.at < reply.bytes.len(),
        read_on(messages),
        (if messages[0].address == 0x10 {
            0
        } else {
            reply.at
        }) + device.read_by(messages.drop_last()).len() < reply.bytes.len(),
    ensures
        ({
            let after = device.after_messages(messages);
            let got = device.read_by(messages);
            let from: nat = if messages[0].address == 0x10 {
                0
            } else {
                reply.at
            };
            &&& forall|i: int|
                0 <= i < got.len() ==> #[trigger] got[i] == if from + i < reply.bytes.len() {
                    reply.bytes[from + i]
                } else {
                    0u8
                }
            &&& got.len() == device.read_by(messages.drop_last()).len() + (
            if messages.last().kind is Type1 {
                2int
            } else {
                1int
            })
            &&& after.reply == if from + got.len() < reply.bytes.len() {
                Some(ReplyView { bytes: reply.bytes, at: from + got.len() })
            } else {
                None
            }
            &&& after.request == device.request
            &&& after.parameters == device.parameters
        }),
    decreases messages.len(),
{
    let before = messages.drop_last();
    let last = messages.last();
    assert(last == messages[messages.len() - 1]);
    if messages.len() == 1 {
        assert(device.after_messages(before) == device);
        assert(device.read_by(before) =~= seq![]);
    } else {
        assert forall|i: int| 0 <= i < before.len() implies (#[trigger] before[i]).channel is Isdu
            && before[i].read by {
            assert(before[i] == messages[i]);
        }
        assert forall|i: int| 1 <= i < before.len() implies (#[trigger] before[i]).address
            != 0x10 by {
            assert(before[i] == messages[i]);
        }
        let less = device.read_by(before.drop_last());
        assert(device.read_by(before).len() >= less.len());
        law_response_is_handed_over(device, before, reply);
    }
}

/// What one write on the ISDU channel does to any device: under 0x10 its bytes
/// begin a request and drop a response, under 0x11 and 0x1f both are dropped,
/// and under any other address its bytes are added to the request and a
/// response stays. As soon as the request is whole it is served and answered;
/// until then nothing else changes.
pub proof fn law_one_write(device: DeviceView, write: MasterView)
    requires
        write.channel is Isdu,
        !write.read,
    ensures
        ({
            let (after, answer) = device.answered(write);
            let bytes = if write.address == 0x10 {
                write.on_request
            } else {
                device.request + write.on_request
            };
            let (served, response) = device.served(
                IsduView::decoded(bytes.take(length_named(bytes) as int)),
            );
            &&& answer.on_request.len() == 0
            &&& after.page == device.page
            &&& after.process_in == device.process_in
            &&& if write.address == 0x11 || write.address == 0x1f {
                &&& after.request.len() == 0
                &&& after.reply is None
                &&& after.parameters == device.parameters
            } else if whole(bytes) {
                &&& after.request.len() == 0
                &&& after.reply == Some(ReplyView { bytes: response.encoded(), at: 0 })
                &&& after.parameters == served.parameters
            } else {
                &&& after.request == bytes
                &&& after.reply == if write.address == 0x10 {
                    None
                } else {
                    device.reply
                }
                &&& after.parameters == device.parameters
            }
        }),
{
    crate::wire::law_length_is_named(write.on_request);
    crate::wire::law_length_is_named(device.request + write.on_request);
}

} // verus!
