//! What can be refused, and why.
use vstd::prelude::*;
use vstd::string::StringExecFns;

use crate::isdu::Service;
use crate::text::{push_decimal, push_hex, quote};

verus! {

/// Everything this crate refuses.
#[derive(Clone, Debug, PartialEq, Eq)]
pub enum Error {
    /// On-request data to write that is not the M-sequence type's count.
    OnRequestCount { given: usize, carried: usize },
    /// A master message shorter than two bytes.
    MasterShort,
    /// A master message whose checksum does not match.
    MasterChecksum,
    /// M-sequence type 3, which is reserved.
    TypeReserved,
    /// A master message that is not its type's length.
    MasterLength,
    /// An empty device message.
    DeviceEmpty,
    /// A device message whose checksum does not match.
    DeviceChecksum,
    /// A device message shorter than its process data.
    DeviceShort,
    /// More data than one ISDU carries.
    DataOverCeiling { length: usize, ceiling: usize },
    /// An ISDU cut short before its length.
    IsduCutShort,
    /// An ISDU whose length is not its bytes.
    IsduLength,
    /// An ISDU whose checksum is not zero.
    IsduChecksum,
    /// An I-Service that is not spoken here.
    ServiceUnknown { nibble: u8 },
    /// A request without its index.
    IndexMissing,
    /// A page read answered with no byte.
    PageByteMissing,
    /// Process data that the device says is not valid.
    ProcessInvalid,
    /// A device that stayed busy past the deadline.
    StayedBusy,
    /// A device that answered with another service than the positive response.
    Refused { service: Service, data: Vec<u8> },
    /// A target that is not `0x<index>/<sub>`.
    Target { target: String },
    /// Nothing came off the line.
    NothingArrived,
    /// A port with no device attached in-process.
    NoDevice,
    /// Written, but what was read back differs.
    ReadBackDiffers,
}

/// A result with the view of its value in the value's place.
pub open spec fn viewed<T: View>(result: Result<T, Error>) -> Result<T::V, Error> {
    match result {
        Ok(value) => Ok(value@),
        Err(error) => Err(error),
    }
}

/// The name of a service.
pub open spec fn service_name(service: Service) -> Seq<char> {
    match service {
        Service::WriteRequest => "WriteRequest"@,
        Service::WriteResponseNegative => "WriteResponseNegative"@,
        Service::WriteResponsePositive => "WriteResponsePositive"@,
        Service::ReadRequest => "ReadRequest"@,
        Service::ReadResponseNegative => "ReadResponseNegative"@,
        Service::ReadResponsePositive => "ReadResponsePositive"@,
    }
}

/// `data` as two hexadecimal digits a byte, a comma and a space between them.
pub open spec fn hex_list(data: Seq<u8>) -> Seq<char>
    decreases data.len(),
{
    if data.len() == 0 {
        seq![]
    } else if data.len() == 1 {
        crate::text::hex(data[0] as nat, 2)
    } else {
        hex_list(data.drop_last()) + ", "@ + crate::text::hex(data.last() as nat, 2)
    }
}

/// The refusal of a target, given the target in quotes.
pub open spec fn no_target(quoted: Seq<char>) -> Seq<char> {
    quoted + " is not 0x<index>/<sub>"@
}

/// The refusal of a target, given the target in quotes.
pub fn no_target_message(quoted: &str) -> (out: String)
    ensures
        out@ == no_target(quoted@),
{
    let mut out = String::from_str(quoted);
    out.append(" is not 0x<index>/<sub>");
    out
}

impl Error {
    /// This is the refusal of `target`.
    pub open spec fn refuses_target(self, target: Seq<char>) -> bool {
        self matches Error::Target { target: refused } && refused@ == target
    }

    /// What was refused, in words.
    pub open spec fn text(self) -> Seq<char> {
        match self {
            Error::OnRequestCount { given, carried } => crate::text::decimal(given as nat)
                + " on-request bytes on a type carrying "@ + crate::text::decimal(carried as nat),
            Error::DataOverCeiling { length, ceiling } => crate::text::decimal(length as nat)
                + " bytes is over the "@ + crate::text::decimal(ceiling as nat)
                + " one ISDU carries"@,
            Error::ServiceUnknown { nibble } => "I-Service 0x"@ + crate::text::hex(
                nibble as nat,
                if nibble < 16 {
                    1
                } else {
                    2
                },
            ) + " is not one this transport speaks"@,
            Error::Refused { service, data } => "the device answered "@ + service_name(service)
                + " with ["@ + hex_list(data@) + "]"@,
            Error::MasterShort => "a master message shorter than two bytes"@,
            Error::MasterChecksum => "a master message whose checksum does not match"@,
            Error::TypeReserved => "M-sequence type 3 is reserved"@,
            Error::MasterLength => "a master message that is not its type's length"@,
            Error::DeviceEmpty => "an empty device message"@,
            Error::DeviceChecksum => "a device message whose checksum does not match"@,
            Error::DeviceShort => "a device message shorter than its process data"@,
            Error::IsduCutShort => "an ISDU cut short"@,
            Error::IsduLength => "an ISDU whose length is not its bytes"@,
            Error::IsduChecksum => "an ISDU whose checksum is not zero"@,
            Error::IndexMissing => "a request without its index"@,
            Error::PageByteMissing => "a page read answered with no byte"@,
            Error::ProcessInvalid => "the device says its process data is not valid"@,
            Error::StayedBusy => "the device stayed busy past the deadline"@,
            Error::Target { target } => no_target(crate::text::quoted(target@)),
            Error::NothingArrived => "nothing came off the line"@,
            Error::NoDevice => "a port with no device attached in-process"@,
            Error::ReadBackDiffers => "written, but what was read back differs"@,
        }
    }

    /// What was refused, in words.
    pub fn message(&self) -> (out: String)
        ensures
            out@ == self.text(),
    {
        let mut out = String::new();
        match self {
            Error::OnRequestCount { given, carried } => {
                push_decimal(&mut out, *given);
                out.append(" on-request bytes on a type carrying ");
                push_decimal(&mut out, *carried);
            },
            Error::DataOverCeiling { length, ceiling } => {
                push_decimal(&mut out, *length);
                out.append(" bytes is over the ");
                push_decimal(&mut out, *ceiling);
                out.append(" one ISDU carries");
            },
            Error::ServiceUnknown { nibble } => {
                out.append("I-Service 0x");
                let width: u8 = if *nibble < 16 {
                    1
                } else {
                    2
                };
                push_hex(&mut out, *nibble as u16, width);
                out.append(" is not one this transport speaks");
            },
            Error::Refused { service, data } => {
                out.append("the device answered ");
                push_service(&mut out, *service);
                out.append(" with [");
                push_hex_list(&mut out, data);
                out.append("]");
            },
            Error::MasterShort => out.append("a master message shorter than two bytes"),
            Error::MasterChecksum => out.append("a master message whose checksum does not match"),
            Error::TypeReserved => out.append("M-sequence type 3 is reserved"),
            Error::MasterLength => out.append("a master message that is not its type's length"),
            Error::DeviceEmpty => out.append("an empty device message"),
            Error::DeviceChecksum => out.append("a device message whose checksum does not match"),
            Error::DeviceShort => out.append("a device message shorter than its process data"),
            Error::IsduCutShort => out.append("an ISDU cut short"),
            Error::IsduLength => out.append("an ISDU whose length is not its bytes"),
            Error::IsduChecksum => out.append("an ISDU whose checksum is not zero"),
            Error::IndexMissing => out.append("a request without its index"),
            Error::PageByteMissing => out.append("a page read answered with no byte"),
            Error::ProcessInvalid => out.append("the device says its process data is not valid"),
            Error::StayedBusy => out.append("the device stayed busy past the deadline"),
            Error::Target { target } => {
                let quoted = quote(target.as_str());
                out = no_target_message(quoted.as_str());
            },
            Error::NothingArrived => out.append("nothing came off the line"),
            Error::NoDevice => out.append("a port with no device attached in-process"),
            Error::ReadBackDiffers => out.append("written, but what was read back differs"),
        }
        assert(out@ =~= self.text());
        out
    }
}

fn push_service(out: &mut String, service: Service)
    ensures
        final(out)@ == old(out)@ + service_name(service),
{
    match service {
        Service::WriteRequest => out.append("WriteRequest"),
        Service::WriteResponseNegative => out.append("WriteResponseNegative"),
        Service::WriteResponsePositive => out.append("WriteResponsePositive"),
        Service::ReadRequest => out.append("ReadRequest"),
        Service::ReadResponseNegative => out.append("ReadResponseNegative"),
        Service::ReadResponsePositive => out.append("ReadResponsePositive"),
    }
}

fn push_hex_list(out: &mut String, data: &[u8])
    ensures
        final(out)@ == old(out)@ + hex_list(data@),
{
    let mut at: usize = 0;
    while at < data.len()
        invariant
            at <= data@.len(),
            out@ == old(out)@ + hex_list(data@.take(at as int)),
        decreases data@.len() - at,
    {
        if at > 0 {
            out.append(", ");
        }
        push_hex(out, data[at] as u16, 2);
        assert(data@.take(at + 1).drop_last() =~= data@.take(at as int));
        assert(out@ =~= old(out)@ + hex_list(data@.take(at + 1)));
        at += 1;
    }
    assert(data@.take(at as int) =~= data@);
}

/// From `at` on, `list` shows `byte` in two hexadecimal digits, the letters
/// small.
pub open spec fn shows(list: Seq<char>, at: int, byte: u8) -> bool {
    &&& 0 <= at
    &&& at + 2 <= list.len()
    &&& crate::text::digits_value(list.subrange(at, at + 2), 16) == Some(byte as nat)
    &&& '0' <= list[at] <= '9' || 'a' <= list[at] <= 'f'
    &&& '0' <= list[at + 1] <= '9' || 'a' <= list[at + 1] <= 'f'
}

/// A comma and a space stand behind the two digits of byte `i` in `list`.
pub open spec fn parted(list: Seq<char>, i: int) -> bool {
    &&& list[4 * i + 2] == ','
    &&& list[4 * i + 3] == ' '
}

/// What stands where in a list of bytes: two hexadecimal digits for each, and
/// a comma and a space between them.
pub proof fn law_list_layout(data: Seq<u8>)
    ensures
        data.len() == 0 ==> hex_list(data).len() == 0,
        data.len() > 0 ==> hex_list(data).len() == 4 * data.len() - 2,
        forall|i: int| 0 <= i < data.len() ==> shows(hex_list(data), 4 * i, #[trigger] data[i]),
        forall|i: int| 0 <= i < data.len() - 1 ==> #[trigger] parted(hex_list(data), i),
    decreases data.len(),
{
    if data.len() > 0 {
        let before = data.drop_last();
        let last = data.last();
        let count = before.len() as int;
        let digits = crate::text::hex(last as nat, 2);
        let list = hex_list(data);
        law_list_layout(before);
        reveal_strlit(", ");
        reveal_with_fuel(crate::text::hex_range, 3);
        crate::text::law_hex_reads_back(last as nat, 2);
        crate::text::law_hex_is_small(last as nat, 2);
        assert(list =~= if count == 0 {
            digits
        } else {
            hex_list(before) + ", "@ + digits
        });
        assert forall|i: int| 0 <= i < data.len() implies shows(
            list,
            4 * i,
            #[trigger] data[i],
        ) by {
            if i < count {
                assert(shows(hex_list(before), 4 * i, before[i]));
                assert(list.subrange(4 * i, 4 * i + 2) =~= hex_list(before).subrange(
                    4 * i,
                    4 * i + 2,
                ));
                assert(list[4 * i] == hex_list(before)[4 * i]);
                assert(list[4 * i + 1] == hex_list(before)[4 * i + 1]);
            } else {
                assert(list.subrange(4 * i, 4 * i + 2) =~= digits);
                assert(list[4 * i] == digits[0]);
                assert(list[4 * i + 1] == digits[1]);
            }
        }
        assert forall|i: int| 0 <= i < data.len() - 1 implies #[trigger] parted(list, i) by {
            if i < count - 1 {
                assert(parted(hex_list(before), i));
                assert(list[4 * i + 2] == hex_list(before)[4 * i + 2]);
                assert(list[4 * i + 3] == hex_list(before)[4 * i + 3]);
            } else {
                assert(list[4 * i + 2] == ", "@[0]);
                assert(list[4 * i + 3] == ", "@[1]);
            }
        }
    }
}

/// The name of a service says whether it is of a write or of a read, and
/// whether it is the request or one of the two responses.
pub proof fn law_service_names(service: Service)
    ensures
        service_name(service) == (if service.code() < 8 {
            "Write"@
        } else {
            "Read"@
        }) + (if service.code() % 8 == 3 {
            "Request"@
        } else if service.code() % 8 == 4 {
            "ResponseNegative"@
        } else {
            "ResponsePositive"@
        }),
{
    reveal_strlit("Write");
    reveal_strlit("Read");
    reveal_strlit("Request");
    reveal_strlit("ResponseNegative");
    reveal_strlit("ResponsePositive");
    reveal_strlit("WriteRequest");
    reveal_strlit("WriteResponseNegative");
    reveal_strlit("WriteResponsePositive");
    reveal_strlit("ReadRequest");
    reveal_strlit("ReadResponseNegative");
    reveal_strlit("ReadResponsePositive");
    assert(service_name(service) =~= (if service.code() < 8 {
        "Write"@
    } else {
        "Read"@
    }) + (if service.code() % 8 == 3 {
        "Request"@
    } else if service.code() % 8 == 4 {
        "ResponseNegative"@
    } else {
        "ResponsePositive"@
    }));
}

/// The words of a refusal hold what was refused: the numbers in decimal, the
/// nibble in as many hexadecimal digits as it needs, the service and the data
/// of an answer, and the target in quotes.
pub proof fn law_words_hold_what_was_refused(error: Error)
    ensures
        error matches Error::OnRequestCount { given, carried } ==> error.text()
            == crate::text::decimal(given as nat) + " on-request bytes on a type carrying "@
            + crate::text::decimal(carried as nat),
        error matches Error::DataOverCeiling { length, ceiling } ==> error.text()
            == crate::text::decimal(length as nat) + " bytes is over the "@ + crate::text::decimal(
            ceiling as nat,
        ) + " one ISDU carries"@,
        error matches Error::ServiceUnknown { nibble } ==> error.text() == "I-Service 0x"@
            + crate::text::hex(
            nibble as nat,
            (if nibble < 16 {
                1nat
            } else {
                2nat
            }),
        ) + " is not one this transport speaks"@,
        error matches Error::Refused { service, data } ==> error.text() == "the device answered "@
            + service_name(service) + " with ["@ + hex_list(data@) + "]"@,
        error matches Error::Target { target } ==> error.text() == crate::text::quoted(target@)
            + " is not 0x<index>/<sub>"@,
{
}

} // verus!
