use iolink::isdu::Service;
use iolink::Error;

#[test]
fn a_refusal_says_why() {
    let texts = [
        (
            Error::OnRequestCount {
                given: 20,
                carried: 1,
            },
            "20 on-request bytes on a type carrying 1",
        ),
        (
            Error::DataOverCeiling {
                length: 1000,
                ceiling: 232,
            },
            "1000 bytes is over the 232 one ISDU carries",
        ),
        (
            Error::ServiceUnknown { nibble: 0xe },
            "I-Service 0xe is not one this transport speaks",
        ),
        (
            Error::ServiceUnknown { nibble: 0 },
            "I-Service 0x0 is not one this transport speaks",
        ),
        (
            Error::ServiceUnknown { nibble: 0x91 },
            "I-Service 0x91 is not one this transport speaks",
        ),
        (
            Error::Refused {
                service: Service::ReadResponseNegative,
                data: vec![0x80, 0x0f, 0xff],
            },
            "the device answered ReadResponseNegative with [80, 0f, ff]",
        ),
        (
            Error::Refused {
                service: Service::WriteRequest,
                data: Vec::new(),
            },
            "the device answered WriteRequest with []",
        ),
        (
            Error::MasterShort,
            "a master message shorter than two bytes",
        ),
        (
            Error::MasterChecksum,
            "a master message whose checksum does not match",
        ),
        (Error::TypeReserved, "M-sequence type 3 is reserved"),
        (
            Error::MasterLength,
            "a master message that is not its type's length",
        ),
        (Error::DeviceEmpty, "an empty device message"),
        (
            Error::DeviceChecksum,
            "a device message whose checksum does not match",
        ),
        (
            Error::DeviceShort,
            "a device message shorter than its process data",
        ),
        (Error::IsduCutShort, "an ISDU cut short"),
        (Error::IsduLength, "an ISDU whose length is not its bytes"),
        (Error::IsduChecksum, "an ISDU whose checksum is not zero"),
        (Error::IndexMissing, "a request without its index"),
        (Error::PageByteMissing, "a page read answered with no byte"),
        (
            Error::ProcessInvalid,
            "the device says its process data is not valid",
        ),
        (
            Error::Target {
                target: String::from("0200/1"),
            },
            "\"0200/1\" is not 0x<index>/<sub>",
        ),
        (
            Error::Target {
                target: String::from("a\"b\\c\n"),
            },
            "\"a\\\"b\\\\c\\n\" is not 0x<index>/<sub>",
        ),
        (Error::NothingArrived, "nothing came off the line"),
        (Error::NoDevice, "a port with no device attached in-process"),
        (
            Error::StayedBusy,
            "the device stayed busy past the deadline",
        ),
        (
            Error::ReadBackDiffers,
            "written, but what was read back differs",
        ),
    ];
    for (error, text) in texts {
        assert_eq!(error.message(), text);
    }
}

#[test]
fn a_refused_target_stands_before_the_words() {
    assert_eq!(
        iolink::error::no_target_message("\"x\""),
        "\"x\" is not 0x<index>/<sub>"
    );
}
