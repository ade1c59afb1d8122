use std::time::Duration;

use iolink::isdu::{Isdu, Service, BUSY, DATA_MAX, START};
use iolink::m_sequence::{Channel, DeviceMessage, Kind, MasterMessage};
use iolink::{Device, Error, IoLinkTransport, Step, Transfer};

/// The shapes a protocol breaks on, cut to the ceiling where they are longer.
fn edge_payloads() -> Vec<(&'static str, Vec<u8>)> {
    vec![
        ("empty", Vec::new()),
        ("one byte", vec![0x2a]),
        (
            "every byte",
            (0..DATA_MAX)
                .map(|n| u8::try_from(n).unwrap_or(0))
                .collect(),
        ),
        ("nul run", vec![0; DATA_MAX]),
        ("high bytes", vec![0xff; DATA_MAX]),
        ("crlf storm", b"\r\n".repeat(DATA_MAX / 2)),
    ]
}

#[test]
fn a_loopback_round_writes_a_parameter_as_one_isdu_and_reads_it_back() {
    let mut loopback = IoLinkTransport::loopback();
    let arrived = loopback.round(b"one ISDU").expect("round");
    assert_eq!(arrived.bytes, b"one ISDU");
    assert_eq!(arrived.origin_uri, "iolink://loopback/0x0100/0");
    assert_eq!(loopback.ceiling(), Some(232));
    assert_eq!(loopback.name(), "io-link");
}

#[test]
fn the_loopback_returns_the_edges_whole_and_refuses_over_the_brim() {
    let mut loopback = IoLinkTransport::loopback();
    for (name, bytes) in edge_payloads() {
        let arrived = loopback
            .round(&bytes)
            .unwrap_or_else(|error| panic!("{name}: {}", error.message()));
        assert_eq!(arrived.bytes, bytes, "{name}");
    }
    let error = loopback
        .round(&[0; DATA_MAX + 1])
        .expect_err("over the brim");
    assert!(
        error.message().contains("over the 232"),
        "{}",
        error.message()
    );
}

#[test]
fn a_target_names_the_parameter_and_a_missing_one_is_refused() {
    let device = Device::new(2)
        .with_parameter(0x0200, 1, vec![0])
        .with_page(0x07, &[0x01, 0x23]);
    let mut master = IoLinkTransport::new("serial://loopback")
        .attached(device)
        .with_process_in(2)
        .timing_out_after(Duration::from_millis(100).as_nanos());
    master
        .send("iolink://loopback/0x0200/1", &[1, 2, 3])
        .expect("another parameter");
    let mut master = master.about(0x0200, 1);
    assert_eq!(master.receive().expect("read")[0].bytes, [1, 2, 3]);
    master.send("0x0200/1", &[]).expect("bare target, empty");
    assert!(master.receive().expect("read")[0].bytes.is_empty());
    let mut master = master.about(0x0100, 0);
    let error = master.send("", b"x").expect_err("no such parameter");
    assert!(
        error.message().contains("WriteResponseNegative"),
        "{}",
        error.message()
    );
    assert!(master.receive().is_err(), "no such parameter to read");
    assert!(master.send("0200/1", b"x").is_err(), "not hex");
    assert_eq!(master.read_page(0x08).expect("page"), 0x23);
    assert_eq!(master.cycle(&[9, 9]).expect("cycle"), [0, 0]);
}

#[test]
fn a_port_with_no_device_in_process_has_no_far_end() {
    let mut master = IoLinkTransport::new("serial://loopback");
    assert!(master.far_end().is_err());
    assert!(master.receive().is_err(), "nobody answers an ISDU");
}

#[test]
fn nobody_on_the_line_is_nothing_off_it() {
    let mut master = IoLinkTransport::new("serial://loopback");
    assert_eq!(master.far_end(), Err(Error::NoDevice));
    assert_eq!(master.round(b"x"), Err(Error::NoDevice));
    assert_eq!(master.receive(), Err(Error::NothingArrived));
    assert_eq!(master.read_page(0), Err(Error::NothingArrived));
    assert_eq!(master.cycle(&[1]), Err(Error::NothingArrived));
    assert_eq!(
        master.send("", &[0; DATA_MAX + 1]),
        Err(Error::DataOverCeiling {
            length: 233,
            ceiling: 232
        })
    );
}

#[test]
fn a_negative_answer_says_what_was_refused() {
    let mut master = IoLinkTransport::new("serial://loopback").attached(Device::new(0));
    assert_eq!(
        master.read_parameter(1, 2),
        Err(Error::Refused {
            service: Service::ReadResponseNegative,
            data: vec![0x80, 0x11]
        })
    );
    let error = master.write_parameter(1, 2, &[]).expect_err("missing");
    assert_eq!(
        error.message(),
        "the device answered WriteResponseNegative with [80, 11]"
    );
    assert_eq!(master.cycle(&[]), Err(Error::ProcessInvalid));
}

#[test]
fn a_cycle_wants_the_process_data_it_was_told_of() {
    let mut master = IoLinkTransport::new("serial://loopback")
        .attached(Device::new(3))
        .with_process_in(2);
    assert_eq!(master.cycle(&[1]), Err(Error::NothingArrived));
    assert_eq!(master.cycle(&[]), Ok(Vec::new()));
    let mut master = master.with_process_in(3);
    assert_eq!(master.cycle(&[1]), Ok(vec![0, 0, 0]));
}

#[test]
fn a_message_that_is_not_one_is_refused_by_the_device() {
    let mut master = IoLinkTransport::new("serial://loopback").attached(Device::new(0));
    let mut message = MasterMessage::read(Kind::Type0, Channel::Page, 1);
    message.on_request = vec![1, 2, 3];
    assert_eq!(master.exchange(&message), Err(Error::MasterLength));
}

#[test]
fn an_exchange_is_the_answer_for_every_type() {
    let mut device = Device::new(2).with_page(0, &[5, 6]);
    device.set_process_in(&[7, 8]);
    let mut master = IoLinkTransport::new("serial://loopback")
        .attached(device)
        .with_process_in(2);
    for kind in [Kind::Type0, Kind::Type1, Kind::Type2] {
        let message = MasterMessage::read(kind, Channel::Page, 0).with_process(&[1]);
        let answer = master.exchange(&message).expect("answer");
        assert_eq!(answer.process_in.is_empty(), kind != Kind::Type2);
        assert_eq!(answer.on_request, [5, 6][..kind.on_request()]);
    }
}

#[test]
fn a_write_leaves_the_other_parameters() {
    let device = Device::new(0)
        .with_parameter(1, 0, vec![1])
        .with_parameter(1, 1, vec![2]);
    let mut master = IoLinkTransport::new("serial://loopback").attached(device);
    master.write_parameter(1, 1, &[3, 3, 3]).expect("write");
    assert_eq!(master.read_parameter(1, 0), Ok(vec![1]));
    assert_eq!(master.read_parameter(1, 1), Ok(vec![3, 3, 3]));
}

#[test]
fn an_origin_names_the_port_and_the_parameter() {
    let master = IoLinkTransport::new("serial://COM3?baud=230400");
    assert_eq!(master.origin(0x01ab, 255), "iolink://COM3/0x01ab/255");
    assert_eq!(master.origin(0xffff, 10), "iolink://COM3/0xffff/10");
    assert_eq!(
        master.resolve("iolink://COM3/0x01ab/255"),
        Ok((0x01ab, 255))
    );
    let bare = IoLinkTransport::new("COM4");
    assert_eq!(bare.origin(0, 0), "iolink://COM4/0x0000/0");
}

#[test]
fn a_target_is_an_origin_a_parameter_or_nothing() {
    let master = IoLinkTransport::new("serial://loopback").about(7, 8);
    assert_eq!(master.resolve(""), Ok((7, 8)));
    assert_eq!(master.resolve("0xFf/9"), Ok((255, 9)));
    assert_eq!(master.resolve("0x+1/+2"), Ok((1, 2)));
    assert_eq!(master.resolve("0x00001/002"), Ok((1, 2)));
    for bad in [
        "0x10000/0",
        "0x1/256",
        "0x/1",
        "0x1/",
        "0x1",
        "1/1",
        "0X1/1",
        "0xg/1",
        "0x1/1/1",
        "0x1/-1",
        "0x1/ 1",
        "0x\u{e9}/1",
        "iolink://port/0200/1",
        "port/0x1/1",
    ] {
        assert_eq!(
            master.resolve(bad),
            Err(Error::Target {
                target: String::from(bad)
            }),
            "{bad}"
        );
    }
}

#[test]
fn a_target_resolves_by_what_follows_its_port() {
    let master = IoLinkTransport::new("serial://loopback").about(7, 8);
    assert_eq!(master.resolve_after("t", Some("")), Ok((7, 8)));
    assert_eq!(master.resolve_after("t", Some("0x0200/1")), Ok((0x0200, 1)));
    assert_eq!(
        master.resolve_after("t", Some("dev/ttyS0/0x0200/1")),
        Ok((0x0200, 1))
    );
    assert_eq!(master.resolve_after("0x0200/1", None), Ok((0x0200, 1)));
    assert_eq!(master.resolve_after("", None), Ok((7, 8)));
    let error = master
        .resolve_after("iolink://p/0x1", Some("0x1"))
        .expect_err("no subindex");
    assert_eq!(
        error.message(),
        "\"iolink://p/0x1\" is not 0x<index>/<sub>"
    );
}

#[test]
fn an_origin_is_a_target_whatever_the_port() {
    let device = Device::new(0).with_parameter(0x0100, 0, Vec::new());
    let mut master = IoLinkTransport::new("serial:///dev/ttyS0").attached(device);
    assert_eq!(
        master.far_end().expect("far end"),
        "iolink:///dev/ttyS0/0x0100/0"
    );
    assert_eq!(
        master.resolve("iolink:///dev/ttyS0/0x01ab/9"),
        Ok((0x01ab, 9))
    );
    let arrived = master.round(b"x").expect("round");
    assert_eq!(arrived.bytes, b"x");
    assert_eq!(arrived.origin_uri, "iolink:///dev/ttyS0/0x0100/0");
    for line in ["serial://a/b/c?baud=1", "", "serial:///", "0x1/2"] {
        let port = IoLinkTransport::new(line);
        assert_eq!(port.resolve(&port.origin(3, 4)), Ok((3, 4)), "{line}");
    }
}

fn answer(on_request: &[u8]) -> DeviceMessage {
    DeviceMessage {
        process_in: Vec::new(),
        on_request: on_request.to_vec(),
        event: false,
        process_invalid: true,
    }
}

fn sent(step: Step) -> MasterMessage {
    match step {
        Step::Send(message) => message,
        Step::Finished(_) => panic!("over too soon"),
    }
}

fn finished(step: Step) -> Result<Isdu, Error> {
    match step {
        Step::Send(_) => panic!("not over yet"),
        Step::Finished(result) => result,
    }
}

#[test]
fn a_transfer_sends_the_request_under_a_cycling_count() {
    let request = Isdu::write(0x0100, 0, &[5; 40]).expect("w");
    let bytes = request.encode();
    let (mut transfer, first) = Transfer::start(&request, 0);
    assert_eq!(first.address, START);
    let mut message = first;
    let mut heard = Vec::new();
    let mut count = 0u8;
    while !message.read {
        if count > 0 {
            assert_eq!(message.address, count % 16);
        }
        heard.extend_from_slice(&message.on_request);
        message = sent(transfer.step(&answer(&[]), 0));
        count += 1;
    }
    assert_eq!(heard, bytes);
    assert_eq!(message.address, START);
}

#[test]
fn a_busy_device_is_asked_again_until_the_deadline() {
    let request = Isdu::read(1, 0);
    let (mut transfer, _) = Transfer::start(&request, 100);
    for _ in 0..3 {
        sent(transfer.step(&answer(&[]), 0));
    }
    let again = sent(transfer.step(&answer(&[BUSY, 0]), 99));
    assert!(again.read);
    assert_eq!(again.address, START);
    assert_eq!(
        finished(transfer.step(&answer(&[BUSY, 0]), 100)),
        Err(Error::StayedBusy)
    );
}

#[test]
fn a_response_is_gathered_two_bytes_at_a_time() {
    let request = Isdu::read(1, 0);
    let response = Isdu::response(Service::ReadResponsePositive, &[1, 2]).expect("r");
    let bytes = response.encode();
    let (mut transfer, _) = Transfer::start(&request, 0);
    for _ in 0..3 {
        sent(transfer.step(&answer(&[]), 0));
    }
    let more = sent(transfer.step(&answer(&bytes[..2]), 0));
    assert_eq!(more.address, 0);
    let more = sent(transfer.step(&answer(&bytes[2..4]), 0));
    assert_eq!(more.address, 1);
    assert_eq!(
        finished(transfer.step(&answer(&[bytes[4], 0]), 0)),
        Ok(response)
    );
}

#[test]
fn an_answer_that_names_no_length_is_cut_short() {
    let (mut transfer, _) = Transfer::start(&Isdu::read(1, 0), 0);
    for _ in 0..3 {
        sent(transfer.step(&answer(&[]), 0));
    }
    assert_eq!(
        finished(transfer.step(&answer(&[]), 0)),
        Err(Error::IsduCutShort)
    );
}

#[test]
fn the_parts_of_an_exchange_make_the_whole() {
    let mut device = Device::new(1);
    device.set_process_in(&[6]);
    let port = IoLinkTransport::new("serial://COM1").with_process_in(1);
    let message = iolink::transport::cycle_request(&[4, 5]);
    let heard = message.encode();
    let bytes = device.hear(&heard, 2).expect("heard");
    assert_eq!(bytes.len(), port.reply_length(&message));
    let reply = port.take_reply(&message, &bytes).expect("reply");
    assert_eq!(iolink::transport::process_data(reply), Ok(vec![6]));
    assert_eq!(device.process_out(), [4, 5]);
    let page = iolink::transport::page_request(3);
    assert_eq!(port.reply_length(&page), 2);
    assert_eq!(
        iolink::transport::page_byte(&answer(&[])),
        Err(Error::PageByteMissing)
    );
}

#[test]
fn what_is_read_back_is_held_against_what_was_written() {
    read_back_gives(&[], &[], Ok(()));
    read_back_gives(&[1, 2], &[1, 2], Ok(()));
    read_back_gives(&[1, 2], &[1, 3], Err(Error::ReadBackDiffers));
    read_back_gives(&[1], &[1, 2], Err(Error::ReadBackDiffers));
}

fn read_back_gives(bytes: &[u8], payload: &[u8], expected: Result<(), Error>) {
    assert_eq!(iolink::transport::read_back(bytes, payload), expected);
}
