use iolink::isdu::{self, Isdu, Service};
use iolink::m_sequence::{Channel, Kind, MasterMessage};
use iolink::Device;

#[test]
fn the_page_is_read_a_byte_at_a_time_and_written_the_same() {
    let mut device = Device::new(0).with_page(0x07, &[0x01, 0x23]);
    let answer = device.answer(&MasterMessage::read(Kind::Type0, Channel::Page, 0x08));
    assert_eq!(answer.on_request, [0x23]);
    assert!(answer.process_invalid, "no process data in");
    let write = MasterMessage::write(Kind::Type1, Channel::Page, 0x10, &[0xaa, 0xbb]).expect("w");
    assert!(device.answer(&write).on_request.is_empty());
    let back = device.answer(&MasterMessage::read(Kind::Type1, Channel::Page, 0x10));
    assert_eq!(back.on_request, [0xaa, 0xbb]);
}

#[test]
fn a_process_cycle_swaps_data_both_ways() {
    let mut device = Device::new(2);
    device.set_process_in(&[7, 8]);
    let cycle = MasterMessage::read(Kind::Type2, Channel::Process, 0).with_process(&[1, 2, 3]);
    let answer = device.answer(&cycle);
    assert_eq!(answer.process_in, [7, 8]);
    assert_eq!(answer.on_request, [0]);
    assert!(!answer.process_invalid);
    assert_eq!(device.process_out(), [1, 2, 3]);
}

#[test]
fn an_isdu_is_assembled_from_the_channel_and_answered_back_through_it() {
    let mut device = Device::new(0).with_parameter(0x0100, 0, Vec::new());
    assert_eq!(
        device
            .answer(&MasterMessage::read(
                Kind::Type1,
                Channel::Isdu,
                isdu::START
            ))
            .on_request,
        [isdu::BUSY, 0],
        "nothing asked yet"
    );
    let request = Isdu::write(0x0100, 0, &[1, 2, 3]).expect("write").encode();
    let mut address = isdu::START;
    for pair in request.chunks(2) {
        let mut two = pair.to_vec();
        two.resize(2, 0);
        let master = MasterMessage::write(Kind::Type1, Channel::Isdu, address, &two).expect("m");
        device.answer(&master);
        address = (address + 1) & isdu::COUNT_MASK;
    }
    assert_eq!(device.parameter(0x0100, 0), Some(&[1, 2, 3][..]));
    let first = device.answer(&MasterMessage::read(
        Kind::Type1,
        Channel::Isdu,
        isdu::START,
    ));
    assert_eq!(
        first.on_request,
        [0x51, 3],
        "a positive write response, three bytes"
    );
    let rest = device.answer(&MasterMessage::read(Kind::Type1, Channel::Isdu, 0));
    assert_eq!(rest.on_request[0], 0x51 ^ 3);
    let missing = Isdu::write(0x0200, 0, &[]).expect("write").encode();
    for (n, pair) in missing.chunks(2).enumerate() {
        let mut two = pair.to_vec();
        two.resize(2, 0);
        let address = if n == 0 {
            isdu::START
        } else {
            u8::try_from(n - 1).unwrap_or(0)
        };
        device.answer(
            &MasterMessage::write(Kind::Type1, Channel::Isdu, address, &two).expect("m"),
        );
    }
    let answer = device.answer(&MasterMessage::read(
        Kind::Type1,
        Channel::Isdu,
        isdu::START,
    ));
    assert_eq!(
        answer.on_request[0] >> 4,
        Service::WriteResponseNegative.nibble()
    );
    device.answer(
        &MasterMessage::write(Kind::Type1, Channel::Isdu, isdu::ABORT, &[0, 0]).expect("a"),
    );
    assert_eq!(
        device
            .answer(&MasterMessage::read(
                Kind::Type1,
                Channel::Isdu,
                isdu::START
            ))
            .on_request[0],
        isdu::BUSY,
        "aborted"
    );
}

fn ask(device: &mut Device, request: &[u8]) {
    let mut address = isdu::START;
    for pair in request.chunks(2) {
        let mut two = pair.to_vec();
        two.resize(2, 0);
        let master = MasterMessage::write(Kind::Type1, Channel::Isdu, address, &two).expect("m");
        device.answer(&master);
        address = (address + 1) & isdu::COUNT_MASK;
    }
}

fn next(device: &mut Device, address: u8) -> Vec<u8> {
    device
        .answer(&MasterMessage::read(Kind::Type1, Channel::Isdu, address))
        .on_request
}

#[test]
fn the_page_ends_for_a_write_and_goes_round_for_a_read() {
    let mut device = Device::new(0).with_page(0x1f, &[0x11, 0x22]);
    assert_eq!(
        device
            .answer(&MasterMessage::read(Kind::Type1, Channel::Page, 0x1f))
            .on_request,
        [0x11, 0]
    );
    let write = MasterMessage::write(Kind::Type1, Channel::Page, 0x1f, &[0x33, 0x44]).expect("w");
    device.answer(&write);
    assert_eq!(
        device
            .answer(&MasterMessage::read(Kind::Type1, Channel::Page, 0x1f))
            .on_request,
        [0x33, 0]
    );
}

#[test]
fn a_page_starts_at_an_address_of_five_bits() {
    let mut device = Device::new(0).with_page(0x21, &[5]);
    assert_eq!(
        device
            .answer(&MasterMessage::read(Kind::Type0, Channel::Page, 1))
            .on_request,
        [5]
    );
}

#[test]
fn the_other_channels_answer_zeros_and_change_nothing() {
    let mut device = Device::new(1)
        .with_parameter(1, 1, vec![9])
        .with_page(0, &[8]);
    let answer = device.answer(&MasterMessage::read(Kind::Type1, Channel::Diagnosis, 0));
    assert_eq!(answer.on_request, [0, 0]);
    assert!(answer.process_in.is_empty());
    assert!(!answer.process_invalid);
    assert_eq!(device.parameter(1, 1), Some(&[9][..]));
    assert_eq!(device.parameter(1, 2), None);
    assert_eq!(device.parameter(0x0101, 1), None);
    assert_eq!(device.process_out(), [0u8; 0]);
}

#[test]
fn a_start_reads_the_response_from_its_beginning() {
    let mut device = Device::new(0).with_parameter(1, 0, vec![1, 2, 3]);
    ask(&mut device, &Isdu::read(1, 0).encode());
    assert_eq!(next(&mut device, isdu::START), [0xd1, 6]);
    assert_eq!(next(&mut device, 0), [1, 2]);
    assert_eq!(next(&mut device, isdu::START), [0xd1, 6]);
    assert_eq!(next(&mut device, 0), [1, 2]);
    assert_eq!(next(&mut device, 1), [3, 0xd1 ^ 6 ^ 1 ^ 2 ^ 3]);
    assert_eq!(next(&mut device, 2), [isdu::BUSY, 0], "read out");
}

#[test]
fn a_device_is_busy_until_the_request_is_whole() {
    let mut device = Device::new(0).with_parameter(1, 0, Vec::new());
    let request = Isdu::write(1, 0, &[7, 7]).expect("w").encode();
    ask(&mut device, &request[..6]);
    assert_eq!(next(&mut device, isdu::START), [isdu::BUSY, 0]);
    assert_eq!(device.parameter(1, 0), Some(&[][..]));
    let idle = MasterMessage::write(Kind::Type1, Channel::Isdu, isdu::IDLE, &[0, 0]).expect("i");
    device.answer(&idle);
    ask(&mut device, &request);
    assert_eq!(next(&mut device, isdu::START), [0x51, 3]);
    assert_eq!(device.parameter(1, 0), Some(&[7, 7][..]));
}

#[test]
fn what_is_no_request_is_answered_negatively() {
    let mut device = Device::new(0).with_parameter(1, 0, vec![1]);
    let mut broken = Isdu::read(1, 0).encode();
    broken[3] ^= 1;
    ask(&mut device, &broken);
    assert_eq!(next(&mut device, isdu::START), [0x41, 5]);
    assert_eq!(next(&mut device, 0), [0x80, 0x11]);
    let response = Isdu::response(Service::ReadResponsePositive, &[]).expect("r");
    ask(&mut device, &response.encode());
    assert_eq!(next(&mut device, isdu::START), [0x41, 5]);
    let mut big = Device::new(0).with_parameter(1, 0, vec![0; isdu::DATA_MAX + 1]);
    ask(&mut big, &Isdu::read(1, 0).encode());
    assert_eq!(next(&mut big, isdu::START), [0xc1, 5], "too much to answer");
}

#[test]
fn process_data_in_rides_on_type_2_only() {
    let mut device = Device::new(2);
    device.set_process_in(&[7, 8]);
    for kind in [Kind::Type0, Kind::Type1] {
        let message = MasterMessage::read(kind, Channel::Page, 0).with_process(&[1]);
        let answer = device.answer(&message);
        assert!(answer.process_in.is_empty());
        assert_eq!(answer.on_request.len(), kind.on_request());
    }
    let message = MasterMessage::read(Kind::Type2, Channel::Page, 0).with_process(&[1]);
    assert_eq!(device.answer(&message).process_in, [7, 8]);
    let message = MasterMessage::read(Kind::Type2, Channel::Page, 0);
    assert!(device.answer(&message).process_in.is_empty());
}

#[test]
fn one_byte_of_a_request_is_not_served_yet() {
    let mut device = Device::new(0).with_parameter(1, 0, vec![4]);
    let first =
        MasterMessage::write(Kind::Type0, Channel::Isdu, isdu::START, &[0xb0]).expect("one byte");
    device.answer(&first);
    assert_eq!(next(&mut device, isdu::START), [isdu::BUSY, 0]);
    let request = [0xb5, 0, 1, 0, 0xb5 ^ 1];
    for (n, byte) in request.iter().enumerate() {
        let address = if n == 0 { isdu::START } else { 3 };
        let one = MasterMessage::write(Kind::Type0, Channel::Isdu, address, &[*byte]).expect("m");
        device.answer(&one);
    }
    assert_eq!(next(&mut device, isdu::START), [0xd1, 4]);
    assert_eq!(next(&mut device, 0)[0], 4);
}

#[test]
fn a_request_is_served_under_any_counts() {
    let request = Isdu::write(1, 0, &[7, 7, 7]).expect("w").encode();
    for counts in [[0, 1, 2, 3], [9, 9, 9, 9], [15, 0, 3, 2]] {
        let mut device = Device::new(0).with_parameter(1, 0, Vec::new());
        for (n, pair) in request.chunks(2).enumerate() {
            let mut two = pair.to_vec();
            two.resize(2, 0);
            let address = if n == 0 { isdu::START } else { counts[n - 1] };
            device.answer(
                &MasterMessage::write(Kind::Type1, Channel::Isdu, address, &two).expect("m"),
            );
        }
        assert_eq!(device.parameter(1, 0), Some(&[7, 7, 7][..]));
        assert_eq!(next(&mut device, isdu::START), [0x51, 3]);
    }
}
