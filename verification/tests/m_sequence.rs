use iolink::m_sequence::{checksum, Channel, DeviceMessage, Kind, MasterMessage};
use iolink::Error;

#[test]
fn a_type_1_write_and_its_answer_round_trip_with_checksums() {
    let master = MasterMessage::write(Kind::Type1, Channel::Isdu, 0x10, &[0x31, 0x01]).expect("m");
    let wire = master.encode();
    assert_eq!(wire.len(), 4);
    assert_eq!(wire[0], 0x70, "write, ISDU channel, address 0x10");
    assert_eq!(wire[1] >> 6, 1, "type 1");
    assert_eq!(MasterMessage::decode(&wire, 0).expect("decode"), master);
    let device = DeviceMessage {
        process_in: Vec::new(),
        on_request: Vec::new(),
        event: true,
        process_invalid: false,
    };
    let wire = device.encode();
    assert_eq!(wire.len(), 1);
    assert_eq!(wire[0] & 0xc0, 0x80);
    assert_eq!(DeviceMessage::decode(&wire, 0).expect("decode"), device);
}

#[test]
fn a_type_2_read_carries_process_data_both_ways() {
    let master = MasterMessage::read(Kind::Type2, Channel::Page, 0x02).with_process(&[0xaa, 0xbb]);
    let wire = master.encode();
    assert_eq!(wire.len(), MasterMessage::length(Kind::Type2, 2, true));
    assert_eq!(wire[0], 0xa2, "read, page channel, address 2");
    assert_eq!(MasterMessage::decode(&wire, 2).expect("decode"), master);
    let device = DeviceMessage {
        process_in: vec![1, 2, 3, 4],
        on_request: vec![0x11],
        event: false,
        process_invalid: true,
    };
    let wire = device.encode();
    assert_eq!(wire.len(), DeviceMessage::length(4, 1));
    assert_eq!(DeviceMessage::decode(&wire, 4).expect("decode"), device);
    assert_eq!(Kind::Type1.on_request(), 2);
    assert_eq!(Kind::Type2.on_request(), 1);
}

#[test]
fn what_is_not_an_m_sequence_is_refused() {
    assert!(MasterMessage::decode(&[0x80], 0).is_err(), "short");
    let mut wire = MasterMessage::read(Kind::Type0, Channel::Page, 1).encode();
    wire[0] ^= 0x01;
    assert!(MasterMessage::decode(&wire, 0).is_err(), "checksum");
    let wire = MasterMessage::read(Kind::Type0, Channel::Page, 1).encode();
    assert!(
        MasterMessage::decode(&wire, 1).is_err(),
        "not the type's length"
    );
    let mut reserved = vec![0x81, 0xc0];
    reserved[1] |= checksum(&reserved);
    assert!(MasterMessage::decode(&reserved, 0).is_err(), "type 3");
    assert!(MasterMessage::write(Kind::Type0, Channel::Isdu, 0, &[1, 2]).is_err());
    assert!(DeviceMessage::decode(&[], 0).is_err(), "empty");
    let mut wire = DeviceMessage {
        process_in: vec![9],
        on_request: Vec::new(),
        event: false,
        process_invalid: false,
    }
    .encode();
    assert!(
        DeviceMessage::decode(&wire, 4).is_err(),
        "shorter than its process data"
    );
    wire[0] ^= 0x01;
    assert!(DeviceMessage::decode(&wire, 1).is_err(), "checksum");
}

#[test]
fn each_refusal_of_a_message_is_its_own() {
    assert_eq!(MasterMessage::decode(&[0x80], 0), Err(Error::MasterShort));
    let good = MasterMessage::read(Kind::Type0, Channel::Page, 1).encode();
    assert_eq!(MasterMessage::decode(&good, 1), Err(Error::MasterLength));
    assert_eq!(
        MasterMessage::decode(&good, usize::MAX),
        Err(Error::MasterLength)
    );
    let mut reserved = vec![0x81, 0xc0];
    reserved[1] |= checksum(&reserved);
    assert_eq!(
        MasterMessage::decode(&reserved, 0),
        Err(Error::TypeReserved)
    );
    assert_eq!(
        MasterMessage::write(Kind::Type0, Channel::Isdu, 0, &[1, 2]),
        Err(Error::OnRequestCount {
            given: 2,
            carried: 1
        })
    );
    assert_eq!(DeviceMessage::decode(&[], 0), Err(Error::DeviceEmpty));
    let answer = DeviceMessage {
        process_in: vec![9],
        on_request: Vec::new(),
        event: false,
        process_invalid: false,
    };
    assert_eq!(
        DeviceMessage::decode(&answer.encode(), 4),
        Err(Error::DeviceShort)
    );
}

#[test]
fn a_checksum_is_the_seeded_xor_folded() {
    // 0x52 is 0101_0010: odd bits 0 0 0 1, even bits 1 1 0 0, pairs 01 01 00 10.
    assert_eq!(checksum(&[]), 0b10_1101);
    assert_eq!(checksum(&[0x52]), 0);
    // 0x52 ^ 0xff is 1010_1101: odd bits 1 1 1 0, even bits 0 0 1 1.
    assert_eq!(checksum(&[0xff]), 0b10_1101);
    // 0x52 ^ 0x80 is 1101_0010.
    assert_eq!(checksum(&[0x80]), 0b00_0101);
}

#[test]
fn a_page_read_is_these_two_bytes() {
    // Read, page channel, address 8: 1010_1000. The XOR 0xa8 ^ 0x52 is
    // 1111_1010: odd bits 1 1 1 1, even bits 1 1 0 0, pairs 11 11 10 10.
    let wire = MasterMessage::read(Kind::Type0, Channel::Page, 8).encode();
    assert_eq!(wire, [0xa8, 0b00_0011]);
}

#[test]
fn an_address_is_cut_to_its_five_bits() {
    let message = MasterMessage::read(Kind::Type0, Channel::Diagnosis, 0xff);
    assert_eq!(message.address, 0x1f);
    assert_eq!(message.encode()[0], 0xdf);
}

#[test]
fn every_turned_bit_of_a_message_is_caught() {
    let master = MasterMessage::write(Kind::Type1, Channel::Page, 3, &[0x5a, 0xa5])
        .expect("m")
        .with_process(&[1, 2]);
    let wire = master.encode();
    for at in 0..wire.len() {
        for n in 0..8 {
            let mut turned = wire.clone();
            turned[at] ^= 1 << n;
            assert_eq!(
                MasterMessage::decode(&turned, 2),
                Err(Error::MasterChecksum)
            );
        }
    }
    let answer = DeviceMessage {
        process_in: vec![7],
        on_request: vec![8, 9],
        event: true,
        process_invalid: true,
    };
    let wire = answer.encode();
    for at in 0..wire.len() {
        for n in 0..8 {
            let mut turned = wire.clone();
            turned[at] ^= 1 << n;
            assert_eq!(
                DeviceMessage::decode(&turned, 1),
                Err(Error::DeviceChecksum)
            );
        }
    }
}

#[test]
fn what_decodes_encodes_to_the_same_bytes() {
    for first in 0..=255u8 {
        for kind in 0..3u8 {
            let mut bytes = vec![first, kind << 6, 1, 2];
            bytes[1] |= checksum(&bytes);
            for process_out in 0..3 {
                if let Ok(message) = MasterMessage::decode(&bytes, process_out) {
                    assert_eq!(message.encode(), bytes);
                    assert_eq!(message.process_out.len(), process_out);
                }
            }
        }
    }
    let mut bytes = vec![4, 5, 6, 0x80];
    let last = bytes.len() - 1;
    bytes[last] |= checksum(&bytes);
    let answer = DeviceMessage::decode(&bytes, 2).expect("answer");
    assert_eq!(answer.encode(), bytes);
    assert!(answer.event);
}
