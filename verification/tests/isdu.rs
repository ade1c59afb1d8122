use iolink::isdu::{Isdu, Service, DATA_MAX, MAX_LENGTH};
use iolink::Error;

#[test]
fn a_write_request_encodes_its_service_length_index_and_checksum() {
    let write = Isdu::write(0x0100, 0, &[1, 2, 3]).expect("write");
    let wire = write.encode();
    assert_eq!(wire.len(), 9);
    assert_eq!(&wire[..5], &[0x31, 9, 0x01, 0x00, 0]);
    assert_eq!(wire.iter().fold(0u8, |acc, byte| acc ^ byte), 0);
    assert_eq!(Isdu::length_of(&wire), Some(9));
    assert_eq!(Isdu::decode(&wire).expect("decode"), write);
    let read = Isdu::read(0x0010, 2);
    assert_eq!(Isdu::decode(&read.encode()).expect("decode"), read);
    let ok = Isdu::response(Service::WriteResponsePositive, &[]).expect("ok");
    assert_eq!(ok.encode(), [0x51, 3, 0x51 ^ 3]);
    assert_eq!(Isdu::decode(&ok.encode()).expect("decode"), ok);
    let brim = Isdu::write(0, 0, &[9; DATA_MAX]).expect("brim");
    assert_eq!(brim.encode().len(), MAX_LENGTH);
    assert_eq!(Isdu::decode(&brim.encode()).expect("decode"), brim);
    assert!(
        Isdu::write(0, 0, &[0; DATA_MAX + 1]).is_err(),
        "over the brim"
    );
}

#[test]
fn what_is_not_an_isdu_is_refused() {
    assert!(Isdu::length_of(&[]).is_none());
    assert!(
        Isdu::length_of(&[0x31]).is_none(),
        "extended length not there yet"
    );
    assert!(Isdu::decode(&[]).is_err(), "empty");
    let mut wire = Isdu::write(1, 0, &[7]).expect("w").encode();
    wire[4] ^= 1;
    assert!(Isdu::decode(&wire).is_err(), "checksum");
    let wire = Isdu::write(1, 0, &[7]).expect("w").encode();
    assert!(Isdu::decode(&wire[..5]).is_err(), "length not its bytes");
    let mut unknown = Isdu::read(1, 0).encode();
    unknown[0] = 0x91;
    let check = unknown[..unknown.len() - 1]
        .iter()
        .fold(0u8, |acc, b| acc ^ b);
    let last = unknown.len() - 1;
    unknown[last] = check;
    assert!(Isdu::decode(&unknown).is_err(), "8-bit index service");
    let short = [0x33, 0x33];
    assert!(Isdu::decode(&short).is_err(), "no index");
}

#[test]
fn each_refusal_of_an_isdu_is_its_own() {
    assert_eq!(Isdu::decode(&[]), Err(Error::IsduCutShort));
    assert_eq!(Isdu::decode(&[0x31]), Err(Error::IsduCutShort));
    assert_eq!(Isdu::decode(&[0x53]), Err(Error::IsduCutShort));
    assert_eq!(Isdu::decode(&[0x33, 0x33]), Err(Error::IsduLength));
    assert_eq!(Isdu::decode(&[0x32, 0x32]), Err(Error::IsduLength));
    assert_eq!(Isdu::decode(&[0x53, 0, 0]), Err(Error::IsduChecksum));
    assert_eq!(
        Isdu::decode(&[0x93, 0, 0x93]),
        Err(Error::ServiceUnknown { nibble: 9 })
    );
    assert_eq!(Isdu::decode(&[0x33, 0, 0x33]), Err(Error::IndexMissing));
    assert_eq!(
        Isdu::response(Service::ReadResponsePositive, &[0; DATA_MAX + 1]),
        Err(Error::DataOverCeiling {
            length: 233,
            ceiling: 232
        })
    );
}

#[test]
fn a_short_form_names_its_length_in_the_first_byte() {
    assert_eq!(Isdu::length_of(&[0x56]), None, "one byte names nothing yet");
    assert_eq!(Isdu::length_of(&[0x50]), None);
    assert_eq!(Isdu::length_of(&[0x56, 9]), Some(6));
    assert_eq!(Isdu::length_of(&[0x50, 9]), Some(0));
    assert_eq!(Isdu::length_of(&[0x51, 9]), Some(9));
    let bytes = [0xd4, 7, 8, 0xd4 ^ 7 ^ 8];
    let unit = Isdu::decode(&bytes).expect("short form");
    assert_eq!(unit.service, Service::ReadResponsePositive);
    assert_eq!(unit.data, [7, 8]);
    let bytes = [0xb5, 0x12, 0x34, 0x56, 0xb5 ^ 0x12 ^ 0x34 ^ 0x56];
    let unit = Isdu::decode(&bytes).expect("short request");
    assert_eq!(unit, Isdu::read(0x1234, 0x56));
}

#[test]
fn a_unit_that_cannot_name_its_length_is_refused() {
    let fits = Isdu {
        service: Service::WriteRequest,
        index: 1,
        subindex: 2,
        data: vec![3; 249],
    };
    assert_eq!(fits.encode()[1], 255);
    assert_eq!(Isdu::decode(&fits.encode()), Ok(fits));
    let over = Isdu {
        service: Service::WriteRequest,
        index: 1,
        subindex: 2,
        data: vec![3; 250],
    };
    assert_eq!(over.encode()[1], 255);
    assert_eq!(Isdu::decode(&over.encode()), Err(Error::IsduLength));
}

#[test]
fn every_changed_byte_of_a_unit_is_caught() {
    let extended = Isdu::write(0x0203, 4, &[5, 6]).expect("w").encode();
    let short = vec![0xd4, 7, 8, 0xd4 ^ 7 ^ 8];
    for wire in [extended, short] {
        assert!(Isdu::decode(&wire).is_ok());
        for at in 0..wire.len() {
            for byte in 0..=255u8 {
                if byte != wire[at] {
                    let mut changed = wire.clone();
                    changed[at] = byte;
                    assert!(Isdu::decode(&changed).is_err());
                }
            }
        }
    }
}

#[test]
fn a_service_is_its_nibble() {
    let services = [
        (Service::WriteRequest, 0x3, false),
        (Service::WriteResponseNegative, 0x4, true),
        (Service::WriteResponsePositive, 0x5, true),
        (Service::ReadRequest, 0xb, false),
        (Service::ReadResponseNegative, 0xc, true),
        (Service::ReadResponsePositive, 0xd, true),
    ];
    for (service, nibble, response) in services {
        assert_eq!(service.nibble(), nibble);
        assert_eq!(service.is_response(), response);
    }
}
