use blip25_mbe_py::errors::ArgError;
use blip25_mbe_py::soft_decision::{check_packet_words, packet_to_bytes, PySdPacketHeader};

#[test]
fn packet_to_bytes_is_big_endian() {
    let words: Vec<u16> = (0..60u16).map(|i| 0x1300 + i * 0x0101).collect();
    let bytes = packet_to_bytes(&words).unwrap();
    assert_eq!(bytes.len(), 120);
    assert_eq!(&bytes[..4], &[0x13, 0x00, 0x14, 0x01]);
    for (i, w) in words.iter().enumerate() {
        assert_eq!(((bytes[2 * i] as u16) << 8) | bytes[2 * i + 1] as u16, *w);
    }
}

#[test]
fn packet_to_bytes_needs_sixty_words() {
    assert_eq!(packet_to_bytes(&[0; 59]), Err(ArgError::Length { expected: 60, got: 59 }));
    assert_eq!(check_packet_words(&[0; 61]), Err(ArgError::Length { expected: 60, got: 61 }));
    assert_eq!(check_packet_words(&[0; 60]), Ok(()));
}

#[test]
fn header_fields_read_back_what_was_set() {
    let mut h = PySdPacketHeader::new([1, 2, 3, 4, 5], 6, 7, 8, 9);
    assert_eq!(h.rate_info(), vec![1, 2, 3, 4, 5]);
    assert_eq!(h.power_control(), 6);
    assert_eq!(h.control_word1(), 7);
    assert_eq!(h.dtmf_control(), 8);
    assert_eq!(h.control_word2(), 9);
    h.set_power_control(60);
    h.set_control_word1(70);
    h.set_rate_info([10, 20, 30, 40, 50]);
    h.set_dtmf_control(800);
    h.set_control_word2(900);
    assert_eq!(h.rate_info(), vec![10, 20, 30, 40, 50]);
    assert_eq!(h.power_control(), 60);
    assert_eq!(h.control_word1(), 70);
    assert_eq!(h.dtmf_control(), 800);
    assert_eq!(h.control_word2(), 900);
}

#[test]
fn header_equality_compares_all_fields() {
    let a = PySdPacketHeader::new([1, 2, 3, 4, 5], 0, 0, 0, 0);
    let b = PySdPacketHeader::new([1, 2, 3, 4, 5], 0, 0, 0, 0);
    let c = PySdPacketHeader::new([1, 2, 3, 4, 6], 0, 0, 0, 0);
    let d = PySdPacketHeader::new([1, 2, 3, 4, 5], 0, 0, 0, 1);
    assert!(a.__eq__(&b));
    assert!(!a.__eq__(&c));
    assert!(!a.__eq__(&d));
}

#[test]
fn header_repr_lists_fields() {
    let h = PySdPacketHeader::new([0, 10, 200, 3000, 65535], 1, 255, 42, 0);
    assert_eq!(
        h.__repr__(),
        "SdPacketHeader(rate_info=[0, 10, 200, 3000, 65535], power_control=1, control_word1=255, dtmf_control=42, control_word2=0)"
    );
}
