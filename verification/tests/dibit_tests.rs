use blip25_mbe_py::dibits::{pack_dibits, unpack_dibits};
use blip25_mbe_py::errors::ArgError;
use blip25_mbe_py::rate33::fec_frame_dibits;

#[test]
fn unpack_dibits_splits_msb_first() {
    assert_eq!(unpack_dibits(&[0b1110_0100]), vec![3, 2, 1, 0]);
    assert_eq!(unpack_dibits(&[0xFF, 0x00]), vec![3, 3, 3, 3, 0, 0, 0, 0]);
    assert_eq!(unpack_dibits(&[]), Vec::<u8>::new());
}

#[test]
fn pack_dibits_joins_msb_first() {
    assert_eq!(pack_dibits(&[3, 2, 1, 0]), Ok(vec![0b1110_0100]));
    assert_eq!(pack_dibits(&[]), Ok(vec![]));
}

#[test]
fn pack_dibits_masks_to_two_bits() {
    assert_eq!(pack_dibits(&[0xFF, 0x04, 0x05, 0x02]), Ok(vec![0b1100_0110]));
}

#[test]
fn pack_dibits_refuses_partial_byte() {
    assert_eq!(pack_dibits(&[1, 2, 3]), Err(ArgError::DibitCount { count: 3 }));
    assert_eq!(pack_dibits(&[1, 2, 3, 0, 1]), Err(ArgError::DibitCount { count: 5 }));
}

#[test]
fn dibits_round_trip_law() {
    let bytes: Vec<u8> = (0u8..=255).collect();
    let d = unpack_dibits(&bytes);
    assert_eq!(d.len(), 4 * bytes.len());
    assert_eq!(pack_dibits(&d), Ok(bytes));
    let raw = vec![7u8, 9, 250, 1, 2, 3, 4, 128];
    let packed = pack_dibits(&raw).unwrap();
    let masked: Vec<u8> = raw.iter().map(|x| x & 3).collect();
    assert_eq!(unpack_dibits(&packed), masked);
}

#[test]
fn fec_frame_dibits_needs_nine_bytes() {
    let d = fec_frame_dibits(&[0x1B; 9]).unwrap();
    assert_eq!(d.len(), 36);
    assert_eq!(&d[..4], &[0, 1, 2, 3]);
    assert_eq!(fec_frame_dibits(&[0; 8]), Err(ArgError::Length { expected: 9, got: 8 }));
    assert_eq!(fec_frame_dibits(&[0; 10]), Err(ArgError::Length { expected: 9, got: 10 }));
}
