use blip25_mbe_py::errors::ArgError;
use blip25_mbe_py::natural::{info_to_natural, info_to_natural_arr, natural_to_info, natural_to_info_arr};

#[test]
fn info_to_natural_packs_sequentially() {
    assert_eq!(
        info_to_natural([0xABC, 0x123, 0x456, 0x1234]),
        [0xab, 0xc1, 0x23, 0x8a, 0xc9, 0x1a, 0x00]
    );
    assert_eq!(info_to_natural([0, 0, 0, 0]), [0; 7]);
}

#[test]
fn info_to_natural_keeps_only_the_vector_widths() {
    assert_eq!(
        info_to_natural_arr(&[0xFFFF, 0xFFFF, 0xFFFF, 0xFFFF]),
        [0xff, 0xff, 0xff, 0xff, 0xff, 0xff, 0x80]
    );
}

#[test]
fn natural_to_info_reads_sequentially() {
    assert_eq!(
        natural_to_info(&[0xab, 0xc1, 0x23, 0x8a, 0xc9, 0x1a, 0x7f]),
        Ok(vec![0xABC, 0x123, 0x456, 0x1234])
    );
    assert_eq!(natural_to_info_arr(&[0xff; 7]), [0xFFF, 0xFFF, 0x7FF, 0x3FFF]);
}

#[test]
fn natural_to_info_needs_seven_bytes() {
    assert_eq!(natural_to_info(&[0; 6]), Err(ArgError::Length { expected: 7, got: 6 }));
    assert_eq!(natural_to_info(&[0; 9]), Err(ArgError::Length { expected: 7, got: 9 }));
}

#[test]
fn natural_round_trip_laws() {
    let info = [0xF123u16, 0x8FED, 0xFFF1, 0xC001];
    let back = natural_to_info(&info_to_natural(info)).unwrap();
    assert_eq!(back, vec![0x123, 0xFED, 0x7F1, 0x0001]);
    let bytes = [0x12u8, 0x34, 0x56, 0x78, 0x9a, 0xbc, 0xff];
    let info = natural_to_info_arr(&bytes);
    assert_eq!(info_to_natural_arr(&info), [0x12, 0x34, 0x56, 0x78, 0x9a, 0xbc, 0x80]);
}
