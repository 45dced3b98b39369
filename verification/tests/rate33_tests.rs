use blip25_mbe_py::errors::{require_len, ArgError};
use blip25_mbe_py::rate33::{check_soft_bits, check_u0, PyRate33Frame};

#[test]
fn u0_must_be_twelve_bits() {
    assert_eq!(check_u0(0), Ok(()));
    assert_eq!(check_u0(4095), Ok(()));
    assert_eq!(check_u0(4096), Err(ArgError::InfoWordRange { value: 4096 }));
    assert_eq!(check_u0(u16::MAX), Err(ArgError::InfoWordRange { value: u16::MAX }));
}

#[test]
fn require_len_reports_expected_and_got() {
    assert_eq!(require_len(7, 7), Ok(()));
    assert_eq!(require_len(3, 7), Err(ArgError::Length { expected: 7, got: 3 }));
}

#[test]
fn soft_bits_must_number_seventy_two() {
    assert_eq!(check_soft_bits(&[0i8; 72]), Ok(()));
    assert_eq!(check_soft_bits(&[0i8; 71]), Err(ArgError::Length { expected: 72, got: 71 }));
}

#[test]
fn frame_accessors_and_equality() {
    let f = PyRate33Frame::new([1, 2, 3, 4], [0, 1, 0, 0]);
    assert_eq!(f.info(), vec![1, 2, 3, 4]);
    assert_eq!(f.errors(), vec![0, 1, 0, 0]);
    assert!(f.__eq__(&PyRate33Frame::new([1, 2, 3, 4], [0, 1, 0, 0])));
    assert!(!f.__eq__(&PyRate33Frame::new([1, 2, 3, 5], [0, 1, 0, 0])));
    assert!(!f.__eq__(&PyRate33Frame::new([1, 2, 3, 4], [255, 1, 0, 0])));
}

#[test]
fn frame_repr() {
    let f = PyRate33Frame::new([4095, 0, 2047, 16383], [255, 3, 0, 0]);
    assert_eq!(f.__repr__(), "Rate33Frame(info=[4095, 0, 2047, 16383], errors=[255, 3, 0, 0])");
}
