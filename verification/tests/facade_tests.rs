use blip25_mbe_py::enums::{last_output_kind, output_kind_str, vocoder_repr, AnalysisOutputKind, PyRate};
use blip25_mbe_py::fmt::{push_decimal, push_decimal_list};
use blip25_mbe_py::stream::collect_frames;

#[test]
fn output_kind_names() {
    assert_eq!(output_kind_str(AnalysisOutputKind::Voice), "voice");
    assert_eq!(output_kind_str(AnalysisOutputKind::Silence), "silence");
    assert_eq!(output_kind_str(AnalysisOutputKind::Tone), "tone");
    assert_eq!(output_kind_str(AnalysisOutputKind::Unknown), "unknown");
    assert_eq!(last_output_kind(None), None);
    assert_eq!(last_output_kind(Some(AnalysisOutputKind::Tone)), Some("tone"));
}

#[test]
fn vocoder_repr_names_the_rate() {
    assert_eq!(vocoder_repr(PyRate::Imbe7200x4400), "Vocoder(rate=Rate.Imbe7200x4400)");
    assert_eq!(vocoder_repr(PyRate::AmbePlus2_2450x2450), "Vocoder(rate=Rate.AmbePlus2_2450x2450)");
}

#[test]
fn decimal_text() {
    let mut s = String::from("x=");
    push_decimal(&mut s, 0);
    assert_eq!(s, "x=0");
    let mut s = String::new();
    push_decimal(&mut s, 18446744073709551615);
    assert_eq!(s, "18446744073709551615");
    let mut s = String::new();
    push_decimal_list(&mut s, &[]);
    assert_eq!(s, "[]");
    let mut s = String::new();
    push_decimal_list(&mut s, &[7, 10, 100]);
    assert_eq!(s, "[7, 10, 100]");
}

#[test]
fn collect_frames_keeps_order() {
    let r: Vec<Result<u8, &str>> = vec![Ok(1), Ok(2), Ok(3)];
    assert_eq!(collect_frames(r), Ok(vec![1, 2, 3]));
    let empty: Vec<Result<u8, &str>> = vec![];
    assert_eq!(collect_frames(empty), Ok(vec![]));
}

#[test]
fn collect_frames_stops_at_first_error() {
    let r: Vec<Result<u8, &str>> = vec![Ok(1), Err("first"), Ok(3), Err("second")];
    assert_eq!(collect_frames(r), Err("first"));
}
