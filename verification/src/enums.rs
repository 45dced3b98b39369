//! The selection enums of the façade and the analysis-kind names.

use vstd::prelude::*;

verus! {

/// On-wire rate / codec selection. The four variants cover the
/// production P25 storage and transport formats.
#[derive(Debug, Clone, Copy, PartialEq, Eq, Structural)]
pub enum PyRate {
    /// P25 Phase 1 FDMA full-rate IMBE (18-byte FEC frame, 7 200 bps).
    Imbe7200x4400,
    /// IMBE info-only (11-byte frame, 4 400 bps).
    Imbe4400x4400,
    /// P25 Phase 2 TDMA AMBE+2 (9-byte FEC frame, 3 600 bps).
    AmbePlus2_3600x2450,
    /// AMBE+2 info-only (7-byte frame, 2 450 bps), info bits in DVSI r34
    /// column-interleave order.
    AmbePlus2_2450x2450,
}

/// AMBE+2 unvoiced/voiced synthesis variant. `AmbePlus` is the modern
/// AMBE+ / AMBE+2 sound; `Baseline` matches mbelib's half-rate behaviour.
#[derive(Debug, Clone, Copy, PartialEq, Eq, Structural)]
pub enum PyAmbePlus2Synth {
    AmbePlus,
    Baseline,
}

/// Pre-analysis denoiser gain rule.
#[derive(Debug, Clone, Copy, PartialEq, Eq, Structural)]
pub enum PyDenoiseKind {
    LogMmse,
    Wiener,
    SpecSub,
}

/// Post-decoder PCM enhancement mode: `NoneMode` is spec-faithful,
/// `Classical` applies the default classical chain.
#[derive(Debug, Clone, Copy, PartialEq, Eq, Structural)]
pub enum PyEnhancementMode {
    NoneMode,
    Classical,
}

/// What the encoder's analysis emitted for the last frame. `Unknown`
/// stands for any kind the engine reports that this library does not name.
#[derive(Debug, Clone, Copy, PartialEq, Eq, Structural)]
pub enum AnalysisOutputKind {
    Voice,
    Silence,
    Tone,
    Unknown,
}

/// The name under which an analysis kind is reported.
pub fn output_kind_str(k: AnalysisOutputKind) -> (s: &'static str)
    ensures
        k == AnalysisOutputKind::Voice ==> s@ == "voice"@,
        k == AnalysisOutputKind::Silence ==> s@ == "silence"@,
        k == AnalysisOutputKind::Tone ==> s@ == "tone"@,
        k == AnalysisOutputKind::Unknown ==> s@ == "unknown"@,
{
    match k {
        AnalysisOutputKind::Voice => "voice",
        AnalysisOutputKind::Silence => "silence",
        AnalysisOutputKind::Tone => "tone",
        AnalysisOutputKind::Unknown => "unknown",
    }
}

/// `"voice"` / `"silence"` / `"tone"` for the last encoded frame, or
/// `None` when no analysis has run since the last reset.
pub fn last_output_kind(k: Option<AnalysisOutputKind>) -> (s: Option<&'static str>)
    ensures
        k is None <==> s is None,
        k matches Some(kk) ==> (s matches Some(ss) && (
            (kk == AnalysisOutputKind::Voice ==> ss@ == "voice"@)
            && (kk == AnalysisOutputKind::Silence ==> ss@ == "silence"@)
            && (kk == AnalysisOutputKind::Tone ==> ss@ == "tone"@)
            && (kk == AnalysisOutputKind::Unknown ==> ss@ == "unknown"@))),
{
    match k {
        Some(kk) => Some(output_kind_str(kk)),
        None => None,
    }
}

/// The variant name of a rate, as the engine's `Debug` writes it.
pub open spec fn rate_name(rate: PyRate) -> Seq<char> {
    match rate {
        PyRate::Imbe7200x4400 => "Imbe7200x4400"@,
        PyRate::Imbe4400x4400 => "Imbe4400x4400"@,
        PyRate::AmbePlus2_3600x2450 => "AmbePlus2_3600x2450"@,
        PyRate::AmbePlus2_2450x2450 => "AmbePlus2_2450x2450"@,
    }
}

/// The text `Vocoder(rate=Rate.<name>)` for a vocoder built for `rate`.
pub fn vocoder_repr(rate: PyRate) -> (s: String)
    ensures
        s@ == "Vocoder(rate=Rate."@ + rate_name(rate) + ")"@,
{
    let name: &str = match rate {
        PyRate::Imbe7200x4400 => "Imbe7200x4400",
        PyRate::Imbe4400x4400 => "Imbe4400x4400",
        PyRate::AmbePlus2_3600x2450 => "AmbePlus2_3600x2450",
        PyRate::AmbePlus2_2450x2450 => "AmbePlus2_2450x2450",
    };
    let mut s = String::new();
    s.append("Vocoder(rate=Rate.");
    s.append(name);
    s.append(")");
    s
}

/// Law: the vocoder text tells the rates apart — two vocoders whose
/// texts are equal were built for the same rate, and every rate has a
/// non-empty name.
pub proof fn lemma_vocoder_repr_distinct(a: PyRate, b: PyRate)
    ensures
        ("Vocoder(rate=Rate."@ + rate_name(a) + ")"@ == "Vocoder(rate=Rate."@ + rate_name(b) + ")"@)
            ==> a == b,
        rate_name(a).len() > 0,
{
    reveal_strlit("Imbe7200x4400");
    reveal_strlit("Imbe4400x4400");
    reveal_strlit("AmbePlus2_3600x2450");
    reveal_strlit("AmbePlus2_2450x2450");
    reveal_strlit("Vocoder(rate=Rate.");
    reveal_strlit(")");
    let pre = "Vocoder(rate=Rate."@;
    let ta = pre + rate_name(a) + ")"@;
    let tb = pre + rate_name(b) + ")"@;
    if ta == tb && a != b {
        let n: int = pre.len() as int;
        if rate_name(a).len() == rate_name(b).len() {
            // Same length: the names differ at one of these positions.
            assert(ta[n + 4] == rate_name(a)[4] && tb[n + 4] == rate_name(b)[4]);
            assert(ta[n + 10] == rate_name(a)[10] && tb[n + 10] == rate_name(b)[10]);
        } else {
            assert(ta.len() != tb.len());
        }
    }
}

} // verus!
