//! Dutch descriptions of selected BRO reference codes.

use vstd::prelude::*;

use crate::text::{chars_of, eq_chars};

verus! {

/// A supported BRO reference-code set.
#[derive(Clone, Copy, Debug, PartialEq, Eq)]
pub enum ReferenceCodeSet {
    /// Geotechnical soil names used in BHR-GT documents.
    GeotechnicalSoilName,
    /// Lithology values used in BHR-G documents.
    Lithology,
    /// Colour values used in borehole descriptions.
    Colour,
    /// BRO data-quality regimes.
    QualityRegime,
}

/// The description of a code of the GeotechnicalSoilName set.
pub open spec fn soil_name_text(code: Seq<char>) -> Option<&'static str> {
    if code == "grind"@ {
        Some("Grind")
    } else if code == "klei"@ {
        Some("Klei")
    } else if code == "matigFijnZand"@ {
        Some("Matig fijn zand")
    } else if code == "sterkSiltigeKlei"@ {
        Some("Sterk siltige klei")
    } else if code == "veen"@ {
        Some("Veen")
    } else if code == "zand"@ {
        Some("Zand")
    } else {
        None
    }
}

fn soil_name_exec(code: &[char]) -> (r: Option<&'static str>)
    ensures
        r == soil_name_text(code@),
{
    if eq_chars(code, &chars_of("grind")) {
        Some("Grind")
    } else if eq_chars(code, &chars_of("klei")) {
        Some("Klei")
    } else if eq_chars(code, &chars_of("matigFijnZand")) {
        Some("Matig fijn zand")
    } else if eq_chars(code, &chars_of("sterkSiltigeKlei")) {
        Some("Sterk siltige klei")
    } else if eq_chars(code, &chars_of("veen")) {
        Some("Veen")
    } else if eq_chars(code, &chars_of("zand")) {
        Some("Zand")
    } else {
        None
    }
}

/// The description of a code of the Lithology set.
pub open spec fn lithology_text(code: Seq<char>) -> Option<&'static str> {
    if code == "grind"@ {
        Some("Grind")
    } else if code == "klei"@ {
        Some("Klei")
    } else if code == "leem"@ {
        Some("Leem")
    } else if code == "veen"@ {
        Some("Veen")
    } else if code == "zand"@ {
        Some("Zand")
    } else {
        None
    }
}

fn lithology_exec(code: &[char]) -> (r: Option<&'static str>)
    ensures
        r == lithology_text(code@),
{
    if eq_chars(code, &chars_of("grind")) {
        Some("Grind")
    } else if eq_chars(code, &chars_of("klei")) {
        Some("Klei")
    } else if eq_chars(code, &chars_of("leem")) {
        Some("Leem")
    } else if eq_chars(code, &chars_of("veen")) {
        Some("Veen")
    } else if eq_chars(code, &chars_of("zand")) {
        Some("Zand")
    } else {
        None
    }
}

/// The description of a code of the Colour set.
pub open spec fn colour_text(code: Seq<char>) -> Option<&'static str> {
    if code == "beige"@ {
        Some("Beige")
    } else if code == "blauw"@ {
        Some("Blauw")
    } else if code == "bruin"@ {
        Some("Bruin")
    } else if code == "geel"@ {
        Some("Geel")
    } else if code == "grijs"@ {
        Some("Grijs")
    } else if code == "groen"@ {
        Some("Groen")
    } else if code == "oranje"@ {
        Some("Oranje")
    } else if code == "rood"@ {
        Some("Rood")
    } else if code == "roze"@ {
        Some("Roze omvat de Munsellkleuren 10R 8/3, 10R 8/4, 2.5YR 8/3, 2.5YR 8/4, 5YR 7/3, 5YR 7/4, 5YR 8/3, 5YR 8/4, 7.5YR 7/3, 7.5YR 7/4, 7.5YR 8/3 en 7.5YR 8/4 (pink).")
    } else if code == "wit"@ {
        Some("Wit")
    } else if code == "zwart"@ {
        Some("Zwart")
    } else {
        None
    }
}

fn colour_exec(code: &[char]) -> (r: Option<&'static str>)
    ensures
        r == colour_text(code@),
{
    if eq_chars(code, &chars_of("beige")) {
        Some("Beige")
    } else if eq_chars(code, &chars_of("blauw")) {
        Some("Blauw")
    } else if eq_chars(code, &chars_of("bruin")) {
        Some("Bruin")
    } else if eq_chars(code, &chars_of("geel")) {
        Some("Geel")
    } else if eq_chars(code, &chars_of("grijs")) {
        Some("Grijs")
    } else if eq_chars(code, &chars_of("groen")) {
        Some("Groen")
    } else if eq_chars(code, &chars_of("oranje")) {
        Some("Oranje")
    } else if eq_chars(code, &chars_of("rood")) {
        Some("Rood")
    } else if eq_chars(code, &chars_of("roze")) {
        Some("Roze omvat de Munsellkleuren 10R 8/3, 10R 8/4, 2.5YR 8/3, 2.5YR 8/4, 5YR 7/3, 5YR 7/4, 5YR 8/3, 5YR 8/4, 7.5YR 7/3, 7.5YR 7/4, 7.5YR 8/3 en 7.5YR 8/4 (pink).")
    } else if eq_chars(code, &chars_of("wit")) {
        Some("Wit")
    } else if eq_chars(code, &chars_of("zwart")) {
        Some("Zwart")
    } else {
        None
    }
}

/// The description of a code of the QualityRegime set.
pub open spec fn quality_regime_text(code: Seq<char>) -> Option<&'static str> {
    if code == "IMBRO"@ {
        Some("IMBRO-kwaliteitsregime")
    } else if code == "IMBRO/A"@ {
        Some("IMBRO/A-kwaliteitsregime")
    } else {
        None
    }
}

fn quality_regime_exec(code: &[char]) -> (r: Option<&'static str>)
    ensures
        r == quality_regime_text(code@),
{
    if eq_chars(code, &chars_of("IMBRO")) {
        Some("IMBRO-kwaliteitsregime")
    } else if eq_chars(code, &chars_of("IMBRO/A")) {
        Some("IMBRO/A-kwaliteitsregime")
    } else {
        None
    }
}

pub open spec fn describe_spec(set: ReferenceCodeSet, code: Seq<char>) -> Option<&'static str> {
    match set {
        ReferenceCodeSet::GeotechnicalSoilName => soil_name_text(code),
        ReferenceCodeSet::Lithology => lithology_text(code),
        ReferenceCodeSet::Colour => colour_text(code),
        ReferenceCodeSet::QualityRegime => quality_regime_text(code),
    }
}

/// Returns the Dutch description of a known reference code; unknown codes
/// give `None`.
pub fn describe_reference_code(set: ReferenceCodeSet, code: &str) -> (r: Option<&'static str>)
    ensures
        r == describe_spec(set, code@),
{
    let c = chars_of(code);
    match set {
        ReferenceCodeSet::GeotechnicalSoilName => soil_name_exec(&c),
        ReferenceCodeSet::Lithology => lithology_exec(&c),
        ReferenceCodeSet::Colour => colour_exec(&c),
        ReferenceCodeSet::QualityRegime => quality_regime_exec(&c),
    }
}

} // verus!
