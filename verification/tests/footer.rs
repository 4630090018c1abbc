use geotechniek::calendar::Date;
use geotechniek::cpt::footer::{
    client_from_extras, cone_serial_from_extras, cone_type_from_extras, footer_fields, format_gef_hms,
    format_gef_ymd, FooterSource,
};
use geotechniek::keyed::KeyedVec;

fn extras(pairs: &[(&str, &str)]) -> KeyedVec<String> {
    let mut out = KeyedVec::new();
    for (k, v) in pairs {
        out.insert(k.to_string(), v.to_string());
    }
    out
}

fn source(extra: KeyedVec<String>) -> FooterSource {
    FooterSource {
        id: "CPT-01".to_string(),
        project_name: None,
        project_number: None,
        equipment: None,
        date: None,
        extra,
    }
}

#[test]
fn gef_dates_are_written_day_first_and_right_aligned() {
    assert_eq!(format_gef_ymd("2024, 3, 5"), " 5- 3-2024");
    assert_eq!(format_gef_ymd("2024, 12, 25, extra"), "25-12-2024");
    assert_eq!(format_gef_ymd("2024-03-05"), "2024-03-05");
}

#[test]
fn gef_times_are_zero_padded_and_unreadable_parts_count_as_zero() {
    assert_eq!(format_gef_hms("9, 5, 0"), "09:05");
    assert_eq!(format_gef_hms("x, 17"), "00:17");
    assert_eq!(format_gef_hms("1200"), "1200");
}

#[test]
fn client_prefers_companyid_then_measurement_text_one() {
    let both = extras(&[("COMPANYID", "Acme"), ("MEASUREMENTTEXT", "1, GEOSONDA, Client")]);
    assert_eq!(client_from_extras(&both), Some("Acme".to_string()));
    let text = extras(&[("MEASUREMENTTEXT", "4, S15CFII.2645, conus | 1, GEOSONDA, Client")]);
    assert_eq!(client_from_extras(&text), Some("GEOSONDA".to_string()));
    assert_eq!(client_from_extras(&extras(&[])), None);
}

#[test]
fn cone_type_and_serial_come_from_measurement_text_four() {
    let text = extras(&[("MEASUREMENTTEXT", "1, GEOSONDA, Client | 4, S15CFII.2645, conus")]);
    assert_eq!(cone_type_from_extras(&text), "S15CFII.2645");
    assert_eq!(cone_serial_from_extras(&text), "2645");
    let plain = extras(&[("MEASUREMENTTEXT", "4, S15CFII, conus")]);
    assert_eq!(cone_serial_from_extras(&plain), "");
    assert_eq!(cone_type_from_extras(&extras(&[])), "");
}

#[test]
fn footer_slots_use_overrides_then_metadata_then_gef_keywords() {
    let mut src = source(extras(&[
        ("PROJECTID", "P-9"),
        ("PROJECTNAME", "Dijk"),
        ("STARTDATE", "2023, 7, 14"),
        ("STARTTIME", "8, 30, 0"),
        ("COMPANYID", "Fugro"),
    ]));
    let f = footer_fields(&src, None, None);
    assert_eq!(f.project_number, "P-9");
    assert_eq!(f.cpt_id, "CPT-01");
    assert_eq!(f.date, "14- 7-2023");
    assert_eq!(f.time, "08:30");
    assert_eq!(f.client, "Fugro");
    assert_eq!(f.description, "Dijk");
    assert_eq!(f.company, "Fugro");

    src.project_number = Some("P-1".to_string());
    src.date = Some(Date { year: 2024, month: 2, day: 9 });
    src.equipment = Some("  ".to_string());
    let g = footer_fields(&src, Some("OVR"), Some("Klant"));
    assert_eq!(g.project_number, "OVR");
    assert_eq!(g.date, "09-02-2024");
    assert_eq!(g.client, "Klant");
    assert_eq!(g.company, "Fugro");
}

#[test]
fn footer_without_metadata_has_empty_slots_and_a_placeholder_company() {
    let f = footer_fields(&source(extras(&[])), None, None);
    assert_eq!(f.project_number, "");
    assert_eq!(f.date, "");
    assert_eq!(f.time, "");
    assert_eq!(f.client, "");
    assert_eq!(f.description, "");
    assert_eq!(f.company, "Onbekende contractor");
}
