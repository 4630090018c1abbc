use geotechniek::bro::bhr_g::{parse_bhr_g, parse_bhr_g_with_options};
use geotechniek::bro::bhr_gt::GeotechnicalInterval;
use geotechniek::bro::document::{
    parse, parse_bhr_gt, parse_bhr_gt_with_options, parse_cpt, parse_with_options, BroDocument,
};
use geotechniek::bro::reference_codes::{describe_reference_code, ReferenceCodeSet};
use geotechniek::bro::{detect, BroDocumentType, BroError, ParseOptions, SchemaVersion};
use geotechniek::number::Number;

const CPT_MINIMAL: &str = r#"<?xml version="1.0" encoding="UTF-8"?>
<CPT_O xmlns="http://www.broservices.nl/xsd/dscpt/1.1" xmlns:gml="http://www.opengis.net/gml/3.2">
  <broId>CPT000000000001</broId>
  <qualityRegime>IMBRO</qualityRegime>
  <deliveredLocation>
    <location srsName="EPSG:28992"><pos>155000 463000</pos></location>
  </deliveredLocation>
  <finalDepth>2.0</finalDepth>
  <coneType>electrical</coneType>
  <conePenetrationTest>
    <cptResult>
      <values>-999999,2.0,-999999,5.0,-999999,-999999,-999999,-999999,-999999,-999999,-999999,-999999,-999999,-999999,-999999,0.5,-999999,-999999,0.05,-999999,-999999,-999999,0.1,-999999,1.0;-999999,1.0,-999999,4.2,-999999,-999999,-999999,-999999,-999999,-999999,-999999,-999999,-999999,-999999,-999999,0.3,-999999,-999999,0.04,-999999,-999999,-999999,-999999,-999999,0.95;</values>
    </cptResult>
  </conePenetrationTest>
</CPT_O>
"#;

const BHR_GT_MINIMAL: &str = r#"<?xml version="1.0" encoding="UTF-8"?>
<BHR_GT_O xmlns="http://www.broservices.nl/xsd/dsbhr-gt/2.1">
  <broId>BHR000000000001</broId>
  <deliveredLocation>
    <location srsName="EPSG:28992"><pos>155100 463100</pos></location>
  </deliveredLocation>
  <boring>
    <finalDepthBoring>3.0</finalDepthBoring>
    <layer>
      <upperBoundary>0.0</upperBoundary>
      <lowerBoundary>1.5</lowerBoundary>
      <geotechnicalSoilName>sterkSiltigeKlei</geotechnicalSoilName>
      <organicMatterContent>zwakHumeus</organicMatterContent>
    </layer>
    <layer>
      <upperBoundary>1.5</upperBoundary>
      <lowerBoundary>3.0</lowerBoundary>
      <geotechnicalSoilName>zwakZandigeKlei</geotechnicalSoilName>
    </layer>
  </boring>
</BHR_GT_O>
"#;

const BHR_G_MINIMAL: &str = r#"<?xml version="1.0" encoding="UTF-8"?>
<BHR_G_O xmlns="http://www.broservices.nl/xsd/dsbhrg/3.1">
  <broId>BHR000000000002</broId>
  <deliveredLocation>
    <location srsName="EPSG:28992"><pos>155200 463200</pos></location>
  </deliveredLocation>
  <boring>
    <finalDepthBoring>3.5</finalDepthBoring>
    <layer>
      <layer>
        <upperBoundary>0.0</upperBoundary>
        <lowerBoundary>2.0</lowerBoundary>
        <lithology>zand</lithology>
        <grainSize>matigFijn</grainSize>
      </layer>
    </layer>
    <layer>
      <upperBoundary>2.0</upperBoundary>
      <lowerBoundary>3.5</lowerBoundary>
      <lithology>klei</lithology>
      <shellContent>weinig</shellContent>
    </layer>
  </boring>
</BHR_G_O>
"#;

fn value_of(n: Number) -> f64 {
    n.num as f64 / n.den as f64
}

fn key_chars(s: &str) -> Vec<char> {
    s.chars().collect()
}

#[test]
fn parses_and_sorts_cpt_measurements() {
    let cpt = parse_cpt(CPT_MINIMAL).unwrap();
    assert_eq!(cpt.common.bro_id, "CPT000000000001");
    assert_eq!(cpt.measurements.len(), 2);
    assert!(value_of(cpt.measurements[0].depth) <= value_of(cpt.measurements[1].depth));
    assert_eq!(cpt.measurements[0].cone_resistance.map(value_of), Some(4.2));
}

#[test]
fn converts_bro_void_values_to_none() {
    let cpt = parse_cpt(CPT_MINIMAL).unwrap();
    assert!(cpt.measurements.iter().any(|point| point.pore_pressure_u2.is_none()));
    assert!(cpt
        .measurements
        .iter()
        .flat_map(|point| {
            [point.cone_resistance, point.sleeve_friction, point.friction_ratio, point.pore_pressure_u2]
        })
        .flatten()
        .all(|value| value_of(value) > -100_000.0));
}

#[test]
fn converts_bro_void_final_depth_to_none() {
    let xml = CPT_MINIMAL.replace("<finalDepth>2.0</finalDepth>", "<finalDepth>-999999</finalDepth>");
    let cpt = parse_cpt(&xml).unwrap();
    assert!(cpt.final_depth.is_none());
}

#[test]
fn preserves_common_metadata_and_optional_source() {
    let document = parse_with_options(CPT_MINIMAL, ParseOptions { retain_source: true }).unwrap();
    let BroDocument::Cpt(cpt) = document else { panic!("expected CPT") };
    assert_eq!(cpt.common.bro_id, "CPT000000000001");
    assert_eq!(cpt.common.position.as_ref().unwrap().crs, "EPSG:28992");
    assert_eq!(cpt.source_xml.as_deref(), Some(CPT_MINIMAL));
}

#[test]
fn malformed_xml_has_a_position() {
    let error = parse("<CPT_O><broken></CPT_O>").unwrap_err();
    assert!(matches!(error, BroError::InvalidXml { position: Some(_), .. }));
}

#[test]
fn bhr_gt_dispatch_stops_at_first_document_specific_field() {
    let xml = r#"<BHR_GT_O xmlns="http://www.broservices.nl/xsd/dsbhr-gt/2.1">
        <broId>BHRGT000000000001</broId>
    </BHR_GT_O>"#;
    let error = parse(xml).unwrap_err();
    assert!(matches!(error, BroError::MissingField { ref path } if path == "BHR_GT_O/boring"));
}

#[test]
fn bhr_g_dispatch_stops_at_first_document_specific_field() {
    let xml = r#"<BHR_G_O xmlns="http://www.broservices.nl/xsd/dsbhrg/3.1">
        <broId>BHRG000000000001</broId>
    </BHR_G_O>"#;
    let error = parse(xml).unwrap_err();
    assert!(matches!(error, BroError::MissingField { ref path } if path == "BHR_G_O/boring"));
}

#[test]
fn scalar_diagnostics_use_collected_paths() {
    let missing_bro_id = parse(r#"<CPT_O xmlns="http://www.broservices.nl/xsd/dscpt/1.1" />"#).unwrap_err();
    assert!(matches!(missing_bro_id, BroError::MissingField { ref path } if path == "CPT_O/broId"));

    let invalid_date = parse(
        r#"<CPT_O xmlns="http://www.broservices.nl/xsd/dscpt/1.1">
            <broId>CPT000000000001</broId>
            <researchStartDate>not-a-date</researchStartDate>
        </CPT_O>"#,
    )
    .unwrap_err();
    assert!(matches!(
        invalid_date,
        BroError::InvalidValue { ref path, .. } if path == "CPT_O/researchStartDate"
    ));

    let invalid_offset = parse(
        r#"<CPT_O xmlns="http://www.broservices.nl/xsd/dscpt/1.1">
            <broId>CPT000000000001</broId>
            <deliveredVerticalPosition><offset>not-a-number</offset></deliveredVerticalPosition>
        </CPT_O>"#,
    )
    .unwrap_err();
    assert!(matches!(
        invalid_offset,
        BroError::InvalidValue { ref path, .. } if path == "CPT_O/deliveredVerticalPosition/offset"
    ));
}

#[test]
fn extension_limit_counts_characters_instead_of_bytes() {
    let value = "é".repeat(199);
    let xml = CPT_MINIMAL.replace("</CPT_O>", &format!("<customValue>{value}</customValue></CPT_O>"));
    let document = parse(&xml).unwrap();
    let BroDocument::Cpt(cpt) = document else { panic!("expected CPT") };
    assert_eq!(cpt.common.extensions.get(&key_chars("CPT_O/customValue")), Some(&value));
}

#[test]
fn detects_all_supported_documents() {
    let cases = [
        (CPT_MINIMAL, BroDocumentType::Cpt, SchemaVersion::new(1, 1)),
        (BHR_GT_MINIMAL, BroDocumentType::BhrGt, SchemaVersion::new(2, 1)),
        (BHR_G_MINIMAL, BroDocumentType::BhrG, SchemaVersion::new(3, 1)),
    ];
    for (xml, expected_type, expected_version) in cases {
        let detected = detect(xml).expect("fixture must be detected");
        assert_eq!(detected.document_type, expected_type);
        assert_eq!(detected.schema_version, expected_version);
    }
}

#[test]
fn rejects_non_bro_xml() {
    let error = detect("<project><name>x</name></project>").unwrap_err();
    assert!(matches!(error, BroError::UnsupportedDocument { .. }));
}

#[test]
fn describes_known_soil_code_and_preserves_unknown_codes() {
    assert!(describe_reference_code(ReferenceCodeSet::GeotechnicalSoilName, "sterkSiltigeKlei").is_some());
    assert_eq!(describe_reference_code(ReferenceCodeSet::GeotechnicalSoilName, "futureCode"), None);
}

#[test]
fn describes_bhr_g_specific_colour_code() {
    assert_eq!(
        describe_reference_code(ReferenceCodeSet::Colour, "roze"),
        Some(
            "Roze omvat de Munsellkleuren 10R 8/3, 10R 8/4, 2.5YR 8/3, 2.5YR 8/4, 5YR 7/3, 5YR 7/4, 5YR 8/3, 5YR 8/4, 7.5YR 7/3, 7.5YR 7/4, 7.5YR 8/3 en 7.5YR 8/4 (pink)."
        )
    );
}

#[test]
fn parses_geological_intervals_without_wrapper_duplicates() {
    let bore = parse_bhr_g(BHR_G_MINIMAL).unwrap();
    assert_eq!(bore.common.bro_id, "BHR000000000002");
    assert_eq!(bore.intervals.len(), 2);
    assert_eq!(bore.intervals[0].lithology.as_deref(), Some("zand"));
}

#[test]
fn deduplication_preserves_fields_from_geological_wrappers() {
    let xml = BHR_G_MINIMAL.replacen(
        "    <layer>\n      <layer>",
        "    <layer>\n      <description>veldwaarneming</description>\n      <layer>",
        1,
    );
    let bore = parse_bhr_g(&xml).unwrap();
    assert_eq!(bore.intervals.len(), 2);
    assert_eq!(bore.intervals[0].description.as_deref(), Some("veldwaarneming"));
}

#[test]
fn preserves_primitive_geological_interval_extensions() {
    let bore = parse_bhr_g(BHR_G_MINIMAL).unwrap();
    assert_eq!(
        bore.intervals[0].extensions.get(&key_chars("grainSize")).map(String::as_str),
        Some("matigFijn")
    );
    assert_eq!(
        bore.intervals[1].extensions.get(&key_chars("shellContent")).map(String::as_str),
        Some("weinig")
    );
}

#[test]
fn typed_borehole_parsers_reject_the_other_document_types() {
    assert!(matches!(
        parse_bhr_gt(BHR_G_MINIMAL),
        Err(BroError::UnexpectedDocumentType { expected: BroDocumentType::BhrGt, found: BroDocumentType::BhrG })
    ));
    assert!(matches!(
        parse_bhr_g(BHR_GT_MINIMAL),
        Err(BroError::UnexpectedDocumentType { expected: BroDocumentType::BhrG, found: BroDocumentType::BhrGt })
    ));
}

#[test]
fn source_xml_is_retained_only_when_requested() {
    assert_eq!(parse_bhr_gt(BHR_GT_MINIMAL).unwrap().source_xml, None);
    assert_eq!(parse_bhr_g(BHR_G_MINIMAL).unwrap().source_xml, None);
    assert_eq!(
        parse_bhr_gt_with_options(BHR_GT_MINIMAL, ParseOptions { retain_source: true })
            .unwrap()
            .source_xml
            .as_deref(),
        Some(BHR_GT_MINIMAL)
    );
    assert_eq!(
        parse_bhr_g_with_options(BHR_G_MINIMAL, ParseOptions { retain_source: true })
            .unwrap()
            .source_xml
            .as_deref(),
        Some(BHR_G_MINIMAL)
    );
}

#[test]
fn reversed_geological_boundaries_report_the_nested_path() {
    let reversed = BHR_G_MINIMAL.replacen("<lowerBoundary>2.0</lowerBoundary>", "<lowerBoundary>0.0</lowerBoundary>", 1);
    assert!(matches!(
        parse_bhr_g(&reversed),
        Err(BroError::InvalidValue { path, .. }) if path.contains("/layer/layer/lowerBoundary")
    ));
}

#[test]
fn non_finite_geological_boundary_is_invalid() {
    let non_finite = BHR_G_MINIMAL.replacen("<upperBoundary>0.0</upperBoundary>", "<upperBoundary>NaN</upperBoundary>", 1);
    assert!(matches!(
        parse_bhr_g(&non_finite),
        Err(BroError::InvalidValue { path, .. }) if path.contains("/layer/layer/upperBoundary")
    ));
}

#[test]
fn final_depth_and_cone_type_are_read() {
    let cpt = parse_cpt(CPT_MINIMAL).unwrap();
    assert_eq!(cpt.final_depth.map(value_of), Some(2.0));
    assert_eq!(cpt.cone_type.as_deref(), Some("electrical"));
    assert_eq!(cpt.common.schema_version, SchemaVersion::new(1, 1));
}

#[test]
fn typed_cpt_reader_rejects_boreholes() {
    assert!(matches!(
        parse_cpt(BHR_G_MINIMAL),
        Err(BroError::UnexpectedDocumentType { expected: BroDocumentType::Cpt, found: BroDocumentType::BhrG })
    ));
}

#[test]
fn short_data_row_is_an_invalid_value() {
    let xml = CPT_MINIMAL.replace("<values>-999999,2.0,", "<values>2.0,");
    assert!(matches!(parse_cpt(&xml), Err(BroError::InvalidValue { .. })));
}

#[test]
fn unsupported_schema_version_is_refused() {
    let xml = CPT_MINIMAL.replace("dscpt/1.1", "dscpt/9.9");
    assert!(matches!(detect(&xml), Err(BroError::UnsupportedSchema { .. })));
}

#[test]
fn geological_intervals_come_out_by_upper_boundary() {
    let xml = r#"<BHR_G_O xmlns="http://www.broservices.nl/xsd/dsbhrg/3.1">
  <broId>BHR000000000005</broId>
  <boring>
    <layer><upperBoundary>2.0</upperBoundary><lowerBoundary>3.5</lowerBoundary><lithology>klei</lithology></layer>
    <layer><upperBoundary>0.0</upperBoundary><lowerBoundary>2.0</lowerBoundary><lithology>zand</lithology></layer>
  </boring>
</BHR_G_O>"#;
    let bore = parse_bhr_g(xml).unwrap();
    assert_eq!(bore.intervals.len(), 2);
    assert_eq!(value_of(bore.intervals[0].upper_boundary), 0.0);
    assert_eq!(bore.intervals[0].lithology.as_deref(), Some("zand"));
    assert_eq!(value_of(bore.intervals[1].upper_boundary), 2.0);
    for iv in &bore.intervals {
        assert!(value_of(iv.upper_boundary) < value_of(iv.lower_boundary));
    }
}

#[test]
fn parses_geotechnical_intervals() {
    let bore = parse_bhr_gt(BHR_GT_MINIMAL).unwrap();
    assert_eq!(bore.common.bro_id, "BHR000000000001");
    assert_eq!(bore.intervals.len(), 2);
    assert_eq!(bore.intervals[0].soil_name.as_deref(), Some("sterkSiltigeKlei"));
    assert!(value_of(bore.intervals[0].upper_boundary) < value_of(bore.intervals[0].lower_boundary));
}

#[test]
fn collects_all_geotechnical_secondary_attribute_categories() {
    let xml = BHR_GT_MINIMAL.replace(
        "      <organicMatterContent>zwakHumeus</organicMatterContent>",
        r#"      <anomalousLayer>schelp</anomalousLayer>
      <chunks>grind</chunks>
      <peatFraction>weinig</peatFraction>
      <pedologicalSoilName>eerdgrond</pedologicalSoilName>
      <organicMatterContent>zwakHumeus</organicMatterContent>
      <carbonateContent>kalkrijk</carbonateContent>
      <ripening>gerijpt</ripening>
      <soilStructure>massief</soilStructure>
      <horizonValue>Ah</horizonValue>"#,
    );
    let bore = parse_bhr_gt(&xml).unwrap();
    let first: &GeotechnicalInterval = &bore.intervals[0];
    let secondary = &first.secondary;

    for (code, value) in [
        ("anomalousLayer", "schelp"),
        ("chunks", "grind"),
        ("peatFraction", "weinig"),
        ("pedologicalSoilName", "eerdgrond"),
        ("organicMatterContent", "zwakHumeus"),
        ("carbonateContent", "kalkrijk"),
        ("ripening", "gerijpt"),
        ("soilStructure", "massief"),
        ("horizonValue", "Ah"),
    ] {
        assert!(
            secondary.iter().any(|attribute| attribute.code == code && attribute.value == value),
            "missing {code}"
        );
    }
}

#[test]
fn sorts_geotechnical_intervals_by_upper_boundary() {
    let xml = BHR_GT_MINIMAL
        .replace("<upperBoundary>0.0</upperBoundary>", "<upperBoundary>4.0</upperBoundary>")
        .replace("<lowerBoundary>1.5</lowerBoundary>", "<lowerBoundary>5.0</lowerBoundary>")
        .replace("<upperBoundary>1.5</upperBoundary>", "<upperBoundary>0.0</upperBoundary>");
    let bore = parse_bhr_gt(&xml).unwrap();

    assert_eq!(value_of(bore.intervals[0].upper_boundary), 0.0);
    assert_eq!(value_of(bore.intervals[1].upper_boundary), 4.0);
}

#[test]
fn rejects_non_finite_and_reversed_interval_boundaries_with_slash_paths() {
    let non_finite = BHR_GT_MINIMAL.replace("<upperBoundary>0.0</upperBoundary>", "<upperBoundary>NaN</upperBoundary>");
    assert!(matches!(
        parse_bhr_gt(&non_finite),
        Err(BroError::InvalidValue { path, .. }) if path.contains("/layer/upperBoundary")
    ));

    let reversed = BHR_G_MINIMAL.replacen("<lowerBoundary>2.0</lowerBoundary>", "<lowerBoundary>0.0</lowerBoundary>", 1);
    assert!(matches!(
        parse_bhr_g(&reversed),
        Err(BroError::InvalidValue { path, .. }) if path.contains("/layer/layer/lowerBoundary")
    ));
}

#[test]
fn geotechnical_interval_without_soil_name_has_none() {
    let xml = BHR_GT_MINIMAL.replace(
        "      <geotechnicalSoilName>zwakZandigeKlei</geotechnicalSoilName>\n",
        "",
    );
    let bore = parse_bhr_gt(&xml).unwrap();
    assert_eq!(bore.intervals[1].soil_name, None);
    assert!(bore.intervals[1].secondary.is_empty());
    assert_eq!(bore.intervals[0].secondary.len(), 1);
    assert_eq!(bore.intervals[0].secondary[0].code, "organicMatterContent");
}

#[test]
fn cell_the_library_cannot_hold_does_not_hide_a_later_short_row() {
    let xml = CPT_MINIMAL
        .replace("<values>-999999,2.0,-999999,5.0,", "<values>-999999,2.0,-999999,1e20,")
        .replace(";-999999,1.0,", ";1.0,");
    let err = parse_cpt(&xml).unwrap_err();
    assert!(matches!(err, BroError::InvalidValue { ref path, .. } if path.ends_with("/1")));

    let held = CPT_MINIMAL.replace("<values>-999999,2.0,-999999,5.0,", "<values>-999999,2.0,-999999,1e20,");
    let cpt = parse_cpt(&held).unwrap();
    assert_eq!(cpt.measurements.len(), 2);
    assert_eq!(cpt.measurements[1].cone_resistance, None);
}

#[test]
fn layer_with_a_boundary_the_library_cannot_hold_makes_no_interval() {
    let xml = BHR_G_MINIMAL.replacen("<lowerBoundary>3.5</lowerBoundary>", "<lowerBoundary>1e20</lowerBoundary>", 1);
    let bore = parse_bhr_g(&xml).unwrap();
    assert_eq!(bore.intervals.len(), 1);
    assert_eq!(bore.intervals[0].lithology.as_deref(), Some("zand"));
}
