use geotechniek::bro::document::parse_cpt;
use geotechniek::calendar::Date;
use geotechniek::cpt::gef::data::parse as gef_parse;
use geotechniek::cpt::gef::header::parse_header;
use geotechniek::kernel::project::{GeotechnicalProject, ProjectMetadata};
use geotechniek::number::Number;

fn dec(n: Number) -> f64 {
    n.num as f64 / n.den as f64
}

#[test]
fn lowercase_gef_keywords_are_recognised() {
    let lines = vec!["#testid= X1", "#EOH="];
    let (h, k) = parse_header(&lines).unwrap();
    assert_eq!(k, 2);
    assert_eq!(h.test_id.as_deref(), Some("X1"));
}

#[test]
fn gef_file_date_becomes_the_cpt_date() {
    let gef = "#GEFID= 1, 0, 0\n#TESTID= D1\n#FILEDATE= 2026, 05, 15\n#COLUMN= 2\n#COLUMNINFO= 1, m, Length, 1\n#COLUMNINFO= 2, MPa, Qc, 2\n#EOH=\n0.02 1.0\n";
    let cpt = gef_parse(gef).unwrap();
    assert_eq!(cpt.metadata.date, Some(Date { year: 2026, month: 5, day: 15 }));
}

#[test]
fn impossible_gef_date_is_absent() {
    let gef = "#GEFID= 1, 0, 0\n#TESTID= D2\n#FILEDATE= 2026, 02, 30\n#COLUMN= 2\n#COLUMNINFO= 1, m, Length, 1\n#COLUMNINFO= 2, MPa, Qc, 2\n#EOH=\n0.02 1.0\n";
    let cpt = gef_parse(gef).unwrap();
    assert_eq!(cpt.metadata.date, None);
}

#[test]
fn bro_research_dates_are_read() {
    let xml = r#"<CPT_O xmlns="http://www.broservices.nl/xsd/dscpt/1.1">
  <broId>CPT000000000009</broId>
  <researchStartDate>2021-03-04</researchStartDate>
  <conePenetrationTest><cptResult><values>-999999,1.0,-999999,2.0,-999999,-999999,-999999,-999999,-999999,-999999,-999999,-999999,-999999,-999999,-999999,-999999,-999999,-999999,-999999,-999999,-999999,-999999,-999999,-999999,-999999;</values></cptResult></conePenetrationTest>
</CPT_O>"#;
    let cpt = parse_cpt(xml).unwrap();
    assert_eq!(cpt.common.research_start_date, Some(Date { year: 2021, month: 3, day: 4 }));
    assert_eq!(cpt.measurements.len(), 1);
    assert_eq!(dec(cpt.measurements[0].depth), 1.0);
    assert_eq!(cpt.measurements[0].sleeve_friction, None);
}

#[test]
fn bro_element_names_with_prefixes_are_read_by_local_name() {
    let xml = r#"<cpt:CPT_O xmlns:cpt="http://www.broservices.nl/xsd/dscpt/1.1">
  <cpt:broId>CPT000000000010</cpt:broId>
  <cpt:conePenetrationTest><cpt:cptResult><cpt:values>-999999,1.5,-999999,2.0,-999999,-999999,-999999,-999999,-999999,-999999,-999999,-999999,-999999,-999999,-999999,-999999,-999999,-999999,-999999,-999999,-999999,-999999,-999999,-999999,-999999;</cpt:values></cpt:cptResult></cpt:conePenetrationTest>
</cpt:CPT_O>"#;
    let cpt = parse_cpt(xml).unwrap();
    assert_eq!(cpt.common.bro_id, "CPT000000000010");
}

#[test]
fn header_timestamp_is_written() {
    let h = geotechniek::cpt::ifcgis::Header::new("studio".to_string());
    assert_eq!(h.schema, "ifcgis-0.4");
    assert_eq!(h.originating_system, "studio");
    assert!(!h.timestamp.is_empty());
}

#[test]
fn project_metadata_starts_empty() {
    let p = GeotechnicalProject::new(ProjectMetadata::empty());
    assert!(p.objects().is_empty());
    assert!(p.metadata().date.is_none());
}

#[test]
fn crs_defaults_to_rd_new() {
    let c = <geotechniek::cpt::ifcgis::Crs as Default>::default();
    assert_eq!(c.epsg, 28992);
    assert_eq!(c.name, "Amersfoort / RD New");
}

#[test]
fn end_of_header_is_matched_exactly() {
    let lines = vec!["#testid= X1", "#eoh="];
    assert!(parse_header(&lines).is_err());
}
