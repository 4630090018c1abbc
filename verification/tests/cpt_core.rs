use geotechniek::calendar::Date;
use geotechniek::cpt::gef::columns::GefField;
use geotechniek::cpt::gef::data::parse as parse_gef;
use geotechniek::cpt::gef::header::parse_header;
use geotechniek::cpt::layers::detect_layers;
use geotechniek::cpt::robertson::{classify, zones};
use geotechniek::cpt::write::{write_bro_xml, write_gef};
use geotechniek::cpt::ifcgis::{report_plan, ReportPart, ReportSections};
use geotechniek::cpt::{parse_auto, Cpt, CptError, MeasurementPoint, Metadata, Position};
use geotechniek::keyed::KeyedVec;
use geotechniek::number::{parse_number, Number, Parsed};

fn num(text: &str) -> Number {
    let chars: Vec<char> = text.chars().collect();
    match parse_number(&chars) {
        Parsed::Finite(n) => n,
        _ => panic!("not a number: {text}"),
    }
}

fn approx(n: Number) -> f64 {
    n.num as f64 / n.den as f64
}

fn chars_text(s: &str) -> Vec<char> {
    s.chars().collect()
}

fn sample_cpt() -> Cpt {
    let mut extra = KeyedVec::new();
    extra.insert("note".to_string(), "demo".to_string());
    Cpt {
        id: "S01".into(),
        metadata: Metadata {
            project_name: Some("Demo".into()),
            project_number: Some("2026-001".into()),
            date: Some(Date { year: 2026, month: 5, day: 15 }),
            equipment: Some("Konings BV".into()),
            ground_level_nap: Some(num("1.25")),
            source_file: "S01.gef".into(),
            extra,
        },
        position: Some(Position { x_rd: num("100000.0"), y_rd: num("400000.0"), z_nap: Some(num("1.25")) }),
        points: vec![
            MeasurementPoint {
                depth: num("0.02"),
                depth_nap: Some(num("1.23")),
                qc: Some(num("1.5")),
                fs: Some(num("0.015")),
                rf: Some(num("1.0")),
                u2: None,
                inclination: Some(num("0.5")),
            },
            MeasurementPoint {
                depth: num("0.04"),
                depth_nap: Some(num("1.21")),
                qc: Some(num("1.8")),
                fs: Some(num("0.018")),
                rf: Some(num("1.0")),
                u2: None,
                inclination: Some(num("0.6")),
            },
            MeasurementPoint {
                depth: num("0.06"),
                depth_nap: Some(num("1.19")),
                qc: Some(num("2.1")),
                fs: Some(num("0.020")),
                rf: None,
                u2: None,
                inclination: Some(num("0.7")),
            },
        ],
    }
}

fn layer_cpt(points: Vec<(&str, &str, &str)>) -> Cpt {
    Cpt {
        id: "T".to_string(),
        metadata: Metadata {
            project_name: None,
            project_number: None,
            date: None,
            equipment: None,
            ground_level_nap: None,
            source_file: "test.gef".to_string(),
            extra: KeyedVec::new(),
        },
        position: None,
        points: points
            .into_iter()
            .map(|(d, qc, rf)| MeasurementPoint {
                depth: num(d),
                depth_nap: None,
                qc: Some(num(qc)),
                fs: None,
                rf: Some(num(rf)),
                u2: None,
                inclination: None,
            })
            .collect(),
    }
}

fn depth_text(i: usize, step: &str) -> String {
    let s = approx(num(step));
    format!("{:.2}", i as f64 * s)
}

#[test]
fn computes_rf_when_missing() {
    let gef = r#"#GEFID= 1, 0, 0
#TESTID= TEST
#XYID= 1, 100000.0, 400000.0
#ZID= 31000, 0.0
#COLUMN= 3
#COLUMNINFO= 1, m, Sondeerlengte, 1
#COLUMNINFO= 2, MPa, Conusweerstand, 2
#COLUMNINFO= 3, MPa, Wrijving, 3
#COLUMNSEPARATOR= ;
#RECORDSEPARATOR= !
#EOH=
0.02 ; 5.0 ; 0.05 !
0.04 ; 6.0 ; 0.06 !
"#;
    let cpt = parse_gef(gef).unwrap();
    assert_eq!(cpt.points.len(), 2);
    let p = cpt.points[0];
    assert!((approx(p.rf.unwrap()) - 1.0).abs() < 1e-6, "rf should be 1.0%, got {:?}", p.rf);
}

#[test]
fn applies_void_value() {
    let gef = r#"#GEFID= 1, 0, 0
#COLUMN= 2
#COLUMNINFO= 1, m, Length, 1
#COLUMNINFO= 2, MPa, Qc, 2
#COLUMNVOID= 2, -9999
#EOH=
0.02 -9999
0.04 5.5
"#;
    let cpt = parse_gef(gef).unwrap();
    assert_eq!(cpt.points.len(), 2);
    assert_eq!(cpt.points[0].qc, None);
    assert_eq!(cpt.points[1].qc.map(approx), Some(5.5));
}

#[test]
fn rejects_unknown_format() {
    let result = parse_auto("hello world\nthis is not a CPT file");
    assert!(matches!(result, Err(CptError::UnknownFormat)));
}

#[test]
fn parses_minimal_header() {
    let lines = vec![
        "#GEFID= 1, 0, 0",
        "#TESTID= S01",
        "#PROJECTID= TEST-2026",
        "#XYID= 1, 100000.0, 400000.0",
        "#ZID= 31000, 2.5",
        "#COLUMN= 3",
        "#COLUMNINFO= 1, m, Sondeerlengte, 1",
        "#COLUMNINFO= 2, MPa, Conusweerstand, 2",
        "#COLUMNINFO= 3, MPa, Wrijving, 3",
        "#COLUMNVOID= 2, -9999",
        "#EOH=",
        "0.02 1.5 0.015",
    ];
    let (h, data_start) = parse_header(&lines).unwrap();
    assert_eq!(data_start, 11);
    assert_eq!(h.test_id.as_deref(), Some("S01"));
    assert_eq!(h.project_id.as_deref(), Some("TEST-2026"));
    assert_eq!(h.x_rd.map(approx), Some(100_000.0));
    assert_eq!(h.y_rd.map(approx), Some(400_000.0));
    assert_eq!(h.z_nap.map(approx), Some(2.5));
    assert_eq!(h.columns.len(), 3);
    assert_eq!(h.columns[1].field, GefField::Qc);
    assert_eq!(h.column_void.len(), 1);
    assert_eq!(h.column_void[0].0, 2);
    assert_eq!(approx(h.column_void[0].1), -9999.0);
}

#[test]
fn errors_on_missing_eoh() {
    let lines = vec!["#TESTID= S01", "0.02 1.5"];
    assert!(parse_header(&lines).is_err());
}

#[test]
fn empty_cpt_has_no_layers() {
    let cpt = layer_cpt(vec![]);
    assert_eq!(detect_layers(&cpt).len(), 0);
}

#[test]
fn uniform_zone_collapses_to_one_layer() {
    let depths: Vec<String> = (0..50).map(|i| depth_text(i, "0.02")).collect();
    let pts = depths.iter().map(|d| (d.as_str(), "8.0", "0.7")).collect();
    let cpt = layer_cpt(pts);
    let layers = detect_layers(&cpt);
    assert_eq!(layers.len(), 1);
    assert_eq!(layers[0].zone_number, 6);
    assert!((approx(layers[0].depth_top) - 0.0).abs() < 1e-9);
    assert!((approx(layers[0].depth_bottom) - 0.98).abs() < 1e-9);
}

#[test]
fn distinct_zones_become_separate_layers() {
    let depths: Vec<String> = (0..40).map(|i| depth_text(i, "0.1")).collect();
    let mut pts = vec![];
    for (i, d) in depths.iter().enumerate() {
        if i < 20 {
            pts.push((d.as_str(), "8.0", "0.7"));
        } else {
            pts.push((d.as_str(), "1.5", "6.0"));
        }
    }
    let cpt = layer_cpt(pts);
    let layers = detect_layers(&cpt);
    assert_eq!(layers.len(), 2);
    assert_eq!(layers[0].zone_number, 6);
}

#[test]
fn thin_layer_below_threshold_is_merged() {
    let depths: Vec<String> = (0..53).map(|i| depth_text(i, "0.02")).collect();
    let mut pts = vec![];
    for (i, d) in depths.iter().enumerate() {
        if (25..28).contains(&i) {
            pts.push((d.as_str(), "1.5", "6.0"));
        } else {
            pts.push((d.as_str(), "8.0", "0.7"));
        }
    }
    let cpt = layer_cpt(pts);
    let layers = detect_layers(&cpt);
    assert_eq!(layers.len(), 1, "thin layer should merge into surrounding zand");
    assert_eq!(layers[0].zone_number, 6);
}

#[test]
fn classify_returns_none_for_invalid_input() {
    assert!(classify(num("0.0"), num("1.0")).is_none());
    assert!(classify(num("-1.0"), num("1.0")).is_none());
    assert!(classify(num("1.0"), num("-0.1")).is_none());
}

#[test]
fn classify_high_qc_low_rf_is_grof_zand() {
    let z = classify(num("30.0"), num("0.5")).unwrap();
    assert_eq!(z.number, 7);
}

#[test]
fn classify_medium_qc_medium_rf_is_zand() {
    let z = classify(num("8.0"), num("0.7")).unwrap();
    assert_eq!(z.number, 6);
}

#[test]
fn classify_low_qc_high_rf_is_klei_or_organic() {
    let z = classify(num("1.5"), num("6.0")).unwrap();
    assert!(z.number == 2 || z.number == 3, "got zone {}", z.number);
}

#[test]
fn zones_returns_nine_entries() {
    assert_eq!(zones().len(), 9);
}

#[test]
fn zones_have_unique_numbers() {
    let nums: std::collections::HashSet<u8> = zones().iter().map(|z| z.number).collect();
    assert_eq!(nums.len(), 9);
}

#[test]
fn gef_round_trip() {
    let original = sample_cpt();
    let gef = write_gef(&original);
    let back = parse_gef(&gef).expect("write_gef output should parse");
    assert_eq!(back.id, "S01");
    assert_eq!(back.points.len(), 3);
    assert!((approx(back.points[0].qc.unwrap()) - 1.5).abs() < 1e-3);
    assert!((approx(back.points[1].fs.unwrap()) - 0.018).abs() < 1e-4);
}

#[test]
fn gef_writes_required_headers() {
    let cpt = sample_cpt();
    let gef = write_gef(&cpt);
    assert!(gef.contains("#FILEOWNER="), "GEF output must contain #FILEOWNER=\n{}", gef);
    assert!(gef.contains("#PROJECTID="), "GEF output must contain #PROJECTID=\n{}", gef);
    let data_start = gef.find("#EOH=").expect("missing EOH") + "#EOH=\n".len();
    let data_section = &gef[data_start..];
    assert!(data_section.contains(";"), "data section must contain `;` separator: {:?}", data_section);
    assert!(
        !data_section.contains(" ;") && !data_section.contains("; "),
        "data section must not pad `;` with spaces:\n{}",
        data_section
    );
    assert!(!data_section.contains(" !"), "no space before `!`:\n{}", data_section);
    let back = parse_gef(&gef).expect("write_gef output should still parse");
    assert_eq!(back.points.len(), cpt.points.len());
}

#[test]
fn gef_emits_projectid_even_when_missing() {
    let mut cpt = sample_cpt();
    cpt.metadata.project_number = None;
    cpt.metadata.extra = KeyedVec::new();
    let gef = write_gef(&cpt);
    assert!(gef.contains("#PROJECTID="), "PROJECTID must be emitted with a fallback when source has none");
}

#[test]
fn gef_matches_bro_sample_structure() {
    let cpt = sample_cpt();
    let gef = write_gef(&cpt);
    assert!(gef.contains("#REPORTCODE= GEF-CPT-Report"), "missing #REPORTCODE:\n{gef}");
    let expected_lastscan = format!("#LASTSCAN= {}", cpt.points.len());
    assert!(gef.contains(&expected_lastscan), "missing or wrong {expected_lastscan}:\n{gef}");
    assert!(gef.contains("#MEASUREMENTVAR= 16,"), "missing #MEASUREMENTVAR= 16:\n{gef}");
    let data_start = gef.find("#EOH=").expect("missing EOH") + "#EOH=\n".len();
    let data_section = &gef[data_start..];
    let row_count = data_section.lines().filter(|l| !l.trim().is_empty()).count();
    assert_eq!(row_count, cpt.points.len(), "row count mismatch");
    for line in data_section.lines() {
        let trimmed = line.trim();
        if trimmed.is_empty() {
            continue;
        }
        assert!(trimmed.ends_with(";!"), "data row must end with `;!`: {trimmed:?}");
        assert!(!trimmed.contains(" ;") && !trimmed.contains("; "), "no spaces around `;`: {trimmed:?}");
    }
}

#[test]
fn bro_round_trip() {
    let original = sample_cpt();
    let xml = write_bro_xml(&original);
    let back = geotechniek::cpt::bro::parse(&xml).expect("write_bro_xml output should parse");
    assert_eq!(back.id, "S01");
    assert_eq!(back.points.len(), 3);
    assert!((approx(back.points[0].depth) - 0.02).abs() < 1e-3);
    assert!((approx(back.points[0].qc.unwrap()) - 1.5).abs() < 1e-3);
    assert_eq!(approx(back.position.unwrap().x_rd), 100_000.0);
}

#[test]
fn dispatches_gef_by_prefix_on_inline_text() {
    let gef = "  \n#GEFID= 1, 0, 0\n#COLUMN= 2\n#COLUMNINFO= 1, m, Length, 1\n#COLUMNINFO= 2, MPa, Qc, 2\n#EOH=\n0.02 1.0\n";
    let cpt = parse_auto(gef).unwrap();
    assert_eq!(cpt.points.len(), 1);
}

#[test]
fn dispatches_xml_by_prefix_on_written_bro() {
    let xml = write_bro_xml(&sample_cpt());
    let cpt = parse_auto(&xml).unwrap();
    assert_eq!(cpt.points.len(), 3);
    assert_eq!(cpt.id, "S01");
}

#[test]
fn bro_points_are_sorted_by_depth_after_parse() {
    let mut cpt = sample_cpt();
    cpt.points.reverse();
    let xml = write_bro_xml(&cpt);
    let back = geotechniek::cpt::bro::parse(&xml).unwrap();
    for w in back.points.windows(2) {
        assert!(approx(w[0].depth) <= approx(w[1].depth));
    }
}

#[test]
fn gef_missing_eoh_is_an_invalid_gef() {
    let result = parse_gef("#GEFID= 1, 0, 0\n0.02 1.0\n");
    assert!(matches!(result, Err(CptError::InvalidGef(ref m)) if m == "missing #EOH terminator"));
}

#[test]
fn invalid_bro_xml_is_reported() {
    let result = geotechniek::cpt::bro::parse("<notclosed>");
    assert!(matches!(result, Err(CptError::InvalidBro(_))));
}

#[test]
fn gef_rf_is_written_with_one_decimal() {
    let gef = write_gef(&sample_cpt());
    assert!(gef.contains("0.020;1.500;0.015;1.0;!"), "{gef}");
    assert!(gef.contains("0.060;2.100;0.020;999.9;!"), "{gef}");
}

#[test]
fn layer_thickness_is_bottom_minus_top() {
    let depths: Vec<String> = (0..50).map(|i| depth_text(i, "0.02")).collect();
    let pts = depths.iter().map(|d| (d.as_str(), "8.0", "0.7")).collect();
    let layers = detect_layers(&layer_cpt(pts));
    assert!((approx(layers[0].thickness()) - 0.98).abs() < 1e-9);
}

#[test]
fn text_helpers_reach_the_parser() {
    let lines = vec!["#TESTID= X", "#EOH="];
    let (h, k) = parse_header(&lines).unwrap();
    assert_eq!(k, 2);
    assert_eq!(h.test_id.as_deref(), Some("X"));
    assert_eq!(chars_text("ab").len(), 2);
}

#[test]
fn gef_read_back_keeps_header_and_points() {
    let original = sample_cpt();
    let back = parse_gef(&write_gef(&original)).expect("write_gef output should parse");
    assert_eq!(back.id, "S01");
    assert_eq!(back.metadata.project_number.as_deref(), Some("2026-001"));
    assert_eq!(back.metadata.project_name, None);
    assert_eq!(back.metadata.equipment.as_deref(), Some("Konings BV"));
    let d = back.metadata.date.expect("date read back");
    assert_eq!((d.year, d.month, d.day), (2026, 5, 15));
    assert!((approx(back.metadata.ground_level_nap.unwrap()) - 1.25).abs() < 1e-9);
    let pos = back.position.expect("position read back");
    assert!((approx(pos.x_rd) - 100000.0).abs() < 1e-9);
    assert!((approx(pos.y_rd) - 400000.0).abs() < 1e-9);
    assert!((approx(pos.z_nap.unwrap()) - 1.25).abs() < 1e-9);
    assert_eq!(back.points.len(), 3);
    let depths: Vec<f64> = back.points.iter().map(|p| approx(p.depth)).collect();
    assert!((depths[0] - 0.02).abs() < 1e-9 && (depths[1] - 0.04).abs() < 1e-9 && (depths[2] - 0.06).abs() < 1e-9);
    assert!((approx(back.points[0].depth_nap.unwrap()) - 1.23).abs() < 1e-9);
    assert!((approx(back.points[0].rf.unwrap()) - 1.0).abs() < 1e-9);
    // the third point was written without a friction ratio: it is derived
    assert!((approx(back.points[2].rf.unwrap()) - 100.0 * 0.020 / 2.1).abs() < 1e-9);
    assert!(back.points.iter().all(|p| p.u2.is_none() && p.inclination.is_none()));
}

#[test]
fn bro_read_back_keeps_values_and_voids() {
    let original = sample_cpt();
    let back = geotechniek::cpt::bro::parse(&write_bro_xml(&original)).expect("write_bro_xml output should parse");
    assert_eq!(back.points.len(), 3);
    let p0 = &back.points[0];
    assert!((approx(p0.fs.unwrap()) - 0.015).abs() < 1e-9);
    assert!((approx(p0.inclination.unwrap()) - 0.5).abs() < 1e-9);
    assert!((approx(p0.rf.unwrap()) - 1.0).abs() < 1e-9);
    assert!(p0.u2.is_none(), "a value written as void reads back as absent");
    assert!((approx(p0.depth_nap.unwrap()) - 1.23).abs() < 1e-9);
    // the third point was written without a friction ratio: it is derived
    assert!((approx(back.points[2].rf.unwrap()) - 100.0 * 0.020 / 2.1).abs() < 1e-9);
}

#[test]
fn gef_numbers_the_library_cannot_hold_leave_values_unset_or_records_out() {
    let text = "#GEFID= 1, 1, 0\n#XYID= 1, 1e20, 2\n#ZID= 31000, inf\n#COLUMN= 2\n#COLUMNINFO= 1, m, Length, 1\n#COLUMNINFO= 2, MPa, Qc, 2\n#COLUMNVOID= 2, 1e40\n#EOH=\n0.02 5.5\n1e20 3.0\n0.04 NaN\n0.06 6.0\n";
    let cpt = parse_gef(text).unwrap();
    assert!(cpt.position.is_none());
    assert!(cpt.metadata.ground_level_nap.is_none());
    assert_eq!(cpt.points.len(), 2);
    assert_eq!(cpt.points[0].depth, num("0.02"));
    assert_eq!(cpt.points[1].depth, num("0.06"));
    assert_eq!(cpt.points[1].qc, Some(num("6.0")));
}

#[test]
fn gef_without_eoh_is_the_only_failure() {
    let err = parse_gef("#XYID= 1, 1e20, 2\n0.02 1.5").unwrap_err();
    assert!(matches!(err, CptError::InvalidGef(ref m) if m == "missing #EOH terminator"));
}

#[test]
fn bro_cpt_cells_the_library_cannot_hold_are_absent() {
    let xml = r#"<?xml version="1.0"?>
<dispatchDataResponse>
  <brocom:broId xmlns:brocom="x">CPT1</brocom:broId>
  <deliveredVerticalPosition><offset>1e300</offset></deliveredVerticalPosition>
  <cptResult><values>-999999,1.0,-999999,1e20,-999999,-999999,-999999,-999999,-999999,-999999,-999999,-999999,-999999,-999999,-999999,-999999,-999999,-999999,-999999,-999999,-999999,-999999,-999999,-999999,-999999;</values></cptResult>
</dispatchDataResponse>"#;
    let cpt = parse_auto(xml).unwrap();
    assert_eq!(cpt.points.len(), 1);
    assert_eq!(cpt.points[0].depth, num("1.0"));
    assert_eq!(cpt.points[0].qc, None);
    assert!(cpt.metadata.ground_level_nap.is_none());
}

#[test]
fn report_parts_come_in_their_fixed_order() {
    let all = ReportSections { cover: true, coord_table: true, map: true, per_cpt: true, sbt_legend: true, metadata: true };
    assert_eq!(
        report_plan(all, 2),
        vec![
            ReportPart::CoordTable,
            ReportPart::OverviewMap,
            ReportPart::CptPage(0),
            ReportPart::CptPage(1),
            ReportPart::SbtLegend,
            ReportPart::Metadata,
        ]
    );
    let default = ReportSections::default();
    assert_eq!(report_plan(default, 1), vec![ReportPart::CoordTable, ReportPart::OverviewMap, ReportPart::CptPage(0)]);
    let none = ReportSections { cover: true, coord_table: false, map: false, per_cpt: false, sbt_legend: false, metadata: false };
    assert!(report_plan(none, 3).is_empty());
}
