use geotechniek::cpt::parse_auto;
use geotechniek::kernel::project::{GeotechnicalObject, KernelError, ProjectMetadata};
use geotechniek::kernel::project_file::{load_project_file, typed_bore, FileBore};

const BHR_GT: &str = r#"<?xml version="1.0" encoding="UTF-8"?>
<BHR_GT_O xmlns="http://www.broservices.nl/xsd/dsbhr-gt/2.1">
  <broId>BHR000000000001</broId>
  <boring>
    <finalDepthBoring>3.0</finalDepthBoring>
  </boring>
</BHR_GT_O>
"#;

fn gef_cpt(id: &str) -> geotechniek::cpt::Cpt {
    let content = format!(
        "#GEFID= 1, 0, 0\n#TESTID= {id}\n#COLUMN= 2\n#COLUMNINFO= 1, m, Length, 1\n#COLUMNINFO= 2, MPa, Qc, 2\n#EOH=\n0.02 5.5\n"
    );
    parse_auto(&content).unwrap()
}

fn bore<'a>(id: Option<&str>, xml: Option<&'a str>) -> FileBore<'a> {
    FileBore { id: id.map(str::to_owned), source_xml: xml }
}

#[test]
fn rejects_a_loaded_cpt_that_collides_with_an_opaque_bore_id() {
    let bores = vec![bore(Some("LEGACY-BORE-1"), None)];
    let error = load_project_file(ProjectMetadata::empty(), vec![gef_cpt("LEGACY-BORE-1")], &bores).err().unwrap();
    assert!(matches!(error, KernelError::DuplicateObject { ref id } if id == "LEGACY-BORE-1"));
}

#[test]
fn retained_xml_with_a_mismatched_wrapper_id_stays_opaque() {
    let bores = vec![bore(Some("LEGACY-BORE-1"), None), bore(Some("WRAPPER-BHR-1"), Some(BHR_GT))];
    let loaded = load_project_file(ProjectMetadata::empty(), vec![gef_cpt("CPT-1")], &bores).ok().unwrap();
    assert!(matches!(loaded.project.get("BHR000000000001"), Err(KernelError::ObjectNotFound { .. })));
    assert_eq!(loaded.opaque, vec![0, 1]);
    assert_eq!(loaded.opaque_ids, vec!["LEGACY-BORE-1".to_string(), "WRAPPER-BHR-1".to_string()]);
    assert!(loaded.project.get("CPT-1").is_ok());
}

#[test]
fn retained_xml_under_its_own_id_is_typed_and_keeps_its_source() {
    let bores = vec![bore(Some("BHR000000000001"), Some(BHR_GT)), bore(None, None)];
    let loaded = load_project_file(ProjectMetadata::empty(), Vec::new(), &bores).ok().unwrap();
    match loaded.project.get("BHR000000000001").ok().unwrap() {
        GeotechnicalObject::BhrGt(d) => assert_eq!(d.source_xml.as_deref(), Some(BHR_GT)),
        _ => panic!("expected a BHR-GT document"),
    }
    assert_eq!(loaded.opaque, vec![1]);
    assert!(loaded.opaque_ids.is_empty());
}

#[test]
fn an_identifier_claimed_twice_stops_the_load() {
    let typed_twice = vec![bore(Some("BHR000000000001"), Some(BHR_GT)), bore(Some("BHR000000000001"), Some(BHR_GT))];
    let error = load_project_file(ProjectMetadata::empty(), Vec::new(), &typed_twice).err().unwrap();
    assert!(matches!(error, KernelError::DuplicateObject { ref id } if id == "BHR000000000001"));

    let opaque_then_typed = vec![bore(Some("BHR000000000001"), None), bore(Some("BHR000000000001"), Some(BHR_GT))];
    let error = load_project_file(ProjectMetadata::empty(), Vec::new(), &opaque_then_typed).err().unwrap();
    assert!(matches!(error, KernelError::DuplicateObject { ref id } if id == "BHR000000000001"));

    let error = load_project_file(ProjectMetadata::empty(), vec![gef_cpt("C"), gef_cpt("C")], &Vec::new()).err().unwrap();
    assert!(matches!(error, KernelError::DuplicateObject { ref id } if id == "C"));
}

#[test]
fn bores_without_a_wrapper_id_or_readable_xml_are_not_typed() {
    assert!(typed_bore(None, Some(BHR_GT)).is_none());
    assert!(typed_bore(Some("BHR000000000001"), None).is_none());
    assert!(typed_bore(Some("BHR000000000001"), Some("<nope/>")).is_none());
    assert!(typed_bore(Some("BHR000000000001"), Some(BHR_GT)).is_some());
}

#[test]
fn rejects_import_colliding_with_opaque_bore_without_mutating_the_project() {
    let bores = vec![bore(Some("LEGACY-BORE-1"), None)];
    let mut loaded = load_project_file(ProjectMetadata::empty(), vec![gef_cpt("CPT-1")], &bores).ok().unwrap();
    let before_objects = loaded.project.objects().len();
    let xml = r#"<BHR_GT_O xmlns="http://www.broservices.nl/xsd/dsbhr-gt/2.1">
  <broId>LEGACY-BORE-1</broId>
  <finalDepthBoring>1.0</finalDepthBoring>
  <boring />
</BHR_GT_O>"#;

    let error = loaded.import_bro(xml, "collision.xml").err().unwrap();
    assert!(matches!(error, KernelError::DuplicateObject { ref id } if id == "LEGACY-BORE-1"));
    assert_eq!(loaded.project.objects().len(), before_objects);
    assert_eq!(loaded.opaque, vec![0]);
    assert_eq!(loaded.opaque_ids, vec!["LEGACY-BORE-1".to_string()]);

    let stored = loaded.import_bro(BHR_GT, "ok.xml").ok().unwrap();
    assert!(matches!(stored, GeotechnicalObject::BhrGt(_)));
    assert_eq!(loaded.project.objects().len(), before_objects + 1);
}
