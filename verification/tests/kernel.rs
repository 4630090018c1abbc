use geotechniek::kernel::project::{
    is_ifcgeo_source, DuplicatePolicy, GeotechnicalObject, GeotechnicalProject, KernelError, ObjectKind,
    ProjectMetadata,
};
use geotechniek::number::Number;

const KERNEL_CPT: &str = r#"<?xml version="1.0" encoding="UTF-8"?>
<CPT_O xmlns="http://www.broservices.nl/xsd/dscpt/1.1">
  <broId>CPT000000000001</broId>
  <deliveredLocation>
    <location srsName="EPSG:28992"><pos>155000 463000</pos></location>
  </deliveredLocation>
  <finalDepth>1.5</finalDepth>
  <coneType>electrical</coneType>
  <conePenetrationTest>
    <cptResult>
      <values>1.0,1.0,2.0,13.3,14.0,15.0,16.0,17.0,18.0,19.0,20.0,21.0,22.0,23.0,24.0,115.15,26.0,27.0,118.18,29.0,30.0,31.0,122.22,33.0,124.24;1.5,1.5,2.0,13.3,14.0,15.0,16.0,17.0,18.0,19.0,20.0,21.0,22.0,23.0,24.0,115.15,26.0,27.0,118.18,29.0,30.0,31.0,122.22,33.0,124.24;</values>
    </cptResult>
  </conePenetrationTest>
</CPT_O>
"#;

const KERNEL_CPT_NON_RD: &str = r#"<?xml version="1.0" encoding="UTF-8"?>
<CPT_O xmlns="http://www.broservices.nl/xsd/dscpt/1.1">
  <broId>CPT000000000003</broId>
  <deliveredLocation>
    <location srsName="EPSG:4326"><pos>5.1 52.1</pos></location>
  </deliveredLocation>
  <conePenetrationTest>
    <cptResult>
      <values>1.0,1.0,2.0,3.0,4.0,5.0,6.0,7.0,8.0,9.0,10.0,11.0,12.0,13.0,14.0,15.0,16.0,17.0,18.0,19.0,20.0,21.0,22.0,23.0,24.0;</values>
    </cptResult>
  </conePenetrationTest>
</CPT_O>
"#;

const KERNEL_BHR_GT: &str = r#"<?xml version="1.0" encoding="UTF-8"?>
<BHR_GT_O xmlns="http://www.broservices.nl/xsd/dsbhr-gt/2.1">
  <broId>BHR000000000001</broId>
  <boring>
    <finalDepthBoring>3.0</finalDepthBoring>
  </boring>
</BHR_GT_O>
"#;

const KERNEL_BHR_G: &str = r#"<?xml version="1.0" encoding="UTF-8"?>
<BHR_G_O xmlns="http://www.broservices.nl/xsd/dsbhrg/3.1">
  <broId>BHR000000000002</broId>
  <boring>
    <layer>
      <upperBoundary>0.0</upperBoundary>
      <lowerBoundary>1.0</lowerBoundary>
      <lithology>zand</lithology>
    </layer>
  </boring>
</BHR_G_O>
"#;

fn as_f64(n: Number) -> f64 {
    n.num as f64 / n.den as f64
}

fn extra_of(cpt: &geotechniek::cpt::Cpt, key: &str) -> Option<String> {
    let k: Vec<char> = key.chars().collect();
    cpt.metadata.extra.get(&k).cloned()
}

fn titled(title: &str) -> ProjectMetadata {
    let mut m = ProjectMetadata::empty();
    m.title = title.to_owned();
    m
}

#[test]
fn rejects_duplicate_bro_ids() {
    let mut project = GeotechnicalProject::new(ProjectMetadata::empty());
    project.import_bro(KERNEL_BHR_GT, "first.xml").unwrap();
    let error = project.import_bro(KERNEL_BHR_GT, "second.xml").unwrap_err();
    assert!(matches!(error, KernelError::DuplicateObject { ref id } if id == "BHR000000000001"));
}

#[test]
fn object_order_is_deterministic() {
    let mut project = GeotechnicalProject::new(ProjectMetadata::empty());
    project.import_bro(KERNEL_BHR_G, "g.xml").unwrap();
    project.import_bro(KERNEL_BHR_GT, "gt.xml").unwrap();
    let ids: Vec<_> = project.objects().into_iter().map(|object| object.id()).collect();
    assert_eq!(ids, vec!["BHR000000000001", "BHR000000000002"]);
}

#[test]
fn supports_crud_metadata_and_typed_iteration() {
    let mut project = GeotechnicalProject::new(titled("Dijkvak"));
    assert_eq!(project.metadata().title, "Dijkvak");

    let object = project.import_bro(KERNEL_CPT, "cpt.xml").unwrap();
    assert_eq!(object.kind(), ObjectKind::Cpt);
    assert_eq!(project.cpts().len(), 1);
    assert_eq!(project.get("CPT000000000001").unwrap().id(), object.id());

    let mut replacement = ProjectMetadata::empty();
    replacement.author = "Auteur".to_owned();
    project.set_metadata(replacement);
    assert_eq!(project.metadata().author, "Auteur");
    assert_eq!(project.metadata().title, "");
    assert_eq!(project.remove(object.id()).unwrap().id(), object.id());
    assert!(matches!(
        project.get(object.id()),
        Err(KernelError::ObjectNotFound { ref id }) if id == object.id()
    ));
}

#[test]
fn merge_policy_is_explicit_and_atomic_when_rejecting_duplicates() {
    let mut target = GeotechnicalProject::new(ProjectMetadata::empty());
    target.import_bro(KERNEL_BHR_GT, "target.xml").unwrap();

    let mut incoming = GeotechnicalProject::new(ProjectMetadata::empty());
    incoming.import_bro(KERNEL_BHR_GT, "duplicate.xml").unwrap();
    incoming.import_bro(KERNEL_BHR_G, "new.xml").unwrap();

    let error = target.merge_from(incoming, DuplicatePolicy::Reject).unwrap_err();
    assert!(matches!(error, KernelError::DuplicateObject { ref id } if id == "BHR000000000001"));
    assert!(matches!(target.get("BHR000000000002"), Err(KernelError::ObjectNotFound { .. })));
}

#[test]
fn replace_merge_overwrites_existing_objects() {
    let mut target = GeotechnicalProject::new(ProjectMetadata::empty());
    target.import_bro(KERNEL_CPT, "old.xml").unwrap();
    let mut incoming = GeotechnicalProject::new(ProjectMetadata::empty());
    incoming.import_bro(KERNEL_CPT, "new.xml").unwrap();

    target.merge_from(incoming, DuplicatePolicy::Replace).unwrap();
    assert_eq!(target.cpts()[0].metadata.source_file, "new.xml");
}

#[test]
fn detects_layers_only_for_cpt_objects() {
    let mut project = GeotechnicalProject::new(ProjectMetadata::empty());
    project.import_bro(KERNEL_CPT, "cpt.xml").unwrap();
    project.import_bro(KERNEL_BHR_GT, "bhr.xml").unwrap();

    let layers = project.detect_cpt_layers("CPT000000000001").unwrap();
    assert_eq!(layers.len(), 1);
    assert_eq!(as_f64(layers[0].depth_top), 1.0);
    assert!(matches!(project.detect_cpt_layers("BHR000000000001"), Err(KernelError::Conversion { .. })));
}

#[test]
fn imports_bro_cpt_into_existing_cpt_domain() {
    let mut project = GeotechnicalProject::new(ProjectMetadata::empty());
    let object = project.import_bro(KERNEL_CPT, "cpt.xml").unwrap();
    let GeotechnicalObject::Cpt(cpt) = object else { panic!("expected CPT") };
    assert_eq!(cpt.id, "CPT000000000001");
    assert_eq!(cpt.metadata.source_file, "cpt.xml");
    assert_eq!(extra_of(&cpt, "cone_type").as_deref(), Some("electrical"));
    assert_eq!(extra_of(&cpt, "position_crs").as_deref(), Some("EPSG:28992"));
    assert_eq!(cpt.points.len(), 2);
    assert_eq!(as_f64(cpt.points[0].depth), 1.0);
    assert_eq!(cpt.points[0].depth_nap, None);
    assert_eq!(cpt.points[0].qc.map(as_f64), Some(13.3));
    assert_eq!(cpt.points[0].fs.map(as_f64), Some(118.18));
    assert_eq!(cpt.points[0].rf.map(as_f64), Some(124.24));
    assert_eq!(cpt.points[0].u2.map(as_f64), Some(122.22));
    assert_eq!(cpt.points[0].inclination.map(as_f64), Some(115.15));
    assert_eq!(as_f64(cpt.position.unwrap().x_rd), 155_000.0);
}

#[test]
fn preserves_non_rd_coordinates_without_typed_rd_position() {
    let mut project = GeotechnicalProject::new(ProjectMetadata::empty());
    let object = project.import_bro(KERNEL_CPT_NON_RD, "non-rd.xml").unwrap();
    let GeotechnicalObject::Cpt(cpt) = object else { panic!("expected CPT") };
    assert_eq!(cpt.id, "CPT000000000003");
    assert!(cpt.position.is_none());
    assert_eq!(extra_of(&cpt, "position_crs").as_deref(), Some("EPSG:4326"));
    assert_eq!(extra_of(&cpt, "position_x").as_deref(), Some("5.1"));
    assert_eq!(extra_of(&cpt, "position_y").as_deref(), Some("52.1"));
    assert_eq!(project.objects().len(), 1);
    assert_eq!(project.cpts().len(), 1);
    assert_eq!(project.get("CPT000000000003").unwrap().id(), cpt.id);
}

#[test]
fn calculates_nap_depth_only_when_vertical_offset_exists() {
    let xml = KERNEL_CPT.replace(
        "<conePenetrationTest>",
        "<deliveredVerticalPosition><offset>2.5</offset><verticalDatum>NAP</verticalDatum></deliveredVerticalPosition><conePenetrationTest>",
    );
    let mut project = GeotechnicalProject::new(ProjectMetadata::empty());
    let GeotechnicalObject::Cpt(cpt) = project.import_bro(&xml, "vertical.xml").unwrap() else {
        panic!("expected CPT")
    };
    assert_eq!(cpt.metadata.ground_level_nap.map(as_f64), Some(2.5));
    assert_eq!(cpt.points[0].depth_nap.map(as_f64), Some(1.5));
    assert_eq!(cpt.position.unwrap().z_nap.map(as_f64), Some(2.5));
}

#[test]
fn imports_cpt_content_and_rejects_duplicate_ids() {
    let content = r#"#GEFID= 1, 0, 0
#TESTID= CPT-GEF
#COLUMN= 2
#COLUMNINFO= 1, m, Length, 1
#COLUMNINFO= 2, MPa, Qc, 2
#EOH=
0.02 5.5
"#;
    let mut project = GeotechnicalProject::new(ProjectMetadata::empty());
    let first = project.import_cpt(content, "first.gef").unwrap();
    assert_eq!(first.metadata.source_file, "first.gef");
    let error = project.import_cpt(content, "second.gef").unwrap_err();
    assert!(matches!(error, KernelError::DuplicateObject { ref id } if id == "CPT-GEF"));
}

#[test]
fn ifcgeo_sources_are_recognised_in_any_case() {
    assert!(is_ifcgeo_source("new.ifcgeo"));
    assert!(is_ifcgeo_source("NEW.IfcGeo"));
    assert!(!is_ifcgeo_source("new.gef"));
    assert!(!is_ifcgeo_source("fcgeo"));
}

#[test]
fn parsed_cpt_keeps_its_values_under_the_new_source() {
    let cpt = geotechniek::cpt::write::write_gef(&{
        let mut p = GeotechnicalProject::new(ProjectMetadata::empty());
        let GeotechnicalObject::Cpt(c) = p.import_bro(KERNEL_CPT, "a.xml").unwrap() else { panic!() };
        c
    });
    let parsed = geotechniek::cpt::parse_auto(&cpt);
    let mut project = GeotechnicalProject::new(ProjectMetadata::empty());
    let stored = project.import_parsed_cpt(parsed, "renamed.gef").unwrap();
    assert_eq!(stored.metadata.source_file, "renamed.gef");
    assert_eq!(stored.id, "CPT000000000001");
}

#[test]
fn parse_errors_leave_the_project_unchanged() {
    let mut project = GeotechnicalProject::new(ProjectMetadata::empty());
    project.import_bro(KERNEL_BHR_G, "g.xml").unwrap();
    assert!(matches!(project.import_bro("<broken", "x.xml"), Err(KernelError::Bro(_))));
    assert!(matches!(
        project.import_cpt("not a cpt", "x.gef"),
        Err(KernelError::Cpt(geotechniek::cpt::CptError::UnknownFormat))
    ));
    assert_eq!(project.objects().len(), 1);
}

#[test]
fn replace_merge_adds_new_and_keeps_unrelated_objects() {
    let mut target = GeotechnicalProject::new(ProjectMetadata::empty());
    target.import_bro(KERNEL_BHR_GT, "gt.xml").unwrap();
    let mut incoming = GeotechnicalProject::new(titled("other"));
    incoming.import_bro(KERNEL_BHR_G, "g.xml").unwrap();
    target.merge_from(incoming, DuplicatePolicy::Reject).unwrap();
    let ids: Vec<_> = target.objects().into_iter().map(|o| o.id().to_owned()).collect();
    assert_eq!(ids, vec!["BHR000000000001".to_owned(), "BHR000000000002".to_owned()]);
    assert_eq!(target.metadata().title, "");
}

#[test]
fn not_a_cpt_message_names_the_object() {
    let mut project = GeotechnicalProject::new(ProjectMetadata::empty());
    project.import_bro(KERNEL_BHR_GT, "gt.xml").unwrap();
    assert!(matches!(
        project.detect_cpt_layers("BHR000000000001"),
        Err(KernelError::Conversion { ref message }) if message == "geotechnical object BHR000000000001 is not a CPT"
    ));
    assert!(matches!(
        project.detect_cpt_layers("missing"),
        Err(KernelError::ObjectNotFound { ref id }) if id == "missing"
    ));
}

#[test]
fn removing_a_missing_object_reports_it() {
    let mut project = GeotechnicalProject::new(ProjectMetadata::empty());
    assert!(matches!(project.remove("X"), Err(KernelError::ObjectNotFound { ref id }) if id == "X"));
}
