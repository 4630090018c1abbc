use geotechniek::baken::{summarize_tags, FeatureTags, Laagtype};
use geotechniek::klic::{parse_gi_xml, Coord, Geometry};
use geotechniek::number::Number;

const GI: &str = r##"<?xml version="1.0" encoding="UTF-8"?>
<gml:FeatureCollection xmlns:gml="http://www.opengis.net/gml/3.2" xmlns:imkl="http://www.geostandaarden.nl/imkl/wibon" xmlns:net="http://inspire.ec.europa.eu/schemas/net/4.0" xmlns:xlink="http://www.w3.org/1999/xlink">
  <gml:featureMember>
    <imkl:Graafpolygoon gml:id="nl.imkl-KL1234.gp">
      <imkl:geometrie2D>
        <gml:Polygon><gml:exterior><gml:LinearRing>
          <gml:posList srsDimension="2">100000.004 400000.005 100010 400000 100010 400010</gml:posList>
        </gml:LinearRing></gml:exterior></gml:Polygon>
      </imkl:geometrie2D>
    </imkl:Graafpolygoon>
  </gml:featureMember>
  <gml:featureMember>
    <imkl:Beheerder gml:id="nl.imkl-KL1234.b">
      <imkl:bronhoudercode>KL1234</imkl:bronhoudercode>
      <imkl:Organisatie><imkl:naam>Brabant Water</imkl:naam></imkl:Organisatie>
    </imkl:Beheerder>
  </gml:featureMember>
  <gml:featureMember>
    <imkl:Utiliteitsnet gml:id="nl.imkl-KL1234.net1">
      <imkl:thema xlink:href="http://definities.geostandaarden.nl/imkl2015/id/waarde/Thema/water"/>
    </imkl:Utiliteitsnet>
  </gml:featureMember>
  <gml:featureMember>
    <us-net-common:UtilityLink xmlns:us-net-common="urn:x" gml:id="nl.imkl-KL1234.link1">
      <net:centrelineGeometry>
        <gml:LineString><gml:posList>1 2 3 4</gml:posList></gml:LineString>
      </net:centrelineGeometry>
    </us-net-common:UtilityLink>
  </gml:featureMember>
  <gml:featureMember>
    <imkl:Waterleiding gml:id="nl.imkl-KL1234.w1">
      <net:inNetwork xlink:href="#nl.imkl-KL1234.net1"/>
      <net:link xlink:href="#nl.imkl-KL1234.link1"/>
      <imkl:pipeDiameter uom="urn:ogc:def:uom:OGC::mm">110</imkl:pipeDiameter>
      <imkl:buismateriaalType xlink:href="http://x/PE"/>
    </imkl:Waterleiding>
  </gml:featureMember>
  <gml:featureMember>
    <imkl:Appurtenance gml:id="nl.imkl-KL9999.a1">
      <imkl:appurtenanceType xlink:href="http://x/appurtenanceTypeValue/valve"/>
      <imkl:ligging><gml:Point><gml:pos>5.126 6.004</gml:pos></gml:Point></imkl:ligging>
    </imkl:Appurtenance>
  </gml:featureMember>
</gml:FeatureCollection>
"##;

fn hundredths(n: Option<Number>) -> i128 {
    let n = n.unwrap();
    n.num * 100 / n.den
}

#[test]
fn klic_features_are_assembled() {
    let lev = parse_gi_xml(GI, "26G1").unwrap();
    assert_eq!(lev.meldnummer, "26G1");
    assert_eq!(lev.features.len(), 3);

    let poly = &lev.features[0];
    assert_eq!(poly.thema, "graafpolygoon");
    assert_eq!(poly.kind, "Graafpolygoon");
    let Geometry::Polygon(ring) = &poly.geometry else { panic!("expected polygon") };
    assert_eq!(ring.len(), 4);
    assert_eq!(ring[0], ring[3]);
    assert_eq!(hundredths(ring[0].x), 10000000);
    assert_eq!(hundredths(ring[0].y), 40000001);

    let water = &lev.features[1];
    assert_eq!(water.kind, "Waterleiding");
    assert_eq!(water.thema, "water");
    assert_eq!(water.netbeheerder.as_deref(), Some("Brabant Water"));
    assert_eq!(water.bronhoudercode.as_deref(), Some("KL1234"));
    assert_eq!(water.diameter.as_deref(), Some("110 mm"));
    assert_eq!(water.materiaal.as_deref(), Some("PE"));
    assert_eq!(water.gml_id.as_deref(), Some("nl.imkl-KL1234.w1"));
    let Geometry::LineString(line) = &water.geometry else { panic!("expected line") };
    assert_eq!(line.len(), 2);
    assert_eq!(hundredths(line[1].x), 300);

    let valve = &lev.features[2];
    assert_eq!(valve.thema, "overig");
    assert_eq!(valve.netbeheerder.as_deref(), Some("KL9999"));
    assert_eq!(valve.app_type.as_deref(), Some("valve"));
    let Geometry::Point(p) = valve.geometry else { panic!("expected point") };
    assert_eq!(hundredths(p.x), 513);
    assert_eq!(hundredths(p.y), 600);
}

#[test]
fn klic_reader_errors_carry_the_position() {
    let err = parse_gi_xml("<a><b></a>", "1").unwrap_err();
    assert!(err.starts_with("XML-fout op positie "), "{err}");
}

#[test]
fn klic_element_without_geometry_is_skipped() {
    let xml = r#"<c><Kabelbed gml:id="x"></Kabelbed></c>"#;
    let lev = parse_gi_xml(xml, "2").unwrap();
    assert!(lev.features.is_empty());
}

#[test]
fn laagtype_names() {
    assert_eq!(Laagtype::Klic.as_str(), "klic");
    assert_eq!(Laagtype::Projecten.as_str(), "projecten");
    let c = Coord { x: None, y: None };
    assert_eq!(c.x, None);
}

fn zip_with(entries: &[(&str, &str)]) -> Vec<u8> {
    let mut buf = std::io::Cursor::new(Vec::new());
    {
        let mut w = zip::ZipWriter::new(&mut buf);
        let opts = zip::write::SimpleFileOptions::default().compression_method(zip::CompressionMethod::Stored);
        for (name, text) in entries {
            w.start_file(*name, opts).unwrap();
            std::io::Write::write_all(&mut w, text.as_bytes()).unwrap();
        }
        w.finish().unwrap();
    }
    buf.into_inner()
}

#[test]
fn klic_archive_yields_the_delivery_and_its_number() {
    let bytes = zip_with(&[
        ("readme.txt", "x"),
        ("levering/GI_gebiedsinformatielevering_26G123456_1_V2.xml", GI),
    ]);
    let lev = geotechniek::klic::convert_zip_bytes(&bytes, "a.zip").unwrap();
    assert_eq!(lev.meldnummer, "26G123456");
    assert_eq!(lev.features.len(), 3);
}

#[test]
fn archive_without_delivery_information_is_refused() {
    let bytes = zip_with(&[("readme.txt", "x")]);
    let err = geotechniek::klic::convert_zip_bytes(&bytes, "b.zip").unwrap_err();
    assert_eq!(err, "b.zip: geen GI_gebiedsinformatielevering-XML gevonden (geen KLIC-levering?)");
}

#[test]
fn bytes_that_are_no_archive_are_refused() {
    let err = geotechniek::klic::convert_zip_bytes(b"not a zip", "c.zip").unwrap_err();
    assert!(err.starts_with("c.zip: zip: "), "{err}");
}

#[test]
fn envelope_summary_counts_themas_and_lists_operators_once() {
    let tag = |t: Option<&str>, n: Option<&str>| FeatureTags {
        thema: t.map(str::to_owned),
        netbeheerder: n.map(str::to_owned),
    };
    let fs = vec![
        tag(Some("water"), Some("Vitens")),
        tag(Some("gas"), Some("Enexis")),
        tag(Some("water"), None),
        tag(None, Some("Vitens")),
    ];
    let (themas, operators) = summarize_tags(&fs);
    assert_eq!(themas.len(), 2);
    assert_eq!(themas.key_at(0), "gas");
    assert_eq!(*themas.value_at(0), 1);
    assert_eq!(themas.key_at(1), "water");
    assert_eq!(*themas.value_at(1), 2);
    assert_eq!(operators.len(), 2);
    assert_eq!(operators.key_at(0), "Enexis");
    assert_eq!(operators.key_at(1), "Vitens");
}

#[test]
fn klic_ordinate_the_library_cannot_hold_is_absent() {
    let xml = GI.replace("<gml:pos>5.126 6.004</gml:pos>", "<gml:pos>1e20 6.004</gml:pos>");
    let lev = parse_gi_xml(&xml, "26G1").unwrap();
    let Geometry::Point(p) = lev.features[2].geometry else { panic!("expected point") };
    assert_eq!(p.x, None);
    assert_eq!(hundredths(p.y), 600);
}
