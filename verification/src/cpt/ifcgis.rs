//! The plain parts of the IfcGis project file: its header, coordinate
//! reference system and drawing title block.

use vstd::prelude::*;

verus! {

/// The schema the project file writer produces.
pub const SCHEMA_VERSION: &'static str = "ifcgis-0.4";

/// The header of a project file.
#[derive(Clone, Debug)]
pub struct Header {
    pub schema: String,
    pub originating_system: String,
    /// RFC 3339 time of writing.
    pub timestamp: String,
}

/// The current time as RFC 3339 text.
///
/// Calls `chrono::Utc::now` and `DateTime::to_rfc3339`; the result depends
/// on the clock, so nothing is stated of it.
#[verifier::external_body]
fn now_rfc3339() -> String {
    chrono::Utc::now().to_rfc3339()
}

impl Header {
    /// A header of the current schema, written now by `originating_system`.
    pub fn new(originating_system: String) -> (r: Self)
        ensures
            r.schema@ == SCHEMA_VERSION@,
            r.originating_system@ == originating_system@,
    {
        Header { schema: SCHEMA_VERSION.to_string(), originating_system, timestamp: now_rfc3339() }
    }
}

/// A coordinate reference system by EPSG code and name.
#[derive(Clone, Debug)]
pub struct Crs {
    pub epsg: u32,
    pub name: String,
}

impl Default for Crs {
    /// Amersfoort / RD New (EPSG:28992).
    fn default() -> (r: Self)
        ensures
            r.epsg == 28992,
            r.name@ == "Amersfoort / RD New"@,
    {
        Crs { epsg: 28992, name: "Amersfoort / RD New".to_string() }
    }
}

/// The fields printed in the title block of a drawing; all may be empty.
#[derive(Clone, Debug, Default)]
pub struct TitleBlock {
    pub project: String,
    pub project_number: String,
    pub address: String,
    pub drawing_number: String,
    pub scale: String,
    pub date: String,
    pub drawn_by: String,
    pub checked_by: String,
    pub version: String,
}

/// Which parts a CPT report holds.
#[derive(Clone, Copy, Debug)]
pub struct ReportSections {
    pub cover: bool,
    pub coord_table: bool,
    pub map: bool,
    pub per_cpt: bool,
    pub sbt_legend: bool,
    pub metadata: bool,
}

impl Default for ReportSections {
    /// Every part but the classification legend and the metadata appendix.
    fn default() -> (r: Self)
        ensures
            r.cover && r.coord_table && r.map && r.per_cpt && !r.sbt_legend && !r.metadata,
    {
        ReportSections { cover: true, coord_table: true, map: true, per_cpt: true, sbt_legend: false, metadata: false }
    }
}

/// One part of a CPT report after its cover.
#[derive(Clone, Copy, Debug, PartialEq, Eq, Structural)]
pub enum ReportPart {
    /// The table of CPT coordinates.
    CoordTable,
    /// The overview map of the CPT locations.
    OverviewMap,
    /// The page of the CPT at this index of the input.
    CptPage(usize),
    /// The soil behaviour type legend.
    SbtLegend,
    /// The metadata appendix.
    Metadata,
}

/// The parts a report on `n` CPTs holds, in their fixed order: coordinate
/// table, overview map, one page per CPT in input order, legend, metadata,
/// each when `sec` selects it.
pub open spec fn report_parts(sec: ReportSections, n: nat) -> Seq<ReportPart> {
    (if sec.coord_table {
        seq![ReportPart::CoordTable]
    } else {
        seq![]
    }) + (if sec.map {
        seq![ReportPart::OverviewMap]
    } else {
        seq![]
    }) + (if sec.per_cpt {
        Seq::new(n, |i: int| ReportPart::CptPage(i as usize))
    } else {
        seq![]
    }) + (if sec.sbt_legend {
        seq![ReportPart::SbtLegend]
    } else {
        seq![]
    }) + (if sec.metadata {
        seq![ReportPart::Metadata]
    } else {
        seq![]
    })
}

/// The parts, after the cover, of a report on `n_cpts` CPTs with the
/// sections `sec` selects, in the order the report holds them.
pub fn report_plan(sec: ReportSections, n_cpts: usize) -> (r: Vec<ReportPart>)
    ensures
        r@ == report_parts(sec, n_cpts as nat),
{
    let mut out: Vec<ReportPart> = Vec::new();
    if sec.coord_table {
        out.push(ReportPart::CoordTable);
    }
    if sec.map {
        out.push(ReportPart::OverviewMap);
    }
    let ghost head = out@;
    if sec.per_cpt {
        for i in 0..n_cpts
            invariant
                out@ == head + Seq::new(i as nat, |j: int| ReportPart::CptPage(j as usize)),
        {
            out.push(ReportPart::CptPage(i));
            proof {
                assert(out@ =~= head + Seq::new((i + 1) as nat, |j: int| ReportPart::CptPage(j as usize)));
            }
        }
    }
    if sec.sbt_legend {
        out.push(ReportPart::SbtLegend);
    }
    if sec.metadata {
        out.push(ReportPart::Metadata);
    }
    proof {
        assert(out@ =~= report_parts(sec, n_cpts as nat));
    }
    out
}

} // verus!
