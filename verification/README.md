# geotechniek

A verified library for Dutch geotechnical site data, with a thin
application around it.

- `src/` — the library, proved with Verus:
  - `text`, `number`, `calendar`, `keyed`: characters, exact decimals
    (numbers written in the syntax Rust accepts for an `f64`, held exactly
    below 10^17 with at most 18 decimals), calendar dates, and a map kept in
    ascending key order. The readers treat a number outside that range, or
    one that is not finite, as an absent value.
  - `xml`: XML events from `quick_xml`, recorded as plain values.
  - `bro`: BRO documents (CPT, BHR-GT, BHR-G): detection, common metadata,
    measurements, geological and geotechnical intervals, reference codes.
  - `cpt`: the CPT model, GEF and BRO readers, Robertson classification,
    layer detection, GEF and BRO writers; `cpt::round_trip` proves that
    the GEF reader gives back what the GEF writer wrote, and
    `cpt::bro_values` that the BRO reader gives back the data block the
    BRO writer wrote; `cpt::footer` fills the slots of a report footer.
  - `kernel`: a project of geotechnical objects kept under their identifiers,
    and the loading rules of a project file's CPTs and bores.
  - `klic`: KLIC delivery archives and their delivery information read
    into GeoJSON profile features.
  - `baken`: the layer types and source description of the GeoJSON profile.
- `tests/` — tests of the library on concrete inputs.
- `app/` — the `klic2geo` command line program, JSON and `.ifcgeo` formats
  through serde, coordinate transformations, SVG, PNG and PDF rendering:
  the parts that work on floating point, files or serde values.
