use aimd::geometry::{ingest, GeometryRecord, IngestError};
use aimd::species::lookup_species;

fn two_blocks() -> String {
    [
        " Charge =  0 Multiplicity = 1",
        " NAtoms=      3 NActive=      3 NUniq=      2",
        "                         Standard orientation:",
        "      1          8           0        0.000000    0.000000    0.117300",
        "      2          1           0        0.000000    0.757200   -0.469200",
        "      3          1           0        0.000000   -0.757200   -0.469200",
        " Optimization step",
        "      1          8           0        0.000000    0.000000    0.120000",
        "      2          1           0        0.000000    0.760000   -0.470000",
        "      3          1           0        0.000000   -0.760000   -0.470000",
        " Normal termination",
        "",
    ]
    .join("\n")
}

fn fields(r: &GeometryRecord) -> (u32, String, u32, String, String, String) {
    (
        r.atomic_number,
        r.symbol.clone(),
        r.mass_e4,
        r.x.clone(),
        r.y.clone(),
        r.z.clone(),
    )
}

#[test]
fn ingest_takes_last_block() {
    let atoms = ingest(&two_blocks()).unwrap();
    assert_eq!(atoms.len(), 3);
    assert_eq!(
        fields(&atoms[0]),
        (8, "O".to_string(), 159990, "0.000000".to_string(), "0.000000".to_string(), "0.120000".to_string())
    );
    assert_eq!(
        fields(&atoms[1]),
        (1, "H".to_string(), 10080, "0.000000".to_string(), "0.760000".to_string(), "-0.470000".to_string())
    );
    assert_eq!(atoms[2].y, "-0.760000");
}

#[test]
fn ingest_twice_gives_the_same_atoms() {
    let first = ingest(&two_blocks()).unwrap();
    let second = ingest(&two_blocks()).unwrap();
    let a: Vec<_> = first.iter().map(fields).collect();
    let b: Vec<_> = second.iter().map(fields).collect();
    assert_eq!(a, b);
}

#[test]
fn ingest_handles_crlf_lines() {
    let text = " NAtoms=  1\r\n   1   6   0   1.500000   -2.000000   0.250000\r\n";
    let atoms = ingest(text).unwrap();
    assert_eq!(atoms.len(), 1);
    assert_eq!(atoms[0].symbol, "C");
    assert_eq!(atoms[0].z, "0.250000");
}

#[test]
fn ingest_without_count_fails() {
    let text = "      1          8           0        0.000000    0.000000    0.117300\n";
    assert_eq!(ingest(text).unwrap_err(), IngestError::MissingAtomCount);
}

#[test]
fn ingest_count_line_without_number_fails() {
    let text = " NAtoms= none\n      1          8           0        0.000000    0.000000    0.117300\n";
    assert_eq!(ingest(text).unwrap_err(), IngestError::MissingAtomCount);
}

#[test]
fn ingest_unsupported_species() {
    let text = " NAtoms= 1\n      1          3           0        0.000000    0.000000    0.117300\n";
    assert_eq!(ingest(text).unwrap_err(), IngestError::UnsupportedSpecies(3));
}

#[test]
fn ingest_fewer_records_than_declared() {
    let text = " NAtoms= 2\n      1          8           0        0.000000    0.000000    0.117300\n";
    assert_eq!(ingest(text).unwrap_err(), IngestError::MalformedRecord);
}

#[test]
fn ingest_atomic_number_too_large() {
    let text = " NAtoms= 1\n      1   99999999999   0        0.000000    0.000000    0.117300\n";
    assert_eq!(ingest(text).unwrap_err(), IngestError::MalformedRecord);
}

#[test]
fn ingest_zero_atoms() {
    let text = " NAtoms= 0\n      1          8           0        0.000000    0.000000    0.117300\n";
    assert_eq!(ingest(text).unwrap().len(), 0);
}

#[test]
fn ingest_skips_lines_off_the_grammar() {
    let text = " NAtoms= 1\n1 8 0 0.0 0.0 0.0\n   1   8   0   0.5   0.5\n   2   1   0   1.0   2.0   3.0\n";
    let atoms = ingest(text).unwrap();
    assert_eq!(atoms.len(), 1);
    assert_eq!(atoms[0].symbol, "H");
    assert_eq!(atoms[0].x, "1.0");
}

#[test]
fn species_table() {
    let h = lookup_species(1).unwrap();
    assert_eq!((h.symbol.as_str(), h.mass_e4), ("H", 10080));
    let au = lookup_species(79).unwrap();
    assert_eq!((au.symbol.as_str(), au.mass_e4), ("Au", 1969700));
    let cl = lookup_species(17).unwrap();
    assert_eq!((cl.symbol.as_str(), cl.mass_e4), ("Cl", 354500));
    assert!(lookup_species(3).is_none());
    assert!(lookup_species(0).is_none());
}
