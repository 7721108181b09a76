use aimd::output::{parse_output, OutputError};

fn log() -> String {
    [
        " SCF Done:  E(RB3LYP) =  -76.3000000     A.U. after   10 cycles",
        " SCF Done:  E(RB3LYP) =  -76.4089533     A.U. after    8 cycles",
        " Center     Atomic                   Forces (Hartrees/Bohr)",
        " Number     Number              X              Y              Z",
        "      1        8           0.000000000    0.000000000    0.012345678",
        "      2        1           0.000000000    0.004567890   -0.006172839",
        "      3        1           0.000000000   -0.004567890   -0.006172839",
        "",
    ]
    .join("\n")
}

#[test]
fn forces_and_energy_line() {
    let out = parse_output(&log(), 3).unwrap();
    assert_eq!(out.forces.len(), 3);
    assert_eq!(out.forces[0].z, "0.012345678");
    assert_eq!(out.forces[1].y, "0.004567890");
    assert_eq!(out.forces[2].x, "0.000000000");
    assert_eq!(out.energy_words[4], "-76.4089533");
}

#[test]
fn missing_energy_line() {
    let text = "      1        8           0.000000000    0.000000000    0.012345678\n";
    assert_eq!(parse_output(text, 1).unwrap_err(), OutputError::MissingEnergy);
}

#[test]
fn force_count_must_match_atoms() {
    assert_eq!(parse_output(&log(), 2).unwrap_err(), OutputError::ForceCount);
    assert_eq!(parse_output(" SCF Done: E = -1.0\n", 1).unwrap_err(), OutputError::ForceCount);
}

#[test]
fn energy_line_must_start_the_line() {
    let text = "SCF Done:  E(RB3LYP) =  -76.4\n";
    assert_eq!(parse_output(text, 0).unwrap_err(), OutputError::MissingEnergy);
}
