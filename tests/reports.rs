use aimd::reports::InitFiles;

#[test]
fn energy_header() {
    let f = InitFiles::init_energy();
    assert_eq!(f.name, "energy.txt");
    let expected = format!(
        "{:<30} {:<30} {:<30} {}\n",
        "Time fs", "Potential 100 KJ/mol", "Kinetic 100 KJ/mol", "Total 100 KJ/mol"
    );
    assert_eq!(f.header, expected);
}

#[test]
fn kinetic_and_velocity_headers() {
    let k = InitFiles::init_kinetic();
    assert_eq!(k.header, format!("{:<30} {:<30} {}\n", "Number", "Symbol", "Kinetic 100 kJ/mol"));
    let v = InitFiles::init_velocity();
    assert_eq!(
        v.header,
        format!("{:<30} {:<30} {:<30} {:<30} {:<30} {}\n", "Number", "Symbol", "X", "Y", "Z", "Magnitude")
    );
    assert_eq!(v.name, "velocity.txt");
}

#[test]
fn all_report_files() {
    let files = InitFiles::new();
    let names: Vec<&str> = files.iter().map(|f| f.name.as_str()).collect();
    assert_eq!(names, vec!["energy.txt", "kinetic.txt", "velocity.txt", "trajectory.xyz", "save.json"]);
    assert_eq!(files[3].header, "");
    assert_eq!(files[4].header, "");
    assert_eq!(InitFiles::init_trajectory().header, "");
    assert_eq!(InitFiles::init_save().name, "save.json");
}
