//! The report files that a fresh run starts, each with its header line.

use crate::text::{chars_of, string_of, views};
use vstd::prelude::*;

verus! {

/// Width of a report column.
pub const COLUMN: usize = 30;

/// `s` padded with spaces on the right to `width` characters.
pub open spec fn padded(s: Seq<char>, width: nat) -> Seq<char> {
    if s.len() < width {
        s + Seq::new((width - s.len()) as nat, |i: int| ' ')
    } else {
        s
    }
}

/// A line of columns: each field padded to the column width and followed by
/// a space, then `last` unpadded, then a newline.
pub open spec fn columns(fields: Seq<Seq<char>>, last: Seq<char>) -> Seq<char>
    decreases fields.len(),
{
    if fields.len() == 0 {
        last.push('\n')
    } else {
        padded(fields[0], COLUMN as nat) + seq![' '] + columns(fields.drop_first(), last)
    }
}

fn columns_line(fields: &Vec<Vec<char>>, last: &Vec<char>) -> (r: Vec<char>)
    ensures
        r@ == columns(views(fields@), last@),
{
    let ghost fs = views(fields@);
    let mut out: Vec<char> = Vec::new();
    let mut i: usize = 0;
    assert(fs.skip(0) =~= fs);
    while i < fields.len()
        invariant
            i <= fields@.len(),
            fs == views(fields@),
            out@ + columns(fs.skip(i as int), last@) == columns(fs, last@),
        decreases fields@.len() - i,
    {
        let f = &fields[i];
        let ghost before = out@;
        assert(fs.skip(i as int).drop_first() =~= fs.skip(i as int + 1));
        assert(fs.skip(i as int)[0] == f@);
        let mut j: usize = 0;
        while j < f.len()
            invariant
                j <= f@.len(),
                out@ == before + f@.take(j as int),
            decreases f@.len() - j,
        {
            out.push(f[j]);
            assert(f@.take(j as int + 1) =~= f@.take(j as int).push(f@[j as int]));
            j = j + 1;
        }
        assert(f@.take(f@.len() as int) =~= f@);
        let mut k: usize = f.len();
        while k < COLUMN
            invariant
                f@.len() <= k <= COLUMN || (k == f@.len() && f@.len() >= COLUMN),
                out@ == before + f@ + Seq::new((k - f@.len()) as nat, |m: int| ' '),
            decreases COLUMN - k,
        {
            out.push(' ');
            assert(before + f@ + Seq::new((k + 1 - f@.len()) as nat, |m: int| ' ') =~= (before
                + f@ + Seq::new((k - f@.len()) as nat, |m: int| ' ')).push(' '));
            k = k + 1;
        }
        assert(out@ =~= before + padded(f@, COLUMN as nat)) by {
            if f@.len() >= COLUMN {
                assert(Seq::new((k - f@.len()) as nat, |m: int| ' ') =~= Seq::<char>::empty());
            }
        }
        out.push(' ');
        assert(out@ + columns(fs.skip(i as int + 1), last@) =~= before + columns(
            fs.skip(i as int),
            last@,
        ));
        i = i + 1;
    }
    let ghost before = out@;
    let mut j: usize = 0;
    while j < last.len()
        invariant
            j <= last@.len(),
            out@ == before + last@.take(j as int),
        decreases last@.len() - j,
    {
        out.push(last[j]);
        assert(last@.take(j as int + 1) =~= last@.take(j as int).push(last@[j as int]));
        j = j + 1;
    }
    out.push('\n');
    assert(last@.take(last@.len() as int) =~= last@);
    assert(fs.skip(i as int) =~= Seq::<Seq<char>>::empty());
    assert(out@ =~= before + columns(fs.skip(i as int), last@));
    out
}

/// A report file to create, and the header it starts with.
#[derive(Clone, Debug)]
pub struct ReportFile {
    pub name: String,
    pub header: String,
}

/// The report files of a run.
pub struct InitFiles {}

impl InitFiles {
    /// Every report file of a fresh run with its header: energies, per-atom
    /// kinetic energies, velocities, trajectory and checkpoint log, in this
    /// order.
    pub fn new() -> (r: Vec<ReportFile>)
        ensures
            r@.len() == 5,
            r@[0].name@ == "energy.txt"@ && r@[0].header@ == energy_header(),
            r@[1].name@ == "kinetic.txt"@ && r@[1].header@ == kinetic_header(),
            r@[2].name@ == "velocity.txt"@ && r@[2].header@ == velocity_header(),
            r@[3].name@ == "trajectory.xyz"@ && r@[3].header@.len() == 0,
            r@[4].name@ == "save.json"@ && r@[4].header@.len() == 0,
    {
        let mut r: Vec<ReportFile> = Vec::new();
        r.push(Self::init_energy());
        r.push(Self::init_kinetic());
        r.push(Self::init_velocity());
        r.push(Self::init_trajectory());
        r.push(Self::init_save());
        r
    }

    /// The energy report: time, potential, kinetic and total energy.
    pub fn init_energy() -> (r: ReportFile)
        ensures
            r.name@ == "energy.txt"@,
            r.header@ == energy_header(),
    {
        let fields = vec![chars_of("Time fs"), chars_of("Potential 100 KJ/mol"), chars_of("Kinetic 100 KJ/mol")];
        assert(views(fields@) =~= seq!["Time fs"@, "Potential 100 KJ/mol"@, "Kinetic 100 KJ/mol"@]);
        let line = columns_line(&fields, &chars_of("Total 100 KJ/mol"));
        ReportFile { name: "energy.txt".to_owned(), header: string_of(line.as_slice()) }
    }

    /// The per-atom kinetic energy report: index, symbol, kinetic energy.
    pub fn init_kinetic() -> (r: ReportFile)
        ensures
            r.name@ == "kinetic.txt"@,
            r.header@ == kinetic_header(),
    {
        let fields = vec![chars_of("Number"), chars_of("Symbol")];
        assert(views(fields@) =~= seq!["Number"@, "Symbol"@]);
        let line = columns_line(&fields, &chars_of("Kinetic 100 kJ/mol"));
        ReportFile { name: "kinetic.txt".to_owned(), header: string_of(line.as_slice()) }
    }

    /// The velocity report: index, symbol, the three components, magnitude.
    pub fn init_velocity() -> (r: ReportFile)
        ensures
            r.name@ == "velocity.txt"@,
            r.header@ == velocity_header(),
    {
        let fields = vec![chars_of("Number"), chars_of("Symbol"), chars_of("X"), chars_of("Y"), chars_of("Z")];
        assert(views(fields@) =~= seq!["Number"@, "Symbol"@, "X"@, "Y"@, "Z"@]);
        let line = columns_line(&fields, &chars_of("Magnitude"));
        ReportFile { name: "velocity.txt".to_owned(), header: string_of(line.as_slice()) }
    }

    /// The trajectory, which starts empty.
    pub fn init_trajectory() -> (r: ReportFile)
        ensures
            r.name@ == "trajectory.xyz"@,
            r.header@.len() == 0,
    {
        ReportFile { name: "trajectory.xyz".to_owned(), header: String::new() }
    }

    /// The checkpoint log, which starts empty.
    pub fn init_save() -> (r: ReportFile)
        ensures
            r.name@ == "save.json"@,
            r.header@.len() == 0,
    {
        ReportFile { name: "save.json".to_owned(), header: String::new() }
    }
}

/// Header of the energy report.
pub open spec fn energy_header() -> Seq<char> {
    columns(seq!["Time fs"@, "Potential 100 KJ/mol"@, "Kinetic 100 KJ/mol"@], "Total 100 KJ/mol"@)
}

/// Header of the per-atom kinetic energy report.
pub open spec fn kinetic_header() -> Seq<char> {
    columns(seq!["Number"@, "Symbol"@], "Kinetic 100 kJ/mol"@)
}

/// Header of the velocity report.
pub open spec fn velocity_header() -> Seq<char> {
    columns(seq!["Number"@, "Symbol"@, "X"@, "Y"@, "Z"@], "Magnitude"@)
}

} // verus!
