//! The force evaluator's output log: the force records of the geometry just
//! evaluated, and the line that reports its energy.

use crate::pattern::{force_pattern, force_pattern_spec, matching_lines, select_matching};
use crate::text::{chars_of, lines_of, lines_spec, string_of, views, words_of, words_spec};
use vstd::prelude::*;

verus! {

/// Why the evaluator's output could not be read.
#[derive(Clone, Copy, Debug, PartialEq, Eq)]
pub enum OutputError {
    /// A force record has fewer than five fields.
    MalformedForce,
    /// The number of force records is not the number of atoms.
    ForceCount,
    /// No line reports the energy.
    MissingEnergy,
}

/// The three components of one atom's force, as the log wrote them.
#[derive(Clone, Debug)]
pub struct ForceText {
    pub x: String,
    pub y: String,
    pub z: String,
}

/// What a `ForceText` holds, as plain values.
pub struct ForceTextView {
    pub x: Seq<char>,
    pub y: Seq<char>,
    pub z: Seq<char>,
}

impl View for ForceText {
    type V = ForceTextView;

    open spec fn view(&self) -> ForceTextView {
        ForceTextView { x: self.x@, y: self.y@, z: self.z@ }
    }
}

/// What the output log holds: one force per atom, in the order of the
/// geometry that was handed over, and the words of the energy line.
#[derive(Clone, Debug)]
pub struct EvaluatorText {
    pub forces: Vec<ForceText>,
    pub energy_words: Vec<String>,
}

/// The prefix of the energy line.
pub open spec fn energy_tag() -> Seq<char> {
    seq![' ', 'S', 'C', 'F', ' ', 'D', 'o', 'n', 'e']
}

pub open spec fn is_energy_line(l: Seq<char>) -> bool {
    l.len() >= energy_tag().len() && l.take(energy_tag().len() as int) == energy_tag()
}

/// The last energy line, if any.
pub open spec fn last_energy_line(lines: Seq<Seq<char>>) -> Option<Seq<char>>
    decreases lines.len(),
{
    if lines.len() == 0 {
        None
    } else if is_energy_line(lines.last()) {
        Some(lines.last())
    } else {
        last_energy_line(lines.drop_last())
    }
}

/// The components of one force record: its third to fifth words.
pub open spec fn force_spec(line: Seq<char>) -> Option<ForceTextView> {
    let w = words_spec(line);
    if w.len() < 5 {
        None
    } else {
        Some(ForceTextView { x: w[2], y: w[3], z: w[4] })
    }
}

/// The forces of the record lines, or `None` if one is malformed.
pub open spec fn forces_spec(ls: Seq<Seq<char>>) -> Option<Seq<ForceTextView>>
    decreases ls.len(),
{
    if ls.len() == 0 {
        Some(Seq::empty())
    } else {
        match (forces_spec(ls.drop_last()), force_spec(ls.last())) {
            (Some(fs), Some(f)) => Some(fs.push(f)),
            _ => None,
        }
    }
}

pub open spec fn force_views(v: Seq<ForceText>) -> Seq<ForceTextView> {
    v.map_values(|f: ForceText| f@)
}

pub open spec fn string_views(v: Seq<String>) -> Seq<Seq<char>> {
    v.map_values(|s: String| s@)
}

fn is_energy(line: &Vec<char>) -> (r: bool)
    ensures
        r == is_energy_line(line@),
{
    let tag: Vec<char> = vec![' ', 'S', 'C', 'F', ' ', 'D', 'o', 'n', 'e'];
    assert(tag@ =~= energy_tag());
    if line.len() < tag.len() {
        return false;
    }
    let mut i: usize = 0;
    while i < tag.len()
        invariant
            tag@ == energy_tag(),
            line@.len() >= tag@.len(),
            i <= tag@.len(),
            forall|k: int| 0 <= k < i ==> line@[k] == tag@[k],
        decreases tag@.len() - i,
    {
        if line[i] != tag[i] {
            assert(line@.take(tag@.len() as int)[i as int] != tag@[i as int]);
            return false;
        }
        i = i + 1;
    }
    assert(line@.take(tag@.len() as int) =~= tag@);
    true
}

fn strings_of(words: &Vec<Vec<char>>) -> (r: Vec<String>)
    ensures
        string_views(r@) == views(words@),
{
    let mut r: Vec<String> = Vec::new();
    let mut i: usize = 0;
    while i < words.len()
        invariant
            i <= words@.len(),
            string_views(r@) == views(words@).take(i as int),
        decreases words@.len() - i,
    {
        let ghost before = string_views(r@);
        r.push(string_of(words[i].as_slice()));
        assert(string_views(r@) =~= before.push(words@[i as int]@));
        assert(views(words@).take(i as int + 1) =~= views(words@).take(i as int).push(
            words@[i as int]@,
        ));
        i = i + 1;
    }
    assert(views(words@).take(words@.len() as int) =~= views(words@));
    r
}

/// Reads the evaluator's output log `text` for a geometry of `n_atoms` atoms.
pub fn parse_output(text: &str, n_atoms: usize) -> (r: Result<EvaluatorText, OutputError>)
    ensures
        ({
            let lines = lines_spec(text@);
            let recs = matching_lines(force_pattern_spec(), lines);
            match r {
                Ok(out) => forces_spec(recs) == Some(force_views(out.forces@))
                    && out.forces@.len() == n_atoms && last_energy_line(lines) is Some && string_views(out.energy_words@)
                    == words_spec(last_energy_line(lines)->0),
                Err(OutputError::MalformedForce) => forces_spec(recs) is None,
                Err(OutputError::ForceCount) => forces_spec(recs) is Some && forces_spec(
                    recs,
                )->0.len() != n_atoms,
                Err(OutputError::MissingEnergy) => forces_spec(recs) is Some && forces_spec(
                    recs,
                )->0.len() == n_atoms && last_energy_line(lines) is None,
            }
        }),
{
    let chars = chars_of(text);
    let lines = lines_of(chars.as_slice());
    let pattern = force_pattern();
    let recs = select_matching(pattern.as_slice(), &lines);
    let ghost rs = views(recs@);
    let mut forces: Vec<ForceText> = Vec::new();
    let mut i: usize = 0;
    while i < recs.len()
        invariant
            i <= recs@.len(),
            rs == views(recs@),
            rs == matching_lines(force_pattern_spec(), lines_spec(text@)),
            forces_spec(rs.take(i as int)) == Some(force_views(forces@)),
        decreases recs@.len() - i,
    {
        assert(rs.take(i as int + 1).drop_last() =~= rs.take(i as int));
        assert(rs.take(i as int + 1).last() == recs@[i as int]@);
        let words = words_of(recs[i].as_slice());
        if words.len() < 5 {
            proof {
                lemma_forces_none_extends(rs, i as int + 1);
            }
            return Err(OutputError::MalformedForce);
        }
        assert(views(words@)[2] == words@[2]@);
        assert(views(words@)[3] == words@[3]@);
        assert(views(words@)[4] == words@[4]@);
        let f = ForceText {
            x: string_of(words[2].as_slice()),
            y: string_of(words[3].as_slice()),
            z: string_of(words[4].as_slice()),
        };
        let ghost before = force_views(forces@);
        forces.push(f);
        assert(force_views(forces@) =~= before.push(f@));
        i = i + 1;
    }
    assert(rs.take(recs@.len() as int) =~= rs);
    if forces.len() != n_atoms {
        return Err(OutputError::ForceCount);
    }
    let ghost ls = views(lines@);
    let mut k: usize = lines.len();
    assert(ls.take(k as int) =~= ls);
    while k > 0
        invariant
            k <= lines@.len(),
            ls == views(lines@),
            ls == lines_spec(text@),
            rs == matching_lines(force_pattern_spec(), lines_spec(text@)),
            forces_spec(rs) == Some(force_views(forces@)),
            forces@.len() == n_atoms,
            last_energy_line(ls) == last_energy_line(ls.take(k as int)),
        decreases k,
    {
        assert(ls.take(k as int).drop_last() =~= ls.take(k as int - 1));
        assert(ls.take(k as int).last() == lines@[k - 1]@);
        if is_energy(&lines[k - 1]) {
            let words = words_of(lines[k - 1].as_slice());
            let energy_words = strings_of(&words);
            return Ok(EvaluatorText { forces, energy_words });
        }
        k = k - 1;
    }
    Err(OutputError::MissingEnergy)
}

proof fn lemma_forces_none_extends(ls: Seq<Seq<char>>, k: int)
    requires
        0 <= k <= ls.len(),
        forces_spec(ls.take(k)) is None,
    ensures
        forces_spec(ls) is None,
    decreases ls.len() - k,
{
    if k < ls.len() {
        assert(ls.take(k + 1).drop_last() =~= ls.take(k));
        lemma_forces_none_extends(ls, k + 1);
    } else {
        assert(ls.take(k) =~= ls);
    }
}

} // verus!
