//! Reading the initial structure out of a quantum-chemistry log: the declared
//! atom count, the geometry records, and the last block of records, which is
//! the final geometry when the log holds several.

use crate::pattern::{geometry_pattern, geometry_pattern_spec, matching_lines, select_matching};
use crate::species::{lookup_species, species_spec};
use crate::text::{
    chars_of, contains, contains_spec, lines_of, lines_spec, parse_unsigned, parse_unsigned_spec,
    string_of, views, words_of, words_spec,
};
use vstd::prelude::*;

verus! {

/// Why a structure could not be read.
#[derive(Clone, Copy, Debug, PartialEq, Eq)]
pub enum IngestError {
    /// No line declares the atom count, or that line holds no count.
    MissingAtomCount,
    /// A record names an atomic number outside the species table.
    UnsupportedSpecies(u32),
    /// A record lacks a field or its atomic number does not parse, or the log
    /// holds fewer records than the declared count.
    MalformedRecord,
}

/// One atom of the initial structure. The coordinates are kept as the log
/// wrote them (in angstrom); they are read as numbers where the dynamics runs.
#[derive(Clone, Debug)]
pub struct GeometryRecord {
    pub atomic_number: u32,
    pub symbol: String,
    pub mass_e4: u32,
    pub x: String,
    pub y: String,
    pub z: String,
}

/// What a `GeometryRecord` holds, as plain values.
pub struct RecordView {
    pub atomic_number: u32,
    pub symbol: Seq<char>,
    pub mass_e4: u32,
    pub x: Seq<char>,
    pub y: Seq<char>,
    pub z: Seq<char>,
}

impl View for GeometryRecord {
    type V = RecordView;

    open spec fn view(&self) -> RecordView {
        RecordView {
            atomic_number: self.atomic_number,
            symbol: self.symbol@,
            mass_e4: self.mass_e4,
            x: self.x@,
            y: self.y@,
            z: self.z@,
        }
    }
}

pub open spec fn record_views(v: Seq<GeometryRecord>) -> Seq<RecordView> {
    v.map_values(|g: GeometryRecord| g@)
}

/// The directive that declares the atom count.
pub open spec fn count_tag() -> Seq<char> {
    seq!['N', 'A', 't', 'o', 'm', 's', '=']
}

/// The first line that holds the count directive.
pub open spec fn count_line(lines: Seq<Seq<char>>) -> Option<Seq<char>>
    decreases lines.len(),
{
    if lines.len() == 0 {
        None
    } else if contains_spec(lines[0], count_tag()) {
        Some(lines[0])
    } else {
        count_line(lines.drop_first())
    }
}

/// The first word that reads as a `usize`.
pub open spec fn first_count(words: Seq<Seq<char>>) -> Option<nat>
    decreases words.len(),
{
    if words.len() == 0 {
        None
    } else if parse_unsigned_spec(words[0], usize::MAX as nat) is Some {
        parse_unsigned_spec(words[0], usize::MAX as nat)
    } else {
        first_count(words.drop_first())
    }
}

/// The declared atom count: the first number on the first line that holds
/// the count directive.
pub open spec fn atom_count_spec(lines: Seq<Seq<char>>) -> Option<nat> {
    match count_line(lines) {
        Some(l) => first_count(words_spec(l)),
        None => None,
    }
}

/// The lines that are geometry records, in order.
pub open spec fn record_lines(lines: Seq<Seq<char>>) -> Seq<Seq<char>> {
    matching_lines(geometry_pattern_spec(), lines)
}

/// The atom that one record line describes.
pub open spec fn record_spec(line: Seq<char>) -> Result<RecordView, IngestError> {
    let w = words_spec(line);
    if w.len() < 6 {
        Err(IngestError::MalformedRecord)
    } else {
        match parse_unsigned_spec(w[1], u32::MAX as nat) {
            None => Err(IngestError::MalformedRecord),
            Some(n) => match species_spec(n as u32) {
                None => Err(IngestError::UnsupportedSpecies(n as u32)),
                Some(sp) => Ok(
                    RecordView {
                        atomic_number: n as u32,
                        symbol: sp.symbol,
                        mass_e4: sp.mass_e4,
                        x: w[3],
                        y: w[4],
                        z: w[5],
                    },
                ),
            },
        }
    }
}

/// The atoms of a block of record lines, or the first record's error.
pub open spec fn records_spec(ls: Seq<Seq<char>>) -> Result<Seq<RecordView>, IngestError>
    decreases ls.len(),
{
    if ls.len() == 0 {
        Ok(Seq::empty())
    } else {
        match record_spec(ls[0]) {
            Err(e) => Err(e),
            Ok(r) => match records_spec(ls.drop_first()) {
                Err(e) => Err(e),
                Ok(rs) => Ok(seq![r] + rs),
            },
        }
    }
}

/// The structure that the log `text` declares: its last `count` records.
pub open spec fn ingest_spec(text: Seq<char>) -> Result<Seq<RecordView>, IngestError> {
    let lines = lines_spec(text);
    match atom_count_spec(lines) {
        None => Err(IngestError::MissingAtomCount),
        Some(n) => {
            let recs = record_lines(lines);
            if recs.len() < n {
                Err(IngestError::MalformedRecord)
            } else {
                records_spec(recs.subrange(recs.len() - n, recs.len() as int))
            }
        },
    }
}

/// Reading a log is idempotent: the structure read from one text is one and
/// the same however often it is read, since it depends on the text alone.
pub proof fn lemma_ingest_idempotent(
    text: Seq<char>,
    first: Result<Seq<RecordView>, IngestError>,
    second: Result<Seq<RecordView>, IngestError>,
)
    requires
        first == ingest_spec(text),
        second == ingest_spec(text),
    ensures
        first == second,
{
}

fn find_atom_count(lines: &Vec<Vec<char>>) -> (r: Option<usize>)
    ensures
        match r {
            Some(n) => atom_count_spec(views(lines@)) == Some(n as nat),
            None => atom_count_spec(views(lines@)) is None,
        },
{
    let tag: Vec<char> = vec!['N', 'A', 't', 'o', 'm', 's', '='];
    assert(tag@ =~= count_tag());
    let ghost ls = views(lines@);
    let mut i: usize = 0;
    assert(ls.skip(0) =~= ls);
    while i < lines.len()
        invariant
            i <= lines@.len(),
            ls == views(lines@),
            tag@ == count_tag(),
            count_line(ls) == count_line(ls.skip(i as int)),
        decreases lines@.len() - i,
    {
        assert(ls.skip(i as int).drop_first() =~= ls.skip(i as int + 1));
        assert(ls.skip(i as int)[0] == lines@[i as int]@);
        if contains(lines[i].as_slice(), tag.as_slice()) {
            let words = words_of(lines[i].as_slice());
            let ghost ws = views(words@);
            let mut j: usize = 0;
            assert(ws.skip(0) =~= ws);
            assert(count_line(ls) == Some(lines@[i as int]@));
            while j < words.len()
                invariant
                    j <= words@.len(),
                    ws == views(words@),
                    ws == words_spec(lines@[i as int]@),
                    ls == views(lines@),
                    count_line(ls) == Some(lines@[i as int]@),
                    first_count(ws) == first_count(ws.skip(j as int)),
                decreases words@.len() - j,
            {
                assert(ws.skip(j as int).drop_first() =~= ws.skip(j as int + 1));
                assert(ws.skip(j as int)[0] == words@[j as int]@);
                match parse_unsigned(words[j].as_slice(), usize::MAX as u64) {
                    Some(n) => {
                        return Some(n as usize);
                    },
                    None => {},
                }
                j = j + 1;
            }
            assert(ws.skip(j as int).len() == 0);
            return None;
        }
        i = i + 1;
    }
    assert(ls.skip(i as int).len() == 0);
    None
}

fn read_record(line: &Vec<char>) -> (r: Result<GeometryRecord, IngestError>)
    ensures
        match r {
            Ok(g) => record_spec(line@) == Ok::<RecordView, IngestError>(g@),
            Err(e) => record_spec(line@) == Err::<RecordView, IngestError>(e),
        },
{
    let words = words_of(line.as_slice());
    assert(views(words@) == words_spec(line@));
    if words.len() < 6 {
        return Err(IngestError::MalformedRecord);
    }
    assert(views(words@)[1] == words@[1]@);
    assert(views(words@)[3] == words@[3]@);
    assert(views(words@)[4] == words@[4]@);
    assert(views(words@)[5] == words@[5]@);
    match parse_unsigned(words[1].as_slice(), u32::MAX as u64) {
        None => Err(IngestError::MalformedRecord),
        Some(n) => {
            let n = n as u32;
            match lookup_species(n) {
                None => Err(IngestError::UnsupportedSpecies(n)),
                Some(sp) => Ok(
                    GeometryRecord {
                        atomic_number: n,
                        symbol: sp.symbol,
                        mass_e4: sp.mass_e4,
                        x: string_of(words[3].as_slice()),
                        y: string_of(words[4].as_slice()),
                        z: string_of(words[5].as_slice()),
                    },
                ),
            }
        },
    }
}

/// Reads the structure that the log `text` declares.
///
/// The count comes from the first line holding `NAtoms=`; the records are
/// the lines that match the geometry grammar, and the last `count` of them,
/// in file order, make the structure.
pub fn ingest(text: &str) -> (r: Result<Vec<GeometryRecord>, IngestError>)
    ensures
        match r {
            Ok(v) => ingest_spec(text@) == Ok::<Seq<RecordView>, IngestError>(record_views(v@)),
            Err(e) => ingest_spec(text@) == Err::<Seq<RecordView>, IngestError>(e),
        },
{
    let chars = chars_of(text);
    let lines = lines_of(chars.as_slice());
    let count = match find_atom_count(&lines) {
        Some(n) => n,
        None => {
            return Err(IngestError::MissingAtomCount);
        },
    };
    let pattern = geometry_pattern();
    let recs = select_matching(pattern.as_slice(), &lines);
    let ghost rs = views(recs@);
    if recs.len() < count {
        return Err(IngestError::MalformedRecord);
    }
    let start = recs.len() - count;
    let ghost block = rs.subrange(start as int, rs.len() as int);
    assert(rs.skip(start as int) =~= block);
    let mut out: Vec<GeometryRecord> = Vec::new();
    let mut i: usize = start;
    assert(record_views(out@) =~= Seq::<RecordView>::empty());
    assert(ingest_spec(text@) == records_spec(block));
    while i < recs.len()
        invariant
            ingest_spec(text@) == records_spec(block),
            start <= i <= recs@.len(),
            rs == views(recs@),
            block == rs.subrange(start as int, rs.len() as int),
            records_spec(block) == match records_spec(rs.skip(i as int)) {
                Ok(tail) => Ok(record_views(out@) + tail),
                Err(e) => Err::<Seq<RecordView>, IngestError>(e),
            },
        decreases recs@.len() - i,
    {
        assert(rs.skip(i as int).drop_first() =~= rs.skip(i as int + 1));
        assert(rs.skip(i as int)[0] == recs@[i as int]@);
        match read_record(&recs[i]) {
            Err(e) => {
                return Err(e);
            },
            Ok(g) => {
                let ghost before = record_views(out@);
                out.push(g);
                assert(record_views(out@) =~= before.push(g@));
                assert forall|tail: Seq<RecordView>|
                    #![auto]
                    before + (seq![g@] + tail) =~= record_views(out@) + tail by {}
            },
        }
        i = i + 1;
    }
    assert(rs.skip(i as int) =~= Seq::<Seq<char>>::empty());
    assert(record_views(out@) + Seq::<RecordView>::empty() =~= record_views(out@));
    Ok(out)
}

} // verus!
