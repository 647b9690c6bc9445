//! The radical table: which kanji each radical is part of, and how many
//! strokes the radical has.

use vstd::prelude::*;
use vstd::string::*;
use crate::text::contains_char;

verus! {

/// One radical of the table with the kanji that contain it.
#[derive(Clone, Debug, PartialEq, Eq)]
pub struct RadicalMembership {
    /// The forms of the radical: each character of this string stands for it.
    pub glyph: String,
    /// The number of strokes of the radical.
    pub strokes: u8,
    /// The kanji that are composed with the radical.
    pub kanji: Vec<String>,
}

/// What a `RadicalMembership` holds, as mathematical values.
pub ghost struct MembershipModel {
    pub glyph: Seq<char>,
    pub strokes: u8,
    pub kanji: Seq<Seq<char>>,
}

/// The character sequences of a list of strings.
pub open spec fn texts(list: Seq<String>) -> Seq<Seq<char>> {
    Seq::new(list.len(), |i: int| list[i]@)
}

impl View for RadicalMembership {
    type V = MembershipModel;

    open spec fn view(&self) -> MembershipModel {
        MembershipModel { glyph: self.glyph@, strokes: self.strokes, kanji: texts(self.kanji@) }
    }
}

/// The models of the entries of a table, in the table's order.
pub open spec fn table_model(table: Seq<RadicalMembership>) -> Seq<MembershipModel> {
    Seq::new(table.len(), |i: int| table[i]@)
}

/// Whether the entries stand in non-decreasing order of strokes.
pub open spec fn stroke_sorted(table: Seq<MembershipModel>) -> bool {
    forall|i: int, j: int| 0 <= i <= j < table.len() ==> table[i].strokes <= table[j].strokes
}

/// Whether every entry names its radical by at least one character.
pub open spec fn glyphs_present(table: Seq<MembershipModel>) -> bool {
    forall|i: int| 0 <= i < table.len() ==> (#[trigger] table[i]).glyph.len() > 0
}

/// The position of the first entry whose glyph holds `radical`.
pub open spec fn first_listing(table: Seq<MembershipModel>, radical: char) -> Option<int>
    decreases table.len(),
{
    if table.len() == 0 {
        None
    } else if table[0].glyph.contains(radical) {
        Some(0)
    } else {
        match first_listing(table.drop_first(), radical) {
            Some(i) => Some(i + 1),
            None => None,
        }
    }
}

/// `first_listing` is the least position whose glyph holds the radical, and
/// `None` exactly where no entry holds it.
pub proof fn lemma_first_listing(table: Seq<MembershipModel>, radical: char)
    ensures
        match first_listing(table, radical) {
            Some(i) => 0 <= i < table.len() && table[i].glyph.contains(radical) && forall|j: int|
                0 <= j < i ==> !(#[trigger] table[j]).glyph.contains(radical),
            None => forall|j: int|
                0 <= j < table.len() ==> !(#[trigger] table[j]).glyph.contains(radical),
        },
    decreases table.len(),
{
    if table.len() > 0 && !table[0].glyph.contains(radical) {
        let rest = table.drop_first();
        lemma_first_listing(rest, radical);
        match first_listing(rest, radical) {
            Some(i) => {
                assert forall|j: int| 0 <= j < i + 1 implies !(#[trigger] table[j]).glyph.contains(
                    radical,
                ) by {
                    if j > 0 {
                        assert(table[j] == rest[j - 1]);
                    }
                }
            },
            None => {
                assert forall|j: int| 0 <= j < table.len() implies !(#[trigger] table[j]).glyph.contains(
                    radical,
                ) by {
                    if j > 0 {
                        assert(table[j] == rest[j - 1]);
                    }
                }
            },
        }
    }
}

/// Finds the first entry of the table whose glyph holds `radical`.
pub fn find_radical(table: &[RadicalMembership], radical: char) -> (found: Option<usize>)
    ensures
        match found {
            Some(i) => i < table.len() && first_listing(table_model(table@), radical) == Some(
                i as int,
            ),
            None => first_listing(table_model(table@), radical) is None,
        },
{
    let ghost model = table_model(table@);
    let mut i: usize = 0;
    while i < table.len()
        invariant
            i <= table.len(),
            model == table_model(table@),
            forall|j: int| 0 <= j < i ==> !(#[trigger] model[j]).glyph.contains(radical),
        decreases table.len() - i,
    {
        if contains_char(table[i].glyph.as_str(), radical) {
            proof {
                lemma_first_listing(model, radical);
                assert(model[i as int].glyph.contains(radical));
            }
            return Some(i);
        }
        i += 1;
    }
    proof {
        lemma_first_listing(model, radical);
    }
    None
}

/// Why no table could be had.
#[derive(Clone, Copy, Debug, PartialEq, Eq, Structural)]
pub enum LoadError {
    /// The table's file is missing or cannot be read.
    TableUnavailable,
    /// The file was read and is no radical table.
    TableMalformed,
}

/// The error that `kradical_parsing` reports for a file it cannot parse.
#[verifier::external_type_specification]
#[verifier::external_body]
pub struct ExRadkError(kradical_parsing::radk::RadkError);

/// The table that the bytes of a radical file denote, `None` where they are
/// no such file: what `kradical_parsing::radk::parse_bytes` makes of them.
pub uninterp spec fn parsed_table(bytes: Seq<u8>) -> Option<Seq<MembershipModel>>;

/// `kradical_parsing::radk::parse_bytes`: parses the contents of a radical
/// file. The outcome depends on the bytes alone, and is the one that
/// `parsed_table` names; each parsed entry is handed on with its glyph, its
/// stroke count and its kanji, in the file's order.
#[verifier::external_body]
fn parse_bytes(bytes: &[u8]) -> (r: Result<Vec<RadicalMembership>, kradical_parsing::radk::RadkError>)
    ensures
        r is Ok ==> parsed_table(bytes@) == Some(table_model(r->Ok_0@)),
        r is Err ==> parsed_table(bytes@) is None,
{
    match kradical_parsing::radk::parse_bytes(bytes) {
        Ok(list) => Ok(
            list.into_iter().map(
                |m| RadicalMembership { glyph: m.radical.glyph, strokes: m.radical.strokes, kanji: m.kanji },
            ).collect(),
        ),
        Err(e) => Err(e),
    }
}

/// Makes the table from what was read of its file: `None` stands for a file
/// that is missing or unreadable.
pub fn load(contents: Option<&[u8]>) -> (r: Result<Vec<RadicalMembership>, LoadError>)
    ensures
        contents is None ==> r == Err::<Vec<RadicalMembership>, LoadError>(
            LoadError::TableUnavailable,
        ),
        contents is Some && parsed_table(contents->0@) is None ==> r == Err::<
            Vec<RadicalMembership>,
            LoadError,
        >(LoadError::TableMalformed),
        contents is Some && parsed_table(contents->0@) is Some ==> r is Ok && table_model(
            r->Ok_0@,
        ) == parsed_table(contents->0@)->0,
{
    match contents {
        None => Err(LoadError::TableUnavailable),
        Some(bytes) => match parse_bytes(bytes) {
            Ok(table) => Ok(table),
            Err(_) => Err(LoadError::TableMalformed),
        },
    }
}

/// Whether every entry of the table names its radical by at least one
/// character.
pub fn has_glyphs(table: &[RadicalMembership]) -> (ok: bool)
    ensures
        ok == glyphs_present(table_model(table@)),
{
    let mut i: usize = 0;
    while i < table.len()
        invariant
            i <= table.len(),
            forall|j: int| 0 <= j < i ==> (#[trigger] table_model(table@)[j]).glyph.len() > 0,
        decreases table.len() - i,
    {
        if table[i].glyph.as_str().unicode_len() == 0 {
            assert(table_model(table@)[i as int].glyph.len() == 0);
            return false;
        }
        i += 1;
    }
    true
}

} // verus!
