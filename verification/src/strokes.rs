//! Picking a radical by its number of strokes: the entries of the table that
//! have a given stroke count, and the dialogue in which the user names a
//! stroke count and then one of the radicals listed for it.

use vstd::prelude::*;
use vstd::string::*;
use crate::table::{
    MembershipModel, RadicalMembership, glyphs_present, stroke_sorted, table_model, texts,
};
use crate::text::{
    decimal, decimal_digits, decimal_number, denotes_at_most, parse_u8, parse_usize, replace_char,
    trim, trimmed,
};

verus! {

/// The entries offered for a stroke count: those with exactly that count, in
/// the table's order, among the entries that stand before the first one with
/// a greater count.
pub open spec fn stroke_run(table: Seq<MembershipModel>, strokes: u8) -> Seq<MembershipModel>
    decreases table.len(),
{
    if table.len() == 0 || table[0].strokes > strokes {
        Seq::empty()
    } else if table[0].strokes == strokes {
        seq![table[0]] + stroke_run(table.drop_first(), strokes)
    } else {
        stroke_run(table.drop_first(), strokes)
    }
}

/// Whether the table holds an entry with more strokes than `strokes`.
pub open spec fn has_greater(table: Seq<MembershipModel>, strokes: u8) -> bool {
    exists|i: int| 0 <= i < table.len() && (#[trigger] table[i]).strokes > strokes
}

/// The glyphs of a run of entries.
pub open spec fn glyphs_of(run: Seq<MembershipModel>) -> Seq<Seq<char>> {
    Seq::new(run.len(), |i: int| run[i].glyph)
}

/// Lists the glyphs of the entries offered for `strokes`, and tells whether
/// the table goes on to an entry with more strokes.
pub fn list_by_strokes(table: &[RadicalMembership], strokes: u8) -> (r: (Vec<String>, bool))
    ensures
        texts(r.0@) == glyphs_of(stroke_run(table_model(table@), strokes)),
        r.1 == has_greater(table_model(table@), strokes),
{
    let ghost model = table_model(table@);
    let ghost mut seen: Seq<MembershipModel> = Seq::empty();
    let mut glyphs: Vec<String> = Vec::new();
    let mut i: usize = 0;
    proof {
        assert(model.subrange(0, model.len() as int) =~= model);
    }
    while i < table.len()
        invariant
            i <= table.len(),
            model == table_model(table@),
            stroke_run(model, strokes) == seen + stroke_run(
                model.subrange(i as int, model.len() as int),
                strokes,
            ),
            texts(glyphs@) == glyphs_of(seen),
            forall|j: int| 0 <= j < i ==> (#[trigger] model[j]).strokes <= strokes,
        decreases table.len() - i,
    {
        let ghost rest = model.subrange(i as int, model.len() as int);
        proof {
            assert(rest.drop_first() =~= model.subrange(i + 1, model.len() as int));
        }
        if table[i].strokes == strokes {
            let ghost listed = glyphs@;
            let glyph = table[i].glyph.clone();
            glyphs.push(glyph);
            proof {
                let before = seen;
                seen = seen.push(model[i as int]);
                assert(texts(listed).len() == listed.len());
                assert forall|j: int| 0 <= j < seen.len() implies texts(glyphs@)[j] == glyphs_of(
                    seen,
                )[j] by {
                    if j < before.len() {
                        assert(texts(listed)[j] == glyphs_of(before)[j]);
                    }
                }
            }
        } else if table[i].strokes > strokes {
            return (glyphs, true);
        }
        i += 1;
    }
    (glyphs, false)
}

/// In a table sorted by strokes, the entries offered for a stroke count are
/// one contiguous stretch of the table, in the table's order: every entry in
/// the stretch has that count, and no entry outside it has.
pub proof fn lemma_stroke_run_of_sorted(table: Seq<MembershipModel>, strokes: u8) -> (bounds: (
    int,
    int,
))
    requires
        stroke_sorted(table),
    ensures
        0 <= bounds.0 <= bounds.1 <= table.len(),
        stroke_run(table, strokes) == table.subrange(bounds.0, bounds.1),
        forall|i: int| bounds.0 <= i < bounds.1 ==> (#[trigger] table[i]).strokes == strokes,
        forall|i: int|
            0 <= i < bounds.0 || bounds.1 <= i < table.len() ==> (#[trigger] table[i]).strokes
                != strokes,
    decreases table.len(),
{
    if table.len() == 0 {
        (0, 0)
    } else if table[0].strokes > strokes {
        assert forall|i: int| 0 <= i < table.len() implies (#[trigger] table[i]).strokes
            != strokes by {}
        (0, 0)
    } else {
        let rest = table.drop_first();
        assert forall|i: int, j: int| 0 <= i <= j < rest.len() implies rest[i].strokes
            <= rest[j].strokes by {}
        let (lo, hi) = lemma_stroke_run_of_sorted(rest, strokes);
        assert forall|i: int| 0 < i < table.len() implies #[trigger] table[i] == rest[i - 1] by {}
        if table[0].strokes == strokes {
            if lo < hi && lo > 0 {
                assert(rest[0].strokes <= rest[lo].strokes);
            }
            if lo < hi {
                assert forall|i: int| 0 <= i < hi + 1 implies (#[trigger] table[i]).strokes
                    == strokes by {}
                assert forall|i: int| hi + 1 <= i < table.len() implies (#[trigger] table[i]).strokes
                    != strokes by {}
                (0, hi + 1)
            } else {
                assert forall|i: int| 1 <= i < table.len() implies (#[trigger] table[i]).strokes
                    != strokes by {}
                (0, 1)
            }
        } else {
            assert forall|i: int| lo + 1 <= i < hi + 1 implies (#[trigger] table[i]).strokes
                == strokes by {}
            (lo + 1, hi + 1)
        }
    }
}

/// A run of entries of a table whose glyphs are all present has them present
/// too.
pub proof fn lemma_stroke_run_glyphs(table: Seq<MembershipModel>, strokes: u8)
    requires
        glyphs_present(table),
    ensures
        glyphs_present(stroke_run(table, strokes)),
    decreases table.len(),
{
    if table.len() > 0 && table[0].strokes <= strokes {
        let rest = table.drop_first();
        lemma_stroke_run_glyphs(rest, strokes);
    }
}

/// The first character of each glyph.
pub open spec fn first_chars(glyphs: Seq<Seq<char>>) -> Seq<char> {
    Seq::new(glyphs.len(), |i: int| glyphs[i][0])
}

/// The choices as they are shown: each glyph behind its number, counted from
/// one, and a space behind each glyph.
pub open spec fn numbered(glyphs: Seq<Seq<char>>) -> Seq<char>
    decreases glyphs.len(),
{
    if glyphs.len() == 0 {
        Seq::empty()
    } else {
        numbered(glyphs.drop_last()) + decimal_digits(glyphs.len()) + glyphs.last() + seq![' ']
    }
}

/// The text that lists the choices. The line is closed only where the table
/// went on to a greater stroke count.
pub open spec fn listing_text(glyphs: Seq<Seq<char>>, closed: bool) -> Seq<char> {
    if closed {
        numbered(glyphs).push('\n')
    } else {
        numbered(glyphs)
    }
}

fn pick_first_chars(glyphs: &Vec<String>) -> (firsts: Vec<char>)
    requires
        forall|i: int| 0 <= i < glyphs.len() ==> (#[trigger] glyphs[i])@.len() > 0,
    ensures
        firsts@ == first_chars(texts(glyphs@)),
{
    let mut firsts: Vec<char> = Vec::new();
    let mut i: usize = 0;
    while i < glyphs.len()
        invariant
            i <= glyphs.len(),
            forall|j: int| 0 <= j < glyphs.len() ==> (#[trigger] glyphs[j])@.len() > 0,
            firsts@ == first_chars(texts(glyphs@)).subrange(0, i as int),
        decreases glyphs.len() - i,
    {
        let c: char = glyphs[i].as_str().get_char(0);
        firsts.push(c);
        i += 1;
    }
    firsts
}

fn write_listing(glyphs: &Vec<String>, closed: bool) -> (text: String)
    ensures
        text@ == listing_text(texts(glyphs@), closed),
{
    let ghost all = texts(glyphs@);
    let mut text = String::new();
    let mut i: usize = 0;
    while i < glyphs.len()
        invariant
            i <= glyphs.len(),
            all == texts(glyphs@),
            text@ == numbered(all.subrange(0, i as int)),
        decreases glyphs.len() - i,
    {
        let number = decimal(i + 1);
        text.append(number.as_str());
        text.append(glyphs[i].as_str());
        text.push(' ');
        proof {
            let upto = all.subrange(0, i + 1);
            assert(upto.drop_last() =~= all.subrange(0, i as int));
        }
        i += 1;
    }
    assert(all.subrange(0, i as int) =~= all);
    if closed {
        text.push('\n');
    }
    text
}

/// Where the dialogue about one unknown radical stands.
#[derive(Debug)]
pub enum StrokeSearch {
    /// The user is asked for a stroke count.
    AwaitingStrokeCount,
    /// The radicals with that count were listed, and the user is asked for
    /// the number of one of them. `choices` holds the listed radicals.
    AwaitingSelection { choices: Vec<char> },
    /// The user chose `glyph`.
    Resolved { glyph: char },
}

/// A `StrokeSearch` as mathematical values.
pub ghost enum StrokeModel {
    AwaitingStrokeCount,
    AwaitingSelection { choices: Seq<char> },
    Resolved { glyph: char },
}

impl View for StrokeSearch {
    type V = StrokeModel;

    open spec fn view(&self) -> StrokeModel {
        match self {
            StrokeSearch::AwaitingStrokeCount => StrokeModel::AwaitingStrokeCount,
            StrokeSearch::AwaitingSelection { choices } => StrokeModel::AwaitingSelection {
                choices: choices@,
            },
            StrokeSearch::Resolved { glyph } => StrokeModel::Resolved { glyph: *glyph },
        }
    }
}

/// What the caller is to do after a reply was taken.
#[derive(Debug)]
pub enum Action {
    /// The reply is no stroke count: report the message and ask again.
    InvalidStrokeInput(String),
    /// Show the listed choices, then ask for a selection.
    Listing(String),
    /// The reply is no number: report the message and ask again.
    InvalidSelectionInput(String),
    /// The reply is a number, but of none of the choices: report that and
    /// ask again.
    SelectionOutOfRange,
    /// The radical was chosen and stands in the query: show the query.
    Resolved(char),
    /// The input has ended: leave.
    EndOfInput,
}

/// An `Action` as mathematical values. The wording of a message about a
/// reply that is no number is left open.
pub ghost enum ActionModel {
    InvalidStrokeInput,
    Listing(Seq<char>),
    InvalidSelectionInput,
    SelectionOutOfRange,
    Resolved(char),
    EndOfInput,
}

impl View for Action {
    type V = ActionModel;

    open spec fn view(&self) -> ActionModel {
        match self {
            Action::InvalidStrokeInput(_) => ActionModel::InvalidStrokeInput,
            Action::Listing(text) => ActionModel::Listing(text@),
            Action::InvalidSelectionInput(_) => ActionModel::InvalidSelectionInput,
            Action::SelectionOutOfRange => ActionModel::SelectionOutOfRange,
            Action::Resolved(glyph) => ActionModel::Resolved(*glyph),
            Action::EndOfInput => ActionModel::EndOfInput,
        }
    }
}

/// A reply as mathematical values: the line that was read, or `None` at the
/// end of the input.
pub open spec fn reply_model(reply: Option<&str>) -> Option<Seq<char>> {
    match reply {
        Some(line) => Some(line@),
        None => None,
    }
}

/// One move of the dialogue: the next state, the query as it then reads, and
/// what the caller is to do. `position` is where the unknown radical stands
/// in the query, counted in characters.
pub open spec fn stroke_step(
    state: StrokeModel,
    query: Seq<char>,
    table: Seq<MembershipModel>,
    position: int,
    reply: Option<Seq<char>>,
) -> (StrokeModel, Seq<char>, ActionModel) {
    match reply {
        None => (state, query, ActionModel::EndOfInput),
        Some(line) => match state {
            StrokeModel::AwaitingStrokeCount => if denotes_at_most(trimmed(line), u8::MAX as nat) {
                let strokes = decimal_number(trimmed(line))->0 as u8;
                let glyphs = glyphs_of(stroke_run(table, strokes));
                (
                    StrokeModel::AwaitingSelection { choices: first_chars(glyphs) },
                    query,
                    ActionModel::Listing(listing_text(glyphs, has_greater(table, strokes))),
                )
            } else {
                (state, query, ActionModel::InvalidStrokeInput)
            },
            StrokeModel::AwaitingSelection { choices } => if !denotes_at_most(
                trimmed(line),
                usize::MAX as nat,
            ) {
                (state, query, ActionModel::InvalidSelectionInput)
            } else {
                let number = decimal_number(trimmed(line))->0 as int;
                if 1 <= number <= choices.len() {
                    let glyph = choices[number - 1];
                    (
                        StrokeModel::Resolved { glyph },
                        query.update(position, glyph),
                        ActionModel::Resolved(glyph),
                    )
                } else {
                    (state, query, ActionModel::SelectionOutOfRange)
                }
            },
            StrokeModel::Resolved { glyph } => (state, query, ActionModel::Resolved(glyph)),
        },
    }
}

/// A move of the dialogue touches the query at `position` alone: the query
/// keeps its length, and every other character stays what it was. Where the
/// move chooses a radical, that radical stands at `position` afterwards.
pub proof fn lemma_step_keeps_neighbours(
    state: StrokeModel,
    query: Seq<char>,
    table: Seq<MembershipModel>,
    position: int,
    reply: Option<Seq<char>>,
)
    requires
        0 <= position < query.len(),
    ensures
        ({
            let moved = stroke_step(state, query, table, position, reply);
            &&& moved.1.len() == query.len()
            &&& forall|i: int| 0 <= i < query.len() && i != position ==> moved.1[i] == query[i]
            &&& !(state is Resolved) && moved.0 is Resolved ==> moved.1[position]
                == moved.0->Resolved_glyph
        }),
{
}

/// A selection that names none of the choices is turned down: the dialogue
/// stays where it is, with the same choices, and the query is not touched.
pub proof fn lemma_selection_out_of_range(
    choices: Seq<char>,
    query: Seq<char>,
    table: Seq<MembershipModel>,
    position: int,
    line: Seq<char>,
)
    requires
        decimal_number(trimmed(line)) is Some,
        decimal_number(trimmed(line))->0 < 1 || decimal_number(trimmed(line))->0 > choices.len(),
    ensures
        ({
            let state = StrokeModel::AwaitingSelection { choices };
            let moved = stroke_step(state, query, table, position, Some(line));
            &&& moved.0 == state
            &&& moved.1 == query
            &&& moved.2 == if decimal_number(trimmed(line))->0 <= usize::MAX {
                ActionModel::SelectionOutOfRange
            } else {
                ActionModel::InvalidSelectionInput
            }
        }),
{
}

impl StrokeSearch {
    /// The question that the user is asked next; nothing once a radical is
    /// chosen.
    pub fn prompt(&self) -> (text: &'static str)
        ensures
            text@ == match self@ {
                StrokeModel::AwaitingStrokeCount => "How many strokes does your radical have? "@,
                StrokeModel::AwaitingSelection { .. } => "Choose the radical to use for your search: "@,
                StrokeModel::Resolved { .. } => ""@,
            },
    {
        match self {
            StrokeSearch::AwaitingStrokeCount => "How many strokes does your radical have? ",
            StrokeSearch::AwaitingSelection { .. } => "Choose the radical to use for your search: ",
            StrokeSearch::Resolved { .. } => "",
        }
    }

    /// Takes one reply of the user and moves the dialogue on by it. A chosen
    /// radical is written into the query at `position`, in place of the
    /// character that stood there.
    pub fn advance(
        self,
        query: &mut String,
        table: &[RadicalMembership],
        position: usize,
        reply: Option<&str>,
    ) -> (r: (StrokeSearch, Action))
        requires
            position < old(query)@.len(),
            glyphs_present(table_model(table@)),
        ensures
            (r.0@, final(query)@, r.1@) == stroke_step(
                self@,
                old(query)@,
                table_model(table@),
                position as int,
                reply_model(reply),
            ),
    {
        match reply {
            None => (self, Action::EndOfInput),
            Some(line) => match self {
                StrokeSearch::AwaitingStrokeCount => match parse_u8(trim(line)) {
                    Ok(strokes) => {
                        let (glyphs, closed) = list_by_strokes(table, strokes);
                        proof {
                            lemma_stroke_run_glyphs(table_model(table@), strokes);
                            let run = stroke_run(table_model(table@), strokes);
                            assert(texts(glyphs@).len() == glyphs.len());
                            assert forall|i: int| 0 <= i < glyphs.len() implies (
                            #[trigger] glyphs[i])@.len() > 0 by {
                                assert(texts(glyphs@)[i] == glyphs_of(run)[i]);
                            }
                        }
                        let choices = pick_first_chars(&glyphs);
                        let text = write_listing(&glyphs, closed);
                        (StrokeSearch::AwaitingSelection { choices }, Action::Listing(text))
                    },
                    Err(error) => (
                        StrokeSearch::AwaitingStrokeCount,
                        Action::InvalidStrokeInput(error.to_string()),
                    ),
                },
                StrokeSearch::AwaitingSelection { choices } => match parse_usize(trim(line)) {
                    Ok(number) => {
                        if 1 <= number && number <= choices.len() {
                            let glyph: char = choices[number - 1];
                            replace_char(query, position, glyph);
                            (StrokeSearch::Resolved { glyph }, Action::Resolved(glyph))
                        } else {
                            (
                                StrokeSearch::AwaitingSelection { choices },
                                Action::SelectionOutOfRange,
                            )
                        }
                    },
                    Err(error) => (
                        StrokeSearch::AwaitingSelection { choices },
                        Action::InvalidSelectionInput(error.to_string()),
                    ),
                },
                StrokeSearch::Resolved { glyph } => (
                    StrokeSearch::Resolved { glyph },
                    Action::Resolved(glyph),
                ),
            },
        }
    }
}

/// The dialogue after a run of replies: each reply in turn moves it on,
/// until a radical is chosen or the replies have run out.
pub open spec fn dialogue_run(
    state: StrokeModel,
    query: Seq<char>,
    table: Seq<MembershipModel>,
    position: int,
    replies: Seq<Seq<char>>,
) -> (StrokeModel, Seq<char>)
    decreases replies.len(),
{
    if state is Resolved || replies.len() == 0 {
        (state, query)
    } else {
        let moved = stroke_step(state, query, table, position, Some(replies[0]));
        dialogue_run(moved.0, moved.1, table, position, replies.drop_first())
    }
}

/// Resolves the wildcard at `position` of the query by the stroke count and
/// the selection that the replies give, one line each, and writes the chosen
/// radical into the query. `None` where the replies end before a radical is
/// chosen.
pub fn search_by_strokes(
    query: &mut String,
    table: &[RadicalMembership],
    position: usize,
    replies: &Vec<String>,
) -> (chosen: Option<char>)
    requires
        position < old(query)@.len(),
        glyphs_present(table_model(table@)),
    ensures
        ({
            let end = dialogue_run(
                StrokeModel::AwaitingStrokeCount,
                old(query)@,
                table_model(table@),
                position as int,
                texts(replies@),
            );
            &&& final(query)@ == end.1
            &&& match chosen {
                Some(glyph) => end.0 == (StrokeModel::Resolved { glyph }),
                None => !(end.0 is Resolved),
            }
        }),
{
    let ghost lines = texts(replies@);
    let mut state = StrokeSearch::AwaitingStrokeCount;
    let mut i: usize = 0;
    assert(lines.subrange(0, lines.len() as int) =~= lines);
    while i < replies.len()
        invariant
            i <= replies.len(),
            lines == texts(replies@),
            position < query@.len(),
            glyphs_present(table_model(table@)),
            dialogue_run(
                state@,
                query@,
                table_model(table@),
                position as int,
                lines.subrange(i as int, lines.len() as int),
            ) == dialogue_run(
                StrokeModel::AwaitingStrokeCount,
                old(query)@,
                table_model(table@),
                position as int,
                lines,
            ),
        decreases replies.len() - i,
    {
        if let StrokeSearch::Resolved { glyph } = state {
            return Some(glyph);
        }
        proof {
            let rest = lines.subrange(i as int, lines.len() as int);
            assert(rest.drop_first() =~= lines.subrange(i + 1, lines.len() as int));
        }
        let (next, _) = state.advance(query, table, position, Some(replies[i].as_str()));
        state = next;
        i += 1;
    }
    match state {
        StrokeSearch::Resolved { glyph } => Some(glyph),
        _ => None,
    }
}

} // verus!
