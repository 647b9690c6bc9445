//! What a search term asks for: a word, kanji by their radicals, or example
//! sentences; and when the output goes through a pager.

use vstd::prelude::*;
use vstd::string::*;

verus! {

/// The kinds of search.
#[derive(Clone, Copy, Debug, PartialEq, Eq, Structural)]
pub enum SearchKind {
    /// Kanji by their radicals: the term begins with a colon.
    Kanji,
    /// Example sentences: the term begins with an underscore.
    Sentence,
    /// Words: any other term.
    Word,
}

/// The kind of search that a term asks for, by its first character. The
/// colon and the underscore count in their narrow and their wide forms.
pub open spec fn kind_of(query: Seq<char>) -> SearchKind {
    if query.len() > 0 && (query[0] == ':' || query[0] == '\u{FF1A}') {
        SearchKind::Kanji
    } else if query.len() > 0 && (query[0] == '_' || query[0] == '\u{FF3F}') {
        SearchKind::Sentence
    } else {
        SearchKind::Word
    }
}

/// The kind of search that a term asks for.
pub fn search_kind(query: &str) -> (kind: SearchKind)
    ensures
        kind == kind_of(query@),
{
    if query.unicode_len() == 0 {
        return SearchKind::Word;
    }
    let first: char = query.get_char(0);
    if first == ':' || first == '\u{FF1A}' {
        SearchKind::Kanji
    } else if first == '_' || first == '\u{FF3F}' {
        SearchKind::Sentence
    } else {
        SearchKind::Word
    }
}

/// Whether a term names nothing to search for: it is empty, or a mode
/// marker alone.
pub open spec fn blank(query: Seq<char>) -> bool {
    query.len() == 0 || (query.len() == 1 && kind_of(query) != SearchKind::Word)
}

/// Whether a term names nothing to search for.
pub fn is_blank(query: &str) -> (b: bool)
    ensures
        b == blank(query@),
{
    let length: usize = query.unicode_len();
    length == 0 || (length == 1 && search_kind(query) != SearchKind::Word)
}

/// Whether a character takes one byte in UTF-8.
pub open spec fn one_byte(c: char) -> bool {
    (c as u32) < 0x80
}

/// Whether a term for sentences is in English: the character behind the
/// mode marker takes one byte.
pub fn asks_in_english(query: &str) -> (english: bool)
    requires
        query@.len() >= 2,
    ensures
        english == one_byte(query@[1]),
{
    (query.get_char(1) as u32) < 0x80
}

/// A term without its mode marker.
pub fn without_marker(query: &str) -> (term: &str)
    requires
        query@.len() >= 1,
    ensures
        term@ == query@.drop_first(),
{
    let length: usize = query.unicode_len();
    let term = query.substring_char(1, length);
    term
}

/// Whether the output goes through a pager: the height of the terminal is
/// known, as a number other than zero, and the output leaves no line of it
/// free.
pub fn needs_pager(lines_output: usize, term_size: usize) -> (paged: bool)
    ensures
        paged == (term_size != 0 && lines_output >= term_size - 1),
{
    term_size != 0 && lines_output >= term_size - 1
}

} // verus!
