//! A dictionary of Japanese at the terminal. At its heart is the lookup of
//! kanji by the radicals they are composed of: the radical table, the search
//! that keeps the kanji which every radical of a query is part of, and the
//! dialogue that picks a radical by its stroke count. Around it stand the
//! writing out of dictionary entries and of example sentences.

pub mod kanji_search;
pub mod mode;
pub mod sentence_search;
pub mod strokes;
pub mod styled;
pub mod table;
pub mod text;
pub mod util;
pub mod word_search;
