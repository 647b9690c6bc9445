//! The example sentences of a reply, written out as text: each sentence
//! with one of its translations, the Japanese one first.

use vstd::prelude::*;
use vstd::string::*;
use crate::styled::{Span, SpanModel, Style, painted, plain, push_span, spans};
use crate::text::{decimal, decimal_digits, same_text};
use crate::util::{Options, Value, value_to_arr, value_to_str};

verus! {

/// Whether an entry is in English.
pub open spec fn in_english(entry: Value) -> bool {
    match entry.member("lang"@) {
        Some(lang) => lang is String && lang->String_0@ == "eng"@,
        None => false,
    }
}

/// The sentence of the two that is shown first: the translation of an
/// entry in English, else the entry.
pub open spec fn upper(entry: Value, translation: Value) -> Value {
    if in_english(entry) {
        translation
    } else {
        entry
    }
}

/// The sentence of the two that is shown second.
pub open spec fn lower(entry: Value, translation: Value) -> Value {
    if in_english(entry) {
        entry
    } else {
        translation
    }
}

/// Whether an entry and a translation have the types that they are read
/// with, as far as they are read: the text of the sentence shown first a
/// string, and behind it that of the second. Of an entry without a language
/// nothing more is read.
pub open spec fn pair_readable(entry: Value, translation: Value) -> bool {
    entry.member("lang"@) is Some ==> match upper(entry, translation).member("text"@) {
        Some(first) => first is String && match lower(entry, translation).member("text"@) {
            Some(second) => second is String,
            None => true,
        },
        None => true,
    }
}

/// A sentence with a translation as it is shown: under its number, the
/// Japanese one of the two first. `None` where the entry lacks its language
/// or one of the two lacks its text.
pub open spec fn pair(entry: Value, translation: Value, number: nat) -> Option<Seq<SpanModel>> {
    if entry.member("lang"@) is None || entry.member("text"@) is None || translation.member(
        "text"@,
    ) is None {
        None
    } else {
        Some(
            seq![
                painted(Style::BrightBlack, decimal_digits(number) + "."@),
                plain(
                    " "@ + upper(entry, translation).member("text"@)->0->String_0@ + "\n   "@
                        + lower(entry, translation).member("text"@)->0->String_0@ + "\n\n"@,
                ),
            ],
        )
    }
}

/// Sentences as they are shown, how many they are, and whether all that
/// were to be shown could be.
pub ghost struct Pairs {
    pub text: Seq<SpanModel>,
    pub count: nat,
    pub complete: bool,
}

/// An entry with each of its translations in turn, numbered from `first`
/// on, up to the first pair that cannot be shown.
pub open spec fn entry_pairs(entry: Value, translations: Seq<Value>, first: nat) -> Pairs
    decreases translations.len(),
{
    if translations.len() == 0 {
        Pairs { text: Seq::empty(), count: 0, complete: true }
    } else {
        let before = entry_pairs(entry, translations.drop_last(), first);
        if !before.complete {
            before
        } else {
            match pair(entry, translations.last(), first + before.count) {
                Some(text) => Pairs {
                    text: before.text + text,
                    count: before.count + 1,
                    complete: true,
                },
                None => Pairs { text: before.text, count: before.count, complete: false },
            }
        }
    }
}

/// Whether an entry can be read with each of its translations in turn, up
/// to the first pair that cannot be shown.
pub open spec fn pairs_readable(entry: Value, translations: Seq<Value>) -> bool
    decreases translations.len(),
{
    if translations.len() == 0 {
        true
    } else {
        &&& pairs_readable(entry, translations.drop_last())
        &&& entry_pairs(entry, translations.drop_last(), 0).complete ==> pair_readable(
            entry,
            translations.last(),
        )
    }
}

/// The translations of an entry that are shown: the first group of them.
pub open spec fn translations_of(entry: Value) -> Option<Seq<Value>> {
    match entry.member("translations"@) {
        Some(groups) => if groups->Array_0@.len() > 0 {
            Some(groups->Array_0@[0]->Array_0@)
        } else {
            None
        },
        None => None,
    }
}

/// Whether an entry has the types that it is read with, as far as it is
/// read: its translations an array that begins with an array of sentences
/// which can be read with the entry.
pub open spec fn entry_readable(entry: Value) -> bool {
    match entry.member("translations"@) {
        Some(groups) => groups is Array && (groups->Array_0@.len() > 0 ==> {
            &&& groups->Array_0@[0] is Array
            &&& pairs_readable(entry, groups->Array_0@[0]->Array_0@)
        }),
        None => true,
    }
}

/// Whether no further entry is shown behind `count` pairs: the number of
/// the next pair has reached the limit. A limit of zero is none.
pub open spec fn limit_reached(count: nat, limit: nat) -> bool {
    limit != 0 && count + 1 >= limit
}

/// The entries of a list with their translations, numbered from one on, up
/// to the limit or to the first entry or pair that cannot be shown.
pub open spec fn sentences(list: Seq<Value>, limit: nat) -> Pairs
    decreases list.len(),
{
    if list.len() == 0 {
        Pairs { text: Seq::empty(), count: 0, complete: true }
    } else {
        let before = sentences(list.drop_last(), limit);
        if !before.complete || limit_reached(before.count, limit) {
            before
        } else {
            match translations_of(list.last()) {
                Some(translations) => {
                    let shown = entry_pairs(list.last(), translations, before.count + 1);
                    Pairs {
                        text: before.text + shown.text,
                        count: before.count + shown.count,
                        complete: shown.complete,
                    }
                },
                None => Pairs { text: before.text, count: before.count, complete: false },
            }
        }
    }
}

/// Whether the entries of a list can be read, up to the limit or to the
/// first entry or pair that cannot be shown.
pub open spec fn sentences_readable(list: Seq<Value>, limit: nat) -> bool
    decreases list.len(),
{
    if list.len() == 0 {
        true
    } else {
        let before = sentences(list.drop_last(), limit);
        &&& sentences_readable(list.drop_last(), limit)
        &&& before.complete && !limit_reached(before.count, limit) ==> entry_readable(list.last())
    }
}

/// Whether a reply has the types that it is read with, as far as it is
/// read: its results an array of entries that can be read, and the
/// sentences that are shown few enough for their lines to be counted.
pub open spec fn has_results(body: Value, limit: usize) -> bool {
    match body.member("results"@) {
        Some(results) => {
            &&& results is Array
            &&& sentences_readable(results->Array_0@, limit as nat)
            &&& 3 * (sentences(results->Array_0@, limit as nat).count + 1) <= usize::MAX
        },
        None => true,
    }
}

/// How many pairs are shown, and whether all are, does not depend on the
/// number of the first.
pub proof fn lemma_number_free(entry: Value, translations: Seq<Value>, first: nat, other: nat)
    ensures
        entry_pairs(entry, translations, first).count == entry_pairs(
            entry,
            translations,
            other,
        ).count,
        entry_pairs(entry, translations, first).complete == entry_pairs(
            entry,
            translations,
            other,
        ).complete,
    decreases translations.len(),
{
    if translations.len() > 0 {
        lemma_number_free(entry, translations.drop_last(), first, other);
    }
}

/// More translations give at least as many pairs.
pub proof fn lemma_entry_pairs_grow(entry: Value, translations: Seq<Value>, first: nat, upto: int)
    requires
        0 <= upto <= translations.len(),
    ensures
        entry_pairs(entry, translations.subrange(0, upto), first).count <= entry_pairs(
            entry,
            translations,
            first,
        ).count,
    decreases translations.len() - upto,
{
    if upto < translations.len() {
        lemma_entry_pairs_grow(entry, translations, first, upto + 1);
        assert(translations.subrange(0, upto + 1).drop_last() =~= translations.subrange(0, upto));
    } else {
        assert(translations.subrange(0, upto) =~= translations);
    }
}

/// Once a pair could not be shown, further translations change nothing.
pub proof fn lemma_stays_incomplete(entry: Value, translations: Seq<Value>, first: nat, upto: int)
    requires
        0 <= upto <= translations.len(),
        !entry_pairs(entry, translations.subrange(0, upto), first).complete,
    ensures
        entry_pairs(entry, translations, first) == entry_pairs(
            entry,
            translations.subrange(0, upto),
            first,
        ),
        pairs_readable(entry, translations) == pairs_readable(
            entry,
            translations.subrange(0, upto),
        ),
    decreases translations.len() - upto,
{
    if upto < translations.len() {
        assert(translations.subrange(0, upto + 1).drop_last() =~= translations.subrange(0, upto));
        lemma_number_free(entry, translations.subrange(0, upto), first, 0);
        lemma_stays_incomplete(entry, translations, first, upto + 1);
    } else {
        assert(translations.subrange(0, upto) =~= translations);
    }
}

/// Translations that can be read with an entry can be read up to any one
/// of them.
pub proof fn lemma_pairs_readable_upto(entry: Value, translations: Seq<Value>, upto: int)
    requires
        0 <= upto <= translations.len(),
        pairs_readable(entry, translations),
    ensures
        pairs_readable(entry, translations.subrange(0, upto)),
    decreases translations.len() - upto,
{
    if upto < translations.len() {
        lemma_pairs_readable_upto(entry, translations, upto + 1);
        assert(translations.subrange(0, upto + 1).drop_last() =~= translations.subrange(0, upto));
    } else {
        assert(translations.subrange(0, upto) =~= translations);
    }
}

/// More entries give at least as many pairs.
pub proof fn lemma_sentences_grow(list: Seq<Value>, limit: nat, upto: int)
    requires
        0 <= upto <= list.len(),
    ensures
        sentences(list.subrange(0, upto), limit).count <= sentences(list, limit).count,
    decreases list.len() - upto,
{
    if upto < list.len() {
        lemma_sentences_grow(list, limit, upto + 1);
        assert(list.subrange(0, upto + 1).drop_last() =~= list.subrange(0, upto));
    } else {
        assert(list.subrange(0, upto) =~= list);
    }
}

/// Once the entries have ended, by the limit or by one that could not be
/// shown, further entries change nothing.
pub proof fn lemma_sentences_ended(list: Seq<Value>, limit: nat, upto: int)
    requires
        0 <= upto <= list.len(),
        !sentences(list.subrange(0, upto), limit).complete || limit_reached(
            sentences(list.subrange(0, upto), limit).count,
            limit,
        ),
    ensures
        sentences(list, limit) == sentences(list.subrange(0, upto), limit),
        sentences_readable(list, limit) == sentences_readable(list.subrange(0, upto), limit),
    decreases list.len() - upto,
{
    if upto < list.len() {
        assert(list.subrange(0, upto + 1).drop_last() =~= list.subrange(0, upto));
        lemma_sentences_ended(list, limit, upto + 1);
    } else {
        assert(list.subrange(0, upto) =~= list);
    }
}

/// Entries that can be read can be read up to any one of them.
pub proof fn lemma_sentences_readable_upto(list: Seq<Value>, limit: nat, upto: int)
    requires
        0 <= upto <= list.len(),
        sentences_readable(list, limit),
    ensures
        sentences_readable(list.subrange(0, upto), limit),
    decreases list.len() - upto,
{
    if upto < list.len() {
        lemma_sentences_readable_upto(list, limit, upto + 1);
        assert(list.subrange(0, upto + 1).drop_last() =~= list.subrange(0, upto));
    } else {
        assert(list.subrange(0, upto) =~= list);
    }
}

/// Whether an entry is in English.
fn is_in_english(entry: &Value) -> (english: bool)
    ensures
        english == in_english(*entry),
{
    match entry.get("lang") {
        Some(Value::String(lang)) => same_text(lang.as_str(), "eng"),
        _ => false,
    }
}

/// Writes a sentence with one translation to the output, and tells whether
/// it could be shown.
fn print_pair(entry: &Value, translation: &Value, number: usize, output: &mut Vec<Span>) -> (shown:
    bool)
    requires
        pair_readable(*entry, *translation),
    ensures
        shown == pair(*entry, *translation, number as nat) is Some,
        shown ==> spans(final(output)@) == spans(old(output)@) + pair(
            *entry,
            *translation,
            number as nat,
        )->0,
        !shown ==> spans(final(output)@) == spans(old(output)@),
{
    if entry.get("lang").is_none() {
        return false;
    }
    let english = is_in_english(entry);
    let (first, second) = if english {
        (translation, entry)
    } else {
        (entry, translation)
    };
    let mut text = String::from_str(" ");
    match first.get("text") {
        Some(first) => text.append(value_to_str(first)),
        None => {
            return false;
        },
    }
    text.append("\n   ");
    match second.get("text") {
        Some(second) => text.append(value_to_str(second)),
        None => {
            return false;
        },
    }
    text.append("\n\n");
    let mut head = decimal(number);
    head.append(".");
    push_span(output, Style::BrightBlack, head);
    push_span(output, Style::Plain, text);
    true
}

/// Writes an entry with each of its translations to the output, numbered
/// from `first` on. Gives the number of pairs written, and whether all
/// could be shown.
fn print_translations(
    entry: &Value,
    translations: &Vec<Value>,
    first: usize,
    output: &mut Vec<Span>,
) -> (r: (usize, bool))
    requires
        pairs_readable(*entry, translations@),
        first + entry_pairs(*entry, translations@, first as nat).count <= usize::MAX,
    ensures
        spans(final(output)@) == spans(old(output)@) + entry_pairs(
            *entry,
            translations@,
            first as nat,
        ).text,
        r.0 == entry_pairs(*entry, translations@, first as nat).count,
        r.1 == entry_pairs(*entry, translations@, first as nat).complete,
{
    let ghost all = entry_pairs(*entry, translations@, first as nat);
    let mut count: usize = 0;
    let mut i: usize = 0;
    while i < translations.len()
        invariant
            i <= translations.len(),
            pairs_readable(*entry, translations@),
            all == entry_pairs(*entry, translations@, first as nat),
            first + all.count <= usize::MAX,
            spans(output@) == spans(old(output)@) + entry_pairs(
                *entry,
                translations@.subrange(0, i as int),
                first as nat,
            ).text,
            count == entry_pairs(*entry, translations@.subrange(0, i as int), first as nat).count,
            entry_pairs(*entry, translations@.subrange(0, i as int), first as nat).complete,
        decreases translations.len() - i,
    {
        let ghost upto = translations@.subrange(0, i + 1);
        proof {
            assert(upto.drop_last() =~= translations@.subrange(0, i as int));
            lemma_pairs_readable_upto(*entry, translations@, i + 1);
            lemma_number_free(*entry, translations@.subrange(0, i as int), first as nat, 0);
            lemma_entry_pairs_grow(*entry, translations@, first as nat, i as int);
            lemma_entry_pairs_grow(*entry, translations@, first as nat, i + 1);
        }
        if !print_pair(entry, &translations[i], first + count, output) {
            proof {
                lemma_stays_incomplete(*entry, translations@, first as nat, i + 1);
            }
            return (count, false);
        }
        count += 1;
        i += 1;
    }
    assert(translations@.subrange(0, i as int) =~= translations@);
    (count, true)
}

/// Writes the example sentences of a reply to the output, each with one of
/// its translations under a number, up to the limit of the options. Gives
/// the number of lines written, or `None` for a reply without results, or
/// with an entry or a sentence that lacks a part; what was read up to there
/// is written.
pub fn sentence_search(options: &Options, body: Value, output: &mut Vec<Span>) -> (lines: Option<
    usize,
>)
    requires
        has_results(body, options.limit),
    ensures
        match body.member("results"@) {
            Some(results) => {
                let shown = sentences(results->Array_0@, options.limit as nat);
                &&& spans(final(output)@) == spans(old(output)@) + shown.text
                &&& lines is Some == shown.complete
                &&& lines is Some ==> lines->0 == 3 * shown.count
            },
            None => lines is None && spans(final(output)@) == spans(old(output)@),
        },
{
    let results = match body.get("results") {
        Some(results) => value_to_arr(results),
        None => {
            return None;
        },
    };
    let ghost limit = options.limit as nat;
    let ghost all = sentences(results@, limit);
    let mut lines: usize = 0;
    let mut i: usize = 1;
    let mut e: usize = 0;
    while e < results.len() && !(i >= options.limit && options.limit != 0)
        invariant
            e <= results.len(),
            limit == options.limit as nat,
            body.member("results"@) is Some,
            body.member("results"@)->0->Array_0@ == results@,
            sentences_readable(results@, limit),
            all == sentences(results@, limit),
            3 * (all.count + 1) <= usize::MAX,
            spans(output@) == spans(old(output)@) + sentences(
                results@.subrange(0, e as int),
                limit,
            ).text,
            i == sentences(results@.subrange(0, e as int), limit).count + 1,
            lines == 3 * sentences(results@.subrange(0, e as int), limit).count,
            sentences(results@.subrange(0, e as int), limit).complete,
        decreases results.len() - e,
    {
        let ghost upto = results@.subrange(0, e + 1);
        proof {
            assert(upto.drop_last() =~= results@.subrange(0, e as int));
            lemma_sentences_readable_upto(results@, limit, e + 1);
            lemma_sentences_grow(results@, limit, e + 1);
        }
        let entry = &results[e];
        let groups = match entry.get("translations") {
            Some(groups) => value_to_arr(groups),
            None => {
                proof {
                    lemma_sentences_ended(results@, limit, e + 1);
                }
                return None;
            },
        };
        if groups.len() == 0 {
            proof {
                lemma_sentences_ended(results@, limit, e + 1);
            }
            return None;
        }
        let translations = value_to_arr(&groups[0]);
        let (count, complete) = print_translations(entry, translations, i, output);
        if !complete {
            proof {
                lemma_sentences_ended(results@, limit, e + 1);
            }
            return None;
        }
        i += count;
        lines += 3 * count;
        e += 1;
    }
    proof {
        if e < results.len() {
            lemma_sentences_ended(results@, limit, e as int);
        } else {
            assert(results@.subrange(0, e as int) =~= results@);
        }
    }
    Some(lines)
}

/// Whether an entry and a translation can be read as far as they are read.
pub fn check_pair(entry: &Value, translation: &Value) -> (ok: bool)
    ensures
        ok == pair_readable(*entry, *translation),
{
    if entry.get("lang").is_none() {
        return true;
    }
    let (first, second) = if is_in_english(entry) {
        (translation, entry)
    } else {
        (entry, translation)
    };
    match first.get("text") {
        Some(Value::String(_)) => match second.get("text") {
            Some(Value::String(_)) => true,
            Some(_) => false,
            None => true,
        },
        Some(_) => false,
        None => true,
    }
}

/// Whether an entry can be read with each of its translations in turn;
/// and, where it can, how many pairs are shown and whether all are.
fn check_translations(entry: &Value, translations: &Vec<Value>) -> (r: (bool, usize, bool))
    ensures
        r.0 == pairs_readable(*entry, translations@),
        r.0 ==> r.1 == entry_pairs(*entry, translations@, 0).count,
        r.0 ==> r.2 == entry_pairs(*entry, translations@, 0).complete,
{
    let mut i: usize = 0;
    while i < translations.len()
        invariant
            i <= translations.len(),
            pairs_readable(*entry, translations@.subrange(0, i as int)),
            entry_pairs(*entry, translations@.subrange(0, i as int), 0).complete,
            entry_pairs(*entry, translations@.subrange(0, i as int), 0).count == i,
        decreases translations.len() - i,
    {
        let ghost upto = translations@.subrange(0, i + 1);
        proof {
            assert(upto.drop_last() =~= translations@.subrange(0, i as int));
        }
        if !check_pair(entry, &translations[i]) {
            proof {
                if pairs_readable(*entry, translations@) {
                    lemma_pairs_readable_upto(*entry, translations@, i + 1);
                }
            }
            return (false, 0, false);
        }
        if entry.get("lang").is_none() || entry.get("text").is_none() || translations[i].get(
            "text",
        ).is_none() {
            proof {
                lemma_stays_incomplete(*entry, translations@, 0, i + 1);
            }
            return (true, i, false);
        }
        i += 1;
    }
    assert(translations@.subrange(0, i as int) =~= translations@);
    (true, i, true)
}

/// Whether a reply can be read under a limit, as far as it is read, and
/// its lines counted.
pub fn check_results(body: &Value, limit: usize) -> (ok: bool)
    ensures
        ok == has_results(*body, limit),
{
    let results = match body.get("results") {
        Some(Value::Array(results)) => results,
        Some(_) => {
            return false;
        },
        None => {
            return true;
        },
    };
    let mut count: usize = 0;
    let mut e: usize = 0;
    while e < results.len() && !(limit != 0 && count + 1 >= limit)
        invariant
            e <= results.len(),
            body.member("results"@) is Some,
            body.member("results"@)->0 is Array,
            body.member("results"@)->0->Array_0@ == results@,
            sentences_readable(results@.subrange(0, e as int), limit as nat),
            sentences(results@.subrange(0, e as int), limit as nat).complete,
            count == sentences(results@.subrange(0, e as int), limit as nat).count,
            3 * (count + 1) <= usize::MAX,
        decreases results.len() - e,
    {
        let ghost upto = results@.subrange(0, e + 1);
        proof {
            assert(upto.drop_last() =~= results@.subrange(0, e as int));
            lemma_sentences_grow(results@, limit as nat, e + 1);
            if sentences_readable(results@, limit as nat) {
                lemma_sentences_readable_upto(results@, limit as nat, e + 1);
            }
        }
        let entry = &results[e];
        let groups = match entry.get("translations") {
            Some(Value::Array(groups)) => groups,
            Some(_) => {
                return false;
            },
            None => {
                proof {
                    lemma_sentences_ended(results@, limit as nat, e + 1);
                }
                return true;
            },
        };
        if groups.len() == 0 {
            proof {
                lemma_sentences_ended(results@, limit as nat, e + 1);
            }
            return true;
        }
        let translations = match &groups[0] {
            Value::Array(translations) => translations,
            _ => {
                return false;
            },
        };
        let (readable, more, complete) = check_translations(entry, translations);
        if !readable {
            return false;
        }
        proof {
            lemma_number_free(*entry, translations@, (count + 1) as nat, 0);
        }
        let total: usize = match count.checked_add(more) {
            Some(total) => total,
            None => {
                return false;
            },
        };
        if total >= usize::MAX / 3 {
            return false;
        }
        if !complete {
            proof {
                lemma_sentences_ended(results@, limit as nat, e + 1);
            }
            return true;
        }
        count = total;
        e += 1;
    }
    proof {
        if e < results.len() {
            lemma_sentences_ended(results@, limit as nat, e as int);
        } else {
            assert(results@.subrange(0, e as int) =~= results@);
        }
    }
    true
}

} // verus!
