//! The entries of a dictionary reply, written out as text: each word with
//! its readings, its tags and its meanings.

use vstd::prelude::*;
use vstd::string::*;
use crate::styled::{
    Span, SpanModel, Style, painted, plain, pop_char, push_all, push_plain, push_span, spans,
    without_last_char,
};
use crate::text::{decimal, decimal_digits, replace, replaced, same_text, to_upper_case, upper_case};
use crate::util::{Options, Value, value_to_arr, value_to_bool, value_to_str};

verus! {

/// Whether `value` is an array whose first two elements, as far as it has
/// them, are strings.
pub open spec fn leading_texts(value: Value) -> bool {
    &&& value is Array
    &&& forall|i: int|
        0 <= i < value->Array_0@.len() && i < 2 ==> (#[trigger] value->Array_0@[i]) is String
}

/// Whether the member `key` of `value`, where there is one, is an array
/// whose first two elements are strings.
pub open spec fn has_leading_texts(value: Value, key: Seq<char>) -> bool {
    match value.member(key) {
        Some(list) => leading_texts(list),
        None => true,
    }
}

/// A tag of a meaning as it is shown: the one on kana usage in short.
pub open spec fn sense_tag(tag: Seq<char>) -> Seq<char> {
    if tag == "Usually written using kana alone"@ {
        "UK"@
    } else {
        tag
    }
}

/// The tags of a meaning as they are shown: the first behind a space, the
/// second behind a comma. Tags behind the second are not shown.
pub open spec fn sense_tags(value: Value) -> Seq<char> {
    match value.member("tags"@) {
        Some(tags) => {
            let list = tags->Array_0@;
            let first = if list.len() > 0 {
                " "@ + sense_tag(list[0]->String_0@)
            } else {
                Seq::empty()
            };
            let second = if list.len() > 1 {
                ", "@ + sense_tag(list[1]->String_0@)
            } else {
                Seq::empty()
            };
            first + second
        },
        None => Seq::empty(),
    }
}

/// The notes on a meaning as they are shown: the first behind a space, the
/// second behind a comma. Notes behind the second are not shown.
pub open spec fn sense_info(value: Value) -> Seq<char> {
    match value.member("info"@) {
        Some(info) => {
            let list = info->Array_0@;
            let first = if list.len() > 0 {
                " "@ + list[0]->String_0@
            } else {
                Seq::empty()
            };
            let second = if list.len() > 1 {
                ", "@ + list[1]->String_0@
            } else {
                Seq::empty()
            };
            first + second
        },
        None => Seq::empty(),
    }
}

/// A tag of a meaning as it is shown.
pub fn format_sense_tag(tag: &str) -> (shown: String)
    ensures
        shown@ == sense_tag(tag@),
{
    if same_text(tag, "Usually written using kana alone") {
        String::from_str("UK")
    } else {
        String::from_str(tag)
    }
}

/// The tags of a meaning as they are shown.
pub fn format_sense_tags(value: &Value) -> (shown: String)
    requires
        has_leading_texts(*value, "tags"@),
    ensures
        shown@ == sense_tags(*value),
{
    let mut builder = String::new();
    if let Some(tags) = value.get("tags") {
        let tags = value_to_arr(tags);
        if tags.len() > 0 {
            let tag = format_sense_tag(value_to_str(&tags[0]));
            builder.append(" ");
            builder.append(tag.as_str());
        }
        if tags.len() > 1 {
            let tag = format_sense_tag(value_to_str(&tags[1]));
            builder.append(", ");
            builder.append(tag.as_str());
        }
    }
    builder
}

/// The notes on a meaning as they are shown.
pub fn format_sense_info(value: &Value) -> (shown: String)
    requires
        has_leading_texts(*value, "info"@),
    ensures
        shown@ == sense_info(*value),
{
    let mut builder = String::new();
    if let Some(all_info) = value.get("info") {
        let all_info = value_to_arr(all_info);
        if all_info.len() > 0 {
            builder.append(" ");
            builder.append(value_to_str(&all_info[0]));
        }
        if all_info.len() > 1 {
            builder.append(", ");
            builder.append(value_to_str(&all_info[1]));
        }
    }
    builder
}

/// Whether the members of an entry that its tags are made of have the
/// types that they are read with: `is_common` a truth value, `jlpt` an
/// array that begins with a string.
pub open spec fn has_result_tags(value: Value) -> bool {
    &&& match value.member("is_common"@) {
        Some(common) => common is Bool,
        None => true,
    }
    &&& match value.member("jlpt"@) {
        Some(levels) => levels is Array && (levels->Array_0@.len() > 0
            ==> levels->Array_0@[0] is String),
        None => true,
    }
}

/// The mark of a common word.
pub open spec fn common_tag(value: Value) -> Seq<SpanModel> {
    match value.member("is_common"@) {
        Some(common) => if common->Bool_0 {
            seq![painted(Style::BrightGreen, "(common) "@)]
        } else {
            Seq::empty()
        },
        None => Seq::empty(),
    }
}

/// The level of the word in the language test: the first of the listed
/// levels, without its prefix and in upper case, in brackets.
pub open spec fn level_tag(value: Value) -> Seq<SpanModel> {
    match value.member("jlpt"@) {
        Some(levels) => if levels->Array_0@.len() > 0 {
            seq![
                plain("("@),
                painted(
                    Style::BrightBlue,
                    upper_case(replaced(levels->Array_0@[0]->String_0@, "jlpt-"@, ""@)),
                ),
                plain(") "@),
            ]
        } else {
            Seq::empty()
        },
        None => Seq::empty(),
    }
}

/// The tags of an entry as they are shown.
pub open spec fn result_tags(value: Value) -> Seq<SpanModel> {
    common_tag(value) + level_tag(value)
}

/// The tags of an entry as they are shown.
pub fn format_result_tags(value: &Value) -> (shown: Vec<Span>)
    requires
        has_result_tags(*value),
    ensures
        spans(shown@) == result_tags(*value),
{
    let mut builder: Vec<Span> = Vec::new();
    if let Some(common) = value.get("is_common") {
        if value_to_bool(common) {
            push_span(&mut builder, Style::BrightGreen, String::from_str("(common) "));
        }
    }
    if let Some(levels) = value.get("jlpt") {
        let levels = value_to_arr(levels);
        if levels.len() > 0 {
            proof {
                reveal_strlit("jlpt-");
            }
            let level = to_upper_case(replace(value_to_str(&levels[0]), "jlpt-", "").as_str());
            push_plain(&mut builder, "(");
            push_span(&mut builder, Style::BrightBlue, level);
            push_plain(&mut builder, ") ");
        }
    }
    builder
}

/// Whether the members of a form of a word have the types that they are
/// read with: the reading a string and, where there is a reading, the word
/// a string too.
pub open spec fn has_form(form: Value) -> bool {
    match form.member("reading"@) {
        Some(reading) => reading is String && match form.member("word"@) {
            Some(word) => word is String,
            None => true,
        },
        None => true,
    }
}

/// A form of a word as it is shown: the word, and its reading in brackets.
/// A form without a word shows its reading twice; one without a reading is
/// not shown.
pub open spec fn form_text(form: Value) -> Option<Seq<char>> {
    match form.member("reading"@) {
        Some(reading) => {
            let word = match form.member("word"@) {
                Some(word) => word,
                None => reading,
            };
            Some(word->String_0@ + "["@ + reading->String_0@ + "]"@)
        },
        None => None,
    }
}

/// A form of a word as it is shown. The query takes no part in it.
pub fn format_form(query: &str, form: &Value) -> (shown: Option<String>)
    requires
        has_form(*form),
    ensures
        match shown {
            Some(text) => form_text(*form) == Some(text@),
            None => form_text(*form) is None,
        },
{
    match form.get("reading") {
        Some(reading) => {
            let word = match form.get("word") {
                Some(word) => word,
                None => reading,
            };
            let mut text = String::from_str(value_to_str(word));
            text.append("[");
            text.append(value_to_str(reading));
            text.append("]");
            Some(text)
        },
        None => None,
    }
}

/// Whether every value of the list is a string.
pub open spec fn all_texts(list: Seq<Value>) -> bool {
    forall|i: int| 0 <= i < list.len() ==> (#[trigger] list[i]) is String
}

/// Whether `value` is an array of strings.
pub open spec fn text_list(value: Value) -> bool {
    value is Array && all_texts(value->Array_0@)
}

/// The strings of the list, with the separator between each two.
pub open spec fn joined(list: Seq<Value>, separator: Seq<char>) -> Seq<char>
    decreases list.len(),
{
    if list.len() == 0 {
        Seq::empty()
    } else if list.len() == 1 {
        list[0]->String_0@
    } else {
        joined(list.drop_last(), separator) + separator + list.last()->String_0@
    }
}

/// Joins the strings of the list, with the separator between each two.
pub fn join_texts(list: &Vec<Value>, separator: &str) -> (text: String)
    requires
        all_texts(list@),
    ensures
        text@ == joined(list@, separator@),
{
    let mut text = String::new();
    let mut i: usize = 0;
    while i < list.len()
        invariant
            i <= list.len(),
            all_texts(list@),
            text@ == joined(list@.subrange(0, i as int), separator@),
        decreases list.len() - i,
    {
        let ghost upto = list@.subrange(0, i + 1);
        proof {
            assert(upto.drop_last() =~= list@.subrange(0, i as int));
        }
        if i > 0 {
            text.append(separator);
        }
        text.append(value_to_str(&list[i]));
        i += 1;
    }
    assert(list@.subrange(0, i as int) =~= list@);
    text
}

/// Whether the members of a meaning have the types that they are read
/// with: the definitions and the parts of speech arrays of strings, the
/// tags and the notes arrays that begin with strings. Of a meaning without
/// definitions nothing is read.
pub open spec fn has_sense(value: Value) -> bool {
    match value.member("english_definitions"@) {
        Some(definitions) => {
            &&& text_list(definitions)
            &&& match value.member("parts_of_speech"@) {
                Some(parts) => text_list(parts),
                None => true,
            }
            &&& has_leading_texts(value, "tags"@)
            &&& has_leading_texts(value, "info"@)
        },
        None => true,
    }
}

/// The parts of speech of a meaning, with commas between them.
pub open spec fn sense_parts(value: Value) -> Seq<char> {
    match value.member("parts_of_speech"@) {
        Some(parts) => joined(parts->Array_0@, ", "@),
        None => Seq::empty(),
    }
}

/// Whether a meaning is shown under a heading of its own: it has
/// definitions, and parts of speech other than those of the meaning shown
/// before it.
pub open spec fn sense_is_headed(value: Value, previous: Seq<char>) -> bool {
    &&& value.member("english_definitions"@) is Some
    &&& sense_parts(value).len() > 0
    &&& sense_parts(value) != previous
}

/// The tags of a meaning, with a comma behind them where notes follow.
pub open spec fn sense_tags_before_info(value: Value) -> Seq<char> {
    if sense_info(value).len() > 0 && sense_tags(value).len() > 0 {
        sense_tags(value).push(',')
    } else {
        sense_tags(value)
    }
}

/// A meaning as it is shown: its heading, where it has one, then its
/// number, counted from one, its definitions, its tags and its notes. A
/// meaning without definitions is not shown.
pub open spec fn sense_text(value: Value, index: nat, previous: Seq<char>) -> Seq<SpanModel> {
    match value.member("english_definitions"@) {
        Some(definitions) => {
            let heading = if sense_is_headed(value, previous) {
                seq![painted(Style::BrightBlue, sense_parts(value)), plain("\n    "@)]
            } else {
                Seq::empty()
            };
            heading + seq![
                painted(Style::BrightBlack, decimal_digits(index + 1) + "."@),
                plain(" "@ + joined(definitions->Array_0@, ", "@)),
                painted(Style::BrightBlack, sense_tags_before_info(value)),
                painted(Style::BrightBlack, sense_info(value)),
            ]
        },
        None => Seq::empty(),
    }
}

/// One meaning of a word as it is shown, and whether it stands under a
/// heading of its own. `prev_parts_of_speech` holds the parts of speech of
/// the last heading, and takes those of a new one.
pub fn format_sense(value: &Value, index: usize, prev_parts_of_speech: &mut String) -> (r: (
    Vec<Span>,
    bool,
))
    requires
        has_sense(*value),
        index < usize::MAX,
    ensures
        spans(r.0@) == sense_text(*value, index as nat, old(prev_parts_of_speech)@),
        r.1 == sense_is_headed(*value, old(prev_parts_of_speech)@),
        final(prev_parts_of_speech)@ == if r.1 {
            sense_parts(*value)
        } else {
            old(prev_parts_of_speech)@
        },
{
    let mut shown: Vec<Span> = Vec::new();
    let definitions = match value.get("english_definitions") {
        Some(definitions) => value_to_arr(definitions),
        None => {
            return (shown, false);
        },
    };
    let mut headed = false;
    if let Some(parts) = value.get("parts_of_speech") {
        let parts = join_texts(value_to_arr(parts), ", ");
        if !parts.as_str().is_empty() && !same_text(parts.as_str(), prev_parts_of_speech.as_str()) {
            *prev_parts_of_speech = parts.clone();
            push_span(&mut shown, Style::BrightBlue, parts);
            push_plain(&mut shown, "\n    ");
            headed = true;
        }
    }
    let mut number = decimal(index + 1);
    number.append(".");
    let mut tags = format_sense_tags(value);
    let info = format_sense_info(value);
    if !info.as_str().is_empty() && !tags.as_str().is_empty() {
        tags.push(',');
    }
    let mut text = String::from_str(" ");
    text.append(join_texts(definitions, ", ").as_str());
    push_span(&mut shown, Style::BrightBlack, number);
    push_span(&mut shown, Style::Plain, text);
    push_span(&mut shown, Style::BrightBlack, tags);
    push_span(&mut shown, Style::BrightBlack, info);
    (shown, headed)
}

/// Whether the forms from position `from` on can be read as far as they
/// are shown: each is read up to the first that lacks its reading.
pub open spec fn forms_readable(forms: Seq<Value>, from: int) -> bool
    decreases forms.len() - from,
{
    if from < 0 || from >= forms.len() {
        true
    } else {
        has_form(forms[from]) && (form_text(forms[from]) is Some ==> forms_readable(
            forms,
            from + 1,
        ))
    }
}

/// Whether every value of the list can be read as a meaning.
pub open spec fn all_senses(list: Seq<Value>) -> bool {
    forall|i: int| 0 <= i < list.len() ==> has_sense(#[trigger] list[i])
}

/// Whether the members of an entry have the types that they are read
/// with, as far as they are read: its forms an array of forms, its tags as
/// they are read, its meanings an array of meanings. Behind a main form
/// that is missing or lacks its reading nothing is read, and behind missing
/// meanings no further forms. The meanings are few enough for their lines
/// to be counted.
pub open spec fn has_item(value: Value) -> bool {
    match value.member("japanese"@) {
        Some(japanese) => {
            let forms = japanese->Array_0@;
            &&& japanese is Array
            &&& forms.len() > 0 ==> has_form(forms[0])
            &&& forms.len() > 0 && form_text(forms[0]) is Some ==> {
                &&& has_result_tags(value)
                &&& match value.member("senses"@) {
                    Some(senses) => {
                        &&& senses is Array
                        &&& all_senses(senses->Array_0@)
                        &&& 2 * senses->Array_0@.len() + 4 <= usize::MAX
                        &&& forms_readable(forms, 1)
                    },
                    None => true,
                }
            }
        },
        None => true,
    }
}

/// The first line of an entry: its main form, then its tags.
pub open spec fn first_line(value: Value, form: Seq<char>) -> Seq<SpanModel> {
    seq![plain(form + " "@)] + result_tags(value) + seq![plain("\n"@)]
}

/// The meanings of an entry as they are shown, one to a line, with the
/// parts of speech that were shown last and the number of headings.
pub ghost struct Meanings {
    pub text: Seq<SpanModel>,
    pub previous: Seq<char>,
    pub headings: nat,
}

/// The meanings of a list as they are shown, in the list's order.
pub open spec fn meanings(senses: Seq<Value>) -> Meanings
    decreases senses.len(),
{
    if senses.len() == 0 {
        Meanings { text: Seq::empty(), previous: Seq::empty(), headings: 0 }
    } else {
        let before = meanings(senses.drop_last());
        let sense = senses.last();
        let headed = sense_is_headed(sense, before.previous);
        Meanings {
            text: if sense.member("english_definitions"@) is Some {
                before.text + seq![plain("    "@)] + sense_text(
                    sense,
                    (senses.len() - 1) as nat,
                    before.previous,
                ) + seq![plain("\n"@)]
            } else {
                before.text
            },
            previous: if headed {
                sense_parts(sense)
            } else {
                before.previous
            },
            headings: if headed {
                before.headings + 1
            } else {
                before.headings
            },
        }
    }
}

/// The forms from position `from` on, each behind a comma, up to the first
/// that cannot be shown; and whether all of them could be shown.
pub open spec fn more_forms(forms: Seq<Value>, from: int) -> (Seq<SpanModel>, bool)
    decreases forms.len() - from,
{
    if from < 0 || from >= forms.len() {
        (Seq::empty(), true)
    } else {
        match form_text(forms[from]) {
            Some(text) => {
                let rest = more_forms(forms, from + 1);
                (seq![plain(", "@ + text)] + rest.0, rest.1)
            },
            None => (Seq::empty(), false),
        }
    }
}

/// The forms behind the main one, under their title, as far as they can be
/// shown; and whether all of them could be shown. The line is closed only
/// where they all could.
pub open spec fn other_forms(forms: Seq<Value>) -> (Seq<SpanModel>, bool) {
    if forms.len() <= 1 {
        (Seq::empty(), true)
    } else {
        let title = seq![plain("    "@), painted(Style::BrightBlue, "Other forms\n"@)];
        match form_text(forms[1]) {
            Some(text) => {
                let rest = more_forms(forms, 2);
                if rest.1 {
                    (title + seq![plain("    "@ + text)] + rest.0 + seq![plain("\n"@)], true)
                } else {
                    (title + seq![plain("    "@ + text)] + rest.0, false)
                }
            },
            None => (title, false),
        }
    }
}

/// An entry as it is shown, and the number of its lines behind the first.
/// An entry that lacks its forms, its meanings or the reading of a form is
/// shown as far as it was read, and has no number of lines.
pub open spec fn item(value: Value) -> (Seq<SpanModel>, Option<nat>) {
    match value.member("japanese"@) {
        Some(japanese) => {
            let forms = japanese->Array_0@;
            if forms.len() == 0 {
                (Seq::empty(), None)
            } else {
                match form_text(forms[0]) {
                    Some(form) => match value.member("senses"@) {
                        Some(senses) => {
                            let list = senses->Array_0@;
                            let shown = meanings(list);
                            let others = other_forms(forms);
                            let lines = shown.headings + list.len() + 1 + if forms.len() > 1 {
                                2nat
                            } else {
                                0nat
                            };
                            (
                                first_line(value, form) + shown.text + others.0,
                                if others.1 {
                                    Some(lines)
                                } else {
                                    None
                                },
                            )
                        },
                        None => (first_line(value, form), None),
                    },
                    None => (Seq::empty(), None),
                }
            }
        },
        None => (Seq::empty(), None),
    }
}

/// Writes the meanings of an entry to the output, and counts the headings.
fn print_senses(senses: &Vec<Value>, output: &mut Vec<Span>) -> (headings: usize)
    requires
        all_senses(senses@),
        senses@.len() < usize::MAX,
    ensures
        spans(final(output)@) == spans(old(output)@) + meanings(senses@).text,
        headings == meanings(senses@).headings,
        headings <= senses@.len(),
{
    let mut previous = String::new();
    let mut headings: usize = 0;
    let mut i: usize = 0;
    while i < senses.len()
        invariant
            i <= senses.len(),
            all_senses(senses@),
            senses@.len() < usize::MAX,
            spans(output@) == spans(old(output)@) + meanings(senses@.subrange(0, i as int)).text,
            previous@ == meanings(senses@.subrange(0, i as int)).previous,
            headings == meanings(senses@.subrange(0, i as int)).headings,
            headings <= i,
        decreases senses.len() - i,
    {
        let ghost upto = senses@.subrange(0, i + 1);
        proof {
            assert(upto.drop_last() =~= senses@.subrange(0, i as int));
        }
        let (shown, headed) = format_sense(&senses[i], i, &mut previous);
        if shown.len() > 0 {
            if headed {
                headings += 1;
            }
            push_plain(output, "    ");
            push_all(output, shown);
            push_plain(output, "\n");
        }
        i += 1;
    }
    assert(senses@.subrange(0, i as int) =~= senses@);
    headings
}

/// Writes the forms behind the main one to the output, and tells whether
/// all of them could be shown.
fn print_other_forms(query: &str, forms: &Vec<Value>, output: &mut Vec<Span>) -> (complete: bool)
    requires
        forms_readable(forms@, 1),
    ensures
        spans(final(output)@) == spans(old(output)@) + other_forms(forms@).0,
        complete == other_forms(forms@).1,
{
    if forms.len() <= 1 {
        return true;
    }
    push_plain(output, "    ");
    push_span(output, Style::BrightBlue, String::from_str("Other forms\n"));
    let second = match format_form(query, &forms[1]) {
        Some(second) => second,
        None => {
            return false;
        },
    };
    let ghost shown = second@;
    let mut text = String::from_str("    ");
    text.append(second.as_str());
    push_span(output, Style::Plain, text);
    let ghost start = spans(output@);
    let ghost mut added: Seq<SpanModel> = Seq::empty();
    let mut i: usize = 2;
    while i < forms.len()
        invariant
            2 <= i <= forms.len(),
            forms_readable(forms@, i as int),
            form_text(forms@[1]) == Some(shown),
            start == spans(old(output)@) + seq![
                plain("    "@),
                painted(Style::BrightBlue, "Other forms\n"@),
            ] + seq![plain("    "@ + shown)],
            spans(output@) == start + added,
            more_forms(forms@, 2).0 == added + more_forms(forms@, i as int).0,
            more_forms(forms@, 2).1 == more_forms(forms@, i as int).1,
        decreases forms.len() - i,
    {
        match format_form(query, &forms[i]) {
            Some(form) => {
                let mut text = String::from_str(", ");
                text.append(form.as_str());
                push_span(output, Style::Plain, text);
                proof {
                    let shown = plain(", "@ + form@);
                    added = added.push(shown);
                }
            },
            None => {
                return false;
            },
        }
        i += 1;
    }
    push_plain(output, "\n");
    true
}

/// Writes one entry of a reply to the output: its main form with its tags,
/// its meanings, and its other forms. Gives the number of lines written
/// behind the first, or `None` where the entry lacks its forms, its
/// meanings or the reading of a form; what was read up to there is written.
pub fn print_item(query: &str, value: &Value, output: &mut Vec<Span>) -> (lines: Option<usize>)
    requires
        has_item(*value),
    ensures
        spans(final(output)@) == spans(old(output)@) + item(*value).0,
        match lines {
            Some(count) => item(*value).1 == Some(count as nat),
            None => item(*value).1 is None,
        },
{
    let japanese = match value.get("japanese") {
        Some(japanese) => value_to_arr(japanese),
        None => {
            return None;
        },
    };
    if japanese.len() == 0 {
        return None;
    }
    let main_form = match format_form(query, &japanese[0]) {
        Some(form) => form,
        None => {
            return None;
        },
    };
    let ghost form = main_form@;
    let mut first = main_form;
    first.append(" ");
    push_span(output, Style::Plain, first);
    push_all(output, format_result_tags(value));
    push_plain(output, "\n");
    let senses = match value.get("senses") {
        Some(senses) => value_to_arr(senses),
        None => {
            return None;
        },
    };
    let headings = print_senses(senses, output);
    let complete = print_other_forms(query, japanese, output);
    if !complete {
        return None;
    }
    let mut num_of_lines: usize = headings;
    if japanese.len() > 1 {
        num_of_lines += 2;
    }
    num_of_lines += senses.len() + 1;
    Some(num_of_lines)
}

/// The number of entries that are shown of `len`, under a limit that is
/// zero where there is none.
pub open spec fn shown_count(len: nat, limit: nat) -> nat {
    if limit == 0 || len <= limit {
        len
    } else {
        limit
    }
}

/// The entries of a list as they are shown, and the number of their lines.
pub ghost struct Shown {
    pub text: Seq<SpanModel>,
    pub lines: nat,
}

/// The entries of a list as they are shown, each followed by an empty line,
/// and the number of lines that this takes. An entry without a number of
/// lines counts for its empty line alone.
pub open spec fn entries(list: Seq<Value>) -> Shown
    decreases list.len(),
{
    if list.len() == 0 {
        Shown { text: Seq::empty(), lines: 0 }
    } else {
        let before = entries(list.drop_last());
        let last = item(list.last());
        Shown {
            text: before.text + last.0 + seq![plain("\n"@)],
            lines: before.lines + 1 + match last.1 {
                Some(count) => count,
                None => 0,
            },
        }
    }
}

/// Whether every value of the list can be read as an entry.
pub open spec fn all_items(list: Seq<Value>) -> bool {
    forall|i: int| 0 <= i < list.len() ==> has_item(#[trigger] list[i])
}

/// A bound on the lines that an entry takes: two for each meaning, and
/// four more.
pub open spec fn item_weight(value: Value) -> nat {
    match value.member("senses"@) {
        Some(senses) => if senses is Array {
            2 * senses->Array_0@.len() + 4
        } else {
            4
        },
        None => 4,
    }
}

/// The sum of the bounds on the lines of the entries of a list.
pub open spec fn weight(list: Seq<Value>) -> nat
    decreases list.len(),
{
    if list.len() == 0 {
        0
    } else {
        weight(list.drop_last()) + item_weight(list.last())
    }
}

/// Whether a reply has the types that it is read with: its data an array,
/// and the entries that are shown under the limit such as can be read, and
/// few enough for their lines to be counted.
pub open spec fn has_reply(body: Value, limit: usize) -> bool {
    match body.member("data"@) {
        Some(data) => {
            let shown = data->Array_0@.subrange(
                0,
                shown_count(data->Array_0@.len(), limit as nat) as int,
            );
            &&& data is Array
            &&& all_items(shown)
            &&& weight(shown) <= usize::MAX
        },
        None => true,
    }
}

/// There are no more headings than meanings.
pub proof fn lemma_headings_bounded(senses: Seq<Value>)
    ensures
        meanings(senses).headings <= senses.len(),
    decreases senses.len(),
{
    if senses.len() > 0 {
        lemma_headings_bounded(senses.drop_last());
    }
}

/// The entries of a list take no more lines than their bounds allow.
pub proof fn lemma_lines_bounded(list: Seq<Value>)
    requires
        all_items(list),
    ensures
        entries(list).lines <= weight(list),
    decreases list.len(),
{
    if list.len() > 0 {
        let front = list.drop_last();
        lemma_lines_bounded(front);
        let value = list.last();
        if item(value).1 is Some {
            lemma_headings_bounded(value.member("senses"@)->0->Array_0@);
        }
    }
}

/// More entries take at least as many lines.
pub proof fn lemma_entries_lines_grow(list: Seq<Value>, shorter: int, longer: int)
    requires
        0 <= shorter <= longer <= list.len(),
    ensures
        entries(list.subrange(0, shorter)).lines <= entries(list.subrange(0, longer)).lines,
    decreases longer - shorter,
{
    if shorter < longer {
        lemma_entries_lines_grow(list, shorter, longer - 1);
        assert(list.subrange(0, longer).drop_last() =~= list.subrange(0, longer - 1));
    }
}

/// Writes the entries of a reply to the output, as many as the limit of
/// the options allows, with an empty line between each two. Gives the
/// number of lines that they take behind the first, or `None` for a reply
/// without data, of which nothing is written.
pub fn word_search(options: &Options, body: Value, query: &String, output: &mut Vec<Span>) -> (lines:
    Option<usize>)
    requires
        has_reply(body, options.limit),
    ensures
        match body.member("data"@) {
            Some(data) => {
                let shown = entries(
                    data->Array_0@.subrange(
                        0,
                        shown_count(data->Array_0@.len(), options.limit as nat) as int,
                    ),
                );
                &&& spans(final(output)@) == without_last_char(spans(old(output)@) + shown.text)
                &&& lines == Some(
                    if shown.lines == 0 {
                        0usize
                    } else {
                        (shown.lines - 1) as usize
                    },
                )
            },
            None => lines is None && spans(final(output)@) == spans(old(output)@),
        },
{
    let data = match body.get("data") {
        Some(data) => value_to_arr(data),
        None => {
            return None;
        },
    };
    let ghost count = shown_count(data@.len(), options.limit as nat) as int;
    let mut lines_output: usize = 0;
    let mut i: usize = 0;
    while i < data.len() && !(i >= options.limit && options.limit != 0)
        invariant
            i <= count <= data.len(),
            count == shown_count(data@.len(), options.limit as nat),
            all_items(data@.subrange(0, count)),
            weight(data@.subrange(0, count)) <= usize::MAX,
            spans(output@) == spans(old(output)@) + entries(data@.subrange(0, i as int)).text,
            lines_output == entries(data@.subrange(0, i as int)).lines,
        decreases data.len() - i,
    {
        proof {
            assert(data@.subrange(0, i + 1).drop_last() =~= data@.subrange(0, i as int));
            lemma_entries_lines_grow(data@, i + 1, count);
            lemma_lines_bounded(data@.subrange(0, count));
        }
        if let Some(count) = print_item(query.as_str(), &data[i], output) {
            lines_output += count;
        }
        push_plain(output, "\n");
        lines_output += 1;
        i += 1;
    }
    pop_char(output);
    Some(lines_output.saturating_sub(1))
}

/// Whether the first two elements of the list, as far as it has them, are
/// strings.
fn begins_with_texts(list: &Vec<Value>) -> (ok: bool)
    ensures
        ok == forall|i: int| 0 <= i < list@.len() && i < 2 ==> (#[trigger] list@[i]) is String,
{
    if list.len() > 0 && !matches!(list[0], Value::String(_)) {
        return false;
    }
    if list.len() > 1 && !matches!(list[1], Value::String(_)) {
        return false;
    }
    true
}

/// Whether the member `key` of `value`, where there is one, is an array
/// whose first two elements are strings.
pub fn check_leading_texts(value: &Value, key: &str) -> (ok: bool)
    ensures
        ok == has_leading_texts(*value, key@),
{
    match value.get(key) {
        Some(Value::Array(list)) => begins_with_texts(list),
        Some(_) => false,
        None => true,
    }
}

/// Whether `value` is an array of strings.
pub fn check_text_list(value: &Value) -> (ok: bool)
    ensures
        ok == text_list(*value),
{
    match value {
        Value::Array(list) => {
            let mut i: usize = 0;
            while i < list.len()
                invariant
                    i <= list.len(),
                    value is Array,
                    value->Array_0@ == list@,
                    forall|j: int| 0 <= j < i ==> (#[trigger] list@[j]) is String,
                decreases list.len() - i,
            {
                if !matches!(list[i], Value::String(_)) {
                    return false;
                }
                i += 1;
            }
            true
        },
        _ => false,
    }
}

/// Whether the tags of an entry can be read.
pub fn check_result_tags(value: &Value) -> (ok: bool)
    ensures
        ok == has_result_tags(*value),
{
    let common = match value.get("is_common") {
        Some(Value::Bool(_)) => true,
        Some(_) => false,
        None => true,
    };
    let levels = match value.get("jlpt") {
        Some(Value::Array(levels)) => levels.len() == 0 || matches!(levels[0], Value::String(_)),
        Some(_) => false,
        None => true,
    };
    common && levels
}

/// Whether a form of a word can be read.
pub fn check_form(form: &Value) -> (ok: bool)
    ensures
        ok == has_form(*form),
{
    match form.get("reading") {
        Some(Value::String(_)) => match form.get("word") {
            Some(Value::String(_)) => true,
            Some(_) => false,
            None => true,
        },
        Some(_) => false,
        None => true,
    }
}

/// Whether a meaning can be read.
pub fn check_sense(value: &Value) -> (ok: bool)
    ensures
        ok == has_sense(*value),
{
    match value.get("english_definitions") {
        Some(definitions) => {
            let parts = match value.get("parts_of_speech") {
                Some(parts) => check_text_list(parts),
                None => true,
            };
            check_text_list(definitions) && parts && check_leading_texts(value, "tags")
                && check_leading_texts(value, "info")
        },
        None => true,
    }
}

/// Whether the forms behind the main one can be read as far as they are
/// shown.
pub fn check_other_forms(forms: &Vec<Value>) -> (ok: bool)
    ensures
        ok == forms_readable(forms@, 1),
{
    let mut i: usize = 1;
    while i < forms.len()
        invariant
            1 <= i,
            forms_readable(forms@, 1) == forms_readable(forms@, i as int),
        decreases forms.len() - i,
    {
        if !check_form(&forms[i]) {
            return false;
        }
        if forms[i].get("reading").is_none() {
            return true;
        }
        i += 1;
    }
    true
}

/// Whether every meaning of the list can be read.
pub fn check_senses(list: &Vec<Value>) -> (ok: bool)
    ensures
        ok == all_senses(list@),
{
    let mut i: usize = 0;
    while i < list.len()
        invariant
            i <= list.len(),
            forall|j: int| 0 <= j < i ==> has_sense(#[trigger] list@[j]),
        decreases list.len() - i,
    {
        if !check_sense(&list[i]) {
            return false;
        }
        i += 1;
    }
    true
}

/// Whether an entry can be read, and its lines counted.
pub fn check_item(value: &Value) -> (ok: bool)
    ensures
        ok == has_item(*value),
{
    match value.get("japanese") {
        Some(Value::Array(forms)) => {
            if forms.len() == 0 {
                return true;
            }
            if !check_form(&forms[0]) {
                return false;
            }
            if forms[0].get("reading").is_none() {
                return true;
            }
            let senses = match value.get("senses") {
                Some(Value::Array(senses)) => check_senses(senses) && senses.len() <= (usize::MAX
                    - 4) / 2 && check_other_forms(forms),
                Some(_) => false,
                None => true,
            };
            check_result_tags(value) && senses
        },
        Some(_) => false,
        None => true,
    }
}

/// Whether a reply can be read under a limit, and its lines counted.
pub fn check_reply(body: &Value, limit: usize) -> (ok: bool)
    ensures
        ok == has_reply(*body, limit),
{
    let data = match body.get("data") {
        Some(Value::Array(data)) => data,
        Some(_) => {
            return false;
        },
        None => {
            return true;
        },
    };
    let count: usize = if limit == 0 || data.len() <= limit {
        data.len()
    } else {
        limit
    };
    let ghost shown = data@.subrange(0, count as int);
    let mut i: usize = 0;
    while i < count
        invariant
            i <= count <= data.len(),
            body.member("data"@) is Some,
            body.member("data"@)->0 is Array,
            body.member("data"@)->0->Array_0@ == data@,
            count == shown_count(data@.len(), limit as nat),
            shown == data@.subrange(0, count as int),
            forall|j: int| 0 <= j < i ==> has_item(#[trigger] shown[j]),
        decreases count - i,
    {
        if !check_item(&data[i]) {
            assert(!has_item(shown[i as int]));
            return false;
        }
        i += 1;
    }
    let mut total: usize = 0;
    let mut k: usize = 0;
    while k < count
        invariant
            k <= count <= data.len(),
            all_items(shown),
            body.member("data"@) is Some,
            body.member("data"@)->0 is Array,
            body.member("data"@)->0->Array_0@ == data@,
            count == shown_count(data@.len(), limit as nat),
            shown == data@.subrange(0, count as int),
            total == weight(shown.subrange(0, k as int)),
        decreases count - k,
    {
        proof {
            assert(shown.subrange(0, k + 1).drop_last() =~= shown.subrange(0, k as int));
            lemma_weight_grows(shown, k + 1);
        }
        let bound: usize = match data[k].get("senses") {
            Some(Value::Array(senses)) => {
                if senses.len() > (usize::MAX - 4) / 2 {
                    return false;
                }
                2 * senses.len() + 4
            },
            _ => 4,
        };
        total = match total.checked_add(bound) {
            Some(total) => total,
            None => {
                return false;
            },
        };
        k += 1;
    }
    assert(shown.subrange(0, k as int) =~= shown);
    true
}

/// A longer part of a list weighs at least as much.
pub proof fn lemma_weight_grows(list: Seq<Value>, upto: int)
    requires
        0 <= upto <= list.len(),
    ensures
        weight(list.subrange(0, upto)) <= weight(list),
    decreases list.len() - upto,
{
    if upto < list.len() {
        lemma_weight_grows(list, upto + 1);
        assert(list.subrange(0, upto + 1).drop_last() =~= list.subrange(0, upto));
    } else {
        assert(list.subrange(0, upto) =~= list);
    }
}

} // verus!
