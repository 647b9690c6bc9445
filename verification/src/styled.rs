//! Text with colours: what the searches write is a list of stretches of
//! text, each in one style. `colored` decides, by the terminal and the
//! environment, how a style is written out.

use colored::Colorize;
use vstd::prelude::*;
use vstd::string::*;
use crate::table::texts;

verus! {

/// The colour of a stretch of text.
#[derive(Clone, Copy, Debug, PartialEq, Eq, Structural)]
pub enum Style {
    Plain,
    BrightBlack,
    BrightBlue,
    BrightGreen,
}

/// A stretch of text in one style.
#[derive(Debug)]
pub struct Span {
    pub style: Style,
    pub text: String,
}

/// A `Span` as mathematical values.
pub ghost struct SpanModel {
    pub style: Style,
    pub text: Seq<char>,
}

impl View for Span {
    type V = SpanModel;

    open spec fn view(&self) -> SpanModel {
        SpanModel { style: self.style, text: self.text@ }
    }
}

/// The models of a list of spans, in their order.
pub open spec fn spans(list: Seq<Span>) -> Seq<SpanModel> {
    Seq::new(list.len(), |i: int| list[i]@)
}

/// A stretch of plain text.
pub open spec fn plain(text: Seq<char>) -> SpanModel {
    SpanModel { style: Style::Plain, text }
}

/// A stretch of text in a style.
pub open spec fn painted(style: Style, text: Seq<char>) -> SpanModel {
    SpanModel { style, text }
}

/// Adds a stretch of text in a style to the end of the output.
pub fn push_span(output: &mut Vec<Span>, style: Style, text: String)
    ensures
        spans(final(output)@) == spans(old(output)@).push(painted(style, text@)),
{
    output.push(Span { style, text });
}

/// Adds a stretch of plain text to the end of the output.
pub fn push_plain(output: &mut Vec<Span>, text: &str)
    ensures
        spans(final(output)@) == spans(old(output)@).push(plain(text@)),
{
    push_span(output, Style::Plain, String::from_str(text));
}

/// Moves the spans of `more` to the end of the output.
pub fn push_all(output: &mut Vec<Span>, more: Vec<Span>)
    ensures
        spans(final(output)@) == spans(old(output)@) + spans(more@),
{
    let ghost added = spans(more@);
    let mut more = more;
    let mut tail: Vec<Span> = Vec::new();
    while more.len() > 0
        invariant
            spans(more@) + spans(tail@).reverse() == added,
        decreases more.len(),
    {
        let ghost before = more@;
        let ghost stack = tail@;
        let span = more.pop().unwrap();
        tail.push(span);
    }
    while tail.len() > 0
        invariant
            spans(output@) + spans(tail@).reverse() == spans(old(output)@) + added,
        decreases tail.len(),
    {
        let ghost before = output@;
        let ghost stack = tail@;
        let span = tail.pop().unwrap();
        output.push(span);
    }
}

/// The output without its last character: the last span loses it, where
/// that span is plain and not empty. Other output stays as it is.
pub open spec fn without_last_char(output: Seq<SpanModel>) -> Seq<SpanModel> {
    if output.len() > 0 && output.last().style == Style::Plain && output.last().text.len() > 0 {
        output.drop_last().push(plain(output.last().text.drop_last()))
    } else {
        output
    }
}

/// Takes the last character off the output.
pub fn pop_char(output: &mut Vec<Span>)
    ensures
        spans(final(output)@) == without_last_char(spans(old(output)@)),
{
    match output.pop() {
        Some(last) => {
            let Span { style, text } = last;
            let mut text = text;
            if style == Style::Plain {
                text.pop();
            }
            push_span(output, style, text);
        },
        None => {
        },
    }
}

/// `colored::Colorize::bright_black`, and the text that `colored` writes for
/// the result. Whether that text carries colour codes depends on the
/// terminal and the environment, so nothing is said of it.
#[verifier::external_body]
fn paint_bright_black(text: &str) -> (shown: String) {
    text.bright_black().to_string()
}

/// `colored::Colorize::bright_blue`, and the text that `colored` writes for
/// the result. Whether that text carries colour codes depends on the
/// terminal and the environment, so nothing is said of it.
#[verifier::external_body]
fn paint_bright_blue(text: &str) -> (shown: String) {
    text.bright_blue().to_string()
}

/// `colored::Colorize::bright_green`, and the text that `colored` writes for
/// the result. Whether that text carries colour codes depends on the
/// terminal and the environment, so nothing is said of it.
#[verifier::external_body]
fn paint_bright_green(text: &str) -> (shown: String) {
    text.bright_green().to_string()
}

/// Whether `pieces` can be what the spans of an output are written as: one
/// piece for each span, and that of a plain span its text.
pub open spec fn shows(output: Seq<SpanModel>, pieces: Seq<Seq<char>>) -> bool {
    &&& pieces.len() == output.len()
    &&& forall|i: int|
        0 <= i < output.len() && (#[trigger] output[i]).style == Style::Plain ==> pieces[i]
            == output[i].text
}

/// The pieces one behind the other.
pub open spec fn concat(pieces: Seq<Seq<char>>) -> Seq<char>
    decreases pieces.len(),
{
    if pieces.len() == 0 {
        Seq::empty()
    } else {
        concat(pieces.drop_last()) + pieces.last()
    }
}

/// Writes out a span: a plain one as its text, another as `colored` writes
/// it in its colour.
pub fn paint(span: &Span) -> (shown: String)
    ensures
        span.style == Style::Plain ==> shown@ == span.text@,
{
    match span.style {
        Style::Plain => String::from_str(span.text.as_str()),
        Style::BrightBlack => paint_bright_black(span.text.as_str()),
        Style::BrightBlue => paint_bright_blue(span.text.as_str()),
        Style::BrightGreen => paint_bright_green(span.text.as_str()),
    }
}

/// Writes out each span of the output.
pub fn paint_all(output: &Vec<Span>) -> (pieces: Vec<String>)
    ensures
        shows(spans(output@), texts(pieces@)),
{
    let mut pieces: Vec<String> = Vec::new();
    let mut i: usize = 0;
    while i < output.len()
        invariant
            i <= output.len(),
            pieces.len() == i,
            forall|j: int|
                0 <= j < i && (#[trigger] spans(output@)[j]).style == Style::Plain ==> texts(
                    pieces@,
                )[j] == spans(output@)[j].text,
        decreases output.len() - i,
    {
        let piece = paint(&output[i]);
        pieces.push(piece);
        i += 1;
    }
    pieces
}

/// Puts the pieces one behind the other.
pub fn assemble(pieces: &Vec<String>) -> (text: String)
    ensures
        text@ == concat(texts(pieces@)),
{
    let mut text = String::new();
    let mut i: usize = 0;
    while i < pieces.len()
        invariant
            i <= pieces.len(),
            text@ == concat(texts(pieces@).subrange(0, i as int)),
        decreases pieces.len() - i,
    {
        assert(texts(pieces@).subrange(0, i + 1).drop_last() =~= texts(pieces@).subrange(
            0,
            i as int,
        ));
        text.append(pieces[i].as_str());
        i += 1;
    }
    assert(texts(pieces@).subrange(0, i as int) =~= texts(pieces@));
    text
}

/// The texts of the spans of an output.
pub open spec fn span_texts(output: Seq<SpanModel>) -> Seq<Seq<char>> {
    Seq::new(output.len(), |i: int| output[i].text)
}

/// Whether every span of the output is plain.
pub open spec fn all_plain(output: Seq<SpanModel>) -> bool {
    forall|i: int| 0 <= i < output.len() ==> (#[trigger] output[i]).style == Style::Plain
}

/// Plain output is written as its text and nothing else, however `colored`
/// writes colours.
pub proof fn lemma_plain_output(output: Seq<SpanModel>, pieces: Seq<Seq<char>>)
    requires
        all_plain(output),
        shows(output, pieces),
    ensures
        concat(pieces) == concat(span_texts(output)),
{
    assert(pieces =~= span_texts(output));
}

/// The output as it is written to the terminal: each span as `colored`
/// writes it, one behind the other. Plain output comes out as its text
/// alone.
pub fn render(output: &Vec<Span>) -> (text: String)
    ensures
        exists|pieces: Seq<Seq<char>>| shows(spans(output@), pieces) && text@ == concat(pieces),
        all_plain(spans(output@)) ==> text@ == concat(span_texts(spans(output@))),
{
    let pieces = paint_all(output);
    proof {
        if all_plain(spans(output@)) {
            lemma_plain_output(spans(output@), texts(pieces@));
        }
    }
    assemble(&pieces)
}

} // verus!
