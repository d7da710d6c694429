//! What a run reports of its commands, as text in spans of one colour. A
//! terminal shows the colours; elsewhere the spans are printed as they come.

use vstd::prelude::*;
use vstd::string::StringExecFns;


verus! {

/// The sequence that clears a terminal's screen.
pub const CLEAR_SCREEN: &'static str = "\u{1b}[2J";

/// The colours of a report.
#[derive(Clone, Copy, Debug, PartialEq, Eq, Structural)]
pub enum Color {
    Cyan,
    Green,
    Red,
}

/// A piece of text in one colour, or in the terminal's own where none is given.
#[derive(Clone, Debug, PartialEq, Eq)]
pub struct Span {
    pub color: Option<Color>,
    pub text: String,
}

/// A span as contracts speak of it.
pub struct SpanView {
    pub color: Option<Color>,
    pub text: Seq<char>,
}

impl View for Span {
    type V = SpanView;

    open spec fn view(&self) -> SpanView {
        SpanView { color: self.color, text: self.text@ }
    }
}

/// The views of a sequence of spans.
pub open spec fn span_views(spans: Seq<Span>) -> Seq<SpanView> {
    spans.map_values(|span: Span| span@)
}

/// The number of nanoseconds in a second.
pub const NANOS_PER_SEC: u64 = 1_000_000_000;

/// A time span of `secs` seconds and `nanos` nanoseconds as
/// `floating_duration::TimeFormat` prints it.
pub uninterp spec fn time_format(secs: u64, nanos: u32) -> Seq<char>;

/// `floating_duration::TimeFormat` around a `std::time::Duration`, printed
/// in its short form. The text is taken on trust and only given a name.
#[verifier::external_body]
fn format_duration(secs: u64, nanos: u32) -> (r: String)
    requires
        nanos < NANOS_PER_SEC,
    ensures
        r@ == time_format(secs, nanos),
{
    format!("{}", floating_duration::TimeFormat(std::time::Duration::new(secs, nanos)))
}

/// The report that a command starts.
pub open spec fn starting_spans(name: Seq<char>) -> Seq<SpanView> {
    seq![SpanView { color: Some(Color::Cyan), text: "==> "@ + name }]
}

/// The report that a command has finished after `duration_ns` nanoseconds.
pub open spec fn finished_spans(name: Seq<char>, duration_ns: u64, success: bool) -> Seq<SpanView> {
    seq![
        SpanView { color: Some(Color::Cyan), text: "==> "@ + name + ": "@ },
        if success {
            SpanView { color: Some(Color::Green), text: "Success. "@ }
        } else {
            SpanView { color: Some(Color::Red), text: "Failed. "@ }
        },
        SpanView {
            color: None,
            text: "("@ + time_format(
                duration_ns / NANOS_PER_SEC,
                (duration_ns % NANOS_PER_SEC) as u32,
            ) + ")"@,
        },
    ]
}

/// The line that reports the start of the command `name`.
pub fn starting_command(name: &str) -> (spans: Vec<Span>)
    ensures
        span_views(spans@) == starting_spans(name@),
{
    let mut text = String::from_str("==> ");
    text.append(name);
    let mut spans: Vec<Span> = Vec::new();
    spans.push(Span { color: Some(Color::Cyan), text });
    assert(span_views(spans@) == starting_spans(name@));
    spans
}

/// The line that reports the end of the command `name`.
pub fn command_finished(name: &str, duration_ns: u64, success: bool) -> (spans: Vec<Span>)
    ensures
        span_views(spans@) == finished_spans(name@, duration_ns, success),
{
    let mut head = String::from_str("==> ");
    head.append(name);
    head.append(": ");
    let verdict = if success {
        Span { color: Some(Color::Green), text: String::from_str("Success. ") }
    } else {
        Span { color: Some(Color::Red), text: String::from_str("Failed. ") }
    };
    let secs = duration_ns / NANOS_PER_SEC;
    let nanos = (duration_ns % NANOS_PER_SEC) as u32;
    let mut time = String::from_str("(");
    time.append(format_duration(secs, nanos).as_str());
    time.append(")");
    let mut spans: Vec<Span> = Vec::new();
    spans.push(Span { color: Some(Color::Cyan), text: head });
    spans.push(verdict);
    spans.push(Span { color: None, text: time });
    assert(span_views(spans@) == finished_spans(name@, duration_ns, success));
    spans
}

/// The texts of the spans, one after the other.
pub open spec fn plain_text(spans: Seq<SpanView>) -> Seq<char>
    decreases spans.len(),
{
    if spans.len() == 0 {
        Seq::empty()
    } else {
        plain_text(spans.drop_last()) + spans.last().text
    }
}

/// A line without its colours.
pub fn plain(spans: &Vec<Span>) -> (line: String)
    ensures
        line@ == plain_text(span_views(spans@)),
{
    let mut line = String::new();
    let mut i: usize = 0;
    while i < spans.len()
        invariant
            i <= spans.len(),
            line@ == plain_text(span_views(spans@).take(i as int)),
        decreases spans.len() - i,
    {
        let ghost all = span_views(spans@);
        assert(all.take(i + 1).drop_last() == all.take(i as int));
        line.append(spans[i].text.as_str());
        i = i + 1;
    }
    assert(span_views(spans@).take(spans@.len() as int) == span_views(spans@));
    line
}

} // verus!
