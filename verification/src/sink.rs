//! The destinations that rendered text is written to.
use crate::color::Spec;
use vstd::prelude::*;
use vstd::utf8::{decode_utf8, valid_utf8};

verus! {

/// Calls `std::str::from_utf8`, which gives the text that the bytes encode
/// where they are valid UTF-8, and nothing where they are not.
#[verifier::external_body]
fn utf8_text(bytes: &[u8]) -> (text: Option<&str>)
    ensures
        text is Some <==> valid_utf8(bytes@),
        text matches Some(read) ==> read@ == decode_utf8(bytes@),
{
    std::str::from_utf8(bytes).ok()
}

/// One character of output and the style it is shown in, if any.
pub type Cell = (char, Option<Spec>);

/// `text`, each character of it in the style `style`.
pub open spec fn styled(text: Seq<char>, style: Option<Spec>) -> Seq<Cell> {
    Seq::new(text.len(), |i: int| (text[i], style))
}

/// The characters of styled text, without their styles.
pub open spec fn plain(cells: Seq<Cell>) -> Seq<char> {
    Seq::new(cells.len(), |i: int| cells[i].0)
}

/// The sink did not take what was written to it.
#[derive(Clone, Copy, Debug, PartialEq, Eq)]
pub struct WriteFailed;

/// An ordered, append-only destination for text, part of it in a style.
///
/// A sink either keeps the styles it is handed or drops them, and either can
/// fail or cannot. What it holds is modelled as a sequence of characters,
/// each with the style it was written in.
pub trait Sink {
    /// Everything written so far, character by character.
    spec fn cells(&self) -> Seq<Cell>;

    /// Whether this sink keeps the style of styled text.
    spec fn keeps_color(&self) -> bool;

    /// Whether writing to this sink always succeeds.
    spec fn reliable(&self) -> bool;

    /// Appends text in no style.
    fn write_str(&mut self, text: &str) -> (done: Result<(), WriteFailed>)
        ensures
            final(self).keeps_color() == old(self).keeps_color(),
            final(self).reliable() == old(self).reliable(),
            old(self).reliable() ==> done is Ok,
            done is Ok ==> final(self).cells() == old(self).cells() + styled(text@, None),
    ;

    /// Appends text in the style `spec`: sets the style, writes, and resets.
    fn write_colored(&mut self, spec: &Spec, text: &str) -> (done: Result<(), WriteFailed>)
        ensures
            final(self).keeps_color() == old(self).keeps_color(),
            final(self).reliable() == old(self).reliable(),
            old(self).reliable() ==> done is Ok,
            done is Ok ==> final(self).cells() == old(self).cells() + styled(
                text@,
                if old(self).keeps_color() {
                    Some(*spec)
                } else {
                    None
                },
            ),
    ;
}

/// A sink that drops every style and keeps the text.
pub struct ColorlessString(pub String);

impl ColorlessString {
    /// Whether this sink keeps styles: it does not.
    pub fn supports_color(&self) -> (supported: bool)
        ensures
            !supported,
    {
        false
    }

    /// Appends the text that the bytes encode, and says how many bytes were
    /// taken: all of them.
    pub fn write(&mut self, buf: &[u8]) -> (taken: usize)
        requires
            valid_utf8(buf@),
        ensures
            taken == buf@.len(),
            final(self).0@ == old(self).0@ + decode_utf8(buf@),
    {
        match utf8_text(buf) {
            Some(text) => {
                self.0.append(text);
            },
            None => {},
        }
        buf.len()
    }

    /// Hands on what was written; a string holds nothing back.
    pub fn flush(&mut self)
        ensures
            final(self).0@ == old(self).0@,
    {
    }

    /// Takes a style and drops it.
    pub fn set_color(&mut self, spec: &Spec)
        ensures
            final(self).0@ == old(self).0@,
    {
    }

    /// Ends a style; there is none to end.
    pub fn reset(&mut self)
        ensures
            final(self).0@ == old(self).0@,
    {
    }
}

impl Sink for ColorlessString {
    open spec fn cells(&self) -> Seq<Cell> {
        styled(self.0@, None)
    }

    open spec fn keeps_color(&self) -> bool {
        false
    }

    open spec fn reliable(&self) -> bool {
        true
    }

    fn write_str(&mut self, text: &str) -> (done: Result<(), WriteFailed>)
        ensures
            final(self).0@ == old(self).0@ + text@,
    {
        self.0.append(text);
        assert(styled(self.0@, None) =~= styled(old(self).0@, None) + styled(text@, None));
        Ok(())
    }

    fn write_colored(&mut self, spec: &Spec, text: &str) -> (done: Result<(), WriteFailed>)
        ensures
            final(self).0@ == old(self).0@ + text@,
    {
        self.set_color(spec);
        self.0.append(text);
        self.reset();
        assert(styled(self.0@, None) =~= styled(old(self).0@, None) + styled(text@, None));
        Ok(())
    }
}

/// A run of text in one style.
#[derive(Clone, Debug, PartialEq, Eq)]
pub struct Span {
    pub text: String,
    pub style: Option<Spec>,
}

/// A sink that keeps the text together with its styles, run by run.
pub struct ColoredString(pub Vec<Span>);

/// The styled characters of a list of runs.
pub open spec fn span_cells(spans: Seq<Span>) -> Seq<Cell>
    decreases spans.len(),
{
    if spans.len() == 0 {
        Seq::empty()
    } else {
        span_cells(spans.drop_last()) + styled(spans.last().text@, spans.last().style)
    }
}

impl ColoredString {
    /// Whether this sink keeps styles: it does.
    pub fn supports_color(&self) -> (supported: bool)
        ensures
            supported,
    {
        true
    }

    fn push_span(&mut self, span: Span)
        ensures
            final(self).0@ == old(self).0@.push(span),
            final(self).0@.drop_last() == old(self).0@,
            final(self).0@.last() == span,
            span_cells(final(self).0@) == span_cells(old(self).0@) + styled(span.text@, span.style),
    {
        self.0.push(span);
        assert(self.0@.drop_last() =~= old(self).0@);
        assert(self.0@.last() == span);
    }
}

impl Sink for ColoredString {
    open spec fn cells(&self) -> Seq<Cell> {
        span_cells(self.0@)
    }

    open spec fn keeps_color(&self) -> bool {
        true
    }

    open spec fn reliable(&self) -> bool {
        true
    }

    fn write_str(&mut self, text: &str) -> (done: Result<(), WriteFailed>)
        ensures
            final(self).0@.drop_last() == old(self).0@,
            final(self).0@.last().text@ == text@,
            final(self).0@.last().style is None,
    {
        self.push_span(Span { text: text.to_owned(), style: None });
        Ok(())
    }

    fn write_colored(&mut self, spec: &Spec, text: &str) -> (done: Result<(), WriteFailed>)
        ensures
            final(self).0@.drop_last() == old(self).0@,
            final(self).0@.last().text@ == text@,
            final(self).0@.last().style == Some(*spec),
    {
        self.push_span(Span { text: text.to_owned(), style: Some(*spec) });
        Ok(())
    }
}

/// A writer outside this library, such as a terminal: it takes text, plain
/// or in a style, and may refuse it. Nothing is known of what it does with
/// the text.
pub trait StyledWrite {
    /// Takes text in no style, or refuses it.
    fn write_plain(&mut self, text: &str) -> Result<(), WriteFailed>;

    /// Takes text in the style `spec`, or refuses it.
    fn write_styled(&mut self, spec: &Spec, text: &str) -> Result<(), WriteFailed>;
}

/// A sink that hands everything on to a writer. What it holds, as a sink,
/// is what the writer has taken: the text of every write that the writer
/// did not refuse, in the style in which it was handed over.
pub struct Forward<W: StyledWrite> {
    writer: W,
    taken: Ghost<Seq<Cell>>,
}

impl<W: StyledWrite> Forward<W> {
    /// The writer as it now is.
    pub closed spec fn target(self) -> W {
        self.writer
    }

    /// A sink that hands on to `writer`, and has handed on nothing yet.
    pub fn new(writer: W) -> (sink: Self)
        ensures
            sink.cells() == Seq::<Cell>::empty(),
            sink.target() == writer,
    {
        Forward { writer, taken: Ghost(Seq::empty()) }
    }

    /// The writer as it now is.
    pub fn get_ref(&self) -> (writer: &W)
        ensures
            *writer == self.target(),
    {
        &self.writer
    }

    /// Gives the writer back.
    pub fn into_inner(self) -> (writer: W)
        ensures
            writer == self.target(),
    {
        self.writer
    }
}

impl<W: StyledWrite> Sink for Forward<W> {
    closed spec fn cells(&self) -> Seq<Cell> {
        self.taken@
    }

    open spec fn keeps_color(&self) -> bool {
        true
    }

    open spec fn reliable(&self) -> bool {
        false
    }

    fn write_str(&mut self, text: &str) -> (done: Result<(), WriteFailed>) {
        let done = self.writer.write_plain(text);
        if done.is_ok() {
            self.taken = Ghost(self.taken@ + styled(text@, None));
        }
        done
    }

    fn write_colored(&mut self, spec: &Spec, text: &str) -> (done: Result<(), WriteFailed>) {
        let done = self.writer.write_styled(spec, text);
        if done.is_ok() {
            self.taken = Ghost(self.taken@ + styled(text@, Some(*spec)));
        }
        done
    }
}

} // verus!
