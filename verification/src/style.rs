//! Styled text: what a terminal cell row is made of.
use std::borrow::Cow;

use vstd::prelude::*;

use crate::text::{cow_views, lines, lines_end_at_line_feeds, split_lines};

verus! {

/// A colour of the terminal.
#[derive(Debug, Clone, Copy, PartialEq, Eq, Structural)]
pub enum Color {
    /// Red, green and blue.
    Rgb(u8, u8, u8),
}

/// The colour of what matters most.
#[verifier::allow_in_spec]
pub fn accent() -> Color
    returns
        Color::Rgb(137, 180, 250),
{
    Color::Rgb(137, 180, 250)
}

/// The colour of what matters least.
#[verifier::allow_in_spec]
pub fn muted() -> Color
    returns
        Color::Rgb(108, 112, 134),
{
    Color::Rgb(108, 112, 134)
}

/// The dark colour of text on a bright background.
#[verifier::allow_in_spec]
pub fn dark() -> Color
    returns
        Color::Rgb(17, 17, 27),
{
    Color::Rgb(17, 17, 27)
}

/// How a piece of text looks. A colour that is `None` is left as it is underneath.
#[derive(Debug, Clone, Copy, PartialEq, Eq, Structural)]
pub struct Style {
    pub fg: Option<Color>,
    pub bg: Option<Color>,
    pub bold: bool,
    pub italic: bool,
    pub underlined: bool,
    pub crossed_out: bool,
}

impl Style {
    /// The style that changes nothing.
    #[verifier::allow_in_spec]
    pub fn plain() -> Self
        returns
            (Style {
                fg: None,
                bg: None,
                bold: false,
                italic: false,
                underlined: false,
                crossed_out: false,
            }),
    {
        Style {
            fg: None,
            bg: None,
            bold: false,
            italic: false,
            underlined: false,
            crossed_out: false,
        }
    }

    /// Text in `color`.
    #[verifier::allow_in_spec]
    pub fn colored(color: Color) -> Self
        returns
            (Style { fg: Some(color), ..Style::plain() }),
    {
        Style { fg: Some(color), ..Style::plain() }
    }

    /// This style on a background of `color`.
    #[verifier::allow_in_spec]
    pub fn on(self, color: Color) -> Self
        returns
            (Style { bg: Some(color), ..self }),
    {
        Style { bg: Some(color), ..self }
    }

    /// This style in bold.
    #[verifier::allow_in_spec]
    pub fn bold(self) -> Self
        returns
            (Style { bold: true, ..self }),
    {
        Style { bold: true, ..self }
    }

    /// This style in italics.
    #[verifier::allow_in_spec]
    pub fn italic(self) -> Self
        returns
            (Style { italic: true, ..self }),
    {
        Style { italic: true, ..self }
    }

    /// This style underlined.
    #[verifier::allow_in_spec]
    pub fn underlined(self) -> Self
        returns
            (Style { underlined: true, ..self }),
    {
        Style { underlined: true, ..self }
    }

    /// This style crossed out.
    #[verifier::allow_in_spec]
    pub fn crossed_out(self) -> Self
        returns
            (Style { crossed_out: true, ..self }),
    {
        Style { crossed_out: true, ..self }
    }

    /// `top` laid over this style: its colours win where it has them, and the effects of both
    /// show.
    #[verifier::allow_in_spec]
    pub fn patch(self, top: Style) -> Self
        returns
            (Style {
                fg: if top.fg is Some { top.fg } else { self.fg },
                bg: if top.bg is Some { top.bg } else { self.bg },
                bold: self.bold || top.bold,
                italic: self.italic || top.italic,
                underlined: self.underlined || top.underlined,
                crossed_out: self.crossed_out || top.crossed_out,
            }),
    {
        Style {
            fg: if top.fg.is_some() { top.fg } else { self.fg },
            bg: if top.bg.is_some() { top.bg } else { self.bg },
            bold: self.bold || top.bold,
            italic: self.italic || top.italic,
            underlined: self.underlined || top.underlined,
            crossed_out: self.crossed_out || top.crossed_out,
        }
    }
}

/// A piece of text in one style.
#[derive(Debug)]
pub struct Span<'a> {
    pub content: Cow<'a, str>,
    pub style: Style,
}

/// A span as a mathematical value.
pub struct SpanView {
    pub content: Seq<char>,
    pub style: Style,
}

impl<'a> View for Span<'a> {
    type V = SpanView;

    open spec fn view(&self) -> SpanView {
        SpanView { content: self.content@, style: self.style }
    }
}

impl<'a> Span<'a> {
    /// Text that is borrowed, in `style`.
    pub fn borrowed(text: &'a str, style: Style) -> (span: Self)
        ensures
            span@ == (SpanView { content: text@, style }),
            span.content is Borrowed,
    {
        Span { content: Cow::Borrowed(text), style }
    }

    /// Text of its own, in `style`.
    pub fn owned(text: String, style: Style) -> (span: Self)
        ensures
            span@ == (SpanView { content: text@, style }),
            span.content is Owned,
    {
        Span { content: Cow::Owned(text), style }
    }
}

/// The views of some spans.
pub open spec fn span_views(spans: Seq<Span<'_>>) -> Seq<SpanView> {
    spans.map_values(|span: Span| span@)
}

/// A row of text. Its style lies under the styles of its spans.
#[derive(Debug)]
pub struct Line<'a> {
    pub spans: Vec<Span<'a>>,
    pub style: Style,
}

/// A line as a mathematical value.
pub struct LineView {
    pub spans: Seq<SpanView>,
    pub style: Style,
}

impl<'a> View for Line<'a> {
    type V = LineView;

    open spec fn view(&self) -> LineView {
        LineView { spans: span_views(self.spans@), style: self.style }
    }
}

impl LineView {
    /// A line of `spans`.
    pub open spec fn of(spans: Seq<SpanView>) -> Self {
        LineView { spans, style: Style::plain() }
    }

    /// A line that holds nothing.
    pub open spec fn blank() -> Self {
        LineView::of(Seq::empty())
    }

    /// A line of `text` in `style`, with one span for each of the text's own lines.
    pub open spec fn styled(text: Seq<char>, style: Style) -> Self {
        LineView {
            spans: lines(text).map_values(
                |part: Seq<char>| SpanView { content: part, style: Style::plain() },
            ),
            style,
        }
    }

    /// The texts of the spans.
    pub open spec fn texts(self) -> Seq<Seq<char>> {
        self.spans.map_values(|span: SpanView| span.content)
    }
}

impl<'a> Line<'a> {
    /// A line of `spans`.
    pub fn of(spans: Vec<Span<'a>>) -> (line: Self)
        ensures
            line@ == LineView::of(span_views(spans@)),
            line.spans == spans,
    {
        Line { spans, style: Style::plain() }
    }

    /// A line of `text` in `style`; its spans borrow when the text does.
    pub fn styled(text: Cow<'a, str>, style: Style) -> (line: Self)
        ensures
            line@ == LineView::styled(text@, style),
            text is Borrowed ==> all_borrowed(line.spans@),
    {
        let ghost borrowed = text is Borrowed;
        let parts: Vec<Cow<'a, str>> = split_lines(text);
        let mut spans: Vec<Span<'a>> = Vec::new();
        for part in iter: parts
            invariant
                iter.seq() == parts@,
                spans@.len() == iter.index(),
                borrowed ==> all_borrowed(spans@),
                borrowed ==> forall|i: int|
                    0 <= i < parts@.len() ==> (#[trigger] parts@[i]) is Borrowed,
                forall|i: int|
                    0 <= i < spans@.len() ==> (#[trigger] spans@[i])@ == (SpanView {
                        content: parts@[i]@,
                        style: Style::plain(),
                    }),
        {
            assert(borrowed ==> parts@[iter.index()] is Borrowed);
            spans.push(Span { content: part, style: Style::plain() });
        }
        assert(span_views(spans@) =~= cow_views(parts@).map_values(
            |part: Seq<char>| SpanView { content: part, style: Style::plain() },
        ));
        Line { spans, style }
    }

    /// A line that holds nothing.
    pub fn blank() -> (line: Self)
        ensures
            line@ == LineView::blank(),
            line.spans@.len() == 0,
    {
        let line = Line { spans: Vec::new(), style: Style::plain() };
        assert(span_views(line.spans@) =~= Seq::empty());
        line
    }
}

/// Whether no span holds a copy of its text.
pub open spec fn all_borrowed(spans: Seq<Span<'_>>) -> bool {
    forall|i: int| 0 <= i < spans.len() ==> (#[trigger] spans[i]).content is Borrowed
}

/// The views of some lines.
pub open spec fn line_views(lines: Seq<Line<'_>>) -> Seq<LineView> {
    lines.map_values(|line: Line| line@)
}

/// A style has the effects and colours it is given and no others. Laid over another, its colours
/// win and its effects are added.
pub proof fn styles_are_what_they_are_called(style: Style, top: Style, color: Color)
    ensures
        Style::plain() == (Style {
            fg: None,
            bg: None,
            bold: false,
            italic: false,
            underlined: false,
            crossed_out: false,
        }),
        Style::colored(color) == (Style {
            fg: Some(color),
            bg: None,
            bold: false,
            italic: false,
            underlined: false,
            crossed_out: false,
        }),
        style.on(color) == (Style { bg: Some(color), ..style }),
        style.bold() == (Style { bold: true, ..style }),
        style.italic() == (Style { italic: true, ..style }),
        style.underlined() == (Style { underlined: true, ..style }),
        style.crossed_out() == (Style { crossed_out: true, ..style }),
        style.patch(top).bold == (style.bold || top.bold),
        style.patch(top).italic == (style.italic || top.italic),
        style.patch(top).underlined == (style.underlined || top.underlined),
        style.patch(top).crossed_out == (style.crossed_out || top.crossed_out),
        style.patch(top).fg == if top.fg is Some {
            top.fg
        } else {
            style.fg
        },
        style.patch(top).bg == if top.bg is Some {
            top.bg
        } else {
            style.bg
        },
{
}

/// A line is seen span by span, each with its text and its style.
pub proof fn lines_are_seen_as_they_are(spans: Seq<Span<'_>>, lines: Seq<Line<'_>>, view: LineView)
    ensures
        span_views(spans).len() == spans.len(),
        forall|i: int|
            0 <= i < spans.len() ==> (#[trigger] span_views(spans)[i]).content == spans[i].content@
                && span_views(spans)[i].style == spans[i].style,
        line_views(lines).len() == lines.len(),
        forall|i: int|
            0 <= i < lines.len() ==> (#[trigger] line_views(lines)[i]).spans == span_views(
                lines[i].spans@,
            ) && line_views(lines)[i].style == lines[i].style,
        view.texts().len() == view.spans.len(),
        forall|i: int|
            0 <= i < view.spans.len() ==> #[trigger] view.texts()[i] == view.spans[i].content,
{
}

/// A text without a line break is a line of one span, which has the text, in the line's style.
pub proof fn a_styled_line_holds_its_text(text: Seq<char>, style: Style)
    requires
        !text.contains('\n'),
    ensures
        forall|i: int|
            0 <= i < LineView::styled(text, style).spans.len() ==> (#[trigger] LineView::styled(
                text,
                style,
            ).spans[i]).style == (Style {
                fg: None,
                bg: None,
                bold: false,
                italic: false,
                underlined: false,
                crossed_out: false,
            }),
        LineView::styled(text, style).style == style,
        LineView::styled(text, style).texts() == if text.len() == 0 {
            Seq::<Seq<char>>::empty()
        } else {
            seq![text]
        },
        LineView::blank().spans.len() == 0,
{
    lines_end_at_line_feeds(text, Seq::empty());
    assert(LineView::styled(text, style).texts() =~= lines(text));
}

/// A text with line breaks is still one line, with a span for each of the text's own lines.
pub proof fn a_styled_line_has_a_span_for_each_line(text: Seq<char>, style: Style)
    ensures
        LineView::styled(text, style).texts() == lines(text),
{
    assert(LineView::styled(text, style).texts() =~= lines(text));
}

} // verus!
