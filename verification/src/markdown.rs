//! Turns Markdown into styled terminal lines.
//!
//! The spans borrow from the source text, so rendering copies no message content. Half-finished
//! Markdown (a reply still streaming in) is fine: an unclosed code fence simply runs to the end
//! of the text.
use std::borrow::Cow;

use vstd::prelude::*;

use crate::highlight::{CodeBlockHighlighter, CodeBlockState, Highlighter};
use crate::parser::{
    borrows_all, code_blocks_hold_text, code_texts_are_borrowed, heading_level_valid,
    heading_levels_valid, markdown_events, models, parse, stays_inside, text_is_borrowed,
    texts_are_borrowed, Closing, Extensions, Markup, Opening,
};
use crate::style::{
    accent, all_borrowed, dark, line_views, muted, span_views, Color, Line, LineView, Span, SpanView,
    Style,
};
use crate::terminal::{display_width, text_width};
use crate::text::{
    cow_views, decimal, decimal_of, first_word, first_word_of, lines, split_lines, split_text,
    views,
};

verus! {

/// The label of the copy button on every code block.
pub const COPY_BUTTON: &'static str = " copy ";

/// A horizontal rule.
pub const HORIZONTAL_RULE: &'static str = "────────────────────────────────────────";

/// What stands left of a line of code.
pub const CODE_GUTTER: &'static str = "▏ ";

/// What stands left of a quoted line.
pub const QUOTE_BAR: &'static str = "│ ";

/// What stands between the cells of a table's row.
pub const CELL_BAR: &'static str = " │ ";

/// What stands before an item of a list without numbers.
pub const BULLET: &'static str = "• ";

/// Source of indentation slices for list items (`"1. "` → 3 spaces).
pub const SPACES: &'static str = "          ";

/// How many spaces `SPACES` holds.
pub const MAX_INDENT: usize = 10;

/// Strikethrough, tables and task lists are understood.
#[verifier::allow_in_spec]
pub fn extensions() -> Extensions
    returns
        (Extensions { strikethrough: true, tables: true, task_lists: true }),
{
    Extensions { strikethrough: true, tables: true, task_lists: true }
}

/// The style of margins, heading marks and rules.
#[verifier::allow_in_spec]
pub fn margin_style() -> Style
    returns
        Style::colored(muted()),
{
    Style::colored(muted())
}

/// The style of code inside a line.
#[verifier::allow_in_spec]
pub fn inline_code_style() -> Style
    returns
        Style::colored(Color::Rgb(250, 179, 135)),
{
    Style::colored(Color::Rgb(250, 179, 135))
}

/// The style of links.
#[verifier::allow_in_spec]
pub fn link_style() -> Style
    returns
        Style::colored(accent()).underlined(),
{
    Style::colored(accent()).underlined()
}

/// The style of bullets, item numbers and checkboxes.
#[verifier::allow_in_spec]
pub fn list_marker_style() -> Style
    returns
        Style::colored(accent()),
{
    Style::colored(accent())
}

/// The copy button on a code block's header: dark text on the accent colour.
#[verifier::allow_in_spec]
pub fn copy_button_style() -> Style
    returns
        Style::colored(dark()).on(accent()).bold(),
{
    Style::colored(dark()).on(accent()).bold()
}

/// The style of quoted text.
#[verifier::allow_in_spec]
pub fn quote_style() -> Style
    returns
        Style::colored(muted()).italic(),
{
    Style::colored(muted()).italic()
}

/// The style of a heading's text.
#[verifier::allow_in_spec]
pub fn heading_style(level: u8) -> Style
    returns
        (if level == 1 {
            Style::colored(Color::Rgb(203, 166, 247)).bold()
        } else if level == 2 {
            Style::colored(accent()).bold()
        } else {
            Style::plain().bold()
        }),
{
    if level == 1 {
        Style::colored(Color::Rgb(203, 166, 247)).bold()
    } else if level == 2 {
        Style::colored(accent()).bold()
    } else {
        Style::plain().bold()
    }
}

/// The marks before a heading: one `#` for each level, and a space.
pub open spec fn heading_marks(level: nat) -> Seq<char> {
    Seq::new(level, |i: int| '#').push(' ')
}

/// So many spaces.
pub open spec fn spaces(count: nat) -> Seq<char> {
    Seq::new(count, |i: int| ' ')
}

/// The `#` prefix shown before a heading.
pub fn heading_marker(level: u8) -> (marker: &'static str)
    requires
        1 <= level <= 6,
    ensures
        marker@ == heading_marks(level as nat),
{
    proof {
        reveal_strlit("# ");
        reveal_strlit("## ");
        reveal_strlit("### ");
        reveal_strlit("#### ");
        reveal_strlit("##### ");
        reveal_strlit("###### ");
    }
    match level {
        1 => "# ",
        2 => "## ",
        3 => "### ",
        4 => "#### ",
        5 => "##### ",
        _ => "###### ",
    }
}

/// The margin below the marker of a list's item, which is `width` columns wide.
pub open spec fn indent(width: usize) -> Seq<char> {
    spaces(
        if width < MAX_INDENT {
            width as nat
        } else {
            MAX_INDENT as nat
        },
    )
}

/// The margin below the marker of a list's item, which is `width` columns wide.
pub fn list_indent(width: usize) -> (margin: &'static str)
    ensures
        margin@ == indent(width),
{
    let count: usize = if width < MAX_INDENT {
        width
    } else {
        MAX_INDENT
    };
    proof {
        reveal_strlit("          ");
    }
    let margin: &'static str = split_text(SPACES, count).0;
    assert(margin@ =~= spaces(count as nat));
    margin
}

/// A span of `text` in `style`.
pub open spec fn span(text: Seq<char>, style: Style) -> SpanView {
    SpanView { content: text, style }
}

/// A stack without its top, if it has one.
pub open spec fn popped<T>(stack: Seq<T>) -> Seq<T> {
    if stack.len() == 0 {
        stack
    } else {
        stack.drop_last()
    }
}

/// How far the rendering of a text has come.
#[verifier::ext_equal]
pub struct Rendering {
    /// Finished lines.
    pub lines: Seq<LineView>,
    /// Where each code block's header is in `lines`.
    pub code_headers: Seq<int>,
    /// The line being built.
    pub current: Seq<SpanView>,
    /// Nested inline styles (bold inside a link inside a heading…).
    pub styles: Seq<Style>,
    /// Nested left margins (list indentation, quote bars, the code gutter).
    pub margins: Seq<Seq<char>>,
    /// One entry per open list: the next item number, or `None` for bullets.
    pub lists: Seq<Option<nat>>,
    /// Set while inside a fenced or indented code block.
    pub code: Option<CodeBlockState>,
}

impl Rendering {
    /// Nothing is rendered yet.
    pub open spec fn start() -> Self {
        Rendering {
            lines: Seq::empty(),
            code_headers: Seq::empty(),
            current: Seq::empty(),
            styles: Seq::empty(),
            margins: Seq::empty(),
            lists: Seq::empty(),
            code: None,
        }
    }

    /// The style of text that is added now.
    pub open spec fn style(self) -> Style {
        if self.styles.len() == 0 {
            Style::plain()
        } else {
            self.styles.last()
        }
    }

    /// `style` is layered on top of the current style.
    pub open spec fn push_style(self, style: Style) -> Self {
        Rendering { styles: self.styles.push(self.style().patch(style)), ..self }
    }

    /// The current line, or the margins where it is new.
    pub open spec fn begun_line(self) -> Seq<SpanView> {
        if self.current.len() == 0 {
            self.margins.map_values(|margin: Seq<char>| span(margin, margin_style()))
        } else {
            self.current
        }
    }

    /// A span is added to the current line.
    pub open spec fn add_span(self, added: SpanView) -> Self {
        Rendering { current: self.begun_line().push(added), ..self }
    }

    /// The spans are added to the current line, one by one.
    pub open spec fn add_spans(self, added: Seq<SpanView>) -> Self
        decreases added.len(),
    {
        if added.len() == 0 {
            self
        } else {
            self.add_spans(added.drop_last()).add_span(added.last())
        }
    }

    /// The current line is finished, even when empty.
    pub open spec fn end_line(self) -> Self {
        Rendering {
            lines: self.lines.push(LineView::of(self.begun_line())),
            current: Seq::empty(),
            ..self
        }
    }

    /// The current line is finished if anything was added to it.
    pub open spec fn end_line_if_not_empty(self) -> Self {
        if self.current.len() == 0 {
            self
        } else {
            self.end_line()
        }
    }

    /// A block is finished, and one blank line left after it.
    pub open spec fn end_block(self) -> Self {
        let ended = self.end_line_if_not_empty();
        if ended.lines.len() == 0 || ended.lines.last().spans.len() == 0 {
            ended
        } else {
            Rendering { lines: ended.lines.push(LineView::blank()), ..ended }
        }
    }

    /// The innermost margin is taken away.
    pub open spec fn pop_margin(self) -> Self {
        Rendering { margins: popped(self.margins), ..self }
    }

    /// The innermost style is taken away.
    pub open spec fn pop_style(self) -> Self {
        Rendering { styles: popped(self.styles), ..self }
    }

    /// A code block is opened: a gutter on the left, and on top the language and a copy button.
    pub open spec fn start_code_block(
        self,
        highlighter: Highlighter,
        info: Option<Seq<char>>,
    ) -> Self {
        let language = match info {
            Some(info) => first_word(info),
            None => Seq::empty(),
        };
        let ended = self.end_line_if_not_empty();
        let opened = Rendering {
            code: Some(highlighter.block(language)),
            margins: ended.margins.push(CODE_GUTTER@),
            ..ended
        };
        let labelled = if language.len() == 0 {
            opened
        } else {
            opened.add_span(span(language, margin_style().italic())).add_span(
                span("  "@, Style::plain()),
            )
        };
        let headed = labelled.add_span(span(COPY_BUTTON@, copy_button_style()));
        Rendering {
            code_headers: headed.code_headers.push(headed.lines.len() as int),
            ..headed
        }.end_line()
    }

    /// An item of a list is started with its bullet or number, and what follows is indented.
    pub open spec fn start_list_item(self) -> Self {
        let ended = self.end_line_if_not_empty();
        let (marker, lists) = if ended.lists.len() > 0 && ended.lists.last() is Some {
            let number = ended.lists.last()->0;
            (decimal(number) + ". "@, ended.lists.drop_last().push(Some(number + 1)))
        } else {
            (BULLET@, ended.lists)
        };
        let width = display_width(marker);
        let marked = ended.add_span(span(marker, list_marker_style()));
        Rendering {
            lists,
            margins: marked.margins.push(indent(width)),
            ..marked
        }
    }

    /// Highlighted code is added, one output line per source line.
    pub open spec fn add_code(self, code: Seq<Seq<char>>) -> Self
        decreases code.len(),
    {
        if code.len() == 0 {
            self
        } else {
            let before = self.add_code(code.drop_last());
            let state = before.code->0;
            Rendering { code: Some(state.after(code.last())), ..before }.add_spans(
                state.spans(code.last()),
            ).end_line()
        }
    }

    /// Raw text is added line by line, unformatted.
    pub open spec fn add_verbatim(self, raw: Seq<Seq<char>>) -> Self
        decreases raw.len(),
    {
        if raw.len() == 0 {
            self
        } else {
            let before = self.add_verbatim(raw.drop_last());
            before.add_span(span(raw.last(), before.style())).end_line()
        }
    }

    /// Something is opened.
    pub open spec fn open(self, highlighter: Highlighter, opening: Opening<Seq<char>>) -> Self {
        match opening {
            Opening::Heading(level) => {
                let marked = self.end_line_if_not_empty().add_span(
                    span(heading_marks(level as nat), margin_style()),
                );
                Rendering { styles: marked.styles.push(heading_style(level)), ..marked }
            },
            Opening::CodeBlock(info) => self.start_code_block(highlighter, info),
            Opening::List(first) => {
                let ended = self.end_line_if_not_empty();
                Rendering {
                    lists: ended.lists.push(
                        match first {
                            Some(number) => Some(number as nat),
                            None => None,
                        },
                    ),
                    ..ended
                }
            },
            Opening::Item => self.start_list_item(),
            Opening::BlockQuote => {
                let ended = self.end_line_if_not_empty();
                Rendering { margins: ended.margins.push(QUOTE_BAR@), ..ended }.push_style(
                    quote_style(),
                )
            },
            Opening::Emphasis => self.push_style(Style::plain().italic()),
            Opening::Strong => self.push_style(Style::plain().bold()),
            Opening::Strikethrough => self.push_style(Style::plain().crossed_out()),
            Opening::Link => self.push_style(link_style()),
            Opening::TableHead => self.push_style(Style::plain().bold()),
            Opening::TableCell => if self.current.len() == 0 {
                self
            } else {
                self.add_span(span(CELL_BAR@, margin_style()))
            },
            Opening::Other => self,
        }
    }

    /// Something is closed.
    pub open spec fn close(self, closing: Closing) -> Self {
        match closing {
            Closing::Paragraph | Closing::Table => self.end_block(),
            Closing::Heading => self.pop_style().end_block(),
            Closing::CodeBlock => Rendering {
                code: None,
                ..self.end_line_if_not_empty()
            }.pop_margin().end_block(),
            Closing::List => {
                let left = Rendering { lists: popped(self.lists), ..self };
                if left.lists.len() == 0 {
                    left.end_block()
                } else {
                    left
                }
            },
            Closing::Item => self.end_line_if_not_empty().pop_margin(),
            Closing::BlockQuote =>
                self.end_line_if_not_empty().pop_margin().pop_style().end_block(),
            Closing::TableHead => self.pop_style().end_line_if_not_empty(),
            Closing::TableRow => self.end_line_if_not_empty(),
            Closing::Emphasis | Closing::Strong | Closing::Strikethrough | Closing::Link =>
                self.pop_style(),
            Closing::Other => self,
        }
    }

    /// One step through the text is rendered.
    pub open spec fn step(self, highlighter: Highlighter, markup: Markup<Seq<char>>) -> Self {
        match markup {
            Markup::Start(opening) => self.open(highlighter, opening),
            Markup::End(closing) => self.close(closing),
            Markup::Text(text) => if self.code is Some {
                self.add_code(lines(text))
            } else {
                self.add_span(span(text, self.style()))
            },
            Markup::InlineMath(text) | Markup::FootnoteReference(text) => self.add_span(
                span(text, self.style()),
            ),
            Markup::Code(text) | Markup::InlineHtml(text) => self.add_span(
                span(text, inline_code_style()),
            ),
            Markup::Html(text) | Markup::DisplayMath(text) => self.add_verbatim(lines(text)),
            Markup::SoftBreak => self.add_span(span(" "@, Style::plain())),
            Markup::HardBreak => self.end_line(),
            Markup::Rule => self.end_line_if_not_empty().add_span(
                span(HORIZONTAL_RULE@, margin_style()),
            ).end_block(),
            Markup::TaskListMarker(done) => self.add_span(
                span(
                    if done {
                        "[x] "@
                    } else {
                        "[ ] "@
                    },
                    list_marker_style(),
                ),
            ),
        }
    }

    /// The remaining steps through a text are rendered.
    pub open spec fn steps(self, highlighter: Highlighter, events: Seq<Markup<Seq<char>>>) -> Self
        decreases events.len(),
    {
        if events.len() == 0 {
            self
        } else {
            self.step(highlighter, events[0]).steps(highlighter, events.skip(1))
        }
    }

    /// The lines, without trailing blank ones.
    pub open spec fn finish(self) -> RenderedView {
        let ended = self.end_line_if_not_empty();
        RenderedView {
            lines: without_blank_end(ended.lines),
            code_headers: ended.code_headers,
        }
    }
}

/// Adding spans changes nothing but the current line.
proof fn lemma_add_spans(rendering: Rendering, added: Seq<SpanView>)
    ensures
        rendering.add_spans(added) == (Rendering {
            current: rendering.add_spans(added).current,
            ..rendering
        }),
    decreases added.len(),
{
    if added.len() > 0 {
        lemma_add_spans(rendering, added.drop_last());
    }
}

/// The lines up to the last one that holds something.
pub open spec fn without_blank_end(lines: Seq<LineView>) -> Seq<LineView>
    decreases lines.len(),
{
    if lines.len() > 0 && lines.last().spans.len() == 0 {
        without_blank_end(lines.drop_last())
    } else {
        lines
    }
}

/// Rendered Markdown as a mathematical value.
#[verifier::ext_equal]
pub struct RenderedView {
    pub lines: Seq<LineView>,
    pub code_headers: Seq<int>,
}

/// What a Markdown text is rendered to.
pub open spec fn rendered(source: Seq<char>, highlighter: Highlighter) -> RenderedView {
    Rendering::start().steps(highlighter, markdown_events(source, extensions())).finish()
}

/// Markdown rendered into terminal lines.
pub struct Rendered<'a> {
    pub lines: Vec<Line<'a>>,
    /// The index in `lines` of each code block's header (the line with its copy button), in the
    /// same order as [`code_blocks`] returns the code.
    pub code_headers: Vec<usize>,
}

impl<'a> View for Rendered<'a> {
    type V = RenderedView;

    open spec fn view(&self) -> RenderedView {
        RenderedView { lines: line_views(self.lines@), code_headers: indices(self.code_headers@) }
    }
}

/// Some indices as mathematical integers.
pub open spec fn indices(values: Seq<usize>) -> Seq<int> {
    values.map_values(|value: usize| value as int)
}

/// Whether a span is the number of a list's item: it comes right after the margins, and those are
/// not of a code block.
pub open spec fn is_item_number(spans: Seq<Span<'_>>, index: int) -> bool {
    &&& spans[index].style == list_marker_style()
    &&& exists|number: nat| spans[index].content@ == #[trigger] decimal(number) + ". "@
    &&& forall|i: int|
        0 <= i < index ==> (#[trigger] spans[i]).style == margin_style() && spans[i].content@
            != CODE_GUTTER@
}

/// Whether a span is the language of a code block: the copy button comes after it, behind a gap,
/// and ends the line.
pub open spec fn is_language(spans: Seq<Span<'_>>, index: int) -> bool {
    &&& spans[index].style == margin_style().italic()
    &&& spans.len() == index + 3
    &&& spans[index + 2]@ == span(COPY_BUTTON@, copy_button_style())
}

/// Whether a span is the gutter of a code block.
pub open spec fn is_gutter(shown: SpanView) -> bool {
    shown == span(CODE_GUTTER@, margin_style())
}

/// Whether a span comes after the gutter of a code block.
pub open spec fn is_after_gutter(spans: Seq<Span<'_>>, index: int) -> bool {
    exists|i: int| 0 <= i < index && is_gutter((#[trigger] spans[i])@)
}

/// Whether a span of a line that is being built may hold a copy of its text: the number of a list's
/// item, and a text outside code blocks unless `all` are to be borrowed.
pub open spec fn may_own_text(spans: Seq<Span<'_>>, index: int, all: bool) -> bool {
    is_item_number(spans, index) || !all && !is_after_gutter(spans, index)
}

/// Whether the spans of a line borrow their texts. In a code block every one does, and outside
/// where `all` are to. The renderer writes two texts itself: the number of a list's item and the
/// language of a code block.
pub open spec fn line_borrows(spans: Seq<Span<'_>>, all: bool) -> bool {
    forall|i: int|
        0 <= i < spans.len() ==> (#[trigger] spans[i]).content is Borrowed || may_own_text(
            spans,
            i,
            all,
        ) || is_language(spans, i)
}

/// Whether the spans of a line that is being built borrow their texts.
spec fn begun_line_borrows(spans: Seq<Span<'_>>, all: bool) -> bool {
    forall|i: int|
        0 <= i < spans.len() ==> (#[trigger] spans[i]).content is Borrowed || may_own_text(
            spans,
            i,
            all,
        )
}

/// Whether no span is the gutter of a code block.
pub open spec fn shows_no_gutter(spans: Seq<SpanView>) -> bool {
    forall|i: int| 0 <= i < spans.len() ==> !is_gutter(#[trigger] spans[i])
}

/// Whether no margin is the gutter of a code block.
pub open spec fn no_gutter(margins: Seq<Seq<char>>) -> bool {
    forall|i: int| 0 <= i < margins.len() ==> #[trigger] margins[i] != CODE_GUTTER@
}

/// Whether the spans of some lines borrow their texts: in code blocks, and elsewhere where `all`
/// are to.
pub open spec fn lines_borrow(lines: Seq<Line<'_>>, all: bool) -> bool {
    forall|i: int| 0 <= i < lines.len() ==> line_borrows((#[trigger] lines[i]).spans@, all)
}

/// Builds lines out of the steps through a Markdown text.
pub struct MarkdownRenderer<'a, 'h> {
    highlighter: &'h Highlighter,
    lines: Vec<Line<'a>>,
    code_headers: Vec<usize>,
    current_line: Vec<Span<'a>>,
    style_stack: Vec<Style>,
    margins: Vec<&'static str>,
    open_lists: Vec<Option<u128>>,
    code_block: Option<CodeBlockHighlighter<'h>>,
    /// Whether all the texts are borrowed.
    borrowed: Ghost<bool>,
}

impl<'a, 'h> View for MarkdownRenderer<'a, 'h> {
    type V = Rendering;

    closed spec fn view(&self) -> Rendering {
        Rendering {
            lines: line_views(self.lines@),
            code_headers: indices(self.code_headers@),
            current: span_views(self.current_line@),
            styles: self.style_stack@,
            margins: views(self.margins@),
            lists: self.open_lists@.map_values(|number: Option<u128>| item_number(number)),
            code: match self.code_block {
                Some(block) => Some(block@),
                None => None,
            },
        }
    }
}

/// The number of the next item as a mathematical value.
spec fn item_number(number: Option<u128>) -> Option<nat> {
    match number {
        Some(number) => Some(number as nat),
        None => None,
    }
}

impl<'a, 'h> MarkdownRenderer<'a, 'h> {
    /// The grammars are in order, and no item number outgrows its list: each number that was
    /// given out stands on a line of its own.
    pub closed spec fn wf(self) -> bool {
        &&& self.highlighter.wf()
        &&& self.code_block matches Some(block) ==> block.wf()
        &&& forall|i: int|
            #![trigger self.open_lists@[i]]
            0 <= i < self.open_lists@.len() ==> (self.open_lists@[i] matches Some(number)
                ==> number <= u64::MAX + self.lines@.len() + (if self.current_line@.len() > 0 {
                1int
            } else {
                0int
            }))
    }

    /// Whether what was rendered borrows its texts.
    pub closed spec fn borrows(self) -> bool {
        lines_borrow(self.lines@, self.borrowed@) && begun_line_borrows(
            self.current_line@,
            self.borrowed@,
        )
    }

    /// Whether `self` has the grammars of `other`, and takes as many texts for borrowed.
    pub closed spec fn is_same(self, other: Self) -> bool {
        self.highlighter == other.highlighter && self.borrowed == other.borrowed
    }

    /// The grammars.
    pub closed spec fn grammars(self) -> Highlighter {
        *self.highlighter
    }

    /// Whether all the texts are borrowed.
    pub closed spec fn texts_borrowed(self) -> bool {
        self.borrowed@
    }

    /// Starts a rendering; `borrowed` says whether all the texts will be borrowed.
    pub fn new(highlighter: &'h Highlighter, borrowed: Ghost<bool>) -> (renderer: Self)
        requires
            highlighter.wf(),
        ensures
            renderer.wf(),
            renderer.borrows(),
            renderer.grammars() == *highlighter,
            renderer.texts_borrowed() == borrowed@,
            renderer@ == Rendering::start(),
    {
        let renderer = MarkdownRenderer {
            highlighter,
            lines: Vec::new(),
            code_headers: Vec::new(),
            current_line: Vec::new(),
            style_stack: Vec::new(),
            margins: Vec::new(),
            open_lists: Vec::new(),
            code_block: None,
            borrowed,
        };
        assert(renderer@ =~= Rendering::start());
        renderer
    }

    fn current_style(&self) -> (style: Style)
        ensures
            style == self@.style(),
    {
        let depth: usize = self.style_stack.len();
        if depth == 0 {
            Style::plain()
        } else {
            self.style_stack[depth - 1]
        }
    }

    /// Layers `style` on top of the current style, until the matching end tag.
    fn push_style(&mut self, style: Style)
        requires
            old(self).wf(),
        ensures
            final(self).wf(),
            old(self).borrows() ==> final(self).borrows(),
            final(self).is_same(*old(self)),
            final(self)@ == old(self)@.push_style(style),
    {
        let combined = self.current_style().patch(style);
        self.style_stack.push(combined);
        assert(self@ =~= old(self)@.push_style(style));
    }

    /// Starts the current line with the margins if it is new.
    fn begin_line(&mut self)
        requires
            old(self).wf(),
        ensures
            final(self).wf(),
            old(self).borrows() ==> final(self).borrows(),
            final(self).is_same(*old(self)),
            final(self)@ == (Rendering { current: old(self)@.begun_line(), ..old(self)@ }),
            final(self).lines == old(self).lines,
            final(self).open_lists == old(self).open_lists,
            if old(self).current_line@.len() == 0 {
                all_borrowed(final(self).current_line@)
            } else {
                final(self).current_line == old(self).current_line
            },
    {
        if self.current_line.len() == 0 {
            let mut index: usize = 0;
            while index < self.margins.len()
                invariant
                    index <= self.margins@.len(),
                    old(self).wf(),
                    old(self).current_line@.len() == 0,
                    *self == (MarkdownRenderer { current_line: self.current_line, ..*old(self) }),
                    self.current_line@.len() == index,
                    all_borrowed(self.current_line@),
                    forall|i: int|
                        0 <= i < index ==> (#[trigger] self.current_line@[i])@ == span(
                            self.margins@[i]@,
                            margin_style(),
                        ),
                decreases self.margins@.len() - index,
            {
                let margin: &'static str = self.margins[index];
                self.current_line.push(Span::borrowed(margin, margin_style()));
                index += 1;
            }
            assert(span_views(self.current_line@) =~= views(self.margins@).map_values(
                |margin: Seq<char>| span(margin, margin_style()),
            ));
            assert(span_views(old(self).current_line@) =~= Seq::empty());
        }
        assert(self@ =~= (Rendering { current: old(self)@.begun_line(), ..old(self)@ }));
    }

    /// Adds a span to the current line, starting it with the margins if it is new.
    fn add_span(&mut self, added: Span<'a>)
        requires
            old(self).wf(),
        ensures
            final(self).wf(),
            old(self).borrows() && (added.content is Borrowed || !old(self).borrowed@
                && shows_no_gutter(old(self)@.begun_line())) ==> final(self).borrows(),
            final(self).is_same(*old(self)),
            final(self)@ == old(self)@.add_span(added@),
            final(self).lines == old(self).lines,
            final(self).open_lists == old(self).open_lists,
            final(self).current_line@.len() > 0,
            final(self).current_line@.last() == added,
            if old(self).current_line@.len() == 0 {
                all_borrowed(final(self).current_line@.drop_last())
            } else {
                final(self).current_line@.drop_last() == old(self).current_line@
            },
    {
        self.begin_line();
        let ghost begun = self@;
        let ghost spans = self.current_line@;
        self.current_line.push(added);
        assert(self.current_line@.drop_last() =~= spans);
        proof {
            if begun_line_borrows(spans, self.borrowed@) && (added.content is Borrowed
                || !self.borrowed@ && shows_no_gutter(span_views(spans))) {
                lemma_longer_line_borrows(spans, added, self.borrowed@);
            }
        }
        assert(self@ =~= (Rendering { current: begun.current.push(added@), ..begun }));
    }

    /// Finishes the current line, even when empty (blank lines inside code matter).
    fn end_line(&mut self)
        requires
            old(self).wf(),
        ensures
            final(self).wf(),
            lines_borrow(old(self).lines@, old(self).borrowed@) && line_borrows(
                old(self).current_line@,
                old(self).borrowed@,
            ) ==> final(self).borrows(),
            final(self).is_same(*old(self)),
            final(self)@ == old(self)@.end_line(),
            final(self).current_line@.len() == 0,
    {
        self.begin_line();
        let ghost begun = *self;
        let mut spans: Vec<Span<'a>> = Vec::new();
        std::mem::swap(&mut spans, &mut self.current_line);
        self.lines.push(Line::of(spans));
        assert(self@ =~= (Rendering {
            lines: begun@.lines.push(LineView::of(begun@.current)),
            current: Seq::empty(),
            ..begun@
        }));
    }

    /// Finishes the current line if anything was added to it.
    fn end_line_if_not_empty(&mut self)
        requires
            old(self).wf(),
        ensures
            final(self).wf(),
            old(self).borrows() ==> final(self).borrows(),
            final(self).is_same(*old(self)),
            final(self)@ == old(self)@.end_line_if_not_empty(),
            final(self).current_line@.len() == 0,
    {
        if self.current_line.len() > 0 {
            self.end_line();
        }
    }

    /// Finishes a block (paragraph, heading, list…) and leaves one blank line after it.
    fn end_block(&mut self)
        requires
            old(self).wf(),
        ensures
            final(self).wf(),
            old(self).borrows() ==> final(self).borrows(),
            final(self).is_same(*old(self)),
            final(self)@ == old(self)@.end_block(),
    {
        self.end_line_if_not_empty();
        let ghost ended = self@;
        let count: usize = self.lines.len();
        if count > 0 && self.lines[count - 1].spans.len() > 0 {
            assert(ended.lines.last() == self.lines@[count - 1]@);
            self.lines.push(Line::blank());
            assert(self@ =~= (Rendering { lines: ended.lines.push(LineView::blank()), ..ended }));
        } else {
            assert(count > 0 ==> ended.lines.last() == self.lines@[count - 1]@);
        }
    }

    fn pop_margin(&mut self)
        requires
            old(self).wf(),
        ensures
            final(self).wf(),
            old(self).borrows() ==> final(self).borrows(),
            final(self).is_same(*old(self)),
            final(self)@ == old(self)@.pop_margin(),
    {
        let _ = self.margins.pop();
        assert(self@ =~= old(self)@.pop_margin());
    }

    fn pop_style(&mut self)
        requires
            old(self).wf(),
        ensures
            final(self).wf(),
            old(self).borrows() ==> final(self).borrows(),
            final(self).is_same(*old(self)),
            final(self)@ == old(self)@.pop_style(),
    {
        let _ = self.style_stack.pop();
        assert(self@ =~= old(self)@.pop_style());
    }

    fn push_margin(&mut self, margin: &'static str)
        requires
            old(self).wf(),
        ensures
            final(self).wf(),
            old(self).borrows() ==> final(self).borrows(),
            final(self).is_same(*old(self)),
            final(self).lines == old(self).lines,
            final(self).current_line == old(self).current_line,
            final(self)@ == (Rendering { margins: old(self)@.margins.push(margin@), ..old(self)@ }),
    {
        self.margins.push(margin);
        assert(self@ =~= (Rendering { margins: old(self)@.margins.push(margin@), ..old(self)@ }));
    }

    /// Opens a code block: a gutter on the left, and on top the language and a copy button.
    fn start_code_block(&mut self, info: Option<Cow<'a, str>>)
        requires
            old(self).wf(),
        ensures
            final(self).wf(),
            old(self).borrows() ==> final(self).borrows(),
            final(self).is_same(*old(self)),
            final(self)@ == old(self)@.start_code_block(
                *old(self).highlighter,
                match info {
                    Some(info) => Some(info@),
                    None => None,
                },
            ),
    {
        self.end_line_if_not_empty();

        // The info string can carry extras, e.g. "rust,ignore" or "py title=x".
        let language: String = match &info {
            Some(Cow::Borrowed(text)) => first_word_of(text).to_owned(),
            Some(Cow::Owned(text)) => first_word_of(text.as_str()).to_owned(),
            None => String::new(),
        };
        let ghost ended = self@;
        self.code_block = Some(self.highlighter.code_block(language.as_str()));
        let ghost coded = self@;
        assert(coded =~= (Rendering {
            code: Some(self.highlighter.block(language@)),
            ..ended
        }));
        self.push_margin(CODE_GUTTER);

        let ghost mut before: Seq<Span<'a>> = Seq::empty();
        let labelled: bool = language.as_str().unicode_len() > 0;
        if labelled {
            self.add_span(Span::owned(language, margin_style().italic()));
            proof {
                before = self.current_line@;
            }
            self.add_span(Span::borrowed("  ", Style::plain()));
        }
        self.add_span(Span::borrowed(COPY_BUTTON, copy_button_style()));
        proof {
            let header = self.current_line@;
            if labelled {
                assert(header.drop_last().drop_last() =~= before);
                assert(header[header.len() - 2] == header.drop_last().last());
                assert(header[header.len() - 3] == before.last());
                assert forall|i: int| 0 <= i < header.len() - 3 implies (
                #[trigger] header[i]).content is Borrowed by {
                    assert(header[i] == before.drop_last()[i]);
                }
                assert(is_language(header, header.len() - 3));
            } else {
                assert forall|i: int| 0 <= i < header.len() - 1 implies (
                #[trigger] header[i]).content is Borrowed by {
                    assert(header[i] == header.drop_last()[i]);
                }
            }
            assert(line_borrows(header, self.borrowed@));
        }
        let ghost headed = self@;
        self.code_headers.push(self.lines.len());
        assert(self@ =~= (Rendering {
            code_headers: headed.code_headers.push(headed.lines.len() as int),
            ..headed
        }));
        self.end_line();
    }

    /// Starts a list item with its bullet or number, and indents what follows.
    fn start_list_item(&mut self)
        requires
            old(self).wf(),
        ensures
            final(self).wf(),
            old(self).borrows() && no_gutter(old(self)@.margins) ==> final(self).borrows(),
            final(self).is_same(*old(self)),
            final(self)@ == old(self)@.start_list_item(),
    {
        self.end_line_if_not_empty();
        let ghost ended = *self;
        let depth: usize = self.open_lists.len();
        let number: Option<u128> = if depth > 0 {
            self.open_lists[depth - 1]
        } else {
            None
        };
        assert(depth > 0 ==> ended@.lists.last() == item_number(ended.open_lists@[depth - 1]));
        let marker: Span<'a> = match number {
            Some(number) => {
                let mut text = decimal_of(number);
                text.append(". ");
                Span::owned(text, list_marker_style())
            },
            None => Span::borrowed(BULLET, list_marker_style()),
        };
        let width: usize = match &marker.content {
            Cow::Borrowed(text) => text_width(text),
            Cow::Owned(text) => text_width(text.as_str()),
        };
        self.add_span(marker);
        proof {
            if old(self).borrows() && no_gutter(old(self)@.margins) {
                let margins = ended@.margins.map_values(
                    |margin: Seq<char>| span(margin, margin_style()),
                );
                assert(ended@.begun_line() == margins);
                assert(span_views(self.current_line@).drop_last() =~= margins);
                assert forall|i: int| 0 <= i < margins.len() implies (
                #[trigger] self.current_line@[i])@ == span(
                    ended@.margins[i],
                    margin_style(),
                ) by {
                    assert(span_views(self.current_line@)[i] == margins[i]);
                }
                lemma_numbered_line_borrows(
                    self.current_line@,
                    ended@.margins,
                    number,
                    self.borrowed@,
                );
            }
        }
        let ghost marked = self@;
        if let Some(number) = number {
            assert(number <= u64::MAX + self.lines.len());
            let _ = self.open_lists.pop();
            self.open_lists.push(Some(number + 1));
            assert(self@.lists =~= ended@.lists.drop_last().push(Some((number + 1) as nat)));
            assert(self@ =~= (Rendering { lists: self@.lists, ..marked }));
        }
        self.push_margin(list_indent(width));
    }

    /// Adds highlighted code, one output line per source line.
    fn add_code(&mut self, text: Cow<'a, str>)
        requires
            old(self).wf(),
            old(self)@.code is Some,
        ensures
            final(self).wf(),
            old(self).borrows() && text is Borrowed ==> final(self).borrows(),
            final(self).is_same(*old(self)),
            final(self)@ == old(self)@.add_code(lines(text@)),
    {
        let ghost all = lines(text@);
        let ghost borrowed = text is Borrowed;
        let source_lines: Vec<Cow<'a, str>> = split_lines(text);
        assert(all.take(0) =~= Seq::empty());
        for line in iter: source_lines
            invariant
                self.wf(),
                old(self).borrows() && borrowed ==> self.borrows(),
                borrowed ==> forall|i: int|
                    0 <= i < source_lines@.len() ==> (#[trigger] source_lines@[i]) is Borrowed,
                self.is_same(*old(self)),
                iter.seq() == source_lines@,
                all == cow_views(source_lines@),
                self@ == old(self)@.add_code(all.take(iter.index())),
                self@.code is Some,
        {
            let ghost before = self@;
            proof {
                assert(all.take(iter.index() + 1).drop_last() =~= all.take(iter.index()));
                assert(all.take(iter.index() + 1).last() == line@);
                assert(borrowed ==> source_lines@[iter.index()] is Borrowed);
            }
            if let Some(mut highlighter) = self.code_block.take() {
                let ghost text = line@;
                let spans: Vec<Span<'a>> = highlighter.highlight_line(line);
                self.code_block = Some(highlighter);
                assert(self@ =~= (Rendering { code: Some((before.code->0).after(text)), ..before }));
                proof {
                    lemma_add_spans(self@, span_views(spans@));
                }
                self.add_spans(spans);
                self.end_line();
            }
        }
        assert(all.take(all.len() as int) =~= all);
    }

    /// Adds spans to the current line, one by one.
    fn add_spans(&mut self, spans: Vec<Span<'a>>)
        requires
            old(self).wf(),
        ensures
            final(self).wf(),
            old(self).borrows() && all_borrowed(spans@) ==> final(self).borrows(),
            final(self).is_same(*old(self)),
            final(self)@ == old(self)@.add_spans(span_views(spans@)),
    {
        let ghost all = span_views(spans@);
        assert(all.take(0) =~= Seq::empty());
        for added in iter: spans
            invariant
                self.wf(),
                old(self).borrows() && all_borrowed(spans@) ==> self.borrows(),
                self.is_same(*old(self)),
                iter.seq() == spans@,
                all == span_views(spans@),
                self@ == old(self)@.add_spans(all.take(iter.index())),
        {
            proof {
                assert(all.take(iter.index() + 1).drop_last() =~= all.take(iter.index()));
                assert(all.take(iter.index() + 1).last() == added@);
                assert(all_borrowed(spans@) ==> spans@[iter.index()].content is Borrowed);
            }
            self.add_span(added);
        }
        assert(all.take(all.len() as int) =~= all);
    }

    /// Adds raw text (HTML blocks, display math) line by line, unformatted.
    fn add_verbatim(&mut self, text: Cow<'a, str>)
        requires
            old(self).wf(),
        ensures
            final(self).wf(),
            old(self).borrows() && (text is Borrowed || !old(self).borrowed@ && shows_no_gutter(
                old(self)@.current,
            ) && no_gutter(old(self)@.margins)) ==> final(self).borrows(),
            final(self).is_same(*old(self)),
            final(self)@ == old(self)@.add_verbatim(lines(text@)),
    {
        let ghost all = lines(text@);
        let ghost borrowed = text is Borrowed;
        let ghost free = !self.borrowed@ && shows_no_gutter(self@.current) && no_gutter(
            self@.margins,
        );
        let source_lines: Vec<Cow<'a, str>> = split_lines(text);
        assert(all.take(0) =~= Seq::empty());
        for line in iter: source_lines
            invariant
                self.wf(),
                old(self).borrows() && (borrowed || free) ==> self.borrows(),
                free ==> !self.borrowed@ && shows_no_gutter(self@.current) && no_gutter(
                    self@.margins,
                ),
                borrowed ==> forall|i: int|
                    0 <= i < source_lines@.len() ==> (#[trigger] source_lines@[i]) is Borrowed,
                self.is_same(*old(self)),
                iter.seq() == source_lines@,
                all == cow_views(source_lines@),
                self@ == old(self)@.add_verbatim(all.take(iter.index())),
        {
            proof {
                assert(all.take(iter.index() + 1).drop_last() =~= all.take(iter.index()));
                assert(all.take(iter.index() + 1).last() == line@);
                assert(borrowed ==> source_lines@[iter.index()] is Borrowed);
            }
            let style = self.current_style();
            let ghost before = self@;
            self.add_span(Span { content: line, style });
            self.end_line();
            assert(self@.margins == before.margins);
        }
        assert(all.take(all.len() as int) =~= all);
    }

    /// Renders the start of something.
    pub fn start_tag(&mut self, opening: Opening<Cow<'a, str>>)
        requires
            old(self).wf(),
            opening matches Opening::Heading(level) ==> 1 <= level <= 6,
        ensures
            final(self).wf(),
            old(self).borrows() && (opening is Item ==> no_gutter(old(self)@.margins))
                ==> final(self).borrows(),
            final(self).is_same(*old(self)),
            final(self)@ == old(self)@.open(old(self).grammars(), opening.model()),
    {
        match opening {
            Opening::Heading(level) => {
                self.end_line_if_not_empty();
                self.add_span(Span::borrowed(heading_marker(level), margin_style()));
                let ghost marked = self@;
                self.style_stack.push(heading_style(level));
                assert(self@ =~= (Rendering {
                    styles: marked.styles.push(heading_style(level)),
                    ..marked
                }));
            },
            Opening::CodeBlock(info) => self.start_code_block(info),
            Opening::List(first) => {
                self.end_line_if_not_empty();
                let ghost ended = self@;
                let number: Option<u128> = match first {
                    Some(number) => Some(number as u128),
                    None => None,
                };
                self.open_lists.push(number);
                assert(self@ =~= (Rendering {
                    lists: ended.lists.push(item_number(number)),
                    ..ended
                }));
            },
            Opening::Item => self.start_list_item(),
            Opening::BlockQuote => {
                self.end_line_if_not_empty();
                self.push_margin(QUOTE_BAR);
                self.push_style(quote_style());
            },
            Opening::Emphasis => self.push_style(Style::plain().italic()),
            Opening::Strong => self.push_style(Style::plain().bold()),
            Opening::Strikethrough => self.push_style(Style::plain().crossed_out()),
            Opening::Link => self.push_style(link_style()),
            Opening::TableHead => self.push_style(Style::plain().bold()),
            Opening::TableCell => {
                if self.current_line.len() > 0 {
                    self.add_span(Span::borrowed(CELL_BAR, margin_style()));
                }
            },
            Opening::Other => {},
        }
    }

    /// Renders the end of something.
    pub fn end_tag(&mut self, closing: Closing)
        requires
            old(self).wf(),
        ensures
            final(self).wf(),
            old(self).borrows() ==> final(self).borrows(),
            final(self).is_same(*old(self)),
            final(self)@ == old(self)@.close(closing),
    {
        match closing {
            Closing::Paragraph | Closing::Table => self.end_block(),
            Closing::Heading => {
                self.pop_style();
                self.end_block();
            },
            Closing::CodeBlock => {
                self.end_line_if_not_empty();
                let ghost ended = self@;
                self.code_block = None;
                assert(self@ =~= (Rendering { code: None, ..ended }));
                self.pop_margin();
                self.end_block();
            },
            Closing::List => {
                let _ = self.open_lists.pop();
                assert(self@ =~= (Rendering { lists: popped(old(self)@.lists), ..old(self)@ }));
                let was_outermost_list = self.open_lists.len() == 0;
                if was_outermost_list {
                    self.end_block();
                }
            },
            Closing::Item => {
                self.end_line_if_not_empty();
                self.pop_margin();
            },
            Closing::BlockQuote => {
                self.end_line_if_not_empty();
                self.pop_margin();
                self.pop_style();
                self.end_block();
            },
            Closing::TableHead => {
                self.pop_style();
                self.end_line_if_not_empty();
            },
            Closing::TableRow => self.end_line_if_not_empty(),
            Closing::Emphasis | Closing::Strong | Closing::Strikethrough | Closing::Link => {
                self.pop_style();
            },
            Closing::Other => {},
        }
    }

    /// Renders one step.
    pub fn handle_event(&mut self, markup: Markup<Cow<'a, str>>)
        requires
            old(self).wf(),
            heading_level_valid(markup),
        ensures
            final(self).wf(),
            old(self).borrows() && (text_is_borrowed(markup) || !old(self).texts_borrowed()
                && shows_no_gutter(old(self)@.current) && old(self)@.code is None) && (
            old(self)@.code is None ==> no_gutter(old(self)@.margins)) && (old(self)@.code is Some
                ==> !(markup is Start)) ==> final(self).borrows(),
            final(self).is_same(*old(self)),
            final(self)@ == old(self)@.step(old(self).grammars(), markup.model()),
    {
        match markup {
            Markup::Start(opening) => self.start_tag(opening),
            Markup::End(closing) => self.end_tag(closing),
            Markup::Text(text) => {
                if self.code_block.is_some() {
                    self.add_code(text);
                } else {
                    let style = self.current_style();
                    self.add_span(Span { content: text, style });
                }
            },
            Markup::InlineMath(text) | Markup::FootnoteReference(text) => {
                let style = self.current_style();
                self.add_span(Span { content: text, style });
            },
            Markup::Code(text) | Markup::InlineHtml(text) => {
                self.add_span(Span { content: text, style: inline_code_style() });
            },
            Markup::Html(text) | Markup::DisplayMath(text) => self.add_verbatim(text),
            Markup::SoftBreak => self.add_span(Span::borrowed(" ", Style::plain())),
            Markup::HardBreak => self.end_line(),
            Markup::Rule => {
                self.end_line_if_not_empty();
                self.add_span(Span::borrowed(HORIZONTAL_RULE, margin_style()));
                self.end_block();
            },
            Markup::TaskListMarker(done) => {
                let checkbox: &'static str = if done {
                    "[x] "
                } else {
                    "[ ] "
                };
                self.add_span(Span::borrowed(checkbox, list_marker_style()));
            },
        }
    }

    /// Returns the lines, without trailing blank ones.
    pub fn finish(self) -> (result: Rendered<'a>)
        requires
            self.wf(),
        ensures
            result@ == self@.finish(),
            self.borrows() ==> lines_borrow(result.lines@, self.texts_borrowed()),
    {
        let mut renderer = self;
        renderer.end_line_if_not_empty();
        let ghost ended = renderer@;
        let ghost kept = renderer.code_headers@;
        while renderer.lines.len() > 0 && renderer.lines[renderer.lines.len() - 1].spans.len() == 0
            invariant
                renderer.code_headers@ == kept,
                self.borrows() ==> lines_borrow(renderer.lines@, self.borrowed@),
                without_blank_end(line_views(renderer.lines@)) == without_blank_end(ended.lines),
            decreases renderer.lines@.len(),
        {
            let ghost before = line_views(renderer.lines@);
            assert(before.last() == renderer.lines@.last()@);
            let _ = renderer.lines.pop();
            assert(line_views(renderer.lines@) =~= before.drop_last());
        }
        assert(renderer.lines@.len() > 0 ==> line_views(renderer.lines@).last()
            == renderer.lines@.last()@);
        Rendered { lines: renderer.lines, code_headers: renderer.code_headers }
    }
}

proof fn lemma_longer_line_borrows(spans: Seq<Span<'_>>, added: Span<'_>, all: bool)
    requires
        begun_line_borrows(spans, all),
        added.content is Borrowed || !all && shows_no_gutter(span_views(spans)),
    ensures
        begun_line_borrows(spans.push(added), all),
{
    let longer = spans.push(added);
    assert forall|i: int| 0 <= i < longer.len() implies (#[trigger] longer[i]).content is Borrowed
        || may_own_text(longer, i, all) by {
        assert forall|j: int| 0 <= j < spans.len() implies #[trigger] longer[j] == spans[j] by {}
        if i < spans.len() {
            assert(spans[i].content is Borrowed || may_own_text(spans, i, all));
            if is_after_gutter(longer, i) {
                let j = choose|j: int| 0 <= j < i && is_gutter((#[trigger] longer[j])@);
                assert(is_gutter(spans[j]@));
            }
            if is_item_number(spans, i) {
                assert(is_item_number(longer, i));
            }
        } else if is_after_gutter(longer, i) {
            let j = choose|j: int| 0 <= j < i && is_gutter((#[trigger] longer[j])@);
            assert(span_views(spans)[j] == longer[j]@);
        }
    }
}

proof fn lemma_numbered_line_borrows(
    spans: Seq<Span<'_>>,
    margins: Seq<Seq<char>>,
    number: Option<u128>,
    all: bool,
)
    requires
        no_gutter(margins),
        spans.len() == margins.len() + 1,
        forall|i: int|
            0 <= i < margins.len() ==> (#[trigger] spans[i])@ == span(margins[i], margin_style()),
        all_borrowed(spans.drop_last()),
        spans.last().style == list_marker_style(),
        match number {
            Some(number) => spans.last().content@ == decimal(number as nat) + ". "@,
            None => spans.last().content is Borrowed,
        },
    ensures
        begun_line_borrows(spans, all),
{
    assert forall|i: int| 0 <= i < spans.len() implies (#[trigger] spans[i]).content is Borrowed
        || may_own_text(spans, i, all) by {
        if i < margins.len() {
            assert(spans[i] == spans.drop_last()[i]);
        } else if number is Some {
            assert forall|j: int| 0 <= j < i implies (#[trigger] spans[j]).style == margin_style()
                && spans[j].content@ != CODE_GUTTER@ by {
                assert(spans[j]@ == span(margins[j], margin_style()));
            }
            assert(is_item_number(spans, i));
        }
    }
}

/// The code blocks collected so far.
#[verifier::ext_equal]
pub struct Collected {
    /// The code of the blocks that are complete.
    pub blocks: Seq<Seq<char>>,
    /// The code of the block that is open.
    pub current: Option<Seq<char>>,
}

impl Collected {
    /// Nothing is collected yet.
    pub open spec fn start() -> Self {
        Collected { blocks: Seq::empty(), current: None }
    }

    /// One step through the text is taken.
    pub open spec fn step(self, markup: Markup<Seq<char>>) -> Self {
        match (markup, self.current) {
            (Markup::Start(Opening::CodeBlock(_)), _) => Collected {
                current: Some(Seq::empty()),
                ..self
            },
            (Markup::Text(text), Some(code)) => Collected { current: Some(code + text), ..self },
            (Markup::End(Closing::CodeBlock), _) => Collected {
                blocks: self.finish(),
                current: None,
            },
            _ => self,
        }
    }

    /// The remaining steps through the text are taken.
    pub open spec fn steps(self, events: Seq<Markup<Seq<char>>>) -> Self
        decreases events.len(),
    {
        if events.len() == 0 {
            self
        } else {
            self.step(events[0]).steps(events.skip(1))
        }
    }

    /// The code of all the blocks, of the open one too.
    pub open spec fn finish(self) -> Seq<Seq<char>> {
        match self.current {
            Some(code) => self.blocks.push(code),
            None => self.blocks,
        }
    }
}

/// The code of each code block of a Markdown text.
pub open spec fn code_of(source: Seq<char>) -> Seq<Seq<char>> {
    Collected::start().steps(markdown_events(source, extensions())).finish()
}

/// Whether a line is the header of a code block: it ends with the copy button.
pub open spec fn is_code_header(line: LineView) -> bool {
    line.spans.len() > 0 && line.spans.last() == span(COPY_BUTTON@, copy_button_style())
}

/// Whether the headers come one after the other, and each is the index of a line with a copy
/// button.
pub open spec fn headers_in_order(lines: Seq<LineView>, code_headers: Seq<int>) -> bool {
    &&& forall|i: int|
        #![trigger code_headers[i]]
        0 <= i < code_headers.len() ==> 0 <= code_headers[i] < lines.len() && is_code_header(
            lines[code_headers[i]],
        )
    &&& forall|i: int, j: int|
        0 <= i < j < code_headers.len() ==> code_headers[i] < code_headers[j]
}

/// Whether `after` has all the lines of `before` and no new code header.
spec fn only_adds_lines(before: Rendering, after: Rendering) -> bool {
    before.lines.is_prefix_of(after.lines) && after.code_headers == before.code_headers
}

proof fn lemma_add_code_adds_lines(rendering: Rendering, code: Seq<Seq<char>>)
    ensures
        only_adds_lines(rendering, rendering.add_code(code)),
    decreases code.len(),
{
    if code.len() > 0 {
        let before = rendering.add_code(code.drop_last());
        lemma_add_code_adds_lines(rendering, code.drop_last());
        let state = before.code->0;
        lemma_add_spans(
            Rendering { code: Some(state.after(code.last())), ..before },
            state.spans(code.last()),
        );
    }
}

proof fn lemma_add_verbatim_adds_lines(rendering: Rendering, raw: Seq<Seq<char>>)
    ensures
        only_adds_lines(rendering, rendering.add_verbatim(raw)),
    decreases raw.len(),
{
    if raw.len() > 0 {
        lemma_add_verbatim_adds_lines(rendering, raw.drop_last());
    }
}

/// Every step keeps the lines that are there; a code block's start adds its header, and nothing
/// else adds one.
proof fn lemma_step(rendering: Rendering, highlighter: Highlighter, markup: Markup<Seq<char>>)
    ensures
        ({
            let after = rendering.step(highlighter, markup);
            &&& rendering.lines.is_prefix_of(after.lines)
            &&& if markup matches Markup::Start(Opening::CodeBlock(_)) {
                &&& after.code_headers == rendering.code_headers.push(after.lines.len() - 1)
                &&& after.lines.len() > rendering.lines.len()
                &&& is_code_header(after.lines.last())
            } else {
                after.code_headers == rendering.code_headers
            }
        }),
{
    match markup {
        Markup::Text(text) => lemma_add_code_adds_lines(rendering, lines(text)),
        Markup::Html(text) | Markup::DisplayMath(text) => lemma_add_verbatim_adds_lines(
            rendering,
            lines(text),
        ),
        _ => {},
    }
}

proof fn lemma_headers_stay(
    before: Seq<LineView>,
    after: Seq<LineView>,
    code_headers: Seq<int>,
)
    requires
        headers_in_order(before, code_headers),
        before.is_prefix_of(after),
    ensures
        headers_in_order(after, code_headers),
{
    assert forall|i: int|
        #![trigger code_headers[i]]
        0 <= i < code_headers.len() implies 0 <= code_headers[i] < after.len() && is_code_header(
        after[code_headers[i]],
    ) by {
        assert(before[code_headers[i]] == after[code_headers[i]]);
    }
}

proof fn lemma_steps(rendering: Rendering, highlighter: Highlighter, events: Seq<Markup<Seq<char>>>)
    requires
        headers_in_order(rendering.lines, rendering.code_headers),
    ensures
        ({
            let after = rendering.steps(highlighter, events);
            headers_in_order(after.lines, after.code_headers)
        }),
    decreases events.len(),
{
    if events.len() > 0 {
        let next = rendering.step(highlighter, events[0]);
        lemma_step(rendering, highlighter, events[0]);
        lemma_headers_stay(rendering.lines, next.lines, rendering.code_headers);
        lemma_steps(next, highlighter, events.skip(1));
    }
}

proof fn lemma_without_blank_end(lines: Seq<LineView>, code_headers: Seq<int>)
    requires
        headers_in_order(lines, code_headers),
    ensures
        headers_in_order(without_blank_end(lines), code_headers),
        without_blank_end(lines).len() > 0 ==> without_blank_end(lines).last().spans.len() > 0,
    decreases lines.len(),
{
    if lines.len() > 0 && lines.last().spans.len() == 0 {
        assert forall|i: int|
            #![trigger code_headers[i]]
            0 <= i < code_headers.len() implies 0 <= code_headers[i] < lines.drop_last().len()
            && is_code_header(lines.drop_last()[code_headers[i]]) by {
            assert(is_code_header(lines[code_headers[i]]));
        }
        lemma_without_blank_end(lines.drop_last(), code_headers);
    }
}

/// Whatever the text, the code headers of its rendering come one after the other, each is the
/// index of a line that ends with the copy button, and the last line is not blank.
pub proof fn headers_mark_copy_buttons(source: Seq<char>, highlighter: Highlighter)
    ensures
        ({
            let result = rendered(source, highlighter);
            &&& headers_in_order(result.lines, result.code_headers)
            &&& result.lines.len() > 0 ==> result.lines.last().spans.len() > 0
        }),
{
    let all = Rendering::start().steps(highlighter, markdown_events(source, extensions()));
    lemma_steps(Rendering::start(), highlighter, markdown_events(source, extensions()));
    let ended = all.end_line_if_not_empty();
    lemma_headers_stay(all.lines, ended.lines, all.code_headers);
    lemma_without_blank_end(ended.lines, ended.code_headers);
}

proof fn lemma_one_header_per_block(
    rendering: Rendering,
    collected: Collected,
    highlighter: Highlighter,
    events: Seq<Markup<Seq<char>>>,
)
    requires
        code_blocks_hold_text(events, collected.current is Some),
        rendering.code_headers.len() == collected.finish().len(),
    ensures
        rendering.steps(highlighter, events).code_headers.len() == collected.steps(
            events,
        ).finish().len(),
    decreases events.len(),
{
    if events.len() > 0 {
        lemma_step(rendering, highlighter, events[0]);
        lemma_one_header_per_block(
            rendering.step(highlighter, events[0]),
            collected.step(events[0]),
            highlighter,
            events.skip(1),
        );
    }
}

/// A rendering has as many code headers as the text has code blocks, for every text whose code
/// blocks hold text alone, which the parser sees to.
pub proof fn one_header_per_code_block(source: Seq<char>, highlighter: Highlighter)
    requires
        code_blocks_hold_text(markdown_events(source, extensions()), false),
    ensures
        rendered(source, highlighter).code_headers.len() == code_of(source).len(),
{
    lemma_one_header_per_block(
        Rendering::start(),
        Collected::start(),
        highlighter,
        markdown_events(source, extensions()),
    );
}

/// Whether the end of something belongs to its start.
pub open spec fn ends(opening: Opening<Seq<char>>, closing: Closing) -> bool {
    match opening {
        Opening::Heading(_) => closing is Heading,
        Opening::CodeBlock(_) => closing is CodeBlock,
        Opening::List(_) => closing is List,
        Opening::Item => closing is Item,
        Opening::BlockQuote => closing is BlockQuote,
        Opening::Emphasis => closing is Emphasis,
        Opening::Strong => closing is Strong,
        Opening::Strikethrough => closing is Strikethrough,
        Opening::Link => closing is Link,
        Opening::TableHead => closing is TableHead,
        Opening::TableCell => closing is Other,
        Opening::Other => {
            ||| closing is Paragraph
            ||| closing is Table
            ||| closing is TableRow
            ||| closing is Other
        },
    }
}

/// Whether everything that is started is ended again, the inner before the outer.
pub open spec fn balanced(events: Seq<Markup<Seq<char>>>) -> bool
    decreases events.len(),
{
    events.len() == 0 || match events[0] {
        Markup::Start(opening) => exists|end: int|
            1 <= end < events.len() && (#[trigger] events[end] matches Markup::End(closing)
                && ends(opening, closing)) && balanced(events.subrange(1, end)) && balanced(
                events.skip(end + 1),
            ),
        Markup::End(_) => false,
        _ => balanced(events.skip(1)),
    }
}

/// Whether `after` has the styles, the margins and as many open lists as `before`, and no code
/// block open unless `before` has.
pub open spec fn is_back_at(before: Rendering, after: Rendering) -> bool {
    &&& after.styles == before.styles
    &&& after.margins == before.margins
    &&& after.lists.len() == before.lists.len()
    &&& before.code is None ==> after.code is None
}

proof fn lemma_add_code_stays(rendering: Rendering, code: Seq<Seq<char>>)
    requires
        rendering.code is Some,
    ensures
        is_back_at(rendering, rendering.add_code(code)),
        rendering.add_code(code).code is Some,
    decreases code.len(),
{
    if code.len() > 0 {
        let before = rendering.add_code(code.drop_last());
        lemma_add_code_stays(rendering, code.drop_last());
        let state = before.code->0;
        lemma_add_spans(
            Rendering { code: Some(state.after(code.last())), ..before },
            state.spans(code.last()),
        );
    }
}

proof fn lemma_add_verbatim_stays(rendering: Rendering, raw: Seq<Seq<char>>)
    ensures
        is_back_at(rendering, rendering.add_verbatim(raw)),
        rendering.add_verbatim(raw).code == rendering.code,
    decreases raw.len(),
{
    if raw.len() > 0 {
        lemma_add_verbatim_stays(rendering, raw.drop_last());
    }
}

proof fn lemma_steps_concat(
    rendering: Rendering,
    highlighter: Highlighter,
    first: Seq<Markup<Seq<char>>>,
    second: Seq<Markup<Seq<char>>>,
)
    ensures
        rendering.steps(highlighter, first + second) == rendering.steps(highlighter, first).steps(
            highlighter,
            second,
        ),
    decreases first.len(),
{
    if first.len() == 0 {
        assert(first + second =~= second);
    } else {
        assert((first + second).skip(1) =~= first.skip(1) + second);
        lemma_steps_concat(
            rendering.step(highlighter, first[0]),
            highlighter,
            first.skip(1),
            second,
        );
    }
}

/// Everything between a start and its end leaves no trace in the styles, the margins, the number
/// of open lists or the code block, as long as all that is started in between is ended there.
pub proof fn an_end_restores_what_its_start_changed(
    rendering: Rendering,
    highlighter: Highlighter,
    opening: Opening<Seq<char>>,
    between: Seq<Markup<Seq<char>>>,
    closing: Closing,
)
    requires
        ends(opening, closing),
        balanced(between),
    ensures
        ({
            let inside = rendering.step(highlighter, Markup::Start(opening)).steps(
                highlighter,
                between,
            );
            let after = inside.step(highlighter, Markup::End(closing));
            &&& is_back_at(rendering, after)
            &&& opening is CodeBlock ==> after.code is None
        }),
    decreases between.len(), 1nat,
{
    let opened = rendering.step(highlighter, Markup::Start(opening));
    balanced_steps_change_nothing(opened, highlighter, between);
    let inside = opened.steps(highlighter, between);
    let after = inside.step(highlighter, Markup::End(closing));
    assert(after.styles =~= rendering.styles);
    assert(after.margins =~= rendering.margins);
}

/// Balanced steps leave the styles, the margins and the number of open lists as they were, and no
/// code block open that was not.
pub proof fn balanced_steps_change_nothing(
    rendering: Rendering,
    highlighter: Highlighter,
    events: Seq<Markup<Seq<char>>>,
)
    requires
        balanced(events),
    ensures
        is_back_at(rendering, rendering.steps(highlighter, events)),
    decreases events.len(), 0nat,
{
    if events.len() > 0 {
        match events[0] {
            Markup::Start(opening) => {
                let end = choose|end: int|
                    1 <= end < events.len() && (#[trigger] events[end] matches Markup::End(closing)
                        && ends(opening, closing)) && balanced(events.subrange(1, end))
                        && balanced(events.skip(end + 1));
                let closing = events[end]->End_0;
                let between = events.subrange(1, end);
                let rest = events.skip(end + 1);
                an_end_restores_what_its_start_changed(
                    rendering,
                    highlighter,
                    opening,
                    between,
                    closing,
                );
                let opened = rendering.step(highlighter, events[0]);
                let inside = opened.steps(highlighter, between);
                let after = inside.step(highlighter, events[end]);
                let closed = seq![events[end]] + rest;
                assert(events.skip(1) =~= between + closed);
                lemma_steps_concat(opened, highlighter, between, closed);
                assert(closed.skip(1) =~= rest);
                balanced_steps_change_nothing(after, highlighter, rest);
            },
            Markup::End(_) => {},
            markup => {
                let next = rendering.step(highlighter, markup);
                match markup {
                    Markup::Text(text) => if rendering.code is Some {
                        lemma_add_code_stays(rendering, lines(text));
                    },
                    Markup::Html(text) | Markup::DisplayMath(text) => lemma_add_verbatim_stays(
                        rendering,
                        lines(text),
                    ),
                    _ => {},
                }
                balanced_steps_change_nothing(next, highlighter, events.skip(1));
            },
        }
    }
}

/// Whether a style cannot be taken for that of a margin, whatever is layered on top of it.
spec fn is_text_style(style: Style) -> bool {
    style.fg != Some(muted()) || style.italic
}

/// Whether the gutter of a code block is no margin but the innermost, and that only in a code
/// block; outside, the current line shows none, and in it, the current line is empty between steps.
spec fn gutter_in_place(rendering: Rendering) -> bool {
    &&& forall|i: int|
        0 <= i < rendering.margins.len() && #[trigger] rendering.margins[i] == CODE_GUTTER@
            ==> rendering.code is Some && i == rendering.margins.len() - 1
    &&& if rendering.code is Some {
        rendering.current.len() == 0
    } else {
        shows_no_gutter(rendering.current)
    }
    &&& forall|i: int|
        0 <= i < rendering.styles.len() ==> is_text_style(#[trigger] rendering.styles[i])
}

proof fn lemma_add_verbatim_shows_no_gutter(rendering: Rendering, raw: Seq<Seq<char>>)
    requires
        shows_no_gutter(rendering.current),
    ensures
        shows_no_gutter(rendering.add_verbatim(raw).current),
    decreases raw.len(),
{
}

proof fn lemma_add_code_ends_its_lines(rendering: Rendering, code: Seq<Seq<char>>)
    requires
        rendering.current.len() == 0,
    ensures
        rendering.add_code(code).current.len() == 0,
    decreases code.len(),
{
}

proof fn lemma_gutter_in_place(
    rendering: Rendering,
    highlighter: Highlighter,
    events: Seq<Markup<Seq<char>>>,
)
    requires
        events.len() > 0,
        gutter_in_place(rendering),
        code_blocks_hold_text(events, rendering.code is Some),
    ensures
        ({
            let next = rendering.step(highlighter, events[0]);
            &&& gutter_in_place(next)
            &&& code_blocks_hold_text(events.skip(1), next.code is Some)
            &&& next.code is Some == stays_inside(events[0], rendering.code is Some)
        }),
        rendering.code is None ==> no_gutter(rendering.margins),
        rendering.code is Some ==> !(events[0] is Start),
{
    reveal_strlit("▏ ");
    reveal_strlit("│ ");
    reveal_strlit(" │ ");
    reveal_strlit("────────────────────────────────────────");
    let next = rendering.step(highlighter, events[0]);
    assert(CODE_GUTTER@[0] != QUOTE_BAR@[0]);
    assert(CODE_GUTTER@[0] != CELL_BAR@[0]);
    assert(CODE_GUTTER@[0] != HORIZONTAL_RULE@[0]);
    assert(forall|level: nat| (#[trigger] heading_marks(level))[0] == '#' || level == 0);
    assert(CODE_GUTTER@.len() == 2);
    match events[0] {
        Markup::Text(text) => if rendering.code is Some {
            lemma_add_code_stays(rendering, lines(text));
            lemma_add_code_ends_its_lines(rendering, lines(text));
        },
        Markup::Html(text) | Markup::DisplayMath(text) => {
            lemma_add_verbatim_stays(rendering, lines(text));
            lemma_add_verbatim_shows_no_gutter(rendering, lines(text));
        },
        Markup::Start(Opening::Item) => {
            assert(forall|width: usize|
                (#[trigger] indent(width)).len() > 0 ==> indent(width)[0] == ' ');
            assert(CODE_GUTTER@[0] != ' ');
        },
        _ => {},
    }
}

/// Renders `source` into lines that borrow from it: code always does, and other text where the
/// parser does not rewrite it.
pub fn render<'a>(source: &'a str, highlighter: &Highlighter) -> (result: Rendered<'a>)
    requires
        highlighter.wf(),
    ensures
        result@ == rendered(source@, *highlighter),
        headers_in_order(result@.lines, result@.code_headers),
        result@.code_headers.len() == code_of(source@).len(),
        result@.lines.len() > 0 ==> result@.lines.last().spans.len() > 0,
        lines_borrow(result.lines@, borrows_all(source@, extensions())),
{
    let events = parse(source, extensions());
    proof {
        headers_mark_copy_buttons(source@, *highlighter);
        one_header_per_code_block(source@, *highlighter);
    }
    render_events(events, highlighter)
}

/// Renders the steps through a text.
pub fn render_events<'a>(events: Vec<Markup<Cow<'a, str>>>, highlighter: &Highlighter) -> (result:
    Rendered<'a>)
    requires
        highlighter.wf(),
        heading_levels_valid(events@),
    ensures
        result@ == Rendering::start().steps(*highlighter, models(events@)).finish(),
        code_blocks_hold_text(models(events@), false) && code_texts_are_borrowed(events@, false)
            ==> lines_borrow(result.lines@, texts_are_borrowed(events@)),
{
    let ghost borrowed = texts_are_borrowed(events@);
    let mut renderer = MarkdownRenderer::new(highlighter, Ghost(borrowed));
    let ghost flat = code_blocks_hold_text(models(events@), false) && code_texts_are_borrowed(
        events@,
        false,
    );
    assert(events@.skip(0) =~= events@);
    let ghost all = models(events@);
    assert(all.skip(0) =~= all);
    for markup in iter: events
        invariant
            iter.seq() == events@,
            all == models(events@),
            heading_levels_valid(events@),
            renderer.wf(),
            borrowed == texts_are_borrowed(events@),
            renderer.borrowed@ == borrowed,
            flat ==> code_blocks_hold_text(all.skip(iter.index()), renderer@.code is Some)
                && code_texts_are_borrowed(events@.skip(iter.index()), renderer@.code is Some)
                && gutter_in_place(renderer@) && renderer.borrows(),
            renderer.highlighter == highlighter,
            renderer@.steps(*highlighter, all.skip(iter.index())) == Rendering::start().steps(
                *highlighter,
                all,
            ),
    {
        proof {
            let rest = all.skip(iter.index());
            assert(rest[0] == markup.model());
            assert(rest.skip(1) =~= all.skip(iter.index() + 1));
            assert(heading_level_valid(events@[iter.index()]));
            assert(texts_are_borrowed(events@) ==> text_is_borrowed(events@[iter.index()]));
            if flat {
                lemma_gutter_in_place(renderer@, *highlighter, rest);
                assert(events@.skip(iter.index())[0] == markup);
                assert(events@.skip(iter.index()).skip(1) =~= events@.skip(iter.index() + 1));
            }
        }
        renderer.handle_event(markup);
    }
    renderer.finish()
}

/// The views of some strings.
pub open spec fn string_views(strings: Seq<String>) -> Seq<Seq<char>> {
    strings.map_values(|string: String| string@)
}

/// The code of each code block in `source`, as it would be pasted.
pub fn code_blocks(source: &str) -> (blocks: Vec<String>)
    ensures
        string_views(blocks@) == code_of(source@),
{
    code_in(parse(source, extensions()))
}

/// The code of each code block among the steps through a text.
pub fn code_in(events: Vec<Markup<Cow<'_, str>>>) -> (blocks: Vec<String>)
    ensures
        string_views(blocks@) == Collected::start().steps(models(events@)).finish(),
{
    let mut blocks: Vec<String> = Vec::new();
    let mut current: Option<String> = None;
    let ghost all = models(events@);
    assert(all.skip(0) =~= all);
    assert(string_views(blocks@) =~= Seq::empty());
    for markup in iter: events
        invariant
            iter.seq() == events@,
            all == models(events@),
            collected(blocks@, current).steps(all.skip(iter.index())) == Collected::start().steps(
                all,
            ),
    {
        let ghost before = collected(blocks@, current);
        let ghost step = markup.model();
        proof {
            let rest = all.skip(iter.index());
            assert(rest[0] == step);
            assert(rest.skip(1) =~= all.skip(iter.index() + 1));
        }
        match markup {
            Markup::Start(Opening::CodeBlock(_)) => {
                current = Some(String::new());
            },
            Markup::Text(text) => {
                if let Some(code) = &mut current {
                    match &text {
                        Cow::Borrowed(text) => code.append(text),
                        Cow::Owned(text) => code.append(text.as_str()),
                    }
                }
            },
            Markup::End(Closing::CodeBlock) => {
                if let Some(code) = current {
                    blocks.push(code);
                }
                current = None;
            },
            _ => {},
        }
        assert(collected(blocks@, current) =~= before.step(step));
    }
    let ghost last = collected(blocks@, current);
    if let Some(code) = current {
        // a block still streaming in
        blocks.push(code);
    }
    assert(string_views(blocks@) =~= last.finish());
    blocks
}

/// What is collected in `blocks` and `current`.
spec fn collected(blocks: Seq<String>, current: Option<String>) -> Collected {
    Collected {
        blocks: string_views(blocks),
        current: match current {
            Some(code) => Some(code@),
            None => None,
        },
    }
}

/// The span that a text is shown in where a rendering stands.
pub open spec fn shown_as(
    rendering: Rendering,
    highlighter: Highlighter,
    text: Seq<char>,
) -> SpanView {
    rendering.step(highlighter, Markup::Text(text)).current.last()
}

/// Text is shown as it is, and what is around it shows in its style alone. Emphasis makes it italic,
/// strong emphasis bold, a strikethrough crosses it out, and each leaves the rest of the style as it
/// was; so does the head of a table, which makes it bold. A link makes it blue and underlines it, a
/// quote grey and italic. A heading has a style of its own: bold, and purple or blue on the first
/// two levels.
pub proof fn text_shows_what_it_is_inside(
    rendering: Rendering,
    highlighter: Highlighter,
    text: Seq<char>,
    level: u8,
)
    requires
        rendering.code is None,
    ensures
        ({
            let outside = shown_as(rendering, highlighter, text);
            let inside = |opening: Opening<Seq<char>>|
                shown_as(rendering.step(highlighter, Markup::Start(opening)), highlighter, text);
            let bold = Style {
                fg: None,
                bg: None,
                bold: true,
                italic: false,
                underlined: false,
                crossed_out: false,
            };
            &&& outside.content == text
            &&& rendering.styles.len() == 0 ==> outside.style == (Style { bold: false, ..bold })
            &&& inside(Opening::Emphasis) == (SpanView {
                content: text,
                style: Style { italic: true, ..outside.style },
            })
            &&& inside(Opening::Strong) == (SpanView {
                content: text,
                style: Style { bold: true, ..outside.style },
            })
            &&& inside(Opening::Strikethrough) == (SpanView {
                content: text,
                style: Style { crossed_out: true, ..outside.style },
            })
            &&& inside(Opening::TableHead) == (SpanView {
                content: text,
                style: Style { bold: true, ..outside.style },
            })
            &&& inside(Opening::Link) == (SpanView {
                content: text,
                style: Style {
                    fg: Some(Color::Rgb(137, 180, 250)),
                    underlined: true,
                    ..outside.style
                },
            })
            &&& inside(Opening::BlockQuote) == (SpanView {
                content: text,
                style: Style {
                    fg: Some(Color::Rgb(108, 112, 134)),
                    italic: true,
                    ..outside.style
                },
            })
            &&& inside(Opening::Heading(level)) == (SpanView {
                content: text,
                style: Style {
                    fg: if level == 1 {
                        Some(Color::Rgb(203, 166, 247))
                    } else if level == 2 {
                        Some(Color::Rgb(137, 180, 250))
                    } else {
                        None
                    },
                    ..bold
                },
            })
            &&& inside(Opening::Other) == outside
            &&& inside(Opening::TableCell) == outside
            &&& inside(Opening::Item) == outside
            &&& inside(Opening::List(None)) == outside
        }),
{
}

/// What is added goes to the end of the line that is being built, and leaves the lines before it
/// alone. A new line begins with the margins, the outermost first, in grey. Code inside a line and
/// HTML are orange, whatever is around them; a formula and a footnote are shown as text is. A line
/// break in the source is a space, and a task has its checkbox.
pub proof fn what_is_added_follows_what_is_there(
    rendering: Rendering,
    highlighter: Highlighter,
    text: Seq<char>,
    done: bool,
)
    requires
        rendering.code is None,
    ensures
        ({
            let after = |markup: Markup<Seq<char>>| rendering.step(highlighter, markup);
            let grey = Style {
                fg: Some(Color::Rgb(108, 112, 134)),
                bg: None,
                bold: false,
                italic: false,
                underlined: false,
                crossed_out: false,
            };
            let orange = Style { fg: Some(Color::Rgb(250, 179, 135)), ..grey };
            let blue = Style { fg: Some(Color::Rgb(137, 180, 250)), ..grey };
            let outside = shown_as(rendering, highlighter, text);
            let begun = if rendering.current.len() > 0 {
                rendering.current
            } else {
                Seq::new(
                    rendering.margins.len(),
                    |i: int| SpanView { content: rendering.margins[i], style: grey },
                )
            };
            let with = |content: Seq<char>, style: Style|
                Rendering { current: begun.push((SpanView { content, style })), ..rendering };
            &&& after(Markup::Text(text)) == with(text, outside.style)
            &&& after(Markup::InlineMath(text)) == with(text, outside.style)
            &&& after(Markup::FootnoteReference(text)) == with(text, outside.style)
            &&& after(Markup::Code(text)) == with(text, orange)
            &&& after(Markup::InlineHtml(text)) == with(text, orange)
            &&& after(Markup::SoftBreak) == with(" "@, (Style { fg: None, ..grey }))
            &&& after(Markup::TaskListMarker(done)) == with(
                if done {
                    "[x] "@
                } else {
                    "[ ] "@
                },
                blue,
            )
            &&& after(Markup::HardBreak) == (Rendering {
                lines: rendering.lines.push(
                    (LineView { spans: begun, style: Style { fg: None, ..grey } }),
                ),
                current: Seq::empty(),
                ..rendering
            })
            &&& rendering.current.len() > 0 ==> after(Markup::Start(Opening::TableCell)) == with(
                " │ "@,
                grey,
            )
            &&& rendering.current.len() == 0 ==> after(Markup::Start(Opening::TableCell))
                == rendering
        }),
{
    let grey = margin_style();
    assert(rendering.margins.map_values(|margin: Seq<char>| span(margin, margin_style()))
        =~= Seq::new(
        rendering.margins.len(),
        |i: int| SpanView { content: rendering.margins[i], style: grey },
    ));
}

/// The line that is being built, once it is finished: what was added to it, if anything.
pub open spec fn finished_lines(rendering: Rendering) -> Seq<LineView> {
    if rendering.current.len() == 0 {
        rendering.lines
    } else {
        rendering.lines.push(
            LineView {
                spans: rendering.current,
                style: Style {
                    fg: None,
                    bg: None,
                    bold: false,
                    italic: false,
                    underlined: false,
                    crossed_out: false,
                },
            },
        )
    }
}

/// Whether `after` has the lines of `before`, the one being built among them, and at most one blank
/// line more, so that the last line is blank if there is one.
pub open spec fn leaves_a_blank_line(before: Rendering, after: Rendering) -> bool {
    let lines = finished_lines(before);
    &&& after.current.len() == 0
    &&& if lines.len() == 0 || lines.last().spans.len() == 0 {
        after.lines == lines
    } else {
        after.lines.len() == lines.len() + 1 && after.lines.drop_last() == lines
            && after.lines.last().spans.len() == 0
    }
}

/// The end of a block finishes the line that is being built and leaves one blank line, no more: a
/// paragraph, a table, a heading, a quote, a code block, and a list that is in no other. The end of
/// an item or of a table's row finishes the line and leaves none. The end of styled text, and of a
/// list inside another, leaves the lines alone.
pub proof fn blocks_are_set_apart(rendering: Rendering, highlighter: Highlighter)
    ensures
        ({
            let after = |closing: Closing| rendering.step(highlighter, Markup::End(closing));
            let finished = finished_lines(rendering);
            &&& leaves_a_blank_line(rendering, after(Closing::Paragraph))
            &&& leaves_a_blank_line(rendering, after(Closing::Table))
            &&& leaves_a_blank_line(rendering, after(Closing::Heading))
            &&& leaves_a_blank_line(rendering, after(Closing::BlockQuote))
            &&& leaves_a_blank_line(rendering, after(Closing::CodeBlock))
            &&& rendering.lists.len() <= 1 ==> leaves_a_blank_line(rendering, after(Closing::List))
            &&& rendering.lists.len() > 1 ==> after(Closing::List).lines == rendering.lines
                && after(Closing::List).current == rendering.current
            &&& after(Closing::Item).lines == finished && after(Closing::Item).current.len() == 0
            &&& after(Closing::TableRow).lines == finished && after(
                Closing::TableRow,
            ).current.len() == 0
            &&& after(Closing::TableHead).lines == finished && after(
                Closing::TableHead,
            ).current.len() == 0
            &&& after(Closing::Emphasis).lines == rendering.lines && after(Closing::Emphasis).current
                == rendering.current
            &&& after(Closing::Strong).lines == rendering.lines && after(Closing::Strong).current
                == rendering.current
            &&& after(Closing::Strikethrough).lines == rendering.lines && after(
                Closing::Strikethrough,
            ).current == rendering.current
            &&& after(Closing::Link).lines == rendering.lines && after(Closing::Link).current
                == rendering.current
            &&& after(Closing::Other) == rendering
        }),
{
    let ended = rendering.end_line_if_not_empty();
    assert(finished_lines(rendering) == ended.lines);
    lemma_end_block(rendering);
    lemma_end_block(rendering.pop_style());
    lemma_end_block(ended.pop_margin().pop_style());
    lemma_end_block(Rendering { code: None, ..ended }.pop_margin());
    lemma_end_block(Rendering { lists: popped(rendering.lists), ..rendering });
}

proof fn lemma_end_block(rendering: Rendering)
    ensures
        leaves_a_blank_line(rendering, rendering.end_block()),
{
    let ended = rendering.end_line_if_not_empty();
    assert(finished_lines(rendering) == ended.lines);
    assert(ended.lines.push(LineView::blank()).drop_last() =~= ended.lines);
}

/// The start of a block finishes the line that is being built. A heading begins its line with one
/// `#` for each level; a quote has a bar on its left; a list says where its numbers start.
pub proof fn blocks_begin_on_a_new_line(
    rendering: Rendering,
    highlighter: Highlighter,
    level: u8,
    first: Option<u64>,
)
    requires
        1 <= level <= 6,
    ensures
        ({
            let after = |opening: Opening<Seq<char>>|
                rendering.step(highlighter, Markup::Start(opening));
            let finished = finished_lines(rendering);
            let heading = after(Opening::Heading(level));
            let marks = heading.current.last().content;
            &&& heading.lines == finished
            &&& heading.current.len() == rendering.margins.len() + 1
            &&& marks.len() == level + 1
            &&& forall|i: int| 0 <= i < level ==> #[trigger] marks[i] == '#'
            &&& marks.last() == ' '
            &&& heading.margins == rendering.margins
            &&& after(Opening::BlockQuote).lines == finished
            &&& after(Opening::BlockQuote).current.len() == 0
            &&& after(Opening::BlockQuote).margins == rendering.margins.push("│ "@)
            &&& after(Opening::List(first)).lines == finished
            &&& after(Opening::List(first)).current.len() == 0
            &&& after(Opening::List(first)).margins == rendering.margins
            &&& after(Opening::List(first)).lists.len() == rendering.lists.len() + 1
            &&& after(Opening::List(first)).lists.last() == match first {
                Some(number) => Some(number as nat),
                None => None,
            }
        }),
{
    assert(finished_lines(rendering) == rendering.end_line_if_not_empty().lines);
}

/// The items of a list are numbered one by one from the first number on, or have bullets. An item
/// begins a new line with its number or bullet in blue, and what follows in the item is indented by
/// as many columns as that takes, up to ten.
pub proof fn items_are_numbered_one_by_one(rendering: Rendering, highlighter: Highlighter)
    requires
        rendering.lists.len() > 0,
    ensures
        ({
            let after = rendering.step(highlighter, Markup::Start(Opening::Item));
            let marker = after.current.last();
            let indent = after.margins.last();
            &&& after.lines == finished_lines(rendering)
            &&& after.current.len() == rendering.margins.len() + 1
            &&& marker.style.fg == Some(Color::Rgb(137, 180, 250))
            &&& match rendering.lists.last() {
                Some(number) => {
                    &&& marker.content == decimal(number) + ". "@
                    &&& after.lists.last() == Some(number + 1)
                },
                None => marker.content == "• "@ && after.lists.last() is None,
            }
            &&& after.lists.len() == rendering.lists.len()
            &&& after.lists.drop_last() == rendering.lists.drop_last()
            &&& after.margins.drop_last() == rendering.margins
            &&& indent.len() == if display_width(marker.content) < 10 {
                display_width(marker.content) as int
            } else {
                10
            }
            &&& forall|i: int| 0 <= i < indent.len() ==> #[trigger] indent[i] == ' '
        }),
{
    assert(finished_lines(rendering) == rendering.end_line_if_not_empty().lines);
    let after = rendering.step(highlighter, Markup::Start(Opening::Item));
    assert(after.margins.drop_last() =~= rendering.margins);
    assert(after.lists.drop_last() =~= rendering.lists.drop_last());
}

/// A code block begins with a header of its own: the margins, the gutter, the language in grey and
/// italic where one is given, and the copy button at the end. The header's place is noted. Then the
/// gutter is on the left until the block ends.
pub proof fn a_code_block_begins_with_its_header(
    rendering: Rendering,
    highlighter: Highlighter,
    info: Option<Seq<char>>,
)
    ensures
        ({
            let after = rendering.step(highlighter, Markup::Start(Opening::CodeBlock(info)));
            let finished = finished_lines(rendering);
            let header = after.lines.last().spans;
            let language = match info {
                Some(info) => first_word(info),
                None => Seq::empty(),
            };
            let depth = rendering.margins.len() as int;
            &&& after.lines.drop_last() == finished
            &&& after.current.len() == 0
            &&& after.code_headers == rendering.code_headers.push(finished.len() as int)
            &&& after.margins == rendering.margins.push("▏ "@)
            &&& after.code == Some(highlighter.block(language))
            &&& header.len() == depth + if language.len() > 0 {
                4int
            } else {
                2int
            }
            &&& forall|i: int|
                0 <= i < depth ==> (#[trigger] header[i]).content == rendering.margins[i]
            &&& header[depth].content == "▏ "@
            &&& header.last().content == " copy "@
            &&& header.last().style == (Style {
                fg: Some(Color::Rgb(17, 17, 27)),
                bg: Some(Color::Rgb(137, 180, 250)),
                bold: true,
                italic: false,
                underlined: false,
                crossed_out: false,
            })
            &&& language.len() > 0 ==> header[depth + 1].content == language
                && header[depth + 1].style == (Style {
                fg: Some(Color::Rgb(108, 112, 134)),
                bg: None,
                bold: false,
                italic: true,
                underlined: false,
                crossed_out: false,
            }) && header[depth + 2].content == "  "@
        }),
{
    assert(finished_lines(rendering) == rendering.end_line_if_not_empty().lines);
    let after = rendering.step(highlighter, Markup::Start(Opening::CodeBlock(info)));
    assert(after.lines.drop_last() =~= finished_lines(rendering));
}

/// Code is shown line by line: each of its lines is a line of its own, behind the margins, and shows
/// what the grammar makes of it, in the state in which the line before left it.
pub proof fn code_is_shown_line_by_line(
    rendering: Rendering,
    highlighter: Highlighter,
    code: Seq<char>,
    index: int,
)
    requires
        rendering.code is Some,
        rendering.current.len() == 0,
        0 <= index < lines(code).len(),
    ensures
        ({
            let after = rendering.step(highlighter, Markup::Text(code));
            let before = rendering.add_code(lines(code).take(index));
            let shown = after.lines[rendering.lines.len() + index].spans;
            let spans = (before.code->0).spans(lines(code)[index]);
            let depth = rendering.margins.len() as int;
            &&& after.lines.len() == rendering.lines.len() + lines(code).len()
            &&& after.lines.take(rendering.lines.len() as int) == rendering.lines
            &&& after.current.len() == 0
            &&& after.margins == rendering.margins
            &&& shown.len() == depth + spans.len()
            &&& forall|i: int|
                0 <= i < depth ==> (#[trigger] shown[i]).content == rendering.margins[i]
            &&& shown.skip(depth) == spans
        }),
{
    lemma_code_lines(rendering, lines(code));
    lemma_code_line(rendering, lines(code), index);
    lemma_add_code_stays(rendering, lines(code));
    let after = rendering.add_code(lines(code));
    assert(after.lines.take(rendering.lines.len() as int) =~= rendering.lines);
}

proof fn lemma_code_lines(rendering: Rendering, code: Seq<Seq<char>>)
    requires
        rendering.code is Some,
        rendering.current.len() == 0,
    ensures
        ({
            let after = rendering.add_code(code);
            &&& after.lines.len() == rendering.lines.len() + code.len()
            &&& rendering.lines.is_prefix_of(after.lines)
            &&& after.current.len() == 0
            &&& after.margins == rendering.margins
            &&& after.code is Some
        }),
    decreases code.len(),
{
    if code.len() > 0 {
        let before = rendering.add_code(code.drop_last());
        lemma_code_lines(rendering, code.drop_last());
        let state = before.code->0;
        lemma_add_spans(
            Rendering { code: Some(state.after(code.last())), ..before },
            state.spans(code.last()),
        );
    }
}

proof fn lemma_code_line(rendering: Rendering, code: Seq<Seq<char>>, index: int)
    requires
        rendering.code is Some,
        rendering.current.len() == 0,
        0 <= index < code.len(),
    ensures
        ({
            let after = rendering.add_code(code);
            let before = rendering.add_code(code.take(index));
            let shown = after.lines[rendering.lines.len() + index].spans;
            let spans = (before.code->0).spans(code[index]);
            let depth = rendering.margins.len() as int;
            &&& shown.len() == depth + spans.len()
            &&& forall|i: int|
                0 <= i < depth ==> (#[trigger] shown[i]).content == rendering.margins[i]
            &&& shown.skip(depth) == spans
        }),
    decreases code.len(),
{
    let shorter = code.drop_last();
    lemma_code_lines(rendering, shorter);
    let before = rendering.add_code(shorter);
    let state = before.code->0;
    let coded = Rendering { code: Some(state.after(code.last())), ..before };
    lemma_add_spans(coded, state.spans(code.last()));
    lemma_code_lines(rendering, code);
    let after = rendering.add_code(code);
    if index < shorter.len() {
        lemma_code_line(rendering, shorter, index);
        assert(shorter.take(index) =~= code.take(index));
        assert(after.lines[rendering.lines.len() + index] == before.lines[rendering.lines.len()
            + index]);
    } else {
        assert(code.take(index) =~= shorter);
        lemma_spans_behind_margins(coded, state.spans(code.last()));
        let shown = after.lines[rendering.lines.len() + index].spans;
        assert(shown == coded.add_spans(state.spans(code.last())).begun_line());
    }
}

proof fn lemma_spans_behind_margins(rendering: Rendering, added: Seq<SpanView>)
    requires
        rendering.current.len() == 0,
    ensures
        ({
            let line = rendering.add_spans(added).begun_line();
            let depth = rendering.margins.len() as int;
            &&& line.len() == depth + added.len()
            &&& forall|i: int|
                0 <= i < depth ==> (#[trigger] line[i]).content == rendering.margins[i]
            &&& line.skip(depth) == added
        }),
    decreases added.len(),
{
    let depth = rendering.margins.len() as int;
    if added.len() == 0 {
        assert(rendering.begun_line().skip(depth) =~= added);
    } else {
        lemma_spans_behind_margins(rendering, added.drop_last());
        lemma_add_spans(rendering, added.drop_last());
        lemma_add_spans(rendering, added);
        let line = rendering.add_spans(added).begun_line();
        let before = rendering.add_spans(added.drop_last()).begun_line();
        assert(line == before.push(added.last()));
        assert(before.skip(depth) == added.drop_last());
        assert(line.skip(depth) =~= before.skip(depth).push(added.last()));
        assert(added.drop_last().push(added.last()) =~= added);
    }
}

/// HTML blocks and displayed formulas are shown line by line, each line behind the margins and in
/// the style of the text around them.
pub proof fn raw_text_is_shown_line_by_line(
    rendering: Rendering,
    highlighter: Highlighter,
    text: Seq<char>,
    index: int,
)
    requires
        rendering.code is None,
        rendering.current.len() == 0,
        0 <= index < lines(text).len(),
    ensures
        ({
            let after = rendering.step(highlighter, Markup::Html(text));
            let shown = after.lines[rendering.lines.len() + index].spans;
            let depth = rendering.margins.len() as int;
            &&& after == rendering.step(highlighter, Markup::DisplayMath(text))
            &&& after.lines.len() == rendering.lines.len() + lines(text).len()
            &&& after.lines.take(rendering.lines.len() as int) == rendering.lines
            &&& after.current.len() == 0
            &&& shown.len() == depth + 1
            &&& forall|i: int|
                0 <= i < depth ==> (#[trigger] shown[i]).content == rendering.margins[i]
            &&& shown.last() == (SpanView {
                content: lines(text)[index],
                ..shown_as(rendering, highlighter, text)
            })
        }),
{
    lemma_raw_lines(rendering, lines(text), index);
    let after = rendering.step(highlighter, Markup::Html(text));
    assert(after.lines.take(rendering.lines.len() as int) =~= rendering.lines);
}

proof fn lemma_raw_lines(rendering: Rendering, raw: Seq<Seq<char>>, index: int)
    requires
        rendering.current.len() == 0,
    ensures
        ({
            let after = rendering.add_verbatim(raw);
            let shown = after.lines[rendering.lines.len() + index].spans;
            let depth = rendering.margins.len() as int;
            &&& after.lines.len() == rendering.lines.len() + raw.len()
            &&& rendering.lines.is_prefix_of(after.lines)
            &&& after.current.len() == 0
            &&& 0 <= index < raw.len() ==> {
                &&& shown.len() == depth + 1
                &&& forall|i: int|
                    0 <= i < depth ==> (#[trigger] shown[i]).content == rendering.margins[i]
                &&& shown.last() == span(raw[index], rendering.style())
            }
        }),
    decreases raw.len(),
{
    if raw.len() > 0 {
        let before = rendering.add_verbatim(raw.drop_last());
        lemma_raw_lines(rendering, raw.drop_last(), index);
        lemma_add_verbatim_stays(rendering, raw.drop_last());
        let after = rendering.add_verbatim(raw);
        if 0 <= index < raw.len() - 1 {
            assert(after.lines[rendering.lines.len() + index] == before.lines[rendering.lines.len()
                + index]);
        }
    }
}

/// A rule is a line of its own, forty dashes long, with a blank line after it.
pub proof fn a_rule_is_a_line_of_dashes(rendering: Rendering, highlighter: Highlighter)
    ensures
        ({
            let after = rendering.step(highlighter, Markup::Rule);
            let finished = finished_lines(rendering);
            let rule = after.lines[finished.len() as int].spans.last().content;
            &&& after.lines.len() == finished.len() + 2
            &&& after.lines.take(finished.len() as int) == finished
            &&& after.lines.last().spans.len() == 0
            &&& after.current.len() == 0
            &&& rule.len() == 40
            &&& forall|i: int| 0 <= i < 40 ==> #[trigger] rule[i] == '─'
        }),
{
    reveal_strlit("────────────────────────────────────────");
    assert(finished_lines(rendering) == rendering.end_line_if_not_empty().lines);
    let after = rendering.step(highlighter, Markup::Rule);
    assert(after.lines.take(finished_lines(rendering).len() as int) =~= finished_lines(rendering));
}

/// What a text is rendered to: the steps that the parser gives for it, with strikethrough, tables
/// and task lists, are rendered one after the other from an empty start, and of the lines only the
/// blank ones at the end are left out.
pub proof fn a_text_is_rendered_step_by_step(
    source: Seq<char>,
    highlighter: Highlighter,
    rendering: Rendering,
    markup: Markup<Seq<char>>,
    rest: Seq<Markup<Seq<char>>>,
)
    ensures
        Rendering::start() == (Rendering {
            lines: Seq::empty(),
            code_headers: Seq::empty(),
            current: Seq::empty(),
            styles: Seq::empty(),
            margins: Seq::empty(),
            lists: Seq::empty(),
            code: None,
        }),
        rendering.steps(highlighter, Seq::empty()) == rendering,
        rendering.steps(highlighter, seq![markup] + rest) == rendering.step(
            highlighter,
            markup,
        ).steps(highlighter, rest),
        ({
            let events = markdown_events(
                source,
                (Extensions { strikethrough: true, tables: true, task_lists: true }),
            );
            let end = Rendering::start().steps(highlighter, events);
            let result = rendered(source, highlighter);
            let lines = finished_lines(end);
            &&& result.code_headers == end.code_headers
            &&& result.lines.is_prefix_of(lines)
            &&& forall|i: int|
                result.lines.len() <= i < lines.len() ==> (#[trigger] lines[i]).spans.len() == 0
            &&& result.lines.len() > 0 ==> result.lines.last().spans.len() > 0
        }),
{
    assert((seq![markup] + rest).skip(1) =~= rest);
    let events = markdown_events(source, extensions());
    let end = Rendering::start().steps(highlighter, events);
    assert(finished_lines(end) == end.end_line_if_not_empty().lines);
    lemma_blank_end(finished_lines(end));
}

proof fn lemma_blank_end(lines: Seq<LineView>)
    ensures
        without_blank_end(lines).is_prefix_of(lines),
        forall|i: int|
            without_blank_end(lines).len() <= i < lines.len() ==> (#[trigger] lines[i]).spans.len()
                == 0,
        without_blank_end(lines).len() > 0 ==> without_blank_end(lines).last().spans.len() > 0,
    decreases lines.len(),
{
    if lines.len() > 0 && lines.last().spans.len() == 0 {
        let shorter = lines.drop_last();
        lemma_blank_end(shorter);
        assert forall|i: int| without_blank_end(lines).len() <= i < lines.len() implies (
        #[trigger] lines[i]).spans.len() == 0 by {
            if i < shorter.len() {
                assert(shorter[i] == lines[i]);
            }
        }
    }
}

/// The code of a block is the texts between its start and its end, one after the other and
/// unchanged. Blocks come in their order; a block that is not ended yet counts; and nothing outside
/// a block does.
pub proof fn code_is_the_text_between_start_and_end(
    blocks: Seq<Seq<char>>,
    info: Option<Seq<char>>,
    text: Seq<char>,
    more: Seq<char>,
    other: Markup<Seq<char>>,
)
    requires
        !(other matches Markup::Start(Opening::CodeBlock(_))),
        !(other matches Markup::End(Closing::CodeBlock)),
    ensures
        ({
            let outside = Collected { blocks, current: None };
            let inside = outside.step(Markup::Start(Opening::CodeBlock(info)));
            let filled = inside.step(Markup::Text(text));
            let longer = filled.step(Markup::Text(more));
            &&& Collected::start().finish().len() == 0
            &&& outside.step(other) == outside
            &&& outside.finish() == blocks
            &&& inside.finish() == blocks.push(Seq::empty())
            &&& filled.finish() == blocks.push(text)
            &&& longer.finish() == blocks.push(text + more)
            &&& longer.step(Markup::End(Closing::CodeBlock)) == (Collected {
                blocks: blocks.push(text + more),
                current: None,
            })
        }),
{
    assert(Seq::<char>::empty() + text =~= text);
}

/// The code blocks of a text are those among the steps that the parser gives for it, in order.
pub proof fn code_is_collected_step_by_step(
    source: Seq<char>,
    collected: Collected,
    markup: Markup<Seq<char>>,
    rest: Seq<Markup<Seq<char>>>,
)
    ensures
        code_of(source) == (Collected { blocks: Seq::empty(), current: None }).steps(
            markdown_events(
                source,
                (Extensions { strikethrough: true, tables: true, task_lists: true }),
            ),
        ).finish(),
        collected.steps(Seq::empty()) == collected,
        collected.steps(seq![markup] + rest) == collected.step(markup).steps(rest),
{
    assert((seq![markup] + rest).skip(1) =~= rest);
}

/// The steps are seen one by one, each with its text.
pub proof fn steps_are_seen_as_they_are(
    strings: Seq<String>,
    values: Seq<usize>,
)
    ensures
        string_views(strings).len() == strings.len(),
        forall|i: int| 0 <= i < strings.len() ==> #[trigger] string_views(strings)[i] == strings[i]@,
        indices(values).len() == values.len(),
        forall|i: int| 0 <= i < values.len() ==> #[trigger] indices(values)[i] == values[i],
{
}

/// Lines that borrow hold no copy of a text: not behind the gutter of a code block, but for the
/// language that stands before the copy button; and nowhere where all is to be borrowed, but for
/// that and the number of a list's item.
pub proof fn borrowed_lines_hold_no_copies(
    lines: Seq<Line<'_>>,
    all: bool,
    line: int,
    index: int,
    gutter: int,
)
    requires
        lines_borrow(lines, all),
        0 <= line < lines.len(),
        0 <= index < lines[line].spans@.len(),
        all || (0 <= gutter < index && lines[line].spans@[gutter].content@ == "▏ "@
            && lines[line].spans@[gutter].style == margin_style()),
    ensures
        ({
            let spans = lines[line].spans@;
            let is_language = spans.len() == index + 3 && spans.last().content@ == " copy "@;
            let is_number = all && spans[index].style == list_marker_style() && exists|number: nat|
                spans[index].content@ == #[trigger] decimal(number) + ". "@;
            spans[index].content is Borrowed || is_language || is_number
        }),
{
    let spans = lines[line].spans@;
    assert(line_borrows(spans, all));
    if !all {
        assert(is_gutter(spans[gutter]@));
        assert(is_after_gutter(spans, index));
    }
}

} // verus!
