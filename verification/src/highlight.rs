//! Syntax highlighting for fenced code blocks, using syntect with bat's collection of grammars
//! and themes (the `two-face` crate).
use std::borrow::Cow;

use syntect::easy::HighlightLines;
use syntect::highlighting::Theme;
use syntect::parsing::{SyntaxReference, SyntaxSet};
use two_face::theme::{EmbeddedLazyThemeSet, EmbeddedThemeName};
use vstd::prelude::*;

use crate::style::{all_borrowed, span_views, Color, Span, SpanView, Style};
use crate::text::split_text;

verus! {

/// syntect's set of grammars.
#[verifier::external_type_specification]
#[verifier::external_body]
pub struct ExSyntaxSet(SyntaxSet);

/// One of syntect's grammars.
#[verifier::external_type_specification]
#[verifier::external_body]
pub struct ExSyntaxReference(SyntaxReference);

/// A theme of syntect.
#[verifier::external_type_specification]
#[verifier::external_body]
pub struct ExTheme(Theme);

/// The themes that the `two-face` crate embeds.
#[verifier::external_type_specification]
#[verifier::external_body]
pub struct ExEmbeddedLazyThemeSet(EmbeddedLazyThemeSet);

/// syntect's highlighter, which takes the lines of a text in order.
#[verifier::external_type_specification]
#[verifier::external_body]
pub struct ExHighlightLines<'a>(HighlightLines<'a>);

/// Whether a set of grammars is the one that the `two-face` crate embeds.
pub uninterp spec fn embedded_syntaxes(syntaxes: SyntaxSet) -> bool;

/// Whether a grammar is one of a set's own.
pub uninterp spec fn syntax_of(syntax: SyntaxReference, syntaxes: SyntaxSet) -> bool;

/// The grammar that a set has for a language's file extension or name.
pub uninterp spec fn syntax_by_token(syntaxes: SyntaxSet, token: Seq<char>) -> Option<
    SyntaxReference,
>;

/// The grammar that a set has for plain text.
pub uninterp spec fn plain_text_syntax(syntaxes: SyntaxSet) -> SyntaxReference;

/// The theme that the embedded collection has under a name.
pub uninterp spec fn embedded_theme(themes: EmbeddedLazyThemeSet, name: CodeTheme) -> Theme;

/// The highlighter for a grammar and a theme, before its first line.
pub uninterp spec fn new_highlighter(syntax: SyntaxReference, theme: Theme) -> HighlightLines<
    'static,
>;

/// Whether a highlighter works with a grammar of a set.
pub uninterp spec fn highlights_with(state: HighlightLines<'_>, syntaxes: SyntaxSet) -> bool;

/// What a highlighter makes of its next line: the highlighter after that line, and the regions
/// of the line, or `None` where the grammar fails.
pub uninterp spec fn highlighted(
    state: HighlightLines<'_>,
    line: Seq<char>,
    syntaxes: SyntaxSet,
) -> (HighlightLines<'_>, Option<Seq<RegionView>>);

/// The themes for code.
#[derive(Debug, Clone, Copy, PartialEq, Eq, Structural)]
pub enum CodeTheme {
    CatppuccinMocha,
}

/// The most characters that are highlighted at once. A longer line is taken in parts of this length.
pub const MAX_HIGHLIGHTED: usize = 4096;

/// The theme that code is shown in.
pub const THEME: CodeTheme = CodeTheme::CatppuccinMocha;

/// The bit of a region's `font` that stands for bold text, as in syntect's `FontStyle`.
pub const FONT_BOLD: u8 = 1;

/// The bit of a region's `font` that stands for underlined text.
pub const FONT_UNDERLINE: u8 = 2;

/// The bit of a region's `font` that stands for italic text.
pub const FONT_ITALIC: u8 = 4;

/// A part of a line in one style: its colour, its font flags and its text.
pub struct Region<'a> {
    pub red: u8,
    pub green: u8,
    pub blue: u8,
    pub font: u8,
    pub text: &'a str,
}

/// A region as a mathematical value.
pub struct RegionView {
    pub red: u8,
    pub green: u8,
    pub blue: u8,
    pub font: u8,
    pub text: Seq<char>,
}

impl<'a> View for Region<'a> {
    type V = RegionView;

    open spec fn view(&self) -> RegionView {
        RegionView {
            red: self.red,
            green: self.green,
            blue: self.blue,
            font: self.font,
            text: self.text@,
        }
    }
}

/// The views of some regions.
pub open spec fn region_views(regions: Seq<Region<'_>>) -> Seq<RegionView> {
    regions.map_values(|region: Region| region@)
}

/// The text of some regions, one after the other.
pub open spec fn region_text(regions: Seq<RegionView>) -> Seq<char>
    decreases regions.len(),
{
    if regions.len() == 0 {
        Seq::empty()
    } else {
        region_text(regions.drop_last()) + regions.last().text
    }
}

/// The text of some spans, one after the other.
pub open spec fn shown_text(spans: Seq<SpanView>) -> Seq<char>
    decreases spans.len(),
{
    if spans.len() == 0 {
        Seq::empty()
    } else {
        shown_text(spans.drop_last()) + spans.last().content
    }
}

/// `two_face::syntax::extra_no_newlines` loads the embedded grammars.
#[verifier::external_body]
fn load_syntaxes() -> (syntaxes: SyntaxSet)
    ensures
        embedded_syntaxes(syntaxes),
{
    two_face::syntax::extra_no_newlines()
}

/// `two_face::theme::extra` loads the embedded themes.
#[verifier::external_body]
fn load_themes() -> EmbeddedLazyThemeSet {
    two_face::theme::extra()
}

/// `SyntaxSet::find_syntax_by_token` looks a language up by file extension, then by name.
#[verifier::external_body]
fn find_syntax<'s>(syntaxes: &'s SyntaxSet, token: &str) -> (syntax: Option<&'s SyntaxReference>)
    ensures
        match syntax {
            Some(syntax) => syntax_by_token(*syntaxes, token@) == Some(*syntax) && syntax_of(
                *syntax,
                *syntaxes,
            ),
            None => syntax_by_token(*syntaxes, token@) is None,
        },
{
    syntaxes.find_syntax_by_token(token)
}

/// `SyntaxSet::find_syntax_plain_text` finds the grammar called "Plain Text", which the embedded
/// set holds. It panics on a set without one.
#[verifier::external_body]
fn find_plain_text<'s>(syntaxes: &'s SyntaxSet) -> (syntax: &'s SyntaxReference)
    requires
        embedded_syntaxes(*syntaxes),
    ensures
        *syntax == plain_text_syntax(*syntaxes),
        syntax_of(*syntax, *syntaxes),
{
    syntaxes.find_syntax_plain_text()
}

/// `EmbeddedLazyThemeSet::get` gives the theme of a name; every name has one.
#[verifier::external_body]
fn find_theme<'t>(themes: &'t EmbeddedLazyThemeSet, name: CodeTheme) -> (theme: &'t Theme)
    ensures
        *theme == embedded_theme(*themes, name),
{
    match name {
        CodeTheme::CatppuccinMocha => themes.get(EmbeddedThemeName::CatppuccinMocha),
    }
}

/// `HighlightLines::new` starts highlighting with a grammar and a theme.
#[verifier::external_body]
fn start_highlighting<'t>(syntax: &SyntaxReference, theme: &'t Theme) -> (state: HighlightLines<'t>)
    ensures
        state == new_highlighter(*syntax, *theme),
        forall|syntaxes: SyntaxSet|
            syntax_of(*syntax, syntaxes) ==> #[trigger] highlights_with(state, syntaxes),
{
    HighlightLines::new(syntax, theme)
}

/// `HighlightLines::highlight_line` splits the next line into styled regions. The regions, and
/// the state that the following line starts from, depend on the lines so far and on the grammars
/// alone. The regions are consecutive parts of the line, from its start; that they reach its end
/// is left unsaid, because the iterator behind them stops early where a scope cannot be applied.
/// The function looks contexts up by index, so the grammars must be the set that the highlighter's
/// grammar is from. It builds patterns out of what was matched before, such as the word that ends
/// a here document, and panics where such a pattern grows past a limit of the regular expressions'
/// compiler: lines of bounded length stay far below it.
#[verifier::external_body]
fn highlight_next<'s>(state: &mut HighlightLines<'_>, line: &'s str, syntaxes: &SyntaxSet) -> (regions:
    Option<Vec<Region<'s>>>)
    requires
        embedded_syntaxes(*syntaxes),
        highlights_with(*old(state), *syntaxes),
        line@.len() <= MAX_HIGHLIGHTED,
    ensures
        highlights_with(*final(state), *syntaxes),
        *final(state) == highlighted(*old(state), line@, *syntaxes).0,
        match regions {
            Some(regions) => highlighted(*old(state), line@, *syntaxes).1 == Some(
                region_views(regions@),
            ) && region_text(region_views(regions@)).is_prefix_of(line@),
            None => highlighted(*old(state), line@, *syntaxes).1 is None,
        },
{
    let regions = state.highlight_line(line, syntaxes).ok()?;
    let convert = |(style, text): (syntect::highlighting::Style, &'s str)| Region {
        red: style.foreground.r,
        green: style.foreground.g,
        blue: style.foreground.b,
        font: style.font_style.bits(),
        text,
    };
    Some(regions.into_iter().map(convert).collect())
}

/// The style that a region is shown in.
pub open spec fn region_style(region: RegionView) -> Style {
    Style {
        bold: region.font & FONT_BOLD == FONT_BOLD,
        italic: region.font & FONT_ITALIC == FONT_ITALIC,
        underlined: region.font & FONT_UNDERLINE == FONT_UNDERLINE,
        ..Style::colored(Color::Rgb(region.red, region.green, region.blue))
    }
}

/// The span that shows a region.
pub open spec fn region_span(region: RegionView) -> SpanView {
    SpanView { content: region.text, style: region_style(region) }
}

/// The spans that show a line: one for each region, or the whole line in no style where the
/// grammar failed.
pub open spec fn line_spans(line: Seq<char>, regions: Option<Seq<RegionView>>) -> Seq<SpanView> {
    match regions {
        Some(regions) => regions.map_values(|region: RegionView| region_span(region)),
        None => seq![SpanView { content: line, style: Style::plain() }],
    }
}

/// The spans show the text of the regions.
proof fn lemma_shown_text(line: Seq<char>, regions: Seq<RegionView>)
    ensures
        shown_text(line_spans(line, Some(regions))) == region_text(regions),
    decreases regions.len(),
{
    let spans = line_spans(line, Some(regions));
    if regions.len() > 0 {
        lemma_shown_text(line, regions.drop_last());
        assert(spans.drop_last() =~= line_spans(line, Some(regions.drop_last())));
    }
}

/// The style that a region is shown in: its colour and font flags.
pub fn style_of(region: &Region<'_>) -> (style: Style)
    ensures
        style == region_style(region@),
{
    let mut style = Style::colored(Color::Rgb(region.red, region.green, region.blue));
    if region.font & FONT_BOLD == FONT_BOLD {
        style = style.bold();
    }
    if region.font & FONT_ITALIC == FONT_ITALIC {
        style = style.italic();
    }
    if region.font & FONT_UNDERLINE == FONT_UNDERLINE {
        style = style.underlined();
    }
    style
}

/// The spans that show a line whose regions are known, borrowing from the line.
pub fn spans_of<'s>(line: &'s str, regions: Option<Vec<Region<'s>>>) -> (spans: Vec<Span<'s>>)
    ensures
        span_views(spans@) == line_spans(
            line@,
            match regions {
                Some(regions) => Some(region_views(regions@)),
                None => None,
            },
        ),
        all_borrowed(spans@),
{
    let mut spans: Vec<Span<'s>> = Vec::new();
    match regions {
        None => {
            // grammar error: show the line unstyled
            spans.push(Span::borrowed(line, Style::plain()));
            assert(span_views(spans@) =~= seq![
                SpanView { content: line@, style: Style::plain() },
            ]);
        },
        Some(regions) => {
            for index in 0..regions.len()
                invariant
                    spans@.len() == index,
                    all_borrowed(spans@),
                    forall|i: int|
                        0 <= i < index ==> (#[trigger] spans@[i])@ == region_span(regions@[i]@),
            {
                let style = style_of(&regions[index]);
                spans.push(Span::borrowed(regions[index].text, style));
            }
            assert(span_views(spans@) =~= region_views(regions@).map_values(
                |region: RegionView| region_span(region),
            ));
        },
    }
    spans
}

/// Grammars and themes, loaded once at startup.
pub struct Highlighter {
    syntaxes: SyntaxSet,
    themes: EmbeddedLazyThemeSet,
}

impl Highlighter {
    /// The grammars are the embedded ones.
    pub closed spec fn wf(self) -> bool {
        embedded_syntaxes(self.syntaxes)
    }

    /// The grammar for a language: the one found for it, or else plain text.
    pub closed spec fn syntax(self, language: Seq<char>) -> SyntaxReference {
        match syntax_by_token(self.syntaxes, language) {
            Some(syntax) => syntax,
            None => plain_text_syntax(self.syntaxes),
        }
    }

    /// A code block in `language` before its first line.
    pub closed spec fn block(self, language: Seq<char>) -> CodeBlockState {
        CodeBlockState {
            state: new_highlighter(
                self.syntax(language),
                embedded_theme(self.themes, THEME),
            ),
            syntaxes: self.syntaxes,
        }
    }

    /// Loads the embedded grammars and themes.
    pub fn new() -> (highlighter: Self)
        ensures
            highlighter.wf(),
    {
        Highlighter { syntaxes: load_syntaxes(), themes: load_themes() }
    }

    /// Starts highlighting a code block tagged `language` (`rust`, `py`, `toml`, …). Unknown
    /// languages fall back to plain text.
    pub fn code_block(&self, language: &str) -> (block: CodeBlockHighlighter<'_>)
        requires
            self.wf(),
        ensures
            block.wf(),
            block@ == self.block(language@),
    {
        let syntax = match find_syntax(&self.syntaxes, language) {
            Some(syntax) => syntax,
            None => find_plain_text(&self.syntaxes),
        };
        CodeBlockHighlighter {
            state: start_highlighting(syntax, find_theme(&self.themes, THEME)),
            syntaxes: &self.syntaxes,
        }
    }
}

/// Where the highlighting of a code block stands.
pub struct CodeBlockState {
    pub state: HighlightLines<'static>,
    pub syntaxes: SyntaxSet,
}

impl CodeBlockState {
    /// Where it stands after one more line. A long line is taken in parts.
    pub open spec fn after(self, line: Seq<char>) -> Self
        decreases line.len(),
    {
        if line.len() <= MAX_HIGHLIGHTED {
            CodeBlockState { state: highlighted(self.state, line, self.syntaxes).0, ..self }
        } else {
            self.after(line.take(MAX_HIGHLIGHTED as int)).after(line.skip(MAX_HIGHLIGHTED as int))
        }
    }

    /// The spans that show the next line. A long line is taken in parts, and the grammar's state
    /// carries over from one to the next.
    pub open spec fn spans(self, line: Seq<char>) -> Seq<SpanView>
        decreases line.len(),
    {
        if line.len() <= MAX_HIGHLIGHTED {
            line_spans(line, highlighted(self.state, line, self.syntaxes).1)
        } else {
            let head = line.take(MAX_HIGHLIGHTED as int);
            self.spans(head) + self.after(head).spans(line.skip(MAX_HIGHLIGHTED as int))
        }
    }
}

/// Highlights the lines of one code block in order (the grammar state carries over from line to
/// line, e.g. inside a multi-line comment).
pub struct CodeBlockHighlighter<'h> {
    state: HighlightLines<'h>,
    syntaxes: &'h SyntaxSet,
}

impl<'h> View for CodeBlockHighlighter<'h> {
    type V = CodeBlockState;

    closed spec fn view(&self) -> CodeBlockState {
        CodeBlockState { state: self.state, syntaxes: *self.syntaxes }
    }
}

impl<'h> CodeBlockHighlighter<'h> {
    /// The grammar is one of the embedded ones.
    pub closed spec fn wf(self) -> bool {
        embedded_syntaxes(*self.syntaxes) && highlights_with(self.state, *self.syntaxes)
    }

    /// Highlights one line. The spans show the line's own text, and borrow from it when it is
    /// borrowed.
    pub fn highlight_line<'a>(&mut self, line: Cow<'a, str>) -> (spans: Vec<Span<'a>>)
        requires
            old(self).wf(),
        ensures
            final(self).wf(),
            final(self)@ == old(self)@.after(line@),
            span_views(spans@) == old(self)@.spans(line@),
            line@.len() <= MAX_HIGHLIGHTED ==> shown_text(span_views(spans@)).is_prefix_of(line@),
            line is Borrowed ==> all_borrowed(spans@),
    {
        match line {
            Cow::Borrowed(line) => self.borrowed_spans(line),
            Cow::Owned(line) => {
                let borrowed = self.borrowed_spans(line.as_str());
                let mut spans: Vec<Span<'a>> = Vec::new();
                for index in 0..borrowed.len()
                    invariant
                        spans@.len() == index,
                        forall|i: int|
                            0 <= i < index ==> (#[trigger] spans@[i])@ == borrowed@[i]@,
                {
                    let text = match &borrowed[index].content {
                        Cow::Borrowed(text) => (*text).to_owned(),
                        Cow::Owned(text) => text.clone(),
                    };
                    spans.push(Span::owned(text, borrowed[index].style));
                }
                assert(span_views(spans@) =~= span_views(borrowed@));
                spans
            },
        }
    }

    /// Highlights one line, part by part where it is long.
    fn borrowed_spans<'s>(&mut self, line: &'s str) -> (spans: Vec<Span<'s>>)
        requires
            old(self).wf(),
        ensures
            final(self).wf(),
            final(self)@ == old(self)@.after(line@),
            span_views(spans@) == old(self)@.spans(line@),
            line@.len() <= MAX_HIGHLIGHTED ==> shown_text(span_views(spans@)).is_prefix_of(line@),
            all_borrowed(spans@),
    {
        let mut spans: Vec<Span<'s>> = Vec::new();
        let mut rest: &'s str = line;
        assert(span_views(spans@) =~= Seq::empty());
        assert(span_views(spans@) + self@.spans(rest@) =~= old(self)@.spans(line@));
        while rest.unicode_len() > MAX_HIGHLIGHTED
            invariant
                self.wf(),
                self@.after(rest@) == old(self)@.after(line@),
                span_views(spans@) + self@.spans(rest@) == old(self)@.spans(line@),
                all_borrowed(spans@),
                line@.len() <= MAX_HIGHLIGHTED ==> rest@ == line@ && spans@.len() == 0,
            decreases rest@.len(),
        {
            let (head, tail) = split_text(rest, MAX_HIGHLIGHTED);
            let ghost shown = span_views(spans@);
            let ghost before = self@;
            let mut added: Vec<Span<'s>> = self.part_spans(head);
            let ghost part = span_views(added@);
            spans.append(&mut added);
            proof {
                assert(span_views(spans@) =~= shown + part);
                assert(before.spans(rest@) == part + self@.spans(tail@));
                assert(shown + (part + self@.spans(tail@)) =~= shown + part + self@.spans(tail@));
            }
            rest = tail;
        }
        let ghost shown = span_views(spans@);
        let mut added: Vec<Span<'s>> = self.part_spans(rest);
        let ghost part = span_views(added@);
        spans.append(&mut added);
        assert(span_views(spans@) =~= shown + part);
        assert(line@.len() <= MAX_HIGHLIGHTED ==> shown + part =~= part);
        spans
    }

    /// Highlights one line, or a part of a long one.
    fn part_spans<'s>(&mut self, line: &'s str) -> (spans: Vec<Span<'s>>)
        requires
            old(self).wf(),
            line@.len() <= MAX_HIGHLIGHTED,
        ensures
            final(self).wf(),
            final(self)@ == old(self)@.after(line@),
            span_views(spans@) == old(self)@.spans(line@),
            shown_text(span_views(spans@)).is_prefix_of(line@),
            all_borrowed(spans@),
    {
        let regions = highlight_next(&mut self.state, line, self.syntaxes);
        proof {
            if regions is Some {
                lemma_shown_text(line@, region_views(regions->0@));
            } else {
                let whole = seq![SpanView { content: line@, style: Style::plain() }];
                assert(shown_text(whole.drop_last()) =~= Seq::empty());
                assert(shown_text(whole) =~= line@);
            }
        }
        spans_of(line, regions)
    }
}

/// A region is shown as it is, in its colour; it is bold, underlined or italic where the first, the
/// second or the third bit of its font says so. A line that the grammar fails on is shown whole and
/// in no style.
pub proof fn regions_are_shown_in_their_style(
    line: Seq<char>,
    regions: Seq<RegionView>,
    index: int,
)
    requires
        0 <= index < regions.len(),
    ensures
        ({
            let shown = line_spans(line, Some(regions));
            let region = regions[index];
            &&& shown.len() == regions.len()
            &&& shown[index].content == region.text
            &&& shown[index].style == (Style {
                fg: Some(Color::Rgb(region.red, region.green, region.blue)),
                bg: None,
                bold: region.font & 1 == 1,
                underlined: region.font & 2 == 2,
                italic: region.font & 4 == 4,
                crossed_out: false,
            })
        }),
        line_spans(line, None).len() == 1,
        line_spans(line, None)[0].content == line,
        line_spans(line, None)[0].style == (Style {
            fg: None,
            bg: None,
            bold: false,
            underlined: false,
            italic: false,
            crossed_out: false,
        }),
{
}

/// The lines of a code block are highlighted in order, each in the state in which the one before
/// left the grammar; one line of up to 4096 characters at once, and the parts of a longer one as if
/// they were lines.
pub proof fn the_grammar_carries_over(
    block: CodeBlockState,
    line: Seq<char>,
    next: Seq<char>,
    head: Seq<char>,
    rest: Seq<char>,
)
    requires
        line.len() <= 4096,
        next.len() <= 4096,
        head.len() == 4096,
        rest.len() > 0,
    ensures
        block.spans(head + rest) == block.spans(head) + block.after(head).spans(rest),
        block.after(head + rest) == block.after(head).after(rest),
        ({
            let (state, regions) = highlighted(block.state, line, block.syntaxes);
            &&& block.spans(line) == line_spans(line, regions)
            &&& block.after(line).syntaxes == block.syntaxes
            &&& block.after(line).spans(next) == line_spans(
                next,
                highlighted(state, next, block.syntaxes).1,
            )
        }),
{
    assert((head + rest).take(4096) =~= head);
    assert((head + rest).skip(4096) =~= rest);
}

/// A code block is highlighted with the grammar of its language where there is one, and with that
/// for plain text where there is none; and with one theme, whatever the language.
pub proof fn a_language_has_its_grammar(
    highlighter: Highlighter,
    known: Seq<char>,
    unknown: Seq<char>,
)
    requires
        syntax_by_token(highlighter.block(known).syntaxes, known) is Some,
        syntax_by_token(highlighter.block(unknown).syntaxes, unknown) is None,
    ensures
        ({
            let block = highlighter.block(known);
            let plain = highlighter.block(unknown);
            let grammar = syntax_by_token(block.syntaxes, known)->0;
            &&& plain.syntaxes == block.syntaxes
            &&& exists|theme: Theme|
                block.state == #[trigger] new_highlighter(grammar, theme) && plain.state
                    == new_highlighter(plain_text_syntax(block.syntaxes), theme)
        }),
{
    let block = highlighter.block(known);
    let grammar = syntax_by_token(block.syntaxes, known)->0;
    let theme = embedded_theme(highlighter.themes, CodeTheme::CatppuccinMocha);
    assert(block.state == new_highlighter(grammar, theme));
}

/// The text of regions and of spans is theirs one after the other.
pub proof fn texts_follow_one_another(
    regions: Seq<RegionView>,
    region: RegionView,
    spans: Seq<SpanView>,
    span: SpanView,
    seen: Seq<Region<'_>>,
)
    ensures
        region_text(Seq::empty()).len() == 0,
        region_text(regions.push(region)) == region_text(regions) + region.text,
        shown_text(Seq::empty()).len() == 0,
        shown_text(spans.push(span)) == shown_text(spans) + span.content,
        region_views(seen).len() == seen.len(),
        forall|i: int|
            0 <= i < seen.len() ==> {
                let view = #[trigger] region_views(seen)[i];
                &&& view.text == seen[i].text@
                &&& view.red == seen[i].red && view.green == seen[i].green && view.blue
                    == seen[i].blue
                &&& view.font == seen[i].font
            },
{
    assert(regions.push(region).drop_last() =~= regions);
    assert(spans.push(span).drop_last() =~= spans);
}

} // verus!
