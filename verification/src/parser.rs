//! The Markdown parser's events, from the `pulldown-cmark` crate.
use std::borrow::Cow;

use pulldown_cmark::{
    CodeBlockKind, DefaultBrokenLinkCallback, Event as ParserEvent, Options, Parser, Tag, TagEnd,
};
use vstd::prelude::*;

verus! {

/// pulldown-cmark's parser.
#[verifier::external_type_specification]
#[verifier::external_body]
#[verifier::reject_recursive_types(F)]
pub struct ExParser<'input, F>(Parser<'input, F>);

/// What pulldown-cmark's parser does about broken links, which is nothing.
#[verifier::external_type_specification]
#[verifier::external_body]
pub struct ExDefaultBrokenLinkCallback(DefaultBrokenLinkCallback);

/// An event of pulldown-cmark's parser.
#[verifier::external_type_specification]
#[verifier::external_body]
pub struct ExParserEvent<'a>(ParserEvent<'a>);

/// The syntax that is understood besides CommonMark's.
#[derive(Debug, Clone, Copy, PartialEq, Eq, Structural)]
pub struct Extensions {
    pub strikethrough: bool,
    pub tables: bool,
    pub task_lists: bool,
}

/// What opens a block or a stretch of styled text.
pub enum Opening<T> {
    /// A heading of level 1 to 6.
    Heading(u8),
    /// A code block: the info string of its fence, or `None` where it is indented.
    CodeBlock(Option<T>),
    /// A list: the number of its first item, or `None` for bullets.
    List(Option<u64>),
    Item,
    BlockQuote,
    Emphasis,
    Strong,
    Strikethrough,
    Link,
    TableHead,
    TableCell,
    /// Anything else.
    Other,
}

/// What ends a block or a stretch of styled text.
#[derive(Debug, Clone, Copy, PartialEq, Eq, Structural)]
pub enum Closing {
    Paragraph,
    Table,
    Heading,
    CodeBlock,
    List,
    Item,
    BlockQuote,
    TableHead,
    TableRow,
    Emphasis,
    Strong,
    Strikethrough,
    Link,
    /// Anything else.
    Other,
}

/// One step through a Markdown text; `T` is the type of the texts.
pub enum Markup<T> {
    Start(Opening<T>),
    End(Closing),
    Text(T),
    Code(T),
    InlineMath(T),
    DisplayMath(T),
    Html(T),
    InlineHtml(T),
    FootnoteReference(T),
    SoftBreak,
    HardBreak,
    Rule,
    /// The checkbox of a task, and whether the task is done.
    TaskListMarker(bool),
}

impl<'a> Opening<Cow<'a, str>> {
    /// What is opened, with its text as a mathematical value.
    pub open spec fn model(self) -> Opening<Seq<char>> {
        match self {
            Opening::Heading(level) => Opening::Heading(level),
            Opening::CodeBlock(Some(info)) => Opening::CodeBlock(Some(info@)),
            Opening::CodeBlock(None) => Opening::CodeBlock(None),
            Opening::List(first) => Opening::List(first),
            Opening::Item => Opening::Item,
            Opening::BlockQuote => Opening::BlockQuote,
            Opening::Emphasis => Opening::Emphasis,
            Opening::Strong => Opening::Strong,
            Opening::Strikethrough => Opening::Strikethrough,
            Opening::Link => Opening::Link,
            Opening::TableHead => Opening::TableHead,
            Opening::TableCell => Opening::TableCell,
            Opening::Other => Opening::Other,
        }
    }
}

impl<'a> Markup<Cow<'a, str>> {
    /// The step, with its texts as mathematical values.
    pub open spec fn model(self) -> Markup<Seq<char>> {
        match self {
            Markup::Start(opening) => Markup::Start(opening.model()),
            Markup::End(closing) => Markup::End(closing),
            Markup::Text(text) => Markup::Text(text@),
            Markup::Code(text) => Markup::Code(text@),
            Markup::InlineMath(text) => Markup::InlineMath(text@),
            Markup::DisplayMath(text) => Markup::DisplayMath(text@),
            Markup::Html(text) => Markup::Html(text@),
            Markup::InlineHtml(text) => Markup::InlineHtml(text@),
            Markup::FootnoteReference(text) => Markup::FootnoteReference(text@),
            Markup::SoftBreak => Markup::SoftBreak,
            Markup::HardBreak => Markup::HardBreak,
            Markup::Rule => Markup::Rule,
            Markup::TaskListMarker(done) => Markup::TaskListMarker(done),
        }
    }
}

impl<T> Opening<T> {
    /// Whether it is a heading, a code block, a list, an item or a quote.
    pub open spec fn is_block(self) -> bool {
        self is Heading || self is CodeBlock || self is List || self is Item || self is BlockQuote
    }
}

impl<T> Markup<T> {
    /// Whether it holds a text of its own.
    pub open spec fn is_text(self) -> bool {
        self is Text || self is Code || self is InlineMath || self is DisplayMath || self is Html
            || self is InlineHtml || self is FootnoteReference
    }
}

impl Closing {
    /// Whether it ends a block, not a stretch of styled text.
    pub open spec fn is_block(self) -> bool {
        !(self is Emphasis || self is Strong || self is Strikethrough || self is Link
            || self is Other)
    }
}

/// Whether a step's text, if it has one, is borrowed.
pub open spec fn text_is_borrowed(markup: Markup<Cow<'_, str>>) -> bool {
    match markup {
        Markup::Text(text)
        | Markup::Code(text)
        | Markup::InlineMath(text)
        | Markup::DisplayMath(text)
        | Markup::Html(text)
        | Markup::InlineHtml(text)
        | Markup::FootnoteReference(text) => text is Borrowed,
        _ => true,
    }
}

/// Whether the texts of all the steps are borrowed.
pub open spec fn texts_are_borrowed(events: Seq<Markup<Cow<'_, str>>>) -> bool {
    forall|i: int| 0 <= i < events.len() ==> text_is_borrowed(#[trigger] events[i])
}

/// The steps through a Markdown text.
pub uninterp spec fn markdown_events(source: Seq<char>, extensions: Extensions) -> Seq<
    Markup<Seq<char>>,
>;

/// The steps that a parser still gives before it says that there are no more.
pub uninterp spec fn pending(parser: Parser<'_>) -> Seq<Markup<Seq<char>>>;

/// The step that an event of the parser stands for.
pub uninterp spec fn event_markup(event: ParserEvent<'_>) -> Markup<Seq<char>>;

/// For each step through a Markdown text, whether the parser borrows the step's text. It does not
/// where it has to rewrite the text: one with a numeric entity in it, say.
pub uninterp spec fn borrowed_texts(source: Seq<char>, extensions: Extensions) -> Seq<bool>;

/// Whether the parser borrows all the texts of a Markdown source.
pub open spec fn borrows_all(source: Seq<char>, extensions: Extensions) -> bool {
    forall|i: int|
        0 <= i < borrowed_texts(source, extensions).len() ==> #[trigger] borrowed_texts(
            source,
            extensions,
        )[i]
}

/// For each step that a parser still gives, whether the parser borrows the step's text.
pub uninterp spec fn pending_borrowed(parser: Parser<'_>) -> Seq<bool>;

/// Whether the text of an event is borrowed.
pub uninterp spec fn event_borrowed(event: ParserEvent<'_>) -> bool;

/// Whether the next step is in a code block, where `inside` says whether this one is.
pub open spec fn stays_inside<T>(markup: Markup<T>, inside: bool) -> bool {
    match markup {
        Markup::Start(Opening::CodeBlock(_)) => true,
        Markup::End(Closing::CodeBlock) => false,
        _ => inside,
    }
}

/// Whether the texts in code blocks are all among those that are borrowed; `inside` says whether
/// the first step is in a code block.
pub open spec fn code_is_borrowed(
    events: Seq<Markup<Seq<char>>>,
    borrowed: Seq<bool>,
    inside: bool,
) -> bool
    decreases events.len(),
{
    events.len() == 0 || {
        &&& inside && events[0] is Text ==> borrowed[0]
        &&& code_is_borrowed(events.skip(1), borrowed.skip(1), stays_inside(events[0], inside))
    }
}

/// Whether the texts in code blocks are all borrowed; `inside` says whether the first step is in a
/// code block.
pub open spec fn code_texts_are_borrowed(events: Seq<Markup<Cow<'_, str>>>, inside: bool) -> bool
    decreases events.len(),
{
    events.len() == 0 || {
        &&& inside && events[0] is Text ==> text_is_borrowed(events[0])
        &&& code_texts_are_borrowed(events.skip(1), stays_inside(events[0], inside))
    }
}

/// Whether code blocks hold text alone, one is never inside another, and each one is ended;
/// `inside` says whether the first step is in a code block.
pub open spec fn code_blocks_hold_text(events: Seq<Markup<Seq<char>>>, inside: bool) -> bool
    decreases events.len(),
{
    if events.len() == 0 {
        !inside
    } else {
        let rest = events.skip(1);
        match events[0] {
            Markup::Text(_) => code_blocks_hold_text(rest, inside),
            Markup::Start(Opening::CodeBlock(_)) => !inside && code_blocks_hold_text(rest, true),
            Markup::End(Closing::CodeBlock) => inside && code_blocks_hold_text(rest, false),
            _ => !inside && code_blocks_hold_text(rest, false),
        }
    }
}

/// `Parser::new_ext` starts a parser, with the options that `extensions` asks for. The contract
/// names the events that it will give, and says of them that a code block holds nothing but text
/// and is ended, by the end of the source at the latest: the parser puts only text items under a
/// code block, and gives an end event for every item that has others under it. Those text items are
/// parts of the source, or the blanks left of a tab, and borrowed either way.
#[verifier::external_body]
fn new_parser<'a>(source: &'a str, extensions: Extensions) -> (parser: Parser<'a>)
    ensures
        pending(parser) == markdown_events(source@, extensions),
        code_blocks_hold_text(pending(parser), false),
        pending_borrowed(parser) == borrowed_texts(source@, extensions),
        pending_borrowed(parser).len() == pending(parser).len(),
        code_is_borrowed(pending(parser), pending_borrowed(parser), false),
{
    let mut options = Options::empty();
    options.set(Options::ENABLE_STRIKETHROUGH, extensions.strikethrough);
    options.set(Options::ENABLE_TABLES, extensions.tables);
    options.set(Options::ENABLE_TASKLISTS, extensions.task_lists);
    Parser::new_ext(source, options)
}

/// `Parser::next` (of `Iterator`) gives the next event, and `None` after the last one. Nothing is
/// claimed of a parser that has given `None`.
#[verifier::external_body]
fn next_event<'a>(parser: &mut Parser<'a>) -> (event: Option<ParserEvent<'a>>)
    ensures
        match event {
            Some(event) => {
                &&& pending(*old(parser)).len() > 0
                &&& event_markup(event) == pending(*old(parser))[0]
                &&& pending(*final(parser)) == pending(*old(parser)).skip(1)
                &&& event_borrowed(event) == pending_borrowed(*old(parser))[0]
                &&& pending_borrowed(*final(parser)) == pending_borrowed(*old(parser)).skip(1)
            },
            None => pending(*old(parser)).len() == 0,
        },
{
    parser.next()
}

/// Reads an `Event::Start` of a heading, a code block, a list, an item or a quote; any other event
/// is handed back. The level of a heading is its number of marks, 1 to 6.
#[verifier::external_body]
fn block_start_event<'a>(event: ParserEvent<'a>) -> (result: Result<
    Opening<Cow<'a, str>>,
    ParserEvent<'a>,
>)
    ensures
        match result {
            Ok(opening) => {
                &&& event_markup(event) == Markup::<Seq<char>>::Start(opening.model())
                &&& opening.model().is_block()
                &&& opening matches Opening::Heading(level) ==> 1 <= level <= 6
            },
            Err(other) => other == event && (event_markup(event) matches Markup::Start(opening)
                ==> !opening.is_block()),
        },
{
    Ok(match event {
        ParserEvent::Start(Tag::Heading { level, .. }) => Opening::Heading(level as u8),
        ParserEvent::Start(Tag::CodeBlock(CodeBlockKind::Fenced(info))) => {
            Opening::CodeBlock(Some(info.into()))
        },
        ParserEvent::Start(Tag::CodeBlock(CodeBlockKind::Indented)) => Opening::CodeBlock(None),
        ParserEvent::Start(Tag::List(first)) => Opening::List(first),
        ParserEvent::Start(Tag::Item) => Opening::Item,
        ParserEvent::Start(Tag::BlockQuote(_)) => Opening::BlockQuote,
        other => return Err(other),
    })
}

/// Reads an `Event::Start` of anything else; any other event is handed back.
#[verifier::external_body]
fn inline_start_event<'a>(event: ParserEvent<'a>) -> (result: Result<
    Opening<Cow<'a, str>>,
    ParserEvent<'a>,
>)
    requires
        event_markup(event) matches Markup::Start(opening) ==> !opening.is_block(),
    ensures
        match result {
            Ok(opening) => event_markup(event) == Markup::<Seq<char>>::Start(opening.model())
                && !opening.model().is_block(),
            Err(other) => other == event && !(event_markup(event) is Start),
        },
{
    Ok(match event {
        ParserEvent::Start(Tag::Emphasis) => Opening::Emphasis,
        ParserEvent::Start(Tag::Strong) => Opening::Strong,
        ParserEvent::Start(Tag::Strikethrough) => Opening::Strikethrough,
        ParserEvent::Start(Tag::Link { .. }) => Opening::Link,
        ParserEvent::Start(Tag::TableHead) => Opening::TableHead,
        ParserEvent::Start(Tag::TableCell) => Opening::TableCell,
        ParserEvent::Start(_) => Opening::Other,
        other => return Err(other),
    })
}

/// Reads an `Event::End` of a block; any other event is handed back.
#[verifier::external_body]
fn block_end_event<'a>(event: ParserEvent<'a>) -> (result: Result<Closing, ParserEvent<'a>>)
    ensures
        match result {
            Ok(closing) => event_markup(event) == Markup::<Seq<char>>::End(closing)
                && closing.is_block(),
            Err(other) => other == event && (event_markup(event) matches Markup::End(closing)
                ==> !closing.is_block()),
        },
{
    Ok(match event {
        ParserEvent::End(TagEnd::Paragraph) => Closing::Paragraph,
        ParserEvent::End(TagEnd::Table) => Closing::Table,
        ParserEvent::End(TagEnd::Heading(_)) => Closing::Heading,
        ParserEvent::End(TagEnd::CodeBlock) => Closing::CodeBlock,
        ParserEvent::End(TagEnd::List(_)) => Closing::List,
        ParserEvent::End(TagEnd::Item) => Closing::Item,
        ParserEvent::End(TagEnd::BlockQuote(_)) => Closing::BlockQuote,
        ParserEvent::End(TagEnd::TableHead) => Closing::TableHead,
        ParserEvent::End(TagEnd::TableRow) => Closing::TableRow,
        other => return Err(other),
    })
}

/// Reads an `Event::End` that ends no block; any other event is handed back.
#[verifier::external_body]
fn inline_end_event<'a>(event: ParserEvent<'a>) -> (result: Result<Closing, ParserEvent<'a>>)
    requires
        event_markup(event) matches Markup::End(closing) ==> !closing.is_block(),
    ensures
        match result {
            Ok(closing) => event_markup(event) == Markup::<Seq<char>>::End(closing),
            Err(other) => other == event && !(event_markup(event) is End),
        },
{
    Ok(match event {
        ParserEvent::End(TagEnd::Emphasis) => Closing::Emphasis,
        ParserEvent::End(TagEnd::Strong) => Closing::Strong,
        ParserEvent::End(TagEnd::Strikethrough) => Closing::Strikethrough,
        ParserEvent::End(TagEnd::Link) => Closing::Link,
        ParserEvent::End(_) => Closing::Other,
        other => return Err(other),
    })
}

/// Reads an event with a text; any other event is handed back. The text stays borrowed from the
/// source where the parser borrowed it.
#[verifier::external_body]
fn text_event<'a>(event: ParserEvent<'a>) -> (result: Result<
    Markup<Cow<'a, str>>,
    ParserEvent<'a>,
>)
    ensures
        match result {
            Ok(markup) => markup.model() == event_markup(event) && markup.model().is_text() && (
            event_borrowed(event) ==> text_is_borrowed(markup)),
            Err(other) => other == event && !event_markup(event).is_text(),
        },
{
    Ok(match event {
        ParserEvent::Text(text) => Markup::Text(text.into()),
        ParserEvent::Code(text) => Markup::Code(text.into()),
        ParserEvent::InlineMath(text) => Markup::InlineMath(text.into()),
        ParserEvent::DisplayMath(text) => Markup::DisplayMath(text.into()),
        ParserEvent::Html(text) => Markup::Html(text.into()),
        ParserEvent::InlineHtml(text) => Markup::InlineHtml(text.into()),
        ParserEvent::FootnoteReference(text) => Markup::FootnoteReference(text.into()),
        other => return Err(other),
    })
}

/// Reads an event that has no text and neither starts nor ends anything.
#[verifier::external_body]
fn mark_event<'a>(event: ParserEvent<'a>) -> (mark: Option<Markup<Cow<'a, str>>>)
    ensures
        match mark {
            Some(markup) => markup.model() == event_markup(event) && !markup.model().is_text()
                && !(markup is Start) && !(markup is End),
            None => event_markup(event) is Start || event_markup(event) is End || event_markup(
                event,
            ).is_text(),
        },
{
    Some(match event {
        ParserEvent::SoftBreak => Markup::SoftBreak,
        ParserEvent::HardBreak => Markup::HardBreak,
        ParserEvent::Rule => Markup::Rule,
        ParserEvent::TaskListMarker(done) => Markup::TaskListMarker(done),
        _ => return None,
    })
}

/// Whether a step is one that a heading's level allows.
pub open spec fn heading_level_valid<T>(markup: Markup<T>) -> bool {
    markup matches Markup::Start(Opening::Heading(level)) ==> 1 <= level <= 6
}

/// The next step that a parser gives, or `None` after the last one.
fn next_markup<'a>(parser: &mut Parser<'a>) -> (markup: Option<Markup<Cow<'a, str>>>)
    ensures
        match markup {
            Some(markup) => {
                &&& pending(*old(parser)).len() > 0
                &&& markup.model() == pending(*old(parser))[0]
                &&& pending(*final(parser)) == pending(*old(parser)).skip(1)
                &&& heading_level_valid(markup)
                &&& pending_borrowed(*old(parser))[0] ==> text_is_borrowed(markup)
                &&& pending_borrowed(*final(parser)) == pending_borrowed(*old(parser)).skip(1)
            },
            None => pending(*old(parser)).len() == 0,
        },
{
    let event = match next_event(parser) {
        Some(event) => event,
        None => return None,
    };
    let event = match block_start_event(event) {
        Ok(opening) => return Some(Markup::Start(opening)),
        Err(event) => event,
    };
    let event = match inline_start_event(event) {
        Ok(opening) => return Some(Markup::Start(opening)),
        Err(event) => event,
    };
    let event = match block_end_event(event) {
        Ok(closing) => return Some(Markup::End(closing)),
        Err(event) => event,
    };
    let event = match inline_end_event(event) {
        Ok(closing) => return Some(Markup::End(closing)),
        Err(event) => event,
    };
    let event = match text_event(event) {
        Ok(markup) => return Some(markup),
        Err(event) => event,
    };
    mark_event(event)
}

/// The steps, with their texts as mathematical values.
pub open spec fn models(events: Seq<Markup<Cow<'_, str>>>) -> Seq<Markup<Seq<char>>> {
    events.map_values(|markup: Markup<Cow<'_, str>>| markup.model())
}

/// Whether every heading has a level from 1 to 6.
pub open spec fn heading_levels_valid<T>(events: Seq<Markup<T>>) -> bool {
    forall|i: int| 0 <= i < events.len() ==> heading_level_valid(#[trigger] events[i])
}

/// The steps through a Markdown text. The texts borrow from `source` where the parser did not
/// have to rewrite them.
pub fn parse<'a>(source: &'a str, extensions: Extensions) -> (events: Vec<Markup<Cow<'a, str>>>)
    ensures
        models(events@) == markdown_events(source@, extensions),
        heading_levels_valid(events@),
        code_blocks_hold_text(models(events@), false),
        borrowed_texts(source@, extensions).len() == events@.len(),
        forall|i: int|
            0 <= i < events@.len() && borrowed_texts(source@, extensions)[i] ==> text_is_borrowed(
                #[trigger] events@[i],
            ),
        code_texts_are_borrowed(events@, false),
{
    let mut parser = new_parser(source, extensions);
    let mut events: Vec<Markup<Cow<'a, str>>> = Vec::new();
    let ghost all = pending(parser);
    let ghost borrowed = pending_borrowed(parser);
    assert(borrowed.skip(0) =~= borrowed);
    assert(models(events@) + pending(parser) =~= all);
    loop
        invariant_except_break
            models(events@) + pending(parser) == all,
            heading_levels_valid(events@),
            borrowed.len() == all.len(),
            pending_borrowed(parser) == borrowed.skip(events@.len() as int),
            forall|i: int|
                0 <= i < events@.len() && borrowed[i] ==> text_is_borrowed(#[trigger] events@[i]),
        ensures
            models(events@) == all,
            heading_levels_valid(events@),
            forall|i: int|
                0 <= i < events@.len() && borrowed[i] ==> text_is_borrowed(#[trigger] events@[i]),
        decreases pending(parser).len(),
    {
        let ghost before = models(events@);
        let ghost left = pending(parser);
        match next_markup(&mut parser) {
            Some(markup) => {
                events.push(markup);
                assert(models(events@) =~= before.push(left[0]));
                assert(before.push(left[0]) + left.skip(1) =~= before + left);
                assert(pending_borrowed(parser) =~= borrowed.skip(events@.len() as int));
            },
            None => {
                assert(before + left =~= before);
                break;
            },
        }
    }
    proof {
        lemma_code_texts_are_borrowed(events@, borrowed, false);
    }
    events
}

proof fn lemma_code_texts_are_borrowed(
    events: Seq<Markup<Cow<'_, str>>>,
    borrowed: Seq<bool>,
    inside: bool,
)
    requires
        code_is_borrowed(models(events), borrowed, inside),
        borrowed.len() == events.len(),
        forall|i: int|
            0 <= i < events.len() && borrowed[i] ==> text_is_borrowed(#[trigger] events[i]),
    ensures
        code_texts_are_borrowed(events, inside),
    decreases events.len(),
{
    if events.len() > 0 {
        assert(models(events).skip(1) =~= models(events.skip(1)));
        assert(models(events)[0] == events[0].model());
        lemma_code_texts_are_borrowed(
            events.skip(1),
            borrowed.skip(1),
            stays_inside(events[0], inside),
        );
    }
}

/// A step is seen as what it is, with its text; so are the steps of a text, one by one.
pub proof fn steps_are_seen_with_their_text(
    events: Seq<Markup<Cow<'_, str>>>,
    markup: Markup<Cow<'_, str>>,
)
    ensures
        models(events).len() == events.len(),
        forall|i: int| 0 <= i < events.len() ==> #[trigger] models(events)[i] == events[i].model(),
        match markup {
            Markup::Text(text) => markup.model() == Markup::Text(text@),
            Markup::Code(text) => markup.model() == Markup::Code(text@),
            Markup::InlineMath(text) => markup.model() == Markup::InlineMath(text@),
            Markup::DisplayMath(text) => markup.model() == Markup::DisplayMath(text@),
            Markup::Html(text) => markup.model() == Markup::Html(text@),
            Markup::InlineHtml(text) => markup.model() == Markup::InlineHtml(text@),
            Markup::FootnoteReference(text) => markup.model() == Markup::FootnoteReference(text@),
            Markup::SoftBreak => markup.model() == Markup::<Seq<char>>::SoftBreak,
            Markup::HardBreak => markup.model() == Markup::<Seq<char>>::HardBreak,
            Markup::Rule => markup.model() == Markup::<Seq<char>>::Rule,
            Markup::TaskListMarker(done) => markup.model() == Markup::<Seq<char>>::TaskListMarker(
                done,
            ),
            Markup::End(closing) => markup.model() == Markup::<Seq<char>>::End(closing),
            Markup::Start(Opening::Heading(level)) => markup.model() == Markup::<Seq<char>>::Start(
                Opening::Heading(level),
            ),
            Markup::Start(Opening::List(first)) => markup.model() == Markup::<Seq<char>>::Start(
                Opening::List(first),
            ),
            Markup::Start(Opening::CodeBlock(Some(info))) => markup.model()
                == Markup::Start(Opening::CodeBlock(Some(info@))),
            Markup::Start(Opening::CodeBlock(None)) => markup.model()
                == Markup::<Seq<char>>::Start(Opening::CodeBlock(None)),
            Markup::Start(Opening::Item) => markup.model() == Markup::<Seq<char>>::Start(
                Opening::Item,
            ),
            Markup::Start(Opening::BlockQuote) => markup.model() == Markup::<Seq<char>>::Start(
                Opening::BlockQuote,
            ),
            Markup::Start(Opening::Emphasis) => markup.model() == Markup::<Seq<char>>::Start(
                Opening::Emphasis,
            ),
            Markup::Start(Opening::Strong) => markup.model() == Markup::<Seq<char>>::Start(
                Opening::Strong,
            ),
            Markup::Start(Opening::Strikethrough) => markup.model() == Markup::<Seq<char>>::Start(
                Opening::Strikethrough,
            ),
            Markup::Start(Opening::Link) => markup.model() == Markup::<Seq<char>>::Start(
                Opening::Link,
            ),
            Markup::Start(Opening::TableHead) => markup.model() == Markup::<Seq<char>>::Start(
                Opening::TableHead,
            ),
            Markup::Start(Opening::TableCell) => markup.model() == Markup::<Seq<char>>::Start(
                Opening::TableCell,
            ),
            Markup::Start(Opening::Other) => markup.model() == Markup::<Seq<char>>::Start(
                Opening::Other,
            ),
        },
{
}

} // verus!
