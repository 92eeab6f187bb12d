//! The terminal's geometry, and how much room text takes on it, from the `ratatui` crate.
use std::borrow::Cow;

use ratatui::buffer::Buffer;
use ratatui::layout::{Constraint, Flex, Layout, Rect};
use ratatui::style::Modifier;
use ratatui::text::{Line as TerminalLine, Span as TerminalSpan};
use ratatui::widgets::{Paragraph, Widget, Wrap};
use vstd::prelude::*;

use self::Room::{Fill, Length, Max, Min};
use self::Spare::{Around, AtEnd, Between};
use crate::style::{Line, Span};

verus! {

/// A rectangle of terminal cells.
#[derive(Debug, Clone, Copy, PartialEq, Eq, Structural)]
pub struct Area {
    pub x: u16,
    pub y: u16,
    pub width: u16,
    pub height: u16,
}

/// A terminal cell.
#[derive(Debug, Clone, Copy, PartialEq, Eq, Structural)]
pub struct Position {
    pub x: u16,
    pub y: u16,
}

/// The smaller of two numbers.
pub open spec fn least(a: int, b: int) -> int {
    if a <= b {
        a
    } else {
        b
    }
}

/// A difference, or 0 where it would be negative.
pub open spec fn minus(a: int, b: int) -> int {
    if a >= b {
        a - b
    } else {
        0
    }
}

impl Area {
    /// The area without cells at the origin.
    #[verifier::allow_in_spec]
    pub fn zero() -> Self
        returns
            (Area { x: 0, y: 0, width: 0, height: 0 }),
    {
        Area { x: 0, y: 0, width: 0, height: 0 }
    }

    /// The first column right of the area, as far as columns can be counted.
    pub open spec fn right(self) -> int {
        least(self.x + self.width, u16::MAX as int)
    }

    /// The first row below the area, as far as rows can be counted.
    pub open spec fn bottom(self) -> int {
        least(self.y + self.height, u16::MAX as int)
    }

    /// Whether a cell is in the area.
    pub open spec fn holds(self, position: Position) -> bool {
        self.x <= position.x < self.right() && self.y <= position.y < self.bottom()
    }

    /// Whether the area is a part of `whole`, split from top to bottom where `vertical` holds,
    /// else from left to right.
    pub open spec fn is_part_of(self, whole: Area, vertical: bool) -> bool {
        if vertical {
            self.x == whole.x && self.width == whole.width && whole.y <= self.y && self.y
                + self.height <= whole.bottom()
        } else {
            self.y == whole.y && self.height == whole.height && whole.x <= self.x && self.x
                + self.width <= whole.right()
        }
    }

    /// Tells whether a cell is in the area.
    pub fn contains(self, position: Position) -> (result: bool)
        ensures
            result == self.holds(position),
    {
        position.x >= self.x && position.x < self.x.saturating_add(self.width) && position.y
            >= self.y && position.y < self.y.saturating_add(self.height)
    }

    /// The area without its first and last column; an area narrower than two columns gives the
    /// one without cells at the origin.
    pub open spec fn between_sides(self) -> Self {
        if self.width < 2 {
            Area::zero()
        } else {
            Area {
                x: least(self.x + 1, u16::MAX as int) as u16,
                y: self.y,
                width: (self.width - 2) as u16,
                height: self.height,
            }
        }
    }

    /// The left column, the top row, the width and the height.
    pub open spec fn corners(self) -> (u16, u16, u16, u16) {
        (self.x, self.y, self.width, self.height)
    }

    /// The area without its first and last column.
    pub fn without_sides(self) -> (inner: Self)
        ensures
            inner == self.between_sides(),
    {
        if self.width < 2 {
            Area::zero()
        } else {
            Area {
                x: self.x.saturating_add(1),
                y: self.y,
                width: self.width - 2,
                height: self.height,
            }
        }
    }

    /// The area inside a border of one cell. The border takes what there is: the inside has no
    /// negative size, and does not start right of the area or below it.
    pub open spec fn inside(self) -> Self {
        Area {
            x: least(self.x + 1, self.right()) as u16,
            y: least(self.y + 1, self.bottom()) as u16,
            width: minus(self.width as int, 2) as u16,
            height: minus(self.height as int, 2) as u16,
        }
    }

    /// The area inside a border of one cell.
    pub fn inside_border(self) -> (inner: Self)
        ensures
            inner == self.inside(),
    {
        let right: u16 = self.x.saturating_add(self.width);
        let bottom: u16 = self.y.saturating_add(self.height);
        let next_column: u16 = self.x.saturating_add(1);
        let next_row: u16 = self.y.saturating_add(1);
        Area {
            x: if next_column < right {
                next_column
            } else {
                right
            },
            y: if next_row < bottom {
                next_row
            } else {
                bottom
            },
            width: self.width.saturating_sub(2),
            height: self.height.saturating_sub(2),
        }
    }
}

/// How much room a part of a layout asks for.
#[derive(Debug, Clone, Copy, PartialEq, Eq, Structural)]
pub enum Room {
    /// At least so many cells.
    Min(u16),
    /// At most so many cells.
    Max(u16),
    /// So many cells.
    Length(u16),
    /// What is left, in this proportion.
    Fill(u16),
}

/// Where the room that no part asks for goes.
#[derive(Debug, Clone, Copy, PartialEq, Eq, Structural)]
pub enum Spare {
    /// After the parts.
    AtEnd,
    /// Before and after the parts, in equal shares.
    Around,
    /// Between the parts.
    Between,
}

/// The most columns that text is wrapped to. The wrapping counts the columns of a row, and of up
/// to three more symbols, each as wide as a row, in 16 bits.
pub const MAX_COLUMNS: u16 = 16383;

/// The number of columns that a text takes.
pub uninterp spec fn display_width(text: Seq<char>) -> usize;

/// The number of rows that a paragraph takes in a number of columns, wrapped between words;
/// `trim` says whether white space at the start of a row is left out. A paragraph is given as
/// lines, and a line as the texts of its spans.
pub uninterp spec fn paragraph_rows(
    lines: Seq<Seq<Seq<char>>>,
    trim: bool,
    width: u16,
) -> usize;

/// The modifiers of the cells of one row of a wrapped line, whose last text is drawn with the
/// modifiers `mark` and the texts before it with none. `row` counts from the line's first row, and
/// as many cells are given as were asked for with `columns`.
pub uninterp spec fn row_cells(
    before: Seq<Seq<char>>,
    last: Seq<char>,
    mark: u16,
    width: u16,
    columns: u16,
    row: u16,
) -> Seq<u16>;

/// Whether `Layout::split` may divide an area into these parts.
pub uninterp spec fn may_split(
    area: Area,
    vertical: bool,
    rooms: Seq<Room>,
    spare: Spare,
    parts: Seq<(u16, u16, u16, u16)>,
) -> bool;

/// The corners of some areas.
pub open spec fn corners_of(areas: Seq<Area>) -> Seq<(u16, u16, u16, u16)> {
    areas.map_values(|area: Area| area.corners())
}

/// The texts of some lines' spans.
pub open spec fn line_texts(lines: Seq<Line<'_>>) -> Seq<Seq<Seq<char>>> {
    lines.map_values(|line: Line| line@.texts())
}

/// `Span::width` is the number of columns that the text of a span takes, by the widths that
/// Unicode gives its characters.
#[verifier::external_body]
pub(crate) fn text_width(text: &str) -> (width: usize)
    ensures
        width == display_width(text@),
{
    TerminalSpan::raw(text).width()
}

/// `Paragraph::line_count` is the number of rows that a paragraph takes when it is wrapped. The
/// styles play no part in it. Its counts of columns overflow on wide symbols in more columns than
/// are asked for here.
#[verifier::external_body]
pub(crate) fn rows_of(lines: &[Line<'_>], trim: bool, width: u16) -> (rows: usize)
    requires
        width <= MAX_COLUMNS,
    ensures
        rows == paragraph_rows(line_texts(lines@), trim, width),
{
    let span = |span: &Span<'_>| TerminalSpan::raw(span.content.to_string());
    let lines: Vec<TerminalLine<'_>> =
        lines.iter().map(|line| line.spans.iter().map(span).collect()).collect();
    Paragraph::new(lines).wrap(Wrap { trim }).line_count(width)
}

/// `Paragraph::render` draws one row of a line, wrapped to `width` columns, into a buffer of
/// `columns` cells. White space at the start of a row is kept. A cell where a symbol starts has the
/// modifiers of the symbol's text; the others have none. A row can run over its width by less than
/// twice that width, where its symbols are wide, and the buffer has room for that.
#[verifier::external_body]
pub(crate) fn draw_row(
    before: &[Span<'_>],
    last: &str,
    mark: u16,
    width: u16,
    columns: u16,
    row: u16,
) -> (cells: Vec<u16>)
    requires
        width <= MAX_COLUMNS,
        columns == 4 * width,
    ensures
        cells@ == row_cells(span_texts(before@), last@, mark, width, columns, row),
{
    let mut spans: Vec<TerminalSpan<'_>> =
        before.iter().map(|span| TerminalSpan::raw(span.content.to_string())).collect();
    spans.push(TerminalSpan::styled(last, Modifier::from_bits_retain(mark)));
    let mut buffer = Buffer::empty(Rect::new(0, 0, columns, 1));
    Paragraph::new(TerminalLine::from(spans))
        .wrap(Wrap { trim: false })
        .scroll((row, 0))
        .render(Rect::new(0, 0, width, 1), &mut buffer);
    buffer.content.iter().map(|cell| cell.modifier.bits()).collect()
}

/// The texts of some spans.
pub open spec fn span_texts(spans: Seq<Span<'_>>) -> Seq<Seq<char>> {
    spans.map_values(|span: Span| span.content@)
}

/// `Layout::split` divides an area into one part for each of `rooms`: from top to bottom where
/// `vertical` holds, else from left to right. A part is given as its left column, its top row, its
/// width and its height. Every part takes up the whole width, or the whole height, and lies inside
/// the area in the other dimension. How much of that each part gets comes out of a constraint
/// solver that visits its variables in no fixed order: it is tied to the arguments, but one set of
/// arguments may give several divisions.
#[verifier::external_body]
fn split_area(area: Area, vertical: bool, rooms: &[Room], spare: Spare) -> (parts: Vec<
    (u16, u16, u16, u16),
>)
    ensures
        may_split(area, vertical, rooms@, spare, parts@),
        parts@.len() == rooms@.len(),
        forall|i: int|
            0 <= i < parts@.len() ==> area_of(#[trigger] parts@[i]).is_part_of(area, vertical),
{
    let constraints = rooms.iter().map(|room| match *room {
        Min(cells) => Constraint::Min(cells),
        Max(cells) => Constraint::Max(cells),
        Length(cells) => Constraint::Length(cells),
        Fill(share) => Constraint::Fill(share),
    });
    let layout = if vertical { Layout::vertical(constraints) } else { Layout::horizontal(constraints) };
    layout
        .flex(match spare {
            AtEnd => Flex::Start,
            Around => Flex::Center,
            Between => Flex::SpaceBetween,
        })
        .split(Rect { x: area.x, y: area.y, width: area.width, height: area.height })
        .iter().map(|part| (part.x, part.y, part.width, part.height)).collect()
}

/// The area with a left column, a top row, a width and a height.
pub open spec fn area_of(part: (u16, u16, u16, u16)) -> Area {
    Area { x: part.0, y: part.1, width: part.2, height: part.3 }
}

/// Divides `area` into one part for each of `rooms`: from top to bottom where `vertical` holds,
/// else from left to right.
pub fn split(area: Area, vertical: bool, rooms: &[Room], spare: Spare) -> (parts: Vec<Area>)
    ensures
        may_split(area, vertical, rooms@, spare, corners_of(parts@)),
        parts@.len() == rooms@.len(),
        forall|i: int|
            0 <= i < parts@.len() ==> (#[trigger] parts@[i]).is_part_of(area, vertical),
{
    let corners: Vec<(u16, u16, u16, u16)> = split_area(area, vertical, rooms, spare);
    let mut parts: Vec<Area> = Vec::new();
    for index in 0..corners.len()
        invariant
            parts@.len() == index,
            corners_of(parts@) == corners@.take(index as int),
            forall|i: int|
                0 <= i < corners@.len() ==> area_of(#[trigger] corners@[i]).is_part_of(
                    area,
                    vertical,
                ),
            forall|i: int|
                0 <= i < index ==> (#[trigger] parts@[i]).is_part_of(area, vertical),
    {
        let (x, y, width, height) = corners[index];
        assert(area_of(corners@[index as int]).is_part_of(area, vertical));
        parts.push(Area { x, y, width, height });
        assert(corners_of(parts@) =~= corners@.take(index + 1));
    }
    assert(corners@.take(corners@.len() as int) =~= corners@);
    parts
}

/// The number of columns that some texts take one after the other.
pub open spec fn texts_width(texts: Seq<Seq<char>>) -> nat
    decreases texts.len(),
{
    if texts.len() == 0 {
        0
    } else {
        texts_width(texts.drop_last()) + display_width(texts.last()) as nat
    }
}

/// The number of columns that some spans take one after the other.
fn spans_width(spans: &[Span<'_>]) -> (width: u128)
    ensures
        width == texts_width(span_texts(spans@)),
{
    let ghost texts = span_texts(spans@);
    let mut width: u128 = 0;
    assert(texts.take(0) =~= Seq::empty());
    for index in 0..spans.len()
        invariant
            texts == span_texts(spans@),
            width == texts_width(texts.take(index as int)),
            width <= index * usize::MAX,
    {
        proof {
            assert(texts.take(index + 1).drop_last() =~= texts.take(index as int));
            assert(texts.take(index + 1).last() == spans@[index as int].content@);
            assert(index * usize::MAX + usize::MAX == (index + 1) * usize::MAX)
                by (nonlinear_arith);
            assert((index + 1) * usize::MAX <= u64::MAX * u64::MAX) by (nonlinear_arith)
                requires
                    index + 1 <= usize::MAX,
                    usize::MAX <= u64::MAX,
            ;
        }
        let added: usize = match &spans[index].content {
            Cow::Borrowed(text) => text_width(text),
            Cow::Owned(text) => text_width(text.as_str()),
        };
        width = width + added as u128;
    }
    assert(texts.take(texts.len() as int) =~= texts);
    width
}

/// The number of columns that a line takes.
pub fn line_width(line: &Line<'_>) -> (width: u128)
    ensures
        width == texts_width(line@.texts()),
{
    assert(span_texts(line.spans@) =~= line@.texts());
    spans_width(line.spans.as_slice())
}

/// An area holds the cells from its corner on, as many as it is wide and high. Without its sides it
/// lacks the first and the last column; inside a border, also the first and the last row.
pub proof fn areas_hold_the_cells_inside(area: Area, position: Position)
    requires
        area.x + area.width < u16::MAX,
        area.y + area.height < u16::MAX,
    ensures
        area.holds(position) <==> area.x <= position.x < area.x + area.width && area.y
            <= position.y < area.y + area.height,
        area.width >= 2 ==> (area.between_sides().holds(position) <==> area.x + 1 <= position.x
            < area.x + area.width - 1 && area.y <= position.y < area.y + area.height),
        area.width < 2 ==> !area.between_sides().holds(position),
        area.width >= 2 && area.height >= 2 ==> (area.inside().holds(position) <==> area.x + 1
            <= position.x < area.x + area.width - 1 && area.y + 1 <= position.y < area.y
            + area.height - 1),
        area.corners() == (area.x, area.y, area.width, area.height),
{
}

/// Texts one after the other take the columns of each.
pub proof fn widths_add_up(texts: Seq<Seq<char>>, text: Seq<char>, areas: Seq<Area>)
    ensures
        texts_width(Seq::empty()) == 0,
        texts_width(texts.push(text)) == texts_width(texts) + display_width(text),
        corners_of(areas).len() == areas.len(),
        forall|i: int|
            0 <= i < areas.len() ==> #[trigger] corners_of(areas)[i] == (
                areas[i].x,
                areas[i].y,
                areas[i].width,
                areas[i].height,
            ),
{
    assert(texts.push(text).drop_last() =~= texts);
}

/// Lines and spans are measured by their texts.
pub proof fn texts_are_measured_as_they_are(lines: Seq<Line<'_>>, spans: Seq<Span<'_>>)
    ensures
        line_texts(lines).len() == lines.len(),
        forall|i: int|
            0 <= i < lines.len() ==> #[trigger] line_texts(lines)[i] == span_texts(lines[i].spans@),
        span_texts(spans).len() == spans.len(),
        forall|i: int|
            0 <= i < spans.len() ==> #[trigger] span_texts(spans)[i] == spans[i].content@,
{
    assert forall|i: int| 0 <= i < lines.len() implies #[trigger] line_texts(lines)[i]
        == span_texts(lines[i].spans@) by {
        assert(line_texts(lines)[i] =~= span_texts(lines[i].spans@));
    }
}

} // verus!
