//! A piece of text as strokes of the pen on the page.

use crate::double::{ratio, Double};
use crate::geometry::Point;
use crate::kicad_font::{
    draw_line, multiline_offset, quantize_point, text_offsets, zero, DrawnLine, PenStroke,
};
use crate::primitives::TextRun;
use crate::text::{chars_of, string_of};
use vstd::prelude::*;

verus! {

/// The first break of a line from `i` on, or the end.
pub open spec fn line_end(s: Seq<char>, i: nat) -> nat
    decreases s.len() - i,
{
    if i >= s.len() {
        s.len()
    } else if s[i as int] == '\n' {
        i
    } else {
        line_end(s, i + 1)
    }
}

/// The end of a line lies between where it is looked for and the end of the text.
pub proof fn line_end_is_ahead(s: Seq<char>, i: nat)
    requires
        i <= s.len(),
    ensures
        i <= line_end(s, i) <= s.len(),
    decreases s.len() - i,
{
    if i < s.len() && s[i as int] != '\n' {
        line_end_is_ahead(s, i + 1);
    }
}

/// The lines of a text from `i` on.
pub open spec fn lines_from(s: Seq<char>, i: nat) -> Seq<Seq<char>>
    decreases s.len() + 1 - i,
{
    if i > s.len() {
        Seq::empty()
    } else {
        let end = line_end(s, i);
        proof {
            line_end_is_ahead(s, i);
        }
        seq![s.subrange(i as int, end as int)] + lines_from(s, end + 1)
    }
}

/// The lines of a text. There is at least one.
pub fn split_lines(s: &str) -> (r: Vec<String>)
    ensures
        crate::text::views(r@) == lines_from(s@, 0),
        r@.len() <= s@.len() + 1,
{
    let chars = chars_of(s);
    let mut r: Vec<String> = Vec::new();
    let mut start: usize = 0;
    let mut i: usize = 0;
    proof {
        assert(crate::text::views(r@) + lines_from(s@, 0) =~= lines_from(s@, 0));
    }
    while i < chars.len()
        invariant
            chars@ == s@,
            start <= i <= chars@.len(),
            r@.len() <= start,
            line_end(s@, start as nat) == line_end(s@, i as nat),
            crate::text::views(r@) + lines_from(s@, start as nat) == lines_from(s@, 0),
        decreases chars@.len() - i,
    {
        if chars[i] == '\n' {
            let line = string_of(&chars, start, i);
            let ghost before = crate::text::views(r@);
            r.push(line);
            proof {
                let rest = lines_from(s@, (i + 1) as nat);
                assert(lines_from(s@, start as nat) == seq![line@] + rest);
                assert(crate::text::views(r@) =~= before.push(line@));
                assert(before.push(line@) + rest =~= before + (seq![line@] + rest));
            }
            start = i + 1;
        }
        i = i + 1;
    }
    let line = string_of(&chars, start, chars.len());
    let ghost before = crate::text::views(r@);
    r.push(line);
    proof {
        let rest = lines_from(s@, (s@.len() + 1) as nat);
        assert(lines_from(s@, start as nat) == seq![line@] + rest);
        assert(rest =~= Seq::empty());
        assert(crate::text::views(r@) =~= before.push(line@));
        assert(before.push(line@) =~= before + (seq![line@] + rest));
    }
    r
}

/// A map of the plane that keeps lines straight: what each coordinate takes from both, and a move.
#[derive(Clone, Copy, PartialEq, Eq, Structural, Debug)]
pub struct TextMap {
    pub x_of_x: Double,
    pub y_of_x: Double,
    pub x_of_y: Double,
    pub y_of_y: Double,
    pub move_x: Double,
    pub move_y: Double,
}

impl TextMap {
    pub open spec fn wf(self) -> bool {
        &&& self.x_of_x.wf() && self.x_of_x.within(0x200_0000)
        &&& self.y_of_x.wf() && self.y_of_x.within(0x200_0000)
        &&& self.x_of_y.wf() && self.x_of_y.within(0x200_0000)
        &&& self.y_of_y.wf() && self.y_of_y.within(0x200_0000)
        &&& self.move_x.wf() && self.move_x.within(0x4800_0000_0000)
        &&& self.move_y.wf() && self.move_y.within(0x4800_0000_0000)
    }

    /// Where a point comes to lie.
    pub open spec fn spec_map(self, p: Point) -> Point {
        Point {
            x: self.x_of_x.spec_product(p.x).spec_sum(self.x_of_y.spec_product(p.y)).spec_sum(
                self.move_x,
            ),
            y: self.y_of_x.spec_product(p.x).spec_sum(self.y_of_y.spec_product(p.y)).spec_sum(
                self.move_y,
            ),
        }
    }

    pub fn map(self, p: Point) -> (r: Point)
        requires
            self.wf(),
            p.wf(),
        ensures
            r == self.spec_map(p),
            r.x.wf(),
            r.x.within(2 * crate::geometry::SPAN),
            r.y.wf(),
            r.y.within(2 * crate::geometry::SPAN),
    {
        Point {
            x: self.x_of_x.times(p.x).plus(self.x_of_y.times(p.y)).plus(self.move_x),
            y: self.y_of_x.times(p.x).plus(self.y_of_y.times(p.y)).plus(self.move_y),
        }
    }
}

/// The map of a line of text: it leans where the text is italic, is moved by its offsets, turned
/// against the clock by the angle whose cosine and sine are given, and moved to its position.
pub open spec fn map_of(
    position: Point,
    turn: Point,
    left: Double,
    down: Double,
    italic: bool,
) -> TextMap {
    let c = turn.x;
    let s = turn.y.spec_neg();
    let lean = crate::double::spec_ratio(-1, 8);
    let back = left.spec_neg();
    TextMap {
        x_of_x: c,
        y_of_x: s,
        x_of_y: if italic {
            c.spec_product(lean).spec_sum(s.spec_neg())
        } else {
            s.spec_neg()
        },
        y_of_y: if italic {
            s.spec_product(lean).spec_sum(c)
        } else {
            c
        },
        move_x: c.spec_product(back).spec_sum(s.spec_neg().spec_product(down)).spec_sum(position.x),
        move_y: s.spec_product(back).spec_sum(c.spec_product(down)).spec_sum(position.y),
    }
}

fn find_map(position: Point, turn: Point, left: Double, down: Double, italic: bool) -> (r: TextMap)
    requires
        position.x.wf() && position.x.within(0x3000_0001_0000),
        position.y.wf() && position.y.within(0x3000_0001_0000),
        crate::plane::plain_point(turn),
        left.wf(),
        left.within(crate::geometry::SPAN + 10000),
        down.wf(),
        down.within(10000),
    ensures
        r == map_of(position, turn, left, down, italic),
        r.wf(),
{
    let c = turn.x;
    let s = turn.y.negated();
    let back = left.negated();
    let aslant = s.negated();
    let (x_of_y, y_of_y) = if italic {
        let lean = ratio(-1, 8);
        (c.times(lean).plus(aslant), s.times(lean).plus(c))
    } else {
        (aslant, c)
    };
    TextMap {
        x_of_x: c,
        y_of_x: s,
        x_of_y,
        y_of_y,
        move_x: c.times(back).plus(aslant.times(down)).plus(position.x),
        move_y: s.times(back).plus(c.times(down)).plus(position.y),
    }
}

/// How text is put on a grid: its quantum, and how near inside a multiple of it counts as that
/// multiple. A quantum that is not above zero leaves the text where it is.
#[derive(Clone, Copy, PartialEq, Eq, Structural, Debug)]
pub struct TextGrid {
    pub quantum: Double,
    pub epsilon: Double,
}

impl TextGrid {
    pub open spec fn wf(self) -> bool {
        self.quantum.wf() && self.quantum.within(3000) && self.epsilon.wf() && self.epsilon.within(
            3000,
        )
    }

    pub open spec fn applies(self) -> bool {
        Double::spec_zero().spec_less(self.quantum)
    }

    /// The grid of a page: a ten-thousandth of a millimetre, taken to within a ten-millionth.
    pub fn of_page() -> (r: TextGrid)
        ensures
            r.quantum == crate::double::spec_ratio(1, 10_000),
            r.epsilon == crate::double::spec_ratio(1, 10_000_000),
            r.wf(),
    {
        TextGrid { quantum: ratio(1, 10_000), epsilon: ratio(1, 10_000_000) }
    }
}

/// A stroke on the page.
pub open spec fn stroke_on_page(stroke: PenStroke, map: TextMap, grid: TextGrid) -> PenStroke {
    let from = map.spec_map(stroke.from);
    let to = map.spec_map(stroke.to);
    if grid.applies() {
        PenStroke {
            from: Point {
                x: crate::kicad_font::on_quantum(from.x, grid.quantum, grid.epsilon),
                y: crate::kicad_font::on_quantum(from.y, grid.quantum, grid.epsilon),
            },
            to: Point {
                x: crate::kicad_font::on_quantum(to.x, grid.quantum, grid.epsilon),
                y: crate::kicad_font::on_quantum(to.y, grid.quantum, grid.epsilon),
            },
        }
    } else {
        PenStroke { from, to }
    }
}

fn put_on_page(stroke: PenStroke, map: TextMap, grid: TextGrid) -> (r: PenStroke)
    requires
        stroke.from.wf(),
        stroke.to.wf(),
        map.wf(),
        grid.wf(),
    ensures
        r == stroke_on_page(stroke, map, grid),
{
    let from = map.map(stroke.from);
    let to = map.map(stroke.to);
    if zero().less(grid.quantum) {
        proof {
            crate::double::lemma_order(Double::spec_zero(), grid.quantum);
        }
        PenStroke {
            from: quantize_point(from, grid.quantum, grid.epsilon),
            to: quantize_point(to, grid.quantum, grid.epsilon),
        }
    } else {
        PenStroke { from, to }
    }
}

/// The strokes of one line of text at a position. A line without characters has none.
pub open spec fn line_on_page(
    words: crate::primitives::Words,
    line: Seq<char>,
    position: Point,
    turn: Point,
    grid: TextGrid,
) -> Seq<PenStroke> {
    if line.len() == 0 {
        Seq::empty()
    } else {
        let chars = crate::kicad_font::formatted(line);
        let width = crate::kicad_font::cursor_upto(chars, words.size_mm, grid.quantum, chars.len());
        let (left, down) = crate::kicad_font::offsets_of(
            words.size_mm,
            words.stroke_width_mm,
            words.align,
            grid.quantum,
            width,
        );
        let map = map_of(position, turn, left, down, words.italic);
        let strokes = crate::kicad_font::line_strokes(line, words.size_mm, grid.quantum);
        strokes.map_values(|s: PenStroke| stroke_on_page(s, map, grid))
    }
}

fn draw_on_page(
    run: &TextRun,
    line: &str,
    position: Point,
    turn: Point,
    grid: TextGrid,
    strokes: &mut Vec<PenStroke>,
)
    requires
        run.wf(),
        line@.len() <= crate::kicad_font::LONGEST,
        position.x.wf() && position.x.within(0x3000_0001_0000),
        position.y.wf() && position.y.within(0x3000_0001_0000),
        crate::plane::plain_point(turn),
        grid.wf(),
    ensures
        final(strokes)@ == old(strokes)@ + line_on_page(run.model(), line@, position, turn, grid),
{
    let ghost before = strokes@;
    if line.is_empty() {
        proof {
            assert(before + Seq::<PenStroke>::empty() =~= before);
        }
        return;
    }
    let drawn: DrawnLine = draw_line(line, run.size_mm, grid.quantum);
    let (left, down) = text_offsets(
        run.size_mm,
        run.stroke_width_mm,
        run.align,
        grid.quantum,
        drawn.cursor,
    );
    let map = find_map(position, turn, left, down, run.italic);
    let ghost all = drawn.strokes@.map_values(|s: PenStroke| stroke_on_page(s, map, grid));
    let mut i: usize = 0;
    proof {
        assert(before + all.take(0) =~= before);
    }
    while i < drawn.strokes.len()
        invariant
            i <= drawn.strokes@.len(),
            crate::kicad_font::strokes_held(drawn.strokes@),
            map.wf(),
            grid.wf(),
            all == drawn.strokes@.map_values(|s: PenStroke| stroke_on_page(s, map, grid)),
            strokes@ == before + all.take(i as int),
        decreases drawn.strokes@.len() - i,
    {
        strokes.push(put_on_page(drawn.strokes[i], map, grid));
        proof {
            assert(all.take(i + 1) =~= all.take(i as int).push(all[i as int]));
            assert(strokes@ =~= before + all.take(i + 1));
        }
        i = i + 1;
    }
    proof {
        assert(all.take(all.len() as int) =~= all);
    }
}

/// Where the `i`-th of several lines stands: along the text's own way down.
pub open spec fn line_place(words: crate::primitives::Words, i: int, count: int, turn: Point, grid: TextGrid) -> Point {
    let offset = crate::kicad_font::line_offset(i, count, words.size_mm, grid.quantum);
    Point {
        x: words.position.x.spec_sum(offset.spec_product(turn.y)),
        y: words.position.y.spec_sum(offset.spec_product(turn.x)),
    }
}

/// The strokes of the first `n` of several lines.
pub open spec fn lines_on_page(
    words: crate::primitives::Words,
    lines: Seq<Seq<char>>,
    turn: Point,
    grid: TextGrid,
    n: nat,
) -> Seq<PenStroke>
    decreases n,
{
    if n == 0 {
        Seq::empty()
    } else {
        lines_on_page(words, lines, turn, grid, (n - 1) as nat) + line_on_page(
            words,
            lines[n - 1],
            line_place(words, n - 1, lines.len() as int, turn, grid),
            turn,
            grid,
        )
    }
}

/// The strokes of a piece of text. One without characters, height or strokes has none.
pub open spec fn text_on_page(words: crate::primitives::Words, turn: Point, grid: TextGrid) -> Seq<
    PenStroke,
> {
    let lines = lines_from(words.text, 0);
    if words.text.len() == 0 || !Double::spec_zero().spec_less(words.size_mm)
        || !Double::spec_zero().spec_less(words.stroke_width_mm) {
        Seq::empty()
    } else if lines.len() > 1 {
        lines_on_page(words, lines, turn, grid, lines.len())
    } else {
        line_on_page(words, words.text, words.position, turn, grid)
    }
}

/// The strokes of a piece of text on the page. `turn` is the cosine and the sine of its angle.
pub fn draw_text(run: &TextRun, turn: Point, grid: TextGrid) -> (r: Vec<PenStroke>)
    requires
        run.wf(),
        run.text@.len() < u32::MAX,
        crate::plane::plain_point(turn),
        grid.wf(),
    ensures
        r@ == text_on_page(run.model(), turn, grid),
{
    let mut strokes: Vec<PenStroke> = Vec::new();
    proof {
        assert(strokes@ =~= Seq::<PenStroke>::empty());
    }
    if run.text.as_str().is_empty() || !zero().less(run.size_mm) || !zero().less(
        run.stroke_width_mm,
    ) {
        return strokes;
    }
    let lines = split_lines(run.text.as_str());
    if lines.len() == 1 {
        draw_on_page(run, run.text.as_str(), run.position, turn, grid, &mut strokes);
        proof {
            assert(crate::text::views(lines@).len() == lines@.len());
            let one = line_on_page(run.model(), run.text@, run.position, turn, grid);
            assert(Seq::<PenStroke>::empty() + one =~= one);
        }
        return strokes;
    }
    let count = lines.len();
    let ghost all = crate::text::views(lines@);
    let mut i: usize = 0;
    while i < count
        invariant
            i <= count == lines@.len(),
            count <= u32::MAX,
            all == crate::text::views(lines@),
            all == lines_from(run.text@, 0),
            run.wf(),
            run.text@.len() < u32::MAX,
            crate::plane::plain_point(turn),
            grid.wf(),
            strokes@ == lines_on_page(run.model(), all, turn, grid, i as nat),
        decreases count - i,
    {
        let offset = multiline_offset(i, count, run.size_mm, grid.quantum);
        let position = Point {
            x: run.position.x.plus(offset.times(turn.y)),
            y: run.position.y.plus(offset.times(turn.x)),
        };
        proof {
            lines_are_short(run.text@, 0, i as int);
        }
        assert(lines@[i as int]@ == all[i as int]);
        draw_on_page(run, lines[i].as_str(), position, turn, grid, &mut strokes);
        i = i + 1;
    }
    proof {
        lines_are_some(run.text@);
    }
    strokes
}

/// There is always a line.
proof fn lines_are_some(s: Seq<char>)
    ensures
        lines_from(s, 0).len() >= 1,
{
}

/// No line is longer than its text.
proof fn lines_are_short(s: Seq<char>, from: nat, i: int)
    requires
        from <= s.len(),
        0 <= i < lines_from(s, from).len(),
    ensures
        lines_from(s, from)[i].len() <= s.len(),
    decreases i,
{
    let end = line_end(s, from);
    line_end_is_ahead(s, from);
    if i > 0 {
        let rest = lines_from(s, end + 1);
        assert(lines_from(s, from)[i] == rest[i - 1]);
        if end + 1 <= s.len() {
            lines_are_short(s, end + 1, i - 1);
        } else {
            assert(rest.len() == 0);
        }
    }
}

/// A text has one line more than it has breaks.
pub proof fn a_line_for_each_break(s: Seq<char>)
    ensures
        lines_from(s, 0).len() == 1 + breaks_from(s, 0),
{
    count_lines(s, 0);
}

/// How many breaks of a line there are from `i` on.
pub open spec fn breaks_from(s: Seq<char>, i: nat) -> nat
    decreases s.len() - i,
{
    if i >= s.len() {
        0
    } else {
        breaks_from(s, i + 1) + (if s[i as int] == '\n' {
            1nat
        } else {
            0nat
        })
    }
}

proof fn skip_to_break(s: Seq<char>, i: nat)
    requires
        i <= s.len(),
    ensures
        breaks_from(s, i) == breaks_from(s, line_end(s, i)),
    decreases s.len() - i,
{
    if i < s.len() && s[i as int] != '\n' {
        skip_to_break(s, i + 1);
    }
}

proof fn end_is_break(s: Seq<char>, i: nat)
    requires
        i <= s.len(),
        line_end(s, i) < s.len(),
    ensures
        s[line_end(s, i) as int] == '\n',
    decreases s.len() - i,
{
    if i < s.len() && s[i as int] != '\n' {
        end_is_break(s, i + 1);
    }
}

proof fn count_lines(s: Seq<char>, i: nat)
    requires
        i <= s.len(),
    ensures
        lines_from(s, i).len() == 1 + breaks_from(s, i),
    decreases s.len() - i,
{
    let end = line_end(s, i);
    line_end_is_ahead(s, i);
    skip_to_break(s, i);
    if end < s.len() {
        end_is_break(s, i);
        count_lines(s, end + 1);
    } else {
        assert(lines_from(s, end + 1).len() == 0);
    }
}

} // verus!
