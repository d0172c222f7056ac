//! The page: its paper, its frame and its title block.

use crate::double::ratio;
use crate::double::Double;
use crate::geometry::Bounds;
use crate::geometry::Point;
use crate::primitives::Primitive;
use crate::primitives::StrokeStyle;
use crate::primitives::TextRun;
use crate::readers::paper_size;
use crate::readers::TextAlign;
use crate::scene::ColorRole;
use crate::scene_builder::SceneBuilder;
use crate::sexp::Node;
use crate::text::joined;
use crate::text::to_decimal;
use vstd::prelude::*;

verus! {

/// No frame has more columns: a page is less than ten kilometres wide.
pub const MOST_COLUMNS: u32 = 0x20_0000;

/// No frame has more rows.
pub const MOST_ROWS: u32 = 0x20_0000;

/// The length of a side of a page: not nothing, and less than `2^24` millimetres.
pub open spec fn is_side(d: Double) -> bool {
    d.wf() && d.within(1000) && d.mantissa != 0 && d.exponent <= -29
}

/// A frame on a page with such a side has more columns or rows than there can be, the first of
/// which ends or stands at `first`.
pub open spec fn is_cut(side: Double, first: int) -> bool {
    crate::double::nearest(first + 50 * MOST_COLUMNS, 0).spec_less(
        side.spec_difference(crate::double::nearest(12, 0)),
    )
}

proof fn lemma_small(v: nat)
    requires
        0 < v < 0x1_0000,
    ensures
        crate::double::nearest(v as int, 0).exponent <= -37,
{
    let j = crate::double::lemma_small_exact(v, 0);
    vstd::arithmetic::power2::lemma2_to64();
    vstd::arithmetic::power2::lemma2_to64_rest();
    if j <= 36 {
        if j < 36 {
            vstd::arithmetic::power2::lemma_pow2_strictly_increases(j, 36);
        }
        assert(v * crate::double::two(j) < 0x1_0000 * 0x10_0000_0000) by (nonlinear_arith)
            requires
                0 < v < 0x1_0000,
                0 <= crate::double::two(j) <= 0x10_0000_0000,
        ;
    }
}

proof fn lemma_mil()
    ensures
        crate::double::spec_ratio(254, 10000).exponent <= -57,
{
    let mil = crate::double::spec_ratio(254, 10000);
    crate::printing::nearest_numbers_are_readings(254);
    let one = crate::double::two(200) as int;
    vstd::arithmetic::power2::lemma2_to64();
    vstd::arithmetic::power2::lemma2_to64_rest();
    vstd::arithmetic::power2::lemma_pow2_adds(180, 20);
    vstd::arithmetic::power2::lemma_pow2_adds(144, 56);
    vstd::arithmetic::power2::lemma_pow2_pos(144);
    vstd::arithmetic::power2::lemma_pow2_pos(180);
    if mil.exponent > -57 {
        let p = crate::double::two((mil.exponent + 200) as nat) as int;
        if mil.exponent > -56 {
            vstd::arithmetic::power2::lemma_pow2_strictly_increases(
                144,
                (mil.exponent + 200) as nat,
            );
        }
        let q = crate::double::two(144) as int;
        assert(p >= q);
        let m = mil.mantissa as int;
        if m == 0 {
            assert(0 * p == 0) by (nonlinear_arith);
        } else {
            assert(m * p >= 0x10_0000_0000_0000 * q) by (nonlinear_arith)
                requires
                    m >= 0x10_0000_0000_0000,
                    p >= q,
                    q > 0,
            ;
        }
    }
}

proof fn lemma_not_cut(end: Double, first: int)
    requires
        end.wf(),
        end.mantissa == 0 || end.exponent <= -27,
        35 <= first <= 60,
    ensures
        !crate::double::nearest(first + 50 * MOST_COLUMNS, 0).spec_less(end),
{
    let v = (first + 50 * MOST_COLUMNS) as nat;
    let x = crate::double::nearest(v as int, 0);
    let j = crate::double::lemma_small_exact(v, 0);
    vstd::arithmetic::power2::lemma2_to64();
    vstd::arithmetic::power2::lemma2_to64_rest();
    if j >= 27 {
        if j > 27 {
            vstd::arithmetic::power2::lemma_pow2_strictly_increases(27, j);
        }
        assert(v * crate::double::two(j) >= 0x400_0000 * 0x800_0000) by (nonlinear_arith)
            requires
                v >= 0x400_0000,
                crate::double::two(j) >= 0x800_0000,
        ;
    }
    crate::double::lemma_order(x, end);
}

/// Where the columns or the rows of a frame end.
fn find_end(side: Double) -> (r: Double)
    requires
        is_side(side),
    ensures
        r == side.spec_difference(crate::double::nearest(12, 0)),
        r.wf(),
        !is_cut(side, 60),
        !is_cut(side, 35),
{
    let twelve = Double::from_int(12);
    let r = side.minus(twelve);
    proof {
        lemma_small(12);
        lemma_not_cut(r, 60);
        lemma_not_cut(r, 35);
    }
    r
}

/// The number is that of a character.
pub open spec fn is_scalar(code: u32) -> bool {
    code < 0xd800 || 0xe000 <= code <= 0x10_ffff
}

/// `char::from_u32`: the character with the given number, where there is one.
pub assume_specification [ char::from_u32 ](i: u32) -> (r: Option<char>)
    ensures
        r is Some <==> is_scalar(i),
        r matches Some(c) ==> c == i as char,
;

/// The letter of a row, a question mark where the letters have run out.
pub open spec fn row_mark(k: nat) -> char {
    if k < MOST_ROWS && is_scalar((65 + k) as u32) {
        (65 + k) as char
    } else {
        '?'
    }
}

/// Tenths of a millimetre.
pub open spec fn tenths(n: int) -> Double {
    crate::double::spec_ratio(n, 10)
}

/// The size of the page in millimetres.
pub open spec fn page_mm(root: crate::sexp::Sexp) -> (Double, Double) {
    let mil = crate::double::spec_ratio(254, 10000);
    let (width, height) = crate::readers::page_mils(root);
    (
        crate::double::nearest(width, 0).spec_product(mil),
        crate::double::nearest(height, 0).spec_product(mil),
    )
}

/// The size of the page in millimetres.
pub fn page_size(root: &Node) -> (r: (Double, Double))
    ensures
        r == page_mm(root@),
        is_side(r.0),
        is_side(r.1),
{
    let (width, height) = paper_size(root);
    let mil = ratio(254, 10000);
    proof {
        lemma_mil();
        lemma_small(width as nat);
        lemma_small(height as nat);
    }
    (
        Double::from_int(width as i64).times(mil),
        Double::from_int(height as i64).times(mil),
    )
}

pub open spec fn border() -> StrokeStyle {
    crate::scene_builder::style_of(crate::scene_builder::usual_width(), ColorRole::Border)
}

/// The outline of a box on the page.
pub open spec fn outline(b: Bounds) -> crate::primitives::Shape {
    crate::primitives::Shape::Polyline {
        points: seq![
            Point { x: b.min_x, y: b.min_y },
            Point { x: b.max_x, y: b.min_y },
            Point { x: b.max_x, y: b.max_y },
            Point { x: b.min_x, y: b.max_y },
            Point { x: b.min_x, y: b.min_y },
        ],
        closed: false,
        style: border(),
        fill: false,
    }
}

pub open spec fn border_line(from: Point, to: Point) -> crate::primitives::Shape {
    crate::primitives::Shape::Line { from, to, style: border() }
}

/// Text on the page.
pub open spec fn page_text(
    position: Point,
    text: Seq<char>,
    size: Double,
    width: Double,
    align: TextAlign,
    italic: bool,
) -> crate::primitives::Shape {
    crate::primitives::Shape::Text(
        crate::primitives::Words {
            position,
            rotation_deg: Double::spec_zero(),
            size_mm: size,
            stroke_width_mm: width,
            align,
            italic,
            role: ColorRole::Border,
            text,
        },
    )
}

/// The text that numbers a column or a row.
pub open spec fn mark(position: Point, text: Seq<char>, align: TextAlign) -> crate::primitives::Shape {
    page_text(position, text, tenths(13), crate::scene_builder::usual_width(), align, false)
}

/// The line that ends a column from the one with number `k` on: one at the top and one at the
/// bottom, every fifty millimetres.
pub open spec fn column_lines(width: Double, height: Double, k: nat) -> Seq<
    crate::primitives::Shape,
>
    decreases MOST_COLUMNS - k,
{
    let x = crate::double::nearest(60 + 50 * k as int, 0);
    if k >= MOST_COLUMNS || !x.spec_less(width.spec_difference(crate::double::nearest(12, 0))) {
        Seq::empty()
    } else {
        seq![
            border_line(
                Point { x, y: crate::double::nearest(12, 0) },
                Point { x, y: crate::double::nearest(10, 0) },
            ),
            border_line(
                Point { x, y: height.spec_difference(crate::double::nearest(12, 0)) },
                Point { x, y: height.spec_difference(crate::double::nearest(10, 0)) },
            ),
        ] + column_lines(width, height, k + 1)
    }
}

/// The numbers of the columns from the one with number `k` on, at the top and at the bottom.
pub open spec fn column_marks(width: Double, height: Double, k: nat) -> Seq<
    crate::primitives::Shape,
>
    decreases MOST_COLUMNS - k,
{
    let x = crate::double::nearest(35 + 50 * k as int, 0);
    if k >= MOST_COLUMNS || !x.spec_less(width.spec_difference(crate::double::nearest(12, 0))) {
        Seq::empty()
    } else {
        let text = crate::text::decimal(k + 1);
        seq![
            mark(Point { x, y: crate::double::nearest(11, 0) }, text, TextAlign::Left),
            mark(
                Point { x, y: height.spec_difference(crate::double::nearest(11, 0)) },
                text,
                TextAlign::Left,
            ),
        ] + column_marks(width, height, k + 1)
    }
}

/// The lines that end the rows from the one with number `k` on, left and right.
pub open spec fn row_lines(width: Double, height: Double, k: nat) -> Seq<
    crate::primitives::Shape,
>
    decreases MOST_ROWS - k,
{
    let y = crate::double::nearest(60 + 50 * k as int, 0);
    if k >= MOST_ROWS || !y.spec_less(height.spec_difference(crate::double::nearest(12, 0))) {
        Seq::empty()
    } else {
        seq![
            border_line(
                Point { x: crate::double::nearest(10, 0), y },
                Point { x: crate::double::nearest(12, 0), y },
            ),
            border_line(
                Point { x: width.spec_difference(crate::double::nearest(10, 0)), y },
                Point { x: width.spec_difference(crate::double::nearest(12, 0)), y },
            ),
        ] + row_lines(width, height, k + 1)
    }
}

/// The letters of the rows from the one with number `k` on, left and right.
pub open spec fn row_marks(width: Double, height: Double, k: nat) -> Seq<
    crate::primitives::Shape,
>
    decreases MOST_ROWS - k,
{
    let y = crate::double::nearest(35 + 50 * k as int, 0);
    if k >= MOST_ROWS || !y.spec_less(height.spec_difference(crate::double::nearest(12, 0))) {
        Seq::empty()
    } else {
        let text = seq![row_mark(k)];
        seq![
            mark(Point { x: crate::double::nearest(11, 0), y }, text, TextAlign::Center),
            mark(
                Point { x: width.spec_difference(crate::double::nearest(11, 0)), y },
                text,
                TextAlign::Center,
            ),
        ] + row_marks(width, height, k + 1)
    }
}

/// A line of the title block, by the distances of its ends from the corner, in tenths of a
/// millimetre.
pub open spec fn title_line(right: Double, bottom: Double, a: int, b: int, c: int, d: int) ->
    crate::primitives::Shape {
    border_line(
        Point {
            x: right.spec_difference(tenths(a)),
            y: bottom.spec_difference(tenths(b)),
        },
        Point {
            x: right.spec_difference(tenths(c)),
            y: bottom.spec_difference(tenths(d)),
        },
    )
}

/// The lines of the title block.
pub open spec fn title_lines(right: Double, bottom: Double) -> Seq<crate::primitives::Shape> {
    seq![
        title_line(right, bottom, 1100, 55, 20, 55),
        title_line(right, bottom, 1100, 85, 20, 85),
        title_line(right, bottom, 1100, 125, 20, 125),
        title_line(right, bottom, 1100, 185, 20, 185),
        title_line(right, bottom, 900, 85, 900, 55),
        title_line(right, bottom, 260, 85, 260, 20),
    ]
}

/// What the title block of a document says under a tag.
pub open spec fn title_value(root: crate::sexp::Sexp, tag: Seq<char>) -> Seq<char> {
    match root.first("title_block"@) {
        Some(block) => match block.first_text(tag) {
            Some(text) => text,
            None => ""@,
        },
        None => ""@,
    }
}

/// The text of the first comment with a number, from place `from` on.
pub open spec fn comment_from(comments: Seq<crate::sexp::Sexp>, number: int, from: nat) -> Seq<char>
    decreases comments.len() - from,
{
    if from >= comments.len() {
        ""@
    } else if comments[from as int].part_number(1) == Some(crate::double::nearest(number, 0)) {
        match comments[from as int].part_text(2) {
            Some(text) => text,
            None => ""@,
        }
    } else {
        comment_from(comments, number, from + 1)
    }
}

/// The comment of a document with a number.
pub open spec fn comment(root: crate::sexp::Sexp, number: int) -> Seq<char> {
    match root.first("title_block"@) {
        Some(block) => comment_from(block.tagged("comment"@), number, 0),
        None => ""@,
    }
}

/// The name of the paper.
pub open spec fn paper(root: crate::sexp::Sexp) -> Seq<char> {
    match root.first_text("paper"@) {
        Some(paper) => paper,
        None => "A4"@,
    }
}

/// The name of the file on the page.
pub open spec fn shown_file(file_name: Option<Seq<char>>) -> Seq<char> {
    match file_name {
        Some(name) => name,
        None => "schematic.kicad_sch"@,
    }
}

/// A text of the title block, by the distance of its start from the corner and its size, in tenths
/// of a millimetre, and the width of its strokes in ten thousandths.
pub open spec fn title_text(
    right: Double,
    bottom: Double,
    x: int,
    y: int,
    text: Seq<char>,
    size: int,
    width: int,
    italic: bool,
) -> crate::primitives::Shape {
    page_text(
        Point {
            x: right.spec_difference(tenths(x)),
            y: bottom.spec_difference(tenths(y)),
        },
        text,
        tenths(size),
        crate::double::spec_ratio(width, 10000),
        TextAlign::Left,
        italic,
    )
}

/// The texts of the title block.
pub open spec fn title_texts(
    right: Double,
    bottom: Double,
    root: crate::sexp::Sexp,
    file_name: Option<Seq<char>>,
) -> Seq<crate::primitives::Shape> {
    let sheets = root.tagged("sheet"@).len();
    seq![
        title_text(right, bottom, 870, 69, "Date: "@ + title_value(root, "date"@), 15, 1524, false),
        title_text(right, bottom, 1090, 41, "KiCad E.D.A. 10.0.5"@, 15, 1524, false),
        title_text(right, bottom, 240, 69, "Rev: "@ + title_value(root, "rev"@), 15, 3000, false),
        title_text(right, bottom, 1090, 69, "Size: "@ + paper(root), 15, 1524, false),
        title_text(right, bottom, 240, 41, "Id: 1/"@ + crate::text::decimal(1 + sheets), 15, 1524, false),
        title_text(right, bottom, 1090, 107, "Title: "@ + title_value(root, "title"@), 20, 4000, true),
        title_text(right, bottom, 1090, 143, "File: "@ + shown_file(file_name), 15, 1524, false),
        title_text(right, bottom, 1090, 170, "Sheet: /"@, 15, 1524, false),
        title_text(right, bottom, 1090, 200, title_value(root, "company"@), 15, 3000, false),
        title_text(right, bottom, 1090, 230, comment(root, 1), 15, 1524, false),
        title_text(right, bottom, 1090, 260, comment(root, 2), 15, 1524, false),
        title_text(right, bottom, 1090, 290, comment(root, 3), 15, 1524, false),
        title_text(right, bottom, 1090, 320, comment(root, 4), 15, 1524, false),
    ]
}

/// The frame of a page and its title block.
pub open spec fn worksheet(
    width: Double,
    height: Double,
    root: crate::sexp::Sexp,
    file_name: Option<Seq<char>>,
) -> Seq<crate::primitives::Shape> {
    let ten = crate::double::nearest(10, 0);
    let two = crate::double::nearest(2, 0);
    let right = width.spec_difference(ten);
    let bottom = height.spec_difference(ten);
    seq![
        outline(
            Bounds {
                min_x: right.spec_difference(crate::double::nearest(110, 0)),
                min_y: bottom.spec_difference(crate::double::nearest(34, 0)),
                max_x: right.spec_difference(two),
                max_y: bottom.spec_difference(two),
            },
        ),
    ] + column_lines(width, height, 0) + column_marks(width, height, 0) + row_lines(
        width,
        height,
        0,
    ) + row_marks(width, height, 0) + title_lines(right, bottom) + title_texts(
        right,
        bottom,
        root,
        file_name,
    )
}

/// A box that keeps a distance from the edges of the page.
pub open spec fn inset(width: Double, height: Double, by: int) -> Bounds {
    let d = crate::double::nearest(by, 0);
    Bounds {
        min_x: d,
        min_y: d,
        max_x: width.spec_difference(d),
        max_y: height.spec_difference(d),
    }
}

/// The page of a document: its paper, two frames, and the worksheet.
pub open spec fn page(root: crate::sexp::Sexp, file_name: Option<Seq<char>>) -> Seq<
    crate::primitives::Shape,
> {
    let (width, height) = page_mm(root);
    seq![
        crate::primitives::Shape::Rect {
            bounds: Bounds {
                min_x: Double::spec_zero(),
                min_y: Double::spec_zero(),
                max_x: width,
                max_y: height,
            },
            style: crate::scene_builder::style_of(Double::spec_zero(), ColorRole::Page),
            fill: true,
        },
        outline(inset(width, height, 10)),
        outline(inset(width, height, 12)),
    ] + worksheet(width, height, root, file_name)
}

fn to_tenths(n: i64) -> (r: Double)
    requires
        0 <= n <= 10000,
    ensures
        r == tenths(n as int),
        r.wf(),
        r.within(400),
{
    ratio(n, 10)
}

fn border_style() -> (r: StrokeStyle)
    ensures
        r == border(),
        crate::primitives::plain_style(r),
{
    StrokeStyle { width_mm: ratio(1524, 10000), role: ColorRole::Border }
}

/// A page coordinate.
pub open spec fn on_page(d: Double) -> bool {
    d.wf() && d.within(2000)
}

impl SceneBuilder {
    fn push_worksheet_outline(&mut self, b: Bounds)
        requires
            old(self).wf(),
            on_page(b.min_x),
            on_page(b.min_y),
            on_page(b.max_x),
            on_page(b.max_y),
        ensures
            final(self).wf(),
            final(self)@ == old(self)@.drawn(outline(b)),
    {
        let mut points: Vec<Point> = Vec::new();
        points.push(Point { x: b.min_x, y: b.min_y });
        points.push(Point { x: b.max_x, y: b.min_y });
        points.push(Point { x: b.max_x, y: b.max_y });
        points.push(Point { x: b.min_x, y: b.max_y });
        points.push(Point { x: b.min_x, y: b.min_y });
        assert(points@ =~= outline(b)->Polyline_points);
        self.push(
            Primitive::Polyline { points, closed: false, style: border_style(), fill: false },
        );
    }

    fn push_border_line(&mut self, from: Point, to: Point)
        requires
            old(self).wf(),
            on_page(from.x),
            on_page(from.y),
            on_page(to.x),
            on_page(to.y),
        ensures
            final(self).wf(),
            final(self)@ == old(self)@.drawn(border_line(from, to)),
    {
        self.push(Primitive::Line { from, to, style: border_style() });
    }

    fn push_worksheet_text(
        &mut self,
        position: Point,
        text: String,
        size_mm: Double,
        stroke_width_mm: Double,
        align: TextAlign,
        italic: bool,
    )
        requires
            old(self).wf(),
            on_page(position.x),
            on_page(position.y),
            on_page(size_mm),
            on_page(stroke_width_mm),
            text@.len() <= crate::kicad_font::LONGEST,
        ensures
            final(self).wf(),
            final(self)@ == old(self)@.drawn(
                page_text(position, text@, size_mm, stroke_width_mm, align, italic),
            ),
    {
        self.push(
            Primitive::Text(
                TextRun {
                    position,
                    rotation_deg: crate::kicad_font::zero(),
                    size_mm,
                    stroke_width_mm,
                    align,
                    italic,
                    role: ColorRole::Border,
                    text,
                },
            ),
        );
    }

    fn draw_column_lines(&mut self, width: Double, height: Double)
        requires
            old(self).wf(),
            is_side(width),
            is_side(height),
        ensures
            final(self).wf(),
            !is_cut(width, 60),
            final(self)@ == old(self)@.with(column_lines(width, height, 0)),
    {
        let ghost before = self@;
        let ghost goal = before.with(column_lines(width, height, 0));
        let twelve = Double::from_int(12);
        let ten = Double::from_int(10);
        let end = find_end(width);
        let mut k: u32 = 0;
        assert(self@.with(column_lines(width, height, 0)) =~= goal);
        while k < MOST_COLUMNS && Double::from_int(60 + 50 * k as i64).less(end)
            invariant
                k <= MOST_COLUMNS,
                self.wf(),
                height.wf(),
                height.within(1000),
                end.wf(),
                end == width.spec_difference(crate::double::nearest(12, 0)),
                twelve == crate::double::nearest(12, 0),
                twelve.wf(),
                twelve.within(100),
                ten == crate::double::nearest(10, 0),
                ten.wf(),
                ten.within(100),
                self@.with(column_lines(width, height, k as nat)) == goal,
            ensures
                self@.with(Seq::empty()) == goal,
            decreases MOST_COLUMNS - k,
        {
            let x = Double::from_int(60 + 50 * k as i64);
            let ghost so_far = self@;
            self.push_border_line(Point { x, y: twelve }, Point { x, y: ten });
            self.push_border_line(
                Point { x, y: height.minus(twelve) },
                Point { x, y: height.minus(ten) },
            );
            assert(self@.with(column_lines(width, height, (k + 1) as nat)) =~= so_far.with(
                column_lines(width, height, k as nat),
            ));
            k = k + 1;
        }
        assert(self@.with(Seq::empty()) =~= self@);
    }

    fn draw_column_marks(&mut self, width: Double, height: Double)
        requires
            old(self).wf(),
            is_side(width),
            is_side(height),
        ensures
            final(self).wf(),
            !is_cut(width, 35),
            final(self)@ == old(self)@.with(column_marks(width, height, 0)),
    {
        let ghost goal = self@.with(column_marks(width, height, 0));
        let eleven = Double::from_int(11);
        let end = find_end(width);
        let size = to_tenths(13);
        let thin = ratio(1524, 10000);
        let mut k: u32 = 0;
        while k < MOST_COLUMNS && Double::from_int(35 + 50 * k as i64).less(end)
            invariant
                k <= MOST_COLUMNS,
                self.wf(),
                height.wf(),
                height.within(1000),
                end.wf(),
                end == width.spec_difference(crate::double::nearest(12, 0)),
                eleven == crate::double::nearest(11, 0),
                eleven.wf(),
                eleven.within(100),
                size == tenths(13),
                on_page(size),
                thin == crate::scene_builder::usual_width(),
                on_page(thin),
                self@.with(column_marks(width, height, k as nat)) == goal,
            ensures
                self@.with(Seq::empty()) == goal,
            decreases MOST_COLUMNS - k,
        {
            let x = Double::from_int(35 + 50 * k as i64);
            let ghost so_far = self@;
            proof {
                crate::text::decimal_is_short((k + 1) as nat);
            }
            self.push_worksheet_text(
                Point { x, y: eleven },
                to_decimal((k + 1) as u128),
                size,
                thin,
                TextAlign::Left,
                false,
            );
            self.push_worksheet_text(
                Point { x, y: height.minus(eleven) },
                to_decimal((k + 1) as u128),
                size,
                thin,
                TextAlign::Left,
                false,
            );
            assert(self@.with(column_marks(width, height, (k + 1) as nat)) =~= so_far.with(
                column_marks(width, height, k as nat),
            ));
            k = k + 1;
        }
        assert(self@.with(Seq::empty()) =~= self@);
    }

    fn draw_row_lines(&mut self, width: Double, height: Double)
        requires
            old(self).wf(),
            is_side(width),
            is_side(height),
        ensures
            final(self).wf(),
            !is_cut(height, 60),
            final(self)@ == old(self)@.with(row_lines(width, height, 0)),
    {
        let ghost goal = self@.with(row_lines(width, height, 0));
        let twelve = Double::from_int(12);
        let ten = Double::from_int(10);
        let end = find_end(height);
        let mut k: u32 = 0;
        while k < MOST_ROWS && Double::from_int(60 + 50 * k as i64).less(end)
            invariant
                k <= MOST_ROWS,
                self.wf(),
                width.wf(),
                width.within(1000),
                end.wf(),
                end == height.spec_difference(crate::double::nearest(12, 0)),
                twelve == crate::double::nearest(12, 0),
                twelve.wf(),
                twelve.within(100),
                ten == crate::double::nearest(10, 0),
                ten.wf(),
                ten.within(100),
                self@.with(row_lines(width, height, k as nat)) == goal,
            ensures
                self@.with(Seq::empty()) == goal,
            decreases MOST_ROWS - k,
        {
            let y = Double::from_int(60 + 50 * k as i64);
            let ghost so_far = self@;
            self.push_border_line(Point { x: ten, y }, Point { x: twelve, y });
            self.push_border_line(
                Point { x: width.minus(ten), y },
                Point { x: width.minus(twelve), y },
            );
            assert(self@.with(row_lines(width, height, (k + 1) as nat)) =~= so_far.with(
                row_lines(width, height, k as nat),
            ));
            k = k + 1;
        }
        assert(self@.with(Seq::empty()) =~= self@);
    }

    fn draw_row_marks(&mut self, width: Double, height: Double)
        requires
            old(self).wf(),
            is_side(width),
            is_side(height),
        ensures
            final(self).wf(),
            !is_cut(height, 35),
            final(self)@ == old(self)@.with(row_marks(width, height, 0)),
    {
        let ghost goal = self@.with(row_marks(width, height, 0));
        let eleven = Double::from_int(11);
        let end = find_end(height);
        let size = to_tenths(13);
        let thin = ratio(1524, 10000);
        let mut k: u32 = 0;
        while k < MOST_ROWS && Double::from_int(35 + 50 * k as i64).less(end)
            invariant
                k <= MOST_ROWS,
                self.wf(),
                width.wf(),
                width.within(1000),
                end.wf(),
                end == height.spec_difference(crate::double::nearest(12, 0)),
                eleven == crate::double::nearest(11, 0),
                eleven.wf(),
                eleven.within(100),
                size == tenths(13),
                on_page(size),
                thin == crate::scene_builder::usual_width(),
                on_page(thin),
                self@.with(row_marks(width, height, k as nat)) == goal,
            ensures
                self@.with(Seq::empty()) == goal,
            decreases MOST_ROWS - k,
        {
            let y = Double::from_int(35 + 50 * k as i64);
            let ghost so_far = self@;
            self.push_worksheet_text(
                Point { x: eleven, y },
                row_letter(k),
                size,
                thin,
                TextAlign::Center,
                false,
            );
            self.push_worksheet_text(
                Point { x: width.minus(eleven), y },
                row_letter(k),
                size,
                thin,
                TextAlign::Center,
                false,
            );
            assert(self@.with(row_marks(width, height, (k + 1) as nat)) =~= so_far.with(
                row_marks(width, height, k as nat),
            ));
            k = k + 1;
        }
        assert(self@.with(Seq::empty()) =~= self@);
    }

    fn push_title_line(&mut self, right: Double, bottom: Double, a: i64, b: i64, c: i64, d: i64)
        requires
            old(self).wf(),
            right.wf(),
            right.within(1500),
            bottom.wf(),
            bottom.within(1500),
            0 <= a <= 2000,
            0 <= b <= 2000,
            0 <= c <= 2000,
            0 <= d <= 2000,
        ensures
            final(self).wf(),
            final(self)@ == old(self)@.drawn(
                title_line(right, bottom, a as int, b as int, c as int, d as int),
            ),
    {
        self.push_border_line(
            Point { x: right.minus(to_tenths(a)), y: bottom.minus(to_tenths(b)) },
            Point { x: right.minus(to_tenths(c)), y: bottom.minus(to_tenths(d)) },
        );
    }

    fn push_title_text(
        &mut self,
        right: Double,
        bottom: Double,
        x: i64,
        y: i64,
        text: String,
        size: i64,
        width: i64,
        italic: bool,
    )
        requires
            old(self).wf(),
            right.wf(),
            right.within(1500),
            bottom.wf(),
            bottom.within(1500),
            0 <= x <= 2000,
            0 <= y <= 2000,
            0 <= size <= 100,
            0 <= width <= 10000,
            text@.len() <= crate::kicad_font::LONGEST,
        ensures
            final(self).wf(),
            final(self)@ == old(self)@.drawn(
                title_text(
                    right,
                    bottom,
                    x as int,
                    y as int,
                    text@,
                    size as int,
                    width as int,
                    italic,
                ),
            ),
    {
        self.push_worksheet_text(
            Point { x: right.minus(to_tenths(x)), y: bottom.minus(to_tenths(y)) },
            text,
            to_tenths(size),
            ratio(width, 10000),
            TextAlign::Left,
            italic,
        );
    }

    fn draw_title_lines(&mut self, right: Double, bottom: Double)
        requires
            old(self).wf(),
            right.wf(),
            right.within(1500),
            bottom.wf(),
            bottom.within(1500),
        ensures
            final(self).wf(),
            final(self)@ == old(self)@.with(title_lines(right, bottom)),
    {
        let ghost before = self@;
        self.push_title_line(right, bottom, 1100, 55, 20, 55);
        self.push_title_line(right, bottom, 1100, 85, 20, 85);
        self.push_title_line(right, bottom, 1100, 125, 20, 125);
        self.push_title_line(right, bottom, 1100, 185, 20, 185);
        self.push_title_line(right, bottom, 900, 85, 900, 55);
        self.push_title_line(right, bottom, 260, 85, 260, 20);
        assert(self@ =~= before.with(title_lines(right, bottom)));
    }

    fn draw_title_texts(
        &mut self,
        right: Double,
        bottom: Double,
        root: &Node,
        file_name: Option<&str>,
    )
        requires
            old(self).wf(),
            root.wf(),
            file_name matches Some(name) ==> name@.len() <= u32::MAX,
            right.wf(),
            right.within(1500),
            bottom.wf(),
            bottom.within(1500),
        ensures
            final(self).wf(),
            final(self)@ == old(self)@.with(
                title_texts(right, bottom, root@, crate::sexp::ref_view(file_name)),
            ),
    {
        let ghost before = self@;
        proof {
            reveal_strlit("Date: ");
            reveal_strlit("KiCad E.D.A. 10.0.5");
            reveal_strlit("Rev: ");
            reveal_strlit("Size: ");
            reveal_strlit("Id: 1/");
            reveal_strlit("Title: ");
            reveal_strlit("File: ");
            reveal_strlit("Sheet: /");
            reveal_strlit("schematic.kicad_sch");
        }
        let text = joined("Date: ", find_title_value(root, "date"));
        self.push_title_text(right, bottom, 870, 69, text, 15, 1524, false);
        self.push_title_text(right, bottom, 1090, 41, "KiCad E.D.A. 10.0.5".to_owned(), 15, 1524, false);
        let text = joined("Rev: ", find_title_value(root, "rev"));
        self.push_title_text(right, bottom, 240, 69, text, 15, 3000, false);
        let text = joined("Size: ", find_paper(root));
        self.push_title_text(right, bottom, 1090, 69, text, 15, 1524, false);
        let sheets = root.find_all("sheet");
        let number = to_decimal(1 + sheets.len() as u128);
        proof {
            crate::text::decimal_is_short(1 + root@.tagged("sheet"@).len());
        }
        let text = joined("Id: 1/", number.as_str());
        self.push_title_text(right, bottom, 240, 41, text, 15, 1524, false);
        let text = joined("Title: ", find_title_value(root, "title"));
        self.push_title_text(right, bottom, 1090, 107, text, 20, 4000, true);
        let file: &str = match file_name {
            Some(name) => name,
            None => "schematic.kicad_sch",
        };
        let text = joined("File: ", file);
        self.push_title_text(right, bottom, 1090, 143, text, 15, 1524, false);
        self.push_title_text(right, bottom, 1090, 170, "Sheet: /".to_owned(), 15, 1524, false);
        let text = find_title_value(root, "company").to_owned();
        self.push_title_text(right, bottom, 1090, 200, text, 15, 3000, false);
        let text = find_comment(root, 1).to_owned();
        self.push_title_text(right, bottom, 1090, 230, text, 15, 1524, false);
        let text = find_comment(root, 2).to_owned();
        self.push_title_text(right, bottom, 1090, 260, text, 15, 1524, false);
        let text = find_comment(root, 3).to_owned();
        self.push_title_text(right, bottom, 1090, 290, text, 15, 1524, false);
        let text = find_comment(root, 4).to_owned();
        self.push_title_text(right, bottom, 1090, 320, text, 15, 1524, false);
        assert(self@ =~= before.with(
            title_texts(right, bottom, root@, crate::sexp::ref_view(file_name)),
        ));
    }

    /// Draws the frame of a page and its title block. No column and no row of it is left out.
    pub fn draw_default_worksheet(
        &mut self,
        width: Double,
        height: Double,
        root: &Node,
        file_name: Option<&str>,
    )
        requires
            old(self).wf(),
            root.wf(),
            file_name matches Some(name) ==> name@.len() <= u32::MAX,
            is_side(width),
            is_side(height),
        ensures
            final(self).wf(),
            !is_cut(width, 60) && !is_cut(width, 35),
            !is_cut(height, 60) && !is_cut(height, 35),
            final(self)@ == old(self)@.with(
                worksheet(width, height, root@, crate::sexp::ref_view(file_name)),
            ),
    {
        let ghost before = self@;
        let right = width.minus(Double::from_int(10));
        let bottom = height.minus(Double::from_int(10));
        let two = Double::from_int(2);
        self.push_worksheet_outline(
            Bounds {
                min_x: right.minus(Double::from_int(110)),
                min_y: bottom.minus(Double::from_int(34)),
                max_x: right.minus(two),
                max_y: bottom.minus(two),
            },
        );
        self.draw_column_lines(width, height);
        self.draw_column_marks(width, height);
        self.draw_row_lines(width, height);
        self.draw_row_marks(width, height);
        self.draw_title_lines(right, bottom);
        self.draw_title_texts(right, bottom, root, file_name);
        assert(self@ =~= before.with(
            worksheet(width, height, root@, crate::sexp::ref_view(file_name)),
        ));
    }

    /// Draws the page of a document.
    pub fn draw_page(&mut self, root: &Node, file_name: Option<&str>)
        requires
            old(self).wf(),
            root.wf(),
            file_name matches Some(name) ==> name@.len() <= u32::MAX,
        ensures
            final(self).wf(),
            final(self)@ == old(self)@.with(page(root@, crate::sexp::ref_view(file_name))),
    {
        let ghost before = self@;
        let (width, height) = page_size(root);
        let zero = crate::kicad_font::zero();
        self.push(
            Primitive::Rect {
                bounds: Bounds { min_x: zero, min_y: zero, max_x: width, max_y: height },
                style: StrokeStyle { width_mm: zero, role: ColorRole::Page },
                fill: true,
            },
        );
        let ten = Double::from_int(10);
        self.push_worksheet_outline(
            Bounds {
                min_x: ten,
                min_y: ten,
                max_x: width.minus(ten),
                max_y: height.minus(ten),
            },
        );
        let twelve = Double::from_int(12);
        self.push_worksheet_outline(
            Bounds {
                min_x: twelve,
                min_y: twelve,
                max_x: width.minus(twelve),
                max_y: height.minus(twelve),
            },
        );
        self.draw_default_worksheet(width, height, root, file_name);
        assert(self@ =~= before.with(page(root@, crate::sexp::ref_view(file_name))));
    }
}

fn row_letter(k: u32) -> (r: String)
    requires
        k < MOST_ROWS,
    ensures
        r@ == seq![row_mark(k as nat)],
{
    let mut r = String::new();
    let letter: char = match char::from_u32(65 + k) {
        Some(c) => c,
        None => '?',
    };
    r.push(letter);
    assert(r@ =~= seq![row_mark(k as nat)]);
    r
}

fn find_title_value<'a>(root: &'a Node, tag: &str) -> (r: &'a str)
    requires
        root.wf(),
    ensures
        r@ == title_value(root@, tag@),
        r@.len() <= u32::MAX,
{
    proof {
        reveal_strlit("");
    }
    match root.find("title_block") {
        Some(block) => match block.find(tag) {
            Some(part) => match part.get_str(1) {
                Some(text) => text,
                None => "",
            },
            None => "",
        },
        None => "",
    }
}

fn find_paper(root: &Node) -> (r: &str)
    requires
        root.wf(),
    ensures
        r@ == paper(root@),
        r@.len() <= u32::MAX,
{
    proof {
        reveal_strlit("A4");
    }
    match root.find("paper") {
        Some(part) => match part.get_str(1) {
            Some(text) => text,
            None => "A4",
        },
        None => "A4",
    }
}

fn find_comment(root: &Node, number: u8) -> (r: &str)
    requires
        root.wf(),
    ensures
        r@ == comment(root@, number as int),
        r@.len() <= u32::MAX,
{
    proof {
        reveal_strlit("");
    }
    let block = match root.find("title_block") {
        Some(block) => block,
        None => {
            return "";
        },
    };
    let comments = block.find_all("comment");
    let ghost all = block@.tagged("comment"@);
    let wanted = Double::from_int(number as i64);
    let mut i: usize = 0;
    while i < comments.len()
        invariant
            i <= comments@.len(),
            all == crate::sexp::ref_sexps(comments@),
            forall|i: int| 0 <= i < comments@.len() ==> (#[trigger] comments@[i]).wf(),
            wanted == crate::double::nearest(number as int, 0),
            comment(root@, number as int) == comment_from(all, number as int, i as nat),
            ""@.len() == 0,
        decreases comments@.len() - i,
    {
        assert(all[i as int] == comments@[i as int]@);
        let found: bool = match comments[i].get_number(1) {
            Some(n) => n == wanted,
            None => false,
        };
        if found {
            return match comments[i].get_str(2) {
                Some(text) => text,
                None => "",
            };
        }
        i = i + 1;
    }
    ""
}

} // verus!
