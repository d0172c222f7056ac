//! What is painted on the window, as a list of marks.

use crate::double::{ratio, Double};
use crate::geometry::Point;
use crate::icons::UiIcon;
use crate::readers::TextAlign;
use crate::screen::{pixels, ScreenRect};
use crate::theme::Color;
use vstd::prelude::*;

verus! {

/// A colour and how much it covers, from nothing at 0 to all at 1.
#[derive(Clone, Copy, PartialEq, Eq, Structural, Debug)]
pub struct Paint {
    pub color: Color,
    pub alpha: Double,
}

/// What a mark follows.
#[derive(Clone, Copy, PartialEq, Eq, Structural, Debug)]
pub enum Outline {
    Rect(ScreenRect),
    /// A rectangle with round corners of the given radius.
    Rounded(ScreenRect, Double),
    Circle(Point, Double),
    Line(Point, Point),
}

/// What a mark is.
#[derive(Clone, Copy, PartialEq, Eq, Structural, Debug)]
pub enum Form {
    Fill(Outline),
    /// A stroke of the given width.
    Stroke(Outline, Double),
    /// Words of the given size at a place, which is their left end, middle or right end.
    Words(Double, Point, TextAlign),
    Icon(UiIcon, ScreenRect),
    /// The sheet of the given number, at a scale, moved to a place.
    Sheet(usize, Double, Point),
}

/// A mark on the window.
pub struct Mark {
    pub form: Form,
    pub paint: Paint,
    pub words: String,
}

/// A mark, as values.
#[verifier::ext_equal]
pub ghost struct Painted {
    pub form: Form,
    pub paint: Paint,
    pub words: Seq<char>,
}

impl Mark {
    pub open spec fn model(self) -> Painted {
        Painted { form: self.form, paint: self.paint, words: self.words@ }
    }
}

/// Marks, as values.
pub open spec fn painted(marks: Seq<Mark>) -> Seq<Painted> {
    marks.map_values(|m: Mark| m.model())
}

/// The colour, covering all.
pub open spec fn solid(color: Color) -> Paint {
    Paint { color, alpha: crate::screen::px(1) }
}

/// The colour, covering hundredths.
pub open spec fn sheer(color: Color, hundredths: int) -> Paint {
    Paint { color, alpha: crate::double::spec_ratio(hundredths, 100) }
}

/// The colour, covering all.
pub fn opaque(color: Color) -> (r: Paint)
    ensures
        r == solid(color),
{
    Paint { color, alpha: crate::screen::pixels(1) }
}

/// The colour, covering hundredths.
pub fn with_alpha(color: Color, hundredths: i64) -> (r: Paint)
    requires
        0 <= hundredths <= 100,
    ensures
        r == sheer(color, hundredths as int),
{
    Paint { color, alpha: ratio(hundredths, 100) }
}

pub open spec fn filled(outline: Outline, paint: Paint) -> Painted {
    Painted { form: Form::Fill(outline), paint, words: Seq::empty() }
}

pub open spec fn stroked(outline: Outline, width: Double, paint: Paint) -> Painted {
    Painted { form: Form::Stroke(outline, width), paint, words: Seq::empty() }
}

pub open spec fn worded(
    words: Seq<char>,
    size: Double,
    at: Point,
    align: TextAlign,
    paint: Paint,
) -> Painted {
    Painted { form: Form::Words(size, at, align), paint, words }
}

/// Words that begin at a place.
pub open spec fn line(words: Seq<char>, size: Double, x: Double, y: Double, paint: Paint) -> Painted {
    worded(words, size, Point { x, y }, TextAlign::Left, paint)
}

pub open spec fn pictured(icon: UiIcon, rect: ScreenRect, paint: Paint) -> Painted {
    Painted { form: Form::Icon(icon, rect), paint, words: Seq::empty() }
}

/// The marks that are painted, in order.
pub struct Canvas {
    pub marks: Vec<Mark>,
}

impl Canvas {
    pub open spec fn view(&self) -> Seq<Painted> {
        painted(self.marks@)
    }

    /// An empty window.
    pub fn new() -> (r: Canvas)
        ensures
            r@ == Seq::<Painted>::empty(),
    {
        let marks: Vec<Mark> = Vec::new();
        proof {
            assert(painted(marks@) =~= Seq::<Painted>::empty());
        }
        Canvas { marks }
    }

    /// Adds a mark.
    pub fn add(&mut self, form: Form, paint: Paint, words: String)
        ensures
            final(self)@ == old(self)@.push(Painted { form, paint, words: words@ }),
    {
        let mark = Mark { form, paint, words };
        self.marks.push(mark);
        proof {
            assert(painted(self.marks@) =~= painted(old(self).marks@).push(mark.model()));
        }
    }

    pub fn fill(&mut self, outline: Outline, paint: Paint)
        ensures
            final(self)@ == old(self)@.push(filled(outline, paint)),
    {
        let none = String::new();
        assert(none@ =~= Seq::empty());
        self.add(Form::Fill(outline), paint, none);
    }

    pub fn stroke(&mut self, outline: Outline, width: Double, paint: Paint)
        ensures
            final(self)@ == old(self)@.push(stroked(outline, width, paint)),
    {
        let none = String::new();
        assert(none@ =~= Seq::empty());
        self.add(Form::Stroke(outline, width), paint, none);
    }

    /// Words whose place is given as `align` says.
    pub fn write(&mut self, words: &str, size: Double, at: Point, align: TextAlign, paint: Paint)
        ensures
            final(self)@ == old(self)@.push(worded(words@, size, at, align, paint)),
    {
        self.add(Form::Words(size, at, align), paint, words.to_owned());
    }

    /// Words that begin at a place.
    pub fn write_line(&mut self, words: &str, size: Double, x: Double, y: Double, paint: Paint)
        ensures
            final(self)@ == old(self)@.push(line(words@, size, x, y, paint)),
    {
        self.write(words, size, Point { x, y }, TextAlign::Left, paint);
    }

    pub fn icon(&mut self, icon: UiIcon, rect: ScreenRect, paint: Paint)
        ensures
            final(self)@ == old(self)@.push(pictured(icon, rect, paint)),
    {
        let none = String::new();
        assert(none@ =~= Seq::empty());
        self.add(Form::Icon(icon, rect), paint, none);
    }
}

/// A place moved by whole pixels.
pub open spec fn off(d: Double, n: int) -> Double {
    d.spec_sum(crate::screen::px(n))
}

/// A place moved by whole pixels.
pub fn go(d: Double, n: i64) -> (r: Double)
    requires
        d.wf(),
        d.within(0x400_0000),
        -0x1_0000_0000 <= n <= 0x1_0000_0000,
    ensures
        r == off(d, n as int),
        r.wf(),
        r.within(0x401_0000),
        forall|k: int| k >= 100 && #[trigger] d.within(k) ==> r.within(k + 200),
{
    d.plus(pixels(n))
}

/// A size in tenths.
pub open spec fn tenths(n: int) -> Double {
    crate::double::spec_ratio(n, 10)
}

/// A size in tenths.
pub fn in_tenths(n: i64) -> (r: Double)
    requires
        0 <= n <= 1000,
    ensures
        r == tenths(n as int),
        r.wf(),
        r.within(400),
{
    ratio(n, 10)
}

/// A line of a panel: its words, their size in tenths of a pixel, and how far it stands below the
/// top of the panel.
pub struct Entry {
    pub words: String,
    pub tenths: i64,
    pub down: i64,
    pub paint: Paint,
}

/// A line of a panel, as a value.
#[verifier::ext_equal]
pub ghost struct Entered {
    pub words: Seq<char>,
    pub tenths: int,
    pub down: int,
    pub paint: Paint,
}

impl Entry {
    pub open spec fn model(self) -> Entered {
        Entered {
            words: self.words@,
            tenths: self.tenths as int,
            down: self.down as int,
            paint: self.paint,
        }
    }

    pub open spec fn wf(self) -> bool {
        0 <= self.tenths <= 1000 && 0 <= self.down <= 0x1_0000_0000
    }
}

/// Lines of a panel, as values.
pub open spec fn entered(lines: Seq<Entry>) -> Seq<Entered> {
    lines.map_values(|e: Entry| e.model())
}

pub open spec fn all_lines_wf(lines: Seq<Entry>) -> bool {
    forall|i: int| 0 <= i < lines.len() ==> (#[trigger] lines[i]).wf()
}

/// The words with their size, place and paint.
pub open spec fn an_entry(words: Seq<char>, tenths: int, down: int, paint: Paint) -> Entered {
    Entered { words, tenths, down, paint }
}

/// The first `n` lines of a panel whose text begins at `x` and whose top is at `y`.
pub open spec fn listed(
    marks: Seq<Painted>,
    x: Double,
    y: Double,
    lines: Seq<Entered>,
    n: nat,
) -> Seq<Painted>
    decreases n,
{
    if n == 0 {
        marks
    } else {
        let e = lines[n - 1];
        listed(marks, x, y, lines, (n - 1) as nat).push(
            line(e.words, tenths(e.tenths), x, off(y, e.down), e.paint),
        )
    }
}

/// Adds a line to a list.
pub fn enter(lines: &mut Vec<Entry>, words: String, tenths: i64, down: i64, paint: Paint)
    requires
        0 <= tenths <= 1000,
        0 <= down <= 0x1_0000_0000,
        all_lines_wf(old(lines)@),
    ensures
        all_lines_wf(final(lines)@),
        entered(final(lines)@) == entered(old(lines)@).push(
            an_entry(words@, tenths as int, down as int, paint),
        ),
{
    let entry = Entry { words, tenths, down, paint };
    lines.push(entry);
    proof {
        assert(entered(lines@) =~= entered(old(lines)@).push(entry.model()));
    }
}

impl Canvas {
    /// Writes the lines of a panel.
    pub fn list(&mut self, x: Double, y: Double, lines: &Vec<Entry>)
        requires
            y.wf(),
            y.within(0x400_0000),
            all_lines_wf(lines@),
        ensures
            final(self)@ == listed(old(self)@, x, y, entered(lines@), lines@.len()),
    {
        let mut i: usize = 0;
        while i < lines.len()
            invariant
                i <= lines@.len(),
                y.wf(),
                y.within(0x400_0000),
                all_lines_wf(lines@),
                self@ == listed(old(self)@, x, y, entered(lines@), i as nat),
            decreases lines@.len() - i,
        {
            let e = &lines[i];
            self.write_line(e.words.as_str(), in_tenths(e.tenths), x, go(y, e.down), e.paint);
            i = i + 1;
        }
    }

    /// A filled shape with an edge.
    pub fn plate(&mut self, outline: Outline, filling: Paint, width: Double, edge: Paint)
        ensures
            final(self)@ == plated(old(self)@, outline, filling, width, edge),
    {
        self.fill(outline, filling);
        self.stroke(outline, width, edge);
    }
}

/// A filled shape with an edge.
pub open spec fn plated(
    marks: Seq<Painted>,
    outline: Outline,
    filling: Paint,
    width: Double,
    edge: Paint,
) -> Seq<Painted> {
    marks.push(filled(outline, filling)).push(stroked(outline, width, edge))
}

} // verus!
