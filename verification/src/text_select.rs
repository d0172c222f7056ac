//! Text that can be selected with the pointer and copied.

use crate::double::{ratio, Double};
use crate::geometry::{greater, lesser, Bounds, Point};
use crate::native_font::{NativeFont, ShapedText};
use crate::paint::{opaque, with_alpha, Canvas, Outline};
use crate::plane::{Query, Reply};
use crate::primitives::Primitive;
use crate::readers::TextAlign;
use crate::screen::{pixels, PageTransform, ScreenRect};
use crate::text::{chars_of, joined, joined3, same, string_of, to_decimal};
use crate::theme::Palette;
use vstd::prelude::*;

verus! {

/// A text on the window, with where each of its characters begins and the last one ends.
pub struct SelectableText {
    pub text: String,
    pub rect: ScreenRect,
    pub character_x: Vec<Double>,
    /// The text is selected as a whole or not at all.
    pub select_whole: bool,
}

/// The first character that begins left of the middle of the next one, from `i` on.
pub open spec fn character_met(places: Seq<Double>, x: Double, i: nat) -> Option<int>
    decreases places.len() - i,
{
    if i + 1 >= places.len() {
        None
    } else if x.spec_less(
        places[i as int].spec_sum(places[(i + 1) as int]).spec_quotient(crate::screen::px(2)),
    ) {
        Some(i as int)
    } else {
        character_met(places, x, i + 1)
    }
}

/// The characters of a text between two places, which may stand in either order or past its end.
pub open spec fn characters_between(text: Seq<char>, a: int, b: int) -> Seq<char> {
    let low = if a <= b {
        a
    } else {
        b
    };
    let high = if a <= b {
        b
    } else {
        a
    };
    if low >= text.len() {
        Seq::empty()
    } else {
        text.subrange(
            low,
            if high <= text.len() {
                high
            } else {
                text.len() as int
            },
        )
    }
}

impl SelectableText {
    pub open spec fn wf(self) -> bool {
        &&& self.rect.calm()
        &&& self.character_x@.len() > 0
        &&& forall|i: int|
            0 <= i < self.character_x@.len() ==> (#[trigger] self.character_x@[i]).wf()
                && self.character_x@[i].within(0x1000_0000_0000)
    }

    /// A text that is selected as a whole.
    pub fn whole(text: &str, rect: ScreenRect) -> (r: SelectableText)
        requires
            rect.calm(),
        ensures
            r.text@ == text@,
            r.rect == rect,
            r.character_x@ == seq![rect.x0, rect.x1],
            r.select_whole,
            r.wf(),
    {
        let mut places: Vec<Double> = Vec::new();
        places.push(rect.x0);
        places.push(rect.x1);
        proof {
            assert(places@ =~= seq![rect.x0, rect.x1]);
        }
        SelectableText { text: text.to_owned(), rect, character_x: places, select_whole: true }
    }

    /// How many characters the text has.
    pub fn character_count(&self) -> (r: usize)
        ensures
            r == self.text@.len(),
    {
        chars_of(self.text.as_str()).len()
    }

    /// The character under `x`.
    pub open spec fn met(self, x: Double) -> int {
        if self.select_whole {
            self.text@.len() as int
        } else {
            match character_met(self.character_x@, x, 0) {
                Some(i) => i,
                None => self.text@.len() as int,
            }
        }
    }

    pub fn character_at(&self, x: Double) -> (r: usize)
        requires
            self.wf(),
            x.wf(),
        ensures
            r == self.met(x),
    {
        if self.select_whole {
            return self.character_count();
        }
        let two = pixels(2);
        let mut i: usize = 0;
        while i < self.character_x.len() - 1
            invariant
                i < self.character_x@.len(),
                self.wf(),
                x.wf(),
                two == crate::screen::px(2),
                two.wf(),
                two.within(100),
                two.mantissa != 0,
                character_met(self.character_x@, x, i as nat) == character_met(
                    self.character_x@,
                    x,
                    0,
                ),
                !self.select_whole,
            decreases self.character_x@.len() - i,
        {
            let middle = self.character_x[i].plus(self.character_x[i + 1]).divided_by(two);
            if x.less(middle) {
                return i;
            }
            i = i + 1;
        }
        self.character_count()
    }

    /// What is selected between two characters.
    pub open spec fn chosen(self, start: int, end: int) -> Seq<char> {
        if self.select_whole {
            self.text@
        } else {
            characters_between(self.text@, start, end)
        }
    }

    pub fn selected_text(&self, start: usize, end: usize) -> (r: String)
        ensures
            r@ == self.chosen(start as int, end as int),
    {
        if self.select_whole {
            return self.text.clone();
        }
        let chars = chars_of(self.text.as_str());
        let low = if start <= end {
            start
        } else {
            end
        };
        let high = if start <= end {
            end
        } else {
            start
        };
        if low >= chars.len() {
            return String::new();
        }
        let last = if high <= chars.len() {
            high
        } else {
            chars.len()
        };
        string_of(&chars, low, last)
    }

    /// Where the places of two characters stand, the last place standing for those past the end.
    pub open spec fn chosen_area(self, start: int, end: int) -> ScreenRect {
        let last = self.character_x@.len() - 1;
        let low = if start <= end {
            start
        } else {
            end
        };
        let high = if start <= end {
            end
        } else {
            start
        };
        if self.select_whole {
            self.rect
        } else {
            ScreenRect {
                x0: self.character_x@[if low <= last {
                    low
                } else {
                    last
                }],
                x1: self.character_x@[if high <= last {
                    high
                } else {
                    last
                }],
                ..self.rect
            }
        }
    }

    pub fn selection_rect(&self, start: usize, end: usize) -> (r: ScreenRect)
        requires
            self.wf(),
        ensures
            r == self.chosen_area(start as int, end as int),
            r.calm(),
    {
        if self.select_whole {
            return self.rect;
        }
        let last = self.character_x.len() - 1;
        let low = if start <= end {
            start
        } else {
            end
        };
        let high = if start <= end {
            end
        } else {
            start
        };
        let a = if low <= last {
            low
        } else {
            last
        };
        let b = if high <= last {
            high
        } else {
            last
        };
        ScreenRect {
            x0: self.character_x[a],
            y0: self.rect.y0,
            x1: self.character_x[b],
            y1: self.rect.y1,
        }
    }

    /// The same text in the same place.
    pub open spec fn same_as(self, other: SelectableText) -> bool {
        &&& self.text@ == other.text@
        &&& self.rect == other.rect
        &&& self.character_x@ == other.character_x@
        &&& self.select_whole == other.select_whole
    }

    pub fn copied(&self) -> (r: SelectableText)
        ensures
            r.same_as(*self),
    {
        let mut places: Vec<Double> = Vec::new();
        let mut i: usize = 0;
        while i < self.character_x.len()
            invariant
                i <= self.character_x@.len(),
                places@ == self.character_x@.take(i as int),
            decreases self.character_x@.len() - i,
        {
            places.push(self.character_x[i]);
            proof {
                assert(self.character_x@.take(i as int).push(self.character_x@[i as int])
                    =~= self.character_x@.take(i + 1));
            }
            i = i + 1;
        }
        proof {
            assert(self.character_x@.take(self.character_x@.len() as int) =~= self.character_x@);
        }
        SelectableText {
            text: self.text.clone(),
            rect: self.rect,
            character_x: places,
            select_whole: self.select_whole,
        }
    }
}

/// How far left of its place a text of the given width begins.
pub open spec fn shift_of(width: Double, align: TextAlign) -> Double {
    match align {
        TextAlign::Left => crate::screen::px(0),
        TextAlign::Center => width.spec_quotient(crate::screen::px(2)),
        TextAlign::Right => width,
    }
}

/// How far left of its place a text of the given width begins.
pub fn find_shift(width: Double, align: TextAlign) -> (r: Double)
    requires
        width.wf(),
        width.within(0x200_0000_0000),
    ensures
        r == shift_of(width, align),
        r.wf(),
        r.within(0x201_0000_0000),
{
    match align {
        TextAlign::Left => pixels(0),
        TextAlign::Center => width.divided_by(pixels(2)),
        TextAlign::Right => width,
    }
}

/// Where the `i`-th of `count` characters begins, in a text that they share alike.
pub open spec fn character_place(x0: Double, width: Double, i: int, count: int) -> Double {
    x0.spec_sum(
        width.spec_product(crate::screen::px(i)).spec_quotient(
            crate::screen::px(
                if count > 0 {
                    count
                } else {
                    1
                },
            ),
        ),
    )
}

fn find_place(x0: Double, width: Double, i: usize, count: usize) -> (r: Double)
    requires
        x0.wf(),
        x0.within(0x400_0000_0000),
        width.wf(),
        width.within(0x200_0000_0000),
        i <= count <= 0x1000_0000_0000,
    ensures
        r == character_place(x0, width, i as int, count as int),
        r.wf(),
        r.within(0x1000_0000_0000),
{
    let share = width.times(pixels(i as i64)).divided_by(
        pixels(
            if count > 0 {
                count as i64
            } else {
                1
            },
        ),
    );
    x0.plus(share)
}

/// Half of the height of a text of the given size.
pub open spec fn half_height(size: Double) -> Double {
    size.spec_product(crate::double::spec_ratio(58, 100))
}

/// Where a text stands that was written with the given size and width.
pub open spec fn text_area(size: Double, at: Point, align: TextAlign, width: Double) -> ScreenRect {
    let x0 = at.x.spec_difference(shift_of(width, align));
    ScreenRect {
        x0,
        y0: at.y.spec_difference(half_height(size)),
        x1: x0.spec_sum(width),
        y1: at.y.spec_sum(half_height(size)),
    }
}

/// The text that a line of words gives to select, by the width that its font gave it. A text with
/// more characters than a page could ever show is left out.
pub fn target_of(text: &str, size: Double, at: Point, align: TextAlign, width: Double) -> (r: Option<
    SelectableText,
>)
    requires
        crate::screen::plain(size),
        crate::screen::fair(at.x),
        crate::screen::fair(at.y),
        width.wf(),
        width.within(0x200_0000_0000),
    ensures
        r is Some <==> text@.len() <= 0x7fff_ffff,
        r matches Some(t) ==> {
            &&& t.wf()
            &&& t.text@ == text@
            &&& t.rect == text_area(size, at, align, width)
            &&& !t.select_whole
            &&& t.character_x@.len() == text@.len() + 1
            &&& forall|i: int|
                0 <= i <= text@.len() ==> #[trigger] t.character_x@[i] == character_place(
                    text_area(size, at, align, width).x0,
                    width,
                    i,
                    text@.len() as int,
                )
        },
{
    let chars = chars_of(text);
    if chars.len() > 0x7fff_ffff {
        return None;
    }
    let half = size.times(ratio(58, 100));
    let x0 = at.x.minus(find_shift(width, align));
    let rect = ScreenRect { x0, y0: at.y.minus(half), x1: x0.plus(width), y1: at.y.plus(half) };
    let mut places: Vec<Double> = Vec::new();
    let mut i: usize = 0;
    while i <= chars.len()
        invariant
            i <= chars@.len() + 1,
            chars@.len() <= 0x7fff_ffff,
            x0.wf(),
            x0.within(0x400_0000_0000),
            width.wf(),
            width.within(0x200_0000_0000),
            places@.len() == i,
            forall|k: int|
                0 <= k < i ==> #[trigger] places@[k] == character_place(
                    x0,
                    width,
                    k,
                    chars@.len() as int,
                ) && places@[k].wf() && places@[k].within(0x1000_0000_0000),
        decreases chars@.len() + 1 - i,
    {
        places.push(find_place(x0, width, i, chars.len()));
        i = i + 1;
    }
    Some(SelectableText { text: text.to_owned(), rect, character_x: places, select_whole: false })
}

/// The size of a text on the window, in single precision.
pub open spec fn shown_size(size: Double, ui_scale: Double) -> Double {
    size.spec_product(ui_scale).spec_single()
}

/// The words give a text to select: they show at least one glyph.
pub open spec fn is_target<F: Fn(String) -> Option<ShapedText> + Copy>(
    font: NativeFont<F>,
    words: Seq<char>,
    size: Double,
) -> bool {
    &&& words.len() > 0
    &&& crate::screen::px(0).spec_less(size)
    &&& font.glyphs(words).len() > 0
    &&& words.len() <= 0x7fff_ffff
}

/// The text is that of words at a place, in a font, at a size.
pub open spec fn is_target_of<F: Fn(String) -> Option<ShapedText> + Copy>(
    t: SelectableText,
    font: NativeFont<F>,
    words: Seq<char>,
    size: Double,
    at: Point,
    align: TextAlign,
) -> bool {
    let width = font.measured(size, words);
    let area = text_area(size, at, align, width);
    &&& t.wf()
    &&& t.text@ == words
    &&& t.rect == area
    &&& !t.select_whole
    &&& t.character_x@ == Seq::new(
        words.len() + 1,
        |i: int| character_place(area.x0, width, i, words.len() as int),
    )
}

/// The text that words on the window give to select.
pub fn find_target<F: Fn(String) -> Option<ShapedText> + Copy>(
    font: &NativeFont<F>,
    ui_scale: Double,
    words: &str,
    size: Double,
    at: Point,
    align: TextAlign,
) -> (r: Option<SelectableText>)
    requires
        font.wf(),
        size.wf(),
        size.within(1000),
        ui_scale.wf(),
        ui_scale.within(1000),
        crate::screen::fair(at.x),
        crate::screen::fair(at.y),
    ensures
        r is Some <==> is_target(*font, words@, shown_size(size, ui_scale)),
        r matches Some(t) ==> is_target_of(
            t,
            *font,
            words@,
            shown_size(size, ui_scale),
            at,
            align,
        ),
{
    let shown = size.times(ui_scale).single();
    if words.is_empty() || !pixels(0).less(shown) {
        return None;
    }
    let laid = font.measure_and_glyphs(shown, words);
    if laid.glyphs.len() == 0 {
        return None;
    }
    let r = target_of(words, shown, at, align, laid.width);
    proof {
        if r is Some {
            let t = r->0;
            assert(t.character_x@ =~= Seq::new(
                words@.len() + 1,
                |i: int|
                    character_place(
                        text_area(shown, at, align, laid.width).x0,
                        laid.width,
                        i,
                        words@.len() as int,
                    ),
            ));
        }
    }
    r
}

/// A selection that is being dragged over a text.
pub struct TextDrag {
    pub target: SelectableText,
    pub anchor: usize,
    pub current: usize,
}

/// A part of a text that is selected.
pub struct TextSelection {
    pub target: SelectableText,
    pub start: usize,
    pub end: usize,
}

/// The last of the first `n` texts that lies under the point: the one painted on top.
pub open spec fn target_under(targets: Seq<SelectableText>, x: Double, y: Double, n: nat) -> Option<
    int,
>
    decreases n,
{
    if n == 0 {
        None
    } else if targets[n - 1].rect.holds(x, y) {
        Some(n - 1)
    } else {
        target_under(targets, x, y, (n - 1) as nat)
    }
}

/// Every text can be measured.
pub open spec fn all_wf(targets: Seq<SelectableText>) -> bool {
    forall|i: int| 0 <= i < targets.len() ==> (#[trigger] targets[i]).wf()
}

/// What a press makes of the texts: the drag that begins, and what is selected at once.
pub fn start_text_selection(targets: &Vec<SelectableText>, x: Double, y: Double) -> (r: Option<
    TextDrag,
>)
    requires
        all_wf(targets@),
        x.wf(),
        y.wf(),
    ensures
        match target_under(targets@, x, y, targets@.len()) {
            None => r is None,
            Some(i) => {
                let target = targets@[i];
                r matches Some(drag) && drag.target.same_as(target) && drag.target.wf()
                    && drag.anchor == (if target.select_whole {
                    0
                } else {
                    target.met(x)
                }) && drag.current == target.met(x)
            },
        },
{
    let mut n: usize = targets.len();
    while n > 0
        invariant
            n <= targets@.len(),
            all_wf(targets@),
            x.wf(),
            y.wf(),
            target_under(targets@, x, y, n as nat) == target_under(targets@, x, y, targets@.len()),
        decreases n,
    {
        let target = &targets[n - 1];
        if target.rect.contains(x, y) {
            let current = target.character_at(x);
            let anchor = if target.select_whole {
                0
            } else {
                current
            };
            return Some(TextDrag { target: target.copied(), anchor, current });
        }
        n = n - 1;
    }
    None
}

/// What the status says where a press met no text.
pub fn no_text_status() -> (r: String)
    ensures
        r@ == "Text selection · drag over text to select"@,
{
    "Text selection · drag over text to select".to_owned()
}

impl TextDrag {
    /// What the drag selects.
    pub fn selection(&self) -> (r: TextSelection)
        ensures
            r.target.same_as(self.target),
            r.start == self.anchor,
            r.end == self.current,
    {
        TextSelection { target: self.target.copied(), start: self.anchor, end: self.current }
    }

    /// The drag goes on to `x`.
    pub fn update_text_selection(&mut self, x: Double)
        requires
            old(self).target.wf(),
            x.wf(),
        ensures
            final(self).target == old(self).target,
            final(self).anchor == old(self).anchor,
            final(self).current == old(self).target.met(x),
    {
        self.current = self.target.character_at(x);
    }

    /// What is selected when the pointer is let go: all of the text, where it has not moved over
    /// a character.
    pub open spec fn ends_at(self) -> (int, int) {
        if self.target.select_whole || self.anchor == self.current {
            (0, self.target.text@.len() as int)
        } else {
            (self.anchor as int, self.current as int)
        }
    }

    pub fn finish_text_selection(self) -> (r: (TextSelection, String))
        ensures
            r.0.target == self.target,
            (r.0.start as int, r.0.end as int) == self.ends_at(),
            r.1@ == "Selected "@ + crate::text::decimal(
                self.target.chosen(self.ends_at().0, self.ends_at().1).len(),
            ) + " character(s) · Ctrl/Command C to copy"@,
    {
        let whole = self.target.select_whole || self.anchor == self.current;
        let start: usize = if whole {
            0
        } else {
            self.anchor
        };
        let end: usize = if whole {
            self.target.character_count()
        } else {
            self.current
        };
        let selected = self.target.selected_text(start, end);
        let count = chars_of(selected.as_str()).len();
        let said = joined3(
            "Selected ",
            to_decimal(count as u128).as_str(),
            " character(s) · Ctrl/Command C to copy",
        );
        (TextSelection { target: self.target, start, end }, said)
    }
}

/// What is to be copied, or why nothing is.
pub fn text_to_copy(selection: &Option<TextSelection>) -> (r: Result<String, String>)
    ensures
        match *selection {
            None => r matches Err(e) && e@
                == "Nothing selected · enable text selection and drag text first"@,
            Some(s) => {
                let chosen = s.target.chosen(s.start as int, s.end as int);
                if chosen.len() == 0 {
                    r matches Err(e) && e@ == "The text selection is empty"@
                } else {
                    r matches Ok(t) && t@ == chosen
                }
            },
        },
{
    match selection {
        None => Err("Nothing selected · enable text selection and drag text first".to_owned()),
        Some(s) => {
            let text = s.target.selected_text(s.start, s.end);
            if text.as_str().is_empty() {
                Err("The text selection is empty".to_owned())
            } else {
                Ok(text)
            }
        },
    }
}

/// What the status says of a text that was given to the clipboard, and of why it could not be.
pub fn copy_status(text: &str, error: &Option<String>) -> (r: String)
    ensures
        r@ == match *error {
            None => "Copied "@ + crate::text::decimal(text@.len()) + " character(s)"@,
            Some(e) => "Could not copy text: "@ + e@,
        },
{
    match error {
        None => joined3(
            "Copied ",
            to_decimal(chars_of(text).len() as u128).as_str(),
            " character(s)",
        ),
        Some(e) => joined("Could not copy text: ", e.as_str()),
    }
}

/// The square of the distance between two points.
pub open spec fn square_between(a: (Double, Double), b: (Double, Double)) -> Double {
    let dx = a.0.spec_difference(b.0);
    let dy = a.1.spec_difference(b.1);
    dx.spec_product(dx).spec_sum(dy.spec_product(dy))
}

fn find_square_between(a: (Double, Double), b: (Double, Double)) -> (r: Double)
    requires
        a.0.wf(),
        a.1.wf(),
        b.0.wf(),
        b.1.wf(),
        a.0.within(0x1001_0000_0000),
        a.1.within(0x1001_0000_0000),
        b.0.within(0x1001_0000_0000),
        b.1.within(0x1001_0000_0000),
    ensures
        r == square_between(a, b),
        r.wf(),
{
    let dx = a.0.minus(b.0);
    let dy = a.1.minus(b.1);
    dx.times(dx).plus(dy.times(dy))
}

/// Of the first `n` texts, the one with the same characters that stands nearest to a point; the
/// first of several.
pub open spec fn nearest_target(
    targets: Seq<SelectableText>,
    text: Seq<char>,
    center: (Double, Double),
    n: nat,
) -> Option<int>
    decreases n,
{
    if n == 0 {
        None
    } else {
        let before = nearest_target(targets, text, center, (n - 1) as nat);
        if targets[n - 1].text@ != text {
            before
        } else {
            match before {
                None => Some(n - 1),
                Some(i) => if square_between(
                    targets[n - 1].rect.spec_center(),
                    center,
                ).spec_less(square_between(targets[i].rect.spec_center(), center)) {
                    Some(n - 1)
                } else {
                    before
                },
            }
        }
    }
}

/// Finds a selected text again among those that were painted last.
pub fn find_again(targets: &Vec<SelectableText>, selected: &SelectableText) -> (r: Option<usize>)
    requires
        all_wf(targets@),
        selected.wf(),
    ensures
        match nearest_target(
            targets@,
            selected.text@,
            selected.rect.spec_center(),
            targets@.len(),
        ) {
            None => r is None,
            Some(i) => r matches Some(k) && k == i && k < targets@.len(),
        },
{
    let center = selected.rect.center();
    let mut best: Option<(usize, Double)> = None;
    let mut n: usize = 0;
    while n < targets.len()
        invariant
            n <= targets@.len(),
            all_wf(targets@),
            center == selected.rect.spec_center(),
            center.0.wf(),
            center.1.wf(),
            center.0.within(0x1001_0000_0000),
            center.1.within(0x1001_0000_0000),
            match nearest_target(targets@, selected.text@, center, n as nat) {
                None => best is None,
                Some(i) => best matches Some((k, d)) && k == i && k < targets@.len() && d.wf() && d
                    == square_between(targets@[i].rect.spec_center(), center),
            },
        decreases targets@.len() - n,
    {
        let target = &targets[n];
        if same(target.text.as_str(), selected.text.as_str()) {
            assert(target.rect.within(0x1000_0000_0000));
            let distance = find_square_between(target.rect.center(), center);
            let nearer = match best {
                None => true,
                Some((_, least)) => distance.less(least),
            };
            if nearer {
                best = Some((n, distance));
            }
        }
        n = n + 1;
    }
    match best {
        None => None,
        Some((k, _)) => Some(k),
    }
}

/// Where a selection is painted: a veil of the accent colour in a frame of it.
pub open spec fn selection_painted(
    marks: Seq<crate::paint::Painted>,
    area: ScreenRect,
    palette: Palette,
) -> Seq<crate::paint::Painted> {
    let outline = Outline::Rounded(area, crate::screen::px(2));
    marks.push(crate::paint::filled(outline, crate::paint::sheer(palette.accent, 30))).push(
        crate::paint::stroked(outline, crate::screen::px(1), crate::paint::solid(palette.accent)),
    )
}

/// Paints what is selected, and finds it again among the texts that were painted last.
pub fn draw_text_selection(
    canvas: &mut Canvas,
    targets: &Vec<SelectableText>,
    selection: &mut Option<TextSelection>,
    palette: Palette,
)
    requires
        all_wf(targets@),
        *old(selection) matches Some(s) ==> s.target.wf(),
    ensures
        match *old(selection) {
            None => *final(selection) is None && final(canvas)@ == old(canvas)@,
            Some(before) => *final(selection) matches Some(after) && after.start == before.start
                && after.end == before.end && after.target.wf() && after.target.same_as(
                match nearest_target(
                    targets@,
                    before.target.text@,
                    before.target.rect.spec_center(),
                    targets@.len(),
                ) {
                    Some(i) => targets@[i],
                    None => before.target,
                },
            ) && final(canvas)@ == selection_painted(
                old(canvas)@,
                after.target.chosen_area(after.start as int, after.end as int),
                palette,
            ),
        },
{
    let now = match selection {
        None => None,
        Some(s) => {
            let target = match find_again(targets, &s.target) {
                Some(k) => {
                    assert(targets@[k as int].wf());
                    targets[k].copied()
                },
                None => s.target.copied(),
            };
            let area = target.selection_rect(s.start, s.end);
            let outline = Outline::Rounded(area, pixels(2));
            canvas.fill(outline, with_alpha(palette.accent, 30));
            canvas.stroke(outline, pixels(1), opaque(palette.accent));
            Some(TextSelection { target, start: s.start, end: s.end })
        },
    };
    *selection = now;
}

/// A length of the page, on the window.
pub open spec fn on_window(scale: Double, v: Double, moved: Double) -> Double {
    scale.spec_product(v).spec_sum(moved)
}

/// Where a text of the page stands on the window, with room round it.
pub open spec fn room_round(bounds: Bounds, t: PageTransform) -> ScreenRect {
    let a = Point { x: on_window(t.scale, bounds.min_x, t.x), y: on_window(t.scale, bounds.min_y, t.y) };
    let b = Point { x: on_window(t.scale, bounds.max_x, t.x), y: on_window(t.scale, bounds.max_y, t.y) };
    ScreenRect {
        x0: crate::geometry::spec_lesser(a.x, b.x).spec_difference(crate::screen::px(3)),
        y0: crate::geometry::spec_lesser(a.y, b.y).spec_difference(crate::screen::px(3)),
        x1: crate::geometry::spec_greater(a.x, b.x).spec_sum(crate::screen::px(3)),
        y1: crate::geometry::spec_greater(a.y, b.y).spec_sum(crate::screen::px(3)),
    }
}

fn put_on_window(scale: Double, v: Double, moved: Double) -> (r: Double)
    requires
        scale.wf(),
        scale.within(0x1000_0000),
        v.wf(),
        v.within(0x1000_0000),
        moved.wf(),
        moved.within(0x1000_0000),
    ensures
        r == on_window(scale, v, moved),
        r.wf(),
        r.within(0x4000_0000),
{
    scale.times(v).plus(moved)
}

/// Where a text of the page stands on the window, with room round it. The text is selected as a
/// whole.
pub fn schematic_target(text: &str, bounds: Bounds, t: PageTransform) -> (r: Option<SelectableText>)
    requires
        bounds.wf(),
        bounds.min_x.within(0x1000_0000),
        bounds.min_y.within(0x1000_0000),
        bounds.max_x.within(0x1000_0000),
        bounds.max_y.within(0x1000_0000),
        t.scale.wf(),
        t.scale.within(0x1000_0000),
        t.x.wf(),
        t.x.within(0x1000_0000),
        t.y.wf(),
        t.y.within(0x1000_0000),
    ensures
        r is None <==> text@.len() == 0,
        r matches Some(s) ==> s.wf() && s.text@ == text@ && s.select_whole && s.rect == room_round(
            bounds,
            t,
        ),
{
    if text.is_empty() {
        return None;
    }
    let ax = put_on_window(t.scale, bounds.min_x, t.x);
    let ay = put_on_window(t.scale, bounds.min_y, t.y);
    let bx = put_on_window(t.scale, bounds.max_x, t.x);
    let b_y = put_on_window(t.scale, bounds.max_y, t.y);
    let room = pixels(3);
    let rect = ScreenRect {
        x0: lesser(ax, bx).minus(room),
        y0: lesser(ay, b_y).minus(room),
        x1: greater(ax, bx).plus(room),
        y1: greater(ay, b_y).plus(room),
    };
    Some(SelectableText::whole(text, rect))
}

/// The box stands at numbers that a place on the window can be computed from.
pub open spec fn is_near(b: Bounds) -> bool {
    b.min_x.within(0x1000_0000) && b.min_y.within(0x1000_0000) && b.max_x.within(0x1000_0000)
        && b.max_y.within(0x1000_0000)
}

fn near(b: Bounds) -> (r: bool)
    ensures
        r == is_near(b),
{
    let far: i64 = 0x1000_0000;
    -far <= b.min_x.exponent && b.min_x.exponent <= far && -far <= b.min_y.exponent
        && b.min_y.exponent <= far && -far <= b.max_x.exponent && b.max_x.exponent <= far && -far
        <= b.max_y.exponent && b.max_y.exponent <= far
}

/// A text that is selected as a whole, as values.
pub ghost struct WholeText {
    pub text: Seq<char>,
    pub rect: ScreenRect,
}

/// What can be selected of a primitive: the words of a text that has any.
pub open spec fn whole_of<F: Fn(Query) -> Reply>(
    f: F,
    shape: crate::primitives::Shape,
    t: PageTransform,
) -> Option<WholeText> {
    match shape {
        crate::primitives::Shape::Text(words) => match crate::primitives::box_of(f, shape) {
            Some(b) if words.text.len() > 0 && is_near(b) => Some(
                WholeText { text: words.text, rect: room_round(b, t) },
            ),
            _ => None,
        },
        _ => None,
    }
}

/// What can be selected of the first `n` primitives.
pub open spec fn wholes_upto<F: Fn(Query) -> Reply>(
    f: F,
    shapes: Seq<crate::primitives::Shape>,
    t: PageTransform,
    n: nat,
) -> Seq<WholeText>
    decreases n,
{
    if n == 0 {
        Seq::empty()
    } else {
        let before = wholes_upto(f, shapes, t, (n - 1) as nat);
        match whole_of(f, shapes[n - 1], t) {
            Some(one) => before.push(one),
            None => before,
        }
    }
}

/// The texts are selected as wholes, and are these.
pub open spec fn are_wholes(targets: Seq<SelectableText>, wholes: Seq<WholeText>) -> bool {
    &&& targets.len() == wholes.len()
    &&& forall|i: int|
        0 <= i < targets.len() ==> (#[trigger] targets[i]).wf() && targets[i].select_whole
            && targets[i].text@ == wholes[i].text && targets[i].rect == wholes[i].rect
}

/// Adds the texts of a page that is shown where `t` says.
pub fn register_schematic_text<F: Fn(Query) -> Reply + Copy>(
    f: F,
    targets: &mut Vec<SelectableText>,
    primitives: &Vec<Primitive>,
    t: PageTransform,
)
    requires
        crate::plane::is_plane(f),
        crate::primitives::all_wf(primitives@),
        t.scale.wf(),
        t.scale.within(0x1000_0000),
        t.x.wf(),
        t.x.within(0x1000_0000),
        t.y.wf(),
        t.y.within(0x1000_0000),
    ensures
        ({
            let wholes = wholes_upto(
                f,
                crate::primitives::shapes(primitives@),
                t,
                primitives@.len(),
            );
            &&& final(targets)@.len() == old(targets)@.len() + wholes.len()
            &&& final(targets)@.take(old(targets)@.len() as int) == old(targets)@
            &&& are_wholes(final(targets)@.skip(old(targets)@.len() as int), wholes)
        }),
{
    let ghost shapes = crate::primitives::shapes(primitives@);
    let ghost first = targets@;
    let mut i: usize = 0;
    assert(targets@.take(first.len() as int) =~= first);
    while i < primitives.len()
        invariant
            i <= primitives@.len(),
            shapes == crate::primitives::shapes(primitives@),
            crate::plane::is_plane(f),
            crate::primitives::all_wf(primitives@),
            t.scale.wf(),
            t.scale.within(0x1000_0000),
            t.x.wf(),
            t.x.within(0x1000_0000),
            t.y.wf(),
            t.y.within(0x1000_0000),
            targets@.len() == first.len() + wholes_upto(f, shapes, t, i as nat).len(),
            targets@.take(first.len() as int) == first,
            are_wholes(targets@.skip(first.len() as int), wholes_upto(f, shapes, t, i as nat)),
        decreases primitives@.len() - i,
    {
        let primitive = &primitives[i];
        assert(primitive.wf());
        assert(shapes[i as int] == primitive.model());
        if let Primitive::Text(run) = primitive {
            if let Some(bounds) = primitive.bounds(f) {
                if near(bounds) {
                    if let Some(target) = schematic_target(run.text.as_str(), bounds, t) {
                        let ghost before = targets@;
                        targets.push(target);
                        proof {
                            assert(targets@.take(first.len() as int) =~= before.take(
                                first.len() as int,
                            ));
                            assert(targets@.skip(first.len() as int) =~= before.skip(
                                first.len() as int,
                            ).push(target));
                        }
                    }
                }
            }
        }
        i = i + 1;
    }
}

/// A text selected from one end to the other, in either direction, is the whole text.
pub proof fn selecting_from_end_to_end_takes_all(target: SelectableText)
    ensures
        target.chosen(0, target.text@.len() as int) == target.text@,
        target.chosen(target.text@.len() as int, 0) == target.text@,
{
    assert(target.text@.subrange(0, target.text@.len() as int) =~= target.text@);
}

/// What is selected does not depend on which end the pointer began at.
pub proof fn selecting_backwards_is_the_same(target: SelectableText, a: int, b: int)
    ensures
        target.chosen(a, b) == target.chosen(b, a),
        target.chosen_area(a, b) == target.chosen_area(b, a),
{
}

/// What the tool that selects texts turns to.
pub struct TextTool {
    /// Texts are selected.
    pub on: bool,
    /// What is selected of the texts stays so.
    pub keeps_selection: bool,
    /// What is said; where nothing is, the state of the viewer is.
    pub said: Option<String>,
}

/// Turns the tool that selects texts on or off. What is being selected is dropped either way.
pub fn toggle_text_tool(on: bool) -> (r: TextTool)
    ensures
        r.on == !on,
        r.keeps_selection == r.on,
        r.said is Some <==> r.on,
        r.said matches Some(said) ==> said@
            == "Text selection · drag text, then Ctrl/Command C to copy"@,
{
    if on {
        TextTool { on: false, keeps_selection: false, said: None }
    } else {
        TextTool {
            on: true,
            keeps_selection: true,
            said: Some("Text selection · drag text, then Ctrl/Command C to copy".to_owned()),
        }
    }
}

} // verus!
