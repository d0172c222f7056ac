//! The text of the interface: which glyphs stand for it, and where.

use crate::double::Double;
use crate::font_tables::check_layout;
use crate::screen::pixels;
use crate::text::chars_of;
use vstd::prelude::*;

verus! {

/// A glyph as a font gives it, in the units of the font.
#[derive(Clone, Copy, PartialEq, Eq, Structural, Debug)]
pub struct ShapedGlyph {
    pub id: u32,
    pub x_offset: i32,
    pub y_offset: i32,
    pub x_advance: i32,
}

/// A text as a font gives it.
pub struct ShapedText {
    /// How many units of the font make the size of its letters.
    pub units_per_em: i32,
    pub glyphs: Vec<ShapedGlyph>,
}

/// A character that stands for itself in every font: a printable one of ASCII, or a sign of Latin-1.
/// None of them joins with its neighbours, is a mark on one, or comes apart into others.
pub open spec fn is_plain_char(c: char) -> bool {
    ' ' <= c <= '~' || '\u{a0}' <= c <= '\u{bf}'
}

/// No plain text is longer.
pub const LONGEST_TEXT: usize = 100;

/// A short text of plain characters.
pub open spec fn is_plain_text(text: Seq<char>) -> bool {
    text.len() <= LONGEST_TEXT && forall|i: int|
        0 <= i < text.len() ==> is_plain_char(#[trigger] text[i])
}

/// Whether a text is short and of plain characters.
pub fn check_text(text: &str) -> (r: bool)
    ensures
        r == is_plain_text(text@),
{
    let chars = chars_of(text);
    if chars.len() > LONGEST_TEXT {
        return false;
    }
    let mut i: usize = 0;
    while i < chars.len()
        invariant
            i <= chars@.len() <= LONGEST_TEXT,
            chars@ == text@,
            forall|k: int| 0 <= k < i ==> is_plain_char(#[trigger] text@[k]),
        decreases chars@.len() - i,
    {
        let c = chars[i];
        if !((' ' <= c && c <= '~') || ('\u{a0}' <= c && c <= '\u{bf}')) {
            assert(!is_plain_char(text@[i as int]));
            return false;
        }
        i = i + 1;
    }
    true
}

/// What a font makes of a text, by the font's bytes and the number of its face: the units of
/// the font and the glyphs, each by its number, its offsets across and up, and its advance.
pub uninterp spec fn shaping(font: Seq<u8>, face: u32, text: Seq<char>) -> Option<
    (i32, Seq<(u32, i32, i32, i32)>),
>;

/// The glyphs of a text, as values.
pub open spec fn glyph_values(glyphs: Seq<ShapedGlyph>) -> Seq<(u32, i32, i32, i32)> {
    glyphs.map_values(|g: ShapedGlyph| (g.id, g.x_offset, g.y_offset, g.x_advance))
}

/// `rustybuzz::shape`, on a face from `rustybuzz::Face::from_slice` and a buffer whose direction,
/// script and language are guessed: the glyphs that stand for a text. It depends on the font,
/// the face and the text alone. A font that cannot be read gives nothing, and one that can has
/// from 16 to 16384 units.
///
/// It panics, and does not always return, on fonts whose rules call each other or refer to what is
/// not there, on texts that such a rule makes too long for its buffer, and on syllables, ligatures
/// and chains of marks too long for the small integers that count them. A simple font and a plain
/// text have none of these: no rule looks around a glyph, no glyph becomes several, the script needs
/// no reordering, and at most [`LONGEST_TEXT`] glyphs are moved by at most
/// [`MOST_RULES`](crate::font_tables::MOST_RULES) rules.
#[verifier::external_body]
fn shape_text(font: &Vec<u8>, face: u32, text: &str) -> (r: Option<ShapedText>)
    requires
        crate::font_tables::is_sound_layout(font@, face),
        is_plain_text(text@),
    ensures
        match r {
            Some(shaped) => shaping(font@, face, text@) == Some(
                (shaped.units_per_em, glyph_values(shaped.glyphs@)),
            ) && 16 <= shaped.units_per_em <= 16384,
            None => shaping(font@, face, text@) is None,
        },
{
    let face = rustybuzz::Face::from_slice(font, face)?;
    let mut buffer = rustybuzz::UnicodeBuffer::new();
    buffer.push_str(text);
    buffer.guess_segment_properties();
    let shaped = rustybuzz::shape(&face, &[], buffer);
    let glyphs = shaped.glyph_infos().iter().zip(shaped.glyph_positions()).map(
        |(info, at)| ShapedGlyph {
            id: info.glyph_id,
            x_offset: at.x_offset,
            y_offset: at.y_offset,
            x_advance: at.x_advance,
        },
    ).collect();
    Some(ShapedText { units_per_em: face.units_per_em(), glyphs })
}

/// A glyph with its place, in pixels from where the text begins.
#[derive(Clone, Copy, PartialEq, Eq, Structural, Debug)]
pub struct PlacedGlyph {
    pub id: u32,
    pub x: Double,
    pub y: Double,
}

/// A text with its glyphs in place, and its width.
pub struct LaidText {
    pub glyphs: Vec<PlacedGlyph>,
    pub width: Double,
}

/// No text has more glyphs.
pub const MOST_GLYPHS: usize = 0x7fff_ffff;

/// A length in the units of a font, in pixels; all in single precision.
pub open spec fn font_length(units: i32, scale: Double) -> Double {
    crate::double::nearest(units as int, 0).spec_single().spec_product(scale).spec_single()
}

/// How many pixels a unit of a font takes at a size.
pub open spec fn font_scale(size: Double, units_per_em: i32) -> Double {
    size.spec_quotient(crate::double::nearest(units_per_em as int, 0).spec_single()).spec_single()
}

/// How far the first `n` glyphs advance.
pub open spec fn advance_of(glyphs: Seq<(u32, i32, i32, i32)>, scale: Double, n: nat) -> Double
    decreases n,
{
    if n == 0 {
        crate::screen::px(0)
    } else {
        advance_of(glyphs, scale, (n - 1) as nat).spec_sum(
            font_length(glyphs[n - 1].3, scale),
        ).spec_single()
    }
}

/// Where the `i`-th glyph stands.
pub open spec fn glyph_at(glyphs: Seq<(u32, i32, i32, i32)>, scale: Double, i: int) -> PlacedGlyph {
    PlacedGlyph {
        id: glyphs[i].0,
        x: advance_of(glyphs, scale, i as nat).spec_sum(
            font_length(glyphs[i].1, scale),
        ).spec_single(),
        y: crate::double::nearest(
            glyphs[i].2 as int,
            0,
        ).spec_single().spec_neg().spec_product(scale).spec_single(),
    }
}

/// A text as a font gives it, as values.
pub open spec fn outcome(shaped: Option<ShapedText>) -> Option<(i32, Seq<(u32, i32, i32, i32)>)> {
    match shaped {
        Some(text) => Some((text.units_per_em, glyph_values(text.glyphs@))),
        None => None,
    }
}

/// `f` shapes every text, always in the same way.
pub open spec fn is_shaper<F: Fn(String) -> Option<ShapedText>>(f: F) -> bool {
    &&& forall|text: String| #[trigger] call_requires(f, (text,))
    &&& forall|s: String, t: String, a: Option<ShapedText>, b: Option<ShapedText>|
        s@ == t@ && #[trigger] call_ensures(f, (s,), a) && #[trigger] call_ensures(f, (t,), b)
            ==> outcome(a) == outcome(b)
}

/// `f` makes `shaped` of a text.
pub open spec fn shapes_to<F: Fn(String) -> Option<ShapedText>>(
    f: F,
    text: Seq<char>,
    shaped: Option<(i32, Seq<(u32, i32, i32, i32)>)>,
) -> bool {
    exists|t: String, a: Option<ShapedText>|
        t@ == text && #[trigger] call_ensures(f, (t,), a) && outcome(a) == shaped
}

/// What `f` makes of a text.
pub open spec fn answer<F: Fn(String) -> Option<ShapedText>>(f: F, text: Seq<char>) -> Option<
    (i32, Seq<(u32, i32, i32, i32)>),
> {
    choose|shaped: Option<(i32, Seq<(u32, i32, i32, i32)>)>| shapes_to(f, text, shaped)
}

/// The font of the interface. What it makes of plain texts is known where it is simple; of all
/// others `shape` says it.
pub struct NativeFont<'a, F> {
    pub bytes: &'a Vec<u8>,
    pub face: u32,
    /// The face lays out text simply.
    pub sound: bool,
    pub shape: F,
}

impl<'a, F: Fn(String) -> Option<ShapedText> + Copy> NativeFont<'a, F> {
    pub open spec fn wf(self) -> bool {
        &&& self.sound == crate::font_tables::is_sound_layout(self.bytes@, self.face)
        &&& is_shaper(self.shape)
    }

    /// A face of a font. `shape` shapes the texts that are not plain, and all of them where the
    /// face is not simple.
    pub fn new(bytes: &'a Vec<u8>, face: u32, shape: F) -> (r: NativeFont<'a, F>)
        requires
            is_shaper(shape),
        ensures
            r.wf(),
            r.bytes@ == bytes@,
            r.face == face,
            r.shape == shape,
    {
        NativeFont { bytes, face, sound: check_layout(bytes, face), shape }
    }

    /// What the font makes of a text where it makes anything of it: the font can be read, and the
    /// glyphs are not too many.
    pub open spec fn shaped(self, text: Seq<char>) -> Option<(i32, Seq<(u32, i32, i32, i32)>)> {
        let made = if crate::font_tables::is_sound_layout(self.bytes@, self.face) && is_plain_text(
            text,
        ) {
            shaping(self.bytes@, self.face, text)
        } else {
            answer(self.shape, text)
        };
        match made {
            Some(shaped) => if shaped.0 > 0 && shaped.1.len() <= MOST_GLYPHS {
                made
            } else {
                None
            },
            None => None,
        }
    }

    /// The glyphs that the font makes of a text.
    pub open spec fn glyphs(self, text: Seq<char>) -> Seq<(u32, i32, i32, i32)> {
        match self.shaped(text) {
            Some(shaped) => shaped.1,
            None => Seq::empty(),
        }
    }

    /// The width of a text in the font at a size.
    pub open spec fn measured(self, size: Double, text: Seq<char>) -> Double {
        match self.shaped(text) {
            Some(shaped) => advance_of(shaped.1, font_scale(size, shaped.0), shaped.1.len()),
            None => crate::screen::px(0),
        }
    }

    fn shape(&self, text: &str) -> (r: Option<ShapedText>)
        requires
            self.wf(),
        ensures
            outcome(r) == (if crate::font_tables::is_sound_layout(self.bytes@, self.face)
                && is_plain_text(text@) {
                shaping(self.bytes@, self.face, text@)
            } else {
                answer(self.shape, text@)
            }),
    {
        if self.sound && check_text(text) {
            return shape_text(self.bytes, self.face, text);
        }
        let f = self.shape;
        let words = text.to_owned();
        let ghost said = words;
        let r = f(words);
        proof {
            assert(call_ensures(f, (said,), r));
            assert(shapes_to(f, text@, outcome(r)));
            assert(shapes_to(f, text@, answer(f, text@)));
        }
        r
    }

    /// The glyphs of a text at a size, in place, and its width. Nothing for a font that cannot be
    /// read, or too many glyphs.
    pub fn measure_and_glyphs(&self, size: Double, text: &str) -> (r: LaidText)
        requires
            self.wf(),
            crate::screen::plain(size),
        ensures
            match self.shaped(text@) {
                Some(shaped) => r.glyphs@ == Seq::new(
                    shaped.1.len(),
                    |i: int| glyph_at(shaped.1, font_scale(size, shaped.0), i),
                ),
                None => r.glyphs@.len() == 0,
            },
            r.width == self.measured(size, text@),
            r.width.wf(),
            r.width.within(0x200_0000_0000),
    {
        if let Some(shaped) = self.shape(text) {
            assert(glyph_values(shaped.glyphs@).len() == shaped.glyphs@.len());
            if shaped.units_per_em > 0 && shaped.glyphs.len() <= MOST_GLYPHS {
                return lay_out(shaped.units_per_em, &shaped.glyphs, size);
            }
        }
        LaidText { glyphs: Vec::new(), width: pixels(0) }
    }
}

fn to_length(units: i32, scale: Double) -> (r: Double)
    requires
        scale.wf(),
        scale.within(0x2_0000),
    ensures
        r == font_length(units, scale),
        r.wf(),
        r.within(0x3_0000),
{
    Double::from_int(units as i64).single().times(scale).single()
}

fn lift(units: i32, scale: Double) -> (r: Double)
    requires
        scale.wf(),
        scale.within(0x2_0000),
    ensures
        r == crate::double::nearest(
            units as int,
            0,
        ).spec_single().spec_neg().spec_product(scale).spec_single(),
{
    Double::from_int(units as i64).single().negated().times(scale).single()
}

/// Puts the glyphs of a text in place at a size.
pub fn lay_out(units_per_em: i32, glyphs: &Vec<ShapedGlyph>, size: Double) -> (r: LaidText)
    requires
        units_per_em > 0,
        glyphs@.len() <= MOST_GLYPHS,
        crate::screen::plain(size),
    ensures
        ({
            let scale = font_scale(size, units_per_em);
            let values = glyph_values(glyphs@);
            &&& r.glyphs@ == Seq::new(values.len(), |i: int| glyph_at(values, scale, i))
            &&& r.width == advance_of(values, scale, values.len())
        }),
        r.width.wf(),
        r.width.within(0x200_0000_0000),
{
    let units = Double::from_int(units_per_em as i64).single();
    proof {
        crate::double::single_keeps_nonzero(crate::double::nearest(units_per_em as int, 0));
    }
    let scale = size.divided_by(units).single();
    let ghost values = glyph_values(glyphs@);
    let mut placed: Vec<PlacedGlyph> = Vec::new();
    let mut width = pixels(0);
    let mut i: usize = 0;
    while i < glyphs.len()
        invariant
            i <= glyphs@.len() <= MOST_GLYPHS,
            values == glyph_values(glyphs@),
            scale == font_scale(size, units_per_em),
            scale.wf(),
            scale.within(0x2_0000),
            width == advance_of(values, scale, i as nat),
            width.wf(),
            width.within(0x4_0000 + 0x200 * i),
            placed@.len() == i,
            forall|k: int| 0 <= k < i ==> #[trigger] placed@[k] == glyph_at(values, scale, k),
        decreases glyphs@.len() - i,
    {
        let glyph = glyphs[i];
        assert(values[i as int] == (glyph.id, glyph.x_offset, glyph.y_offset, glyph.x_advance));
        placed.push(
            PlacedGlyph {
                id: glyph.id,
                x: width.plus(to_length(glyph.x_offset, scale)).single(),
                y: lift(glyph.y_offset, scale),
            },
        );
        width = width.plus(to_length(glyph.x_advance, scale)).single();
        i = i + 1;
    }
    proof {
        assert(placed@ =~= Seq::new(values.len(), |i: int| glyph_at(values, scale, i)));
    }
    LaidText { glyphs: placed, width }
}

} // verus!
