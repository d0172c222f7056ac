//! The colours of the two themes.

use crate::scene::ColorRole;
use vstd::prelude::*;

verus! {

/// A colour by its red, green and blue parts.
#[derive(Clone, Copy, PartialEq, Eq, Structural, Debug)]
pub struct Color {
    pub red: u8,
    pub green: u8,
    pub blue: u8,
}

/// The opaque colour of the given parts.
pub fn rgb(red: u8, green: u8, blue: u8) -> (r: Color)
    ensures
        r == (Color { red, green, blue }),
{
    Color { red, green, blue }
}

/// The colours of a theme, by what they are for.
#[derive(Clone, Copy, PartialEq, Eq, Structural, Debug)]
pub struct Palette {
    /// Behind everything.
    pub app: Color,
    /// The bar of tools.
    pub toolbar: Color,
    /// The strip of sheets.
    pub filmstrip: Color,
    /// The paper.
    pub page: Color,
    /// The body of a symbol.
    pub fill: Color,
    /// A panel.
    pub card: Color,
    /// The edge of a panel.
    pub card_border: Color,
    /// What is active.
    pub accent: Color,
    /// The frame of the page.
    pub border: Color,
    /// Buses.
    pub bus: Color,
    /// Junctions.
    pub junction: Color,
    /// Labels.
    pub label: Color,
    /// Marks of pins left open.
    pub no_connect: Color,
    /// Pins.
    pub pin: Color,
    /// The file names of sheets.
    pub sheet_file: Color,
    /// Symbols.
    pub symbol: Color,
    /// Text.
    pub text: Color,
    /// Wires.
    pub wire: Color,
    /// What is selected.
    pub selection: Color,
}

#[derive(Clone, Copy, PartialEq, Eq, Structural, Debug)]
pub enum Theme {
    Dark,
    Light,
}

/// Light ink on dark paper.
pub open spec fn dark_palette() -> Palette {
    Palette {
        app: Color { red: 18, green: 22, blue: 29 },
        toolbar: Color { red: 24, green: 29, blue: 38 },
        filmstrip: Color { red: 15, green: 19, blue: 26 },
        page: Color { red: 31, green: 35, blue: 42 },
        fill: Color { red: 49, green: 55, blue: 66 },
        card: Color { red: 36, green: 42, blue: 52 },
        card_border: Color { red: 103, green: 116, blue: 137 },
        accent: Color { red: 125, green: 211, blue: 252 },
        border: Color { red: 184, green: 194, blue: 209 },
        bus: Color { red: 126, green: 164, blue: 255 },
        junction: Color { red: 113, green: 218, blue: 151 },
        label: Color { red: 238, green: 242, blue: 248 },
        no_connect: Color { red: 192, green: 167, blue: 255 },
        pin: Color { red: 255, green: 172, blue: 153 },
        sheet_file: Color { red: 255, green: 209, blue: 102 },
        symbol: Color { red: 255, green: 143, blue: 143 },
        text: Color { red: 242, green: 244, blue: 248 },
        wire: Color { red: 113, green: 218, blue: 151 },
        selection: Color { red: 255, green: 202, blue: 92 },
    }
}

/// The editor's own colours on light paper.
pub open spec fn light_palette() -> Palette {
    Palette {
        app: Color { red: 226, green: 231, blue: 242 },
        toolbar: Color { red: 245, green: 247, blue: 252 },
        filmstrip: Color { red: 235, green: 239, blue: 247 },
        page: Color { red: 245, green: 244, blue: 239 },
        fill: Color { red: 255, green: 255, blue: 194 },
        card: Color { red: 250, green: 251, blue: 254 },
        card_border: Color { red: 153, green: 164, blue: 190 },
        accent: Color { red: 190, green: 24, blue: 72 },
        border: Color { red: 132, green: 0, blue: 0 },
        bus: Color { red: 0, green: 0, blue: 194 },
        junction: Color { red: 0, green: 150, blue: 0 },
        label: Color { red: 15, green: 15, blue: 15 },
        no_connect: Color { red: 0, green: 0, blue: 132 },
        pin: Color { red: 169, green: 0, blue: 0 },
        sheet_file: Color { red: 114, green: 86, blue: 0 },
        symbol: Color { red: 132, green: 0, blue: 0 },
        text: Color { red: 0, green: 100, blue: 100 },
        wire: Color { red: 0, green: 150, blue: 0 },
        selection: Color { red: 215, green: 28, blue: 84 },
    }
}

impl Theme {
    pub open spec fn spec_palette(self) -> Palette {
        match self {
            Theme::Dark => dark_palette(),
            Theme::Light => light_palette(),
        }
    }

    /// The colours of the theme.
    pub fn palette(self) -> (r: Palette)
        ensures
            r == self.spec_palette(),
    {
        match self {
            Theme::Dark => Palette {
                app: rgb(18, 22, 29),
                toolbar: rgb(24, 29, 38),
                filmstrip: rgb(15, 19, 26),
                page: rgb(31, 35, 42),
                fill: rgb(49, 55, 66),
                card: rgb(36, 42, 52),
                card_border: rgb(103, 116, 137),
                accent: rgb(125, 211, 252),
                border: rgb(184, 194, 209),
                bus: rgb(126, 164, 255),
                junction: rgb(113, 218, 151),
                label: rgb(238, 242, 248),
                no_connect: rgb(192, 167, 255),
                pin: rgb(255, 172, 153),
                sheet_file: rgb(255, 209, 102),
                symbol: rgb(255, 143, 143),
                text: rgb(242, 244, 248),
                wire: rgb(113, 218, 151),
                selection: rgb(255, 202, 92),
            },
            Theme::Light => Palette {
                app: rgb(226, 231, 242),
                toolbar: rgb(245, 247, 252),
                filmstrip: rgb(235, 239, 247),
                page: rgb(245, 244, 239),
                fill: rgb(255, 255, 194),
                card: rgb(250, 251, 254),
                card_border: rgb(153, 164, 190),
                accent: rgb(190, 24, 72),
                border: rgb(132, 0, 0),
                bus: rgb(0, 0, 194),
                junction: rgb(0, 150, 0),
                label: rgb(15, 15, 15),
                no_connect: rgb(0, 0, 132),
                pin: rgb(169, 0, 0),
                sheet_file: rgb(114, 86, 0),
                symbol: rgb(132, 0, 0),
                text: rgb(0, 100, 100),
                wire: rgb(0, 150, 0),
                selection: rgb(215, 28, 84),
            },
        }
    }
}

/// The colour in which a part of the drawing is drawn.
pub open spec fn color_of(role: ColorRole, palette: Palette) -> Color {
    match role {
        ColorRole::Border => palette.border,
        ColorRole::Bus => palette.bus,
        ColorRole::GraphicText => palette.bus,
        ColorRole::Junction => palette.junction,
        ColorRole::Label => palette.label,
        ColorRole::NoConnect => palette.no_connect,
        ColorRole::Page => palette.page,
        ColorRole::Pin => palette.pin,
        ColorRole::PinName => palette.text,
        ColorRole::PinNumber => palette.pin,
        ColorRole::SheetFile => palette.sheet_file,
        ColorRole::Symbol => palette.symbol,
        ColorRole::Text => palette.text,
        ColorRole::Wire => palette.wire,
    }
}

/// The colour in which a part of the drawing is drawn.
pub fn role_color(role: ColorRole, palette: Palette) -> (r: Color)
    ensures
        r == color_of(role, palette),
{
    match role {
        ColorRole::Border => palette.border,
        ColorRole::Bus => palette.bus,
        ColorRole::GraphicText => palette.bus,
        ColorRole::Junction => palette.junction,
        ColorRole::Label => palette.label,
        ColorRole::NoConnect => palette.no_connect,
        ColorRole::Page => palette.page,
        ColorRole::Pin => palette.pin,
        ColorRole::PinName => palette.text,
        ColorRole::PinNumber => palette.pin,
        ColorRole::SheetFile => palette.sheet_file,
        ColorRole::Symbol => palette.symbol,
        ColorRole::Text => palette.text,
        ColorRole::Wire => palette.wire,
    }
}

/// Nothing is drawn in the colour of the paper but the page itself.
pub proof fn drawing_shows_on_the_page(role: ColorRole, theme: Theme)
    requires
        role != ColorRole::Page,
    ensures
        color_of(role, theme.spec_palette()) != theme.spec_palette().page,
{
}

} // verus!
