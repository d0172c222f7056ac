use schematic_viewer::change_timeline::{ChangeOrigin, ChangeTimeline};
use schematic_viewer::controls::{
    card_at, control_at, diagnostics_collapse_rect, diagnostics_panel_rect, edit_controls,
    scroll_film, scroll_timeline, timeline_event_rects, tool_at_point, toolbar_buttons, EditControl,
    ToolbarAction,
};
use schematic_viewer::dialogs::{LabelEdit, SheetEdit, SheetEditField};
use schematic_viewer::double::Double;
use schematic_viewer::edit_control::{
    check_commit, discard_edit_session, finish_commit, live_status, require_edit_mode,
    toggle_edit_mode, Operation, StageOutcome, Transform,
};
use schematic_viewer::edit_session::EditSession;
use schematic_viewer::editor_history::{GroupFailure, History, HistoryStep};
use schematic_viewer::encode::{
    canonical_svg_transform, encode_primitives, encode_scene_without_ranges, svg_f32, Ink, Trace,
};
use schematic_viewer::font_tables::check_layout;
use schematic_viewer::frame::{draw_page, draw_selection_box, Layer, PageView};
use schematic_viewer::geometry::{Bounds, Point};
use schematic_viewer::icons::{draw_ui_icon, UiIcon};
use schematic_viewer::launch::{
    benchmark_iterations_argument, find_drawing_scale, find_extent, is_schematic, latency_summary,
    padded_row, parse_whole,
    render_png_argument, render_svg_png_argument, schematic_argument, unpad_rows, usage, window_icon,
};
use schematic_viewer::native_font::{check_text, lay_out, NativeFont, ShapedGlyph, ShapedText};
use schematic_viewer::paint::{Canvas, Form};
use schematic_viewer::panels::{draw_label_edit, draw_sheet_edit, find_inspected};
use schematic_viewer::plane::{Query, Reply};
use schematic_viewer::pointer::{
    dispatch_move, dispatch_press, dispatch_wheel, fold_diagnostics, panel_grabbed_status,
    panel_moved_status, press_page, warning_status, Drag, Dragging, PagePress, PointerState, Press,
    Turn, Wheel,
};
use schematic_viewer::primitives::{Primitive, StrokeStyle, TextRun};
use schematic_viewer::readers::TextAlign;
use schematic_viewer::scene::{ColorRole, ObjectKind};
use schematic_viewer::scene_builder::SceneObject;
use schematic_viewer::screen::{
    focus_point, page_transform, schematic_point, set_zoom_about, Camera, Page, PageTransform,
    ScreenRect,
};
use schematic_viewer::selection::{box_status, check_transform, Selection};
use schematic_viewer::strip::{draw_filmstrip, draw_timeline, SheetCard};
use schematic_viewer::text_drawing::{draw_text, split_lines, TextGrid};
use schematic_viewer::text_select::{
    copy_status, find_again, find_target, register_schematic_text, start_text_selection, target_of, text_to_copy,
    toggle_text_tool, SelectableText,
};
use schematic_viewer::theme::Theme;
use schematic_viewer::toolbar::{
    cycle_grid, draw_toolbar, to_percent, toggle_setting, toggle_snap, toolbar_action_is_active,
    toolbar_label, SessionState, ToolState,
};
use schematic_viewer::viewer::{
    check_delete, check_duplicate, check_move, check_reload, finish_item_drag, group_failure_status,
    navigate_to_change, record_change, start_item_drag, step_status, turns_to, DragEnd, Pointing,
    Refusal,
};
use schematic_viewer::viewer_settings::ViewerSettings;
use schematic_viewer::window::{draw_window, find_targets, WindowView};

fn d(v: f64) -> Double {
    let bits = v.to_bits();
    let field = ((bits >> 52) & 0x7ff) as i64;
    let low = bits & 0xf_ffff_ffff_ffff;
    if field == 0 {
        assert_eq!(low, 0);
        return Double { negative: false, mantissa: 0, exponent: 0 };
    }
    Double { negative: v < 0.0, mantissa: low | (1 << 52), exponent: field - 1075 }
}

fn f(v: Double) -> f64 {
    let m = v.mantissa as f64 * 2f64.powi(v.exponent as i32);
    if v.negative {
        -m
    } else {
        m
    }
}

fn p(x: f64, y: f64) -> Point {
    Point { x: d(x), y: d(y) }
}

fn rect(x0: f64, y0: f64, x1: f64, y1: f64) -> ScreenRect {
    ScreenRect { x0: d(x0), y0: d(y0), x1: d(x1), y1: d(y1) }
}

fn s(text: &str) -> String {
    text.to_owned()
}

const STATUS_HEIGHT: f64 = 40.0;
const SIDEBAR_WIDTH: f64 = 96.0;

#[test]
fn toolbar_buttons_remain_inside_window() {
    let buttons = toolbar_buttons();
    assert!(!buttons.is_empty());
    for (_, rect) in buttons {
        assert!(f(rect.x0) >= 0.0);
        assert!(f(rect.x1) <= 1280.0);
        assert!(f(rect.y0) >= STATUS_HEIGHT);
        assert!(f(rect.y1) <= 480.0);
    }
}

#[test]
fn every_button_is_met_in_its_middle() {
    for (action, rect) in toolbar_buttons() {
        let (x, y) = rect.center();
        assert_eq!(tool_at_point(x, y), Some(action));
    }
    for (control, rect) in edit_controls(d(1280.0)) {
        let (x, y) = rect.center();
        assert_eq!(control_at(d(1280.0), x, y), Some(control));
    }
}

fn rays() -> Vec<Point> {
    (0..8)
        .map(|i| {
            let angle = i as f64 * std::f64::consts::FRAC_PI_4;
            p((angle.cos() * 4096.0).round() / 4096.0, (angle.sin() * 4096.0).round() / 4096.0)
        })
        .collect()
}

#[test]
fn every_toolbar_and_change_icon_encodes_without_panicking() {
    for icon in [
        UiIcon::Add,
        UiIcon::Commit,
        UiIcon::Delete,
        UiIcon::Discard,
        UiIcon::Duplicate,
        UiIcon::Edit,
        UiIcon::External,
        UiIcon::Fit,
        UiIcon::Follow,
        UiIcon::Grid,
        UiIcon::Highlight,
        UiIcon::Move,
        UiIcon::Redo,
        UiIcon::Scale,
        UiIcon::Snap,
        UiIcon::TextSelect,
        UiIcon::Theme,
        UiIcon::Transform,
        UiIcon::Undo,
        UiIcon::Wire,
        UiIcon::ZoomIn,
        UiIcon::ZoomOut,
    ] {
        let art = draw_ui_icon(icon, rect(0.0, 0.0, 32.0, 32.0), &rays());
        assert!(!art.path.is_empty() || !art.discs.is_empty());
    }
}

#[test]
fn edit_controls_are_compact_and_inside_the_minimum_window() {
    let controls = edit_controls(d(720.0));

    assert_eq!(controls.len(), 3);
    assert!(controls.iter().all(|(_, rect)| {
        f(rect.x0) >= SIDEBAR_WIDTH
            && f(rect.x1) <= 720.0
            && f(rect.y0) >= 0.0
            && f(rect.y1) <= STATUS_HEIGHT
    }));
    assert!(controls.windows(2).all(|pair| f(pair[0].1.x1) < f(pair[1].1.x0)));
}

fn omega() -> SelectableText {
    SelectableText {
        text: "AΩB".to_owned(),
        rect: rect(0.0, 0.0, 30.0, 10.0),
        character_x: vec![d(0.0), d(10.0), d(20.0), d(30.0)],
        select_whole: false,
    }
}

#[test]
fn selectable_text_extracts_unicode_ranges_without_byte_slicing() {
    let target = omega();

    assert_eq!(target.character_at(d(16.0)), 2);
    assert_eq!(target.selected_text(1, 2), "Ω");
    assert_eq!(target.selected_text(3, 1), "ΩB");
    assert_eq!(f(target.selection_rect(1, 3).x0), 10.0);
    assert_eq!(f(target.selection_rect(1, 3).x1), 30.0);
}

#[test]
fn dragging_over_a_text_selects_and_copies_it() {
    let targets = vec![omega()];
    assert!(start_text_selection(&targets, d(50.0), d(5.0)).is_none());
    let mut drag = start_text_selection(&targets, d(2.0), d(5.0)).unwrap();
    drag.update_text_selection(d(29.0));
    let (selection, status) = drag.finish_text_selection();
    assert_eq!(status, "Selected 3 character(s) · Ctrl/Command C to copy");
    assert_eq!(find_again(&targets, &selection.target), Some(0));
    let text = text_to_copy(&Some(selection)).ok().unwrap();
    assert_eq!(text, "AΩB");
    assert_eq!(copy_status(&text, &None), "Copied 3 character(s)");
    assert_eq!(copy_status(&text, &Some(s("no display"))), "Could not copy text: no display");
    assert!(text_to_copy(&None).is_err());
}

#[test]
fn a_text_ends_where_it_is_aligned() {
    let right = target_of("ab", d(10.0), p(100.0, 50.0), TextAlign::Right, d(20.0)).unwrap();
    assert_eq!(f(right.rect.x0), 80.0);
    assert_eq!(f(right.rect.x1), 100.0);
    assert_eq!(right.character_x.len(), 3);
    assert_eq!(right.character_x.iter().map(|x| f(*x)).collect::<Vec<_>>(), [80.0, 90.0, 100.0]);
}

#[test]
fn latency_summary_uses_nearest_rank_p95() {
    let mut samples = (1..=20).map(|n| d(n as f64)).collect::<Vec<_>>();

    let summary = latency_summary(&mut samples);

    assert_eq!(f(summary.mean_ms), 10.5);
    assert_eq!(f(summary.p95_ms), 19.0);
    assert_eq!(f(summary.max_ms), 20.0);
}

#[test]
fn a_drawing_fills_a_picture_at_a_whole_scale() {
    // A4 as a drawing has it: 297 by 210 millimetres at 96 pixels to the inch.
    let (across, down) = (297.0 * 96.0 / 25.4, 210.0 * 96.0 / 25.4);
    assert_eq!(f(find_drawing_scale(2970, 2100, d(across), d(down))), 10.0);
    assert_eq!(f(find_drawing_scale(3000, 2100, d(across), d(down))), 10.0);
    assert_eq!(f(find_drawing_scale(1, 1, d(across), d(down))), 1.0);
    assert_eq!(find_extent(d(297.0022), d(10.0)), 2970);
    assert_eq!(find_extent(d(0.25), d(10.0)), 3);
    assert_eq!(find_extent(d(-1.0), d(10.0)), 0);
    assert_eq!(find_extent(d(1e12), d(10.0)), u32::MAX);
}

fn arguments(all: &[&str]) -> Vec<Option<String>> {
    all.iter().map(|a| Some(s(a))).collect()
}

#[test]
fn arguments_are_read_in_order() {
    assert!(is_schematic(&Some(s("kicad_sch"))));
    assert!(!is_schematic(&Some(s("txt"))));
    assert_eq!(
        schematic_argument(&vec![Some(s("kicad_sch")), None, Some(s("kicad_sch"))]),
        Some(2)
    );
    assert_eq!(usage(), "usage: schematic-viewer <project.kicad_sch>");
    assert_eq!(render_png_argument(&arguments(&["v", "--render-png", "out.png"])), Some(2));
    assert_eq!(render_png_argument(&arguments(&["v", "--render-png"])), None);
    assert_eq!(benchmark_iterations_argument(&arguments(&["v"])), Ok(None));
    assert_eq!(
        benchmark_iterations_argument(&arguments(&["v", "--benchmark-load", "12"])),
        Ok(Some(12))
    );
    assert!(benchmark_iterations_argument(&arguments(&["v", "--benchmark-load", "0"])).is_err());
    assert!(benchmark_iterations_argument(&arguments(&["v", "--benchmark-load"])).is_err());
    let job = render_svg_png_argument(&arguments(&[
        "v", "--render-svg-png", "o.png", "800", "600", "i.svg",
    ]))
    .ok()
    .unwrap()
    .unwrap();
    assert_eq!((job.output, job.width, job.height, job.svg), (2, 800, 600, 5));
    assert!(render_svg_png_argument(&arguments(&["v", "--render-svg-png", "o", "x"])).is_err());
    assert_eq!(parse_whole("+7", 10), Some(7));
    assert_eq!(parse_whole("11", 10), None);
    assert_eq!(parse_whole("", 10), None);
}

#[test]
fn rows_lose_their_padding() {
    assert_eq!(padded_row(1), 256);
    assert_eq!(padded_row(64), 256);
    assert_eq!(padded_row(65), 512);
    assert_eq!(unpad_rows(&vec![1, 2, 3, 4, 5, 6, 7, 8], 4, 3), [1, 2, 3, 5, 6, 7]);
}

fn picture(color: png::ColorType, samples: &[u8]) -> Vec<u8> {
    let mut bytes = Vec::new();
    let mut encoder = png::Encoder::new(&mut bytes, 2, 1);
    encoder.set_color(color);
    encoder.set_depth(png::BitDepth::Eight);
    let mut writer = encoder.write_header().unwrap();
    writer.write_image_data(samples).unwrap();
    writer.finish().unwrap();
    bytes
}

#[test]
fn an_icon_has_four_bytes_for_each_pixel() {
    let samples = [1, 2, 3, 255, 4, 5, 6, 128];
    let icon = window_icon(&picture(png::ColorType::Rgba, &samples)).unwrap();
    assert_eq!(icon.pixels, samples);
    assert_eq!((icon.width, icon.height), (2, 1));
    assert!(window_icon(&picture(png::ColorType::Rgb, &[1, 2, 3, 4, 5, 6])).is_none());
    assert!(window_icon(&vec![0; 16]).is_none());
}

fn push16(bytes: &mut Vec<u8>, v: u16) {
    bytes.extend(v.to_be_bytes());
}

fn push32(bytes: &mut Vec<u8>, v: u32) {
    bytes.extend(v.to_be_bytes());
}

/// A font of 1000 units with three glyphs: 'A' is glyph 1, 600 wide, 'B' is glyph 2, 700 wide.
fn font() -> Vec<u8> {
    font_with(Vec::new())
}

/// A table with one rule, and one part of it.
fn rules(kind: u16, part: &[u16]) -> Vec<u8> {
    let mut table = Vec::new();
    for v in [1u16, 0, 0, 0, 10, 1, 4, kind, 0, 1, 8] {
        push16(&mut table, v);
    }
    for v in part {
        push16(&mut table, *v);
    }
    table
}

/// What is made of the texts that the library leaves to the program: a glyph for each character.
fn by_hand(text: String) -> Option<ShapedText> {
    let glyphs = text
        .chars()
        .map(|c| ShapedGlyph { id: c as u32, x_offset: 0, y_offset: 0, x_advance: 100 })
        .collect();
    Some(ShapedText { units_per_em: 1000, glyphs })
}

fn font_with(more: Vec<(&'static [u8; 4], Vec<u8>)>) -> Vec<u8> {
    let mut cmap = Vec::new();
    for v in [0u16, 1, 3, 1] {
        push16(&mut cmap, v);
    }
    push32(&mut cmap, 12);
    for v in [6u16, 14, 0, 65, 2, 1, 2] {
        push16(&mut cmap, v);
    }
    let mut head = Vec::new();
    push32(&mut head, 0x0001_0000);
    push32(&mut head, 0x0001_0000);
    push32(&mut head, 0);
    push32(&mut head, 0x5f0f_3cf5);
    push16(&mut head, 0);
    push16(&mut head, 1000);
    head.extend([0; 16]);
    for v in [0u16, 0, 1000, 1000, 0, 8, 2, 0, 0] {
        push16(&mut head, v);
    }
    let mut hhea = Vec::new();
    push32(&mut hhea, 0x0001_0000);
    for v in [800u16, 0xff38, 0, 700] {
        push16(&mut hhea, v);
    }
    hhea.extend([0; 22]);
    push16(&mut hhea, 3);
    let mut hmtx = Vec::new();
    for advance in [500u16, 600, 700] {
        push16(&mut hmtx, advance);
        push16(&mut hmtx, 0);
    }
    let mut maxp = Vec::new();
    push32(&mut maxp, 0x0000_5000);
    push16(&mut maxp, 3);
    let mut tables = more;
    tables.extend([
        (b"cmap", cmap),
        (b"head", head),
        (b"hhea", hhea),
        (b"hmtx", hmtx),
        (b"maxp", maxp),
    ]);
    let mut font = Vec::new();
    push32(&mut font, 0x0001_0000);
    push16(&mut font, tables.len() as u16);
    font.extend([0; 6]);
    let mut at = 12 + 16 * tables.len();
    for (name, table) in &tables {
        font.extend(name.iter());
        push32(&mut font, 0);
        push32(&mut font, at as u32);
        push32(&mut font, table.len() as u32);
        at += table.len().next_multiple_of(4);
    }
    for (_, table) in tables {
        font.extend(&table);
        font.resize(font.len().next_multiple_of(4), 0);
    }
    font
}

#[test]
fn a_font_measures_a_text() {
    let bytes = font();
    let font = NativeFont::new(&bytes, 0, by_hand);
    assert!(font.sound);
    let laid = font.measure_and_glyphs(d(10.0), "AB");
    assert_eq!(laid.glyphs.iter().map(|g| g.id).collect::<Vec<_>>(), [1, 2]);
    assert!((f(laid.glyphs[1].x) - 6.0).abs() < 1e-5);
    assert!((f(laid.width) - 13.0).abs() < 1e-5);
    let other = font.measure_and_glyphs(d(20.0), "B");
    assert!((f(other.width) - 14.0).abs() < 1e-5);
    let nothing = vec![1, 2, 3];
    let none = NativeFont::new(&nothing, 0, |_| None).measure_and_glyphs(d(10.0), "AB");
    assert_eq!((none.glyphs.len(), f(none.width)), (0, 0.0));
}

/// A table that puts glyph 2 in the place of glyph 1.
fn replaces_a_by_b() -> Vec<u8> {
    let tag = |name: &[u8; 4]| {
        [u16::from_be_bytes([name[0], name[1]]), u16::from_be_bytes([name[2], name[3]])]
    };
    let mut words = vec![1u16, 0, 10, 30, 44, 1];
    words.extend(tag(b"DFLT"));
    words.extend([8, 4, 0, 0, 0xffff, 1, 0, 1]);
    words.extend(tag(b"liga"));
    words.extend([8, 0, 1, 0, 1, 4, 1, 0, 1, 8, 1, 6, 1, 1, 1, 1]);
    let mut table = Vec::new();
    for word in words {
        push16(&mut table, word);
    }
    table
}

#[test]
fn a_simple_rule_of_a_font_is_followed() {
    let bytes = font_with(vec![(b"GSUB", replaces_a_by_b())]);
    let font = NativeFont::new(&bytes, 0, by_hand);
    assert!(font.sound);
    let laid = font.measure_and_glyphs(d(10.0), "AB");
    assert_eq!(laid.glyphs.iter().map(|g| g.id).collect::<Vec<_>>(), [2, 2]);
    assert!((f(laid.width) - 14.0).abs() < 1e-5);
}

#[test]
fn a_text_that_is_not_plain_is_left_to_the_program() {
    let bytes = font();
    let font = NativeFont::new(&bytes, 0, by_hand);
    let laid = font.measure_and_glyphs(d(10.0), "A\u{915}");
    assert_eq!(laid.glyphs.iter().map(|g| g.id).collect::<Vec<_>>(), [65, 0x915]);
    assert_eq!(f(laid.width), 2.0);
    let degrees = "\u{b0}".repeat(101);
    assert!(!check_text(&degrees));
    assert_eq!(font.measure_and_glyphs(d(10.0), &degrees).glyphs.len(), 101);
    assert!(check_text(&"\u{b0}".repeat(100)));
    assert!(check_text(" ~\u{a0}\u{bf}"));
    assert!(!check_text("\u{7f}"));
    assert!(!check_text("\u{c0}"));
    let none = NativeFont::new(&bytes, 0, |_| {
        Some(ShapedText { units_per_em: 0, glyphs: Vec::new() })
    });
    assert!(none.measure_and_glyphs(d(10.0), "\u{915}").glyphs.is_empty());
}

#[test]
fn a_font_is_sound_where_its_rules_are_simple() {
    assert!(check_layout(&font(), 0));
    for (kind, simple) in [(1, true), (2, false), (3, true), (4, true), (5, false), (6, false)] {
        assert_eq!(check_layout(&font_with(vec![(b"GSUB", rules(kind, &[1, 4, 1, 0]))]), 0), simple);
    }
    for (kind, simple) in [(1, true), (6, true), (7, false), (8, false), (0, false)] {
        assert_eq!(check_layout(&font_with(vec![(b"GPOS", rules(kind, &[1, 4, 1, 0]))]), 0), simple);
    }
    let elsewhere = |name, kind, inner| {
        check_layout(&font_with(vec![(name, rules(kind, &[1, inner, 0, 8, 1, 4, 1, 0]))]), 0)
    };
    assert!(elsewhere(b"GSUB", 7, 4));
    assert!(!elsewhere(b"GSUB", 7, 7));
    assert!(!elsewhere(b"GSUB", 9, 1));
    assert!(elsewhere(b"GPOS", 9, 4));
    assert!(!elsewhere(b"GPOS", 9, 9));
    let ranges = |first, last| {
        let part = rules(4, &[1, 4, 2, 1, first, last, 0]);
        check_layout(&font_with(vec![(b"GSUB", part)]), 0)
    };
    assert!(ranges(1, 2));
    assert!(ranges(2, 2));
    assert!(!ranges(2, 1));
    for name in [b"kern", b"kerx", b"morx", b"trak"] {
        assert!(!check_layout(&font_with(vec![(name, vec![0; 8])]), 0));
    }
    let mut bytes = font_with(vec![(b"GPOS", rules(7, &[1, 4, 1, 0]))]);
    assert!(!NativeFont::new(&bytes, 0, by_hand).sound);
    let laid = NativeFont::new(&bytes, 0, by_hand).measure_and_glyphs(d(10.0), "A");
    assert_eq!(laid.glyphs[0].id, 65);
    bytes.truncate(20);
    assert!(!check_layout(&bytes, 0));
}

#[test]
fn a_press_on_the_page_drags_pans_or_boxes() {
    assert_eq!(press_page(true, false, true, true, false), PagePress::Drag);
    assert_eq!(press_page(true, true, true, true, false), PagePress::Nothing);
    assert_eq!(press_page(true, false, false, true, true), PagePress::Nothing);
    assert_eq!(press_page(true, false, true, false, true), PagePress::Nothing);
    assert_eq!(press_page(false, false, true, true, true), PagePress::Pan);
    assert_eq!(press_page(false, true, false, false, false), PagePress::Box);
}

#[test]
fn the_panel_and_the_text_tool_say_what_they_do() {
    let mut settings = ViewerSettings { diagnostics_collapsed: false, ..Default::default() };
    assert_eq!(fold_diagnostics(&mut settings), "Design checks · collapsed");
    assert_eq!(fold_diagnostics(&mut settings), "Design checks · expanded");
    assert!(!settings.diagnostics_collapsed);
    assert!(panel_grabbed_status().starts_with("Moving design checks"));
    assert!(panel_moved_status().ends_with("position saved"));
    assert_eq!(warning_status("loose end"), "Design check · loose end");
    let on = toggle_text_tool(false);
    assert!(on.on && on.keeps_selection && on.said.is_some());
    let off = toggle_text_tool(true);
    assert!(!off.on && !off.keeps_selection && off.said.is_none());
    let grid = TextGrid::of_page();
    assert_eq!((f(grid.quantum), f(grid.epsilon)), (0.0001, 1e-7));
}

#[test]
fn a_reload_waits_for_staged_changes() {
    let mut session = EditSession::new();
    assert!(check_reload(&session).is_ok());
    session.stage_replacement(s("a"), "a.kicad_sch", "one", s("two")).unwrap();
    let refusal = check_reload(&session).err().unwrap();
    assert_eq!(refusal, Refusal::Staged);
    assert_eq!(refusal.text(), "Reload blocked · Commit or Discard staged changes first");
}

#[test]
fn glyphs_follow_each_other() {
    let glyphs = vec![
        ShapedGlyph { id: 7, x_offset: 10, y_offset: 20, x_advance: 500 },
        ShapedGlyph { id: 8, x_offset: 0, y_offset: 0, x_advance: 250 },
    ];
    let laid = lay_out(1000, &glyphs, d(1000.0));
    assert_eq!((f(laid.glyphs[0].x), f(laid.glyphs[0].y)), (10.0, -20.0));
    assert_eq!(f(laid.glyphs[1].x), 500.0);
    assert_eq!(f(laid.width), 750.0);
}

#[test]
fn a_text_of_the_window_can_be_found_by_its_font() {
    let scale = ViewerSettings::default().ui_scale;
    let bytes = font();
    let font = NativeFont::new(&bytes, 0, by_hand);
    let target =
        find_target(&font, scale, "AB", d(10.0), p(5.0, 40.0), TextAlign::Left).unwrap();
    assert_eq!(f(target.rect.x0), 5.0);
    let width = f(target.rect.x1) - f(target.rect.x0);
    assert!((width - 13.0 * f(scale)).abs() < 1e-4);
}

fn tools() -> ToolState {
    ToolState {
        grid_mm: d(1.27),
        snap_enabled: true,
        text_select_mode: false,
        settings: ViewerSettings::default(),
    }
}

#[test]
fn the_grid_comes_round_after_five_steps() {
    let mut grid = d(1.27);
    let mut seen = Vec::new();
    for _ in 0..5 {
        let (next, status) = cycle_grid(grid);
        assert!(status.starts_with("Grid"));
        grid = next;
        seen.push(f(grid));
    }
    assert_eq!(f(grid), 1.27);
    seen.sort_by(|a, b| a.total_cmp(b));
    seen.dedup();
    assert_eq!(seen.len(), 5);
}

#[test]
fn tools_tell_their_state() {
    assert_eq!(to_percent(ViewerSettings::default().ui_scale), "125%");
    assert_eq!(toggle_snap(true), (false, s("Snap · off")));
    assert!(toolbar_action_is_active(ToolbarAction::Snap, &tools()));
    assert!(!toolbar_action_is_active(ToolbarAction::Undo, &tools()));
    assert_eq!(toolbar_label(ToolbarAction::Undo, &tools()), "Undo · Ctrl/Command Z");
    let mut settings = ViewerSettings::default();
    assert!(toggle_setting(ToolbarAction::HighlightChanges, &mut settings).is_some());
    assert!(!settings.highlight_changes);
    assert!(toggle_setting(ToolbarAction::Undo, &mut settings).is_none());
}

fn page() -> Page {
    Page { width: d(297.0), height: d(210.0) }
}

#[test]
fn a_place_on_the_page_is_found_again_on_the_window() {
    let (width, height) = (d(1280.0), d(800.0));
    let camera = Camera::fit();
    let t = page_transform(width, height, page(), camera);
    let x = f(t.x) + 100.0 * f(t.scale);
    let y = f(t.y) + 50.0 * f(t.scale);
    let point = schematic_point(width, height, page(), camera, d(x), d(y));
    assert!((f(point.x) - 100.0).abs() < 1e-9);
    assert!((f(point.y) - 50.0).abs() < 1e-9);
    let zoomed = set_zoom_about(width, height, page(), camera, d(2.0), d(x), d(y));
    assert_eq!(f(zoomed.zoom), 2.0);
    let kept = schematic_point(width, height, page(), zoomed, d(x), d(y));
    assert!((f(kept.x) - 100.0).abs() < 1e-6);
    let focused = focus_point(width, height, page(), p(10.0, 10.0));
    assert!(f(focused.zoom) > 1.0);
}

#[test]
fn cards_lie_side_by_side() {
    assert_eq!(card_at(3, d(800.0), d(0.0), d(1.0), d(1.0)), None);
    assert_eq!(f(scroll_film(d(0.0), d(-50.0), 1, d(1280.0))), 0.0);
    assert_eq!(scroll_timeline(0, d(1.0), 0, d(1280.0)), 0);
}

fn timeline() -> ChangeTimeline {
    let mut timeline = ChangeTimeline::new();
    let mut pointing = Pointing { highlighted: None, follow: None, scroll: 3 };
    let first = record_change(
        &mut timeline,
        &mut pointing,
        true,
        ChangeOrigin::Local,
        s("Move R1"),
        s("root.kicad_sch"),
        &vec![s("r1"), s("r1")],
        1_000,
        10,
    );
    assert_eq!(pointing.highlighted, Some(first));
    assert!(navigate_to_change(&timeline, &mut pointing, true, first).is_some());
    assert!(navigate_to_change(&timeline, &mut pointing, true, first + 99).is_none());
    timeline
}

#[test]
fn changes_are_pointed_out_when_they_are_recorded() {
    let timeline = timeline();
    let shown = timeline_event_rects(&timeline, 0, d(1280.0), d(800.0));
    assert_eq!(shown.len(), 1);
    let mut canvas = Canvas::new();
    draw_timeline(
        &mut canvas,
        d(1280.0),
        d(800.0),
        &timeline,
        0,
        Some(shown[0].id),
        20,
        2_000,
        Theme::Dark.palette(),
    );
    assert!(canvas.marks.iter().any(|mark| mark.words.contains("Move R1")));
}

fn object(uuid: &str, kind: ObjectKind) -> SceneObject {
    let bounds = Bounds { min_x: d(1.0), min_y: d(1.0), max_x: d(2.0), max_y: d(2.0) };
    SceneObject {
        uuid: s(uuid),
        kind,
        item_type: 70,
        label: s(uuid),
        search_text: s(uuid),
        properties: Vec::new(),
        bounds,
        index_bounds: bounds,
        initial_index_bounds: bounds,
        first: 0,
        end: 1,
    }
}

#[test]
fn what_is_selected_decides_what_can_be_done() {
    let objects = vec![object("r1", ObjectKind::Symbol), object("w1", ObjectKind::Wire)];
    let mut session = EditSession::new();
    let mut selection = Selection::new();
    assert_eq!(check_delete(&session, &selection).err(), Some(Refusal::ReadOnly));
    session.set_enabled(true);
    assert_eq!(check_delete(&session, &selection).err(), Some(Refusal::NothingToDelete));
    assert_eq!(check_move(&session, &selection, &objects).err(), Some(Refusal::NothingToMove));
    assert_eq!(check_duplicate(&session, &selection, &objects).err(), Some(Refusal::NotOne));
    selection.click("w1", false);
    assert_eq!(check_duplicate(&session, &selection, &objects).err(), Some(Refusal::NotASymbol));
    assert!(check_delete(&session, &selection).is_ok());
    assert!(check_transform(&selection, &objects, Transform::MirrorX).is_err());
    selection.click("r1", false);
    assert_eq!(selection.uuids, ["r1"]);
    assert!(check_duplicate(&session, &selection, &objects).is_ok());
    selection.click("w1", true);
    assert_eq!(selection.len(), 2);
    selection.click("w1", true);
    assert_eq!(selection.len(), 1);
    assert_eq!(find_inspected(&selection, &objects), Some(0));
    assert_eq!(start_item_drag(&objects, &selection, &vec![s("w1")]).len(), 2);
    let mut boxed = Selection::new();
    boxed.add_boxed(&objects, p(0.0, 0.0), p(3.0, 3.0));
    assert_eq!(boxed.len(), 2);
    assert!(box_status(2).contains('2'));
    boxed.keep_present(&vec![object("r1", ObjectKind::Symbol)]);
    assert_eq!(boxed.uuids, ["r1"]);
}

#[test]
fn a_drag_ends_where_the_grid_says() {
    assert!(matches!(finish_item_drag(d(0.5), Some((d(1.0), d(0.0)))), DragEnd::Nothing));
    assert!(matches!(
        finish_item_drag(d(30.0), Some((d(0.0), d(0.0)))),
        DragEnd::SnappedBack
    ));
    assert!(matches!(
        finish_item_drag(d(30.0), Some((d(1.27), d(0.0)))),
        DragEnd::Move(x, _) if f(x) == 1.27
    ));
    assert!(turns_to(1, 0, 2));
    assert!(!turns_to(0, 0, 2));
    assert!(!turns_to(2, 0, 2));
}

#[test]
fn a_session_is_committed_or_discarded() {
    let mut session = EditSession::new();
    let mut history: History<u32> = History::new();
    assert!(require_edit_mode(&session).is_err());
    toggle_edit_mode(&mut session);
    assert!(require_edit_mode(&session).is_ok());
    assert!(check_commit(&session, false, true).is_err());
    session.stage_replacement(s("a"), "a", "one", s("two")).unwrap();
    assert!(check_commit(&session, true, true).is_err());
    assert!(check_commit(&session, false, false).is_err());
    assert!(check_commit(&session, false, true).is_ok());
    assert!(finish_commit(&mut session, &mut history, Err(s("disk full"))).is_err());
    assert!(session.has_pending());
    assert!(finish_commit(&mut session, &mut history, Ok(())).is_ok());
    assert!(!session.has_pending());
    session.stage_replacement(s("a"), "a", "two", s("three")).unwrap();
    session.mark_external_change(&vec![s("a")]);
    let discarded = discard_edit_session(&mut session, &mut history).ok().unwrap();
    assert_eq!(discarded.files, ["a"]);
    assert!(discarded.changed_outside);
    assert!(!session.has_pending());
    assert!(live_status(&session, 2, &None).contains('2'));
}

#[test]
fn outcomes_are_reported() {
    let moved = Operation::Move(2, d(1.27), d(-2.54));
    let staged = moved.report(&StageOutcome::Staged(false));
    assert!(staged.contains("2"));
    let conflict = Operation::Delete(1).report(&StageOutcome::Conflict(s("changed")));
    assert!(conflict.contains("changed"));
    let failed = Operation::Wire(true).report(&StageOutcome::Failed(s("no room")));
    assert!(failed.contains("no room"));
    assert!(step_status(&HistoryStep::<u32>::Nothing, true).is_some());
    assert!(group_failure_status(GroupFailure::Rejected, "a.kicad_sch", "e").contains("e"));
}

fn pointer(x: f64, y: f64) -> PointerState {
    PointerState {
        width: d(1280.0),
        height: d(800.0),
        x: d(x),
        y: d(y),
        settings: ViewerSettings::default(),
        warnings: 0,
        text_select_mode: false,
        wire_draft: false,
        sheets: 0,
        film_scroll: d(0.0),
        timeline_scroll: 0,
    }
}

#[test]
fn a_press_goes_to_what_lies_under_it() {
    let timeline = ChangeTimeline::new();
    let (x, y) = toolbar_buttons()[0].1.center();
    assert_eq!(
        dispatch_press(&pointer(f(x), f(y)), &timeline),
        Press::Tool(ToolbarAction::Undo)
    );
    let (x, y) = edit_controls(d(1280.0))[1].1.center();
    assert_eq!(
        dispatch_press(&pointer(f(x), f(y)), &timeline),
        Press::Control(EditControl::Commit)
    );
    assert_eq!(dispatch_press(&pointer(600.0, 300.0), &timeline), Press::Page);
    let drafting = PointerState { wire_draft: true, ..pointer(600.0, 300.0) };
    assert_eq!(dispatch_press(&drafting, &timeline), Press::Wire);
}

#[test]
fn a_drag_has_one_owner() {
    let none = Dragging {
        panel: false,
        text: false,
        wire: false,
        items: false,
        selection_box: false,
        page: false,
    };
    assert_eq!(dispatch_move(none), Drag::Nothing);
    assert_eq!(dispatch_move(Dragging { page: true, items: true, ..none }), Drag::Items);
    assert!(matches!(
        dispatch_wheel(d(1280.0), d(800.0), d(600.0), d(300.0), Turn::Lines(d(0.0), d(1.0))),
        Wheel::Zoom(_)
    ));
}

#[test]
fn the_panel_of_warnings_stays_in_its_room() {
    let settings = ViewerSettings::default();
    let panel = diagnostics_panel_rect(d(1280.0), d(800.0), &settings, 3);
    assert!(f(panel.x0) >= 0.0 && f(panel.x1) <= 1280.0);
    let fold = diagnostics_collapse_rect(panel);
    assert!(f(fold.x1) <= f(panel.x1));
}

fn line(x: f64) -> Primitive {
    Primitive::Line {
        from: p(x, 0.0),
        to: p(x, 1.0),
        style: StrokeStyle { width_mm: d(0.1524), role: ColorRole::Wire },
    }
}

#[test]
fn excluded_ranges_are_left_out_and_nothing_else() {
    let all = vec![line(0.0), line(1.0), line(2.0)];
    let palette = Theme::Light.palette();
    assert_eq!(encode_primitives(&all, 0, 3, palette).len(), 3);
    let kept = encode_scene_without_ranges(&all, 0, 3, &vec![(1, 2)], palette);
    assert_eq!(kept.len(), 2);
    assert!(matches!(&kept[1].trace, Trace::Line(from, _) if f(from.x) == 2.0));
    assert!(matches!(&kept[0].ink, Ink::Stroke { .. }));
}

#[test]
fn numbers_of_a_picture_have_four_decimals() {
    assert_eq!(f(svg_f32(d(1.23456789))), 1.2346f32 as f64);
    let id: Vec<Double> = [1.0, 0.0, 0.0, 1.0, 5.0, 6.0].iter().map(|v| d(*v)).collect();
    assert_eq!(canonical_svg_transform(&id).len(), 6);
}

#[test]
fn a_text_has_a_line_for_each_break() {
    assert_eq!(split_lines("a\nb\nc"), ["a", "b", "c"]);
    let run = TextRun {
        position: p(10.0, 20.0),
        rotation_deg: d(0.0),
        size_mm: d(1.27),
        stroke_width_mm: d(0.1524),
        align: TextAlign::Left,
        italic: false,
        role: ColorRole::GraphicText,
        text: s("I"),
    };
    let grid = TextGrid { quantum: d(0.0001), epsilon: d(0.0) };
    let strokes = draw_text(&run, p(1.0, 0.0), grid);
    assert!(!strokes.is_empty());
}

#[test]
fn dialogs_show_what_is_typed() {
    let palette = Theme::Dark.palette();
    let mut canvas = Canvas::new();
    draw_label_edit(
        &mut canvas,
        d(1280.0),
        palette,
        &LabelEdit { point: p(1.0, 1.0), value: s("NET_1") },
    );
    assert!(canvas.marks.iter().any(|mark| mark.words.contains("NET_1")));
    let sheet = SheetEdit {
        point: p(1.0, 1.0),
        name: s("Power"),
        file: s("power.kicad_sch"),
        field: SheetEditField::Name,
    };
    draw_sheet_edit(&mut canvas, d(1280.0), palette, &sheet);
    assert!(canvas.marks.iter().any(|mark| mark.words.contains("power.kicad_sch")));
    draw_selection_box(&mut canvas, p(5.0, 5.0), p(1.0, 9.0), palette);
    assert!(matches!(canvas.marks.last().unwrap().form, Form::Stroke(_, _) | Form::Fill(_)));
}

#[test]
fn the_window_shows_its_parts() {
    let cards = vec![SheetCard { page: page(), name: s("Root"), depth: 0, complete: true }];
    let selection = Selection::new();
    let objects = Vec::new();
    let warnings = Vec::new();
    let timeline = timeline();
    let bytes = font();
    let font = NativeFont::new(&bytes, 0, by_hand);
    let tools = tools();
    let view = WindowView {
        width: d(1280.0),
        height: d(800.0),
        palette: Theme::Light.palette(),
        filename: "root.kicad_sch",
        status: "Live",
        session: SessionState { editing: false, pending: 0, conflicted: false },
        tools: &tools,
        cursor: None,
        selection_box: None,
        scroll: d(0.0),
        cards: &cards,
        active: 0,
        timeline: &timeline,
        timeline_scroll: 0,
        highlighted: None,
        now: 20,
        wall: 2_000,
        preview: None,
        warnings: &warnings,
        selection: &selection,
        objects: &objects,
        search: None,
        property: None,
        label: None,
        sheet: None,
        sheet_pin: None,
    };
    let canvas = draw_window(&view, &font);
    let has = |text: &str| canvas.marks.iter().any(|mark| mark.words.contains(text));
    assert!(has("root.kicad_sch"));
    assert!(has("Live"));
    assert!(has("Root"));
    assert!(has("Move R1"));
    assert!(!has("NET_1"));
    let mut targets = Vec::new();
    find_targets(&mut targets, &canvas, &font, tools.settings.ui_scale);
    assert!(targets.iter().any(|target| target.text.contains("root.kicad_sch")));
}

#[test]
fn the_page_is_drawn_in_layers() {
    let primitives = vec![line(0.0)];
    let objects = vec![object("w1", ObjectKind::Wire)];
    let warnings = Vec::new();
    let wires = Vec::new();
    let mut selection = Selection::new();
    selection.click("w1", false);
    let view = PageView {
        primitives: &primitives,
        objects: &objects,
        warnings: &warnings,
        complete: true,
        has_foreign: false,
        scale: d(4.0),
        dragging: false,
        delta: None,
        dragged_wires: &wires,
        draft: None,
        highlight: None,
        selection: &selection,
    };
    let layers = draw_page(&view, Theme::Light.palette());
    assert!(matches!(layers[0], Layer::Sheet { foreign: false }));
    assert!(layers.iter().any(|l| matches!(l, Layer::Marks(marks) if !marks.is_empty())));
    let dragged = PageView { dragging: true, delta: Some((d(1.27), d(0.0))), ..view };
    let layers = draw_page(&dragged, Theme::Light.palette());
    assert!(matches!(layers[0], Layer::DragBase));
    assert!(layers.iter().any(|l| matches!(l, Layer::Moved(_, x, _) if f(*x) == 1.27)));
}

fn level(query: Query) -> Reply {
    let first = match query {
        Query::Direction(_) | Query::Heading(_) => p(1.0, 0.0),
        Query::Placed(point, _) => point,
        Query::Length(v) => p(f(v.x).hypot(f(v.y)), 0.0),
        Query::Angle(v) => p(f(v.y).atan2(f(v.x)), 0.0),
        Query::Wrapped(radians) => Point { x: radians, y: d(0.0) },
    };
    Reply { first }
}

#[test]
fn texts_of_the_page_are_selected_as_wholes() {
    let run = TextRun {
        position: p(10.0, 20.0),
        rotation_deg: d(0.0),
        size_mm: d(1.27),
        stroke_width_mm: d(0.1524),
        align: TextAlign::Left,
        italic: false,
        role: ColorRole::GraphicText,
        text: s("NOTE"),
    };
    let primitives = vec![line(0.0), Primitive::Text(run)];
    let mut targets = vec![omega()];
    let t = PageTransform { scale: d(2.0), x: d(100.0), y: d(50.0) };
    register_schematic_text(level, &mut targets, &primitives, t);
    assert_eq!(targets.len(), 2);
    assert!(targets[1].select_whole);
    assert_eq!(targets[1].selected_text(0, 0), "NOTE");
    assert!(targets[1].rect.contains(d(122.0), d(90.0)));
}
