use schematic_viewer::svg_cache::{
    cache_name, choose_fallback, choose_program, find_drawn_copy, is_fresh, is_sidecar, next_step,
    snapshot_name, stable_path_hash, temporary_name, ExportStep,
};
use schematic_viewer::theme::{role_color, rgb, Color, Theme};
use schematic_viewer::scene::ColorRole;
use schematic_viewer::ui_text::{display_sheet_name, path_key, relative_time, same_path, truncate_ui};

fn relative_luminance(color: Color) -> f32 {
    let linear = |component: u8| {
        let component = f32::from(component) / 255.0;
        if component <= 0.040_45 {
            component / 12.92
        } else {
            ((component + 0.055) / 1.055).powf(2.4)
        }
    };
    0.2126 * linear(color.red) + 0.7152 * linear(color.green) + 0.0722 * linear(color.blue)
}

fn contrast_ratio(left: Color, right: Color) -> f32 {
    let left = relative_luminance(left);
    let right = relative_luminance(right);
    (left.max(right) + 0.05) / (left.min(right) + 0.05)
}

#[test]
fn sheet_names_are_humanized_without_corrupting_part_numbers() {
    assert_eq!(display_sheet_name("01_primary_bms"), "Primary BMS");
    assert_eq!(
        display_sheet_name("02_secondary_protection"),
        "Secondary Protection"
    );
    assert_eq!(display_sheet_name("6s-bms-bq40z80"), "6S BMS BQ40Z80");
}

#[test]
fn sheet_names_without_words_are_kept() {
    assert_eq!(display_sheet_name(""), "");
    assert_eq!(display_sheet_name("--"), "--");
    assert_eq!(display_sheet_name("12_"), "");
    assert_eq!(display_sheet_name("_POWER_can"), "Power CAN");
    assert_eq!(display_sheet_name("a1_b"), "A1 B");
}

#[test]
fn dark_palette_has_accessible_ui_and_schematic_contrast() {
    let palette = Theme::Dark.palette();
    for surface in [
        palette.app,
        palette.toolbar,
        palette.filmstrip,
        palette.card,
    ] {
        assert!(
            contrast_ratio(palette.text, surface) >= 7.0,
            "primary UI text must retain enhanced contrast"
        );
    }
    assert!(contrast_ratio(palette.card_border, palette.card) >= 3.0);

    for foreground in [
        palette.accent,
        palette.border,
        palette.bus,
        palette.junction,
        palette.label,
        palette.no_connect,
        palette.pin,
        palette.sheet_file,
        palette.symbol,
        palette.text,
        palette.wire,
        palette.selection,
    ] {
        assert!(
            contrast_ratio(foreground, palette.page) >= 4.5,
            "schematic foreground must remain legible on the dark page"
        );
    }
}

#[test]
fn roles_take_the_colours_of_the_palette() {
    let light = Theme::Light.palette();
    assert_eq!(light.wire, rgb(0, 150, 0));
    assert_eq!(role_color(ColorRole::GraphicText, light), light.bus);
    assert_eq!(role_color(ColorRole::PinName, light), rgb(0, 100, 100));
    assert_eq!(role_color(ColorRole::PinNumber, light), rgb(169, 0, 0));
}

#[test]
fn long_text_ends_in_an_ellipsis() {
    assert_eq!(truncate_ui("schematic", 4), "sche…");
    assert_eq!(truncate_ui("Ωmega", 5), "Ωmega");
    assert_eq!(truncate_ui("x", 0), "…");
}

#[test]
fn ages_are_told_in_the_largest_unit() {
    assert_eq!(relative_time(10_000, 9_000), "now");
    assert_eq!(relative_time(0, 4_999), "now");
    assert_eq!(relative_time(0, 5_000), "5s");
    assert_eq!(relative_time(0, 59_999), "59s");
    assert_eq!(relative_time(0, 60_000), "1m");
    assert_eq!(relative_time(0, 3_599_000), "59m");
    assert_eq!(relative_time(0, 7_300_000), "2h");
}

#[test]
fn paths_are_told_apart_by_what_they_resolve_to() {
    let real = Some("/a/b".to_owned());
    assert_eq!(path_key("x/../b", &real), "/a/b");
    assert_eq!(path_key("gone", &None), "gone");
    assert!(same_path("x", &real, "y", &real));
    assert!(same_path("/a/b", &None, "y", &real));
    assert!(!same_path("x", &None, "y", &None));
}

#[test]
fn path_hashes_are_those_of_fnv() {
    assert_eq!(stable_path_hash("", &None), 0xcbf2_9ce4_8422_2325);
    assert_eq!(stable_path_hash("a", &None), 0xaf63_dc4c_8601_ec8c);
    assert_eq!(stable_path_hash("x", &Some("foobar".to_owned())), 0x8594_4171_f739_67e8);
}

#[test]
fn kept_drawings_are_named_by_hash_time_and_length() {
    assert_eq!(
        cache_name("a", &None, 255, 16),
        "af63dc4c8601ec8c-000000000000000000000000000000ff-0000000000000010.svg"
    );
    assert_ne!(cache_name("a", &None, 255, 16), cache_name("a", &None, 255, 17));
    assert_eq!(temporary_name("t.svg", 7, 12), ".t.svg.7.12.tmp");
}

#[test]
fn the_last_copy_of_a_sheet_is_drawn() {
    assert_eq!(find_drawn_copy(&vec![true, false, true, false], "a"), Ok(2));
    assert_eq!(
        find_drawn_copy(&vec![false], "a.kicad_sch"),
        Err("sheet a.kicad_sch is absent from the discovered hierarchy".to_owned())
    );
}

#[test]
fn a_kept_drawing_is_fresh_where_it_is_newer_and_dated() {
    assert!(is_fresh(6, 5));
    assert!(!is_fresh(5, 5));
    assert!(!is_fresh(4, 5));
    assert!(!is_fresh(0, 0));
}

#[test]
fn snapshot_names_are_process_unique() {
    assert_ne!(snapshot_name(1, 0), snapshot_name(1, 1));
    assert_eq!(snapshot_name(42, 3), "konnect-schematic-fallback-42-3");
}

#[test]
fn snapshots_take_tables_projects_and_libraries() {
    assert!(is_sidecar("sym-lib-table", &None));
    assert!(is_sidecar("fp-lib-table", &None));
    assert!(is_sidecar("a.kicad_pro", &Some("kicad_pro".to_owned())));
    assert!(is_sidecar("a.kicad_sym", &Some("kicad_sym".to_owned())));
    assert!(!is_sidecar("a.kicad_sch", &Some("kicad_sch".to_owned())));
}

#[test]
fn the_drawing_program_is_the_named_or_the_first_present() {
    let places = vec!["/usr/bin/kicad-cli".to_owned(), "/snap/bin/kicad-cli".to_owned()];
    assert_eq!(choose_program(&Some("mine".to_owned()), &places, &vec![true, true]), "mine");
    assert_eq!(choose_program(&None, &places, &vec![false, true]), "/snap/bin/kicad-cli");
    assert_eq!(choose_program(&None, &places, &vec![false, false]), "kicad-cli");
}

#[test]
fn an_export_cleans_up_whatever_fails() {
    for failing in 1..5 {
        let mut step = ExportStep::Load;
        let mut cleaned = false;
        for at in 0..7 {
            cleaned |= matches!(step, ExportStep::Clean(_));
            step = next_step(step, at != 0 && at != failing);
        }
        assert!(cleaned);
        assert_eq!(step, ExportStep::Done(false));
    }
    let mut step = ExportStep::Load;
    for at in 0..7 {
        step = next_step(step, at != 0);
    }
    assert_eq!(step, ExportStep::Done(true));
    assert_eq!(next_step(ExportStep::Load, true), ExportStep::Done(true));
    assert_eq!(next_step(ExportStep::Store, false), ExportStep::Done(false));
}

#[test]
fn a_fallback_is_shown_only_where_it_is_needed_and_there() {
    let failed: Result<(), String> = Err("no".to_owned());
    let complete = choose_fallback(true, &failed, &failed);
    assert!(!complete.shown && complete.error.is_none());
    assert_eq!(choose_fallback(false, &failed, &Ok(())).error, Some("no".to_owned()));
    assert_eq!(
        choose_fallback(false, &Ok(()), &failed).error,
        Some("KiCad SVG parse failed: no".to_owned())
    );
    assert!(choose_fallback(false, &Ok(()), &Ok(())).shown);
}
