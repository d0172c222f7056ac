use schematic_viewer::double::Double;
use schematic_viewer::geometry::Point;
use schematic_viewer::kicad_font::{
    boundary_width, formatted_characters, glyph, layout_width, multiline_offset, quantize_advance,
    quantize_point, text_width,
};

fn d(v: f64) -> Double {
    let bits = v.to_bits();
    let field = ((bits >> 52) & 0x7ff) as i64;
    let low = bits & 0xf_ffff_ffff_ffff;
    if field == 0 {
        assert_eq!(low, 0);
        return Double { negative: false, mantissa: 0, exponent: 0 };
    }
    Double { negative: v < 0.0, mantissa: low | (1 << 52), exponent: field - 1075 }
}

fn f(v: Double) -> f64 {
    let m = v.mantissa as f64 * 2f64.powi(v.exponent as i32);
    if v.negative {
        -m
    } else {
        m
    }
}

const INTER_CHARACTER: f64 = 0.2;

#[test]
fn basic_latin_table_matches_the_declared_range() {
    for code in 0x20u8..0x80 {
        assert!(glyph(code as char).len() >= 2);
    }
    assert_eq!(glyph(' '), "JZ");
    assert_eq!(
        glyph('0'),
        r#"H\QFSFUGVHWJXNXSWWVYUZS[Q[OZNYMWLSLNMJNHOGQF"#
    );
}

#[test]
fn unsupported_codepoints_use_the_question_mark() {
    assert_eq!(glyph('🙂'), glyph('?'));
}

#[test]
fn kicad_width_uses_newstroke_metrics() {
    let expected = (61.0 / 21.0 - INTER_CHARACTER) * 1.27;
    assert!((f(text_width("C31", d(1.27))) - expected).abs() < 1e-12);
}

#[test]
fn layout_extent_includes_kicad_stroke_allowance() {
    assert!((f(layout_width("HB_IN", d(1.27), d(0.1524))) - 5.706_533_333_333_334).abs() < 1e-12);
}

#[test]
fn boundary_extent_reproduces_kicad_integer_rounding() {
    let actual = f(boundary_width("PACK_N", d(1.27), d(0.1588), d(0.0001)));
    assert!((actual - 7.4191).abs() < 1e-12, "actual={actual:.10}");
}

#[test]
fn alignment_uses_cursor_width_not_svg_text_extent() {
    let width = f(text_width("U2", d(1.27))) + INTER_CHARACTER * 1.27;
    assert!((width - 2.54).abs() < 1e-12);
}

#[test]
fn kicad_integer_pipeline_rounds_advances_and_truncates_endpoints() {
    assert_eq!(f(quantize_advance(d(0.000_16), d(0.000_1))), 0.000_2);
    let point = quantize_point(Point { x: d(-0.000_16), y: d(0.000_16) }, d(0.000_1), d(0.0));
    assert_eq!(f(point.x), f64::from(-0.000_1_f32));
    assert_eq!(f(point.y), f64::from(0.000_1_f32));
}

#[test]
fn worksheet_quantization_repairs_only_configured_integer_boundary_noise() {
    let worksheet =
        quantize_point(Point { x: d(196.521_699_999_999_98), y: d(0.0) }, d(0.000_1), d(1e-7));
    assert_eq!(f(worksheet.x), f64::from(196.521_7_f32));

    let symbol =
        quantize_point(Point { x: d(49.010_999_999_999_996), y: d(0.0) }, d(0.000_1), d(0.0));
    assert_eq!(f(symbol.x), f64::from(49.010_9_f32));
}

#[test]
fn overbar_markup_is_excluded_from_text_layout() {
    assert_eq!(
        formatted_characters("~{PRES}/GPIO"),
        vec![
            ('P', true),
            ('R', true),
            ('E', true),
            ('S', true),
            ('/', false),
            ('G', false),
            ('P', false),
            ('I', false),
            ('O', false),
        ]
    );
    assert_eq!(
        text_width("~{PRES}/GPIO", d(1.27)),
        text_width("PRES/GPIO", d(1.27))
    );
}

#[test]
fn multiline_offsets_preserve_kicads_asymmetric_integer_centering() {
    let first = f(multiline_offset(0, 2, d(1.5), d(0.0001)));
    let second = f(multiline_offset(1, 2, d(1.5), d(0.0001)));
    assert_eq!(first, -1.2074);
    assert_eq!(second, 1.2075);
}

#[test]
fn soft_arithmetic_agrees_with_the_machine() {
    let values = [
        0.0, 1.0, -1.0, 0.1, -0.2, 1.27, 2.54, 1e-7, 123456.789, -98765.4321, 3.0e15, 0.000_05,
        1.0 / 3.0, 2.0 / 3.0, -7.5, 0.5, 1e10, 4503599627370497.0,
    ];
    for a in values {
        for b in values {
            assert_eq!(f(d(a).plus(d(b))), a + b);
            assert_eq!(f(d(a).minus(d(b))), a - b);
            let product = a * b;
            assert_eq!(f(d(a).times(d(b))), if product == 0.0 { 0.0 } else { product });
            if b != 0.0 {
                let quotient = a / b;
                assert_eq!(f(d(a).divided_by(d(b))), if quotient == 0.0 { 0.0 } else { quotient });
            }
            assert_eq!(d(a).less(d(b)), a < b);
            assert_eq!(d(a).at_most(d(b)), a <= b);
        }
        assert_eq!(f(d(a).single()), f64::from(a as f32));
        assert_eq!(f(d(a).truncated()), if a.trunc() == 0.0 { 0.0 } else { a.trunc() });
        assert_eq!(f(d(a).floored()), if a.floor() == 0.0 { 0.0 } else { a.floor() });
        assert_eq!(f(d(a).rounded_away()), if a.round() == 0.0 { 0.0 } else { a.round() });
        assert_eq!(d(a).to_i64(), a as i64);
        if a >= 0.0 {
            assert_eq!(f(d(a).root()), a.sqrt());
        }
    }
}
