//! What the program is started with, and what it measures and renders without a window.

use crate::double::Double;
use crate::geometry::greater;
use crate::screen::pixels;
use crate::text::{chars_of, is_some_str, same};
use std::io::Cursor;
use vstd::prelude::*;

verus! {

/// The ending of a schematic's name.
pub open spec fn is_schematic_ending(ending: Option<Seq<char>>) -> bool {
    ending == Some("kicad_sch"@)
}

/// The file whose name has the given ending is a schematic.
pub fn is_schematic(ending: &Option<String>) -> (r: bool)
    ensures
        r == is_schematic_ending(crate::text::opt_view(*ending)),
{
    is_some_str(ending, "kicad_sch")
}

/// The first argument from the `i`-th on whose ending is that of a schematic.
pub open spec fn schematic_from(endings: Seq<Option<String>>, i: nat) -> Option<int>
    decreases endings.len() - i,
{
    if i >= endings.len() {
        None
    } else if is_schematic_ending(crate::text::opt_view(endings[i as int])) {
        Some(i as int)
    } else {
        schematic_from(endings, i + 1)
    }
}

/// The argument that names the schematic, by the endings of all arguments: the first after the
/// program's own name that has the ending of one.
pub fn schematic_argument(endings: &Vec<Option<String>>) -> (r: Option<usize>)
    ensures
        match schematic_from(endings@, 1) {
            Some(i) => r matches Some(k) && k == i,
            None => r is None,
        },
{
    let mut i: usize = 1;
    while i < endings.len()
        invariant
            i >= 1,
            schematic_from(endings@, 1) == schematic_from(endings@, i as nat),
        decreases endings@.len() - i,
    {
        if is_schematic(&endings[i]) {
            return Some(i);
        }
        i = i + 1;
    }
    None
}

/// What is said where no argument names a schematic.
pub fn usage() -> (r: String)
    ensures
        r@ == "usage: schematic-viewer <project.kicad_sch>"@,
{
    "usage: schematic-viewer <project.kicad_sch>".to_owned()
}

/// The place after the first argument from the `i`-th on that is `flag`.
pub open spec fn after_flag(arguments: Seq<Option<String>>, flag: Seq<char>, i: nat) -> Option<int>
    decreases arguments.len() - i,
{
    if i >= arguments.len() {
        None
    } else if crate::text::opt_view(arguments[i as int]) == Some(flag) {
        Some((i + 1) as int)
    } else {
        after_flag(arguments, flag, i + 1)
    }
}

/// The place after the first argument that is `flag`. An argument that is no text is `None`.
pub fn find_after_flag(arguments: &Vec<Option<String>>, flag: &str) -> (r: Option<usize>)
    ensures
        match after_flag(arguments@, flag@, 0) {
            Some(i) => r matches Some(k) && k == i && k <= arguments@.len(),
            None => r is None,
        },
{
    let mut i: usize = 0;
    while i < arguments.len()
        invariant
            i <= arguments@.len(),
            after_flag(arguments@, flag@, 0) == after_flag(arguments@, flag@, i as nat),
        decreases arguments@.len() - i,
    {
        if is_some_str(&arguments[i], flag) {
            return Some(i + 1);
        }
        i = i + 1;
    }
    None
}

/// The argument that names the picture to be written: the one after its flag, where there is one.
pub fn render_png_argument(arguments: &Vec<Option<String>>) -> (r: Option<usize>)
    ensures
        match after_flag(arguments@, "--render-png"@, 0) {
            Some(i) if i < arguments@.len() => r matches Some(k) && k == i,
            _ => r is None,
        },
{
    match find_after_flag(arguments, "--render-png") {
        Some(i) => if i < arguments.len() {
            Some(i)
        } else {
            None
        },
        None => None,
    }
}

/// The number that a text writes, where it is one and not above `most`. A plus may stand before it.
pub open spec fn whole_of(s: Seq<char>, most: nat) -> Option<nat> {
    let digits = if s.len() > 0 && s[0] == '+' {
        s.skip(1)
    } else {
        s
    };
    if digits.len() == 0 {
        None
    } else {
        match crate::attachment::value(digits) {
            Some(n) => if n <= most {
                Some(n)
            } else {
                None
            },
            None => None,
        }
    }
}

proof fn lemma_value_grows(digits: Seq<char>, n: int)
    requires
        0 <= n <= digits.len(),
        crate::attachment::value(digits) is Some,
    ensures
        crate::attachment::value(digits.take(n)) is Some,
        crate::attachment::value(digits.take(n))->0 <= crate::attachment::value(digits)->0,
    decreases digits.len() - n,
{
    if n == digits.len() {
        assert(digits.take(n) =~= digits);
    } else {
        lemma_value_grows(digits, n + 1);
        assert(digits.take(n + 1).drop_last() =~= digits.take(n));
    }
}

/// The number that a text writes, where it is one and not above `most`.
pub fn parse_whole(s: &str, most: u64) -> (r: Option<u64>)
    ensures
        match whole_of(s@, most as nat) {
            Some(n) => r matches Some(k) && k == n,
            None => r is None,
        },
{
    let chars = chars_of(s);
    let start: usize = if chars.len() > 0 && chars[0] == '+' {
        1
    } else {
        0
    };
    let ghost digits = chars@.skip(start as int);
    proof {
        assert(s@.skip(0) =~= s@);
    }
    if start == chars.len() {
        return None;
    }
    let mut n: u128 = 0;
    let mut i: usize = start;
    assert(digits.take(0).len() == 0);
    while i < chars.len()
        invariant
            start <= i <= chars@.len(),
            start < chars@.len(),
            chars@ == s@,
            digits == chars@.skip(start as int),
            whole_of(s@, most as nat) == (match crate::attachment::value(digits) {
                Some(n) => if n <= most {
                    Some(n)
                } else {
                    None
                },
                None => None,
            }),
            crate::attachment::value(digits.take(i - start)) == Some(n as nat),
            n <= most,
        decreases chars@.len() - i,
    {
        let c = chars[i];
        proof {
            assert(digits.take(i - start + 1).drop_last() =~= digits.take(i - start));
            if crate::attachment::value(digits) is Some {
                lemma_value_grows(digits, i - start + 1);
            }
        }
        if c < '0' || c > '9' {
            return None;
        }
        n = n * 10 + (c as u8 - 48) as u128;
        if n > most as u128 {
            return None;
        }
        i = i + 1;
    }
    assert(digits.take(chars@.len() - start) =~= digits);
    Some(n as u64)
}

/// The number that the `i`-th argument writes.
pub open spec fn number_at(arguments: Seq<Option<String>>, i: int, most: nat) -> Option<nat> {
    if 0 <= i < arguments.len() {
        match arguments[i] {
            Some(s) => whole_of(s@, most),
            None => None,
        }
    } else {
        None
    }
}

fn find_number(arguments: &Vec<Option<String>>, i: usize, most: u64) -> (r: Option<u64>)
    ensures
        match number_at(arguments@, i as int, most as nat) {
            Some(n) => r matches Some(k) && k == n,
            None => r is None,
        },
{
    if i < arguments.len() {
        match &arguments[i] {
            Some(s) => parse_whole(s.as_str(), most),
            None => None,
        }
    } else {
        None
    }
}

/// How often loading is to be measured, where that is asked for.
pub fn benchmark_iterations_argument(arguments: &Vec<Option<String>>) -> (r: Result<
    Option<u64>,
    String,
>)
    ensures
        match after_flag(arguments@, "--benchmark-load"@, 0) {
            None => r matches Ok(n) && n is None,
            Some(i) => match number_at(arguments@, i, u64::MAX as nat) {
                None => r matches Err(e) && e@
                    == "--benchmark-load requires a positive iteration count"@,
                Some(n) => if n == 0 {
                    r matches Err(e) && e@ == "--benchmark-load iteration count must be non-zero"@
                } else {
                    r matches Ok(Some(k)) && k == n
                },
            },
        },
{
    match find_after_flag(arguments, "--benchmark-load") {
        None => Ok(None),
        Some(i) => match find_number(arguments, i, u64::MAX) {
            None => Err("--benchmark-load requires a positive iteration count".to_owned()),
            Some(n) => if n == 0 {
                Err("--benchmark-load iteration count must be non-zero".to_owned())
            } else {
                Ok(Some(n))
            },
        },
    }
}

/// A foreign picture that is to be rendered: the arguments that name the output and the input, and
/// the size in pixels.
#[derive(Clone, Copy, PartialEq, Eq, Structural, Debug)]
pub struct SvgJob {
    pub output: usize,
    pub width: u32,
    pub height: u32,
    pub svg: usize,
}

/// What is wrong with the arguments after the flag at `i`, taken in order.
pub open spec fn svg_fault(arguments: Seq<Option<String>>, i: int) -> Option<Seq<char>> {
    let most = u32::MAX as nat;
    if i >= arguments.len() {
        Some("--render-svg-png requires OUTPUT WIDTH HEIGHT SVG"@)
    } else if number_at(arguments, i + 1, most) is None {
        Some("--render-svg-png WIDTH must be a positive integer"@)
    } else if number_at(arguments, i + 2, most) is None {
        Some("--render-svg-png HEIGHT must be a positive integer"@)
    } else if i + 3 >= arguments.len() {
        Some("--render-svg-png requires an SVG path"@)
    } else if number_at(arguments, i + 1, most) == Some(0nat) || number_at(arguments, i + 2, most)
        == Some(0nat) {
        Some("--render-svg-png dimensions must be non-zero"@)
    } else {
        None
    }
}

/// The foreign picture that is to be rendered, where that is asked for.
pub fn render_svg_png_argument(arguments: &Vec<Option<String>>) -> (r: Result<
    Option<SvgJob>,
    String,
>)
    requires
        arguments@.len() < 0x1000_0000,
    ensures
        match after_flag(arguments@, "--render-svg-png"@, 0) {
            None => r matches Ok(job) && job is None,
            Some(i) => match svg_fault(arguments@, i) {
                Some(fault) => r matches Err(e) && e@ == fault,
                None => r matches Ok(Some(job)) && job.output == i && job.svg == i + 3
                    && number_at(arguments@, i + 1, u32::MAX as nat) == Some(job.width as nat)
                    && number_at(arguments@, i + 2, u32::MAX as nat) == Some(job.height as nat),
            },
        },
{
    let i = match find_after_flag(arguments, "--render-svg-png") {
        None => {
            return Ok(None);
        },
        Some(i) => i,
    };
    if i >= arguments.len() {
        return Err("--render-svg-png requires OUTPUT WIDTH HEIGHT SVG".to_owned());
    }
    let width = match find_number(arguments, i + 1, u32::MAX as u64) {
        None => {
            return Err("--render-svg-png WIDTH must be a positive integer".to_owned());
        },
        Some(n) => n,
    };
    let height = match find_number(arguments, i + 2, u32::MAX as u64) {
        None => {
            return Err("--render-svg-png HEIGHT must be a positive integer".to_owned());
        },
        Some(n) => n,
    };
    if i + 3 >= arguments.len() {
        return Err("--render-svg-png requires an SVG path".to_owned());
    }
    if width == 0 || height == 0 {
        return Err("--render-svg-png dimensions must be non-zero".to_owned());
    }
    Ok(Some(SvgJob { output: i, width: width as u32, height: height as u32, svg: i + 3 }))
}

/// How long something took: on average, for all but one of twenty, and at most.
#[derive(Clone, Copy, PartialEq, Eq, Structural, Debug)]
pub struct LatencySummary {
    pub mean_ms: Double,
    pub p95_ms: Double,
    pub max_ms: Double,
}

/// No number is above the one after it.
pub open spec fn is_ascending(v: Seq<Double>) -> bool {
    forall|i: int, j: int| 0 <= i < j < v.len() ==> !(#[trigger] v[j]).spec_less(#[trigger] v[i])
}

pub open spec fn all_numbers(v: Seq<Double>, bound: int) -> bool {
    forall|i: int| 0 <= i < v.len() ==> (#[trigger] v[i]).wf() && v[i].within(bound)
}

/// Sorts numbers, the least first.
pub fn sort_numbers(v: &mut Vec<Double>)
    requires
        all_numbers(old(v)@, 1000),
    ensures
        final(v)@.to_multiset() == old(v)@.to_multiset(),
        is_ascending(final(v)@),
        all_numbers(final(v)@, 1000),
        final(v)@.len() == old(v)@.len(),
{
    let ghost before = v@;
    let mut n: usize = 0;
    while n < v.len()
        invariant
            n <= v@.len(),
            v@.len() == before.len(),
            v@.to_multiset() == before.to_multiset(),
            is_ascending(v@.take(n as int)),
            all_numbers(v@, 1000),
        decreases v@.len() - n,
    {
        sink(v, n);
        n = n + 1;
    }
    proof {
        assert(v@.take(v@.len() as int) =~= v@);
    }
}

/// Puts the `n`-th number in order among those before it.
fn sink(v: &mut Vec<Double>, n: usize)
    requires
        n < old(v)@.len(),
        all_numbers(old(v)@, 1000),
        is_ascending(old(v)@.take(n as int)),
    ensures
        final(v)@.len() == old(v)@.len(),
        final(v)@.to_multiset() == old(v)@.to_multiset(),
        all_numbers(final(v)@, 1000),
        is_ascending(final(v)@.take(n + 1)),
{
    let ghost before = v@;
    let mut k: usize = n;
    proof {
        assert forall|i: int, j: int| 0 <= i < j <= n && j != k implies !(#[trigger] v@[j]).spec_less(
            #[trigger] v@[i],
        ) by {
            let first = v@.take(n as int);
            assert(first[i] == v@[i] && first[j] == v@[j]);
        }
    }
    while k > 0
        invariant_except_break
            forall|i: int, j: int|
                0 <= i < j <= n && j != k ==> !(#[trigger] v@[j]).spec_less(#[trigger] v@[i]),
        invariant
            k <= n < v@.len(),
            v@.len() == before.len(),
            v@.to_multiset() == before.to_multiset(),
            all_numbers(v@, 1000),
        ensures
            forall|i: int, j: int|
                0 <= i < j <= n ==> !(#[trigger] v@[j]).spec_less(#[trigger] v@[i]),
        decreases k,
    {
        let a = v[k - 1];
        let b = v[k];
        if !b.less(a) {
            proof {
                assert forall|i: int, j: int| 0 <= i < j <= n implies !(
                #[trigger] v@[j]).spec_less(#[trigger] v@[i]) by {
                    if j == k && i < k - 1 {
                        assert(!v@[k - 1].spec_less(v@[i]));
                        crate::double::less_is_total(v@[k as int], v@[k - 1], v@[i]);
                    }
                }
            }
            break;
        }
        let ghost earlier = v@;
        v.set(k - 1, b);
        v.set(k, a);
        proof {
            assert(v@ =~= earlier.update(k - 1, b).update(k as int, a));
            lemma_swap(earlier, k - 1, k as int);
            crate::double::less_is_total(b, a, a);
            crate::double::less_is_total(a, b, b);
            assert forall|i: int, j: int|
                0 <= i < j <= n && j != k - 1 implies !(#[trigger] v@[j]).spec_less(
                #[trigger] v@[i],
            ) by {
                if j == k {
                    if i < k - 1 {
                        assert(!earlier[k - 1].spec_less(earlier[i]));
                    }
                } else if i == k - 1 {
                    assert(!earlier[j].spec_less(earlier[k as int]));
                } else if i == k {
                    assert(!earlier[j].spec_less(earlier[k - 1]));
                } else {
                    assert(!earlier[j].spec_less(earlier[i]));
                }
            }
        }
        k = k - 1;
    }
    proof {
        assert forall|i: int, j: int| 0 <= i < j < n + 1 implies !(
        #[trigger] v@.take(n + 1)[j]).spec_less(#[trigger] v@.take(n + 1)[i]) by {
            assert(v@.take(n + 1)[i] == v@[i] && v@.take(n + 1)[j] == v@[j]);
        }
    }
}

/// Two numbers that change places leave the numbers the same.
proof fn lemma_swap(v: Seq<Double>, i: int, j: int)
    requires
        0 <= i < j < v.len(),
    ensures
        v.update(i, v[j]).update(j, v[i]).to_multiset() == v.to_multiset(),
{
    broadcast use vstd::seq_lib::group_to_multiset_ensures;

    let w = v.update(i, v[j]);
    assert(w.to_multiset() == v.to_multiset().insert(v[j]).remove(v[i]));
    assert(w.update(j, v[i]).to_multiset() == w.to_multiset().insert(v[i]).remove(w[j]));
    assert(w.update(j, v[i]).to_multiset() =~= v.to_multiset());
}

/// The sum of the first `n` numbers, added in order.
pub open spec fn sum_upto(v: Seq<Double>, n: nat) -> Double
    decreases n,
{
    if n == 0 {
        crate::screen::px(0)
    } else {
        sum_upto(v, (n - 1) as nat).spec_sum(v[n - 1])
    }
}

/// The least whole number that is not below a number.
pub open spec fn ceiling(d: Double) -> Double {
    d.spec_neg().spec_floor().spec_neg()
}

/// 0.95.
pub open spec fn most_of_them() -> Double {
    Double { negative: false, mantissa: 0x1e_6666_6666_6666, exponent: (-53) as i64 }
}

/// The place, among as many sorted samples, of the one that 95 of a hundred do not exceed.
pub open spec fn p95_place(count: nat) -> int {
    let rank = ceiling(crate::screen::px(count as int).spec_product(most_of_them())).spec_to_i64();
    let place = if rank > 0 {
        rank - 1
    } else {
        0
    };
    if place < count {
        place
    } else {
        count - 1
    }
}

fn find_p95_place(count: usize) -> (r: usize)
    requires
        0 < count <= 0x1000_0000,
    ensures
        r == p95_place(count as nat),
        r < count,
{
    let part = Double { negative: false, mantissa: 0x1e_6666_6666_6666, exponent: -53 };
    let share = pixels(count as i64).times(part);
    let rank: i64 = share.negated().floored().negated().to_i64();
    let place: i64 = if rank > 0 {
        rank - 1
    } else {
        0
    };
    if place < count as i64 {
        place as usize
    } else {
        count - 1
    }
}

/// Sorts samples and sums them up.
pub fn latency_summary(samples: &mut Vec<Double>) -> (r: LatencySummary)
    requires
        0 < old(samples)@.len() <= 0x1000_0000,
        all_numbers(old(samples)@, 1000),
    ensures
        final(samples)@.to_multiset() == old(samples)@.to_multiset(),
        is_ascending(final(samples)@),
        ({
            let sorted = final(samples)@;
            &&& sorted.len() == old(samples)@.len()
            &&& r.mean_ms == sum_upto(sorted, sorted.len()).spec_quotient(
                crate::screen::px(sorted.len() as int),
            )
            &&& r.p95_ms == sorted[p95_place(sorted.len())]
            &&& r.max_ms == sorted.last()
        }),
{
    sort_numbers(samples);
    let count = samples.len();
    let mut sum = pixels(0);
    let mut i: usize = 0;
    while i < count
        invariant
            i <= count == samples@.len(),
            count <= 0x1000_0000,
            all_numbers(samples@, 1000),
            sum == sum_upto(samples@, i as nat),
            sum.wf(),
            sum.within(2000 + 100 * i),
        decreases count - i,
    {
        sum = sum.plus(samples[i]);
        i = i + 1;
    }
    LatencySummary {
        mean_ms: sum.divided_by(pixels(count as i64)),
        p95_ms: samples[find_p95_place(count)],
        max_ms: samples[count - 1],
    }
}

/// No sample is above the greatest.
pub proof fn samples_stay_below_the_greatest(sorted: Seq<Double>, i: int)
    requires
        is_ascending(sorted),
        all_numbers(sorted, 1000),
        0 <= i < sorted.len(),
    ensures
        !sorted.last().spec_less(sorted[i]),
{
    if i == sorted.len() - 1 {
        crate::double::less_is_total(sorted[i], sorted[i], sorted[i]);
    }
}

/// The millimetres of one pixel of a vector drawing, of which 96 make an inch.
pub open spec fn drawing_pixel() -> Double {
    Double { negative: false, mantissa: 0x10_eeee_eeee_eeef, exponent: (-54) as i64 }
}

/// The pixels of a picture for a millimetre of a drawing, along one side.
pub open spec fn side_scale(pixels: u32, length: Double) -> Double {
    crate::screen::px(pixels as int).spec_quotient(length.spec_product(drawing_pixel()))
}

/// The pixels of a picture for a millimetre of a drawing: the mean of both sides as a whole number,
/// which is one at least.
pub open spec fn drawing_scale(width: u32, height: u32, across: Double, down: Double) -> Double {
    crate::geometry::spec_greater(
        side_scale(width, across).spec_sum(side_scale(height, down)).spec_quotient(
            crate::screen::px(2),
        ).spec_round(),
        crate::screen::px(1),
    )
}

fn find_side_scale(side: u32, length: Double) -> (r: Double)
    requires
        crate::screen::plain(length),
        length.mantissa != 0,
    ensures
        r == side_scale(side, length),
        r.wf(),
        crate::screen::fair(r),
{
    let unit = Double { negative: false, mantissa: 0x10_eeee_eeee_eeef, exponent: -54 };
    pixels(side as i64).divided_by(length.times(unit))
}

/// How a drawing of the given size, in pixels of its own, fills a picture. One scale serves both
/// sides, so that nothing is stretched.
pub fn find_drawing_scale(width: u32, height: u32, across: Double, down: Double) -> (r: Double)
    requires
        crate::screen::plain(across),
        crate::screen::plain(down),
        across.mantissa != 0,
        down.mantissa != 0,
    ensures
        r == drawing_scale(width, height, across, down),
        r.wf(),
{
    let sum = find_side_scale(width, across).plus(find_side_scale(height, down));
    greater(sum.divided_by(pixels(2)).rounded_away(), pixels(1))
}

/// The nearest whole number of pixels for a length; the least or the greatest there is where it
/// has none.
pub open spec fn extent_of(length_mm: Double, pixels_per_mm: Double) -> int {
    let n = length_mm.spec_product(pixels_per_mm).spec_round().spec_to_i64();
    if n < 0 {
        0
    } else if n > u32::MAX {
        u32::MAX as int
    } else {
        n as int
    }
}

/// How many pixels a page takes along one side.
pub fn find_extent(length_mm: Double, pixels_per_mm: Double) -> (r: u32)
    requires
        crate::screen::plain(length_mm),
        crate::screen::plain(pixels_per_mm),
    ensures
        r == extent_of(length_mm, pixels_per_mm),
{
    let n: i64 = length_mm.times(pixels_per_mm).rounded_away().to_i64();
    if n < 0 {
        0
    } else if n > u32::MAX as i64 {
        u32::MAX
    } else {
        n as u32
    }
}

/// How many bytes a row of pixels takes where rows begin at multiples of 256 bytes.
pub fn padded_row(width: u32) -> (r: u32)
    requires
        width <= 0x3fff_ffc0,
    ensures
        r % 256 == 0,
        width * 4 <= r < width * 4 + 256,
{
    let bytes: u32 = width * 4;
    let rows: u32 = (bytes + 255) / 256;
    rows * 256
}

/// The first `n` rows, each without what fills it up.
pub open spec fn rows_upto(bytes: Seq<u8>, padded: nat, row: nat, n: nat) -> Seq<u8>
    decreases n,
{
    if n == 0 {
        Seq::empty()
    } else {
        rows_upto(bytes, padded, row, (n - 1) as nat) + bytes.subrange(
            (n - 1) * padded,
            (n - 1) * padded + row,
        )
    }
}

/// The rows of a picture without what fills them up; bytes that make no whole row are left out.
pub fn unpad_rows(bytes: &Vec<u8>, padded: usize, row: usize) -> (r: Vec<u8>)
    requires
        0 < padded,
        row <= padded,
    ensures
        r@ == rows_upto(bytes@, padded as nat, row as nat, (bytes@.len() / padded as nat) as nat),
{
    let mut r: Vec<u8> = Vec::new();
    let mut at: usize = 0;
    let ghost mut n: nat = 0;
    let total = bytes.len();
    proof {
        assert(r@ =~= Seq::<u8>::empty());
        assert(0nat * padded == 0) by (nonlinear_arith);
    }
    while total - at >= padded
        invariant
            at <= total == bytes@.len(),
            0 < padded,
            row <= padded,
            at == n * padded,
            r@ == rows_upto(bytes@, padded as nat, row as nat, n),
        decreases total - at,
    {
        let mut k: usize = 0;
        let ghost before = r@;
        while k < row
            invariant
                k <= row <= padded,
                at + padded <= total == bytes@.len(),
                r@ == before + bytes@.subrange(at as int, at + k),
            decreases row - k,
        {
            r.push(bytes[at + k]);
            proof {
                assert(bytes@.subrange(at as int, at + k + 1) =~= bytes@.subrange(
                    at as int,
                    at + k,
                ).push(bytes@[at + k]));
                assert(r@ =~= before + bytes@.subrange(at as int, at + k + 1));
            }
            k = k + 1;
        }
        proof {
            assert((n + 1) * padded == n * padded + padded) by (nonlinear_arith);
            n = n + 1;
        }
        at = at + padded;
    }
    proof {
        assert(n == total as nat / padded as nat) by (nonlinear_arith)
            requires
                at == n * padded,
                at <= total,
                total - at < padded,
                padded > 0,
        ;
    }
    r
}

/// The picture that bytes hold, by its samples and its width and height; nothing for bytes that hold
/// none.
pub uninterp spec fn decoded(bytes: Seq<u8>) -> Option<(Seq<u8>, u32, u32)>;

/// Nothing, or a picture with more samples than the machine can address.
pub open spec fn is_out_of_reach(picture: Option<(Seq<u8>, u32, u32)>) -> bool {
    match picture {
        Some((samples, _, _)) => samples.len() > isize::MAX,
        None => true,
    }
}

/// `png::Decoder`: the first frame of a picture, through `read_info` and `next_frame`. What it gives
/// is the picture that the bytes hold, unless they hold none or the machine cannot address it.
#[verifier::external_body]
fn decode_png(bytes: &Vec<u8>) -> (r: Option<(Vec<u8>, u32, u32)>)
    ensures
        match r {
            Some((samples, width, height)) => decoded(bytes@) == Some((samples@, width, height)),
            None => is_out_of_reach(decoded(bytes@)),
        },
{
    let mut reader = png::Decoder::new(Cursor::new(bytes)).read_info().ok()?;
    let mut samples = vec![0; reader.output_buffer_size()?];
    let info = reader.next_frame(&mut samples).ok()?;
    samples.truncate(info.buffer_size());
    Some((samples, info.width, info.height))
}

/// An icon: four bytes for each of its pixels.
pub struct IconImage {
    pub pixels: Vec<u8>,
    pub width: u32,
    pub height: u32,
}

/// The bytes are four for each pixel.
pub open spec fn is_icon(len: nat, width: u32, height: u32) -> bool {
    len == 4 * (width * height)
}

/// An icon of the given bytes, where they are four for each pixel.
pub fn to_icon(pixels: Vec<u8>, width: u32, height: u32) -> (r: Option<IconImage>)
    ensures
        r is Some <==> is_icon(pixels@.len(), width, height),
        r matches Some(icon) ==> icon.pixels@ == pixels@ && icon.width == width && icon.height
            == height,
{
    proof {
        assert(width * height <= 0xffff_ffff * 0xffff_ffff) by (nonlinear_arith)
            requires
                width <= 0xffff_ffff,
                height <= 0xffff_ffff,
        ;
    }
    let count: u128 = width as u128 * height as u128;
    if pixels.len() as u128 == 4 * count {
        Some(IconImage { pixels, width, height })
    } else {
        None
    }
}

/// The icon of the window, from the bytes of its file: the picture that they hold, where it has four
/// bytes for each pixel and the machine can address them.
pub fn window_icon(bytes: &Vec<u8>) -> (r: Option<IconImage>)
    ensures
        match r {
            Some(icon) => decoded(bytes@) == Some((icon.pixels@, icon.width, icon.height))
                && is_icon(icon.pixels@.len(), icon.width, icon.height),
            None => is_out_of_reach(decoded(bytes@)) || (decoded(bytes@) matches Some(
                (pixels, width, height),
            ) && !is_icon(pixels.len(), width, height)),
        },
{
    match decode_png(bytes) {
        Some((samples, width, height)) => to_icon(samples, width, height),
        None => None,
    }
}

} // verus!
