//! The tables of a font: whether what it lays out text with is simple.
//!
//! A simple table only replaces glyphs one for one, joins them, and moves them. It has no rule that
//! looks at what stands around a glyph or calls another rule, and none that makes several glyphs of
//! one, so a text never has more glyphs than characters.

use vstd::prelude::*;

verus! {

/// The number of two bytes at `i`, the greater first; less than nothing where the bytes are missing.
pub open spec fn word_at(b: Seq<u8>, i: int) -> int {
    if 0 <= i && i + 2 <= b.len() {
        b[i] * 256 + b[i + 1]
    } else {
        -1
    }
}

/// The number of four bytes at `i`, the greatest first; less than nothing where the bytes are
/// missing.
pub open spec fn long_at(b: Seq<u8>, i: int) -> int {
    if 0 <= i && i + 4 <= b.len() {
        word_at(b, i) * 0x1_0000 + word_at(b, i + 2)
    } else {
        -1
    }
}

fn read_word(b: &Vec<u8>, i: i64) -> (r: i64)
    requires
        i < 0x1000_0000_0000,
    ensures
        r == word_at(b@, i as int),
        -1 <= r <= 0xffff,
{
    if 0 <= i && i as u64 + 2 <= b.len() as u64 {
        b[i as usize] as i64 * 256 + b[i as usize + 1] as i64
    } else {
        -1
    }
}

fn read_long(b: &Vec<u8>, i: i64) -> (r: i64)
    requires
        i < 0x800_0000_0000,
    ensures
        r == long_at(b@, i as int),
        -1 <= r <= 0xffff_ffff,
{
    if 0 <= i && i as u64 + 4 <= b.len() as u64 {
        read_word(b, i) * 0x1_0000 + read_word(b, i + 2)
    } else {
        -1
    }
}

/// What a font collection begins with: `ttcf`.
pub const COLLECTION: i64 = 0x7474_6366;

/// The name of the table of substitutions: `GSUB`.
pub const SUBSTITUTIONS: i64 = 0x4753_5542;

/// The name of the table of positions: `GPOS`.
pub const POSITIONS: i64 = 0x4750_4f53;

/// The name of the table of kerning: `kern`.
pub const KERNING: i64 = 0x6b65_726e;

/// The name of the extended table of kerning: `kerx`.
pub const EXTENDED_KERNING: i64 = 0x6b65_7278;

/// The name of the table of state machines that change glyphs: `morx`.
pub const METAMORPHOSIS: i64 = 0x6d6f_7278;

/// The name of the table of tracking: `trak`.
pub const TRACKING: i64 = 0x7472_616b;

/// A simple table has no more rules.
pub const MOST_RULES: i64 = 60;

/// The rules that a simple table may have. Of substitutions: one glyph for one, one of several for
/// one, and one for several. Of positions: of one glyph, of two, of strokes that go on in the next
/// glyph, and of marks on letters, on ligatures and on marks.
pub open spec fn is_simple_rule(rule: int, positions: bool) -> bool {
    if positions {
        1 <= rule <= 6
    } else {
        rule == 1 || rule == 3 || rule == 4
    }
}

fn rule_is_simple(rule: i64, positions: bool) -> (r: bool)
    ensures
        r == is_simple_rule(rule as int, positions),
{
    if positions {
        1 <= rule && rule <= 6
    } else {
        rule == 1 || rule == 3 || rule == 4
    }
}

/// The rule whose parts stand elsewhere, each with the rule that it belongs to.
pub open spec fn extension(positions: bool) -> int {
    if positions {
        9
    } else {
        7
    }
}

/// The `k`-th range of the glyphs listed at `glyphs` does not end before it begins.
pub open spec fn is_range(b: Seq<u8>, glyphs: int, k: int) -> bool {
    word_at(b, glyphs + 4 + 6 * k) <= word_at(b, glyphs + 6 + 6 * k)
}

/// The glyphs that the part at `part` is for are listed, by number or in ranges that do not end
/// before they begin.
pub open spec fn lists_glyphs(b: Seq<u8>, part: int) -> bool {
    let from = word_at(b, part + 2);
    let glyphs = part + from;
    &&& from >= 0
    &&& word_at(b, glyphs) == 2 ==> forall|k: int|
        0 <= k < word_at(b, glyphs + 2) ==> #[trigger] is_range(b, glyphs, k)
}

fn check_glyphs(b: &Vec<u8>, part: i64) -> (r: bool)
    requires
        0 <= part < 0x400_0000_0000,
    ensures
        r == lists_glyphs(b@, part as int),
{
    let from = read_word(b, part + 2);
    if from < 0 {
        return false;
    }
    let glyphs = part + from;
    if read_word(b, glyphs) != 2 {
        return true;
    }
    let count = read_word(b, glyphs + 2);
    let mut k: i64 = 0;
    while k < count
        invariant
            0 <= k,
            0 <= part < 0x400_0000_0000,
            from == word_at(b@, part + 2),
            0 <= from <= 0xffff,
            glyphs == part + from,
            word_at(b@, glyphs as int) == 2,
            count == word_at(b@, glyphs + 2),
            count <= 0xffff,
            forall|i: int| 0 <= i < k ==> #[trigger] is_range(b@, glyphs as int, i),
        decreases count - k,
    {
        if read_word(b, glyphs + 4 + 6 * k) > read_word(b, glyphs + 6 + 6 * k) {
            assert(!is_range(b@, glyphs as int, k as int));
            return false;
        }
        k = k + 1;
    }
    true
}

/// The `j`-th part of the rule at `rule` is simple: it lists its glyphs and belongs to a simple rule,
/// either this one or one that the part names, and then stands elsewhere.
pub open spec fn is_simple_part(b: Seq<u8>, rule: int, j: int, positions: bool) -> bool {
    let from = word_at(b, rule + 6 + 2 * j);
    let part = rule + from;
    let elsewhere = long_at(b, part + 4);
    &&& from >= 0
    &&& if is_simple_rule(word_at(b, rule), positions) {
        lists_glyphs(b, part)
    } else {
        &&& word_at(b, rule) == extension(positions)
        &&& is_simple_rule(word_at(b, part + 2), positions)
        &&& elsewhere >= 0
        &&& lists_glyphs(b, part + elsewhere)
    }
}

/// The rule at `rule` has simple parts.
pub open spec fn has_simple_rule(b: Seq<u8>, rule: int, positions: bool) -> bool {
    &&& word_at(b, rule + 4) >= 0
    &&& forall|j: int|
        0 <= j < word_at(b, rule + 4) ==> #[trigger] is_simple_part(b, rule, j, positions)
}

fn check_part(b: &Vec<u8>, rule: i64, j: i64, positions: bool) -> (r: bool)
    requires
        0 <= rule < 0x100_0000_0000,
        0 <= j <= 0xffff,
    ensures
        r == is_simple_part(b@, rule as int, j as int, positions),
{
    let from = read_word(b, rule + 6 + 2 * j);
    if from < 0 {
        return false;
    }
    let part = rule + from;
    let own = read_word(b, rule);
    if rule_is_simple(own, positions) {
        return check_glyphs(b, part);
    }
    let extension: i64 = if positions {
        9
    } else {
        7
    };
    if own != extension || !rule_is_simple(read_word(b, part + 2), positions) {
        return false;
    }
    let elsewhere = read_long(b, part + 4);
    elsewhere >= 0 && check_glyphs(b, part + elsewhere)
}

fn check_rule(b: &Vec<u8>, rule: i64, positions: bool) -> (r: bool)
    requires
        0 <= rule < 0x100_0000_0000,
    ensures
        r == has_simple_rule(b@, rule as int, positions),
{
    let count = read_word(b, rule + 4);
    if count < 0 {
        return false;
    }
    let mut j: i64 = 0;
    while j < count
        invariant
            0 <= j <= count <= 0xffff,
            count == word_at(b@, rule + 4),
            0 <= rule < 0x100_0000_0000,
            forall|k: int| 0 <= k < j ==> #[trigger] is_simple_part(b@, rule as int, k, positions),
        decreases count - j,
    {
        if !check_part(b, rule, j, positions) {
            assert(!is_simple_part(b@, rule as int, j as int, positions));
            return false;
        }
        j = j + 1;
    }
    true
}

/// The `i`-th rule of the list at `list` is there and simple.
pub open spec fn lists_simple_rule(b: Seq<u8>, list: int, i: int, positions: bool) -> bool {
    let from = word_at(b, list + 2 + 2 * i);
    from >= 0 && has_simple_rule(b, list + from, positions)
}

/// The table at `table` is simple: it has a list of rules that is not long, and all are simple.
pub open spec fn is_simple_table(b: Seq<u8>, table: int, positions: bool) -> bool {
    let from = word_at(b, table + 8);
    let count = word_at(b, table + from);
    &&& from >= 0
    &&& 0 <= count <= MOST_RULES
    &&& forall|i: int|
        0 <= i < count ==> #[trigger] lists_simple_rule(b, table + from, i, positions)
}

fn check_table(b: &Vec<u8>, table: i64, positions: bool) -> (r: bool)
    requires
        0 <= table <= 0xffff_ffff,
    ensures
        r == is_simple_table(b@, table as int, positions),
{
    let from = read_word(b, table + 8);
    if from < 0 {
        return false;
    }
    let list = table + from;
    let count = read_word(b, list);
    if count < 0 || count > MOST_RULES {
        return false;
    }
    let mut i: i64 = 0;
    while i < count
        invariant
            0 <= i <= count <= MOST_RULES,
            from == word_at(b@, table + 8),
            0 <= from <= 0xffff,
            0 <= table <= 0xffff_ffff,
            list == table + from,
            count == word_at(b@, list as int),
            forall|k: int|
                0 <= k < i ==> #[trigger] lists_simple_rule(b@, list as int, k, positions),
        decreases count - i,
    {
        let rule = read_word(b, list + 2 + 2 * i);
        if rule < 0 || !check_rule(b, list + rule, positions) {
            assert(!lists_simple_rule(b@, list as int, i as int, positions));
            return false;
        }
        i = i + 1;
    }
    true
}

/// The record at `record` names a table that text is laid out with simply, or not at all.
pub open spec fn is_simple_record(b: Seq<u8>, record: int) -> bool {
    let name = long_at(b, record);
    let table = long_at(b, record + 8);
    &&& table >= 0
    &&& name != KERNING && name != EXTENDED_KERNING && name != METAMORPHOSIS && name != TRACKING
    &&& name == SUBSTITUTIONS ==> is_simple_table(b, table, false)
    &&& name == POSITIONS ==> is_simple_table(b, table, true)
}

fn check_record(b: &Vec<u8>, record: i64) -> (r: bool)
    requires
        0 <= record < 0x100_0000_0000,
    ensures
        r == is_simple_record(b@, record as int),
{
    let name = read_long(b, record);
    let table = read_long(b, record + 8);
    table >= 0 && name != KERNING && name != EXTENDED_KERNING && name != METAMORPHOSIS && name
        != TRACKING && (name != SUBSTITUTIONS || check_table(b, table, false)) && (name != POSITIONS
        || check_table(b, table, true))
}

/// Where the face of a font begins, by its number; a font that is no collection has one.
pub open spec fn face_start(b: Seq<u8>, face: u32) -> int {
    if long_at(b, 0) == COLLECTION {
        if face < long_at(b, 8) {
            long_at(b, 12 + 4 * face)
        } else {
            -1
        }
    } else {
        0
    }
}

/// A face of a font lays out text simply: all its tables are listed, those of substitutions and of
/// positions are simple, and no other lays out text.
pub open spec fn is_sound_layout(b: Seq<u8>, face: u32) -> bool {
    let start = face_start(b, face);
    let count = word_at(b, start + 4);
    &&& start >= 0
    &&& count >= 0
    &&& forall|k: int| 0 <= k < count ==> #[trigger] is_simple_record(b, start + 12 + 16 * k)
}

/// Whether a face of a font lays out text simply.
pub fn check_layout(font: &Vec<u8>, face: u32) -> (r: bool)
    ensures
        r == is_sound_layout(font@, face),
{
    let start: i64 = if read_long(font, 0) == COLLECTION {
        if (face as i64) < read_long(font, 8) {
            read_long(font, 12 + 4 * face as i64)
        } else {
            -1
        }
    } else {
        0
    };
    if start < 0 {
        return false;
    }
    let count = read_word(font, start + 4);
    if count < 0 {
        return false;
    }
    let mut k: i64 = 0;
    while k < count
        invariant
            0 <= k <= count <= 0xffff,
            0 <= start <= 0xffff_ffff,
            start == face_start(font@, face),
            count == word_at(font@, start + 4),
            forall|i: int|
                0 <= i < k ==> #[trigger] is_simple_record(font@, start + 12 + 16 * i),
        decreases count - k,
    {
        if !check_record(font, start + 12 + 16 * k) {
            assert(!is_simple_record(font@, start + 12 + 16 * (k as int)));
            return false;
        }
        k = k + 1;
    }
    true
}

} // verus!
