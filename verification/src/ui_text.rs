//! How names, paths and ages are worded for the screen.

use vstd::prelude::*;

use crate::text::{chars_of, same, string_of, to_decimal, to_upper_char};

verus! {

/// `value` cut to `max_chars` characters, with an ellipsis where something was cut away.
pub open spec fn truncated(value: Seq<char>, max_chars: nat) -> Seq<char> {
    if value.len() > max_chars {
        value.take(max_chars as int).push('…')
    } else {
        value
    }
}

/// The first `max_chars` characters, and an ellipsis where there are more.
pub fn truncate_ui(value: &str, max_chars: usize) -> (r: String)
    ensures
        r@ == truncated(value@, max_chars as nat),
{
    let chars = chars_of(value);
    if chars.len() > max_chars {
        let mut r = string_of(&chars, 0, max_chars);
        r.push('…');
        proof {
            assert(chars@.subrange(0, max_chars as int) =~= value@.take(max_chars as int));
        }
        r
    } else {
        let r = string_of(&chars, 0, chars.len());
        proof {
            assert(chars@.subrange(0, chars@.len() as int) =~= value@);
        }
        r
    }
}

/// A shortened text is never longer than the limit and its ellipsis, and a text that fits is kept.
pub proof fn truncation_fits(value: Seq<char>, max_chars: nat)
    ensures
        truncated(value, max_chars).len() <= max_chars + 1,
        value.len() <= max_chars ==> truncated(value, max_chars) == value,
{
}

/// The age of a change, in words.
pub open spec fn age(seconds: nat) -> Seq<char> {
    if seconds <= 4 {
        "now"@
    } else if seconds <= 59 {
        crate::text::decimal(seconds) + "s"@
    } else if seconds <= 3599 {
        crate::text::decimal(seconds / 60) + "m"@
    } else {
        crate::text::decimal(seconds / 3600) + "h"@
    }
}

/// The age of a change recorded at `recorded_at` as it is told at `now`, both in milliseconds;
/// a change of the future counts as one of this moment.
pub fn relative_time(recorded_at: u64, now: u64) -> (r: String)
    ensures
        r@ == age(if now >= recorded_at { ((now - recorded_at) / 1000) as nat } else { 0 }),
{
    let seconds: u64 = if now >= recorded_at {
        (now - recorded_at) / 1000
    } else {
        0
    };
    if seconds <= 4 {
        "now".to_owned()
    } else if seconds <= 59 {
        let mut r = to_decimal(seconds as u128);
        r.append("s");
        r
    } else if seconds <= 3599 {
        let mut r = to_decimal((seconds / 60) as u128);
        r.append("m");
        r
    } else {
        let mut r = to_decimal((seconds / 3600) as u128);
        r.append("h");
        r
    }
}

/// The name by which a file is told from others: its resolved path where the file system gave
/// one, the path itself otherwise.
pub open spec fn key_of(path: Seq<char>, canonical: Option<Seq<char>>) -> Seq<char> {
    match canonical {
        Some(c) => c,
        None => path,
    }
}

/// The name by which a file is told from others.
pub fn path_key(path: &str, canonical: &Option<String>) -> (r: String)
    ensures
        r@ == key_of(path@, crate::text::opt_view(*canonical)),
{
    match canonical {
        Some(c) => c.clone(),
        None => path.to_owned(),
    }
}

/// Two paths name one file: what each resolves to, or the path itself where it does not
/// resolve, is the same.
pub fn same_path(
    a: &str,
    a_canonical: &Option<String>,
    b: &str,
    b_canonical: &Option<String>,
) -> (r: bool)
    ensures
        r == (key_of(a@, crate::text::opt_view(*a_canonical)) == key_of(
            b@,
            crate::text::opt_view(*b_canonical),
        )),
{
    let left = path_key(a, a_canonical);
    let right = path_key(b, b_canonical);
    same(left.as_str(), right.as_str())
}

/// The characters that part the words of a sheet's name.
pub open spec fn is_break(c: char) -> bool {
    c == '_' || c == '-'
}

pub open spec fn is_digit(c: char) -> bool {
    '0' <= c <= '9'
}

/// The place of the first underscore at or after `from`, or the length.
pub open spec fn underscore(s: Seq<char>, from: nat) -> nat
    decreases s.len() - from,
{
    if from >= s.len() {
        s.len()
    } else if s[from as int] == '_' {
        from
    } else {
        underscore(s, from + 1)
    }
}

/// A sheet's name without the number before its first underscore.
pub open spec fn without_number(s: Seq<char>) -> Seq<char> {
    let u = underscore(s, 0);
    if u < s.len() && forall|k: int| 0 <= k < u ==> is_digit(#[trigger] s[k]) {
        s.skip(u as int + 1)
    } else {
        s
    }
}

/// Where the word that `from` stands in ends.
pub open spec fn word_end(s: Seq<char>, from: nat) -> nat
    decreases s.len() - from,
{
    if from >= s.len() || is_break(s[from as int]) {
        from
    } else {
        word_end(s, from + 1)
    }
}

/// A word ends no earlier than it begins.
pub proof fn word_ends_after(s: Seq<char>, from: nat)
    ensures
        word_end(s, from) >= from,
        from <= s.len() ==> word_end(s, from) <= s.len(),
    decreases s.len() - from,
{
    if from < s.len() && !is_break(s[from as int]) {
        word_ends_after(s, from + 1);
    }
}

/// The words of a name from `from` on: its longest stretches without a break.
pub open spec fn words_from(s: Seq<char>, from: nat) -> Seq<Seq<char>>
    decreases s.len() - from,
{
    if from >= s.len() {
        Seq::empty()
    } else if is_break(s[from as int]) {
        words_from(s, from + 1)
    } else {
        proof {
            word_ends_after(s, from + 1);
        }
        let end = word_end(s, from + 1);
        seq![s.subrange(from as int, end as int)] + words_from(s, end)
    }
}

pub open spec fn upper(s: Seq<char>) -> Seq<char> {
    s.map_values(|c: char| crate::text::upper_char(c))
}

/// The abbreviations that stay in capitals.
pub open spec fn is_acronym(s: Seq<char>) -> bool {
    s == "BMS"@ || s == "AFE"@ || s == "MCU"@ || s == "USB"@ || s == "I2C"@ || s == "SPI"@ || s
        == "CAN"@
}

pub open spec fn has_digit(s: Seq<char>) -> bool {
    exists|k: int| 0 <= k < s.len() && is_digit(#[trigger] s[k])
}

/// A word as it is shown: an abbreviation or a part number in capitals, any other word with
/// one capital.
pub open spec fn shown_word(w: Seq<char>) -> Seq<char> {
    if is_acronym(upper(w)) || has_digit(w) {
        upper(w)
    } else {
        seq![crate::text::upper_char(crate::text::lower_char(w[0]))] + crate::text::lower(w.skip(1))
    }
}

/// Words with one space between them.
pub open spec fn spaced(words: Seq<Seq<char>>) -> Seq<char>
    decreases words.len(),
{
    if words.len() == 0 {
        Seq::empty()
    } else if words.len() == 1 {
        words[0]
    } else {
        spaced(words.drop_last()) + " "@ + words.last()
    }
}

pub open spec fn shown_words(words: Seq<Seq<char>>) -> Seq<Seq<char>> {
    words.map_values(|w: Seq<char>| shown_word(w))
}

/// A sheet's name as it is shown.
pub open spec fn sheet_title(value: Seq<char>) -> Seq<char> {
    let name = without_number(value);
    let words = words_from(name, 0);
    if words.len() == 0 {
        name
    } else {
        spaced(shown_words(words))
    }
}

fn find_underscore(s: &Vec<char>) -> (r: usize)
    ensures
        r == underscore(s@, 0),
        r <= s@.len(),
{
    let mut i: usize = 0;
    while i < s.len()
        invariant
            i <= s@.len(),
            underscore(s@, 0) == underscore(s@, i as nat),
        decreases s@.len() - i,
    {
        if s[i] == '_' {
            return i;
        }
        i = i + 1;
    }
    i
}

fn strip_number(s: &Vec<char>) -> (r: usize)
    ensures
        r <= s@.len(),
        s@.skip(r as int) == without_number(s@),
{
    let u = find_underscore(s);
    proof {
        assert(s@.skip(0) =~= s@);
    }
    if u >= s.len() {
        return 0;
    }
    let mut k: usize = 0;
    while k < u
        invariant
            k <= u < s@.len(),
            u == underscore(s@, 0),
            s@.skip(0) == s@,
            forall|j: int| 0 <= j < k ==> is_digit(#[trigger] s@[j]),
        decreases u - k,
    {
        if !('0' <= s[k] && s[k] <= '9') {
            return 0;
        }
        k = k + 1;
    }
    u + 1
}

fn to_lower(c: char) -> (r: char)
    ensures
        r == crate::text::lower_char(c),
{
    if 'A' <= c && c <= 'Z' {
        (c as u8 + 32) as char
    } else {
        c
    }
}

fn upper_of(s: &Vec<char>, from: usize, to: usize) -> (r: String)
    requires
        from <= to <= s@.len(),
    ensures
        r@ == upper(s@.subrange(from as int, to as int)),
{
    let mut r = String::new();
    let mut i: usize = from;
    while i < to
        invariant
            from <= i <= to <= s@.len(),
            r@ == upper(s@.subrange(from as int, i as int)),
        decreases to - i,
    {
        r.push(to_upper_char(s[i]));
        proof {
            assert(upper(s@.subrange(from as int, i + 1)) =~= upper(
                s@.subrange(from as int, i as int),
            ).push(crate::text::upper_char(s@[i as int])));
        }
        i = i + 1;
    }
    r
}

fn any_digit(s: &Vec<char>, from: usize, to: usize) -> (r: bool)
    requires
        from <= to <= s@.len(),
    ensures
        r == has_digit(s@.subrange(from as int, to as int)),
{
    let ghost w = s@.subrange(from as int, to as int);
    let mut i: usize = from;
    while i < to
        invariant
            from <= i <= to <= s@.len(),
            w == s@.subrange(from as int, to as int),
            forall|k: int| 0 <= k < i - from ==> !is_digit(#[trigger] w[k]),
        decreases to - i,
    {
        assert(w[i - from] == s@[i as int]);
        if '0' <= s[i] && s[i] <= '9' {
            return true;
        }
        i = i + 1;
    }
    false
}

fn show_word(s: &Vec<char>, from: usize, to: usize) -> (r: String)
    requires
        from < to <= s@.len(),
    ensures
        r@ == shown_word(s@.subrange(from as int, to as int)),
{
    let ghost w = s@.subrange(from as int, to as int);
    let capitals = upper_of(s, from, to);
    let u = capitals.as_str();
    if same(u, "BMS") || same(u, "AFE") || same(u, "MCU") || same(u, "USB") || same(u, "I2C")
        || same(u, "SPI") || same(u, "CAN") {
        return capitals;
    }
    if any_digit(s, from, to) {
        return capitals;
    }
    let mut r = String::new();
    r.push(to_upper_char(to_lower(s[from])));
    let mut i: usize = from + 1;
    proof {
        assert(w.skip(1).take(0) =~= Seq::<char>::empty());
        assert(r@ =~= seq![crate::text::upper_char(crate::text::lower_char(w[0]))]
            + crate::text::lower(w.skip(1).take(0)));
    }
    while i < to
        invariant
            from + 1 <= i <= to <= s@.len(),
            w == s@.subrange(from as int, to as int),
            r@ == seq![crate::text::upper_char(crate::text::lower_char(w[0]))]
                + crate::text::lower(w.skip(1).take(i - from - 1)),
        decreases to - i,
    {
        let ghost before = w.skip(1).take(i - from - 1);
        r.push(to_lower(s[i]));
        proof {
            assert(w.skip(1).take(i - from) =~= before.push(s@[i as int]));
            assert(crate::text::lower(before.push(s@[i as int])) =~= crate::text::lower(
                before,
            ).push(crate::text::lower_char(s@[i as int])));
            assert(r@ =~= seq![crate::text::upper_char(crate::text::lower_char(w[0]))]
                + crate::text::lower(w.skip(1).take(i - from)));
        }
        i = i + 1;
    }
    proof {
        assert(w.skip(1).take(to - from - 1) =~= w.skip(1));
    }
    r
}

fn find_word_end(s: &Vec<char>, from: usize) -> (r: usize)
    requires
        from < s@.len(),
    ensures
        r == word_end(s@, from as nat + 1),
        from < r <= s@.len(),
{
    let n: usize = s.len();
    let mut i: usize = from + 1;
    while i < n && !(s[i] == '_' || s[i] == '-')
        invariant
            from < i <= s@.len(),
            n == s@.len(),
            word_end(s@, from as nat + 1) == word_end(s@, i as nat),
        decreases s@.len() - i,
    {
        i = i + 1;
    }
    i
}

/// A sheet's name as it is shown: without a leading number, its words parted by spaces.
pub fn display_sheet_name(value: &str) -> (r: String)
    ensures
        r@ == sheet_title(value@),
{
    let all = chars_of(value);
    let start = strip_number(&all);
    let text = string_of(&all, start, all.len());
    proof {
        assert(all@.subrange(start as int, all@.len() as int) =~= all@.skip(start as int));
    }
    let s = chars_of(text.as_str());
    let mut r = String::new();
    let mut i: usize = 0;
    let mut any: bool = false;
    let ghost mut done: Seq<Seq<char>> = Seq::empty();
    proof {
        assert(shown_words(done) =~= Seq::<Seq<char>>::empty());
        assert(words_from(s@, 0) =~= done + words_from(s@, 0));
    }
    while i < s.len()
        invariant
            i <= s@.len(),
            words_from(s@, 0) == done + words_from(s@, i as nat),
            r@ == spaced(shown_words(done)),
            any == (done.len() > 0),
        decreases s@.len() - i,
    {
        if s[i] == '_' || s[i] == '-' {
            i = i + 1;
        } else {
            let end = find_word_end(&s, i);
            let word = show_word(&s, i, end);
            proof {
                let w = s@.subrange(i as int, end as int);
                let next = done.push(w);
                assert(words_from(s@, i as nat) == seq![w] + words_from(s@, end as nat));
                assert(done + (seq![w] + words_from(s@, end as nat)) =~= next + words_from(
                    s@,
                    end as nat,
                ));
                assert(shown_words(next) =~= shown_words(done).push(shown_word(w)));
                assert(shown_words(next).drop_last() =~= shown_words(done));
                done = next;
            }
            if any {
                r.append(" ");
            }
            r.append(word.as_str());
            any = true;
            i = end;
        }
    }
    proof {
        assert(words_from(s@, s@.len() as nat) =~= Seq::<Seq<char>>::empty());
        assert(done + Seq::<Seq<char>>::empty() =~= done);
    }
    if any {
        r
    } else {
        text
    }
}

} // verus!
