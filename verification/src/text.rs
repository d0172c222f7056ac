//! Strings as sequences of characters: comparison, search, numerals.

use vstd::prelude::*;

verus! {

/// `String::push`: appends one character.
pub assume_specification [ String::push ](s: &mut String, c: char)
    ensures
        final(s)@ == old(s)@.push(c),
;

/// The characters of a string.
pub fn chars_of(s: &str) -> (r: Vec<char>)
    ensures
        r@ == s@,
{
    let mut r: Vec<char> = Vec::new();
    for c in it: s.chars()
        invariant
            r@ == s@.take(it.index() as int),
            it.seq() == s@,
    {
        proof {
            assert(s@.take(it.index() as int).push(c) =~= s@.take(it.index() + 1));
        }
        r.push(c);
    }
    assert(s@.take(s@.len() as int) =~= s@);
    r
}

/// The string of the characters from `from` up to, and without, `to`.
pub fn string_of(chars: &Vec<char>, from: usize, to: usize) -> (r: String)
    requires
        from <= to <= chars@.len(),
    ensures
        r@ == chars@.subrange(from as int, to as int),
{
    let mut r = String::new();
    let mut i: usize = from;
    while i < to
        invariant
            from <= i <= to <= chars@.len(),
            r@ == chars@.subrange(from as int, i as int),
        decreases to - i,
    {
        r.push(chars[i]);
        proof {
            assert(chars@.subrange(from as int, i + 1) =~= chars@.subrange(
                from as int,
                i as int,
            ).push(chars@[i as int]));
        }
        i = i + 1;
    }
    r
}

/// The two strings hold the same characters.
pub fn same(a: &str, b: &str) -> (r: bool)
    ensures
        r == (a@ == b@),
{
    a.to_owned() == b.to_owned()
}

/// The optional string is there and holds the same characters.
pub fn is_some_str(a: &Option<String>, b: &str) -> (r: bool)
    ensures
        r == (a matches Some(s) && s@ == b@),
{
    match a {
        Some(s) => same(s.as_str(), b),
        None => false,
    }
}

/// The characters of an optional string.
pub open spec fn opt_view(s: Option<String>) -> Option<Seq<char>> {
    match s {
        Some(s) => Some(s@),
        None => None,
    }
}

/// A copy of an optional string.
pub fn clone_opt(s: &Option<String>) -> (r: Option<String>)
    ensures
        opt_view(r) == opt_view(*s),
{
    match s {
        Some(s) => Some(s.clone()),
        None => None,
    }
}

/// Both strings are there and equal, or neither is there.
pub fn same_opt(a: &Option<String>, b: &Option<String>) -> (r: bool)
    ensures
        r == (opt_view(*a) == opt_view(*b)),
{
    match (a, b) {
        (Some(a), Some(b)) => same(a.as_str(), b.as_str()),
        (None, None) => true,
        _ => false,
    }
}

/// `a` comes before `b` in the order of their code points.
pub open spec fn lex_less(a: Seq<char>, b: Seq<char>) -> bool
    decreases a.len(),
{
    if b.len() == 0 {
        false
    } else if a.len() == 0 {
        true
    } else if a[0] != b[0] {
        (a[0] as int) < (b[0] as int)
    } else {
        lex_less(a.skip(1), b.skip(1))
    }
}

/// `a` comes before `b` in the order of their code points.
pub fn str_less(a: &str, b: &str) -> (r: bool)
    ensures
        r == lex_less(a@, b@),
{
    let x = chars_of(a);
    let y = chars_of(b);
    let mut i: usize = 0;
    assert(x@.skip(0) =~= x@ && y@.skip(0) =~= y@);
    while i < x.len() && i < y.len() && x[i] == y[i]
        invariant
            i <= x@.len(),
            i <= y@.len(),
            lex_less(x@, y@) == lex_less(x@.skip(i as int), y@.skip(i as int)),
        decreases x@.len() - i,
    {
        proof {
            assert(x@.skip(i as int).skip(1) =~= x@.skip(i + 1));
            assert(y@.skip(i as int).skip(1) =~= y@.skip(i + 1));
        }
        i = i + 1;
    }
    if i >= y.len() {
        false
    } else if i >= x.len() {
        true
    } else {
        x[i] < y[i]
    }
}

/// The order is strict and total.
pub proof fn lex_less_is_total(a: Seq<char>, b: Seq<char>)
    ensures
        !lex_less(a, a),
        lex_less(a, b) ==> !lex_less(b, a),
        a != b ==> lex_less(a, b) || lex_less(b, a),
    decreases a.len(),
{
    if a.len() > 0 && b.len() > 0 {
        lex_less_is_total(a.skip(1), b.skip(1));
        if a[0] == b[0] && a.skip(1) == b.skip(1) {
            assert(a =~= seq![a[0]] + a.skip(1));
            assert(b =~= seq![b[0]] + b.skip(1));
        }
    } else if a.len() > 0 {
        lex_less_is_total(a.skip(1), a.skip(1));
    } else {
        assert(b.len() == 0 ==> a =~= b);
    }
}

pub proof fn lex_less_is_transitive(a: Seq<char>, b: Seq<char>, c: Seq<char>)
    requires
        lex_less(a, b),
        lex_less(b, c),
    ensures
        lex_less(a, c),
    decreases a.len(),
{
    if a.len() > 0 && a[0] == b[0] && b[0] == c[0] {
        lex_less_is_transitive(a.skip(1), b.skip(1), c.skip(1));
    }
}

/// `needle` occurs in `s`.
pub open spec fn occurs(s: Seq<char>, needle: Seq<char>) -> bool {
    exists|i: int|
        0 <= i && i + needle.len() <= s.len() && #[trigger] s.subrange(i, i + needle.len())
            == needle
}

/// `needle` stands in `s` at `at`.
pub fn occurs_at(s: &Vec<char>, at: usize, needle: &Vec<char>) -> (r: bool)
    ensures
        r == (at + needle@.len() <= s@.len() && s@.subrange(at as int, at + needle@.len())
            == needle@),
{
    if at > s.len() || needle.len() > s.len() - at {
        return false;
    }
    let mut i: usize = 0;
    while i < needle.len()
        invariant
            i <= needle@.len(),
            at + needle@.len() <= s.len(),
            forall|k: int| 0 <= k < i ==> s@[at + k] == #[trigger] needle@[k],
        decreases needle@.len() - i,
    {
        if s[at + i] != needle[i] {
            assert(s@.subrange(at as int, at + needle@.len())[i as int] == s@[at + i]);
            return false;
        }
        i = i + 1;
    }
    assert(s@.subrange(at as int, at + needle@.len()) =~= needle@);
    true
}

/// `needle` occurs in `s`.
pub fn chars_contain(s: &Vec<char>, needle: &Vec<char>) -> (r: bool)
    ensures
        r == occurs(s@, needle@),
{
    if needle.len() > s.len() {
        return false;
    }
    let mut i: usize = 0;
    while i <= s.len() - needle.len()
        invariant
            needle@.len() <= s@.len(),
            i <= s@.len() - needle@.len() + 1,
            forall|k: int|
                0 <= k < i ==> #[trigger] s@.subrange(k, k + needle@.len()) != needle@,
        decreases s@.len() - needle@.len() + 1 - i,
    {
        if occurs_at(s, i, needle) {
            return true;
        }
        if i == s.len() - needle.len() {
            return false;
        }
        i = i + 1;
    }
    false
}

/// `needle` occurs in `s`.
pub fn contains(s: &str, needle: &str) -> (r: bool)
    ensures
        r == occurs(s@, needle@),
{
    chars_contain(&chars_of(s), &chars_of(needle))
}

/// `s` begins with `prefix`.
pub open spec fn begins(s: Seq<char>, prefix: Seq<char>) -> bool {
    prefix.len() <= s.len() && s.take(prefix.len() as int) == prefix
}

/// `s` begins with `prefix`.
pub fn starts_with(s: &str, prefix: &str) -> (r: bool)
    ensures
        r == begins(s@, prefix@),
{
    let x = chars_of(s);
    let y = chars_of(prefix);
    proof {
        if prefix@.len() <= s@.len() {
            assert(x@.subrange(0, y@.len() as int) =~= s@.take(prefix@.len() as int));
        }
    }
    occurs_at(&x, 0, &y)
}

/// `s` ends with `suffix`.
pub open spec fn ends(s: Seq<char>, suffix: Seq<char>) -> bool {
    suffix.len() <= s.len() && s.skip(s.len() - suffix.len()) == suffix
}

/// `s` ends with `suffix`.
pub fn ends_with(s: &str, suffix: &str) -> (r: bool)
    ensures
        r == ends(s@, suffix@),
{
    let x = chars_of(s);
    let y = chars_of(suffix);
    if y.len() > x.len() {
        return false;
    }
    proof {
        assert(x@.subrange(x@.len() - y@.len(), x@.len() as int) =~= s@.skip(
            s@.len() - suffix@.len(),
        ));
    }
    occurs_at(&x, x.len() - y.len(), &y)
}

/// An ASCII capital's small letter, any other character itself.
pub open spec fn lower_char(c: char) -> char {
    if 'A' <= c <= 'Z' {
        (c as u8 + 32) as char
    } else {
        c
    }
}

/// An ASCII small letter's capital, any other character itself.
pub open spec fn upper_char(c: char) -> char {
    if 'a' <= c <= 'z' {
        (c as u8 - 32) as char
    } else {
        c
    }
}

pub open spec fn lower(s: Seq<char>) -> Seq<char> {
    s.map_values(|c: char| lower_char(c))
}

fn to_lower_char(c: char) -> (r: char)
    ensures
        r == lower_char(c),
{
    if 'A' <= c && c <= 'Z' {
        (c as u8 + 32) as char
    } else {
        c
    }
}

pub fn to_upper_char(c: char) -> (r: char)
    ensures
        r == upper_char(c),
{
    if 'a' <= c && c <= 'z' {
        (c as u8 - 32) as char
    } else {
        c
    }
}

/// The characters of `s` with its ASCII capitals made small.
pub fn lower_chars(s: &str) -> (r: Vec<char>)
    ensures
        r@ == lower(s@),
{
    let x = chars_of(s);
    let mut r: Vec<char> = Vec::new();
    let mut i: usize = 0;
    while i < x.len()
        invariant
            i <= x@.len(),
            r@ =~= lower(x@.take(i as int)),
        decreases x@.len() - i,
    {
        r.push(to_lower_char(x[i]));
        i = i + 1;
    }
    assert(x@.take(i as int) =~= x@);
    r
}

/// The digit of a number below ten.
pub open spec fn digit(d: int) -> char {
    (48 + d) as char
}

/// The decimal numeral of `n`.
pub open spec fn decimal(n: nat) -> Seq<char>
    decreases n,
{
    if n < 10 {
        seq![digit(n as int)]
    } else {
        decimal(n / 10).push(digit((n % 10) as int))
    }
}

/// A numeral has no more digits than the number has units, but for zero.
pub proof fn decimal_is_short(n: nat)
    ensures
        1 <= decimal(n).len() <= n + 1,
        n < 100000000000000000000 ==> decimal(n).len() <= 20,
    decreases n,
{
    reveal_with_fuel(decimal, 21);
    if n >= 10 {
        decimal_is_short(n / 10);
    }
}

fn to_digit(d: u64) -> (r: char)
    requires
        d < 16,
    ensures
        d < 10 ==> r == digit(d as int),
        r == hex_digit(d as int),
{
    if d < 10 {
        (48 + d as u8) as char
    } else {
        (87 + d as u8) as char
    }
}

/// The decimal numeral of `n`.
pub fn to_decimal(n: u128) -> (r: String)
    ensures
        r@ == decimal(n as nat),
    decreases n,
{
    if n < 10 {
        let mut r = String::new();
        r.push(to_digit(n as u64));
        assert(r@ =~= decimal(n as nat));
        r
    } else {
        let mut r = to_decimal(n / 10);
        r.push(to_digit((n % 10) as u64));
        r
    }
}

/// The last `width` digits of the decimal numeral of `n`, with leading zeros.
pub open spec fn digits(n: nat, width: nat) -> Seq<char>
    decreases width,
{
    if width == 0 {
        Seq::empty()
    } else {
        digits(n / 10, (width - 1) as nat).push(digit((n % 10) as int))
    }
}

/// The last `width` digits of the decimal numeral of `n`, with leading zeros.
pub fn to_digits(n: u64, width: u8) -> (r: String)
    ensures
        r@ == digits(n as nat, width as nat),
    decreases width,
{
    if width == 0 {
        let r = String::new();
        assert(r@ =~= digits(n as nat, 0));
        r
    } else {
        let mut r = to_digits(n / 10, width - 1);
        r.push(to_digit(n % 10));
        r
    }
}

/// The small hexadecimal digit of a number below sixteen.
pub open spec fn hex_digit(d: int) -> char {
    if d < 10 {
        (48 + d) as char
    } else {
        (87 + d) as char
    }
}

/// The hexadecimal numeral of `n`, padded with zeros to `width` digits; only the low digits
/// where it has more.
pub open spec fn hex(n: nat, width: nat) -> Seq<char>
    decreases width,
{
    if width == 0 {
        Seq::empty()
    } else {
        hex(n / 16, (width - 1) as nat).push(hex_digit((n % 16) as int))
    }
}

/// The hexadecimal numeral of `n` in `width` digits.
pub fn to_hex(n: u128, width: u8) -> (r: String)
    ensures
        r@ == hex(n as nat, width as nat),
    decreases width,
{
    if width == 0 {
        let r = String::new();
        assert(r@ =~= hex(n as nat, 0));
        r
    } else {
        let mut r = to_hex(n / 16, width - 1);
        r.push(to_digit((n % 16) as u64));
        r
    }
}

/// The two strings, one after the other.
pub fn joined(a: &str, b: &str) -> (r: String)
    ensures
        r@ == a@ + b@,
{
    let mut r = a.to_owned();
    r.append(b);
    r
}

/// The three strings, one after the other.
pub fn joined3(a: &str, b: &str, c: &str) -> (r: String)
    ensures
        r@ == a@ + b@ + c@,
{
    let mut r = a.to_owned();
    r.append(b);
    r.append(c);
    r
}

/// The characters of each string.
pub open spec fn views(v: Seq<String>) -> Seq<Seq<char>> {
    v.map_values(|s: String| s@)
}

/// A copy of a list of strings.
pub fn clone_names(v: &Vec<String>) -> (r: Vec<String>)
    ensures
        views(r@) == views(v@),
{
    let mut r: Vec<String> = Vec::new();
    let mut i: usize = 0;
    while i < v.len()
        invariant
            i <= v@.len(),
            r@.len() == i,
            forall|k: int| 0 <= k < i ==> (#[trigger] r@[k])@ == v@[k]@,
        decreases v@.len() - i,
    {
        r.push(v[i].clone());
        i = i + 1;
    }
    assert(views(r@) =~= views(v@));
    r
}

/// The first place of `s` in `names`, from `from` on.
pub open spec fn place(names: Seq<Seq<char>>, s: Seq<char>, from: int) -> Option<int>
    decreases names.len() - from,
{
    if from < 0 || from >= names.len() {
        None
    } else if names[from] == s {
        Some(from)
    } else {
        place(names, s, from + 1)
    }
}

pub proof fn place_finds(names: Seq<Seq<char>>, s: Seq<char>, from: int)
    requires
        0 <= from,
    ensures
        match place(names, s, from) {
            Some(i) => from <= i < names.len() && names[i] == s && forall|k: int|
                from <= k < i ==> names[k] != s,
            None => forall|k: int| from <= k < names.len() ==> names[k] != s,
        },
        from == 0 ==> (place(names, s, from) is Some <==> names.contains(s)),
    decreases names.len() - from,
{
    if from < names.len() && names[from] != s {
        place_finds(names, s, from + 1);
    }
}

/// The first place of `s` in `names`.
pub fn find_name(names: &Vec<String>, s: &str) -> (r: Option<usize>)
    ensures
        match r {
            Some(i) => place(views(names@), s@, 0) == Some(i as int) && i < names@.len()
                && names@[i as int]@ == s@,
            None => place(views(names@), s@, 0) is None,
        },
        r is Some <==> views(names@).contains(s@),
{
    proof {
        place_finds(views(names@), s@, 0);
    }
    let mut i: usize = 0;
    while i < names.len()
        invariant
            i <= names@.len(),
            place(views(names@), s@, 0) == place(views(names@), s@, i as int),
            place(views(names@), s@, 0) is Some <==> views(names@).contains(s@),
        decreases names@.len() - i,
    {
        if same(names[i].as_str(), s) {
            return Some(i);
        }
        i = i + 1;
    }
    None
}

/// `s` is one of `names`.
pub fn has_name(names: &Vec<String>, s: &str) -> (r: bool)
    ensures
        r == views(names@).contains(s@),
{
    match find_name(names, s) {
        Some(_) => true,
        None => false,
    }
}

/// Each of `names` comes before the ones after it.
pub open spec fn ascending(names: Seq<Seq<char>>) -> bool {
    forall|i: int, j: int|
        #![trigger names[i], names[j]]
        0 <= i < j < names.len() ==> lex_less(names[i], names[j])
}

proof fn lemma_same_so_far(a: Seq<Seq<char>>, b: Seq<Seq<char>>, n: nat)
    requires
        ascending(a),
        ascending(b),
        forall|x: Seq<char>| #[trigger] a.contains(x) ==> b.contains(x),
        forall|x: Seq<char>| #[trigger] b.contains(x) ==> a.contains(x),
        n <= a.len(),
        n <= b.len(),
    ensures
        a.take(n as int) == b.take(n as int),
    decreases n,
{
    if n > 0 {
        let i = n - 1;
        lemma_same_so_far(a, b, i as nat);
        assert forall|k: int| 0 <= k < i implies a[k] == b[k] by {
            assert(a.take(i)[k] == b.take(i)[k]);
        }
        lex_less_is_total(a[i], b[i]);
        lex_less_is_total(a[i], a[i]);
        lex_less_is_total(b[i], b[i]);
        if a[i] != b[i] {
            assert(a.contains(a[i]) && b.contains(b[i]));
            assert(b.contains(a[i]) && a.contains(b[i]));
            let k = choose|k: int| 0 <= k < b.len() && b[k] == a[i];
            let l = choose|l: int| 0 <= l < a.len() && a[l] == b[i];
            assert(k < i ==> a[k] == a[i]);
            assert(l < i ==> b[l] == b[i]);
        }
        assert(a.take(n as int) =~= b.take(n as int));
    }
}

/// Ascending names that hold the same are the same.
pub proof fn ascending_names_are_determined(a: Seq<Seq<char>>, b: Seq<Seq<char>>)
    requires
        ascending(a),
        ascending(b),
        forall|x: Seq<char>| #[trigger] a.contains(x) <==> b.contains(x),
    ensures
        a == b,
{
    let n: nat = if a.len() <= b.len() {
        a.len()
    } else {
        b.len()
    };
    lemma_same_so_far(a, b, n);
    assert forall|k: int| 0 <= k < n implies a[k] == b[k] by {
        assert(a.take(n as int)[k] == b.take(n as int)[k]);
    }
    if n < b.len() {
        let y = b[n as int];
        assert(b.contains(y));
        assert(a.contains(y));
        let k = choose|k: int| 0 <= k < a.len() && a[k] == y;
        lex_less_is_total(b[k], y);
    }
    if n < a.len() {
        let y = a[n as int];
        assert(a.contains(y));
        assert(b.contains(y));
        let k = choose|k: int| 0 <= k < b.len() && b[k] == y;
        lex_less_is_total(a[k], y);
    }
    assert(a =~= b);
}

/// Puts `s` at its place among ascending names, unless it is there.
fn insert_name(names: &mut Vec<String>, s: String)
    requires
        ascending(views(old(names)@)),
    ensures
        ascending(views(final(names)@)),
        forall|x: Seq<char>| #[trigger]
            views(final(names)@).contains(x) <==> views(old(names)@).contains(x) || x == s@,
{
    let ghost before = views(names@);
    let mut i: usize = 0;
    while i < names.len() && str_less(names[i].as_str(), s.as_str())
        invariant
            i <= names@.len(),
            before == views(names@),
            ascending(before),
            forall|k: int| 0 <= k < i ==> lex_less(#[trigger] before[k], s@),
        decreases names@.len() - i,
    {
        i = i + 1;
    }
    proof {
        assert forall|k: int| i < k < before.len() implies lex_less(
            before[i as int],
            #[trigger] before[k],
        ) by {}
    }
    if i < names.len() && same(names[i].as_str(), s.as_str()) {
        assert(before[i as int] == s@);
        return ;
    }
    let ghost added = s@;
    names.insert(i, s);
    proof {
        let after = views(names@);
        assert(after =~= before.insert(i as int, added));
        assert forall|a: int, b: int|
            #![trigger after[a], after[b]]
            0 <= a < b < after.len() implies lex_less(after[a], after[b]) by {
            let x = if a < i {
                a
            } else {
                a - 1
            };
            let y = if b < i {
                b
            } else {
                b - 1
            };
            if a != i {
                assert(after[a] == before[x]);
            }
            if b != i {
                assert(after[b] == before[y]);
            }
            if a == i {
                lex_less_is_total(added, before[i as int]);
                assert(lex_less(added, before[i as int]));
                if y > i {
                    lex_less_is_transitive(added, before[i as int], before[y]);
                }
            }
        }
        assert forall|x: Seq<char>| #[trigger]
            after.contains(x) <==> before.contains(x) || x == added by {
            if after.contains(x) {
                let k = choose|k: int| 0 <= k < after.len() && after[k] == x;
                if k < i {
                    assert(before[k] == x);
                } else if k > i {
                    assert(before[k - 1] == x);
                }
            }
            if before.contains(x) {
                let k = choose|k: int| 0 <= k < before.len() && before[k] == x;
                if k < i {
                    assert(after[k] == x);
                } else {
                    assert(after[k + 1] == x);
                }
            }
            assert(after[i as int] == added);
        }
    }
}

/// `r` holds what `names` hold, each once, in ascending order.
pub open spec fn is_sorted_set(r: Seq<Seq<char>>, names: Seq<Seq<char>>) -> bool {
    ascending(r) && forall|x: Seq<char>| #[trigger] r.contains(x) <==> names.contains(x)
}

/// The names in ascending order, each once.
pub fn sorted_set(names: &Vec<String>) -> (r: Vec<String>)
    ensures
        is_sorted_set(views(r@), views(names@)),
{
    let mut r: Vec<String> = Vec::new();
    let mut i: usize = 0;
    while i < names.len()
        invariant
            i <= names@.len(),
            is_sorted_set(views(r@), views(names@.take(i as int))),
        decreases names@.len() - i,
    {
        let ghost before = views(r@);
        insert_name(&mut r, names[i].clone());
        proof {
            let some = views(names@.take(i as int));
            let more = views(names@.take(i + 1));
            assert(more =~= some.push(names@[i as int]@));
            assert forall|x: Seq<char>| #[trigger]
                views(r@).contains(x) <==> more.contains(x) by {
                assert(before.contains(x) <==> some.contains(x));
                if some.contains(x) {
                    let k = choose|k: int| 0 <= k < some.len() && some[k] == x;
                    assert(more[k] == x);
                }
                if more.contains(x) {
                    let k = choose|k: int| 0 <= k < more.len() && more[k] == x;
                    if k < some.len() {
                        assert(some[k] == x);
                    }
                }
                assert(more[i as int] == names@[i as int]@);
            }
        }
        i = i + 1;
    }
    assert(names@.take(i as int) =~= names@);
    r
}

/// Two ascending lists of the same names are the same list.
pub proof fn sorted_set_is_unique(a: Seq<Seq<char>>, b: Seq<Seq<char>>, names: Seq<Seq<char>>)
    requires
        is_sorted_set(a, names),
        is_sorted_set(b, names),
    ensures
        a == b,
    decreases a.len(),
{
    if a.len() == 0 {
        if b.len() > 0 {
            assert(b.contains(b[0]));
            assert(a.contains(b[0]));
        }
        assert(a =~= b);
    } else {
        assert(a.contains(a[0]));
        assert(b.contains(a[0]));
        let first = a[0];
        let k = choose|k: int| 0 <= k < b.len() && b[k] == first;
        if k > 0 {
            assert(b.contains(b[0]));
            assert(a.contains(b[0]));
            let j = choose|j: int| 0 <= j < a.len() && a[j] == b[0];
            assert(lex_less(b[0], b[k]));
            lex_less_is_total(first, b[0]);
            if j > 0 {
                assert(lex_less(a[0], a[j]));
            }
        }
        assert(b[0] == first);
        let ta = a.skip(1);
        let tb = b.skip(1);
        assert forall|x: Seq<char>| #[trigger] ta.contains(x) <==> tb.contains(x) by {
            lemma_tail(a, b, x);
            lemma_tail(b, a, x);
        }
        assert forall|i: int, j: int|
            #![trigger ta[i], ta[j]]
            0 <= i < j < ta.len() implies lex_less(ta[i], ta[j]) by {
            assert(lex_less(a[i + 1], a[j + 1]));
        }
        assert forall|i: int, j: int|
            #![trigger tb[i], tb[j]]
            0 <= i < j < tb.len() implies lex_less(tb[i], tb[j]) by {
            assert(lex_less(b[i + 1], b[j + 1]));
        }
        sorted_set_is_unique(ta, tb, ta);
        assert(a =~= seq![first] + ta);
        assert(b =~= seq![first] + tb);
    }
}

proof fn lemma_tail(a: Seq<Seq<char>>, b: Seq<Seq<char>>, x: Seq<char>)
    requires
        ascending(a),
        ascending(b),
        a.len() > 0,
        b.len() > 0,
        a[0] == b[0],
        forall|x: Seq<char>| #[trigger] a.contains(x) <==> b.contains(x),
    ensures
        a.skip(1).contains(x) ==> b.skip(1).contains(x),
{
    let ta = a.skip(1);
    let tb = b.skip(1);
    if ta.contains(x) {
        let i = choose|i: int| 0 <= i < ta.len() && ta[i] == x;
        assert(a[i + 1] == x);
        assert(lex_less(a[0], a[i + 1]));
        lex_less_is_total(x, x);
        assert(a.contains(x));
        assert(b.contains(x));
        let j = choose|j: int| 0 <= j < b.len() && b[j] == x;
        assert(j > 0);
        assert(tb[j - 1] == x);
    }
}

/// White space: the characters that Unicode counts as such.
pub open spec fn is_white(c: char) -> bool {
    let n = c as int;
    9 <= n <= 13 || n == 0x20 || n == 0x85 || n == 0xa0 || n == 0x1680 || 0x2000 <= n <= 0x200a || n
        == 0x2028 || n == 0x2029 || n == 0x202f || n == 0x205f || n == 0x3000
}

fn white(c: char) -> (r: bool)
    ensures
        r == is_white(c),
{
    let n: u32 = c as u32;
    (9 <= n && n <= 13) || n == 0x20 || n == 0x85 || n == 0xa0 || n == 0x1680 || (0x2000 <= n && n
        <= 0x200a) || n == 0x2028 || n == 0x2029 || n == 0x202f || n == 0x205f || n == 0x3000
}

/// Where the white space that `s` begins with ends.
pub open spec fn solid_from(s: Seq<char>, i: nat) -> nat
    decreases s.len() - i,
{
    if i < s.len() && is_white(s[i as int]) {
        solid_from(s, i + 1)
    } else {
        i
    }
}

/// Where the white space begins that the first `n` characters of `s` end with.
pub open spec fn solid_upto(s: Seq<char>, n: nat) -> nat
    decreases n,
{
    if n > 0 && is_white(s[n - 1]) {
        solid_upto(s, (n - 1) as nat)
    } else {
        n
    }
}

/// `s` without the white space that it begins and ends with.
pub open spec fn trimmed(s: Seq<char>) -> Seq<char> {
    let from = solid_from(s, 0);
    let to = solid_upto(s, s.len());
    if from < to {
        s.subrange(from as int, to as int)
    } else {
        Seq::empty()
    }
}

/// `s` without the white space that it begins and ends with.
pub fn trim(s: &str) -> (r: String)
    ensures
        r@ == trimmed(s@),
        r@.len() <= s@.len(),
{
    let chars = chars_of(s);
    let mut from: usize = 0;
    while from < chars.len() && white(chars[from])
        invariant
            from <= chars@.len(),
            solid_from(chars@, 0) == solid_from(chars@, from as nat),
        decreases chars@.len() - from,
    {
        from = from + 1;
    }
    let mut to: usize = chars.len();
    while to > 0 && white(chars[to - 1])
        invariant
            to <= chars@.len(),
            solid_upto(chars@, chars@.len()) == solid_upto(chars@, to as nat),
        decreases to,
    {
        to = to - 1;
    }
    if from < to {
        string_of(&chars, from, to)
    } else {
        let r = String::new();
        assert(r@ =~= Seq::empty());
        r
    }
}

/// Where the last line of the first `n` characters begins.
pub open spec fn line_start(s: Seq<char>, n: nat) -> nat
    decreases n,
{
    if n > 0 && s[n - 1] != '\n' {
        line_start(s, (n - 1) as nat)
    } else {
        n
    }
}

/// The white space that the last line of `s` begins with.
pub open spec fn indent_of(s: Seq<char>) -> Seq<char> {
    let from = line_start(s, s.len());
    s.subrange(from as int, solid_from(s, from) as int)
}

/// The white space that the last line of `s` begins with.
pub fn find_indent(s: &str) -> (r: String)
    ensures
        r@ == indent_of(s@),
{
    let chars = chars_of(s);
    let mut from: usize = chars.len();
    while from > 0 && chars[from - 1] != '\n'
        invariant
            from <= chars@.len(),
            line_start(chars@, chars@.len()) == line_start(chars@, from as nat),
        decreases from,
    {
        from = from - 1;
    }
    let mut to: usize = from;
    while to < chars.len() && white(chars[to])
        invariant
            from <= to <= chars@.len(),
            solid_from(chars@, from as nat) == solid_from(chars@, to as nat),
        decreases chars@.len() - to,
    {
        to = to + 1;
    }
    string_of(&chars, from, to)
}

/// What is left has no white space at its ends.
pub proof fn trimming_leaves_solid_ends(s: Seq<char>)
    ensures
        trimmed(s).len() > 0 ==> !is_white(trimmed(s)[0]) && !is_white(trimmed(s).last()),
{
    lemma_solid_from(s, 0);
    lemma_solid_upto(s, s.len());
}

proof fn lemma_solid_from(s: Seq<char>, i: nat)
    requires
        i <= s.len(),
    ensures
        i <= solid_from(s, i) <= s.len(),
        solid_from(s, i) < s.len() ==> !is_white(s[solid_from(s, i) as int]),
    decreases s.len() - i,
{
    if i < s.len() && is_white(s[i as int]) {
        lemma_solid_from(s, i + 1);
    }
}

proof fn lemma_solid_upto(s: Seq<char>, n: nat)
    requires
        n <= s.len(),
    ensures
        solid_upto(s, n) <= n,
        solid_upto(s, n) > 0 ==> !is_white(s[solid_upto(s, n) - 1]),
    decreases n,
{
    if n > 0 && is_white(s[n - 1]) {
        lemma_solid_upto(s, (n - 1) as nat);
    }
}

} // verus!
