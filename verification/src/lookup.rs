//! Picking a theater or a modifier by what a person typed: a number, a slug, or a name in
//! any letter case.

use vstd::prelude::*;
use vstd::string::StrSliceExecFns;
use crate::maps::{theater_by_slug, theater_name, theater_slug, theaters, THEATER_COUNT};
use crate::modifiers::{modifier_at, modifiers, Modifier};

verus! {

/// The code of `c`, with ASCII capitals read as small letters.
pub open spec fn fold_code(c: char) -> u32 {
    let v = c as u32;
    if 65 <= v <= 90 {
        (v + 32) as u32
    } else {
        v
    }
}

/// `a` and `b` are the same text when ASCII letter case is ignored.
pub open spec fn same_ignoring_case(a: Seq<char>, b: Seq<char>) -> bool {
    &&& a.len() == b.len()
    &&& forall|i: int| 0 <= i < a.len() ==> #[trigger] fold_code(a[i]) == fold_code(b[i])
}

pub open spec fn is_digit(c: char) -> bool {
    48 <= (c as u32) <= 57
}

/// The number written by the decimal digits `ds`.
pub open spec fn decimal(ds: Seq<char>) -> int
    decreases ds.len(),
{
    if ds.len() == 0 {
        0
    } else {
        decimal(ds.drop_last()) * 10 + ((ds.last() as u32) - 48)
    }
}

/// The digits of an unsigned number as written: an optional leading `+` dropped.
pub open spec fn unsigned_digits(cs: Seq<char>) -> Seq<char> {
    if cs.len() > 0 && cs[0] == '+' {
        cs.drop_first()
    } else {
        cs
    }
}

/// The byte-sized number `cs` spells: decimal digits after an optional `+`, at most 255.
pub open spec fn parsed_u8(cs: Seq<char>) -> Option<u8> {
    let ds = unsigned_digits(cs);
    if ds.len() > 0 && (forall|i: int| 0 <= i < ds.len() ==> #[trigger] is_digit(ds[i])) && decimal(
        ds,
    ) <= 255 {
        Some(decimal(ds) as u8)
    } else {
        None
    }
}

/// The first of `i..n` that has `p`.
pub open spec fn first_from(i: int, n: int, p: spec_fn(int) -> bool) -> Option<int>
    decreases n - i,
{
    if i >= n {
        None
    } else if p(i) {
        Some(i)
    } else {
        first_from(i + 1, n, p)
    }
}

proof fn lemma_first_from(i: int, n: int, p: spec_fn(int) -> bool, k: int)
    requires
        i <= k < n,
        p(k),
        forall|j: int| i <= j < k ==> !#[trigger] p(j),
    ensures
        first_from(i, n, p) == Some(k),
    decreases k - i,
{
    if i < k {
        lemma_first_from(i + 1, n, p, k);
    }
}

proof fn lemma_first_none(i: int, n: int, p: spec_fn(int) -> bool)
    requires
        forall|j: int| i <= j < n ==> !#[trigger] p(j),
    ensures
        first_from(i, n, p) is None,
    decreases n - i,
{
    if i < n {
        lemma_first_none(i + 1, n, p);
    }
}

proof fn lemma_decimal_grows(ds: Seq<char>)
    requires
        forall|i: int| 0 <= i < ds.len() ==> #[trigger] is_digit(ds[i]),
    ensures
        decimal(ds) >= 0,
        ds.len() > 0 ==> decimal(ds) >= decimal(ds.drop_last()),
    decreases ds.len(),
{
    if ds.len() > 0 {
        let d = ds.drop_last();
        assert forall|i: int| 0 <= i < d.len() implies #[trigger] is_digit(d[i]) by {
            assert(d[i] == ds[i]);
        }
        lemma_decimal_grows(d);
        assert(is_digit(ds[ds.len() - 1]));
    }
}

fn fold(c: char) -> (r: u32)
    ensures
        r == fold_code(c),
{
    let v = c as u32;
    if 65 <= v && v <= 90 {
        v + 32
    } else {
        v
    }
}

/// Are the two texts the same when ASCII letter case is ignored?
pub fn eq_ignoring_case(a: &str, b: &str) -> (r: bool)
    ensures
        r == same_ignoring_case(a@, b@),
{
    let n = a.unicode_len();
    if n != b.unicode_len() {
        return false;
    }
    let mut i: usize = 0;
    while i < n
        invariant
            n == a@.len(),
            n == b@.len(),
            i <= n,
            forall|j: int| 0 <= j < i ==> #[trigger] fold_code(a@[j]) == fold_code(b@[j]),
        decreases n - i,
    {
        if fold(a.get_char(i)) != fold(b.get_char(i)) {
            return false;
        }
        i = i + 1;
    }
    true
}

/// Reads a byte-sized number: decimal digits after an optional `+`, at most 255.
pub fn parse_u8(s: &str) -> (r: Option<u8>)
    ensures
        r == parsed_u8(s@),
{
    let n = s.unicode_len();
    let mut start: usize = 0;
    if n > 0 && s.get_char(0) == '+' {
        start = 1;
    }
    let ghost ds = unsigned_digits(s@);
    assert(ds == s@.subrange(start as int, n as int));
    if start >= n {
        return None;
    }
    let mut acc: u32 = 0;
    let mut i: usize = start;
    while i < n
        invariant
            n == s@.len(),
            start <= i <= n,
            ds == s@.subrange(start as int, n as int),
            ds == unsigned_digits(s@),
            forall|j: int| 0 <= j < i - start ==> #[trigger] is_digit(ds[j]),
            acc <= 256,
            acc < 256 ==> acc == decimal(ds.take(i - start)),
            acc == 256 ==> decimal(ds.take(i - start)) > 255,
        decreases n - i,
    {
        let c = s.get_char(i);
        let v = c as u32;
        let k = i - start;
        assert(ds[k as int] == c);
        if v < 48 || v > 57 {
            assert(!is_digit(ds[k as int]));
            return None;
        }
        proof {
            let t = ds.take(k + 1);
            assert(t.drop_last() == ds.take(k as int));
            assert(t.last() == c);
            assert forall|j: int| 0 <= j < t.len() implies #[trigger] is_digit(t[j]) by {
                assert(t[j] == ds[j]);
            }
            lemma_decimal_grows(t);
        }
        if acc < 256 {
            let next = acc * 10 + (v - 48);
            acc = if next > 255 {
                256
            } else {
                next
            };
        }
        i = i + 1;
    }
    proof {
        assert(ds.take(n - start) == ds);
    }
    if acc > 255 {
        None
    } else {
        Some(acc as u8)
    }
}

/// The theater meant by `s`: a number as is; else the first theater whose slug is `s`; else
/// the first whose name is `s` in any letter case; else the first theater.
pub open spec fn map_choice(s: Seq<char>) -> u8 {
    match parsed_u8(s) {
        Some(id) => id,
        None => match first_from(0, THEATER_COUNT as int, |i: int| theater_slug(i) == s) {
            Some(i) => i as u8,
            None => match first_from(
                0,
                THEATER_COUNT as int,
                |i: int| same_ignoring_case(theater_name(i), s),
            ) {
                Some(i) => i as u8,
                None => 0,
            },
        },
    }
}

pub fn parse_map(s: &str) -> (r: u8)
    ensures
        r == map_choice(s@),
{
    if let Some(id) = parse_u8(s) {
        return id;
    }
    let ghost by_slug = |i: int| theater_slug(i) == s@;
    let ghost by_name = |i: int| same_ignoring_case(theater_name(i), s@);
    match theater_by_slug(s) {
        Some(id) => {
            proof {
                lemma_first_from(0, THEATER_COUNT as int, by_slug, id as int);
            }
            return id;
        },
        None => {
            proof {
                lemma_first_none(0, THEATER_COUNT as int, by_slug);
            }
        },
    }
    let list = theaters();
    let mut i: usize = 0;
    while i < list.len()
        invariant
            list@.len() == THEATER_COUNT,
            forall|k: int|
                0 <= k < list@.len() ==> (#[trigger] list@[k]).id == k && list@[k].name@
                    == theater_name(k),
            i <= list@.len(),
            forall|j: int| 0 <= j < i ==> !#[trigger] by_name(j),
            by_name == (|i: int| same_ignoring_case(theater_name(i), s@)),
            first_from(0, THEATER_COUNT as int, by_slug) is None,
            parsed_u8(s@) is None,
            by_slug == (|i: int| theater_slug(i) == s@),
        decreases list@.len() - i,
    {
        if eq_ignoring_case(list[i].name.as_str(), s) {
            proof {
                lemma_first_from(0, THEATER_COUNT as int, by_name, i as int);
            }
            return list[i].id;
        }
        i = i + 1;
    }
    proof {
        lemma_first_none(0, THEATER_COUNT as int, by_name);
    }
    0
}

/// The modifier meant by `s`: a number as its code; else the first modifier whose slug or
/// name is `s` in any letter case; else the standard rules.
pub open spec fn mod_choice(s: Seq<char>) -> Modifier {
    match parsed_u8(s) {
        Some(id) => Modifier::from_code(id),
        None => match first_from(
            0,
            7,
            |i: int|
                same_ignoring_case(modifier_at(i).slug_text(), s) || same_ignoring_case(
                    modifier_at(i).name_text(),
                    s,
                ),
        ) {
            Some(i) => Modifier::from_code(i as u8),
            None => Modifier::Standard,
        },
    }
}

pub fn parse_mod(s: &str) -> (r: Modifier)
    ensures
        r == mod_choice(s@),
{
    if let Some(id) = parse_u8(s) {
        return Modifier::from_u8(id);
    }
    let ghost hit = |i: int|
        same_ignoring_case(modifier_at(i).slug_text(), s@) || same_ignoring_case(
            modifier_at(i).name_text(),
            s@,
        );
    let list = modifiers();
    let mut i: usize = 0;
    while i < list.len()
        invariant
            list@.len() == 7,
            forall|k: int|
                0 <= k < 7 ==> (#[trigger] list@[k]).id == k && list@[k].slug@ == modifier_at(
                    k,
                ).slug_text() && list@[k].name@ == modifier_at(k).name_text(),
            i <= 7,
            forall|j: int| 0 <= j < i ==> !#[trigger] hit(j),
            hit == (|i: int|
                same_ignoring_case(modifier_at(i).slug_text(), s@) || same_ignoring_case(
                    modifier_at(i).name_text(),
                    s@,
                )),
            parsed_u8(s@) is None,
        decreases 7 - i,
    {
        if eq_ignoring_case(list[i].slug.as_str(), s) || eq_ignoring_case(list[i].name.as_str(), s) {
            proof {
                lemma_first_from(0, 7, hit, i as int);
            }
            return Modifier::from_u8(list[i].id);
        }
        i = i + 1;
    }
    proof {
        lemma_first_none(0, 7, hit);
    }
    Modifier::Standard
}

/// Characters that `str::trim` strips: the Unicode `White_Space` set.
pub open spec fn is_space(c: char) -> bool {
    let v = c as u32;
    ||| 9 <= v <= 13
    ||| v == 32
    ||| v == 0x85
    ||| v == 0xA0
    ||| v == 0x1680
    ||| 0x2000 <= v <= 0x200A
    ||| v == 0x2028
    ||| v == 0x2029
    ||| v == 0x202F
    ||| v == 0x205F
    ||| v == 0x3000
}

/// `s` without its leading white space.
pub open spec fn trim_front(s: Seq<char>) -> Seq<char>
    decreases s.len(),
{
    if s.len() > 0 && is_space(s[0]) {
        trim_front(s.drop_first())
    } else {
        s
    }
}

/// `s` without its trailing white space.
pub open spec fn trim_back(s: Seq<char>) -> Seq<char>
    decreases s.len(),
{
    if s.len() > 0 && is_space(s.last()) {
        trim_back(s.drop_last())
    } else {
        s
    }
}

/// `s` without every leading `0x` (with `x` the given letter), however many there are.
pub open spec fn strip_radix_marks(s: Seq<char>, x: char) -> Seq<char>
    decreases s.len(),
{
    if s.len() >= 2 && s[0] == '0' && s[1] == x {
        strip_radix_marks(s.skip(2), x)
    } else {
        s
    }
}

/// The value of digit `c` in base `radix` (10 or 16), if it is one.
pub open spec fn digit_of(c: char, radix: u32) -> Option<u32> {
    let v = c as u32;
    if 48 <= v <= 57 {
        Some((v - 48) as u32)
    } else if radix == 16 && 97 <= v <= 102 {
        Some((v - 87) as u32)
    } else if radix == 16 && 65 <= v <= 70 {
        Some((v - 55) as u32)
    } else {
        None
    }
}

/// The number the digits `ds` write in base `radix`.
pub open spec fn radix_value(ds: Seq<char>, radix: u32) -> int
    decreases ds.len(),
{
    if ds.len() == 0 {
        0
    } else {
        radix_value(ds.drop_last(), radix) * radix + digit_of(ds.last(), radix).unwrap_or(0)
    }
}

/// The 64-bit number `cs` spells in base `radix`: digits after an optional `+`, none of
/// them missing, the value within range.
pub open spec fn parsed_u64(cs: Seq<char>, radix: u32) -> Option<u64> {
    let ds = unsigned_part(cs);
    if ds.len() > 0 && (forall|i: int| 0 <= i < ds.len() ==> (#[trigger] digit_of(ds[i], radix)) is Some)
        && radix_value(ds, radix) <= u64::MAX {
        Some(radix_value(ds, radix) as u64)
    } else {
        None
    }
}

/// The seed meant by `raw`: trimmed and without leading `0x` / `0X` marks, read as
/// hexadecimal, else as decimal, else 1.
pub open spec fn seed_choice(raw: Seq<char>) -> u64 {
    let t = strip_radix_marks(strip_radix_marks(trim_back(trim_front(raw)), 'x'), 'X');
    match parsed_u64(t, 16) {
        Some(v) => v,
        None => match parsed_u64(t, 10) {
            Some(v) => v,
            None => 1,
        },
    }
}

proof fn lemma_radix_grows(ds: Seq<char>, radix: u32)
    requires
        radix == 10 || radix == 16,
    ensures
        radix_value(ds, radix) >= 0,
        ds.len() > 0 ==> radix_value(ds, radix) >= radix_value(ds.drop_last(), radix),
    decreases ds.len(),
{
    if ds.len() > 0 {
        lemma_radix_grows(ds.drop_last(), radix);
        let p = radix_value(ds.drop_last(), radix);
        assert(p * radix >= p) by (nonlinear_arith)
            requires
                p >= 0,
                radix >= 1,
        ;
    }
}

fn is_space_char(c: char) -> (r: bool)
    ensures
        r == is_space(c),
{
    let v = c as u32;
    (9 <= v && v <= 13) || v == 32 || v == 0x85 || v == 0xA0 || v == 0x1680 || (0x2000 <= v && v
        <= 0x200A) || v == 0x2028 || v == 0x2029 || v == 0x202F || v == 0x205F || v == 0x3000
}

fn digit_char(c: char, radix: u32) -> (r: Option<u32>)
    ensures
        r == digit_of(c, radix),
{
    let v = c as u32;
    if 48 <= v && v <= 57 {
        Some(v - 48)
    } else if radix == 16 && 97 <= v && v <= 102 {
        Some(v - 87)
    } else if radix == 16 && 65 <= v && v <= 70 {
        Some(v - 55)
    } else {
        None
    }
}

/// The digits of a number as written: an optional leading `+` dropped.
pub open spec fn unsigned_part(cs: Seq<char>) -> Seq<char> {
    if cs.len() > 0 && cs[0] == '+' {
        cs.drop_first()
    } else {
        cs
    }
}

/// Digits whose leading part already overflows make no 64-bit number.
proof fn lemma_too_big(ds: Seq<char>, radix: u32, m: int)
    requires
        radix == 10 || radix == 16,
        0 <= m <= ds.len(),
        radix_value(ds.take(m), radix) > u64::MAX,
    ensures
        radix_value(ds, radix) > u64::MAX,
{
    lemma_take_grows(ds, radix, m, ds.len() as int);
    assert(ds.take(ds.len() as int) == ds);
}

/// One more digit: the value of the longer prefix, and whether it overflows.
proof fn lemma_next_digit(ds: Seq<char>, radix: u32, k: int, acc: u64, d: u32)
    requires
        radix == 10 || radix == 16,
        0 <= k < ds.len(),
        acc == radix_value(ds.take(k), radix),
        digit_of(ds[k], radix) == Some(d),
    ensures
        d < radix,
        radix_value(ds.take(k + 1), radix) == acc * radix + d,
{
    let t = ds.take(k + 1);
    assert(t.drop_last() == ds.take(k));
    assert(t.last() == ds[k]);
}

/// Reads the characters `lo..hi` of `s` as a 64-bit number in base `radix`.
fn parse_span(s: &str, lo: usize, hi: usize, radix: u32) -> (r: Option<u64>)
    requires
        lo <= hi <= s@.len(),
        radix == 10 || radix == 16,
    ensures
        r == parsed_u64(s@.subrange(lo as int, hi as int), radix),
{
    let ghost cs = s@.subrange(lo as int, hi as int);
    let mut start = lo;
    if lo < hi && s.get_char(lo) == '+' {
        start = lo + 1;
    }
    let ghost ds = s@.subrange(start as int, hi as int);
    assert(ds == unsigned_part(cs));
    if start >= hi {
        return None;
    }
    let mut acc: u64 = 0;
    let mut i: usize = start;
    while i < hi
        invariant
            lo <= start <= i <= hi <= s@.len(),
            radix == 10 || radix == 16,
            ds == s@.subrange(start as int, hi as int),
            ds == unsigned_part(s@.subrange(lo as int, hi as int)),
            forall|j: int| 0 <= j < i - start ==> (#[trigger] digit_of(ds[j], radix)) is Some,
            acc == radix_value(ds.take(i - start), radix),
        decreases hi - i,
    {
        let c = s.get_char(i);
        let k = i - start;
        assert(ds[k as int] == c);
        let d = match digit_char(c, radix) {
            Some(d) => d,
            None => {
                assert(digit_of(ds[k as int], radix) is None);
                return None;
            },
        };
        proof {
            lemma_next_digit(ds, radix, k as int, acc, d);
        }
        if acc > (u64::MAX - d as u64) / radix as u64 {
            proof {
                assert(acc * radix + d > u64::MAX) by (nonlinear_arith)
                    requires
                        acc > (u64::MAX - d) as int / radix as int,
                        radix >= 1,
                        d < radix,
                ;
                lemma_too_big(ds, radix, k + 1);
            }
            return None;
        }
        proof {
            assert(acc * radix + d <= u64::MAX) by (nonlinear_arith)
                requires
                    acc <= (u64::MAX - d) as int / radix as int,
                    radix >= 1,
                    d < radix,
            ;
        }
        acc = acc * radix as u64 + d as u64;
        i = i + 1;
    }
    proof {
        assert(ds.take(hi - start) == ds);
    }
    Some(acc)
}

proof fn lemma_take_grows(ds: Seq<char>, radix: u32, a: int, b: int)
    requires
        radix == 10 || radix == 16,
        0 <= a <= b <= ds.len(),
    ensures
        radix_value(ds.take(b), radix) >= radix_value(ds.take(a), radix),
    decreases b - a,
{
    if a < b {
        lemma_take_grows(ds, radix, a, b - 1);
        assert(ds.take(b).drop_last() == ds.take(b - 1));
        lemma_radix_grows(ds.take(b), radix);
    }
}

/// The seed meant by a typed text: trimmed, without leading `0x` / `0X` marks, read as
/// hexadecimal, else as decimal, else 1.
pub fn parse_seed(raw: &str) -> (r: u64)
    ensures
        r == seed_choice(raw@),
{
    let n = raw.unicode_len();
    let mut lo: usize = 0;
    assert(raw@.subrange(0, n as int) == raw@);
    while lo < n && is_space_char(raw.get_char(lo))
        invariant
            n == raw@.len(),
            lo <= n,
            trim_front(raw@) == trim_front(raw@.subrange(lo as int, n as int)),
        decreases n - lo,
    {
        proof {
            let t = raw@.subrange(lo as int, n as int);
            assert(t.drop_first() == raw@.subrange(lo + 1, n as int));
        }
        lo = lo + 1;
    }
    let ghost front = raw@.subrange(lo as int, n as int);
    assert(trim_front(front) == front);
    let mut hi: usize = n;
    while hi > lo && is_space_char(raw.get_char(hi - 1))
        invariant
            n == raw@.len(),
            lo <= hi <= n,
            front == raw@.subrange(lo as int, n as int),
            trim_back(front) == trim_back(raw@.subrange(lo as int, hi as int)),
        decreases hi - lo,
    {
        proof {
            let t = raw@.subrange(lo as int, hi as int);
            assert(t.drop_last() == raw@.subrange(lo as int, hi - 1));
        }
        hi = hi - 1;
    }
    let ghost trimmed = raw@.subrange(lo as int, hi as int);
    assert(trim_back(trimmed) == trimmed);
    let mut a: usize = lo;
    while hi - a >= 2 && raw.get_char(a) == '0' && raw.get_char(a + 1) == 'x'
        invariant
            lo <= a <= hi <= raw@.len(),
            strip_radix_marks(trimmed, 'x') == strip_radix_marks(raw@.subrange(a as int, hi as int), 'x'),
        decreases hi - a,
    {
        proof {
            let t = raw@.subrange(a as int, hi as int);
            assert(t.skip(2) == raw@.subrange(a + 2, hi as int));
        }
        a = a + 2;
    }
    let ghost s1 = raw@.subrange(a as int, hi as int);
    assert(strip_radix_marks(s1, 'x') == s1);
    while hi - a >= 2 && raw.get_char(a) == '0' && raw.get_char(a + 1) == 'X'
        invariant
            lo <= a <= hi <= raw@.len(),
            strip_radix_marks(s1, 'X') == strip_radix_marks(raw@.subrange(a as int, hi as int), 'X'),
        decreases hi - a,
    {
        proof {
            let t = raw@.subrange(a as int, hi as int);
            assert(t.skip(2) == raw@.subrange(a + 2, hi as int));
        }
        a = a + 2;
    }
    assert(strip_radix_marks(raw@.subrange(a as int, hi as int), 'X') == raw@.subrange(a as int, hi as int));
    match parse_span(raw, a, hi, 16) {
        Some(v) => v,
        None => match parse_span(raw, a, hi, 10) {
            Some(v) => v,
            None => 1,
        },
    }
}

} // verus!
