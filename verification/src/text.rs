use vstd::prelude::*;

verus! {

/// Whether `c` has the Unicode property White_Space.
pub open spec fn is_white_space(c: char) -> bool {
    ||| '\u{9}' <= c <= '\u{d}'
    ||| c == '\u{20}'
    ||| c == '\u{85}'
    ||| c == '\u{a0}'
    ||| c == '\u{1680}'
    ||| '\u{2000}' <= c <= '\u{200a}'
    ||| c == '\u{2028}'
    ||| c == '\u{2029}'
    ||| c == '\u{202f}'
    ||| c == '\u{205f}'
    ||| c == '\u{3000}'
}

/// `s` without the white space that it starts with.
pub open spec fn trimmed_start(s: Seq<char>) -> Seq<char>
    decreases s.len(),
{
    if s.len() > 0 && is_white_space(s[0]) {
        trimmed_start(s.drop_first())
    } else {
        s
    }
}

/// `s` without the white space that it ends with.
pub open spec fn trimmed_end(s: Seq<char>) -> Seq<char>
    decreases s.len(),
{
    if s.len() > 0 && is_white_space(s.last()) {
        trimmed_end(s.drop_last())
    } else {
        s
    }
}

/// `s` without the white space on either side.
pub open spec fn trimmed(s: Seq<char>) -> Seq<char> {
    trimmed_end(trimmed_start(s))
}

pub proof fn lemma_trimmed_start_at(s: Seq<char>, start: int)
    requires
        0 <= start <= s.len(),
        forall|j: int| 0 <= j < start ==> is_white_space(#[trigger] s[j]),
        start < s.len() ==> !is_white_space(s[start]),
    ensures
        trimmed_start(s) == s.skip(start),
    decreases start,
{
    if start == 0 {
        assert(s.skip(0) =~= s);
    } else {
        assert(is_white_space(s[0]));
        let t = s.drop_first();
        assert forall|j: int| 0 <= j < start - 1 implies is_white_space(#[trigger] t[j]) by {
            assert(is_white_space(s[j + 1]));
        }
        lemma_trimmed_start_at(t, start - 1);
        assert(t.skip(start - 1) =~= s.skip(start));
    }
}

pub proof fn lemma_trimmed_end_at(s: Seq<char>, end: int)
    requires
        0 <= end <= s.len(),
        forall|j: int| end <= j < s.len() ==> is_white_space(#[trigger] s[j]),
        end > 0 ==> !is_white_space(s[end - 1]),
    ensures
        trimmed_end(s) == s.take(end),
    decreases s.len() - end,
{
    if end == s.len() {
        assert(s.take(end) =~= s);
    } else {
        assert(is_white_space(s[s.len() - 1]));
        let t = s.drop_last();
        lemma_trimmed_end_at(t, end);
        assert(t.take(end) =~= s.take(end));
    }
}

/// Whether `c` is white space.
pub fn white_space(c: char) -> (r: bool)
    ensures
        r == is_white_space(c),
{
    ('\u{9}' <= c && c <= '\u{d}') || c == '\u{20}' || c == '\u{85}' || c == '\u{a0}' || c
        == '\u{1680}' || ('\u{2000}' <= c && c <= '\u{200a}') || c == '\u{2028}' || c == '\u{2029}'
        || c == '\u{202f}' || c == '\u{205f}' || c == '\u{3000}'
}

/// The part of `s` between its leading and its trailing white space.
pub fn trim<'a>(s: &'a str) -> (r: &'a str)
    ensures
        r@ == trimmed(s@),
{
    let n: usize = s.unicode_len();
    let mut i: usize = 0;
    let mut start: usize = 0;
    let mut end: usize = 0;
    let mut blank: bool = true;
    for c in it: s.chars()
        invariant
            it.seq() == s@,
            n == s@.len(),
            i == it.index(),
            blank ==> start == 0 && end == 0,
            blank ==> forall|j: int| 0 <= j < i ==> is_white_space(#[trigger] s@[j]),
            !blank ==> start < end <= i,
            !blank ==> !is_white_space(s@[start as int]) && !is_white_space(s@[end - 1]),
            !blank ==> forall|j: int| 0 <= j < start ==> is_white_space(#[trigger] s@[j]),
            !blank ==> forall|j: int| end <= j < i ==> is_white_space(#[trigger] s@[j]),
    {
        if !white_space(c) {
            if blank {
                start = i;
                blank = false;
            }
            end = i + 1;
        }
        i = i + 1;
    }
    proof {
        if blank {
            lemma_trimmed_start_at(s@, n as int);
            assert(s@.skip(n as int) =~= s@.subrange(0, 0));
            assert(trimmed_end(s@.subrange(0, 0)) =~= s@.subrange(0, 0));
        } else {
            lemma_trimmed_start_at(s@, start as int);
            let t = s@.skip(start as int);
            lemma_trimmed_end_at(t, end - start);
            assert(t.take(end - start) =~= s@.subrange(start as int, end as int));
        }
    }
    s.substring_char(start, end)
}

/// How many characters stand before the first line feed of `t`.
pub open spec fn line_length(t: Seq<char>) -> nat
    decreases t.len(),
{
    if t.len() == 0 || t[0] == '\n' {
        0
    } else {
        1 + line_length(t.drop_first())
    }
}

/// The characters of `t` before its first line feed.
pub open spec fn first_line(t: Seq<char>) -> Seq<char> {
    t.take(line_length(t) as int)
}

/// What a history row shows of the text `t`: its first line without the white
/// space around it (a carriage return before the line feed is white space),
/// cut to 63 characters and an ellipsis where it is longer than 64.
pub open spec fn text_preview(t: Seq<char>) -> Seq<char> {
    let first = trimmed(first_line(t));
    if first.len() == 0 {
        "(blank)"@
    } else if first.len() > 64 {
        first.take(63) + "…"@
    } else {
        first
    }
}

pub proof fn lemma_line_length_bound(t: Seq<char>)
    ensures
        line_length(t) <= t.len(),
        forall|j: int| 0 <= j < line_length(t) ==> #[trigger] t[j] != '\n',
    decreases t.len(),
{
    if t.len() > 0 && t[0] != '\n' {
        let rest = t.drop_first();
        lemma_line_length_bound(rest);
        assert forall|j: int| 0 <= j < line_length(t) implies #[trigger] t[j] != '\n' by {
            if j > 0 {
                assert(rest[j - 1] == t[j]);
            }
        }
    }
}

pub proof fn lemma_line_length_at(t: Seq<char>, end: int)
    requires
        0 <= end <= t.len(),
        forall|j: int| 0 <= j < end ==> #[trigger] t[j] != '\n',
        end < t.len() ==> t[end] == '\n',
    ensures
        line_length(t) == end,
    decreases end,
{
    if end > 0 {
        let rest = t.drop_first();
        assert(t[0] != '\n');
        assert forall|j: int| 0 <= j < end - 1 implies #[trigger] rest[j] != '\n' by {
            assert(t[j + 1] != '\n');
        }
        lemma_line_length_at(rest, end - 1);
    }
}

/// The first line of `t`, without its line feed.
fn take_first_line<'a>(t: &'a str) -> (r: &'a str)
    ensures
        r@ == first_line(t@),
{
    let mut end: usize = 0;
    let n: usize = t.unicode_len();
    for c in it: t.chars()
        invariant
            it.seq() == t@,
            n == t@.len(),
            end == it.index(),
            forall|j: int| 0 <= j < end ==> #[trigger] t@[j] != '\n',
    {
        if c == '\n' {
            proof {
                lemma_line_length_at(t@, end as int);
            }
            return t.substring_char(0, end);
        }
        end = end + 1;
    }
    proof {
        lemma_line_length_at(t@, n as int);
    }
    t.substring_char(0, n)
}

/// The one line that a history row shows of the text `t`.
pub fn preview_text(t: &str) -> (r: String)
    ensures
        r@ == text_preview(t@),
{
    let first: &str = trim(take_first_line(t));
    if first.is_empty() {
        return "(blank)".to_owned();
    }
    if first.unicode_len() > 64 {
        let mut r: String = first.substring_char(0, 63).to_owned();
        r.append("…");
        r
    } else {
        first.to_owned()
    }
}

/// The character of the decimal digit `d`.
pub open spec fn digit_char(d: nat) -> char {
    (48 + d) as char
}

/// `n` in decimal, without leading zeros.
pub open spec fn decimal_digits(n: nat) -> Seq<char>
    decreases n,
{
    if n < 10 {
        seq![digit_char(n)]
    } else {
        decimal_digits(n / 10).push(digit_char(n % 10))
    }
}

fn digit_str(d: u64) -> (r: &'static str)
    requires
        d < 10,
    ensures
        r@ == seq![digit_char(d as nat)],
{
    proof {
        reveal_strlit("0");
        reveal_strlit("1");
        reveal_strlit("2");
        reveal_strlit("3");
        reveal_strlit("4");
        reveal_strlit("5");
        reveal_strlit("6");
        reveal_strlit("7");
        reveal_strlit("8");
        reveal_strlit("9");
    }
    match d {
        0 => "0",
        1 => "1",
        2 => "2",
        3 => "3",
        4 => "4",
        5 => "5",
        6 => "6",
        7 => "7",
        8 => "8",
        _ => "9",
    }
}

/// `n` written in decimal.
pub fn decimal(n: u64) -> (r: String)
    ensures
        r@ == decimal_digits(n as nat),
    decreases n,
{
    if n < 10 {
        digit_str(n).to_owned()
    } else {
        let mut r: String = decimal(n / 10);
        r.append(digit_str(n % 10));
        r
    }
}

/// Whether `c` is one of the ten decimal digits.
pub open spec fn is_digit(c: char) -> bool {
    '0' <= c <= '9'
}

/// The number that the digits `s` write in decimal.
pub open spec fn digits_value(s: Seq<char>) -> nat
    decreases s.len(),
{
    if s.len() == 0 {
        0
    } else {
        digits_value(s.drop_last()) * 10 + (s.last() as nat - 48) as nat
    }
}

/// The digits of a number that may have a plus sign in front.
pub open spec fn unsigned_part(s: Seq<char>) -> Seq<char> {
    if s.len() > 0 && s[0] == '+' {
        s.skip(1)
    } else {
        s
    }
}

/// The `u32` that `s` writes: an optional plus sign, then one or more decimal
/// digits whose value fits.
pub open spec fn parsed_u32(s: Seq<char>) -> Option<u32> {
    let digits = unsigned_part(s);
    if digits.len() > 0 && (forall|i: int|
        0 <= i < digits.len() ==> is_digit(#[trigger] digits[i])) && digits_value(digits)
        <= u32::MAX {
        Some(digits_value(digits) as u32)
    } else {
        None
    }
}

proof fn lemma_digits_value_grows(s: Seq<char>, k: int)
    requires
        0 <= k <= s.len(),
    ensures
        digits_value(s.take(k)) <= digits_value(s),
    decreases s.len() - k,
{
    if k == s.len() {
        assert(s.take(k) =~= s);
    } else {
        lemma_digits_value_grows(s, k + 1);
        assert(s.take(k + 1).drop_last() =~= s.take(k));
    }
}

/// Reads an unsigned number of at most 32 bits.
pub fn parse_u32(s: &str) -> (r: Option<u32>)
    ensures
        r == parsed_u32(s@),
{
    let n: usize = s.unicode_len();
    if n == 0 {
        return None;
    }
    let signed: bool = s.get_char(0) == '+';
    let digits: &str = if signed {
        s.substring_char(1, n)
    } else {
        s
    };
    assert(digits@ =~= unsigned_part(s@));
    if digits.is_empty() {
        return None;
    }
    let mut value: u64 = 0;
    assert(digits@.take(0) =~= Seq::<char>::empty());
    for c in it: digits.chars()
        invariant
            digits@ == unsigned_part(s@),
            it.seq() == digits@,
            value == digits_value(digits@.take(it.index() as int)),
            value <= u32::MAX,
            forall|j: int| 0 <= j < it.index() ==> is_digit(#[trigger] digits@[j]),
    {
        let ghost k = it.index() as int;
        if !('0' <= c && c <= '9') {
            assert(!is_digit(digits@[k]));
            return None;
        }
        let d: u32 = c as u32 - 48;
        value = value * 10 + d as u64;
        proof {
            assert(digits@.take(k + 1).drop_last() =~= digits@.take(k));
            assert(digits@.take(k + 1).last() == c);
            lemma_digits_value_grows(digits@, k + 1);
        }
        if value > u32::MAX as u64 {
            return None;
        }
    }
    assert(digits@.take(digits@.len() as int) =~= digits@);
    Some(value as u32)
}

} // verus!
