use vstd::prelude::*;

use crate::model::{Event, State, POLL_INTERVAL_MAX_MS, POLL_INTERVAL_MIN_MS};
use crate::text::{
    decimal_digits, digits_value, first_line, is_digit, is_white_space, lemma_line_length_at,
    lemma_line_length_bound, lemma_trimmed_end_at, lemma_trimmed_start_at, parsed_u32,
    text_preview, trimmed, trimmed_end, trimmed_start, unsigned_part,
};

verus! {

proof fn lemma_trimmed_start(s: Seq<char>)
    ensures
        trimmed_start(s).len() <= s.len(),
        forall|c: char| #[trigger] trimmed_start(s).contains(c) ==> s.contains(c),
    decreases s.len(),
{
    if s.len() > 0 && is_white_space(s[0]) {
        let rest = s.drop_first();
        lemma_trimmed_start(rest);
        assert forall|c: char| #[trigger] trimmed_start(s).contains(c) implies s.contains(c) by {
            assert(rest.contains(c));
            let i = choose|i: int| 0 <= i < rest.len() && rest[i] == c;
            assert(s[i + 1] == c);
        }
    }
}

proof fn lemma_trimmed_end(s: Seq<char>)
    ensures
        trimmed_end(s).len() <= s.len(),
        forall|c: char| #[trigger] trimmed_end(s).contains(c) ==> s.contains(c),
    decreases s.len(),
{
    if s.len() > 0 && is_white_space(s.last()) {
        let rest = s.drop_last();
        lemma_trimmed_end(rest);
        assert forall|c: char| #[trigger] trimmed_end(s).contains(c) implies s.contains(c) by {
            assert(rest.contains(c));
            let i = choose|i: int| 0 <= i < rest.len() && rest[i] == c;
            assert(s[i] == c);
        }
    }
}

/// The preview of a text is one line of one to sixty-four characters.
pub proof fn a_preview_is_one_short_line(t: Seq<char>)
    ensures
        1 <= text_preview(t).len() <= 64,
        !text_preview(t).contains('\n'),
{
    reveal_strlit("(blank)");
    reveal_strlit("…");
    lemma_line_length_bound(t);
    let line = first_line(t);
    lemma_trimmed_start(line);
    lemma_trimmed_end(trimmed_start(line));
    let first = trimmed(line);
    let preview = text_preview(t);
    if preview.contains('\n') {
        let i = choose|i: int| 0 <= i < preview.len() && preview[i] == '\n';
        assert(first.len() > 0 && i < first.len() ==> preview[i] == first[i]);
        assert(first.contains('\n'));
        assert(trimmed_start(line).contains('\n'));
        assert(line.contains('\n'));
        let j = choose|j: int| 0 <= j < line.len() && line[j] == '\n';
        assert(t[j] == '\n');
    }
}

proof fn lemma_decimal_digits(n: nat)
    ensures
        decimal_digits(n).len() > 0,
        forall|i: int| 0 <= i < decimal_digits(n).len() ==> is_digit(#[trigger] decimal_digits(n)[i]),
        digits_value(decimal_digits(n)) == n,
    decreases n,
{
    let s = decimal_digits(n);
    if n < 10 {
        assert(s.drop_last() =~= Seq::<char>::empty());
        assert(digits_value(s.drop_last()) == 0);
    } else {
        lemma_decimal_digits(n / 10);
        assert(s.drop_last() =~= decimal_digits(n / 10));
        assert forall|i: int| 0 <= i < s.len() implies is_digit(#[trigger] s[i]) by {
            if i < s.len() - 1 {
                assert(s[i] == decimal_digits(n / 10)[i]);
            }
        }
    }
}

/// A number that is written in decimal is read back, also through the trimming
/// of an input field.
pub proof fn a_number_is_read_back(n: u32)
    ensures
        parsed_u32(trimmed(decimal_digits(n as nat))) == Some(n),
{
    let s = decimal_digits(n as nat);
    lemma_decimal_digits(n as nat);
    assert(is_digit(s[0]));
    assert(is_digit(s[s.len() - 1]));
    assert(trimmed_start(s) == s);
    assert(trimmed_end(s) == s);
    assert(unsigned_part(s) == s);
}

/// Opening the settings and saving them untouched keeps them as they are.
pub proof fn untouched_settings_are_kept(s: State)
    requires
        !s.settings_open,
        POLL_INTERVAL_MIN_MS <= s.poll_interval_ms <= POLL_INTERVAL_MAX_MS,
    ensures
        ({
            let r = s.updated(Event::ToggleSettings).updated(Event::SettingsSave);
            &&& r.settings == s.settings
            &&& r.poll_interval_ms == s.poll_interval_ms
            &&& !r.settings_open
        }),
{
    a_number_is_read_back(s.settings.history_size);
    a_number_is_read_back(s.poll_interval_ms);
}

/// What cannot be read as a number is not taken over from a draft, nor is a
/// history size of zero.
pub proof fn unreadable_drafts_are_ignored(s: State)
    requires
        parsed_u32(trimmed(s.settings_draft_history_size)) is None || parsed_u32(
            trimmed(s.settings_draft_history_size),
        ) == Some(0u32),
        parsed_u32(trimmed(s.settings_draft_poll_interval_ms)) is None,
    ensures
        ({
            let r = s.updated(Event::SettingsSave);
            &&& r.settings == s.settings
            &&& r.poll_interval_ms == s.poll_interval_ms
            &&& r.clips == s.clips
        }),
{
}

/// Cancelling, which puts the settings away, takes nothing over from the drafts.
pub proof fn cancelled_settings_are_kept(s: State, history_size: Seq<char>, interval: Seq<char>)
    requires
        s.settings_open,
    ensures
        ({
            let r = s.updated(Event::SettingsHistorySizeChanged(history_size)).updated(
                Event::SettingsPollIntervalChanged(interval),
            ).updated(Event::ToggleSettings);
            &&& r.settings == s.settings
            &&& r.poll_interval_ms == s.poll_interval_ms
            &&& r.clips == s.clips
            &&& r.storage == s.storage
            &&& !r.settings_open
        }),
{
}

/// Whether the characters of `s` from `a` to `b` are what is left of it without
/// the white space on either side.
pub open spec fn is_core(s: Seq<char>, a: int, b: int) -> bool {
    &&& 0 <= a <= b <= s.len()
    &&& forall|i: int| 0 <= i < a ==> is_white_space(#[trigger] s[i])
    &&& forall|i: int| b <= i < s.len() ==> is_white_space(#[trigger] s[i])
    &&& a < b ==> !is_white_space(s[a]) && !is_white_space(s[b - 1])
}

/// Trimming takes the white space off both sides and nothing else.
pub proof fn trimming_takes_white_space_off(s: Seq<char>, a: int, b: int)
    requires
        is_core(s, a, b),
    ensures
        trimmed(s) == s.subrange(a, b),
{
    if a < b {
        lemma_trimmed_start_at(s, a);
        let t = s.skip(a);
        assert forall|j: int| b - a <= j < t.len() implies is_white_space(#[trigger] t[j]) by {
            assert(is_white_space(s[a + j]));
        }
        lemma_trimmed_end_at(t, b - a);
        assert(t.take(b - a) =~= s.subrange(a, b));
    } else {
        assert forall|i: int| 0 <= i < s.len() implies is_white_space(#[trigger] s[i]) by {
            assert(i < a || b <= i);
        }
        lemma_trimmed_start_at(s, s.len() as int);
        assert(s.skip(s.len() as int) =~= s.subrange(a, b));
        assert(trimmed_end(s.subrange(a, b)) =~= s.subrange(a, b));
    }
}

/// The preview of a text is its first line, the white space on either side taken
/// off: all of it up to sixty-four characters, and of a longer one its first
/// sixty-three and an ellipsis. A blank line is said to be blank.
///
/// The first line ends at `end`, and what is left of it is from `a` to `b`.
pub proof fn a_preview_starts_as_the_first_line(t: Seq<char>, end: int, a: int, b: int)
    requires
        0 <= end <= t.len(),
        forall|i: int| 0 <= i < end ==> #[trigger] t[i] != '\n',
        end < t.len() ==> t[end] == '\n',
        is_core(t.take(end), a, b),
    ensures
        a == b ==> text_preview(t) == "(blank)"@,
        0 < b - a <= 64 ==> text_preview(t) == t.subrange(a, b),
        b - a > 64 ==> {
            &&& text_preview(t).len() == 64
            &&& forall|i: int| 0 <= i < 63 ==> #[trigger] text_preview(t)[i] == t[a + i]
            &&& text_preview(t)[63] == '…'
        },
{
    reveal_strlit("…");
    lemma_line_length_at(t, end);
    let line = t.take(end);
    trimming_takes_white_space_off(line, a, b);
    assert(line.subrange(a, b) =~= t.subrange(a, b));
}

/// A number in decimal has its last digit at the end, behind the number without
/// it; a number of one digit is that digit.
pub proof fn decimal_digits_follow_each_other(n: nat, d: nat)
    requires
        d < 10,
    ensures
        decimal_digits(d) == seq![(48 + d) as char],
        n > 0 ==> decimal_digits(10 * n + d) == decimal_digits(n).push((48 + d) as char),
{
    assert((10 * n + d) / 10 == n);
    assert((10 * n + d) % 10 == d);
}

/// Digits are read from the left, each one worth a tenth of the one before it:
/// with one more digit a number is ten times as great and the digit more, as
/// long as it has 32 bits.
pub proof fn numbers_are_read_digit_by_digit(s: Seq<char>, c: char)
    requires
        '0' <= c <= '9',
        s.len() > 0,
        s != seq!['+'],
    ensures
        parsed_u32(seq![c]) == Some((c as int - 48) as u32),
        parsed_u32(s.push(c)) == match parsed_u32(s) {
            Some(n) => if 10 * n + (c as int - 48) <= u32::MAX {
                Some((10 * n + (c as int - 48)) as u32)
            } else {
                None
            },
            None => None,
        },
{
    let one = seq![c];
    assert(unsigned_part(one) =~= one);
    assert(one.drop_last() =~= Seq::<char>::empty());
    assert(digits_value(one.drop_last()) == 0);
    assert(one.last() == c);
    let more = s.push(c);
    let digits = unsigned_part(s);
    if s[0] == '+' {
        if s.len() == 1 {
            assert(s =~= seq!['+']);
        }
        assert(more.skip(1) =~= s.skip(1).push(c));
    }
    assert(unsigned_part(more) == digits.push(c));
    let all = digits.push(c);
    assert(all.drop_last() =~= digits);
    if forall|i: int| 0 <= i < digits.len() ==> is_digit(#[trigger] digits[i]) {
        assert forall|i: int| 0 <= i < all.len() implies is_digit(#[trigger] all[i]) by {
            if i < digits.len() {
                assert(all[i] == digits[i]);
            }
        }
    } else {
        let i = choose|i: int| 0 <= i < digits.len() && !is_digit(#[trigger] digits[i]);
        assert(all[i] == digits[i]);
    }
}

/// A plus sign in front of a number changes nothing.
pub proof fn a_plus_sign_is_passed_over(s: Seq<char>)
    requires
        s.len() > 0,
        s[0] != '+',
    ensures
        parsed_u32(seq!['+'] + s) == parsed_u32(s),
{
    assert((seq!['+'] + s).skip(1) =~= s);
}

/// What has no digit, or anything but digits and one plus sign in front, is no
/// number.
pub proof fn other_characters_are_no_number(s: Seq<char>, i: int)
    requires
        s.len() == 0 || s == seq!['+'] || (0 <= i < s.len() && !('0' <= s[i] <= '9') && (i > 0
            || s[i] != '+')),
    ensures
        parsed_u32(s) is None,
{
    if s.len() > 0 && s != seq!['+'] {
        let digits = unsigned_part(s);
        if s[0] == '+' {
            assert(digits[i - 1] == s[i]);
        } else {
            assert(digits[i] == s[i]);
        }
        let k = if s[0] == '+' {
            i - 1
        } else {
            i
        };
        assert(!is_digit(digits[k]));
    }
}

} // verus!
