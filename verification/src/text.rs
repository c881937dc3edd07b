//! The few string operations the rest of the library is specified with: decimal
//! numbers, trimming, words without regard to case, and what follows a mark.
use vstd::prelude::*;
use vstd::string::*;

verus! {

/// What an optional string holds.
pub open spec fn text_of(text: Option<String>) -> Option<Seq<char>> {
    match text {
        Some(text) => Some(text@),
        None => None,
    }
}

/// The character of one decimal digit.
pub open spec fn digit_char(digit: nat) -> char {
    (48 + digit) as char
}

/// A number in decimal, without leading zeros.
pub open spec fn decimal(n: nat) -> Seq<char>
    decreases n,
{
    if n < 10 {
        seq![digit_char(n)]
    } else {
        decimal(n / 10).push(digit_char(n % 10))
    }
}

fn digit_text(digit: u64) -> (text: &'static str)
    requires
        digit < 10,
    ensures
        text@ == seq![digit_char(digit as nat)],
{
    proof {
        reveal_strlit("0");
        reveal_strlit("1");
        reveal_strlit("2");
        reveal_strlit("3");
        reveal_strlit("4");
        reveal_strlit("5");
        reveal_strlit("6");
        reveal_strlit("7");
        reveal_strlit("8");
        reveal_strlit("9");
    }
    if digit == 0 {
        "0"
    } else if digit == 1 {
        "1"
    } else if digit == 2 {
        "2"
    } else if digit == 3 {
        "3"
    } else if digit == 4 {
        "4"
    } else if digit == 5 {
        "5"
    } else if digit == 6 {
        "6"
    } else if digit == 7 {
        "7"
    } else if digit == 8 {
        "8"
    } else {
        "9"
    }
}

/// Writes a number in decimal.
pub fn decimal_string(n: u64) -> (text: String)
    ensures
        text@ == decimal(n as nat),
    decreases n,
{
    if n < 10 {
        digit_text(n).to_string()
    } else {
        let mut text = decimal_string(n / 10);
        text.append(digit_text(n % 10));
        proof {
            assert(text@ =~= decimal((n / 10) as nat).push(digit_char((n % 10) as nat)));
        }
        text
    }
}

/// Two numbers with the same decimal text are the same number.
pub proof fn decimal_is_injective(a: nat, b: nat)
    ensures
        decimal(a) == decimal(b) ==> a == b,
    decreases a,
{
    if decimal(a) == decimal(b) {
        assert(decimal(a).last() == digit_char(a % 10));
        assert(decimal(b).last() == digit_char(b % 10));
        if a >= 10 && b >= 10 {
            assert(decimal(a).drop_last() =~= decimal(a / 10));
            assert(decimal(b).drop_last() =~= decimal(b / 10));
            decimal_is_injective(a / 10, b / 10);
        } else if a >= 10 {
            decimal_is_not_empty(a / 10);
        } else if b >= 10 {
            decimal_is_not_empty(b / 10);
        }
    }
}

proof fn decimal_is_not_empty(n: nat)
    ensures
        decimal(n).len() > 0,
    decreases n,
{
    if n >= 10 {
        decimal_is_not_empty(n / 10);
    }
}

/// Decimal text holds nothing but digits.
pub proof fn decimal_is_digits(n: nat)
    ensures
        all_digits(decimal(n)),
    decreases n,
{
    if n >= 10 {
        decimal_is_digits(n / 10);
        assert forall|i: int| 0 <= i < decimal(n).len() implies is_digit(#[trigger] decimal(n)[i]) by {
            if i < decimal(n / 10).len() {
                assert(decimal(n)[i] == decimal(n / 10)[i]);
            }
        }
    } else {
        assert(decimal(n)[0] == digit_char(n));
    }
}

/// A number below a power of ten has at most that many digits.
pub proof fn decimal_length(n: nat, digits: nat)
    requires
        digits > 0,
        n < vstd::arithmetic::power::pow(10, digits),
    ensures
        decimal(n).len() <= digits,
    decreases digits,
{
    reveal_with_fuel(vstd::arithmetic::power::pow, 2);
    if digits > 1 && n >= 10 {
        assert(n / 10 < vstd::arithmetic::power::pow(10, (digits - 1) as nat)) by (nonlinear_arith)
            requires
                n < 10 * vstd::arithmetic::power::pow(10, (digits - 1) as nat),
        ;
        decimal_length(n / 10, (digits - 1) as nat);
    }
}

/// The characters Unicode gives the `White_Space` property.
pub open spec fn is_white_space(c: char) -> bool {
    let code = c as u32;
    ||| 0x9 <= code <= 0xd
    ||| code == 0x20
    ||| code == 0x85
    ||| code == 0xa0
    ||| code == 0x1680
    ||| 0x2000 <= code <= 0x200a
    ||| code == 0x2028
    ||| code == 0x2029
    ||| code == 0x202f
    ||| code == 0x205f
    ||| code == 0x3000
}

fn white_space(c: char) -> (yes: bool)
    ensures
        yes == is_white_space(c),
{
    let code: u32 = c as u32;
    (0x9 <= code && code <= 0xd) || code == 0x20 || code == 0x85 || code == 0xa0 || code == 0x1680
        || (0x2000 <= code && code <= 0x200a) || code == 0x2028 || code == 0x2029 || code == 0x202f
        || code == 0x205f || code == 0x3000
}

/// A text without its leading white space.
pub open spec fn trim_start(s: Seq<char>) -> Seq<char>
    decreases s.len(),
{
    if s.len() > 0 && is_white_space(s.first()) {
        trim_start(s.drop_first())
    } else {
        s
    }
}

/// A text without its trailing white space.
pub open spec fn trim_end(s: Seq<char>) -> Seq<char>
    decreases s.len(),
{
    if s.len() > 0 && is_white_space(s.last()) {
        trim_end(s.drop_last())
    } else {
        s
    }
}

/// A text without white space around it.
pub open spec fn trimmed(s: Seq<char>) -> Seq<char> {
    trim_end(trim_start(s))
}

/// Strips the white space around a text.
pub fn trim(s: &str) -> (text: &str)
    ensures
        text@ == trimmed(s@),
{
    let len: usize = s.unicode_len();
    let mut from: usize = 0;
    assert(s@.skip(0) =~= s@);
    while from < len && white_space(s.get_char(from))
        invariant
            from <= len,
            len == s@.len(),
            trim_start(s@) == trim_start(s@.skip(from as int)),
        decreases len - from,
    {
        assert(s@.skip(from as int).drop_first() =~= s@.skip(from + 1));
        from = from + 1;
    }
    assert(trim_start(s@) == s@.skip(from as int));
    let mut to: usize = len;
    assert(s@.subrange(from as int, len as int) =~= s@.skip(from as int));
    while from < to && white_space(s.get_char(to - 1))
        invariant
            from <= to <= len,
            len == s@.len(),
            trim_start(s@) == s@.skip(from as int),
            trimmed(s@) == trim_end(s@.subrange(from as int, to as int)),
        decreases to - from,
    {
        assert(s@.subrange(from as int, to as int).drop_last() =~= s@.subrange(
            from as int,
            to - 1,
        ));
        to = to - 1;
    }
    s.substring_char(from, to)
}

/// A character with an ASCII capital made small.
pub open spec fn ascii_lower(c: char) -> char {
    if 'A' <= c <= 'Z' {
        (c as u32 + 32) as char
    } else {
        c
    }
}

/// A text with its ASCII capitals made small.
pub open spec fn lowered(s: Seq<char>) -> Seq<char> {
    s.map_values(|c: char| ascii_lower(c))
}

/// Whether a text is the given word once its ASCII capitals are made small.
pub fn lowers_to(s: &str, word: &str) -> (yes: bool)
    ensures
        yes == (lowered(s@) == word@),
{
    let len: usize = s.unicode_len();
    if len != word.unicode_len() {
        return false;
    }
    let mut i: usize = 0;
    while i < len
        invariant
            i <= len,
            len == s@.len(),
            len == word@.len(),
            forall|j: int| 0 <= j < i ==> ascii_lower(#[trigger] s@[j]) == word@[j],
        decreases len - i,
    {
        let c: char = s.get_char(i);
        let w: char = word.get_char(i);
        let code: u32 = c as u32;
        let lower: u32 = if 65 <= code && code <= 90 {
            code + 32
        } else {
            code
        };
        assert(lower == ascii_lower(c) as u32);
        if lower != w as u32 {
            assert(lowered(s@)[i as int] != word@[i as int]);
            return false;
        }
        i = i + 1;
    }
    assert(lowered(s@) =~= word@);
    true
}

pub open spec fn is_digit(c: char) -> bool {
    '0' <= c <= '9'
}

pub open spec fn all_digits(s: Seq<char>) -> bool {
    forall|i: int| 0 <= i < s.len() ==> is_digit(#[trigger] s[i])
}

/// What a run of digits is worth.
pub open spec fn digits_value(s: Seq<char>) -> nat
    decreases s.len(),
{
    if s.len() == 0 {
        0
    } else {
        digits_value(s.drop_last()) * 10 + (s.last() as u32 - 48) as nat
    }
}

/// The number a text writes: digits, with an optional plus sign before them.
pub open spec fn number_value(s: Seq<char>) -> Option<nat> {
    let digits = if s.len() > 0 && s.first() == '+' {
        s.drop_first()
    } else {
        s
    };
    if digits.len() > 0 && all_digits(digits) {
        Some(digits_value(digits))
    } else {
        None
    }
}

/// Reads a number, when the text is one and it lies within the bounds.
pub fn bounded_number(s: &str, min: u64, max: u64) -> (number: Option<u64>)
    ensures
        number == (match number_value(s@) {
            Some(value) => if min <= value <= max {
                Some(value as u64)
            } else {
                None
            },
            None => None,
        }),
{
    let len: usize = s.unicode_len();
    let start: usize = if len > 0 && s.get_char(0) == '+' {
        1
    } else {
        0
    };
    let ghost digits = if s@.len() > 0 && s@.first() == '+' {
        s@.drop_first()
    } else {
        s@
    };
    assert(digits =~= s@.skip(start as int));
    if start == len {
        return None;
    }
    let mut i: usize = start;
    let mut value: u64 = 0;
    let mut over: bool = false;
    assert(digits.take(0) =~= Seq::<char>::empty());
    while i < len
        invariant
            start <= i <= len,
            len == s@.len(),
            digits == s@.skip(start as int),
            digits == (if s@.len() > 0 && s@.first() == '+' {
                s@.drop_first()
            } else {
                s@
            }),
            forall|j: int| 0 <= j < i - start ==> is_digit(#[trigger] digits[j]),
            over ==> digits_value(digits.take(i - start)) > max,
            !over ==> value == digits_value(digits.take(i - start)) && value <= max,
        decreases len - i,
    {
        let c: char = s.get_char(i);
        let code: u32 = c as u32;
        assert(c == digits[i - start]);
        if code < 48 || code > 57 {
            assert(!is_digit(digits[i - start]));
            return None;
        }
        let ghost next = digits.take(i - start + 1);
        assert(next.drop_last() =~= digits.take(i - start));
        if !over {
            let sum: u128 = value as u128 * 10 + (code - 48) as u128;
            if sum > max as u128 {
                over = true;
            } else {
                value = sum as u64;
            }
        }
        i = i + 1;
    }
    assert(digits.take(len - start) =~= digits);
    if over || value < min {
        None
    } else {
        Some(value)
    }
}

/// What follows the last occurrence of a character, or the whole text when the
/// character does not occur.
pub open spec fn after_last(s: Seq<char>, mark: char) -> Seq<char>
    decreases s.len(),
{
    if s.len() == 0 || s.last() == mark {
        Seq::empty()
    } else {
        after_last(s.drop_last(), mark).push(s.last())
    }
}

/// Takes what follows the last occurrence of a character.
pub fn rest_after_last(s: &str, mark: char) -> (rest: &str)
    ensures
        rest@ == after_last(s@, mark),
{
    let len: usize = s.unicode_len();
    let mut from: usize = len;
    while from > 0 && s.get_char(from - 1) != mark
        invariant
            from <= len,
            len == s@.len(),
            forall|j: int| from <= j < len ==> s@[j] != mark,
        decreases from,
    {
        from = from - 1;
    }
    proof {
        after_last_starts_at(s@, mark, from as int);
    }
    s.substring_char(from, len)
}

proof fn after_last_starts_at(s: Seq<char>, mark: char, from: int)
    requires
        0 <= from <= s.len(),
        from == 0 || s[from - 1] == mark,
        forall|j: int| from <= j < s.len() ==> s[j] != mark,
    ensures
        after_last(s, mark) == s.subrange(from, s.len() as int),
    decreases s.len(),
{
    if s.len() > from {
        after_last_starts_at(s.drop_last(), mark, from);
        assert(s.drop_last().subrange(from, s.len() - 1).push(s.last()) =~= s.subrange(
            from,
            s.len() as int,
        ));
    } else {
        assert(s.subrange(from, s.len() as int) =~= Seq::<char>::empty());
    }
}

/// A number in decimal reads back as that number, in digits and without a zero before
/// them.
pub proof fn decimal_reads_back(n: nat)
    ensures
        digits_value(decimal(n)) == n,
        all_digits(decimal(n)),
        decimal(n).len() > 0,
        n > 0 ==> decimal(n)[0] != '0',
        number_value(decimal(n)) == Some(n),
        number_value(seq!['+'] + decimal(n)) == Some(n),
    decreases n,
{
    decimal_is_digits(n);
    if n >= 10 {
        decimal_reads_back(n / 10);
        assert(decimal(n).drop_last() =~= decimal(n / 10));
        assert(decimal(n)[0] == decimal(n / 10)[0]);
        assert(decimal(n).last() == digit_char(n % 10));
    } else {
        assert(decimal(n).drop_last() =~= Seq::empty());
        assert(digits_value(Seq::<char>::empty()) == 0);
        assert(decimal(n).last() == digit_char(n));
    }
    assert(is_digit(decimal(n)[0]));
    let plus = seq!['+'] + decimal(n);
    assert(plus.drop_first() =~= decimal(n));
}

/// A run of digits is worth ten times what it is without the last one, and that one.
pub proof fn digits_count_by_their_place(s: Seq<char>, digit: char)
    requires
        is_digit(digit),
    ensures
        digits_value(s.push(digit)) == digits_value(s) * 10 + (digit as int - '0' as int),
        digits_value(Seq::<char>::empty()) == 0,
{
    assert(s.push(digit).drop_last() =~= s);
}

/// A text is read as a number only if it is all digits, after a plus sign at most, and
/// has one at least.
pub proof fn only_digits_are_numbers(s: Seq<char>, i: int)
    ensures
        s.len() == 0 ==> number_value(s) is None,
        0 <= i < s.len() && !('0' <= s[i] && s[i] <= '9') && !(i == 0 && s[i] == '+') ==> number_value(
            s,
        ) is None,
        s.len() == 1 && s[0] == '+' ==> number_value(s) is None,
        (forall|j: int| 0 <= j < s.len() ==> '0' <= #[trigger] s[j] && s[j] <= '9') && s.len() > 0
            ==> number_value(s) == Some(digits_value(s)),
{
    if 0 <= i < s.len() && !('0' <= s[i] && s[i] <= '9') && !(i == 0 && s[i] == '+') {
        if s.first() == '+' {
            assert(s.drop_first()[i - 1] == s[i]);
            assert(!is_digit(s.drop_first()[i - 1]));
        } else {
            assert(!is_digit(s[i]));
        }
    }
    if (forall|j: int| 0 <= j < s.len() ==> '0' <= #[trigger] s[j] && s[j] <= '9') && s.len() > 0 {
        assert(is_digit(s[0]));
        assert(all_digits(s));
    }
}

proof fn trimming_the_start_takes_white_space(s: Seq<char>) -> (k: int)
    ensures
        0 <= k <= s.len(),
        trim_start(s) == s.skip(k),
        forall|i: int| 0 <= i < k ==> is_white_space(#[trigger] s[i]),
        k < s.len() ==> !is_white_space(s[k]),
    decreases s.len(),
{
    if s.len() > 0 && is_white_space(s.first()) {
        let k = trimming_the_start_takes_white_space(s.drop_first());
        assert(s.drop_first().skip(k) =~= s.skip(k + 1));
        assert forall|i: int| 0 <= i < k + 1 implies is_white_space(#[trigger] s[i]) by {
            if i > 0 {
                assert(s.drop_first()[i - 1] == s[i]);
            }
        }
        if k + 1 < s.len() {
            assert(s.drop_first()[k] == s[k + 1]);
        }
        k + 1
    } else {
        assert(s.skip(0) =~= s);
        0
    }
}

proof fn trimming_the_end_takes_white_space(s: Seq<char>) -> (k: int)
    ensures
        0 <= k <= s.len(),
        trim_end(s) == s.take(k),
        forall|i: int| k <= i < s.len() ==> is_white_space(#[trigger] s[i]),
        k > 0 ==> !is_white_space(s[k - 1]),
    decreases s.len(),
{
    if s.len() > 0 && is_white_space(s.last()) {
        let k = trimming_the_end_takes_white_space(s.drop_last());
        assert(s.drop_last().take(k) =~= s.take(k));
        assert forall|i: int| k <= i < s.len() implies is_white_space(#[trigger] s[i]) by {
            if i < s.len() - 1 {
                assert(s.drop_last()[i] == s[i]);
            }
        }
        k
    } else {
        assert(s.take(s.len() as int) =~= s);
        s.len() as int
    }
}

/// Trimming a text takes the white space off both ends, all of it and nothing else: what
/// is left is the part between, and neither begins nor ends with white space.
pub proof fn trimming_takes_white_space_off(s: Seq<char>) -> (ends: (int, int))
    ensures
        0 <= ends.0 <= ends.1 <= s.len(),
        trimmed(s) == s.subrange(ends.0, ends.1),
        forall|i: int| 0 <= i < ends.0 || ends.1 <= i < s.len() ==> is_white_space(#[trigger] s[i]),
        trimmed(s).len() > 0 ==> !is_white_space(trimmed(s)[0]) && !is_white_space(
            trimmed(s)[trimmed(s).len() - 1],
        ),
{
    let from = trimming_the_start_takes_white_space(s);
    let rest = s.skip(from);
    let len = trimming_the_end_takes_white_space(rest);
    assert(trimmed(s) == rest.take(len));
    assert(rest.take(len) =~= s.subrange(from, from + len));
    assert forall|i: int| 0 <= i < from || from + len <= i < s.len() implies is_white_space(
        #[trigger] s[i],
    ) by {
        if i >= from + len {
            assert(rest[i - from] == s[i]);
        }
    }
    if len > 0 {
        assert(rest[len - 1] == s[from + len - 1]);
        assert(rest[0] == s[from]);
    }
    (from, from + len)
}

/// A text in small letters has small letters for its ASCII capitals, and is otherwise as
/// it was.
pub proof fn only_capitals_are_made_small(s: Seq<char>, i: int)
    requires
        0 <= i < s.len(),
    ensures
        lowered(s).len() == s.len(),
        !('A' <= s[i] && s[i] <= 'Z') ==> lowered(s)[i] == s[i],
        'A' <= s[i] && s[i] <= 'Z' ==> lowered(s)[i] as int == s[i] as int + ('a' as int - 'A' as int),
{
}

/// What follows the last mark of a text: it holds no mark, and the text is that, or ends
/// with a mark and that.
pub proof fn what_follows_the_last_mark(s: Seq<char>, mark: char)
    ensures
        ({
            let rest = after_last(s, mark);
            let from = s.len() - rest.len();
            &&& rest.len() <= s.len()
            &&& rest == s.skip(from)
            &&& !rest.contains(mark)
            &&& from > 0 ==> s[from - 1] == mark
        }),
    decreases s.len(),
{
    if s.len() > 0 && s.last() != mark {
        what_follows_the_last_mark(s.drop_last(), mark);
        let fewer = after_last(s.drop_last(), mark);
        let rest = after_last(s, mark);
        assert(rest =~= s.skip(s.len() - rest.len()));
        if rest.contains(mark) {
            let i = choose|i: int| 0 <= i < rest.len() && rest[i] == mark;
            assert(fewer[i] == mark);
        }
    } else {
        assert(s.skip(s.len() as int) =~= Seq::empty());
    }
}

/// Of the ASCII characters, the space and those from tab to carriage return are white
/// space, and no other; a digit, a letter or a sign never is.
pub proof fn blanks_are_white_space(c: char)
    requires
        (c as u32) < 0x80,
    ensures
        is_white_space(c) <==> c == ' ' || ('\t' <= c && c <= '\r'),
{
}

/// White space around a text does not matter: it trims to the same with more of it.
pub proof fn more_white_space_trims_to_the_same(s: Seq<char>, blank: char)
    requires
        is_white_space(blank),
    ensures
        trimmed(s.push(blank)) == trimmed(s),
        trimmed(seq![blank] + s) == trimmed(s),
    decreases s.len(),
{
    let longer = seq![blank] + s;
    assert(longer.drop_first() =~= s);
    assert(longer.first() == blank);
    if s.len() > 0 && is_white_space(s.first()) {
        more_white_space_trims_to_the_same(s.drop_first(), blank);
        assert(s.push(blank).drop_first() =~= s.drop_first().push(blank));
        assert(s.push(blank).first() == s.first());
    } else if s.len() == 0 {
        assert(s.push(blank).drop_first() =~= s);
    } else {
        assert(trim_start(s.push(blank)) == s.push(blank));
        assert(s.push(blank).drop_last() =~= s);
        assert(s.push(blank).last() == blank);
    }
}

} // verus!
