//! Decimal numbers in text, and comparing and copying text.
use vstd::prelude::*;

verus! {

/// Why a text is not a number of the wanted kind.
#[derive(Debug, Clone, Copy, PartialEq, Eq, Structural)]
pub enum IntErrorKind {
    /// There is nothing to read.
    Empty,
    /// A character is not a digit.
    InvalidDigit,
    /// The number is too large.
    PosOverflow,
}

/// A decimal digit.
pub open spec fn is_digit(c: char) -> bool {
    '0' <= c && c <= '9'
}

pub open spec fn all_digits(s: Seq<char>) -> bool {
    forall|i: int| 0 <= i < s.len() ==> is_digit(#[trigger] s[i])
}

/// The number that digits stand for.
pub open spec fn decimal(s: Seq<char>) -> nat
    decreases s.len(),
{
    if s.len() == 0 {
        0
    } else {
        (decimal(s.drop_last()) * 10 + (s.last() as int - '0' as int)) as nat
    }
}

/// Some leading digits already stand for more than `max`.
pub open spec fn overflows(s: Seq<char>, max: nat) -> bool {
    exists|n: int|
        0 <= n <= s.len() && all_digits(#[trigger] s.take(n)) && decimal(s.take(n)) > max
}

/// What reading digits up to `max` gives.
pub open spec fn digits_up_to(s: Seq<char>, max: nat) -> Result<nat, IntErrorKind> {
    if all_digits(s) && decimal(s) <= max {
        Ok(decimal(s))
    } else if overflows(s, max) {
        Err(IntErrorKind::PosOverflow)
    } else {
        Err(IntErrorKind::InvalidDigit)
    }
}

/// What reading an unsigned number of 32 bits gives: digits, with a plus sign before them or not.
pub open spec fn parsed_u32(s: Seq<char>) -> Result<u32, IntErrorKind> {
    if s.len() == 0 {
        Err(IntErrorKind::Empty)
    } else {
        let digits = if s.len() > 1 && s[0] == '+' {
            s.skip(1)
        } else {
            s
        };
        match digits_up_to(digits, u32::MAX as nat) {
            Ok(v) => Ok(v as u32),
            Err(e) => Err(e),
        }
    }
}

/// What reading a signed number of 32 bits gives: digits, with a sign before them or not.
pub open spec fn parsed_i32(s: Seq<char>) -> Option<i32> {
    if s.len() > 1 && s[0] == '-' {
        match digits_up_to(s.skip(1), 0x8000_0000) {
            Ok(v) => Some((0 - v) as i32),
            Err(_) => None,
        }
    } else if s.len() > 1 && s[0] == '+' {
        match digits_up_to(s.skip(1), i32::MAX as nat) {
            Ok(v) => Some(v as i32),
            Err(_) => None,
        }
    } else if s.len() == 0 {
        None
    } else {
        match digits_up_to(s, i32::MAX as nat) {
            Ok(v) => Some(v as i32),
            Err(_) => None,
        }
    }
}

/// More digits stand for no smaller number.
proof fn lemma_decimal_grows(s: Seq<char>, a: int, b: int)
    requires
        0 <= a <= b <= s.len(),
        all_digits(s.take(b)),
    ensures
        decimal(s.take(a)) <= decimal(s.take(b)),
    decreases b,
{
    if a < b {
        assert(s.take(b).drop_last() =~= s.take(b - 1));
        assert forall|i: int| 0 <= i < b - 1 implies is_digit(#[trigger] s.take(b - 1)[i]) by {
            assert(s.take(b - 1)[i] == s.take(b)[i]);
        }
        lemma_decimal_grows(s, a, b - 1);
        assert(is_digit(s.take(b)[b - 1]));
    }
}

/// Reads digits from position `from` on.
fn read_digits(s: &str, from: usize, max: u64) -> (r: Result<u64, IntErrorKind>)
    requires
        from <= s@.len(),
        max <= u32::MAX,
    ensures
        match r {
            Ok(v) => digits_up_to(s@.skip(from as int), max as nat) == Ok::<nat, IntErrorKind>(
                v as nat,
            ) && v <= max,
            Err(e) => digits_up_to(s@.skip(from as int), max as nat) == Err::<nat, IntErrorKind>(e),
        },
{
    let total: usize = s.unicode_len();
    let ghost digits = s@.skip(from as int);
    let mut value: u64 = 0;
    let mut i: usize = from;
    while i < total
        invariant
            from <= i <= total,
            total == s@.len(),
            digits == s@.skip(from as int),
            max <= u32::MAX,
            value <= max,
            all_digits(digits.take(i - from)),
            value == decimal(digits.take(i - from)),
        decreases total - i,
    {
        let ghost n = i - from;
        let c: char = s.get_char(i);
        proof {
            assert(c == digits[n]);
            assert(digits.take(n + 1).drop_last() =~= digits.take(n));
            assert(digits.take(n + 1).last() == c);
        }
        if c < '0' || c > '9' {
            proof {
                assert(!is_digit(digits[n]));
                assert forall|m: int|
                    0 <= m <= digits.len() && all_digits(#[trigger] digits.take(m)) implies decimal(
                    digits.take(m),
                ) <= max by {
                    if m > n {
                        assert(digits.take(m)[n] == digits[n]);
                    } else {
                        lemma_decimal_grows(digits, m, n);
                    }
                }
            }
            return Err(IntErrorKind::InvalidDigit);
        }
        let digit: u64 = (c as u32 - '0' as u32) as u64;
        value = value * 10 + digit;
        proof {
            assert(all_digits(digits.take(n + 1))) by {
                assert forall|j: int| 0 <= j < n + 1 implies is_digit(
                    #[trigger] digits.take(n + 1)[j],
                ) by {
                    if j < n {
                        assert(digits.take(n + 1)[j] == digits.take(n)[j]);
                    }
                }
            }
        }
        if value > max {
            proof {
                assert(overflows(digits, max as nat));
                if all_digits(digits) {
                    assert(digits.take(digits.len() as int) =~= digits);
                    lemma_decimal_grows(digits, n + 1, digits.len() as int);
                }
            }
            return Err(IntErrorKind::PosOverflow);
        }
        i = i + 1;
    }
    assert(digits.take(digits.len() as int) =~= digits);
    Ok(value)
}

/// Reads an unsigned number of 32 bits.
pub fn parse_u32(s: &str) -> (r: Result<u32, IntErrorKind>)
    ensures
        r == parsed_u32(s@),
{
    let total: usize = s.unicode_len();
    if total == 0 {
        return Err(IntErrorKind::Empty);
    }
    let from: usize = if total > 1 && s.get_char(0) == '+' {
        1
    } else {
        0
    };
    assert(s@.skip(0) =~= s@);
    match read_digits(s, from, 0xffff_ffff) {
        Ok(v) => Ok(v as u32),
        Err(e) => Err(e),
    }
}

/// Reads a signed number of 32 bits.
pub fn parse_i32(s: &str) -> (r: Option<i32>)
    ensures
        r == parsed_i32(s@),
{
    let total: usize = s.unicode_len();
    assert(s@.skip(0) =~= s@);
    if total > 1 && s.get_char(0) == '-' {
        match read_digits(s, 1, 0x8000_0000) {
            Ok(v) => Some((0 - v as i64) as i32),
            Err(_) => None,
        }
    } else if total > 1 && s.get_char(0) == '+' {
        match read_digits(s, 1, 0x7fff_ffff) {
            Ok(v) => Some(v as i32),
            Err(_) => None,
        }
    } else if total == 0 {
        None
    } else {
        match read_digits(s, 0, 0x7fff_ffff) {
            Ok(v) => Some(v as i32),
            Err(_) => None,
        }
    }
}

/// Whether two texts are equal.
pub fn same_text(a: &String, b: &str) -> (r: bool)
    ensures
        r == (a@ == b@),
{
    let other = b.to_owned();
    *a == other
}

/// Copies the text that may be there.
pub fn copy_text(text: &Option<String>) -> (r: Option<String>)
    ensures
        r == *text,
{
    match text {
        Some(t) => Some(t.clone()),
        None => None,
    }
}

/// Copies names.
pub fn copy_names(names: &Vec<String>) -> (r: Vec<String>)
    ensures
        r@ == names@,
{
    let mut copy: Vec<String> = Vec::with_capacity(names.len());
    let mut i: usize = 0;
    while i < names.len()
        invariant
            i <= names@.len(),
            copy@ == names@.take(i as int),
        decreases names@.len() - i,
    {
        copy.push(names[i].clone());
        assert(copy@ =~= names@.take(i + 1));
        i = i + 1;
    }
    assert(names@.take(names@.len() as int) =~= names@);
    copy
}

/// `s` ends with `end`.
pub open spec fn has_suffix(s: Seq<char>, end: Seq<char>) -> bool {
    s.len() >= end.len() && s.skip(s.len() - end.len()) == end
}

/// Whether a text ends with another one.
pub fn ends_with(s: &str, end: &str) -> (r: bool)
    ensures
        r == has_suffix(s@, end@),
{
    let n: usize = s.unicode_len();
    let m: usize = end.unicode_len();
    if n < m {
        return false;
    }
    let ghost tail = s@.skip(n - m);
    let mut i: usize = 0;
    while i < m
        invariant
            i <= m <= n,
            n == s@.len(),
            m == end@.len(),
            tail == s@.skip(n - m),
            forall|j: int| 0 <= j < i ==> #[trigger] tail[j] == end@[j],
        decreases m - i,
    {
        if s.get_char(n - m + i) != end.get_char(i) {
            assert(tail[i as int] != end@[i as int]);
            return false;
        }
        i = i + 1;
    }
    assert(tail =~= end@);
    true
}

/// The decimal digits of a number.
pub open spec fn rendered(n: nat) -> Seq<char>
    decreases n,
{
    if n < 10 {
        seq![(n + '0' as nat) as char]
    } else {
        rendered(n / 10).push((n % 10 + '0' as nat) as char)
    }
}

/// The decimal digits of an integer, with a minus sign before those of a negative one.
pub open spec fn rendered_int(n: int) -> Seq<char> {
    if n < 0 {
        seq!['-'] + rendered((0 - n) as nat)
    } else {
        rendered(n as nat)
    }
}

/// The digit of a number below ten.
fn digit_text(d: u64) -> (r: &'static str)
    requires
        d < 10,
    ensures
        r@ == seq![(d + '0' as nat) as char],
{
    proof {
        reveal_strlit("0");
        reveal_strlit("1");
        reveal_strlit("2");
        reveal_strlit("3");
        reveal_strlit("4");
        reveal_strlit("5");
        reveal_strlit("6");
        reveal_strlit("7");
        reveal_strlit("8");
        reveal_strlit("9");
    }
    if d == 0 {
        "0"
    } else if d == 1 {
        "1"
    } else if d == 2 {
        "2"
    } else if d == 3 {
        "3"
    } else if d == 4 {
        "4"
    } else if d == 5 {
        "5"
    } else if d == 6 {
        "6"
    } else if d == 7 {
        "7"
    } else if d == 8 {
        "8"
    } else {
        "9"
    }
}

/// Renders a number in decimal.
pub fn render(n: u64) -> (r: String)
    ensures
        r@ == rendered(n as nat),
    decreases n,
{
    if n < 10 {
        digit_text(n).to_owned()
    } else {
        let mut head = render(n / 10);
        head.append(digit_text(n % 10));
        assert(head@ =~= rendered(n as nat));
        head
    }
}

/// Renders an integer in decimal.
pub fn render_int(n: i64) -> (r: String)
    ensures
        r@ == rendered_int(n as int),
{
    if n < 0 {
        proof {
            reveal_strlit("-");
        }
        let mut text = "-".to_owned();
        let magnitude: u64 = (0 - n as i128) as u64;
        text.append(render(magnitude).as_str());
        assert(text@ =~= rendered_int(n as int));
        text
    } else {
        render(n as u64)
    }
}

/// Reading back what was rendered gives the number.
pub proof fn law_parse_after_render(n: nat)
    requires
        n <= u32::MAX,
    ensures
        parsed_u32(rendered(n)) == Ok::<u32, IntErrorKind>(n as u32),
{
    lemma_rendered(n);
    let s = rendered(n);
    assert(is_digit(s[0]));
    assert(s[0] != '+');
}

/// Rendered numbers are digits that stand for the number.
proof fn lemma_rendered(n: nat)
    ensures
        rendered(n).len() > 0,
        all_digits(rendered(n)),
        decimal(rendered(n)) == n,
    decreases n,
{
    let s = rendered(n);
    if n < 10 {
        assert(s.drop_last() =~= Seq::<char>::empty());
        assert(decimal(s.drop_last()) == 0);
    } else {
        lemma_rendered(n / 10);
        assert(s.drop_last() =~= rendered(n / 10));
    }
}

/// What a sequence of characters stands for, each ten times the place of the one behind it.
pub proof fn law_decimal_is_positional(s: Seq<char>)
    requires
        forall|i: int| 0 <= i < s.len() ==> '0' <= #[trigger] s[i] <= '9',
    ensures
        decimal(s) == s.fold_left(0int, |sum: int, c: char| sum * 10 + (c as int - '0' as int)),
    decreases s.len(),
{
    if s.len() > 0 {
        law_decimal_is_positional(s.drop_last());
    }
}

/// A text is read as an unsigned number exactly where it holds digits, after a plus sign or not,
/// whose decimal value fits in 32 bits; and that value is what is read.
pub proof fn law_unsigned_numbers(s: Seq<char>, digits: Seq<char>, v: u32)
    requires
        s == seq!['+'] + digits && digits.len() > 0 || s == digits && !(s.len() > 1 && s[0] == '+'),
    ensures
        parsed_u32(s) == Ok::<u32, IntErrorKind>(v) <==> s.len() > 0 && (forall|i: int|
            0 <= i < digits.len() ==> '0' <= #[trigger] digits[i] <= '9') && digits.fold_left(
            0int,
            |sum: int, c: char| sum * 10 + (c as int - '0' as int),
        ) == v,
        parsed_u32(s) == Err::<u32, IntErrorKind>(IntErrorKind::Empty) <==> s.len() == 0,
{
    if s != digits {
        assert(s.skip(1) =~= digits);
    } else if s.len() > 1 && s[0] == '+' {
        assert(s.len() == digits.len());
    }
    if all_digits(digits) {
        assert(forall|i: int| 0 <= i < digits.len() ==> '0' <= #[trigger] digits[i] <= '9');
        law_decimal_is_positional(digits);
    } else {
        let i = choose|i: int| 0 <= i < digits.len() && !is_digit(#[trigger] digits[i]);
        assert(!('0' <= digits[i] <= '9'));
    }
}

/// A text that is not read as an unsigned number is too large exactly where its leading digits, up
/// to the first character that is none, stand for more than 32 bits hold.
pub proof fn law_numbers_that_are_not_read(s: Seq<char>, digits: Seq<char>, n: int)
    requires
        s.len() > 0,
        s == seq!['+'] + digits && digits.len() > 0 || s == digits && !(s.len() > 1 && s[0] == '+'),
        0 <= n <= digits.len(),
        forall|i: int| 0 <= i < n ==> '0' <= #[trigger] digits[i] <= '9',
        n < digits.len() ==> !('0' <= digits[n] <= '9'),
    ensures
        ({
            let value = digits.take(n).fold_left(
                0int,
                |sum: int, c: char| sum * 10 + (c as int - '0' as int),
            );
            if value > 0xffff_ffff {
                parsed_u32(s) == Err::<u32, IntErrorKind>(IntErrorKind::PosOverflow)
            } else if n < digits.len() {
                parsed_u32(s) == Err::<u32, IntErrorKind>(IntErrorKind::InvalidDigit)
            } else {
                parsed_u32(s) == Ok::<u32, IntErrorKind>(value as u32)
            }
        }),
{
    if s != digits {
        assert(s.skip(1) =~= digits);
    } else if s.len() > 1 && s[0] == '+' {
        assert(s.len() == digits.len());
    }
    let lead = digits.take(n);
    assert forall|i: int| 0 <= i < lead.len() implies '0' <= #[trigger] lead[i] <= '9' by {
        assert(lead[i] == digits[i]);
    }
    assert(all_digits(lead));
    law_decimal_is_positional(lead);
    if n == digits.len() {
        assert(lead =~= digits);
    } else {
        assert(!is_digit(digits[n]));
    }
    if decimal(lead) > u32::MAX {
        assert(overflows(digits, u32::MAX as nat));
        assert(!(all_digits(digits) && decimal(digits) <= u32::MAX)) by {
            if n < digits.len() {
                assert(!is_digit(digits[n]));
            }
        }
    } else {
        assert forall|m: int| 0 <= m <= digits.len() && all_digits(#[trigger] digits.take(m)) implies
            decimal(digits.take(m)) <= u32::MAX by {
            if m > n {
                assert(digits.take(m)[n] == digits[n]);
            } else {
                lemma_decimal_grows(digits, m, n);
            }
        }
    }
}

/// A text is read as a signed number exactly where it holds digits, after a sign or not, whose
/// decimal value with that sign fits in 32 bits; and that value is what is read.
pub proof fn law_signed_numbers(s: Seq<char>, sign: char, digits: Seq<char>, v: i32)
    requires
        (sign == '+' || sign == '-') && s == seq![sign] + digits && digits.len() > 0 || sign == ' '
            && s == digits && !(s.len() > 1 && (s[0] == '+' || s[0] == '-')),
    ensures
        parsed_i32(s) == Some(v) <==> s.len() > 0 && (forall|i: int|
            0 <= i < digits.len() ==> '0' <= #[trigger] digits[i] <= '9') && digits.fold_left(
            0int,
            |sum: int, c: char| sum * 10 + (c as int - '0' as int),
        ) == if sign == '-' {
            -v
        } else {
            v as int
        },
{
    if sign != ' ' {
        assert(s.skip(1) =~= digits);
    }
    if all_digits(digits) {
        assert(forall|i: int| 0 <= i < digits.len() ==> '0' <= #[trigger] digits[i] <= '9');
        law_decimal_is_positional(digits);
    } else {
        let i = choose|i: int| 0 <= i < digits.len() && !is_digit(#[trigger] digits[i]);
        assert(!('0' <= digits[i] <= '9'));
    }
}

/// A text ends with another exactly where it is some text and then the other.
pub proof fn law_suffixes(s: Seq<char>, end: Seq<char>)
    ensures
        has_suffix(s, end) <==> exists|head: Seq<char>| s == #[trigger] (head + end),
{
    if has_suffix(s, end) {
        assert(s =~= s.take(s.len() - end.len()) + end);
    }
    if exists|head: Seq<char>| s == #[trigger] (head + end) {
        let head = choose|head: Seq<char>| s == #[trigger] (head + end);
        assert(s.skip(s.len() - end.len()) =~= end);
    }
}

/// A rendered number is made of digits that stand for it, and starts with a zero only where it is
/// zero.
pub proof fn law_rendered_digits(n: nat)
    ensures
        rendered(n).len() > 0,
        forall|i: int| 0 <= i < rendered(n).len() ==> '0' <= #[trigger] rendered(n)[i] <= '9',
        rendered(n).fold_left(0int, |sum: int, c: char| sum * 10 + (c as int - '0' as int)) == n,
        rendered(n)[0] == '0' ==> n == 0 && rendered(n).len() == 1,
{
    lemma_rendered(n);
    lemma_first_digit(n);
    assert forall|i: int| 0 <= i < rendered(n).len() implies '0' <= #[trigger] rendered(n)[i]
        <= '9' by {
        assert(is_digit(rendered(n)[i]));
    }
    law_decimal_is_positional(rendered(n));
}

/// The first digit of a rendered number is a zero only for zero.
proof fn lemma_first_digit(n: nat)
    ensures
        rendered(n).len() > 0,
        rendered(n)[0] == '0' ==> n == 0,
        n == 0 ==> rendered(n).len() == 1,
    decreases n,
{
    if n >= 10 {
        lemma_first_digit(n / 10);
        assert(rendered(n)[0] == rendered(n / 10)[0]);
    }
}

/// A rendered integer is a minus sign, where it is negative, and the digits of its magnitude.
pub proof fn law_rendered_sign(n: int)
    ensures
        n >= 0 ==> rendered_int(n) == rendered(n as nat),
        n < 0 ==> rendered_int(n).len() > 1 && rendered_int(n)[0] == '-' && rendered_int(n).subrange(
            1,
            rendered_int(n).len() as int,
        ) == rendered((-n) as nat),
{
    if n < 0 {
        lemma_rendered((-n) as nat);
        assert(rendered_int(n).subrange(1, rendered_int(n).len() as int) =~= rendered(
            (-n) as nat,
        ));
    }
}

} // verus!
