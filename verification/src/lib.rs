pub mod buffer;
pub mod config;
pub mod consumer;

use vstd::prelude::*;

verus! {

/// Why the command line does not name a bee.
#[derive(Debug, Clone, Copy, PartialEq, Eq)]
pub enum ArgsError {
    MissingArguments,
    MissingId,
}

impl ArgsError {
    /// The text shown to a user for this error.
    pub fn message(&self) -> (text: &'static str)
        ensures
            *self == ArgsError::MissingArguments ==> text@ == "no arguments provided"@,
            *self == ArgsError::MissingId ==> text@ == "missing argument 'id'"@,
    {
        match self {
            ArgsError::MissingArguments => "no arguments provided",
            ArgsError::MissingId => "missing argument 'id'",
        }
    }
}

/// Why a text is not the decimal form of a `u64`; the same three cases, and
/// for the same inputs, as the standard library's parse of a `u64`.
#[derive(Debug, Clone, Copy, PartialEq, Eq)]
pub enum IdParseError {
    Empty,
    InvalidDigit,
    PosOverflow,
}

impl IdParseError {
    /// The text shown to a user for this error.
    pub fn message(&self) -> (text: &'static str)
        ensures
            *self == IdParseError::Empty ==> text@ == "cannot parse integer from empty string"@,
            *self == IdParseError::InvalidDigit ==> text@ == "invalid digit found in string"@,
            *self == IdParseError::PosOverflow ==> text@
                == "number too large to fit in target type"@,
    {
        match self {
            IdParseError::Empty => "cannot parse integer from empty string",
            IdParseError::InvalidDigit => "invalid digit found in string",
            IdParseError::PosOverflow => "number too large to fit in target type",
        }
    }
}

/// Why no bee id could be read from the command line.
#[derive(Debug, Clone, Copy, PartialEq, Eq)]
pub enum BeeIdError {
    Args(ArgsError),
    Parse(IdParseError),
}

pub open spec fn is_decimal_digit(c: char) -> bool {
    '0' <= c && c <= '9'
}

pub open spec fn digit_value(c: char) -> nat {
    (c as int - '0' as int) as nat
}

/// The number that a sequence of decimal digits denotes.
pub open spec fn decimal_value(digits: Seq<char>) -> nat
    decreases digits.len(),
{
    if digits.len() == 0 {
        0
    } else {
        decimal_value(digits.drop_last()) * 10 + digit_value(digits.last())
    }
}

pub open spec fn all_decimal_digits(s: Seq<char>) -> bool {
    forall|i: int| 0 <= i < s.len() ==> is_decimal_digit(#[trigger] s[i])
}

/// The digits of an unsigned number: the text without one leading `+`.
pub open spec fn unsigned_digits(s: Seq<char>) -> Seq<char> {
    if s.len() > 0 && s[0] == '+' {
        s.drop_first()
    } else {
        s
    }
}

/// Some leading run of digits already denotes a number above `u64::MAX`.
pub open spec fn digits_overflow(d: Seq<char>) -> bool {
    exists|k: int|
        0 < k <= d.len() && all_decimal_digits(#[trigger] d.take(k)) && decimal_value(d.take(k))
            > u64::MAX
}

/// What reading `s` as a decimal `u64` gives: an optional `+`, then one or
/// more digits whose value fits. Digits are read from the left, so a value
/// that grows past `u64::MAX` is reported before a later non-digit.
pub open spec fn parse_u64(s: Seq<char>) -> Result<u64, IdParseError> {
    let d = unsigned_digits(s);
    if s.len() == 0 {
        Err(IdParseError::Empty)
    } else if d.len() == 0 {
        Err(IdParseError::InvalidDigit)
    } else if digits_overflow(d) {
        Err(IdParseError::PosOverflow)
    } else if !all_decimal_digits(d) {
        Err(IdParseError::InvalidDigit)
    } else {
        Ok(decimal_value(d) as u64)
    }
}

/// The decimal digit character for `d` (`0` to `9`).
pub open spec fn decimal_digit_char(d: nat) -> char {
    ('0' as nat + d) as char
}

/// The usual decimal rendering of `n`: its digits, most significant first,
/// with no leading zeros (`0` renders as a single `0`).
pub open spec fn decimal_rendering(n: nat) -> Seq<char>
    decreases n,
{
    if n < 10 {
        seq![decimal_digit_char(n)]
    } else {
        decimal_rendering(n / 10).push(decimal_digit_char(n % 10))
    }
}

proof fn lemma_rendering_digits(n: nat)
    ensures
        decimal_rendering(n).len() >= 1,
        all_decimal_digits(decimal_rendering(n)),
        decimal_value(decimal_rendering(n)) == n,
    decreases n,
{
    let r = decimal_rendering(n);
    if n < 10 {
        assert(r.drop_last() =~= Seq::<char>::empty());
        assert(decimal_value(r.drop_last()) == 0);
        assert(r.last() == decimal_digit_char(n));
        assert(digit_value(decimal_digit_char(n)) == n);
        assert(decimal_value(r) == decimal_value(r.drop_last()) * 10 + digit_value(r.last()));
    } else {
        lemma_rendering_digits(n / 10);
        let t = decimal_rendering(n / 10);
        assert(r.drop_last() =~= t);
        assert(digit_value(decimal_digit_char(n % 10)) == n % 10);
        assert(r.last() == decimal_digit_char(n % 10));
        assert(decimal_value(r) == decimal_value(t) * 10 + digit_value(r.last()));
        assert(n == (n / 10) * 10 + n % 10);
        assert forall|i: int| 0 <= i < r.len() implies is_decimal_digit(#[trigger] r[i]) by {
            if i < t.len() {
                assert(r[i] == t[i]);
            }
        }
    }
}

/// Round trip: reading the decimal rendering of any `u64` gives that
/// number back, whatever its digits (zeros included).
pub proof fn law_parse_decimal_rendering(n: u64)
    ensures
        parse_u64(decimal_rendering(n as nat)) == Ok::<u64, IdParseError>(n),
{
    let r = decimal_rendering(n as nat);
    lemma_rendering_digits(n as nat);
    assert(r[0] != '+') by {
        assert(is_decimal_digit(r[0]));
    }
    assert(unsigned_digits(r) == r);
    assert(r.take(r.len() as int) =~= r);
    assert(!digits_overflow(r)) by {
        assert forall|k: int| 0 < k <= r.len() && all_decimal_digits(#[trigger] r.take(k)) implies
            decimal_value(r.take(k)) <= u64::MAX by {
            lemma_decimal_value_monotonic(r, k, r.len() as int);
        }
    }
}

/// Appending a digit: when `s` reads as `v`, then `s` followed by the digit
/// `c` reads as `10 * v + c` when that fits, and overflows otherwise.
pub proof fn law_parse_appended_digit(s: Seq<char>, c: char)
    requires
        parse_u64(s) is Ok,
        '0' <= c && c <= '9',
    ensures
        ({
            let v = parse_u64(s)->Ok_0 as int;
            let next = 10 * v + (c as int - '0' as int);
            parse_u64(s.push(c)) == if next <= u64::MAX {
                Ok::<u64, IdParseError>(next as u64)
            } else {
                Err(IdParseError::PosOverflow)
            }
        }),
{
    let d = unsigned_digits(s);
    let d2 = unsigned_digits(s.push(c));
    assert(d2 =~= d.push(c));
    assert(d.len() > 0 && all_decimal_digits(d) && !digits_overflow(d));
    assert(d.take(d.len() as int) =~= d);
    assert(d2.drop_last() =~= d);
    assert(d2.take(d2.len() as int) =~= d2);
    assert(all_decimal_digits(d2)) by {
        assert forall|i: int| 0 <= i < d2.len() implies is_decimal_digit(#[trigger] d2[i]) by {
            if i < d.len() {
                assert(d2[i] == d[i]);
            }
        }
    }
    let next = decimal_value(d2);
    assert(next == 10 * decimal_value(d) + (c as int - '0' as int));
    if next <= u64::MAX {
        assert(!digits_overflow(d2)) by {
            assert forall|k: int| 0 < k <= d2.len() && all_decimal_digits(#[trigger] d2.take(k))
                implies decimal_value(d2.take(k)) <= u64::MAX by {
                lemma_decimal_value_monotonic(d2, k, d2.len() as int);
            }
        }
    } else {
        assert(all_decimal_digits(d2.take(d2.len() as int)));
        assert(digits_overflow(d2));
    }
}

/// A leading `+` is read as no sign at all.
pub proof fn law_parse_plus_sign(t: Seq<char>)
    requires
        t.len() > 0,
        t[0] != '+',
    ensures
        parse_u64(seq!['+'] + t) == parse_u64(t),
{
    let s = seq!['+'] + t;
    assert(s.drop_first() =~= t);
    assert(unsigned_digits(s) == unsigned_digits(t));
}

/// Reading stops at the first character that is not a digit: when the
/// digits before it read as a number, the whole text is an invalid digit,
/// whatever follows.
pub proof fn law_parse_stops_at_non_digit(p: Seq<char>, x: char, rest: Seq<char>)
    requires
        parse_u64(p) is Ok,
        !('0' <= x && x <= '9'),
    ensures
        parse_u64(p.push(x) + rest) == Err::<u64, IdParseError>(IdParseError::InvalidDigit),
{
    let s = p.push(x) + rest;
    let dp = unsigned_digits(p);
    let d = unsigned_digits(s);
    assert(s[0] == p[0]);
    assert(d =~= dp.push(x) + rest);
    assert(dp.take(dp.len() as int) =~= dp);
    assert(d[dp.len() as int] == x);
    assert(!digits_overflow(d)) by {
        assert forall|k: int| 0 < k <= d.len() && all_decimal_digits(#[trigger] d.take(k)) implies
            decimal_value(d.take(k)) <= u64::MAX by {
            if k > dp.len() {
                assert(d.take(k)[dp.len() as int] == x);
            } else {
                assert(d.take(k) =~= dp.take(k));
                lemma_decimal_value_monotonic(dp, k, dp.len() as int);
            }
        }
    }
}

/// Once the digits read so far grow past `u64::MAX`, the text overflows,
/// whatever follows.
pub proof fn law_parse_overflow_is_final(p: Seq<char>, c: char, rest: Seq<char>)
    requires
        parse_u64(p) is Ok,
        '0' <= c && c <= '9',
        10 * (parse_u64(p)->Ok_0 as int) + (c as int - '0' as int) > u64::MAX,
    ensures
        parse_u64(p.push(c) + rest) == Err::<u64, IdParseError>(IdParseError::PosOverflow),
{
    let s = p.push(c) + rest;
    let dp = unsigned_digits(p);
    let d = unsigned_digits(s);
    assert(s[0] == p[0]);
    assert(d =~= dp.push(c) + rest);
    assert(dp.take(dp.len() as int) =~= dp);
    let k: int = dp.len() as int + 1;
    assert(d.take(k) =~= dp.push(c));
    assert(d.take(k).drop_last() =~= dp);
    assert(all_decimal_digits(d.take(k))) by {
        assert forall|i: int| 0 <= i < k implies is_decimal_digit(#[trigger] d.take(k)[i]) by {
            if i < dp.len() {
                assert(d.take(k)[i] == dp[i]);
            }
        }
    }
    assert(decimal_value(d.take(k)) > u64::MAX);
    assert(digits_overflow(d));
}

/// The value of a run of digits never shrinks as the run grows.
proof fn lemma_decimal_value_monotonic(d: Seq<char>, j: int, k: int)
    requires
        0 <= j <= k <= d.len(),
        all_decimal_digits(d.take(k)),
    ensures
        decimal_value(d.take(j)) <= decimal_value(d.take(k)),
    decreases k - j,
{
    if j < k {
        lemma_decimal_value_monotonic(d, j, k - 1);
        assert(d.take(k).drop_last() =~= d.take(k - 1));
        assert(all_decimal_digits(d.take(k - 1))) by {
            assert forall|i: int| 0 <= i < k - 1 implies is_decimal_digit(
                #[trigger] d.take(k - 1)[i],
            ) by {
                assert(d.take(k)[i] == d.take(k - 1)[i]);
            }
        }
    }
}

/// Reads `s` as a decimal `u64`, as the standard library's parse does.
pub fn parse_bee_id(s: &str) -> (result: Result<u64, IdParseError>)
    ensures
        result == parse_u64(s@),
{
    let len = s.unicode_len();
    if len == 0 {
        return Err(IdParseError::Empty);
    }
    let start: usize = if s.get_char(0) == '+' { 1 } else { 0 };
    let ghost d = unsigned_digits(s@);
    assert(d =~= s@.skip(start as int));
    if start == len {
        return Err(IdParseError::InvalidDigit);
    }
    let mut acc: u64 = 0;
    let mut i: usize = start;
    while i < len
        invariant
            len == s@.len(),
            0 < len,
            start <= i <= len,
            start < len,
            d =~= s@.skip(start as int),
            d == unsigned_digits(s@),
            all_decimal_digits(d.take(i - start)),
            acc == decimal_value(d.take(i - start)),
        decreases len - i,
    {
        let c = s.get_char(i);
        let ghost k = (i - start) as int;
        assert(d[k] == c);
        if !('0' <= c && c <= '9') {
            proof {
                assert forall|m: int|
                    0 < m <= d.len() && all_decimal_digits(#[trigger] d.take(m)) implies decimal_value(
                    d.take(m),
                ) <= u64::MAX by {
                    if m <= k {
                        lemma_decimal_value_monotonic(d, m, k);
                    } else {
                        assert(d.take(m)[k] == c);
                    }
                }
                assert(!all_decimal_digits(d)) by {
                    assert(d[k] == c);
                }
            }
            return Err(IdParseError::InvalidDigit);
        }
        let dv = (c as u32 - '0' as u32) as u64;
        assert(d.take(k + 1).drop_last() =~= d.take(k));
        assert(all_decimal_digits(d.take(k + 1))) by {
            assert forall|m: int| 0 <= m < k + 1 implies is_decimal_digit(
                #[trigger] d.take(k + 1)[m],
            ) by {
                if m < k {
                    assert(d.take(k + 1)[m] == d.take(k)[m]);
                }
            }
        }
        let next = match acc.checked_mul(10) {
            Some(p) => p.checked_add(dv),
            None => None,
        };
        match next {
            Some(v) => {
                acc = v;
            },
            None => {
                assert(decimal_value(d.take(k + 1)) == acc * 10 + dv);
                assert(decimal_value(d.take(k + 1)) > u64::MAX);
                assert(digits_overflow(d));
                return Err(IdParseError::PosOverflow);
            },
        }
        i = i + 1;
    }
    proof {
        assert(d.take(d.len() as int) =~= d);
        assert forall|m: int|
            0 < m <= d.len() && all_decimal_digits(#[trigger] d.take(m)) implies decimal_value(
            d.take(m),
        ) <= u64::MAX by {
            lemma_decimal_value_monotonic(d, m, d.len() as int);
        }
    }
    Ok(acc)
}

/// Whether `s` is the query word `id`.
fn is_id_query(s: &str) -> (b: bool)
    ensures
        b == (s@ == "id"@),
{
    proof {
        reveal_strlit("id");
    }
    if s.unicode_len() != 2 {
        return false;
    }
    let b = s.get_char(0) == 'i' && s.get_char(1) == 'd';
    if b {
        assert(s@ =~= "id"@);
    }
    b
}

/// Reads the bee id from the command line `args` (the program name first):
/// the query word `id` then the id itself, a decimal `u64`.
pub fn get_bee_id_from_args(args: &Vec<String>) -> (result: Result<u64, BeeIdError>)
    ensures
        args.len() < 3 ==> result == Err::<u64, BeeIdError>(
            BeeIdError::Args(ArgsError::MissingArguments),
        ),
        args.len() >= 3 && args[1]@ != "id"@ ==> result == Err::<u64, BeeIdError>(
            BeeIdError::Args(ArgsError::MissingId),
        ),
        args.len() >= 3 && args[1]@ == "id"@ ==> result == match parse_u64(args[2]@) {
            Ok(id) => Ok::<u64, BeeIdError>(id),
            Err(e) => Err(BeeIdError::Parse(e)),
        },
{
    if args.len() < 3 {
        return Err(BeeIdError::Args(ArgsError::MissingArguments));
    }
    if !is_id_query(args[1].as_str()) {
        return Err(BeeIdError::Args(ArgsError::MissingId));
    }
    match parse_bee_id(args[2].as_str()) {
        Ok(id) => Ok(id),
        Err(e) => Err(BeeIdError::Parse(e)),
    }
}

} // verus!
