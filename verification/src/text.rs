//! Text on characters: trimming, ASCII case, prefixes and suffixes, and
//! numbers in decimal and hexadecimal.
use vstd::prelude::*;
use vstd::string::{StrSliceExecFns, StringExecFns};

verus! {

/// `String::push` appends the character to the end of the string.
pub assume_specification[ String::push ](s: &mut String, c: char)
    ensures
        final(s)@ == old(s)@.push(c),
;

/// The views of the text in an option.
pub open spec fn opt_text(o: Option<String>) -> Option<Seq<char>> {
    match o {
        Some(s) => Some(s@),
        None => None,
    }
}

/// Whether `c` is white space in Unicode's sense.
pub open spec fn is_space(c: char) -> bool {
    ||| 0x09 <= c as u32 <= 0x0d
    ||| c as u32 == 0x20
    ||| c as u32 == 0x85
    ||| c as u32 == 0xa0
    ||| c as u32 == 0x1680
    ||| 0x2000 <= c as u32 <= 0x200a
    ||| c as u32 == 0x2028
    ||| c as u32 == 0x2029
    ||| c as u32 == 0x202f
    ||| c as u32 == 0x205f
    ||| c as u32 == 0x3000
}

/// `s` without the white space in front.
pub open spec fn trimmed_start(s: Seq<char>) -> Seq<char>
    decreases s.len(),
{
    if s.len() > 0 && is_space(s.first()) {
        trimmed_start(s.drop_first())
    } else {
        s
    }
}

/// `s` without the white space at the end.
pub open spec fn trimmed_end(s: Seq<char>) -> Seq<char>
    decreases s.len(),
{
    if s.len() > 0 && is_space(s.last()) {
        trimmed_end(s.drop_last())
    } else {
        s
    }
}

/// `s` without the white space at either end.
pub open spec fn trimmed(s: Seq<char>) -> Seq<char> {
    trimmed_end(trimmed_start(s))
}

/// `c` in lower case, if it is an ASCII letter.
pub open spec fn lower(c: char) -> char {
    if 'A' <= c <= 'Z' {
        (c as u8 + 32) as char
    } else {
        c
    }
}

/// `s` with its ASCII letters in lower case.
pub open spec fn lowered(s: Seq<char>) -> Seq<char> {
    s.map_values(|c: char| lower(c))
}

/// Whether `s` ends in `t`.
pub open spec fn has_suffix(s: Seq<char>, t: Seq<char>) -> bool {
    t.len() <= s.len() && s.skip(s.len() - t.len()) =~= t
}

/// Whether `s` starts with `t`.
pub open spec fn has_prefix(s: Seq<char>, t: Seq<char>) -> bool {
    t.len() <= s.len() && s.take(t.len() as int) =~= t
}

/// `s` without `t` at its end; `s` itself, if it does not end so.
pub open spec fn without_suffix(s: Seq<char>, t: Seq<char>) -> Seq<char> {
    if has_suffix(s, t) {
        s.take(s.len() - t.len())
    } else {
        s
    }
}

/// Whether `t` stands in `s` at `at`.
pub open spec fn occurs_at(s: Seq<char>, t: Seq<char>, at: int) -> bool {
    0 <= at && at + t.len() <= s.len() && s.subrange(at, at + t.len()) == t
}

/// Whether `t` stands somewhere in `s`.
pub open spec fn occurs_in(s: Seq<char>, t: Seq<char>) -> bool {
    exists|at: int| #[trigger] occurs_at(s, t, at)
}

/// Whether `c` is an ASCII digit.
pub open spec fn is_digit(c: char) -> bool {
    '0' <= c <= '9'
}

/// The characters of `s`.
pub(crate) fn chars_of(s: &str) -> (v: Vec<char>)
    ensures
        v@ == s@,
{
    let mut v: Vec<char> = Vec::new();
    for c in it: s.chars()
        invariant
            it.seq() == s@,
            v@ == s@.take(it.index() as int),
    {
        v.push(c);
    }
    assert(s@.take(s@.len() as int) =~= s@);
    v
}

/// Whether two texts are the same.
pub(crate) fn same(a: &str, b: &str) -> (r: bool)
    ensures
        r == (a@ == b@),
{
    let x = chars_of(a);
    let y = chars_of(b);
    if x.len() != y.len() {
        return false;
    }
    let mut i: usize = 0;
    while i < x.len()
        invariant
            i <= x@.len(),
            x@.len() == y@.len(),
            x@ == a@,
            y@ == b@,
            forall|j: int| 0 <= j < i ==> x@[j] == y@[j],
        decreases x@.len() - i,
    {
        if x[i] != y[i] {
            assert(a@[i as int] != b@[i as int]);
            return false;
        }
        i = i + 1;
    }
    assert(x@ =~= y@);
    true
}

/// Whether two optional texts are the same.
pub(crate) fn same_option(a: &Option<String>, b: &Option<String>) -> (r: bool)
    ensures
        r == (opt_text(*a) == opt_text(*b)),
{
    match (a, b) {
        (Some(x), Some(y)) => same(x.as_str(), y.as_str()),
        (None, None) => true,
        _ => false,
    }
}

/// Whether `c` is white space in Unicode's sense.
pub(crate) fn is_whitespace(c: char) -> (r: bool)
    ensures
        r == is_space(c),
{
    let n: u32 = c as u32;
    (0x09 <= n && n <= 0x0d) || n == 0x20 || n == 0x85 || n == 0xa0 || n == 0x1680 || (0x2000 <= n
        && n <= 0x200a) || n == 0x2028 || n == 0x2029 || n == 0x202f || n == 0x205f || n == 0x3000
}

/// The text without the white space at either end.
pub fn trim(s: &str) -> (t: &str)
    ensures
        t@ == trimmed(s@),
{
    let v = chars_of(s);
    let mut from: usize = 0;
    assert(s@.skip(0) =~= s@);
    while from < v.len() && is_whitespace(v[from])
        invariant
            from <= v@.len(),
            v@ == s@,
            trimmed_start(s@) == trimmed_start(s@.skip(from as int)),
        decreases v@.len() - from,
    {
        assert(s@.skip(from as int).drop_first() =~= s@.skip(from + 1));
        from = from + 1;
    }
    let mut to: usize = v.len();
    assert(s@.subrange(from as int, to as int) =~= s@.skip(from as int));
    assert(trimmed_start(s@) == s@.subrange(from as int, to as int));
    while from < to && is_whitespace(v[to - 1])
        invariant
            from <= to <= v@.len(),
            v@ == s@,
            trimmed(s@) == trimmed_end(s@.subrange(from as int, to as int)),
        decreases to - from,
    {
        assert(s@.subrange(from as int, to as int).drop_last() =~= s@.subrange(
            from as int,
            to - 1,
        ));
        to = to - 1;
    }
    s.substring_char(from, to)
}

/// The text with its ASCII letters in lower case.
pub fn to_ascii_lowercase(s: &str) -> (t: String)
    ensures
        t@ == lowered(s@),
{
    let v = chars_of(s);
    let mut t = String::new();
    let mut i: usize = 0;
    while i < v.len()
        invariant
            i <= v@.len(),
            v@ == s@,
            t@ == lowered(s@.take(i as int)),
        decreases v@.len() - i,
    {
        let c = v[i];
        let l = if 'A' <= c && c <= 'Z' {
            (c as u8 + 32) as char
        } else {
            c
        };
        t.push(l);
        i = i + 1;
        assert(lowered(s@.take(i as int)) =~= lowered(s@.take(i - 1)).push(lower(c)));
    }
    assert(s@.take(s@.len() as int) =~= s@);
    t
}

/// What stands in front of `suffix`, if the text ends in it.
pub fn strip_suffix<'a>(s: &'a str, suffix: &str) -> (r: Option<&'a str>)
    ensures
        match r {
            Some(t) => has_suffix(s@, suffix@) && t@ == s@.take(s@.len() - suffix@.len()),
            None => !has_suffix(s@, suffix@),
        },
{
    let n: usize = s.unicode_len();
    let m: usize = suffix.unicode_len();
    if n < m {
        return None;
    }
    let tail = s.substring_char(n - m, n);
    assert(tail@ =~= s@.skip(s@.len() - suffix@.len()));
    if same(tail, suffix) {
        let head = s.substring_char(0, n - m);
        assert(head@ =~= s@.take(s@.len() - suffix@.len()));
        Some(head)
    } else {
        None
    }
}

/// What stands behind `prefix`, if the text starts with it.
pub fn strip_prefix<'a>(s: &'a str, prefix: &str) -> (r: Option<&'a str>)
    ensures
        match r {
            Some(t) => has_prefix(s@, prefix@) && t@ == s@.skip(prefix@.len() as int),
            None => !has_prefix(s@, prefix@),
        },
{
    let n: usize = s.unicode_len();
    let m: usize = prefix.unicode_len();
    if n < m {
        return None;
    }
    let head = s.substring_char(0, m);
    assert(head@ =~= s@.take(prefix@.len() as int));
    if same(head, prefix) {
        let tail = s.substring_char(m, n);
        assert(tail@ =~= s@.skip(prefix@.len() as int));
        Some(tail)
    } else {
        None
    }
}

/// Whether `t` stands somewhere in `s`.
pub fn contains(s: &str, t: &str) -> (r: bool)
    ensures
        r == occurs_in(s@, t@),
{
    let n: usize = s.unicode_len();
    let m: usize = t.unicode_len();
    if n < m {
        return false;
    }
    let mut at: usize = 0;
    while at <= n - m
        invariant
            n == s@.len(),
            m == t@.len(),
            m <= n,
            at <= n - m + 1,
            forall|i: int| 0 <= i < at ==> !occurs_at(s@, t@, i),
        decreases n - m + 1 - at,
    {
        if same(s.substring_char(at, at + m), t) {
            assert(occurs_at(s@, t@, at as int));
            return true;
        }
        if at == n - m {
            assert(forall|i: int| #[trigger] occurs_at(s@, t@, i) ==> i <= n - m);
            return false;
        }
        at = at + 1;
    }
    false
}

/// The digit of `c` in the given radix (at most 16), where it is one.
pub open spec fn digit_value(c: char, radix: int) -> Option<int> {
    let n = c as u32 as int;
    let d = if 0x30 <= n <= 0x39 {
        n - 0x30
    } else if 0x41 <= n <= 0x46 {
        n - 0x41 + 10
    } else if 0x61 <= n <= 0x66 {
        n - 0x61 + 10
    } else {
        radix
    };
    if d < radix {
        Some(d)
    } else {
        None
    }
}

/// Whether every character is a digit in the given radix.
pub open spec fn all_digits(s: Seq<char>, radix: int) -> bool {
    forall|i: int| 0 <= i < s.len() ==> digit_value(#[trigger] s[i], radix) is Some
}

/// The number that the digits `s` write in the given radix.
pub open spec fn number_of(s: Seq<char>, radix: int) -> int
    decreases s.len(),
{
    if s.len() == 0 {
        0
    } else {
        number_of(s.drop_last(), radix) * radix + digit_value(s.last(), radix)->0
    }
}

/// Why a text is no number.
#[derive(Clone, Copy, Debug, PartialEq, Eq, Structural)]
pub enum ParseNumberError {
    /// There is nothing to read.
    Empty,
    /// A character is no digit, or there is only a sign.
    InvalidDigit,
    /// The number is larger than the largest that fits.
    Overflow,
}

impl ParseNumberError {
    /// The sentence that tells of the error.
    pub open spec fn text(self) -> Seq<char> {
        match self {
            ParseNumberError::Empty => "cannot parse integer from empty string"@,
            ParseNumberError::InvalidDigit => "invalid digit found in string"@,
            ParseNumberError::Overflow => "number too large to fit in target type"@,
        }
    }

    /// The sentence that tells of the error.
    pub fn message(self) -> (s: &'static str)
        ensures
            s@ == self.text(),
    {
        match self {
            ParseNumberError::Empty => "cannot parse integer from empty string",
            ParseNumberError::InvalidDigit => "invalid digit found in string",
            ParseNumberError::Overflow => "number too large to fit in target type",
        }
    }
}

/// The result of reading digits behind `value`, from left to right. The first
/// thing that goes wrong decides on the error.
pub open spec fn read_digits(value: int, s: Seq<char>, radix: int, max: int) -> Result<
    int,
    ParseNumberError,
>
    decreases s.len(),
{
    if s.len() == 0 {
        Ok(value)
    } else {
        match digit_value(s.first(), radix) {
            None => Err(ParseNumberError::InvalidDigit),
            Some(d) => if value * radix + d > max {
                Err(ParseNumberError::Overflow)
            } else {
                read_digits(value * radix + d, s.drop_first(), radix, max)
            },
        }
    }
}

/// What `s` is as an unsigned number that is at most `max`: an optional plus
/// sign, and at least one digit.
pub open spec fn parsed(s: Seq<char>, radix: int, max: int) -> Result<int, ParseNumberError> {
    if s.len() == 0 {
        Err(ParseNumberError::Empty)
    } else if s.len() == 1 && (s[0] == '+' || s[0] == '-') {
        Err(ParseNumberError::InvalidDigit)
    } else if s[0] == '+' {
        read_digits(0, s.drop_first(), radix, max)
    } else {
        read_digits(0, s, radix, max)
    }
}

fn digit(c: char, radix: u64) -> (r: Option<u64>)
    requires
        radix == 10 || radix == 16,
    ensures
        match r {
            Some(d) => digit_value(c, radix as int) == Some(d as int) && d < radix,
            None => digit_value(c, radix as int) is None,
        },
{
    let n: u32 = c as u32;
    let d: u64 = if 0x30 <= n && n <= 0x39 {
        (n - 0x30) as u64
    } else if 0x41 <= n && n <= 0x46 {
        (n - 0x41 + 10) as u64
    } else if 0x61 <= n && n <= 0x66 {
        (n - 0x61 + 10) as u64
    } else {
        radix
    };
    if d < radix {
        Some(d)
    } else {
        None
    }
}

/// Reads an unsigned number that is at most `max`, in decimal or hexadecimal.
pub fn parse_number(s: &str, radix: u64, max: u64) -> (res: Result<u64, ParseNumberError>)
    requires
        radix == 10 || radix == 16,
    ensures
        match res {
            Ok(n) => parsed(s@, radix as int, max as int) == Ok::<int, ParseNumberError>(n as int),
            Err(e) => parsed(s@, radix as int, max as int) == Err::<int, ParseNumberError>(e),
        },
        res matches Ok(n) ==> n <= max,
{
    let v = chars_of(s);
    if v.len() == 0 {
        return Err(ParseNumberError::Empty);
    }
    if v.len() == 1 && (v[0] == '+' || v[0] == '-') {
        return Err(ParseNumberError::InvalidDigit);
    }
    let mut i: usize = if v[0] == '+' {
        1
    } else {
        0
    };
    let mut value: u64 = 0;
    assert(s@.skip(1) =~= s@.drop_first());
    assert(s@.skip(0) =~= s@);
    while i < v.len()
        invariant
            radix == 10 || radix == 16,
            i <= v@.len(),
            v@ == s@,
            value <= max,
            parsed(s@, radix as int, max as int) == read_digits(
                value as int,
                s@.skip(i as int),
                radix as int,
                max as int,
            ),
        decreases v@.len() - i,
    {
        assert(s@.skip(i as int).first() == v@[i as int]);
        assert(s@.skip(i as int).drop_first() =~= s@.skip(i + 1));
        let d: u64 = match digit(v[i], radix) {
            None => return Err(ParseNumberError::InvalidDigit),
            Some(d) => d,
        };
        assert(value * radix <= u64::MAX * 16) by (nonlinear_arith)
            requires
                radix <= 16,
                value <= u64::MAX,
        ;
        let next: u128 = value as u128 * radix as u128 + d as u128;
        if next > max as u128 {
            return Err(ParseNumberError::Overflow);
        }
        value = next as u64;
        i = i + 1;
    }
    Ok(value)
}

/// A text is read as a number exactly if it is an optional plus sign and at
/// least one digit, and the number that the digits write is at most `max`.
/// That number is then the result.
pub proof fn parsed_numbers(s: Seq<char>, radix: int, max: int)
    requires
        radix == 10 || radix == 16,
        max >= 0,
    ensures
        ({
            let digits = if s.len() > 0 && s[0] == '+' {
                s.drop_first()
            } else {
                s
            };
            if digits.len() > 0 && all_digits(digits, radix) && number_of(digits, radix) <= max {
                parsed(s, radix, max) == Ok::<int, ParseNumberError>(number_of(digits, radix))
            } else {
                parsed(s, radix, max) is Err
            }
        }),
{
    let digits = if s.len() > 0 && s[0] == '+' {
        s.drop_first()
    } else {
        s
    };
    if digits.len() > 0 {
        lemma_read_digits(digits, 0, radix, max);
        assert(digits.take(0) =~= Seq::<char>::empty());
        assert(digits.skip(0) =~= digits);
        if s.len() == 1 {
            assert(s[0] == '-' || !(s[0] == '-'));
            if s[0] == '-' {
                assert(digit_value(digits[0], radix) is None);
            }
        }
    }
}

proof fn lemma_read_digits(s: Seq<char>, i: int, radix: int, max: int)
    requires
        radix == 10 || radix == 16,
        0 <= i <= s.len(),
        all_digits(s.take(i), radix),
        number_of(s.take(i), radix) <= max,
    ensures
        ({
            let r = read_digits(number_of(s.take(i), radix), s.skip(i), radix, max);
            if all_digits(s, radix) && number_of(s, radix) <= max {
                r == Ok::<int, ParseNumberError>(number_of(s, radix))
            } else {
                r is Err
            }
        }),
    decreases s.len() - i,
{
    if i == s.len() {
        assert(s.take(i) =~= s);
        assert(s.skip(i).len() == 0);
    } else {
        assert(s.skip(i).first() == s[i]);
        assert(s.skip(i).drop_first() =~= s.skip(i + 1));
        assert(s.take(i + 1).drop_last() =~= s.take(i));
        assert(s.take(i + 1).last() == s[i]);
        match digit_value(s[i], radix) {
            None => {},
            Some(d) => {
                if number_of(s.take(i + 1), radix) <= max {
                    lemma_read_digits(s, i + 1, radix, max);
                } else if all_digits(s, radix) {
                    lemma_number_grows(s, i + 1, radix);
                }
            },
        }
    }
}

proof fn lemma_number_grows(s: Seq<char>, i: int, radix: int)
    requires
        radix == 10 || radix == 16,
        0 <= i <= s.len(),
        all_digits(s, radix),
    ensures
        0 <= number_of(s.take(i), radix) <= number_of(s, radix),
    decreases s.len(),
{
    if s.len() == 0 {
    } else {
        let t = s.drop_last();
        assert(digit_value(s[s.len() - 1], radix) is Some);
        if i == s.len() {
            assert(s.take(i) =~= s);
            assert(t.take(i - 1) =~= t);
            assert forall|j: int| 0 <= j < t.len() implies digit_value(
                #[trigger] t[j],
                radix,
            ) is Some by {
                assert(s[j] == t[j]);
            }
            lemma_number_grows(t, i - 1, radix);
        } else {
            assert(s.take(i) =~= t.take(i));
            assert forall|j: int| 0 <= j < t.len() implies digit_value(
                #[trigger] t[j],
                radix,
            ) is Some by {
                assert(s[j] == t[j]);
            }
            lemma_number_grows(t, i, radix);
        }
    }
}

/// The decimal digits of `n`, without leading zeros.
pub open spec fn decimal(n: nat) -> Seq<char>
    decreases n,
{
    if n < 10 {
        seq![(0x30 + n) as char]
    } else {
        decimal(n / 10).push((0x30 + n % 10) as char)
    }
}

/// The decimal digits of `n`, without leading zeros.
pub fn decimal_of(n: u64) -> (s: String)
    ensures
        s@ == decimal(n as nat),
    decreases n,
{
    let mut s = if n < 10 {
        String::new()
    } else {
        decimal_of(n / 10)
    };
    let d: u8 = (n % 10) as u8;
    s.push((0x30 + d) as char);
    assert(s@ =~= decimal(n as nat));
    s
}

/// A number's decimal digits are read back as that number, where it fits.
pub proof fn decimal_is_read_back(n: nat, max: int)
    requires
        n <= max,
    ensures
        parsed(decimal(n), 10, max) == Ok::<int, ParseNumberError>(n as int),
{
    lemma_decimal(n);
    parsed_numbers(decimal(n), 10, max);
}

/// There is no white space around a number's decimal digits.
pub proof fn decimal_is_trimmed(n: nat)
    ensures
        trimmed(decimal(n)) == decimal(n),
        decimal(n).len() > 0,
{
    lemma_decimal(n);
    let s = decimal(n);
    assert(digit_value(s[0], 10) is Some);
    assert(digit_value(s[s.len() - 1], 10) is Some);
    assert(!is_space(s.first()));
    assert(!is_space(s.last()));
}

proof fn lemma_decimal(n: nat)
    ensures
        decimal(n).len() > 0,
        all_digits(decimal(n), 10),
        decimal(n)[0] != '+',
        number_of(decimal(n), 10) == n,
    decreases n,
{
    reveal_with_fuel(number_of, 2);
    if n < 10 {
        assert(decimal(n).drop_last() =~= Seq::<char>::empty());
    } else {
        lemma_decimal(n / 10);
        assert(decimal(n).drop_last() =~= decimal(n / 10));
        assert(decimal(n)[0] == decimal(n / 10)[0]);
    }
}

/// `a` followed by `b`.
pub(crate) fn joined(a: &str, b: &str) -> (s: String)
    ensures
        s@ == a@ + b@,
{
    let mut s = String::from_str(a);
    s.append(b);
    s
}

/// The texts of a list.
pub open spec fn texts(s: Seq<String>) -> Seq<Seq<char>> {
    s.map_values(|t: String| t@)
}

/// The parts, with a separator between each two.
pub open spec fn separated(parts: Seq<Seq<char>>, separator: Seq<char>) -> Seq<char>
    decreases parts.len(),
{
    if parts.len() == 0 {
        seq![]
    } else if parts.len() == 1 {
        parts[0]
    } else {
        separated(parts.drop_last(), separator) + separator + parts.last()
    }
}

/// The parts, with a separator between each two.
pub(crate) fn join(parts: &Vec<String>, separator: &str) -> (s: String)
    ensures
        s@ == separated(texts(parts@), separator@),
{
    let ghost all = texts(parts@);
    let mut s = String::new();
    let mut i: usize = 0;
    assert(s@ =~= separated(all.take(0), separator@));
    while i < parts.len()
        invariant
            i <= parts@.len(),
            all == texts(parts@),
            s@ == separated(all.take(i as int), separator@),
        decreases parts@.len() - i,
    {
        if i > 0 {
            s.append(separator);
        }
        s.append(parts[i].as_str());
        proof {
            assert(all.take(i + 1).drop_last() =~= all.take(i as int));
            assert(all.take(i + 1).last() == parts@[i as int]@);
            if i == 0 {
                assert(separated(all.take(0), separator@) =~= Seq::<char>::empty());
                assert(s@ =~= separated(all.take(1), separator@));
            }
        }
        i = i + 1;
    }
    assert(all.take(i as int) =~= all);
    s
}

/// The text in double quotes, with what cannot be printed escaped: what
/// `{:?}` writes for a string.
pub uninterp spec fn quoted(s: Seq<char>) -> Seq<char>;

/// Calls `format!` with `{:?}` on a string. The result is a function of the
/// string alone; nothing else is claimed of it.
#[verifier::external_body]
pub(crate) fn quote(s: &str) -> (t: String)
    ensures
        t@ == quoted(s@),
{
    format!("{s:?}")
}

/// What `{:?}` writes for an optional string.
pub open spec fn quoted_option(o: Option<Seq<char>>) -> Seq<char> {
    match o {
        Some(s) => "Some("@ + quoted(s) + ")"@,
        None => "None"@,
    }
}

/// What `{:?}` writes for an optional string.
pub(crate) fn quote_option(o: &Option<String>) -> (t: String)
    ensures
        t@ == quoted_option(opt_text(*o)),
{
    match o {
        Some(s) => joined(joined("Some(", quote(s.as_str()).as_str()).as_str(), ")"),
        None => String::from_str("None"),
    }
}

/// The hexadecimal digit of a number below sixteen, in lower case.
pub open spec fn hex_digit(n: u8) -> char {
    if n < 10 {
        (0x30 + n) as char
    } else {
        (0x61 + n - 10) as char
    }
}

/// A byte as two hexadecimal digits.
pub open spec fn hex_byte(n: u8) -> Seq<char> {
    seq![hex_digit(n / 16), hex_digit(n % 16)]
}

/// A byte as two hexadecimal digits.
pub(crate) fn hex_of(n: u8) -> (s: String)
    ensures
        s@ == hex_byte(n),
{
    let mut s = String::new();
    let (a, b) = (n / 16, n % 16);
    s.push(if a < 10 { (0x30 + a) as char } else { (0x57 + a) as char });
    s.push(if b < 10 { (0x30 + b) as char } else { (0x57 + b) as char });
    assert(s@ =~= hex_byte(n));
    s
}

/// Whether every character is white space.
pub open spec fn all_space(s: Seq<char>) -> bool {
    forall|i: int| 0 <= i < s.len() ==> is_space(#[trigger] s[i])
}

proof fn lemma_trimmed_start(s: Seq<char>) -> (n: int)
    ensures
        0 <= n <= s.len(),
        trimmed_start(s) == s.skip(n),
        all_space(s.take(n)),
        n < s.len() ==> !is_space(s[n]),
    decreases s.len(),
{
    if s.len() > 0 && is_space(s.first()) {
        let n = lemma_trimmed_start(s.drop_first());
        assert(s.drop_first().skip(n) =~= s.skip(n + 1));
        assert forall|i: int| 0 <= i < n + 1 implies is_space(#[trigger] s.take(n + 1)[i]) by {
            if i > 0 {
                assert(s.take(n + 1)[i] == s.drop_first().take(n)[i - 1]);
            }
        }
        n + 1
    } else {
        assert(s.skip(0) =~= s);
        0
    }
}

proof fn lemma_trimmed_end(s: Seq<char>) -> (n: int)
    ensures
        0 <= n <= s.len(),
        trimmed_end(s) == s.take(n),
        all_space(s.skip(n)),
        n > 0 ==> !is_space(s[n - 1]),
    decreases s.len(),
{
    if s.len() > 0 && is_space(s.last()) {
        let n = lemma_trimmed_end(s.drop_last());
        assert(s.drop_last().take(n) =~= s.take(n));
        assert forall|i: int| 0 <= i < s.len() - n implies is_space(#[trigger] s.skip(n)[i]) by {
            if i < s.len() - n - 1 {
                assert(s.skip(n)[i] == s.drop_last().skip(n)[i]);
            }
        }
        n
    } else {
        assert(s.take(s.len() as int) =~= s);
        s.len() as int
    }
}

/// Trimming takes away white space at both ends and nothing else: what is left
/// stands in the text between two stretches of white space, and neither begins
/// nor ends with any.
pub proof fn trimming_takes_white_space_away(s: Seq<char>) -> (r: (int, int))
    ensures
        0 <= r.0 <= r.1 <= s.len(),
        trimmed(s) == s.subrange(r.0, r.1),
        all_space(s.take(r.0)),
        all_space(s.skip(r.1)),
        trimmed(s).len() > 0 ==> !is_space(trimmed(s).first()) && !is_space(trimmed(s).last()),
{
    let a = lemma_trimmed_start(s);
    let t = s.skip(a);
    let n = lemma_trimmed_end(t);
    assert(t.take(n) =~= s.subrange(a, a + n));
    assert forall|i: int| 0 <= i < s.len() - (a + n) implies is_space(
        #[trigger] s.skip(a + n)[i],
    ) by {
        assert(s.skip(a + n)[i] == t.skip(n)[i]);
    }
    (a, a + n)
}

/// A text that neither begins nor ends with white space is not changed by
/// trimming.
pub proof fn trimmed_text_stays(s: Seq<char>)
    requires
        s.len() > 0 ==> !is_space(s.first()) && !is_space(s.last()),
    ensures
        trimmed(s) == s,
{
}

/// Blanks, tabs and line ends are white space, and no letter, digit or other
/// visible ASCII character is.
pub proof fn white_space_of_ascii(c: char)
    requires
        c as u32 <= 0x7f,
    ensures
        is_space(c) <==> c == ' ' || c == '\t' || c == '\n' || c == '\r' || c as u32 == 0x0b
            || c as u32 == 0x0c,
{
}

/// Lower case keeps the length of a text, moves each ASCII capital to the small
/// letter 32 places on, and leaves every other character alone.
pub proof fn lower_case_moves_capitals_only(s: Seq<char>, i: int)
    requires
        0 <= i < s.len(),
    ensures
        lowered(s).len() == s.len(),
        'A' <= s[i] <= 'Z' ==> lowered(s)[i] as u32 == s[i] as u32 + 32,
        !('A' <= s[i] <= 'Z') ==> lowered(s)[i] == s[i],
{
}

/// A suffix or a prefix is found exactly if the text is something followed by
/// it, or it followed by something.
pub proof fn suffix_and_prefix_of_a_sum(a: Seq<char>, b: Seq<char>)
    ensures
        has_suffix(a + b, b),
        has_prefix(a + b, a),
        without_suffix(a + b, b) == a,
{
    assert((a + b).skip(a.len() as int) =~= b);
    assert((a + b).take(a.len() as int) =~= a);
}

/// A text of which nothing is taken away does not end in the suffix, and what is
/// left together with the suffix is the text.
pub proof fn suffix_is_taken_away_once(s: Seq<char>, t: Seq<char>)
    requires
        t.len() > 0,
    ensures
        without_suffix(s, t) == s <==> !has_suffix(s, t),
        has_suffix(s, t) ==> without_suffix(s, t) + t == s,
{
    if has_suffix(s, t) {
        let n = s.len() - t.len();
        assert(s.take(n) + t =~= s);
        assert(s.take(n).len() < s.len());
    }
}

/// Digits are worth what they are: `0` to `9` in both radices, and the letters
/// `a` to `f`, in either case, ten to fifteen in hexadecimal.
pub proof fn digits_are_worth_what_they_are(c: char)
    ensures
        digit_value(c, 10) == if '0' <= c <= '9' {
            Some(c as u32 - '0' as u32)
        } else {
            None
        },
        digit_value(c, 16) == if '0' <= c <= '9' {
            Some(c as u32 - '0' as u32)
        } else if 'a' <= c <= 'f' {
            Some(c as u32 - 'a' as u32 + 10)
        } else if 'A' <= c <= 'F' {
            Some(c as u32 - 'A' as u32 + 10)
        } else {
            None
        },
{
}

/// The number that digits write grows by a place with each digit.
pub proof fn places_count_by_the_radix(s: Seq<char>, c: char, radix: int)
    requires
        digit_value(c, radix) is Some,
    ensures
        number_of(s.push(c), radix) == radix * number_of(s, radix) + digit_value(c, radix)->0,
        number_of(Seq::<char>::empty(), radix) == 0,
{
    assert(s.push(c).drop_last() =~= s);
    assert(number_of(s, radix) * radix == radix * number_of(s, radix)) by (nonlinear_arith);
}

/// Parts are separated by the separator, and by nothing else: none in front of
/// the first, and none behind the last.
pub proof fn parts_are_separated(parts: Seq<Seq<char>>, separator: Seq<char>, last: Seq<char>)
    ensures
        separated(Seq::<Seq<char>>::empty(), separator) == Seq::<char>::empty(),
        separated(seq![last], separator) == last,
        parts.len() > 0 ==> separated(parts.push(last), separator) == separated(parts, separator)
            + separator + last,
{
    assert(parts.push(last).drop_last() =~= parts);
}

/// A byte is written as two hexadecimal digits that are worth it.
pub proof fn bytes_are_written_in_hexadecimal(n: u8)
    ensures
        hex_byte(n).len() == 2,
        digit_value(hex_byte(n)[0], 16) == Some(n as int / 16),
        digit_value(hex_byte(n)[1], 16) == Some(n as int % 16),
        number_of(hex_byte(n), 16) == n,
        lowered(hex_byte(n)) == hex_byte(n),
{
    let s = hex_byte(n);
    assert(s.drop_last() =~= seq![s[0]]);
    assert(seq![s[0]].drop_last() =~= Seq::<char>::empty());
    reveal_with_fuel(number_of, 3);
    assert(lowered(s) =~= s);
}

} // verus!
