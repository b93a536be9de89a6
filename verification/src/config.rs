//! What a configuration can ask for: the eviction policies by name, and cache
//! sizes written as text, such as `100KB` or `2MB`.
use vstd::prelude::*;
use vstd::string::StrSliceExecFns;

verus! {

/// The eviction policies that a simulation can be run with.
#[derive(Clone, Copy, Debug, PartialEq, Eq)]
pub enum EvictionPolicy {
    LRU,
    FIFO,
    LFU,
    TWOQ,
}

impl EvictionPolicy {
    /// The name of the policy.
    pub open spec fn name(self) -> Seq<char> {
        match self {
            EvictionPolicy::LRU => "LRU"@,
            EvictionPolicy::FIFO => "FIFO"@,
            EvictionPolicy::LFU => "LFU"@,
            EvictionPolicy::TWOQ => "TWOQ"@,
        }
    }

    /// The name of the policy, as a string.
    pub fn to_string(&self) -> (text: String)
        ensures
            text@ == self.name(),
    {
        match self {
            EvictionPolicy::LRU => "LRU",
            EvictionPolicy::FIFO => "FIFO",
            EvictionPolicy::LFU => "LFU",
            EvictionPolicy::TWOQ => "TWOQ",
        }.to_string()
    }
}

/// The policies of a configuration that names none: LRU alone.
pub fn default_eviction_policies() -> (policies: Option<Vec<EvictionPolicy>>)
    ensures
        policies matches Some(list) && list@ == seq![EvictionPolicy::LRU],
{
    let mut list: Vec<EvictionPolicy> = Vec::new();
    list.push(EvictionPolicy::LRU);
    Some(list)
}

/// The bytes of a kilobyte.
pub const KB: u64 = 1024;

/// The bytes of a megabyte.
pub const MB: u64 = 1_048_576;

/// The bytes of a gigabyte.
pub const GB: u64 = 1_073_741_824;

/// Why a text is not a size.
#[derive(Clone, Copy, Debug, PartialEq, Eq)]
pub enum SizeFault {
    /// There is no number.
    Empty,
    /// Something other than a decimal digit stands where a digit must.
    InvalidDigit,
    /// The number, or the size it stands for, does not fit in 64 bits.
    TooLarge,
}

impl SizeFault {
    /// The message of the fault.
    pub open spec fn message(self) -> Seq<char> {
        match self {
            SizeFault::Empty => "cannot parse integer from empty string"@,
            SizeFault::InvalidDigit => "invalid digit found in string"@,
            SizeFault::TooLarge => "number too large to fit in target type"@,
        }
    }

    /// The message of the fault, as a string.
    pub fn to_string(&self) -> (text: String)
        ensures
            text@ == self.message(),
    {
        match self {
            SizeFault::Empty => "cannot parse integer from empty string",
            SizeFault::InvalidDigit => "invalid digit found in string",
            SizeFault::TooLarge => "number too large to fit in target type",
        }.to_string()
    }
}

/// The value of a decimal digit.
pub open spec fn digit_of(c: char) -> Option<u64> {
    if c == '0' {
        Some(0)
    } else if c == '1' {
        Some(1)
    } else if c == '2' {
        Some(2)
    } else if c == '3' {
        Some(3)
    } else if c == '4' {
        Some(4)
    } else if c == '5' {
        Some(5)
    } else if c == '6' {
        Some(6)
    } else if c == '7' {
        Some(7)
    } else if c == '8' {
        Some(8)
    } else if c == '9' {
        Some(9)
    } else {
        None
    }
}

/// Reads a decimal digit.
fn read_digit(c: char) -> (digit: Option<u64>)
    ensures
        digit == digit_of(c),
{
    if c == '0' {
        Some(0)
    } else if c == '1' {
        Some(1)
    } else if c == '2' {
        Some(2)
    } else if c == '3' {
        Some(3)
    } else if c == '4' {
        Some(4)
    } else if c == '5' {
        Some(5)
    } else if c == '6' {
        Some(6)
    } else if c == '7' {
        Some(7)
    } else if c == '8' {
        Some(8)
    } else if c == '9' {
        Some(9)
    } else {
        None
    }
}

/// The number that `digits` continue from `acc`, read from left to right;
/// the first fault met is the fault.
pub open spec fn accumulate(acc: nat, digits: Seq<char>) -> Result<u64, SizeFault>
    decreases digits.len(),
{
    if digits.len() == 0 {
        if acc <= u64::MAX {
            Ok(acc as u64)
        } else {
            Err(SizeFault::TooLarge)
        }
    } else {
        match digit_of(digits[0]) {
            None => Err(SizeFault::InvalidDigit),
            Some(d) => if acc * 10 + d > u64::MAX {
                Err(SizeFault::TooLarge)
            } else {
                accumulate((acc * 10 + d) as nat, digits.skip(1))
            },
        }
    }
}

/// The number that a text stands for: decimal digits, at least one, after
/// a `+` or nothing.
pub open spec fn decimal(text: Seq<char>) -> Result<u64, SizeFault> {
    if text.len() == 0 {
        Err(SizeFault::Empty)
    } else if text.len() == 1 && (text[0] == '+' || text[0] == '-') {
        Err(SizeFault::InvalidDigit)
    } else if text[0] == '+' {
        accumulate(0, text.skip(1))
    } else {
        accumulate(0, text)
    }
}

/// Whether the text ends in the two given characters.
pub open spec fn ends_in(text: Seq<char>, a: char, b: char) -> bool {
    text.len() >= 2 && text[text.len() - 2] == a && text[text.len() - 1] == b
}

/// A number of units, as long as it fits in 64 bits.
pub open spec fn times(number: Result<u64, SizeFault>, unit: u64) -> Result<u64, SizeFault> {
    match number {
        Ok(n) => if n * unit > u64::MAX {
            Err(SizeFault::TooLarge)
        } else {
            Ok((n * unit) as u64)
        },
        Err(fault) => Err(fault),
    }
}

/// The size that a text in capitals stands for: a number, or a number
/// before `KB`, `MB` or `GB`, in units of that many bytes.
pub open spec fn size_value(text: Seq<char>) -> Result<u64, SizeFault> {
    let number = text.take(text.len() - 2);
    if ends_in(text, 'K', 'B') {
        times(decimal(number), KB)
    } else if ends_in(text, 'M', 'B') {
        times(decimal(number), MB)
    } else if ends_in(text, 'G', 'B') {
        times(decimal(number), GB)
    } else {
        decimal(text)
    }
}

/// The characters of a text.
fn chars_of(text: &str) -> (chars: Vec<char>)
    ensures
        chars@ == text@,
{
    let n = text.unicode_len();
    let mut chars: Vec<char> = Vec::new();
    let mut i: usize = 0;
    while i < n
        invariant
            n == text@.len(),
            i <= n,
            chars@ == text@.take(i as int),
        decreases n - i,
    {
        chars.push(text.get_char(i));
        assert(text@.take(i + 1) =~= text@.take(i as int).push(text@[i as int]));
        i = i + 1;
    }
    assert(text@.take(n as int) =~= text@);
    chars
}

/// Reads the number that the characters before `end` stand for.
fn read_decimal(chars: &Vec<char>, end: usize) -> (number: Result<u64, SizeFault>)
    requires
        end <= chars@.len(),
    ensures
        number == decimal(chars@.take(end as int)),
{
    let ghost text = chars@.take(end as int);
    if end == 0 {
        return Err(SizeFault::Empty);
    }
    let first = chars[0];
    assert(text[0] == first);
    if end == 1 && (first == '+' || first == '-') {
        return Err(SizeFault::InvalidDigit);
    }
    let start: usize = if first == '+' {
        1
    } else {
        0
    };
    let ghost body = text.skip(start as int);
    let mut acc: u64 = 0;
    let mut i: usize = start;
    proof {
        assert(body.skip(0) =~= body);
        assert(text.skip(0) =~= text);
    }
    while i < end
        invariant
            start <= i <= end,
            end <= chars@.len(),
            text == chars@.take(end as int),
            body == text.skip(start as int),
            decimal(text) == accumulate(0, body),
            accumulate(0, body) == accumulate(acc as nat, body.skip(i - start)),
        decreases end - i,
    {
        let c = chars[i];
        let ghost rest = body.skip(i - start);
        assert(rest[0] == c);
        assert(rest.skip(1) =~= body.skip(i + 1 - start));
        match read_digit(c) {
            None => {
                return Err(SizeFault::InvalidDigit);
            },
            Some(digit) => {
                if acc > (u64::MAX - digit) / 10 {
                    return Err(SizeFault::TooLarge);
                }
                acc = acc * 10 + digit;
            },
        }
        i = i + 1;
    }
    assert(body.skip(end - start) =~= Seq::<char>::empty());
    Ok(acc)
}

/// Takes a number of units, as long as the product fits in 64 bits.
fn scale_units(number: Result<u64, SizeFault>, unit: u64) -> (size: Result<u64, SizeFault>)
    ensures
        size == times(number, unit),
{
    match number {
        Ok(n) => match n.checked_mul(unit) {
            Some(product) => Ok(product),
            None => Err(SizeFault::TooLarge),
        },
        Err(fault) => Err(fault),
    }
}

/// Reads a size from a text in capitals, without space around it: the size
/// that `size_value` gives, or the message of the fault.
pub fn size_of_text(text: &str) -> (size: Result<Option<u64>, String>)
    ensures
        match size {
            Ok(value) => value.is_some() && size_value(text@) == Ok::<u64, SizeFault>(
                value.unwrap(),
            ),
            Err(message) => size_value(text@) is Err && message@ == size_value(
                text@,
            )->Err_0.message(),
        },
{
    let chars = chars_of(text);
    let n = chars.len();
    assert(chars@.take(n as int) =~= chars@);
    let value = if n >= 2 && chars[n - 1] == 'B' && (chars[n - 2] == 'K' || chars[n - 2] == 'M'
        || chars[n - 2] == 'G') {
        let number = read_decimal(&chars, n - 2);
        let unit: u64 = if chars[n - 2] == 'K' {
            KB
        } else if chars[n - 2] == 'M' {
            MB
        } else {
            GB
        };
        scale_units(number, unit)
    } else {
        read_decimal(&chars, n)
    };
    match value {
        Ok(v) => Ok(Some(v)),
        Err(fault) => Err(fault.to_string()),
    }
}

/// What `str::trim` makes of a text.
pub uninterp spec fn trimmed(text: Seq<char>) -> Seq<char>;

/// What `str::to_uppercase` makes of a text.
pub uninterp spec fn uppercased(text: Seq<char>) -> Seq<char>;

/// `str::trim`: the text without the white space at its ends.
#[verifier::external_body]
fn trim_text<'a>(text: &'a str) -> (inner: &'a str)
    ensures
        inner@ == trimmed(text@),
{
    text.trim()
}

/// `str::to_uppercase`: the text in capitals.
#[verifier::external_body]
fn uppercase_text(text: &str) -> (capitals: String)
    ensures
        capitals@ == uppercased(text@),
{
    text.to_uppercase()
}

/// Reads a cache size such as `100KB` or `2mb`: the text is trimmed and put
/// in capitals, and then read as `size_of_text` reads it.
pub fn parse_size(s: &str) -> (size: Result<Option<u64>, String>)
    ensures
        match size {
            Ok(value) => value.is_some() && size_value(uppercased(trimmed(s@))) == Ok::<
                u64,
                SizeFault,
            >(value.unwrap()),
            Err(message) => size_value(uppercased(trimmed(s@))) is Err && message@ == size_value(
                uppercased(trimmed(s@)),
            )->Err_0.message(),
        },
{
    let capitals = uppercase_text(trim_text(s));
    size_of_text(capitals.as_str())
}

} // verus!
