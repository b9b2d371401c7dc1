//! Character classes and runs of characters, the alphabet of the line grammar.

use vstd::prelude::*;

verus! {

/// A set of characters that a field of a log line is made of.
#[derive(Clone, Copy, Debug, PartialEq, Eq, Structural)]
pub enum Class {
    /// Anything but white space.
    NonSpace,
    /// Anything but a line feed.
    NonNewline,
    /// Anything but a double quote.
    NonQuote,
    /// The decimal digits of every script.
    Decimal,
    /// The decimal digits `0` to `9`.
    Digit,
    /// The hexadecimal digits, in either case.
    Hex,
}

/// White space: the characters with the Unicode property `White_Space`.
pub open spec fn is_space(c: char) -> bool {
    let n = c as u32;
    ||| 0x09 <= n <= 0x0D
    ||| n == 0x20
    ||| n == 0x85
    ||| n == 0xA0
    ||| n == 0x1680
    ||| 0x2000 <= n <= 0x200A
    ||| n == 0x2028
    ||| n == 0x2029
    ||| n == 0x202F
    ||| n == 0x205F
    ||| n == 0x3000
}

/// A decimal digit of some script: the characters of the Unicode general
/// category `Nd`, as of Unicode 16.
pub open spec fn is_decimal_number(c: char) -> bool {
    let n = c as u32;
    ||| 0x0030 <= n <= 0x0039
    ||| 0x0660 <= n <= 0x0669
    ||| 0x06F0 <= n <= 0x06F9
    ||| 0x07C0 <= n <= 0x07C9
    ||| 0x0966 <= n <= 0x096F
    ||| 0x09E6 <= n <= 0x09EF
    ||| 0x0A66 <= n <= 0x0A6F
    ||| 0x0AE6 <= n <= 0x0AEF
    ||| 0x0B66 <= n <= 0x0B6F
    ||| 0x0BE6 <= n <= 0x0BEF
    ||| 0x0C66 <= n <= 0x0C6F
    ||| 0x0CE6 <= n <= 0x0CEF
    ||| 0x0D66 <= n <= 0x0D6F
    ||| 0x0DE6 <= n <= 0x0DEF
    ||| 0x0E50 <= n <= 0x0E59
    ||| 0x0ED0 <= n <= 0x0ED9
    ||| 0x0F20 <= n <= 0x0F29
    ||| 0x1040 <= n <= 0x1049
    ||| 0x1090 <= n <= 0x1099
    ||| 0x17E0 <= n <= 0x17E9
    ||| 0x1810 <= n <= 0x1819
    ||| 0x1946 <= n <= 0x194F
    ||| 0x19D0 <= n <= 0x19D9
    ||| 0x1A80 <= n <= 0x1A89
    ||| 0x1A90 <= n <= 0x1A99
    ||| 0x1B50 <= n <= 0x1B59
    ||| 0x1BB0 <= n <= 0x1BB9
    ||| 0x1C40 <= n <= 0x1C49
    ||| 0x1C50 <= n <= 0x1C59
    ||| 0xA620 <= n <= 0xA629
    ||| 0xA8D0 <= n <= 0xA8D9
    ||| 0xA900 <= n <= 0xA909
    ||| 0xA9D0 <= n <= 0xA9D9
    ||| 0xA9F0 <= n <= 0xA9F9
    ||| 0xAA50 <= n <= 0xAA59
    ||| 0xABF0 <= n <= 0xABF9
    ||| 0xFF10 <= n <= 0xFF19
    ||| 0x104A0 <= n <= 0x104A9
    ||| 0x10D30 <= n <= 0x10D39
    ||| 0x10D40 <= n <= 0x10D49
    ||| 0x11066 <= n <= 0x1106F
    ||| 0x110F0 <= n <= 0x110F9
    ||| 0x11136 <= n <= 0x1113F
    ||| 0x111D0 <= n <= 0x111D9
    ||| 0x112F0 <= n <= 0x112F9
    ||| 0x11450 <= n <= 0x11459
    ||| 0x114D0 <= n <= 0x114D9
    ||| 0x11650 <= n <= 0x11659
    ||| 0x116C0 <= n <= 0x116C9
    ||| 0x116D0 <= n <= 0x116E3
    ||| 0x11730 <= n <= 0x11739
    ||| 0x118E0 <= n <= 0x118E9
    ||| 0x11950 <= n <= 0x11959
    ||| 0x11BF0 <= n <= 0x11BF9
    ||| 0x11C50 <= n <= 0x11C59
    ||| 0x11D50 <= n <= 0x11D59
    ||| 0x11DA0 <= n <= 0x11DA9
    ||| 0x11F50 <= n <= 0x11F59
    ||| 0x16130 <= n <= 0x16139
    ||| 0x16A60 <= n <= 0x16A69
    ||| 0x16AC0 <= n <= 0x16AC9
    ||| 0x16B50 <= n <= 0x16B59
    ||| 0x16D70 <= n <= 0x16D79
    ||| 0x1CCF0 <= n <= 0x1CCF9
    ||| 0x1D7CE <= n <= 0x1D7FF
    ||| 0x1E140 <= n <= 0x1E149
    ||| 0x1E2F0 <= n <= 0x1E2F9
    ||| 0x1E4F0 <= n <= 0x1E4F9
    ||| 0x1E5F1 <= n <= 0x1E5FA
    ||| 0x1E950 <= n <= 0x1E959
    ||| 0x1FBF0 <= n <= 0x1FBF9
}

/// One of the digits `0` to `9`.
pub open spec fn is_digit(c: char) -> bool {
    '0' <= c <= '9'
}

/// A hexadecimal digit, in either case.
pub open spec fn is_hex(c: char) -> bool {
    is_digit(c) || 'a' <= c <= 'f' || 'A' <= c <= 'F'
}

/// The value of a decimal or hexadecimal digit; 0 for any other character.
pub open spec fn digit_value(c: char) -> nat {
    if is_digit(c) {
        (c as u32 - '0' as u32) as nat
    } else if 'a' <= c <= 'f' {
        (c as u32 - 'a' as u32 + 10) as nat
    } else if 'A' <= c <= 'F' {
        (c as u32 - 'A' as u32 + 10) as nat
    } else {
        0
    }
}

impl Class {
    /// Whether `c` belongs to the class.
    pub open spec fn has(self, c: char) -> bool {
        match self {
            Class::NonSpace => !is_space(c),
            Class::NonNewline => c != '\n',
            Class::NonQuote => c != '"',
            Class::Decimal => is_decimal_number(c),
            Class::Digit => is_digit(c),
            Class::Hex => is_hex(c),
        }
    }

    /// Tells whether `c` belongs to the class.
    pub fn contains(self, c: char) -> (r: bool)
        ensures
            r == self.has(c),
    {
        let n: u32 = c as u32;
        match self {
            Class::NonSpace => !((0x09 <= n && n <= 0x0D) || n == 0x20 || n == 0x85 || n == 0xA0
                || n == 0x1680 || (0x2000 <= n && n <= 0x200A) || n == 0x2028 || n == 0x2029
                || n == 0x202F || n == 0x205F || n == 0x3000),
            Class::NonNewline => c != '\n',
            Class::NonQuote => c != '"',
            Class::Decimal => decimal_number(c),
            Class::Digit => '0' <= c && c <= '9',
            Class::Hex => ('0' <= c && c <= '9') || ('a' <= c && c <= 'f') || ('A' <= c && c
                <= 'F'),
        }
    }
}

/// Whether `c` is a decimal digit of some script.
fn decimal_number(c: char) -> (r: bool)
    ensures
        r == is_decimal_number(c),
{
    let n: u32 = c as u32;
    (0x0030 <= n && n <= 0x0039) || (0x0660 <= n && n <= 0x0669)
        || (0x06F0 <= n && n <= 0x06F9) || (0x07C0 <= n && n <= 0x07C9)
        || (0x0966 <= n && n <= 0x096F) || (0x09E6 <= n && n <= 0x09EF)
        || (0x0A66 <= n && n <= 0x0A6F) || (0x0AE6 <= n && n <= 0x0AEF)
        || (0x0B66 <= n && n <= 0x0B6F) || (0x0BE6 <= n && n <= 0x0BEF)
        || (0x0C66 <= n && n <= 0x0C6F) || (0x0CE6 <= n && n <= 0x0CEF)
        || (0x0D66 <= n && n <= 0x0D6F) || (0x0DE6 <= n && n <= 0x0DEF)
        || (0x0E50 <= n && n <= 0x0E59) || (0x0ED0 <= n && n <= 0x0ED9)
        || (0x0F20 <= n && n <= 0x0F29) || (0x1040 <= n && n <= 0x1049)
        || (0x1090 <= n && n <= 0x1099) || (0x17E0 <= n && n <= 0x17E9)
        || (0x1810 <= n && n <= 0x1819) || (0x1946 <= n && n <= 0x194F)
        || (0x19D0 <= n && n <= 0x19D9) || (0x1A80 <= n && n <= 0x1A89)
        || (0x1A90 <= n && n <= 0x1A99) || (0x1B50 <= n && n <= 0x1B59)
        || (0x1BB0 <= n && n <= 0x1BB9) || (0x1C40 <= n && n <= 0x1C49)
        || (0x1C50 <= n && n <= 0x1C59) || (0xA620 <= n && n <= 0xA629)
        || (0xA8D0 <= n && n <= 0xA8D9) || (0xA900 <= n && n <= 0xA909)
        || (0xA9D0 <= n && n <= 0xA9D9) || (0xA9F0 <= n && n <= 0xA9F9)
        || (0xAA50 <= n && n <= 0xAA59) || (0xABF0 <= n && n <= 0xABF9)
        || (0xFF10 <= n && n <= 0xFF19) || (0x104A0 <= n && n <= 0x104A9)
        || (0x10D30 <= n && n <= 0x10D39) || (0x10D40 <= n && n <= 0x10D49)
        || (0x11066 <= n && n <= 0x1106F) || (0x110F0 <= n && n <= 0x110F9)
        || (0x11136 <= n && n <= 0x1113F) || (0x111D0 <= n && n <= 0x111D9)
        || (0x112F0 <= n && n <= 0x112F9) || (0x11450 <= n && n <= 0x11459)
        || (0x114D0 <= n && n <= 0x114D9) || (0x11650 <= n && n <= 0x11659)
        || (0x116C0 <= n && n <= 0x116C9) || (0x116D0 <= n && n <= 0x116E3)
        || (0x11730 <= n && n <= 0x11739) || (0x118E0 <= n && n <= 0x118E9)
        || (0x11950 <= n && n <= 0x11959) || (0x11BF0 <= n && n <= 0x11BF9)
        || (0x11C50 <= n && n <= 0x11C59) || (0x11D50 <= n && n <= 0x11D59)
        || (0x11DA0 <= n && n <= 0x11DA9) || (0x11F50 <= n && n <= 0x11F59)
        || (0x16130 <= n && n <= 0x16139) || (0x16A60 <= n && n <= 0x16A69)
        || (0x16AC0 <= n && n <= 0x16AC9) || (0x16B50 <= n && n <= 0x16B59)
        || (0x16D70 <= n && n <= 0x16D79) || (0x1CCF0 <= n && n <= 0x1CCF9)
        || (0x1D7CE <= n && n <= 0x1D7FF) || (0x1E140 <= n && n <= 0x1E149)
        || (0x1E2F0 <= n && n <= 0x1E2F9) || (0x1E4F0 <= n && n <= 0x1E4F9)
        || (0x1E5F1 <= n && n <= 0x1E5FA) || (0x1E950 <= n && n <= 0x1E959)
        || (0x1FBF0 <= n && n <= 0x1FBF9)
}

/// The value of the digit `c`, decimal or hexadecimal.
pub fn digit_of(c: char) -> (r: u8)
    requires
        is_hex(c),
    ensures
        r == digit_value(c),
        r < 16,
        is_digit(c) ==> r < 10,
{
    let n: u32 = c as u32;
    if '0' <= c && c <= '9' {
        (n - 0x30) as u8
    } else if 'a' <= c && c <= 'f' {
        (n - 0x61 + 10) as u8
    } else {
        (n - 0x41 + 10) as u8
    }
}

/// Whether the character at index `i` of `s` is `c`; false past the end.
pub open spec fn at(s: Seq<char>, i: int, c: char) -> bool {
    0 <= i < s.len() && s[i] == c
}

/// Whether every character of `s` from `from` up to `to` belongs to `class`.
pub open spec fn all_in(s: Seq<char>, from: int, to: int, class: Class) -> bool {
    forall|i: int| from <= i < to ==> class.has(#[trigger] s[i])
}

/// Where the longest run of characters of `class` that starts at `from` ends:
/// the first index at or after `from` that holds no character of the class.
pub open spec fn run_end(s: Seq<char>, from: int, class: Class) -> int
    decreases s.len() - from,
{
    if 0 <= from < s.len() && class.has(s[from]) {
        run_end(s, from + 1, class)
    } else {
        from
    }
}

/// A run ends where its class ends, and nowhere before.
pub proof fn lemma_run_end(s: Seq<char>, from: int, class: Class)
    requires
        0 <= from <= s.len(),
    ensures
        from <= run_end(s, from, class) <= s.len(),
        all_in(s, from, run_end(s, from, class), class),
        run_end(s, from, class) < s.len() ==> !class.has(s[run_end(s, from, class)]),
    decreases s.len() - from,
{
    if from < s.len() && class.has(s[from]) {
        lemma_run_end(s, from + 1, class);
    }
}

/// Any stretch of the class that stops at the end of `s` or before a character
/// outside the class is the longest run.
pub proof fn lemma_run_end_unique(s: Seq<char>, from: int, to: int, class: Class)
    requires
        0 <= from <= to <= s.len(),
        all_in(s, from, to, class),
        to < s.len() ==> !class.has(s[to]),
    ensures
        run_end(s, from, class) == to,
    decreases to - from,
{
    if from < to {
        assert(class.has(s[from]));
        lemma_run_end_unique(s, from + 1, to, class);
    }
}

/// Tells whether the character at index `i` of `s` is `c`.
pub fn is_at(s: &Vec<char>, i: usize, c: char) -> (r: bool)
    ensures
        r == at(s@, i as int, c),
{
    i < s.len() && s[i] == c
}

/// Scans the longest run of `class` that starts at `from`.
pub fn scan(s: &Vec<char>, from: usize, class: Class) -> (end: usize)
    requires
        from <= s.len(),
    ensures
        end == run_end(s@, from as int, class),
        from <= end <= s.len(),
{
    let mut i: usize = from;
    while i < s.len() && class.contains(s[i])
        invariant
            from <= i <= s.len(),
            run_end(s@, from as int, class) == run_end(s@, i as int, class),
        decreases s.len() - i,
    {
        i = i + 1;
    }
    proof {
        lemma_run_end(s@, from as int, class);
    }
    i
}

/// The characters of `s`, one by one.
pub fn to_chars(s: &str) -> (chars: Vec<char>)
    ensures
        chars@ == s@,
{
    let mut chars: Vec<char> = Vec::new();
    for c in it: s.chars()
        invariant
            it.seq() == s@,
            chars@ == s@.take(it.index() as int),
    {
        chars.push(c);
    }
    chars
}

} // verus!
