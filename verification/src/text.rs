//! Text as sequences of characters: reading a `&str` into characters, building
//! a `String` character by character, character classes, decimal numerals and
//! 16-digit binary numerals.

use vstd::prelude::*;

verus! {

/// `String::push` of the standard library appends the character to the end of
/// the string and changes nothing else.
pub assume_specification[ String::push ](s: &mut String, c: char)
    ensures
        final(s)@ == old(s)@.push(c),
;

/// The characters of `s`, in order.
pub fn chars_of(s: &str) -> (v: Vec<char>)
    ensures
        v@ == s@,
{
    let mut v: Vec<char> = Vec::new();
    for c in it: s.chars()
        invariant
            v@ == it.seq().take(it.index()),
            it.seq() == s@,
    {
        v.push(c);
    }
    v
}

/// A string that holds the characters `v[from..to]`.
pub fn string_of(v: &Vec<char>, from: usize, to: usize) -> (s: String)
    requires
        from <= to <= v.len(),
    ensures
        s@ == v@.subrange(from as int, to as int),
{
    let mut s = String::new();
    let mut i: usize = from;
    while i < to
        invariant
            from <= i <= to <= v.len(),
            s@ == v@.subrange(from as int, i as int),
        decreases to - i,
    {
        s.push(v[i]);
        i += 1;
    }
    s
}

/// An ASCII decimal digit.
pub open spec fn is_digit(c: char) -> bool {
    '0' <= c <= '9'
}

/// An ASCII letter.
pub open spec fn is_letter(c: char) -> bool {
    ('a' <= c <= 'z') || ('A' <= c <= 'Z')
}

/// A set of characters that a run of text is drawn from.
#[derive(Clone, Copy, Debug, PartialEq, Eq, Structural)]
pub enum CharClass {
    /// `0` to `9`.
    Digit,
    /// `a` to `z` and `A` to `Z`.
    Letter,
    /// A letter or a digit.
    LetterOrDigit,
    /// A letter, a digit, `_`, `.` or `$`.
    SymbolChar,
    /// A letter, a digit, `_` or `.`.
    NameChar,
    /// A space or a tab.
    Blank,
    /// Anything but a line feed.
    NotLineFeed,
    /// Anything but a carriage return or a line feed.
    NotLineEnd,
}

impl CharClass {
    /// Whether `c` belongs to the class.
    pub open spec fn holds(self, c: char) -> bool {
        match self {
            CharClass::Digit => is_digit(c),
            CharClass::Letter => is_letter(c),
            CharClass::LetterOrDigit => is_letter(c) || is_digit(c),
            CharClass::SymbolChar => is_letter(c) || is_digit(c) || c == '_' || c == '.' || c
                == '$',
            CharClass::NameChar => is_letter(c) || is_digit(c) || c == '_' || c == '.',
            CharClass::Blank => c == ' ' || c == '\t',
            CharClass::NotLineFeed => c != '\n',
            CharClass::NotLineEnd => c != '\r' && c != '\n',
        }
    }

    /// Whether `c` belongs to the class.
    pub fn contains(self, c: char) -> (b: bool)
        ensures
            b == self.holds(c),
    {
        let digit = '0' <= c && c <= '9';
        let letter = ('a' <= c && c <= 'z') || ('A' <= c && c <= 'Z');
        match self {
            CharClass::Digit => digit,
            CharClass::Letter => letter,
            CharClass::LetterOrDigit => letter || digit,
            CharClass::SymbolChar => letter || digit || c == '_' || c == '.' || c == '$',
            CharClass::NameChar => letter || digit || c == '_' || c == '.',
            CharClass::Blank => c == ' ' || c == '\t',
            CharClass::NotLineFeed => c != '\n',
            CharClass::NotLineEnd => c != '\r' && c != '\n',
        }
    }
}

/// The number of characters from `from` on, up to the first that is not in
/// `class` or the end of `s`.
pub open spec fn run_len(s: Seq<char>, from: int, class: CharClass) -> nat
    decreases s.len() - from,
{
    if 0 <= from < s.len() && class.holds(s[from]) {
        1 + run_len(s, from + 1, class)
    } else {
        0
    }
}

/// A run never leaves the text.
pub proof fn lemma_run_len_bound(s: Seq<char>, from: int, class: CharClass)
    requires
        0 <= from <= s.len(),
    ensures
        from + run_len(s, from, class) <= s.len(),
    decreases s.len() - from,
{
    if from < s.len() && class.holds(s[from]) {
        lemma_run_len_bound(s, from + 1, class);
    }
}

/// Every character of a run is in the class, and the character after it, if
/// there is one, is not.
pub proof fn lemma_run_len_chars(s: Seq<char>, from: int, class: CharClass)
    requires
        0 <= from <= s.len(),
    ensures
        forall|i: int|
            from <= i < from + run_len(s, from, class) ==> class.holds(#[trigger] s[i]),
        from + run_len(s, from, class) < s.len() ==> !class.holds(
            s[from + run_len(s, from, class)],
        ),
    decreases s.len() - from,
{
    if from < s.len() && class.holds(s[from]) {
        lemma_run_len_chars(s, from + 1, class);
    }
}

/// A run that starts with `k` characters of the class goes on as the run
/// that starts behind them.
pub proof fn lemma_run_len_split(s: Seq<char>, from: int, k: int, class: CharClass)
    requires
        0 <= from,
        0 <= k,
        from + k <= s.len(),
        forall|i: int| from <= i < from + k ==> class.holds(#[trigger] s[i]),
    ensures
        run_len(s, from, class) == k + run_len(s, from + k, class),
    decreases k,
{
    if k > 0 {
        lemma_run_len_split(s, from + 1, k - 1, class);
    }
}

/// The index behind the run of `class` that starts at `from`.
pub fn run_end(v: &Vec<char>, from: usize, class: CharClass) -> (end: usize)
    requires
        from <= v.len(),
    ensures
        end == from + run_len(v@, from as int, class),
        from <= end <= v.len(),
{
    let mut i: usize = from;
    while i < v.len() && class.contains(v[i])
        invariant
            from <= i <= v.len(),
            forall|j: int| from <= j < i ==> class.holds(#[trigger] v@[j]),
        decreases v.len() - i,
    {
        i += 1;
    }
    proof {
        lemma_run_len_split(v@, from as int, i - from, class);
    }
    i
}

/// The value of the decimal digit `c`.
pub open spec fn digit_value(c: char) -> nat {
    (c as int - '0' as int) as nat
}

/// The decimal digit of value `d`, for `d < 10`.
pub open spec fn digit_char(d: nat) -> char {
    ('0' as int + d) as char
}

/// The number that the decimal digits `s` write, most significant first.
pub open spec fn decimal_value(s: Seq<char>) -> nat
    decreases s.len(),
{
    if s.len() == 0 {
        0
    } else {
        decimal_value(s.drop_last()) * 10 + digit_value(s.last())
    }
}

/// The decimal numeral of `n`, without leading zeros.
pub open spec fn decimal(n: nat) -> Seq<char>
    decreases n,
{
    if n < 10 {
        seq![digit_char(n)]
    } else {
        decimal(n / 10).push(digit_char(n % 10))
    }
}

/// Whether every character of `s` is a decimal digit.
pub open spec fn all_digits(s: Seq<char>) -> bool {
    forall|i: int| 0 <= i < s.len() ==> is_digit(#[trigger] s[i])
}

/// A decimal numeral is a nonempty sequence of digits.
pub proof fn lemma_decimal_digits(n: nat)
    ensures
        decimal(n).len() >= 1,
        all_digits(decimal(n)),
    decreases n,
{
    if n >= 10 {
        lemma_decimal_digits(n / 10);
    }
}

/// Reading a decimal numeral gives the number back.
pub proof fn lemma_decimal_value(n: nat)
    ensures
        decimal_value(decimal(n)) == n,
    decreases n,
{
    if n < 10 {
        assert(decimal(n).drop_last() =~= Seq::<char>::empty());
        assert(decimal_value(decimal(n).drop_last()) == 0);
    } else {
        lemma_decimal_value(n / 10);
        assert(decimal(n).drop_last() =~= decimal(n / 10));
    }
}

/// Different numbers have different decimal numerals.
pub proof fn lemma_decimal_injective(a: nat, b: nat)
    requires
        decimal(a) == decimal(b),
    ensures
        a == b,
{
    lemma_decimal_value(a);
    lemma_decimal_value(b);
}

/// The value that `s[from..to]` writes in decimal, if it is at most 65535.
pub fn parse_u16(v: &Vec<char>, from: usize, to: usize) -> (r: Option<u16>)
    requires
        from <= to <= v.len(),
        all_digits(v@.subrange(from as int, to as int)),
    ensures
        r == (if decimal_value(v@.subrange(from as int, to as int)) <= u16::MAX {
            Some(decimal_value(v@.subrange(from as int, to as int)) as u16)
        } else {
            None
        }),
{
    // `acc` follows the value read so far and stops growing at 65536.
    let mut acc: u32 = 0;
    let mut i: usize = from;
    while i < to
        invariant
            from <= i <= to <= v.len(),
            all_digits(v@.subrange(from as int, to as int)),
            acc <= 65536,
            acc == if decimal_value(v@.subrange(from as int, i as int)) <= 65535 {
                decimal_value(v@.subrange(from as int, i as int))
            } else {
                65536
            },
        decreases to - i,
    {
        let c = v[i];
        proof {
            let whole = v@.subrange(from as int, to as int);
            assert(whole[i - from] == c);
            let next = v@.subrange(from as int, i + 1);
            assert(next.drop_last() =~= v@.subrange(from as int, i as int));
            assert(next.last() == c);
        }
        let d: u32 = (c as u32) - ('0' as u32);
        acc = acc * 10 + d;
        if acc > 65536 {
            acc = 65536;
        }
        i += 1;
    }
    if acc <= 65535 {
        Some(acc as u16)
    } else {
        None
    }
}

/// Appends the decimal numeral of `n` to `out`.
pub fn push_decimal(out: &mut String, n: u64)
    ensures
        final(out)@ == old(out)@ + decimal(n as nat),
    decreases n,
{
    if n >= 10 {
        push_decimal(out, n / 10);
    }
    let d: u8 = (n % 10) as u8;
    let c: char = (48u8 + d) as char;
    assert(c == digit_char((n % 10) as nat));
    out.push(c);
    assert(final(out)@ =~= old(out)@ + decimal(n as nat));
}

/// The binary digit of `w` at place `bit`, place 0 being the least significant.
pub open spec fn bit_char(w: u16, bit: u16) -> char {
    if (w >> bit) & 1 == 1 {
        '1'
    } else {
        '0'
    }
}

/// The sixteen binary digits of `w`, most significant first.
pub open spec fn binary16(w: u16) -> Seq<char> {
    Seq::new(16, |i: int| bit_char(w, (15 - i) as u16))
}

/// Appends the sixteen binary digits of `w` to `out`.
pub fn push_binary16(out: &mut String, w: u16)
    ensures
        final(out)@ == old(out)@ + binary16(w),
{
    let mut i: u16 = 0;
    while i < 16
        invariant
            i <= 16,
            out@ == old(out)@ + binary16(w).take(i as int),
        decreases 16 - i,
    {
        let c = if (w >> (15 - i)) & 1 == 1 {
            '1'
        } else {
            '0'
        };
        out.push(c);
        assert(binary16(w).take(i + 1) =~= binary16(w).take(i as int).push(c));
        i += 1;
    }
    assert(binary16(w).take(16) =~= binary16(w));
}

} // verus!
