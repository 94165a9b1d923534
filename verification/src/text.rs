//! Character-level helpers: whitespace trimming and decimal digits,
//! with spec-level definitions that the rest of the library's contracts use.
use vstd::prelude::*;

verus! {

/// The ASCII whitespace characters that `trim` strips from both ends of a line.
pub open spec fn is_space(c: char) -> bool {
    c == ' ' || c == '\t' || c == '\n' || c == '\r' || c == '\u{b}' || c == '\u{c}'
}

/// Index of the first character at or after `i` that is not whitespace
/// (`s.len()` if there is none).
pub open spec fn skip_spaces(s: Seq<char>, i: int) -> int
    decreases s.len() - i,
    when 0 <= i <= s.len()
{
    if i >= s.len() {
        i
    } else if is_space(s[i]) {
        skip_spaces(s, i + 1)
    } else {
        i
    }
}

/// End of the line once trailing whitespace before `i` is dropped
/// (0 if everything before `i` is whitespace).
pub open spec fn trim_end_at(s: Seq<char>, i: int) -> int
    decreases i,
    when 0 <= i <= s.len()
{
    if i <= 0 {
        0
    } else if is_space(s[i - 1]) {
        trim_end_at(s, i - 1)
    } else {
        i
    }
}

/// The line with leading and trailing whitespace removed.
pub open spec fn trim_spec(s: Seq<char>) -> Seq<char> {
    let a = skip_spaces(s, 0);
    let b = trim_end_at(s, s.len() as int);
    if a < b {
        s.subrange(a, b)
    } else {
        Seq::empty()
    }
}

pub proof fn lemma_skip_spaces(s: Seq<char>, i: int)
    requires
        0 <= i <= s.len(),
    ensures
        i <= skip_spaces(s, i) <= s.len(),
        skip_spaces(s, i) < s.len() ==> !is_space(s[skip_spaces(s, i)]),
        forall|j: int| i <= j < skip_spaces(s, i) ==> is_space(s[j]),
    decreases s.len() - i,
{
    if i < s.len() && is_space(s[i]) {
        lemma_skip_spaces(s, i + 1);
    }
}

pub proof fn lemma_trim_end_at(s: Seq<char>, i: int)
    requires
        0 <= i <= s.len(),
    ensures
        0 <= trim_end_at(s, i) <= i,
        trim_end_at(s, i) > 0 ==> !is_space(s[trim_end_at(s, i) - 1]),
        forall|j: int| trim_end_at(s, i) <= j < i ==> is_space(s[j]),
    decreases i,
{
    if i > 0 && is_space(s[i - 1]) {
        lemma_trim_end_at(s, i - 1);
    }
}

fn is_space_char(c: char) -> (b: bool)
    ensures
        b == is_space(c),
{
    c == ' ' || c == '\t' || c == '\n' || c == '\r' || c == '\u{b}' || c == '\u{c}'
}

/// Removes leading and trailing whitespace, as a line read from an input
/// source is trimmed before parsing.
pub fn trim(s: &str) -> (r: &str)
    ensures
        r@ == trim_spec(s@),
{
    let n = s.unicode_len();
    let mut a: usize = 0;
    while a < n && is_space_char(s.get_char(a))
        invariant
            n == s@.len(),
            0 <= a <= n,
            skip_spaces(s@, 0) == skip_spaces(s@, a as int),
        decreases n - a,
    {
        a += 1;
    }
    proof {
        lemma_skip_spaces(s@, 0);
        assert(skip_spaces(s@, a as int) == a as int);
        assert(a as int == skip_spaces(s@, 0));
    }
    let mut b: usize = n;
    while b > a && is_space_char(s.get_char(b - 1))
        invariant
            n == s@.len(),
            a <= b <= n,
            a as int == skip_spaces(s@, 0),
            (a as int) < n ==> !is_space(s@[a as int]),
            (a as int) < n ==> a < b,
            trim_end_at(s@, n as int) == trim_end_at(s@, b as int),
        decreases b,
    {
        b -= 1;
    }
    proof {
        lemma_trim_end_at(s@, n as int);
        if b > a {
            // the loop stopped on a non-space character, so b is the trimmed end
            assert(!is_space(s@[b - 1]));
            assert(trim_end_at(s@, b as int) == b as int);
        } else {
            // b == a is only reachable when the whole line is whitespace
            assert(a == n);
            assert(trim_end_at(s@, n as int) <= a as int);
        }
    }
    if a < b {
        let r = s.substring_char(a, b);
        proof {
            assert(r@ == trim_spec(s@));
        }
        r
    } else {
        let r = s.substring_char(0, 0);
        proof {
            assert(trim_spec(s@) =~= Seq::<char>::empty());
            assert(r@ =~= Seq::<char>::empty());
        }
        r
    }
}

/// A single line terminator, the one every written line ends with.
pub open spec fn newline() -> Seq<char> {
    seq!['\n']
}

/// Numeric value of a decimal digit; 10 marks any other character.
pub open spec fn digit_val(c: char) -> int {
    if c == '0' {
        0
    } else if c == '1' {
        1
    } else if c == '2' {
        2
    } else if c == '3' {
        3
    } else if c == '4' {
        4
    } else if c == '5' {
        5
    } else if c == '6' {
        6
    } else if c == '7' {
        7
    } else if c == '8' {
        8
    } else if c == '9' {
        9
    } else {
        10
    }
}

pub open spec fn is_digit(c: char) -> bool {
    digit_val(c) < 10
}

pub open spec fn all_digits(s: Seq<char>) -> bool {
    forall|i: int| 0 <= i < s.len() ==> is_digit(s[i])
}

/// The decimal digit for a value in 0..10.
pub open spec fn digit_char(d: int) -> char {
    if d == 0 {
        '0'
    } else if d == 1 {
        '1'
    } else if d == 2 {
        '2'
    } else if d == 3 {
        '3'
    } else if d == 4 {
        '4'
    } else if d == 5 {
        '5'
    } else if d == 6 {
        '6'
    } else if d == 7 {
        '7'
    } else if d == 8 {
        '8'
    } else {
        '9'
    }
}

/// Value of a string of decimal digits, most significant first.
pub open spec fn dec_value(s: Seq<char>) -> int
    decreases s.len(),
{
    if s.len() == 0 {
        0
    } else {
        dec_value(s.drop_last()) * 10 + digit_val(s.last())
    }
}

/// Canonical decimal rendering of a number: no sign, no leading zero
/// except for the number 0 itself.
pub open spec fn dec_digits(n: nat) -> Seq<char>
    decreases n,
{
    if n < 10 {
        seq![digit_char(n as int)]
    } else {
        dec_digits(n / 10) + seq![digit_char((n % 10) as int)]
    }
}

pub proof fn lemma_dec_value_nonneg(s: Seq<char>)
    ensures
        dec_value(s) >= 0,
    decreases s.len(),
{
    if s.len() > 0 {
        lemma_dec_value_nonneg(s.drop_last());
    }
}

/// A longer digit string never has a smaller value: extending by one digit
/// multiplies by ten and adds a non-negative amount.
pub proof fn lemma_dec_value_prefix(s: Seq<char>, i: int)
    requires
        0 <= i <= s.len(),
    ensures
        dec_value(s.subrange(0, i)) <= dec_value(s),
    decreases s.len() - i,
{
    if i < s.len() {
        let t = s.subrange(0, i + 1);
        assert(t.drop_last() =~= s.subrange(0, i));
        lemma_dec_value_nonneg(s.subrange(0, i));
        assert(dec_value(s.subrange(0, i)) <= dec_value(t));
        lemma_dec_value_prefix(s, i + 1);
        assert(s.subrange(0, s.len() as int) =~= s);
    } else {
        assert(s.subrange(0, s.len() as int) =~= s);
    }
}

/// How many times a character occurs in a string.
pub open spec fn count_char(s: Seq<char>, c: char) -> int
    decreases s.len(),
{
    if s.len() == 0 {
        0
    } else {
        count_char(s.drop_last(), c) + if s.last() == c {
            1int
        } else {
            0int
        }
    }
}

pub proof fn lemma_count_char_concat(a: Seq<char>, b: Seq<char>, c: char)
    ensures
        count_char(a + b, c) == count_char(a, c) + count_char(b, c),
    decreases b.len(),
{
    if b.len() == 0 {
        assert(a + b =~= a);
    } else {
        assert((a + b).drop_last() =~= a + b.drop_last());
        lemma_count_char_concat(a, b.drop_last(), c);
    }
}

pub proof fn lemma_count_char_absent(s: Seq<char>, c: char)
    requires
        forall|i: int| 0 <= i < s.len() ==> s[i] != c,
    ensures
        count_char(s, c) == 0,
    decreases s.len(),
{
    if s.len() > 0 {
        lemma_count_char_absent(s.drop_last(), c);
    }
}

/// A decimal rendering consists of digits only, so it holds no newline.
pub proof fn lemma_dec_digits_no_newline(n: nat)
    ensures
        count_char(dec_digits(n), '\n') == 0,
    decreases n,
{
    if n >= 10 {
        lemma_dec_digits_no_newline(n / 10);
        lemma_count_char_absent(seq![digit_char((n % 10) as int)], '\n');
        lemma_count_char_concat(dec_digits(n / 10), seq![digit_char((n % 10) as int)], '\n');
    } else {
        lemma_count_char_absent(seq![digit_char(n as int)], '\n');
    }
}

/// Digit of a character, if it is one.
pub fn digit_of(c: char) -> (d: Option<u8>)
    ensures
        d is Some <==> is_digit(c),
        d is Some ==> d->0 == digit_val(c),
{
    match c {
        '0' => Some(0),
        '1' => Some(1),
        '2' => Some(2),
        '3' => Some(3),
        '4' => Some(4),
        '5' => Some(5),
        '6' => Some(6),
        '7' => Some(7),
        '8' => Some(8),
        '9' => Some(9),
        _ => None,
    }
}

fn digit_str(d: usize) -> (r: &'static str)
    requires
        d < 10,
    ensures
        r@ =~= seq![digit_char(d as int)],
{
    let r = match d {
        0 => "0",
        1 => "1",
        2 => "2",
        3 => "3",
        4 => "4",
        5 => "5",
        6 => "6",
        7 => "7",
        8 => "8",
        _ => "9",
    };
    proof {
        reveal_strlit("0");
        reveal_strlit("1");
        reveal_strlit("2");
        reveal_strlit("3");
        reveal_strlit("4");
        reveal_strlit("5");
        reveal_strlit("6");
        reveal_strlit("7");
        reveal_strlit("8");
        reveal_strlit("9");
    }
    r
}

/// Renders a number in decimal, as the menu numbers its entries.
pub fn render_usize(n: usize) -> (r: String)
    ensures
        r@ == dec_digits(n as nat),
    decreases n,
{
    if n < 10 {
        digit_str(n).to_owned()
    } else {
        let mut r = render_usize(n / 10);
        r.append(digit_str(n % 10));
        r
    }
}

} // verus!
