//! Where a world is kept: the paths of its files and the text of its
//! seed file.
//!
//! A world named `n` lives under `worlds/n`. Its seed stands in
//! `worlds/n/seed` as a decimal number, and the chunk at (x, z) is stored
//! in `worlds/n/chunks/x_z`.

use vstd::prelude::*;
use vstd::string::StrSliceExecFns;
use vstd::string::StringExecFns;

verus! {

/// The character of a decimal digit.
pub open spec fn digit_char(digit: int) -> char {
    if digit == 0 {
        '0'
    } else if digit == 1 {
        '1'
    } else if digit == 2 {
        '2'
    } else if digit == 3 {
        '3'
    } else if digit == 4 {
        '4'
    } else if digit == 5 {
        '5'
    } else if digit == 6 {
        '6'
    } else if digit == 7 {
        '7'
    } else if digit == 8 {
        '8'
    } else {
        '9'
    }
}

/// The character is a decimal digit.
pub open spec fn is_digit(c: char) -> bool {
    '0' <= c <= '9'
}

/// The value of a decimal digit.
pub open spec fn digit_value(c: char) -> int {
    c as int - '0' as int
}

/// A natural number in decimal, without sign or leading zeros.
pub open spec fn decimal(n: nat) -> Seq<char>
    decreases n,
{
    if n < 10 {
        seq![digit_char(n as int)]
    } else {
        decimal(n / 10).push(digit_char((n % 10) as int))
    }
}

/// An integer in decimal, with a minus sign if it is negative.
pub open spec fn signed_decimal(v: int) -> Seq<char> {
    if v < 0 {
        seq!['-'] + decimal((-v) as nat)
    } else {
        decimal(v as nat)
    }
}

/// Every character is a decimal digit.
pub open spec fn all_digits(s: Seq<char>) -> bool {
    forall|i: int| 0 <= i < s.len() ==> is_digit(#[trigger] s[i])
}

/// The number that a run of decimal digits stands for.
pub open spec fn digits_value(s: Seq<char>) -> nat
    decreases s.len(),
{
    if s.len() == 0 {
        0
    } else {
        (digits_value(s.drop_last()) * 10 + digit_value(s.last())) as nat
    }
}

/// The seed that a text stands for: an optional plus sign and then one
/// or more decimal digits, nothing before, between or after, and a value
/// that a seed can have.
pub open spec fn spec_parse_seed(text: Seq<char>) -> Option<u32> {
    let digits = if text.len() > 0 && text[0] == '+' {
        text.skip(1)
    } else {
        text
    };
    if digits.len() > 0 && all_digits(digits) && digits_value(digits) <= u32::MAX {
        Some(digits_value(digits) as u32)
    } else {
        None
    }
}

/// The directory of the world with the given name.
pub open spec fn spec_world_dir(name: Seq<char>) -> Seq<char> {
    "worlds/"@ + name
}

/// The seed file of the world in the given directory.
pub open spec fn spec_seed_path(world_dir: Seq<char>) -> Seq<char> {
    world_dir + "/seed"@
}

/// The chunk directory of the world in the given directory.
pub open spec fn spec_chunk_dir(world_dir: Seq<char>) -> Seq<char> {
    world_dir + "/chunks"@
}

/// The file of the chunk at (x, z) in the given chunk directory.
pub open spec fn spec_chunk_path(chunk_dir: Seq<char>, x: int, z: int) -> Seq<char> {
    chunk_dir + "/"@ + signed_decimal(x) + "_"@ + signed_decimal(z)
}

/// A decimal digit as text.
fn digit_str(digit: u64) -> (text: &'static str)
    requires
        digit < 10,
    ensures
        text@ == seq![digit_char(digit as int)],
{
    proof {
        reveal_strlit("0");
        reveal_strlit("1");
        reveal_strlit("2");
        reveal_strlit("3");
        reveal_strlit("4");
        reveal_strlit("5");
        reveal_strlit("6");
        reveal_strlit("7");
        reveal_strlit("8");
        reveal_strlit("9");
    }
    let text = if digit == 0 {
        "0"
    } else if digit == 1 {
        "1"
    } else if digit == 2 {
        "2"
    } else if digit == 3 {
        "3"
    } else if digit == 4 {
        "4"
    } else if digit == 5 {
        "5"
    } else if digit == 6 {
        "6"
    } else if digit == 7 {
        "7"
    } else if digit == 8 {
        "8"
    } else {
        "9"
    };
    assert(text@ =~= seq![digit_char(digit as int)]);
    text
}

/// Appends a natural number in decimal.
pub fn push_decimal(out: &mut String, value: u64)
    ensures
        final(out)@ == old(out)@ + decimal(value as nat),
    decreases value,
{
    let ghost before = out@;
    if value >= 10 {
        push_decimal(out, value / 10);
    }
    out.append(digit_str(value % 10));
    proof {
        if value >= 10 {
            assert(out@ =~= before + decimal((value / 10) as nat).push(
                digit_char((value % 10) as int),
            ));
        } else {
            assert(out@ =~= before + decimal(value as nat));
        }
    }
}

/// Appends an integer in decimal, with a minus sign if it is negative.
pub fn push_signed_decimal(out: &mut String, value: i32)
    ensures
        final(out)@ == old(out)@ + signed_decimal(value as int),
{
    let ghost before = out@;
    if value < 0 {
        proof {
            reveal_strlit("-");
        }
        out.append("-");
        push_decimal(out, (-(value as i64)) as u64);
        assert(out@ =~= before + signed_decimal(value as int));
    } else {
        push_decimal(out, value as u64);
    }
}

/// The text of a seed file: the seed in decimal.
pub fn seed_text(seed: u32) -> (text: String)
    ensures
        text@ == decimal(seed as nat),
{
    let mut text = String::new();
    push_decimal(&mut text, seed as u64);
    assert(text@ =~= decimal(seed as nat));
    text
}

/// Reads the seed from the text of a seed file. The text is accepted as
/// the number parser of the standard library accepts it: an optional plus
/// sign and then decimal digits only, with a value that fits a seed.
pub fn parse_seed(text: &str) -> (seed: Option<u32>)
    ensures
        seed == spec_parse_seed(text@),
{
    if !text.is_ascii() {
        proof {
            let bad = choose|i: int|
                0 <= i < text@.len() && !('\0' <= #[trigger] text@[i] <= '\u{7f}');
            let digits = if text@.len() > 0 && text@[0] == '+' {
                text@.skip(1)
            } else {
                text@
            };
            if text@.len() > 0 && text@[0] == '+' {
                assert(bad > 0);
                assert(digits[bad - 1] == text@[bad]);
                assert(!is_digit(digits[bad - 1]));
            } else {
                assert(!is_digit(digits[bad]));
            }
        }
        return None;
    }
    let n = text.unicode_len();
    let start: usize = if n > 0 && text.get_ascii(0) == 43 {
        1
    } else {
        0
    };
    let ghost digits = text@.skip(start as int);
    assert(start == 1 <==> (text@.len() > 0 && text@[0] == '+'));
    if start == n {
        return None;
    }
    assert(text@.skip(0) =~= text@);
    let mut value: u64 = 0;
    let mut i: usize = start;
    while i < n
        invariant
            start <= i <= n,
            start < n,
            n == text@.len(),
            text.is_ascii(),
            start == 0 || start == 1,
            start == 1 <==> (text@.len() > 0 && text@[0] == '+'),
            digits == text@.skip(start as int),
            start == 0 ==> digits == text@,
            all_digits(digits.take(i - start)),
            value == digits_value(digits.take(i - start)),
            value <= u32::MAX,
        decreases n - i,
    {
        let byte = text.get_ascii(i);
        let ghost c = text@[i as int];
        assert(digits[i - start] == c);
        if byte < 48 || byte > 57 {
            assert(!is_digit(digits[i - start]));
            return None;
        }
        let ghost grown = digits.take(i - start + 1);
        assert(grown.drop_last() =~= digits.take(i - start));
        assert(grown.last() == c);
        assert(digit_value(c) == byte - 48);
        assert forall|j: int| 0 <= j < grown.len() implies is_digit(#[trigger] grown[j]) by {
            if j < i - start {
                assert(digits.take(i - start)[j] == grown[j]);
            }
        }
        value = value * 10 + (byte - 48) as u64;
        if value > u32::MAX as u64 {
            proof {
                if all_digits(digits) {
                    lemma_digits_value_grows(digits, i - start + 1);
                }
            }
            return None;
        }
        i += 1;
    }
    assert(digits.take(i - start) =~= digits);
    Some(value as u32)
}

/// The directory of the world with the given name.
pub fn world_dir(name: &str) -> (path: String)
    ensures
        path@ == spec_world_dir(name@),
{
    let mut path = String::from_str("worlds/");
    path.append(name);
    path
}

/// The seed file of the world in the given directory.
pub fn seed_path(world_dir: &str) -> (path: String)
    ensures
        path@ == spec_seed_path(world_dir@),
{
    let mut path = String::from_str(world_dir);
    path.append("/seed");
    path
}

/// The chunk directory of the world in the given directory.
pub fn chunk_dir(world_dir: &str) -> (path: String)
    ensures
        path@ == spec_chunk_dir(world_dir@),
{
    let mut path = String::from_str(world_dir);
    path.append("/chunks");
    path
}

/// The file of the chunk at (x, z) in the given chunk directory.
pub fn chunk_path(chunk_dir: &str, x: i32, z: i32) -> (path: String)
    ensures
        path@ == spec_chunk_path(chunk_dir@, x as int, z as int),
{
    let mut path = String::from_str(chunk_dir);
    path.append("/");
    push_signed_decimal(&mut path, x);
    path.append("_");
    push_signed_decimal(&mut path, z);
    path
}

/// A run of digits stands for at least as much as any of its beginnings.
pub proof fn lemma_digits_value_grows(s: Seq<char>, n: int)
    requires
        all_digits(s),
        0 <= n <= s.len(),
    ensures
        digits_value(s.take(n)) <= digits_value(s),
    decreases s.len() - n,
{
    if n < s.len() {
        lemma_digits_value_grows(s, n + 1);
        assert(s.take(n + 1).drop_last() =~= s.take(n));
        assert(is_digit(s[n]));
        assert(s.take(n + 1).last() == s[n]);
    } else {
        assert(s.take(n) =~= s);
    }
}

/// The decimal form of a number is a run of digits that stands for the
/// number and begins with no sign.
pub proof fn lemma_decimal_digits(n: nat)
    ensures
        decimal(n).len() > 0,
        all_digits(decimal(n)),
        digits_value(decimal(n)) == n,
        decimal(n)[0] != '+',
    decreases n,
{
    if n < 10 {
        let s = decimal(n);
        assert(s.drop_last() =~= Seq::<char>::empty());
        assert(digits_value(s.drop_last()) == 0);
    } else {
        lemma_decimal_digits(n / 10);
        let head = decimal(n / 10);
        let s = decimal(n);
        assert(s.drop_last() =~= head);
        assert(s[0] == head[0]);
        assert forall|i: int| 0 <= i < s.len() implies is_digit(#[trigger] s[i]) by {
            if i < head.len() {
                assert(s[i] == head[i]);
            }
        }
    }
}

/// A seed that was written to its file is read back from it.
pub proof fn lemma_seed_round_trip(seed: u32)
    ensures
        spec_parse_seed(decimal(seed as nat)) == Some(seed),
{
    lemma_decimal_digits(seed as nat);
}

} // verus!
