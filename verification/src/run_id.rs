//! The names of runs: a 64-bit number written as 16 hexadecimal digits.

use vstd::prelude::*;
use vstd::string::*;
use vstd::arithmetic::power2::{lemma2_to64, lemma_pow2_adds, pow2};

verus! {

/// How many digits a run's name has.
pub const RUN_ID_DIGITS: usize = 16;

/// The digit for a value below 16, in lower case.
pub open spec fn hex_digit(value: int) -> char {
    if value == 0 {
        '0'
    } else if value == 1 {
        '1'
    } else if value == 2 {
        '2'
    } else if value == 3 {
        '3'
    } else if value == 4 {
        '4'
    } else if value == 5 {
        '5'
    } else if value == 6 {
        '6'
    } else if value == 7 {
        '7'
    } else if value == 8 {
        '8'
    } else if value == 9 {
        '9'
    } else if value == 10 {
        'a'
    } else if value == 11 {
        'b'
    } else if value == 12 {
        'c'
    } else if value == 13 {
        'd'
    } else if value == 14 {
        'e'
    } else {
        'f'
    }
}

/// The lowest `digits` hexadecimal digits of `word`, the highest first.
pub open spec fn hex_text(word: int, digits: nat) -> Seq<char>
    decreases digits,
{
    if digits == 0 {
        Seq::empty()
    } else {
        hex_text(word / 16, (digits - 1) as nat).push(hex_digit(word % 16))
    }
}

/// The name of the run whose number is `word`: 16 digits, lower case, with
/// leading zeros.
pub open spec fn run_id_text(word: u64) -> Seq<char> {
    hex_text(word as int, RUN_ID_DIGITS as nat)
}

/// A text of digits is as long as the number of digits asked for.
pub proof fn lemma_hex_text_len(word: int, digits: nat)
    ensures
        hex_text(word, digits).len() == digits,
    decreases digits,
{
    if digits > 0 {
        lemma_hex_text_len(word / 16, (digits - 1) as nat);
    }
}

/// Every character of a text of digits is a digit.
pub proof fn lemma_hex_text_digits(word: int, digits: nat, at: int)
    requires
        0 <= at < digits,
    ensures
        hex_text(word, digits).len() == digits,
        exists|value: int| 0 <= value < 16 && hex_text(word, digits)[at] == #[trigger] hex_digit(value),
    decreases digits,
{
    lemma_hex_text_len(word, digits);
    lemma_hex_text_len(word / 16, (digits - 1) as nat);
    if at == digits - 1 {
        assert(hex_text(word, digits)[at] == hex_digit(word % 16));
    } else {
        lemma_hex_text_digits(word / 16, (digits - 1) as nat, at);
        assert(hex_text(word, digits)[at] == hex_text(word / 16, (digits - 1) as nat)[at]);
    }
}

/// Two numbers that `digits` digits can hold, written alike, are the same.
pub proof fn lemma_hex_text_injective(a: int, b: int, digits: nat)
    requires
        0 <= a < pow2(4 * digits),
        0 <= b < pow2(4 * digits),
        hex_text(a, digits) == hex_text(b, digits),
    ensures
        a == b,
    decreases digits,
{
    lemma2_to64();
    if digits > 0 {
        let rest = (digits - 1) as nat;
        lemma_pow2_adds(4 * rest, 4);
        lemma_hex_text_len(a / 16, rest);
        lemma_hex_text_len(b / 16, rest);
        let ta = hex_text(a / 16, rest);
        let tb = hex_text(b / 16, rest);
        assert(ta.push(hex_digit(a % 16)) == tb.push(hex_digit(b % 16)));
        assert(ta =~= ta.push(hex_digit(a % 16)).drop_last());
        assert(tb =~= tb.push(hex_digit(b % 16)).drop_last());
        assert(hex_digit(a % 16) == ta.push(hex_digit(a % 16)).last());
        assert(hex_digit(b % 16) == tb.push(hex_digit(b % 16)).last());
        lemma_hex_text_injective(a / 16, b / 16, rest);
    }
}

/// The number of the run that `name` names, if it names one.
pub open spec fn key_of(name: Seq<char>) -> Option<u64> {
    if exists|word: u64| name == run_id_text(word) {
        Some(choose|word: u64| name == run_id_text(word))
    } else {
        None
    }
}

/// A run's name names that run.
pub proof fn lemma_key_of_run_id(word: u64)
    ensures
        key_of(run_id_text(word)) == Some(word),
{
    let chosen = choose|other: u64| run_id_text(word) == run_id_text(other);
    lemma_run_id_injective(word, chosen);
}

/// Runs with different numbers have different names.
pub proof fn lemma_run_id_injective(a: u64, b: u64)
    requires
        run_id_text(a) == run_id_text(b),
    ensures
        a == b,
{
    lemma2_to64();
    lemma_hex_text_injective(a as int, b as int, RUN_ID_DIGITS as nat);
}

fn digit_text(value: u64) -> (text: &'static str)
    requires
        value < 16,
    ensures
        text@ == seq![hex_digit(value as int)],
{
    let text = if value == 0 {
        "0"
    } else if value == 1 {
        "1"
    } else if value == 2 {
        "2"
    } else if value == 3 {
        "3"
    } else if value == 4 {
        "4"
    } else if value == 5 {
        "5"
    } else if value == 6 {
        "6"
    } else if value == 7 {
        "7"
    } else if value == 8 {
        "8"
    } else if value == 9 {
        "9"
    } else if value == 10 {
        "a"
    } else if value == 11 {
        "b"
    } else if value == 12 {
        "c"
    } else if value == 13 {
        "d"
    } else if value == 14 {
        "e"
    } else {
        "f"
    };
    proof {
        reveal_strlit("0");
        reveal_strlit("1");
        reveal_strlit("2");
        reveal_strlit("3");
        reveal_strlit("4");
        reveal_strlit("5");
        reveal_strlit("6");
        reveal_strlit("7");
        reveal_strlit("8");
        reveal_strlit("9");
        reveal_strlit("a");
        reveal_strlit("b");
        reveal_strlit("c");
        reveal_strlit("d");
        reveal_strlit("e");
        reveal_strlit("f");
        assert(text@.len() == 1);
        assert(text@[0] == hex_digit(value as int));
        assert(text@ =~= seq![hex_digit(value as int)]);
    }
    text
}

fn hex_string(word: u64, digits: usize) -> (text: String)
    ensures
        text@ == hex_text(word as int, digits as nat),
    decreases digits,
{
    if digits == 0 {
        String::new()
    } else {
        let mut text = hex_string(word / 16, digits - 1);
        text.append(digit_text(word % 16));
        assert(text@ =~= hex_text(word as int / 16, (digits - 1) as nat).push(
            hex_digit(word as int % 16),
        ));
        text
    }
}

/// Writes the name of the run whose number is `word`.
pub fn format_run_id(word: u64) -> (text: String)
    ensures
        text@ == run_id_text(word),
{
    hex_string(word, RUN_ID_DIGITS)
}

fn digit_value(c: char) -> (value: Option<u64>)
    ensures
        match value {
            Some(v) => v < 16 && hex_digit(v as int) == c,
            None => forall|v: int| 0 <= v < 16 ==> #[trigger] hex_digit(v) != c,
        },
{
    if c == '0' {
        Some(0)
    } else if c == '1' {
        Some(1)
    } else if c == '2' {
        Some(2)
    } else if c == '3' {
        Some(3)
    } else if c == '4' {
        Some(4)
    } else if c == '5' {
        Some(5)
    } else if c == '6' {
        Some(6)
    } else if c == '7' {
        Some(7)
    } else if c == '8' {
        Some(8)
    } else if c == '9' {
        Some(9)
    } else if c == 'a' {
        Some(10)
    } else if c == 'b' {
        Some(11)
    } else if c == 'c' {
        Some(12)
    } else if c == 'd' {
        Some(13)
    } else if c == 'e' {
        Some(14)
    } else if c == 'f' {
        Some(15)
    } else {
        None
    }
}

/// Reads a run's name: the number of the run, where the text is the name of
/// one, that is 16 hexadecimal digits in lower case.
pub fn parse_run_id(text: &str) -> (key: Option<u64>)
    ensures
        key == key_of(text@),
        match key {
            Some(word) => text@ == run_id_text(word),
            None => forall|word: u64| text@ != #[trigger] run_id_text(word),
        },
{
    if text.unicode_len() != RUN_ID_DIGITS {
        proof {
            assert forall|word: u64| text@ != #[trigger] run_id_text(word) by {
                lemma_hex_text_len(word as int, RUN_ID_DIGITS as nat);
            }
        }
        return None;
    }
    let mut value: u64 = 0;
    let mut i: usize = 0;
    proof {
        lemma2_to64();
        assert(text@.subrange(0, 0) =~= hex_text(0, 0));
    }
    while i < RUN_ID_DIGITS
        invariant
            i <= RUN_ID_DIGITS,
            text@.len() == RUN_ID_DIGITS,
            value < pow2((4 * i) as nat),
            text@.subrange(0, i as int) == hex_text(value as int, i as nat),
        decreases RUN_ID_DIGITS - i,
    {
        let c = text.get_char(i);
        proof {
            lemma2_to64();
            vstd::arithmetic::power2::lemma2_to64_rest();
            lemma_pow2_adds((4 * i) as nat, 4);
            if i < 15 {
                vstd::arithmetic::power2::lemma_pow2_strictly_increases((4 * i + 4) as nat, 64);
            }
        }
        match digit_value(c) {
            Some(digit) => {
                let ghost before = value;
                value = value * 16 + digit;
                assert(text@.subrange(0, i + 1) =~= text@.subrange(0, i as int).push(c));
                assert(value as int / 16 == before && value as int % 16 == digit);
            },
            None => {
                proof {
                    assert forall|word: u64| text@ != #[trigger] run_id_text(word) by {
                        lemma_hex_text_digits(word as int, RUN_ID_DIGITS as nat, i as int);
                    }
                }
                return None;
            },
        }
        i += 1;
    }
    assert(text@.subrange(0, RUN_ID_DIGITS as int) =~= text@);
    proof {
        lemma_key_of_run_id(value);
    }
    Some(value)
}

} // verus!
