//! The storage encoding of enchantments.
//!
//! Each enchantment is kept in one string, `"<name>,<level>"`: the name, one
//! comma, and the level in decimal. Decoding splits on the first comma and
//! reads the remainder as an integer, so a name containing a comma is not
//! representable; the encoding is fixed and must be preserved exactly for
//! compatibility with rows already on disk.

use vstd::prelude::*;
use crate::item::{Enchantment, EnchantModel};

verus! {

/// The decimal digit characters, by value.
pub open spec fn digit_char(d: int) -> char {
    if d == 0 {
        '0'
    } else if d == 1 {
        '1'
    } else if d == 2 {
        '2'
    } else if d == 3 {
        '3'
    } else if d == 4 {
        '4'
    } else if d == 5 {
        '5'
    } else if d == 6 {
        '6'
    } else if d == 7 {
        '7'
    } else if d == 8 {
        '8'
    } else {
        '9'
    }
}

/// Whether `c` is a decimal digit.
pub open spec fn is_digit(c: char) -> bool {
    exists|d: int| 0 <= d < 10 && c == digit_char(d)
}

/// The value of a digit character; meaningful only when `is_digit(c)`.
pub open spec fn digit_val(c: char) -> int {
    choose|d: int| 0 <= d < 10 && c == digit_char(d)
}

/// The decimal representation of a natural number, most significant digit
/// first, with no sign and no leading zero except for zero itself.
pub open spec fn dec_rep(n: nat) -> Seq<char>
    decreases n,
{
    if n < 10 {
        seq![digit_char(n as int)]
    } else {
        dec_rep(n / 10).push(digit_char((n % 10) as int))
    }
}

/// The decimal representation of an integer: a leading minus sign for
/// negative values, the digits of the magnitude otherwise.
pub open spec fn int_rep(n: int) -> Seq<char> {
    if n < 0 {
        seq!['-'] + dec_rep((-n) as nat)
    } else {
        dec_rep(n as nat)
    }
}

/// Whether every character of `s` is a decimal digit.
pub open spec fn all_digits(s: Seq<char>) -> bool {
    forall|i: int| 0 <= i < s.len() ==> is_digit(s[i])
}

/// The value of a digit string read in base ten.
pub open spec fn digits_val(s: Seq<char>) -> int
    decreases s.len(),
{
    if s.len() == 0 {
        0
    } else {
        digits_val(s.drop_last()) * 10 + digit_val(s.last())
    }
}

/// The integers that a level string may denote: an optional sign, then at
/// least one digit, with a value in the range of `i32`.
pub open spec fn spec_parse_i32(s: Seq<char>) -> Option<int> {
    let signed = s.len() >= 1 && (s[0] == '-' || s[0] == '+');
    let body = if signed {
        s.drop_first()
    } else {
        s
    };
    let value = if s.len() >= 1 && s[0] == '-' {
        -digits_val(body)
    } else {
        digits_val(body)
    };
    if body.len() >= 1 && all_digits(body) && i32::MIN <= value <= i32::MAX {
        Some(value)
    } else {
        None
    }
}

/// The stored form of one enchantment.
pub open spec fn spec_encode_enchant(e: EnchantModel) -> Seq<char> {
    e.name + seq![','] + int_rep(e.level as int)
}

/// The index of the first comma of `s`, if any.
pub open spec fn spec_find_comma(s: Seq<char>) -> Option<int>
    decreases s.len(),
{
    if s.len() == 0 {
        None
    } else if s[0] == ',' {
        Some(0)
    } else {
        match spec_find_comma(s.drop_first()) {
            Some(i) => Some(i + 1),
            None => None,
        }
    }
}

/// The enchantment that a stored string denotes: the name before the first
/// comma, the level read from everything after it. A string without a comma,
/// or whose remainder is not a level, denotes nothing.
pub open spec fn spec_decode_enchant(s: Seq<char>) -> Option<EnchantModel> {
    match spec_find_comma(s) {
        Some(i) => match spec_parse_i32(s.skip(i + 1)) {
            Some(v) => Some(EnchantModel { name: s.take(i), level: v as i32 }),
            None => None,
        },
        None => None,
    }
}

/// `spec_find_comma` finds a comma exactly when one is present, and always
/// the first one.
pub proof fn lemma_find_comma_characterization(s: Seq<char>)
    ensures
        spec_find_comma(s) matches Some(i) ==> 0 <= i < s.len() && s[i] == ','
            && (forall|j: int| 0 <= j < i ==> s[j] != ','),
        spec_find_comma(s) is None ==> forall|j: int| 0 <= j < s.len() ==> s[j] != ',',
    decreases s.len(),
{
    if s.len() > 0 && s[0] != ',' {
        let t = s.drop_first();
        lemma_find_comma_characterization(t);
        assert(forall|j: int| 0 <= j < t.len() ==> t[j] == s[j + 1]);
        if spec_find_comma(t) is Some {
            let i2 = spec_find_comma(t)->Some_0;
            assert forall|j: int| 0 <= j < i2 + 1 implies s[j] != ',' by {
                if j > 0 {
                    assert(s[j] == t[j - 1]);
                }
            }
        } else {
            assert forall|j: int| 0 <= j < s.len() implies s[j] != ',' by {
                if j > 0 {
                    assert(s[j] == t[j - 1]);
                }
            }
        }
    }
}

/// A comma at `i` with none before it pins `spec_find_comma` down to `i`.
pub proof fn lemma_find_comma_at(s: Seq<char>, i: int)
    requires
        0 <= i < s.len(),
        s[i] == ',',
        forall|j: int| 0 <= j < i ==> s[j] != ',',
    ensures
        spec_find_comma(s) == Some(i),
    decreases i,
{
    if i > 0 {
        lemma_find_comma_at(s.drop_first(), i - 1);
    }
}

/// Each digit character reads back to the value it was built from.
pub proof fn lemma_digit_val_of_char(d: int)
    requires
        0 <= d < 10,
    ensures
        is_digit(digit_char(d)),
        digit_val(digit_char(d)) == d,
{
    assert(is_digit(digit_char(d)));
    let d2 = digit_val(digit_char(d));
    assert(0 <= d2 < 10 && digit_char(d) == digit_char(d2));
    assert(d2 == d) by {
        if d2 != d {
            assert(digit_char(d) != digit_char(d2));
        }
    }
}

/// A digit string has a non-negative value.
pub proof fn lemma_digits_val_nonneg(s: Seq<char>)
    requires
        all_digits(s),
    ensures
        digits_val(s) >= 0,
    decreases s.len(),
{
    if s.len() > 0 {
        assert(all_digits(s.drop_last()));
        lemma_digits_val_nonneg(s.drop_last());
        assert(is_digit(s.last()));
        assert(digit_val(s.last()) >= 0);
    }
}

/// Every character of a decimal representation is a digit.
pub proof fn lemma_dec_rep_digits(n: nat)
    ensures
        dec_rep(n).len() >= 1,
        all_digits(dec_rep(n)),
    decreases n,
{
    if n >= 10 {
        lemma_dec_rep_digits(n / 10);
    }
}

/// Reading back the decimal representation of `n` yields `n`.
pub proof fn lemma_digits_val_dec_rep(n: nat)
    ensures
        digits_val(dec_rep(n)) == n,
    decreases n,
{
    if n < 10 {
        lemma_digit_val_of_char(n as int);
        assert(dec_rep(n).drop_last() =~= Seq::<char>::empty());
        assert(digits_val(Seq::<char>::empty()) == 0);
        assert(dec_rep(n).last() == digit_char(n as int));
    } else {
        lemma_digits_val_dec_rep(n / 10);
        lemma_digit_val_of_char((n % 10) as int);
        assert(dec_rep(n).drop_last() =~= dec_rep(n / 10));
        assert(dec_rep(n).last() == digit_char((n % 10) as int));
        assert(n / 10 * 10 + n % 10 == n) by (nonlinear_arith);
    }
}

/// No digit character is a comma, a minus sign or a plus sign.
pub proof fn lemma_digit_char_shape(c: char)
    requires
        is_digit(c),
    ensures
        c != ',' && c != '-' && c != '+',
{
}

/// Encoding and decoding are inverse on every enchantment whose name holds
/// no comma: the stored string reads back to the very same name and level.
pub proof fn lemma_enchant_round_trip(e: EnchantModel)
    requires
        forall|j: int| 0 <= j < e.name.len() ==> e.name[j] != ',',
    ensures
        spec_decode_enchant(spec_encode_enchant(e)) == Some(e),
{
    let s = spec_encode_enchant(e);
    let rep = int_rep(e.level as int);
    let i = e.name.len() as int;
    let mag: nat = if e.level < 0 { (-(e.level as int)) as nat } else { e.level as nat };
    lemma_dec_rep_digits(mag);
    assert forall|j: int| 0 <= j < i implies s[j] != ',' by {
        assert(s[j] == e.name[j]);
    }
    assert(s[i] == ',');
    lemma_find_comma_at(s, i);
    let body = s.skip(i + 1);
    assert(body =~= rep);
    assert(s.take(i) =~= e.name);
    lemma_parse_int_rep(e.level as int);
}

/// Parsing the decimal representation of an integer in `i32` range yields
/// that integer.
pub proof fn lemma_parse_int_rep(v: int)
    requires
        i32::MIN <= v <= i32::MAX,
    ensures
        spec_parse_i32(int_rep(v)) == Some(v),
{
    let s = int_rep(v);
    if v < 0 {
        let mag: nat = (-v) as nat;
        lemma_dec_rep_digits(mag);
        lemma_digits_val_dec_rep(mag);
        assert(s[0] == '-');
        assert(s.drop_first() =~= dec_rep(mag));
    } else {
        let mag: nat = v as nat;
        lemma_dec_rep_digits(mag);
        lemma_digits_val_dec_rep(mag);
        assert(s =~= dec_rep(mag));
        assert(is_digit(s[0]));
        lemma_digit_char_shape(s[0]);
    }
}

/// Appends one digit character.
fn push_digit(s: &mut String, d: u64)
    requires
        d < 10,
    ensures
        final(s)@ == old(s)@.push(digit_char(d as int)),
{
    if d == 0 {
        s.append("0");
        proof {
            reveal_strlit("0");
            assert(final(s)@ =~= old(s)@.push('0'));
        }
    } else if d == 1 {
        s.append("1");
        proof {
            reveal_strlit("1");
            assert(final(s)@ =~= old(s)@.push('1'));
        }
    } else if d == 2 {
        s.append("2");
        proof {
            reveal_strlit("2");
            assert(final(s)@ =~= old(s)@.push('2'));
        }
    } else if d == 3 {
        s.append("3");
        proof {
            reveal_strlit("3");
            assert(final(s)@ =~= old(s)@.push('3'));
        }
    } else if d == 4 {
        s.append("4");
        proof {
            reveal_strlit("4");
            assert(final(s)@ =~= old(s)@.push('4'));
        }
    } else if d == 5 {
        s.append("5");
        proof {
            reveal_strlit("5");
            assert(final(s)@ =~= old(s)@.push('5'));
        }
    } else if d == 6 {
        s.append("6");
        proof {
            reveal_strlit("6");
            assert(final(s)@ =~= old(s)@.push('6'));
        }
    } else if d == 7 {
        s.append("7");
        proof {
            reveal_strlit("7");
            assert(final(s)@ =~= old(s)@.push('7'));
        }
    } else if d == 8 {
        s.append("8");
        proof {
            reveal_strlit("8");
            assert(final(s)@ =~= old(s)@.push('8'));
        }
    } else {
        s.append("9");
        proof {
            reveal_strlit("9");
            assert(final(s)@ =~= old(s)@.push('9'));
        }
    }
}

/// Appends the decimal digits of `n`.
fn push_dec_digits(s: &mut String, n: u64)
    ensures
        final(s)@ == old(s)@ + dec_rep(n as nat),
    decreases n,
{
    if n < 10 {
        push_digit(s, n);
        proof {
            assert(old(s)@ + dec_rep(n as nat) =~= old(s)@.push(digit_char(n as int)));
        }
    } else {
        push_dec_digits(s, n / 10);
        push_digit(s, n % 10);
        proof {
            assert(old(s)@ + dec_rep(n as nat) =~= (old(s)@ + dec_rep(
                n as nat / 10,
            )).push(digit_char((n % 10) as int)));
        }
    }
}

/// Appends the decimal representation of `n`, sign included.
fn push_i32(s: &mut String, n: i32)
    ensures
        final(s)@ == old(s)@ + int_rep(n as int),
{
    if n < 0 {
        let mag: u64 = (-(n as i64)) as u64;
        s.append("-");
        push_dec_digits(s, mag);
        proof {
            reveal_strlit("-");
            assert(old(s)@ + int_rep(n as int) =~= old(s)@ + "-"@ + dec_rep(mag as nat));
        }
    } else {
        push_dec_digits(s, n as u64);
    }
}

/// Produces the stored form of `e`: its name, a comma and its level.
pub fn encode_enchantment(e: &Enchantment) -> (r: String)
    ensures
        r@ == spec_encode_enchant(e@),
{
    let mut s = e.name.clone();
    s.append(",");
    push_i32(&mut s, e.level);
    proof {
        reveal_strlit(",");
        assert(s@ =~= spec_encode_enchant(e@));
    }
    s
}

/// Reads a digit character back to its value.
fn digit_of_char(c: char) -> (r: Option<u64>)
    ensures
        r matches Some(d) ==> d < 10 && is_digit(c) && digit_val(c) == d as int,
        r is None ==> !is_digit(c),
{
    let r: Option<u64> = match c {
        '0' => Some(0),
        '1' => Some(1),
        '2' => Some(2),
        '3' => Some(3),
        '4' => Some(4),
        '5' => Some(5),
        '6' => Some(6),
        '7' => Some(7),
        '8' => Some(8),
        '9' => Some(9),
        _ => None,
    };
    proof {
        if r is Some {
            let d = r->Some_0 as int;
            assert(c == digit_char(d));
            assert(forall|d2: int|
                0 <= d2 < 10 && d2 != d ==> digit_char(d2) != digit_char(d));
        } else {
            assert forall|d: int| 0 <= d < 10 implies c != digit_char(d) by {
                assert(digit_char(d) != c);
            }
        }
    }
    r
}

/// Reads a level string: an optional sign and at least one digit, with a
/// value in `i32` range. Returns exactly what the string denotes, and
/// nothing for a malformed one.
#[verifier::loop_isolation(false)]
pub fn parse_i32(s: &str) -> (r: Option<i32>)
    ensures
        r matches Some(v) ==> spec_parse_i32(s@) == Some(v as int),
        r is None ==> spec_parse_i32(s@) is None,
{
    let n = s.unicode_len();
    let ghost whole = s@;
    let signed: bool = n >= 1 && (s.get_char(0) == '-' || s.get_char(0) == '+');
    let negative: bool = n >= 1 && s.get_char(0) == '-';
    let start: usize = if signed {
        1
    } else {
        0
    };
    let ghost body = if signed {
        whole.drop_first()
    } else {
        whole
    };
    if n == start {
        return None;
    }
    let mut acc: i64 = 0;
    let mut i: usize = start;
    proof {
        assert(body =~= whole.subrange(start as int, n as int));
    }
    while i < n
        invariant
            start <= i <= n,
            n == whole.len(),
            start <= 1,
            body == whole.subrange(start as int, n as int),
            all_digits(body.take(i - start)),
            0 <= acc <= 0x8000_0000,
            acc == digits_val(body.take(i - start)),
        decreases n - i,
    {
        let c = s.get_char(i);
        match digit_of_char(c) {
            Some(d) => {
                proof {
                    assert(body.take(i + 1 - start).drop_last() =~= body.take(i - start));
                    assert(body.take(i + 1 - start).last() == c);
                }
                acc = acc * 10 + d as i64;
                if acc > 0x8000_0000 {
                    proof {
                        if all_digits(body) {
                            lemma_digits_val_grows(body, i + 1 - start);
                        }
                    }
                    return None;
                }
            },
            None => {
                proof {
                    assert(!is_digit(body[i - start]));
                }
                return None;
            },
        }
        i = i + 1;
    }
    proof {
        assert(body.take(n - start) =~= body);
    }
    if negative {
        Some((-acc) as i32)
    } else {
        if acc > 0x7fff_ffff {
            None
        } else {
            Some(acc as i32)
        }
    }
}

/// A digit string is worth at least any of its prefixes.
proof fn lemma_digits_val_grows(s: Seq<char>, k: int)
    requires
        all_digits(s),
        0 <= k <= s.len(),
    ensures
        digits_val(s) >= digits_val(s.take(k)),
    decreases s.len() - k,
{
    lemma_digits_val_nonneg(s.take(k));
    if k < s.len() {
        assert(is_digit(s[k]));
        assert(s.take(k + 1).drop_last() =~= s.take(k));
        assert(digits_val(s.take(k + 1)) == digits_val(s.take(k)) * 10 + digit_val(s.take(k + 1).last()));
        lemma_digits_val_grows(s, k + 1);
    } else {
        assert(s.take(k) =~= s);
    }
}

/// Reads one stored enchantment string back to a name and a level, exactly
/// when the string is well formed.
pub fn decode_enchantment(s: &str) -> (r: Option<Enchantment>)
    ensures
        r matches Some(e) ==> spec_decode_enchant(s@) == Some(e@),
        r is None ==> spec_decode_enchant(s@) is None,
{
    let n = s.unicode_len();
    let mut i: usize = 0;
    while i < n
        invariant
            0 <= i <= n,
            n == s@.len(),
            forall|j: int| 0 <= j < i ==> s@[j] != ',',
        decreases n - i,
    {
        if s.get_char(i) == ',' {
            proof {
                lemma_find_comma_at(s@, i as int);
            }
            let name = s.substring_char(0, i);
            let rest = s.substring_char(i + 1, n);
            proof {
                assert(rest@ =~= s@.skip(i + 1));
            }
            match parse_i32(rest) {
                Some(v) => {
                    return Some(Enchantment { name: name.to_owned(), level: v });
                },
                None => {
                    return None;
                },
            }
        }
        i = i + 1;
    }
    proof {
        lemma_find_comma_characterization(s@);
        assert(spec_find_comma(s@) is None);
    }
    None
}

} // verus!
