//! Identifiers as text.  Opaque identifiers are not valid map keys in the
//! wire format, so the persistence boundary carries them as canonical
//! decimal strings: this is the stringification/parse pair, proved to be a
//! bijection between identifiers and canonical digit strings.

use vstd::prelude::*;

verus! {

/// The digit character of one decimal digit.
pub open spec fn digit_char(d: int) -> char {
    if d == 0 {
        '0'
    } else if d == 1 {
        '1'
    } else if d == 2 {
        '2'
    } else if d == 3 {
        '3'
    } else if d == 4 {
        '4'
    } else if d == 5 {
        '5'
    } else if d == 6 {
        '6'
    } else if d == 7 {
        '7'
    } else if d == 8 {
        '8'
    } else {
        '9'
    }
}

/// Whether a character is a decimal digit.
pub open spec fn is_digit(c: char) -> bool {
    c == '0' || c == '1' || c == '2' || c == '3' || c == '4' || c == '5' || c == '6' || c == '7'
        || c == '8' || c == '9'
}

/// The value of a digit character.
pub open spec fn digit_val(c: char) -> int {
    if c == '0' {
        0
    } else if c == '1' {
        1
    } else if c == '2' {
        2
    } else if c == '3' {
        3
    } else if c == '4' {
        4
    } else if c == '5' {
        5
    } else if c == '6' {
        6
    } else if c == '7' {
        7
    } else if c == '8' {
        8
    } else {
        9
    }
}

/// The canonical decimal digits of a number, most significant first.
pub open spec fn dec_digits(n: nat) -> Seq<char>
    decreases n,
{
    if n < 10 {
        seq![digit_char(n as int)]
    } else {
        dec_digits(n / 10) + seq![digit_char((n % 10) as int)]
    }
}

/// A canonical decimal string: nonempty, digits only, and no leading zero.
pub open spec fn valid_dec(s: Seq<char>) -> bool {
    &&& s.len() >= 1
    &&& forall|i: int| 0 <= i < s.len() ==> is_digit(#[trigger] s[i])
    &&& s.len() > 1 ==> s[0] != '0'
}

/// The number a digit string denotes.
pub open spec fn dec_value(s: Seq<char>) -> int
    decreases s.len(),
{
    if s.len() == 0 {
        0
    } else {
        dec_value(s.drop_last()) * 10 + digit_val(s.last())
    }
}

/// Formatting yields a canonical decimal string, and parsing it gives the
/// number back.
pub proof fn lemma_dec_digits_value(n: nat)
    ensures
        valid_dec(dec_digits(n)),
        dec_value(dec_digits(n)) == n,
        n > 0 ==> dec_digits(n)[0] != '0',
        n < 10 <==> dec_digits(n).len() == 1,
    decreases n,
{
    if n < 10 {
        assert(dec_digits(n) =~= seq![digit_char(n as int)]);
        assert(dec_digits(n).drop_last() =~= Seq::<char>::empty());
        assert(digit_val(digit_char(n as int)) == n as int);
        assert(dec_value(dec_digits(n).drop_last()) == 0);
        assert(dec_value(dec_digits(n)) == dec_value(dec_digits(n).drop_last()) * 10 + digit_val(
            dec_digits(n).last(),
        ));
    } else {
        lemma_dec_digits_value(n / 10);
        let prefix = dec_digits(n / 10);
        let whole = dec_digits(n);
        assert(whole == prefix + seq![digit_char((n % 10) as int)]);
        assert(whole.drop_last() =~= prefix);
        assert(whole.last() == digit_char((n % 10) as int));
        assert(whole[0] == prefix[0]);
        assert(dec_value(whole) == dec_value(prefix) * 10 + digit_val(digit_char((n % 10) as int)));
        assert(digit_val(digit_char((n % 10) as int)) == (n % 10) as int);
        assert((n / 10) * 10 + n % 10 == n);
    }
}

/// Parsing a canonical decimal string and formatting the value reproduces
/// the string: the pair is a bijection.
pub proof fn lemma_dec_value_digits(s: Seq<char>)
    requires
        valid_dec(s),
    ensures
        dec_value(s) >= 0,
        s[0] != '0' || s.len() == 1,
        s.len() > 1 ==> dec_value(s) >= 10,
        dec_digits(dec_value(s) as nat) == s,
    decreases s.len(),
{
    if s.len() == 1 {
        assert(dec_value(s) == dec_value(s.drop_last()) * 10 + digit_val(s.last()));
        assert(s.drop_last().len() == 0);
        assert(dec_value(s) == digit_val(s[0]));
        assert(dec_digits(dec_value(s) as nat) =~= s);
    } else {
        let prefix = s.drop_last();
        assert(prefix[0] == s[0]);
        assert(forall|i: int| 0 <= i < prefix.len() ==> is_digit(#[trigger] prefix[i]));
        lemma_dec_value_digits(prefix);
        let pv = dec_value(prefix);
        let d = digit_val(s.last());
        assert(dec_value(s) == pv * 10 + d);
        // the prefix has no leading zero, so its value is at least one and
        // the whole value reaches a second digit
        if prefix.len() == 1 {
            assert(prefix[0] != '0');
            assert(pv >= 1);
        } else {
            assert(pv >= 10);
        }
        assert(dec_value(s) >= 10);
        assert((pv * 10 + d) / 10 == pv);
        assert((pv * 10 + d) % 10 == d);
        assert(dec_digits(dec_value(s) as nat) == dec_digits(pv as nat) + seq![digit_char(d)]);
        assert(digit_char(d) == s.last());
        assert(dec_digits(pv as nat) + seq![s.last()] =~= s);
    }
}

/// The reversed digit characters of a little-endian digit list.
pub open spec fn rev_digit_chars(ds: Seq<u8>) -> Seq<char> {
    Seq::new(ds.len(), |i: int| digit_char(ds[ds.len() - 1 - i] as int))
}

/// The digit character of a digit, as text.
fn digit_str(d: u8) -> (r: &'static str)
    requires
        d < 10,
    ensures
        r@ == seq![digit_char(d as int)],
{
    proof {
        reveal_strlit("0");
        reveal_strlit("1");
        reveal_strlit("2");
        reveal_strlit("3");
        reveal_strlit("4");
        reveal_strlit("5");
        reveal_strlit("6");
        reveal_strlit("7");
        reveal_strlit("8");
        reveal_strlit("9");
    }
    let r = match d {
        0 => "0",
        1 => "1",
        2 => "2",
        3 => "3",
        4 => "4",
        5 => "5",
        6 => "6",
        7 => "7",
        8 => "8",
        _ => "9",
    };
    proof {
        assert(r@ =~= seq![digit_char(d as int)]);
    }
    r
}

/// Formats an identifier as its canonical decimal string.
pub fn format_id(n: usize) -> (r: String)
    ensures
        r@ == dec_digits(n as nat),
{
    let mut digits: Vec<u8> = Vec::new();
    let mut m: usize = n;
    digits.push((m % 10) as u8);
    m = m / 10;
    proof {
        assert(rev_digit_chars(digits@) =~= seq![digit_char((n % 10) as int)]);
        if n >= 10 {
            assert(dec_digits(n as nat) == dec_digits((n as nat) / 10) + seq![
                digit_char(((n as nat) % 10) as int),
            ]);
            assert(dec_digits(n as nat) =~= dec_digits(m as nat) + rev_digit_chars(digits@));
        } else {
            assert(dec_digits(n as nat) =~= rev_digit_chars(digits@));
        }
    }
    while m > 0
        invariant
            digits@.len() >= 1,
            forall|i: int| 0 <= i < digits@.len() ==> #[trigger] digits@[i] < 10,
            m > 0 ==> dec_digits(n as nat) =~= dec_digits(m as nat) + rev_digit_chars(digits@),
            m == 0 ==> dec_digits(n as nat) =~= rev_digit_chars(digits@),
        decreases m,
    {
        let ghost digits0 = digits@;
        let ghost m0 = m as nat;
        digits.push((m % 10) as u8);
        m = m / 10;
        proof {
            assert(rev_digit_chars(digits@) =~= seq![digit_char((m0 % 10) as int)]
                + rev_digit_chars(digits0));
            if m > 0 {
                assert(dec_digits(m0) == dec_digits(m0 / 10) + seq![digit_char((m0 % 10) as int)]);
                assert(dec_digits(n as nat) =~= dec_digits(m as nat) + rev_digit_chars(digits@));
            } else {
                assert(m0 < 10);
                assert(dec_digits(m0) =~= seq![digit_char(m0 as int)]);
                assert(dec_digits(n as nat) =~= rev_digit_chars(digits@));
            }
        }
    }
    let mut s = String::new();
    let mut i: usize = digits.len();
    while i > 0
        invariant
            i <= digits@.len(),
            forall|k: int| 0 <= k < digits@.len() ==> #[trigger] digits@[k] < 10,
            dec_digits(n as nat) =~= rev_digit_chars(digits@),
            s@ =~= rev_digit_chars(digits@).take(digits@.len() - i as int),
        decreases i,
    {
        let d = digits[i - 1];
        s.append(digit_str(d));
        proof {
            let ds = digits@;
            let done = ds.len() - i as int;
            assert(rev_digit_chars(ds)[done] == digit_char(ds[i as int - 1] as int));
            assert(s@ =~= rev_digit_chars(ds).take(done + 1));
        }
        i -= 1;
    }
    proof {
        assert(rev_digit_chars(digits@).take(digits@.len() as int) =~= rev_digit_chars(digits@));
    }
    s
}

/// Parses a canonical decimal identifier string: the number it denotes, or
/// nothing exactly when the text is not canonical or the value does not fit.
pub fn parse_id(s: &str) -> (r: Option<usize>)
    ensures
        r is Some <==> valid_dec(s@) && dec_value(s@) <= usize::MAX,
        r is Some ==> r->0 as int == dec_value(s@),
{
    let len = s.unicode_len();
    if len == 0 {
        return None;
    }
    let first = s.get_char(0);
    if len > 1 && first == '0' {
        proof {
            assert(!valid_dec(s@));
        }
        return None;
    }
    let mut n: usize = 0;
    let mut i: usize = 0;
    while i < len
        invariant
            i <= len,
            len == s@.len(),
            forall|k: int| 0 <= k < i as int ==> is_digit(#[trigger] s@[k]),
            n as int == dec_value(s@.take(i as int)),
        decreases len - i,
    {
        let c = s.get_char(i);
        let d: usize = match c {
            '0' => 0,
            '1' => 1,
            '2' => 2,
            '3' => 3,
            '4' => 4,
            '5' => 5,
            '6' => 6,
            '7' => 7,
            '8' => 8,
            '9' => 9,
            _ => {
                proof {
                    assert(!is_digit(s@[i as int]));
                }
                return None;
            },
        };
        if n > (usize::MAX - d) / 10 {
            proof {
                // the prefix read so far is already too large, and appending
                // digits only grows the value
                lemma_dec_value_grows(s@, i as int + 1);
                assert(s@.take(i as int + 1).drop_last() =~= s@.take(i as int));
                assert(dec_value(s@.take(i as int + 1)) == n * 10 + d);
                assert(dec_value(s@) > usize::MAX);
            }
            return None;
        }
        n = n * 10 + d;
        proof {
            assert(s@.take(i as int + 1).drop_last() =~= s@.take(i as int));
            assert(s@.take(i as int + 1).last() == s@[i as int]);
            assert(digit_val(s@[i as int]) == d);
        }
        i += 1;
    }
    proof {
        assert(s@.take(len as int) =~= s@);
    }
    Some(n)
}

/// From any prefix on, the value a digit string denotes only grows as more
/// digits are appended: every character's digit value is nonnegative.
pub proof fn lemma_dec_value_grows(s: Seq<char>, i: int)
    requires
        0 <= i <= s.len(),
    ensures
        dec_value(s) >= dec_value(s.take(i)),
        dec_value(s.take(i)) >= 0,
    decreases s.len() - i,
{
    lemma_dec_value_nonneg(s.take(i));
    if i < s.len() {
        lemma_dec_value_grows(s, i + 1);
        assert(s.take(i + 1).drop_last() =~= s.take(i));
        assert(dec_value(s.take(i + 1)) == dec_value(s.take(i)) * 10 + digit_val(s[i]));
        assert(digit_val(s[i]) >= 0);
    } else {
        assert(s.take(i) =~= s);
    }
}

/// A digit string denotes a nonnegative number.
pub proof fn lemma_dec_value_nonneg(s: Seq<char>)
    ensures
        dec_value(s) >= 0,
    decreases s.len(),
{
    if s.len() > 0 {
        lemma_dec_value_nonneg(s.drop_last());
    }
}

} // verus!
