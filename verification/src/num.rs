use vstd::prelude::*;
use vstd::arithmetic::div_mod::{
    lemma_div_is_strictly_smaller, lemma_fundamental_div_mod, lemma_mod_bound,
};

verus! {

broadcast use vstd::string::group_string_axioms;

/// The decimal digit character for `d`.
pub open spec fn digit_char(d: nat) -> char
    recommends
        d < 10,
{
    ((48 + d) as u8) as char
}

/// Whether `c` is a decimal digit character.
pub open spec fn is_digit(c: char) -> bool {
    48 <= c as int && c as int <= 57
}

/// The numeric value of a digit character.
pub open spec fn digit_val(c: char) -> nat
    recommends
        is_digit(c),
{
    (c as int - 48) as nat
}

/// The decimal representation of `n`, most significant digit first, with no
/// leading zeros (`0` is written as the single character `'0'`).
pub open spec fn dec_digits(n: nat) -> Seq<char>
    decreases n,
{
    if n < 10 {
        seq![digit_char(n)]
    } else {
        dec_digits(n / 10).push(digit_char(n % 10))
    }
}

pub open spec fn all_digits(s: Seq<char>) -> bool {
    forall|i: int| 0 <= i < s.len() ==> is_digit(#[trigger] s[i])
}

/// The value of a sequence of digit characters.
pub open spec fn dec_val(s: Seq<char>) -> nat
    decreases s.len(),
{
    if s.len() == 0 {
        0
    } else {
        dec_val(s.drop_last()) * 10 + digit_val(s.last())
    }
}

/// What a decimal parse of `s` yields: the value of the digits, or nothing if
/// `s` is empty or holds a non-digit.
pub open spec fn parse_dec(s: Seq<char>) -> Option<nat> {
    if s.len() > 0 && all_digits(s) {
        Some(dec_val(s))
    } else {
        None
    }
}

pub proof fn lemma_dec_digits_are_digits(n: nat)
    ensures
        all_digits(dec_digits(n)),
        dec_digits(n).len() >= 1,
    decreases n,
{
    if n < 10 {
    } else {
        lemma_mod_bound(n as int, 10);
        lemma_dec_digits_are_digits(n / 10);
    }
}

/// Parsing the decimal representation of `n` gives back `n`.
pub proof fn lemma_dec_digits_val(n: nat)
    ensures
        dec_val(dec_digits(n)) == n,
    decreases n,
{
    if n < 10 {
        let s = dec_digits(n);
        assert(s =~= seq![digit_char(n)]);
        assert(s.len() == 1);
        assert(s.last() == digit_char(n));
        assert(s.drop_last() =~= Seq::<char>::empty());
        lemma_digit_char_val(n);
        assert(dec_val(Seq::<char>::empty()) == 0);
        assert(dec_val(s) == dec_val(s.drop_last()) * 10 + digit_val(s.last()));
        assert(dec_val(s) == n);
    } else {
        lemma_div_is_strictly_smaller(n as int, 10);
        lemma_mod_bound(n as int, 10);
        lemma_dec_digits_val(n / 10);
        lemma_fundamental_div_mod(n as int, 10);
        let s = dec_digits(n);
        assert(s == dec_digits(n / 10).push(digit_char(n % 10)));
        assert(s.len() == dec_digits(n / 10).len() + 1);
        assert(s.drop_last() =~= dec_digits(n / 10));
        assert(s.last() == digit_char(n % 10));
        lemma_digit_char_val(n % 10);
        assert(digit_val(s.last()) == n % 10);
        assert(dec_val(s) == dec_val(s.drop_last()) * 10 + digit_val(s.last()));
        assert(dec_val(s) == (n / 10) * 10 + n % 10);
        assert(n == 10 * (n / 10) + n % 10);
    }
}

/// The digit character of `d` is a digit and is worth `d`.
pub proof fn lemma_digit_char_val(d: nat)
    requires
        d < 10,
    ensures
        is_digit(digit_char(d)),
        digit_val(digit_char(d)) == d,
{
    let b: u8 = (48 + d) as u8;
    assert(b as int == 48 + d);
    assert((b as char) as int == b as int);
}

pub proof fn lemma_parse_of_dec_digits(n: nat)
    ensures
        parse_dec(dec_digits(n)) == Some(n),
{
    lemma_dec_digits_are_digits(n);
    lemma_dec_digits_val(n);
}

/// A digit string is worth at least as much as any of its prefixes.
pub proof fn lemma_dec_val_prefix(s: Seq<char>, j: int)
    requires
        0 <= j <= s.len(),
        all_digits(s),
    ensures
        dec_val(s.subrange(0, j)) <= dec_val(s),
    decreases s.len() - j,
{
    if j == s.len() {
        assert(s.subrange(0, j) =~= s);
    } else {
        let t = s.subrange(0, j + 1);
        assert(t.drop_last() =~= s.subrange(0, j));
        assert(dec_val(s.subrange(0, j)) <= dec_val(t));
        lemma_dec_val_prefix(s, j + 1);
    }
}

/// The digits of `rev`, read back to front, as characters.
pub open spec fn rev_chars(bs: Seq<u8>) -> Seq<char>
    decreases bs.len(),
{
    if bs.len() == 0 {
        Seq::<char>::empty()
    } else {
        seq![bs.last() as char] + rev_chars(bs.drop_last())
    }
}

proof fn lemma_rev_chars_prepend(x: u8, s: Seq<u8>)
    ensures
        rev_chars(seq![x] + s) == rev_chars(s).push(x as char),
    decreases s.len(),
{
    if s.len() == 0 {
        assert(seq![x] + s =~= seq![x]);
        assert((seq![x]).drop_last() =~= Seq::<u8>::empty());
        assert(rev_chars(Seq::<u8>::empty()) == Seq::<char>::empty());
        assert(rev_chars(seq![x]) == seq![x as char] + Seq::<char>::empty());
        assert(rev_chars(seq![x] + s) =~= rev_chars(s).push(x as char));
    } else {
        let t = seq![x] + s;
        assert(t.last() == s.last());
        assert(t.drop_last() =~= seq![x] + s.drop_last());
        lemma_rev_chars_prepend(x, s.drop_last());
        assert(rev_chars(t) == seq![s.last() as char] + rev_chars(s.drop_last()).push(x as char));
        assert(rev_chars(s).push(x as char) =~= seq![s.last() as char] + rev_chars(
            s.drop_last(),
        ).push(x as char));
    }
}

/// Formats `n` in decimal as raw ASCII bytes, matching `dec_digits`.
pub fn dec_string_bytes(n: u64) -> (r: Vec<u8>)
    ensures
        r@.map_values(|b: u8| b as char) == dec_digits(n as nat),
        forall|i: int| 0 <= i < r@.len() ==> 48 <= #[trigger] r@[i] <= 57,
        r@.len() >= 1,
{
    if n == 0 {
        let mut out: Vec<u8> = Vec::new();
        out.push(48);
        proof {
            assert(dec_digits(0nat) =~= seq![digit_char(0)]);
            assert(out@.map_values(|b: u8| b as char) =~= seq![digit_char(0)]);
        }
        return out;
    }
    let mut rev: Vec<u8> = Vec::new();
    let mut m = n;
    proof {
        assert(rev_chars(Seq::<u8>::empty()) == Seq::<char>::empty());
        assert(dec_digits(n as nat) =~= dec_digits(n as nat) + Seq::<char>::empty());
    }
    while m > 0
        invariant
            m > 0 ==> dec_digits(n as nat) == dec_digits(m as nat) + rev_chars(rev@),
            m == 0 ==> rev@.len() > 0 && dec_digits(n as nat) == rev_chars(rev@),
            forall|i: int| 0 <= i < rev@.len() ==> 48 <= #[trigger] rev@[i] <= 57,
        decreases m,
    {
        let d: u64 = m % 10;
        let next: u64 = m / 10;
        proof {
            lemma_mod_bound(m as int, 10);
            if m >= 10 {
                lemma_div_is_strictly_smaller(m as int, 10);
            }
            lemma_fundamental_div_mod(m as int, 10);
        }
        let ghost old_rev = rev@;
        let b: u8 = 48 + (d as u8);
        rev.push(b);
        proof {
            assert(rev@ =~= old_rev.push(b));
            assert(rev@.drop_last() =~= old_rev);
            assert(rev@.last() == b);
            assert(rev_chars(rev@) == seq![b as char] + rev_chars(old_rev));
            if m < 10 {
                assert(dec_digits(m as nat) =~= seq![digit_char(m as nat)]);
                assert(digit_char(m as nat) == b as char);
                assert(dec_digits(n as nat) =~= rev_chars(rev@));
            } else {
                assert(dec_digits(m as nat) == dec_digits((m as nat) / 10).push(
                    digit_char((m as nat) % 10),
                ));
                assert((m as nat) / 10 == next as nat);
                assert(digit_char((m as nat) % 10) == b as char);
                assert(dec_digits((m as nat) / 10).push(b as char) + rev_chars(old_rev)
                    =~= dec_digits((m as nat) / 10) + (seq![b as char] + rev_chars(old_rev)));
            }
        }
        m = next;
    }
    let mut out: Vec<u8> = Vec::new();
    let mut i: usize = rev.len();
    while i > 0
        invariant
            i <= rev@.len(),
            out@.map_values(|b: u8| b as char) == rev_chars(
                rev@.subrange(i as int, rev@.len() as int),
            ),
            forall|k: int| 0 <= k < rev@.len() ==> 48 <= #[trigger] rev@[k] <= 57,
            forall|k: int| 0 <= k < out@.len() ==> 48 <= #[trigger] out@[k] <= 57,
            rev@.len() > 0,
            dec_digits(n as nat) == rev_chars(rev@),
            out@.len() == rev@.len() - i,
        decreases i,
    {
        proof {
            assert(rev@.subrange(i as int, rev@.len() as int).len() == rev@.len() - i);
        }
        i = i - 1;
        let b = rev[i];
        let ghost old_out = out@;
        out.push(b);
        proof {
            let len = rev@.len() as int;
            assert(rev@.subrange(i as int, len) =~= seq![b] + rev@.subrange(i as int + 1, len));
            lemma_rev_chars_prepend(b, rev@.subrange(i as int + 1, len));
            assert(out@.map_values(|x: u8| x as char) =~= old_out.map_values(
                |x: u8| x as char,
            ).push(b as char));
        }
    }
    proof {
        assert(rev@.subrange(0, rev@.len() as int) =~= rev@);
        assert(dec_digits(n as nat).len() == rev_chars(rev@).len());
    }
    out
}

/// Parses an unsigned decimal number, rejecting empty input, non-digit
/// characters, and values that do not fit in a `u64`.
pub fn parse_u64(s: &str) -> (r: Option<u64>)
    ensures
        match r {
            Some(v) => parse_dec(s@) == Some(v as nat),
            None => parse_dec(s@) is None || (parse_dec(s@) matches Some(m) && m > u64::MAX),
        },
{
    broadcast use vstd::utf8::is_ascii_chars_nat_bound;

    if !s.is_ascii() {
        proof {
            let i = choose|i: int|
                0 <= i < s@.len() && !('\0' <= #[trigger] s@[i] <= '\u{7f}');
            assert(!is_digit(s@[i]));
        }
        return None;
    }
    let b = s.as_bytes();
    let n = b.len();
    proof {
        assert(b@ =~= Seq::new(s@.len(), |i: int| s@.index(i) as u8));
    }
    if n == 0 {
        return None;
    }
    let mut acc: u64 = 0;
    let mut i: usize = 0;
    while i < n
        invariant
            0 <= i <= s@.len(),
            n == s@.len(),
            n == b@.len(),
            s@.len() > 0,
            vstd::utf8::is_ascii_chars(s@),
            b@ =~= Seq::new(s@.len(), |j: int| s@.index(j) as u8),
            all_digits(s@.subrange(0, i as int)),
            acc as nat == dec_val(s@.subrange(0, i as int)),
        decreases n - i,
    {
        let byte = b[i];
        proof {
            assert(s@[i as int] as nat <= 0x7f);
            assert(byte == s@[i as int] as u8);
        }
        if byte < 48 || byte > 57 {
            proof {
                assert(!is_digit(s@[i as int]));
            }
            return None;
        }
        let d: u64 = (byte - 48) as u64;
        let ghost prefix = s@.subrange(0, i as int);
        let ghost prefix1 = s@.subrange(0, i as int + 1);
        proof {
            assert(prefix1.drop_last() =~= prefix);
            assert(prefix1.last() == s@[i as int]);
            assert(is_digit(s@[i as int]));
            assert(digit_val(s@[i as int]) == d as nat);
        }
        let shifted = match acc.checked_mul(10) {
            Some(x) => x,
            None => {
                proof {
                    lemma_overflow_means_large(s@, i as int);
                }
                return None;
            },
        };
        let next = match shifted.checked_add(d) {
            Some(x) => x,
            None => {
                proof {
                    lemma_overflow_means_large(s@, i as int);
                }
                return None;
            },
        };
        acc = next;
        i = i + 1;
    }
    proof {
        assert(s@.subrange(0, s@.len() as int) =~= s@);
    }
    Some(acc)
}

/// If a prefix extended by one more digit is already worth more than
/// `u64::MAX`, the whole digit string is too.
proof fn lemma_overflow_means_large(s: Seq<char>, i: int)
    requires
        0 <= i < s.len(),
        all_digits(s.subrange(0, i)),
        is_digit(s[i]),
        dec_val(s.subrange(0, i)) * 10 + digit_val(s[i]) > u64::MAX,
    ensures
        parse_dec(s) is None || (parse_dec(s) matches Some(m) && m > u64::MAX),
{
    if s.len() > 0 && all_digits(s) {
        let p1 = s.subrange(0, i + 1);
        assert(p1.drop_last() =~= s.subrange(0, i));
        assert(p1.last() == s[i]);
        assert(dec_val(p1) > u64::MAX);
        lemma_dec_val_prefix(s, i + 1);
    }
}

} // verus!
