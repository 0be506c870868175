//! Decimal numerals: the canonical digit string of a number, the value
//! of a digit string, and the facts relating the two. The persistence
//! codec stores every number this way.

use vstd::prelude::*;

verus! {

/// Whether a character is a decimal digit.
pub open spec fn is_digit_char(c: char) -> bool {
    48 <= c as int <= 57
}

/// The numeric value of a digit character.
pub open spec fn digit_val(c: char) -> nat {
    (c as int - 48) as nat
}

/// The digit character for a value below ten.
pub open spec fn char_of_digit(d: nat) -> char
    recommends
        d < 10,
{
    (48 + d) as char
}

/// Every character of the sequence is a decimal digit.
pub open spec fn all_digits(s: Seq<char>) -> bool {
    forall|i: int| 0 <= i < s.len() ==> is_digit_char(s[i])
}

/// The canonical decimal numeral of a number: most significant digit
/// first, no leading zero except for the numeral of zero itself.
pub open spec fn dec_rep(n: nat) -> Seq<char>
    decreases n,
{
    if n < 10 {
        seq![char_of_digit(n)]
    } else {
        dec_rep(n / 10).push(char_of_digit(n % 10))
    }
}

/// The value of a digit string, most significant digit first.
pub open spec fn dec_val(s: Seq<char>) -> nat
    decreases s.len(),
{
    if s.len() == 0 {
        0
    } else {
        dec_val(s.drop_last()) * 10 + digit_val(s.last())
    }
}

/// A digit character round-trips through its value.
pub proof fn lemma_char_of_digit_val(d: nat)
    requires
        d < 10,
    ensures
        is_digit_char(char_of_digit(d)),
        digit_val(char_of_digit(d)) == d,
{
    assert(char_of_digit(d) as int == 48 + d);
}

/// The canonical numeral is nonempty, made of digits only, and free
/// of a leading zero unless it is the numeral of zero itself.
pub proof fn lemma_dec_rep_digits(n: nat)
    ensures
        dec_rep(n).len() >= 1,
        all_digits(dec_rep(n)),
        dec_rep(n).len() > 1 ==> dec_rep(n)[0] != '0',
    decreases n,
{
    if n < 10 {
        lemma_char_of_digit_val(n);
    } else {
        lemma_dec_rep_digits(n / 10);
        lemma_char_of_digit_val(n % 10);
        assert(dec_rep(n)[0] == dec_rep(n / 10)[0]);
        if n / 10 < 10 {
            lemma_char_of_digit_val(n / 10);
            assert(n / 10 >= 1);
            assert(char_of_digit(n / 10) as int == 48 + n / 10);
            assert('0' as int == 48);
        } else {
            lemma_dec_rep_digits(n / 10 / 10);
            assert(dec_rep(n / 10) == dec_rep(n / 10 / 10).push(char_of_digit((n / 10) % 10)));
            assert(dec_rep(n / 10).len() > 1);
        }
    }
}

/// A digit character is the digit of its own value.
pub proof fn lemma_digit_char_round_trip(c: char)
    requires
        is_digit_char(c),
    ensures
        char_of_digit(digit_val(c)) == c,
{
    vstd::utf8::char_u32_cast(c, c as u32);
    assert(48 + digit_val(c) == c as u32 as int);
}

/// A nonempty digit string is worth at least its leading digit.
proof fn lemma_dec_val_lower(u: Seq<char>)
    requires
        u.len() >= 1,
    ensures
        dec_val(u) >= digit_val(u[0]),
    decreases u.len(),
{
    if u.len() > 1 {
        lemma_dec_val_lower(u.drop_last());
    }
}

/// A digit string without a leading zero is the canonical numeral of
/// its own value.
pub proof fn lemma_rep_of_dec_val(w: Seq<char>)
    requires
        w.len() >= 1,
        all_digits(w),
        w.len() > 1 ==> w[0] != '0',
    ensures
        dec_rep(dec_val(w)) == w,
    decreases w.len(),
{
    if w.len() == 1 {
        assert(w.drop_last() =~= Seq::<char>::empty());
        assert(dec_val(Seq::<char>::empty()) == 0);
        assert(w.last() == w[0]);
        assert(dec_val(w) == digit_val(w[0]));
        lemma_digit_char_round_trip(w[0]);
        assert(dec_rep(dec_val(w)) =~= w);
    } else {
        let u = w.drop_last();
        let c = w.last();
        assert(u[0] == w[0]);
        assert(forall|m: int| 0 <= m < u.len() ==> is_digit_char(u[m]));
        assert(w[0] != '0');
        assert(digit_val(u[0]) >= 1) by {
            assert(u[0] as int != 48) by {
                assert('0' as int == 48);
            }
        }
        lemma_dec_val_lower(u);
        assert(dec_val(u) >= 1);
        assert(dec_val(w) == dec_val(u) * 10 + digit_val(c));
        assert(dec_val(w) >= 10);
        vstd::arithmetic::div_mod::lemma_fundamental_div_mod_converse(
            dec_val(w) as int,
            10,
            dec_val(u) as int,
            digit_val(c) as int,
        );
        lemma_rep_of_dec_val(u);
        lemma_digit_char_round_trip(c);
        assert(dec_rep(dec_val(w)) == dec_rep(dec_val(u)).push(char_of_digit(digit_val(c))));
        assert(u.push(c) =~= w);
    }
}

/// The value of the canonical numeral of `n` is `n`.
pub proof fn lemma_dec_val_of_rep(n: nat)
    ensures
        dec_val(dec_rep(n)) == n,
    decreases n,
{
    if n < 10 {
        lemma_char_of_digit_val(n);
        assert(dec_rep(n).drop_last() =~= Seq::<char>::empty());
        assert(dec_val(Seq::<char>::empty()) == 0);
        assert(dec_rep(n).last() == char_of_digit(n));
        assert(dec_val(dec_rep(n)) == 0 * 10 + digit_val(char_of_digit(n)));
    } else {
        lemma_dec_val_of_rep(n / 10);
        lemma_char_of_digit_val(n % 10);
        assert(dec_rep(n).drop_last() =~= dec_rep(n / 10));
        assert(dec_rep(n).last() == char_of_digit(n % 10));
        assert(dec_val(dec_rep(n)) == dec_val(dec_rep(n / 10)) * 10 + digit_val(char_of_digit(n % 10)));
        vstd::arithmetic::div_mod::lemma_fundamental_div_mod(n as int, 10);
    }
}

/// Appending one digit multiplies the value by ten and appends the digit.
pub proof fn lemma_dec_val_snoc(s: Seq<char>, c: char)
    ensures
        dec_val(s.push(c)) == dec_val(s) * 10 + digit_val(c),
{
    assert(s.push(c).drop_last() =~= s);
}

/// Whether a character is a decimal digit.
pub fn is_digit(c: char) -> (r: bool)
    ensures
        r == is_digit_char(c),
{
    let v: u32 = c as u32;
    48 <= v && v <= 57
}

/// The numeric value of a digit character.
pub fn digit_of_char(c: char) -> (r: u64)
    requires
        is_digit_char(c),
    ensures
        r as nat == digit_val(c),
{
    (c as u32 - 48) as u64
}

/// The digit character for a value below ten.
pub fn digit_to_char(d: u64) -> (r: char)
    requires
        d < 10,
    ensures
        r == char_of_digit(d as nat),
{
    (48 + d as u8) as char
}

/// Appends the canonical decimal numeral of `n` to `out`.
pub fn push_dec(out: &mut Vec<char>, n: u64)
    ensures
        final(out)@ == old(out)@ + dec_rep(n as nat),
    decreases n,
{
    if n < 10 {
        out.push(digit_to_char(n));
        assert(out@ =~= old(out)@ + dec_rep(n as nat));
    } else {
        push_dec(out, n / 10);
        out.push(digit_to_char(n % 10));
        assert(out@ =~= old(out)@ + dec_rep(n as nat));
    }
}

} // verus!
