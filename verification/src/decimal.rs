//! Decimal text of integers, as it appears in identifiers and labels.
use vstd::prelude::*;
use vstd::string::StringExecFns;

verus! {

/// The character that writes the digit `d`.
pub open spec fn digit_char(d: int) -> char {
    if d == 0 {
        '0'
    } else if d == 1 {
        '1'
    } else if d == 2 {
        '2'
    } else if d == 3 {
        '3'
    } else if d == 4 {
        '4'
    } else if d == 5 {
        '5'
    } else if d == 6 {
        '6'
    } else if d == 7 {
        '7'
    } else if d == 8 {
        '8'
    } else {
        '9'
    }
}

/// The decimal digits of a natural number, most significant first, without
/// leading zeros; zero is written "0".
pub open spec fn nat_text(n: nat) -> Seq<char>
    decreases n,
{
    if n < 10 {
        seq![digit_char(n as int)]
    } else {
        nat_text(n / 10).push(digit_char((n % 10) as int))
    }
}

/// The decimal text of an integer: a minus sign before the digits of a
/// negative number.
pub open spec fn int_text(v: int) -> Seq<char> {
    if v < 0 {
        seq!['-'] + nat_text((-v) as nat)
    } else {
        nat_text(v as nat)
    }
}

/// Decimal text never holds a NUL character.
pub proof fn lemma_nat_text_plain(n: nat)
    ensures
        nat_text(n).len() >= 1,
        forall|i: int| 0 <= i < nat_text(n).len() ==> nat_text(n)[i] != '\0',
    decreases n,
{
    if n >= 10 {
        lemma_nat_text_plain(n / 10);
    }
}

/// Decimal text of an integer never holds a NUL character.
pub proof fn lemma_int_text_plain(v: int)
    ensures
        int_text(v).len() >= 1,
        forall|i: int| 0 <= i < int_text(v).len() ==> int_text(v)[i] != '\0',
{
    if v < 0 {
        lemma_nat_text_plain((-v) as nat);
    } else {
        lemma_nat_text_plain(v as nat);
    }
}

/// Different digits are written with different characters.
pub proof fn lemma_digit_char_injective(c: int, d: int)
    requires
        0 <= c < 10,
        0 <= d < 10,
        digit_char(c) == digit_char(d),
    ensures
        c == d,
{
}

/// Different numbers are written differently.
pub proof fn lemma_nat_text_injective(a: nat, b: nat)
    requires
        nat_text(a) == nat_text(b),
    ensures
        a == b,
    decreases a,
{
    if a < 10 && b < 10 {
        assert(nat_text(a)[0] == digit_char(a as int));
        assert(nat_text(b)[0] == digit_char(b as int));
        lemma_digit_char_injective(a as int, b as int);
    } else if a >= 10 && b >= 10 {
        let x = nat_text(a / 10);
        let y = nat_text(b / 10);
        let da = digit_char((a % 10) as int);
        let db = digit_char((b % 10) as int);
        assert(nat_text(a) == x.push(da));
        assert(nat_text(b) == y.push(db));
        assert(x.push(da).drop_last() =~= x);
        assert(y.push(db).drop_last() =~= y);
        assert(x.push(da).last() == da);
        assert(y.push(db).last() == db);
        assert(x == y);
        assert(da == db);
        lemma_nat_text_injective(a / 10, b / 10);
        lemma_digit_char_injective((a % 10) as int, (b % 10) as int);
    } else if a < 10 {
        lemma_nat_text_plain(b / 10);
        assert(nat_text(a).len() == 1);
        assert(nat_text(b).len() == nat_text(b / 10).len() + 1);
    } else {
        lemma_nat_text_plain(a / 10);
        assert(nat_text(b).len() == 1);
        assert(nat_text(a).len() == nat_text(a / 10).len() + 1);
    }
}

fn digit_str(d: u64) -> (s: &'static str)
    requires
        d < 10,
    ensures
        s@ == seq![digit_char(d as int)],
{
    proof {
        reveal_strlit("0");
        reveal_strlit("1");
        reveal_strlit("2");
        reveal_strlit("3");
        reveal_strlit("4");
        reveal_strlit("5");
        reveal_strlit("6");
        reveal_strlit("7");
        reveal_strlit("8");
        reveal_strlit("9");
    }
    let s = if d == 0 {
        "0"
    } else if d == 1 {
        "1"
    } else if d == 2 {
        "2"
    } else if d == 3 {
        "3"
    } else if d == 4 {
        "4"
    } else if d == 5 {
        "5"
    } else if d == 6 {
        "6"
    } else if d == 7 {
        "7"
    } else if d == 8 {
        "8"
    } else {
        "9"
    };
    assert(s@ =~= seq![digit_char(d as int)]);
    s
}

/// Writes a natural number in decimal.
pub fn nat_to_string(n: u64) -> (s: String)
    ensures
        s@ == nat_text(n as nat),
    decreases n,
{
    if n < 10 {
        String::from_str(digit_str(n))
    } else {
        let mut s = nat_to_string(n / 10);
        let d = digit_str(n % 10);
        s.append(d);
        assert(s@ =~= nat_text(n as nat));
        s
    }
}

/// Writes a signed integer in decimal.
pub fn int_to_string(v: i32) -> (s: String)
    ensures
        s@ == int_text(v as int),
{
    if v < 0 {
        let m: u64 = (-(v as i64)) as u64;
        let mut s = String::from_str("-");
        let digits = nat_to_string(m);
        proof {
            reveal_strlit("-");
        }
        s.append(digits.as_str());
        assert(s@ =~= int_text(v as int));
        s
    } else {
        nat_to_string(v as u64)
    }
}

} // verus!
