//! Decimal text for the store's counters: rendering an `i32` as its decimal
//! string, and reading a stored string back as an `i32`, with anything
//! unparsable read as zero.

use vstd::prelude::*;
use vstd::string::StrSliceExecFns;
use vstd::string::StringExecFns;

verus! {

pub open spec fn is_digit(c: char) -> bool {
    c == '0' || c == '1' || c == '2' || c == '3' || c == '4' || c == '5' || c == '6' || c == '7'
        || c == '8' || c == '9'
}

/// Numeric value of one digit character; ten for anything else.
pub open spec fn digit_val(c: char) -> int {
    if c == '0' {
        0
    } else if c == '1' {
        1
    } else if c == '2' {
        2
    } else if c == '3' {
        3
    } else if c == '4' {
        4
    } else if c == '5' {
        5
    } else if c == '6' {
        6
    } else if c == '7' {
        7
    } else if c == '8' {
        8
    } else if c == '9' {
        9
    } else {
        10
    }
}

/// The digit character for a value below ten.
pub open spec fn digit_char(d: int) -> char {
    if d == 0 {
        '0'
    } else if d == 1 {
        '1'
    } else if d == 2 {
        '2'
    } else if d == 3 {
        '3'
    } else if d == 4 {
        '4'
    } else if d == 5 {
        '5'
    } else if d == 6 {
        '6'
    } else if d == 7 {
        '7'
    } else if d == 8 {
        '8'
    } else {
        '9'
    }
}

pub open spec fn all_digits(s: Seq<char>) -> bool {
    forall|i: int| 0 <= i < s.len() ==> is_digit(#[trigger] s[i])
}

/// Value of a run of digit characters, most significant first.
pub open spec fn digits_val(s: Seq<char>) -> int
    decreases s.len(),
{
    if s.len() == 0 {
        0
    } else {
        digits_val(s.drop_last()) * 10 + digit_val(s.last())
    }
}

/// The canonical digit string of a non-negative integer.
pub open spec fn nat_rep(n: int) -> Seq<char>
    decreases n,
{
    if n < 10 {
        seq![digit_char(n)]
    } else {
        nat_rep(n / 10).push(digit_char(n % 10))
    }
}

/// The canonical decimal string of an `i32`.
pub open spec fn i32_rep(n: i32) -> Seq<char> {
    if n < 0 {
        seq!['-'] + nat_rep(-(n as int))
    } else {
        nat_rep(n as int)
    }
}

/// The digits of a decimal string, the optional single leading sign dropped.
pub open spec fn dec_digits_part(s: Seq<char>) -> Seq<char> {
    if s.len() > 0 && (s[0] == '-' || s[0] == '+') {
        s.subrange(1, s.len() as int)
    } else {
        s
    }
}

/// An optional sign followed by one or more digit characters.
pub open spec fn dec_shape(s: Seq<char>) -> bool {
    dec_digits_part(s).len() > 0 && all_digits(dec_digits_part(s))
}

pub open spec fn dec_signed_val(s: Seq<char>) -> int {
    if s.len() > 0 && s[0] == '-' {
        -digits_val(dec_digits_part(s))
    } else {
        digits_val(dec_digits_part(s))
    }
}

/// What a stored string means as a counter: its decimal value when it is one
/// that fits an `i32`, and zero otherwise.
pub open spec fn parse_i32_spec(s: Seq<char>) -> i32 {
    if dec_shape(s) && i32::MIN <= dec_signed_val(s) <= i32::MAX {
        dec_signed_val(s) as i32
    } else {
        0
    }
}

proof fn lemma_digits_val_nonneg(s: Seq<char>)
    ensures
        digits_val(s) >= 0,
    decreases s.len(),
{
    if s.len() > 0 {
        lemma_digits_val_nonneg(s.drop_last());
    }
}

/// Appending more digits never shrinks the value.
proof fn lemma_digits_val_extend(s: Seq<char>, t: Seq<char>)
    ensures
        digits_val(s + t) >= digits_val(s),
    decreases t.len(),
{
    if t.len() == 0 {
        assert(s + t =~= s);
    } else {
        lemma_digits_val_extend(s, t.drop_last());
        assert((s + t).drop_last() =~= s + t.drop_last());
        lemma_digits_val_nonneg(s + t.drop_last());
        assert(digits_val(s + t) == digits_val(s + t.drop_last()) * 10 + digit_val((s + t).last()));
    }
}

fn is_digit_exec(c: char) -> (r: bool)
    ensures
        r == is_digit(c),
{
    c == '0' || c == '1' || c == '2' || c == '3' || c == '4' || c == '5' || c == '6' || c == '7'
        || c == '8' || c == '9'
}

fn digit_val_exec(c: char) -> (d: u64)
    requires
        is_digit(c),
    ensures
        d == digit_val(c),
        d <= 9,
{
    if c == '0' {
        0
    } else if c == '1' {
        1
    } else if c == '2' {
        2
    } else if c == '3' {
        3
    } else if c == '4' {
        4
    } else if c == '5' {
        5
    } else if c == '6' {
        6
    } else if c == '7' {
        7
    } else if c == '8' {
        8
    } else {
        9
    }
}

/// Reads a decimal string as the store's increment primitive does: the value
/// when the text is a decimal number that fits an `i32`, zero otherwise.
pub fn parse_i32(s: &str) -> (n: i32)
    ensures
        n == parse_i32_spec(s@),
{
    let len = s.unicode_len();
    if len == 0 {
        return 0;
    }
    let c0 = s.get_char(0);
    let neg = c0 == '-';
    let start: usize = if c0 == '-' || c0 == '+' {
        1
    } else {
        0
    };
    proof {
        assert(dec_digits_part(s@) =~= s@.subrange(start as int, len as int));
    }
    if start == len {
        return 0;
    }
    // Every character after the sign must be a digit.
    let mut i = start;
    while i < len
        invariant
            len == s@.len(),
            start <= i <= len,
            dec_digits_part(s@) =~= s@.subrange(start as int, len as int),
            forall|j: int| start <= j < i ==> is_digit(#[trigger] s@[j]),
        decreases len - i,
    {
        let c = s.get_char(i);
        if !is_digit_exec(c) {
            proof {
                assert(dec_digits_part(s@)[i - start] == s@[i as int]);
                assert(!dec_shape(s@));
            }
            return 0;
        }
        i += 1;
    }
    proof {
        assert(forall|j: int| 0 <= j < dec_digits_part(s@).len() ==> is_digit(
            #[trigger] dec_digits_part(s@)[j],
        ));
    }
    // Accumulate the magnitude, giving up once it cannot fit an `i32`.
    let mut mag: u64 = 0;
    let mut i = start;
    while i < len
        invariant
            len == s@.len(),
            start <= i <= len,
            dec_digits_part(s@) =~= s@.subrange(start as int, len as int),
            forall|j: int| start <= j < len ==> is_digit(#[trigger] s@[j]),
            mag == digits_val(s@.subrange(start as int, i as int)),
            mag <= 0x8000_0000,
        decreases len - i,
    {
        let c = s.get_char(i);
        let d = digit_val_exec(c);
        proof {
            assert(s@.subrange(start as int, i + 1).drop_last() =~= s@.subrange(
                start as int,
                i as int,
            ));
        }
        mag = mag * 10 + d;
        if mag > 0x8000_0000 {
            proof {
                let pre = s@.subrange(start as int, i + 1);
                let rest = s@.subrange(i + 1, len as int);
                assert(dec_digits_part(s@) =~= pre + rest);
                lemma_digits_val_extend(pre, rest);
            }
            return 0;
        }
        i += 1;
    }
    proof {
        assert(s@.subrange(start as int, len as int) =~= dec_digits_part(s@));
        assert(dec_shape(s@));
    }
    if neg {
        let m = mag as i64;
        (-m) as i32
    } else {
        if mag > 0x7fff_ffff {
            0
        } else {
            mag as i32
        }
    }
}

/// The sequence of digit characters named by `ds`, least significant first.
spec fn chars_of_rev(ds: Seq<u64>) -> Seq<char> {
    Seq::new(ds.len(), |i: int| digit_char(ds[ds.len() - 1 - i] as int))
}

fn digit_str(d: u64) -> (r: &'static str)
    requires
        d <= 9,
    ensures
        r@ == seq![digit_char(d as int)],
{
    if d == 0 {
        proof {
            reveal_strlit("0");
            assert("0"@ =~= seq![digit_char(0int)]);
        }
        "0"
    } else if d == 1 {
        proof {
            reveal_strlit("1");
            assert("1"@ =~= seq![digit_char(1int)]);
        }
        "1"
    } else if d == 2 {
        proof {
            reveal_strlit("2");
            assert("2"@ =~= seq![digit_char(2int)]);
        }
        "2"
    } else if d == 3 {
        proof {
            reveal_strlit("3");
            assert("3"@ =~= seq![digit_char(3int)]);
        }
        "3"
    } else if d == 4 {
        proof {
            reveal_strlit("4");
            assert("4"@ =~= seq![digit_char(4int)]);
        }
        "4"
    } else if d == 5 {
        proof {
            reveal_strlit("5");
            assert("5"@ =~= seq![digit_char(5int)]);
        }
        "5"
    } else if d == 6 {
        proof {
            reveal_strlit("6");
            assert("6"@ =~= seq![digit_char(6int)]);
        }
        "6"
    } else if d == 7 {
        proof {
            reveal_strlit("7");
            assert("7"@ =~= seq![digit_char(7int)]);
        }
        "7"
    } else if d == 8 {
        proof {
            reveal_strlit("8");
            assert("8"@ =~= seq![digit_char(8int)]);
        }
        "8"
    } else {
        proof {
            reveal_strlit("9");
            assert("9"@ =~= seq![digit_char(9int)]);
        }
        "9"
    }
}

/// Renders an `i32` as its canonical decimal string.
pub fn i32_to_string(n: i32) -> (r: String)
    ensures
        r@ == i32_rep(n),
{
    if n == 0 {
        proof {
            reveal_strlit("0");
            assert("0"@ =~= seq![digit_char(0int)]);
        }
        return "0".to_owned();
    }
    let neg = n < 0;
    let mut m: u64 = if n < 0 {
        (-(n as i64)) as u64
    } else {
        n as u64
    };
    let ghost m0 = m as int;
    let mut digits: Vec<u64> = Vec::new();
    while m > 0
        invariant
            m0 > 0,
            forall|j: int| 0 <= j < digits@.len() ==> #[trigger] digits@[j] <= 9,
            if m > 0 {
                nat_rep(m0) =~= nat_rep(m as int) + chars_of_rev(digits@)
            } else {
                nat_rep(m0) =~= chars_of_rev(digits@)
            },
        decreases m,
    {
        let ghost pre = digits@;
        let d = m % 10;
        digits.push(d);
        proof {
            assert(chars_of_rev(digits@) =~= seq![digit_char(d as int)] + chars_of_rev(pre));
        }
        m = m / 10;
        proof {
            if m > 0 {
                assert(nat_rep((10 * m + d) as int) == nat_rep(m as int).push(
                    digit_char(d as int),
                ));
                assert(nat_rep(m as int) + chars_of_rev(digits@) =~= (nat_rep(m as int).push(
                    digit_char(d as int),
                )) + chars_of_rev(pre));
            } else {
                assert(nat_rep(d as int) =~= seq![digit_char(d as int)]);
            }
        }
    }
    let mut r: String = if neg {
        proof {
            reveal_strlit("-");
            assert("-"@ =~= seq!['-']);
        }
        "-".to_owned()
    } else {
        proof {
            reveal_strlit("");
        }
        "".to_owned()
    };
    let ghost sign: Seq<char> = if neg {
        seq!['-']
    } else {
        Seq::empty()
    };
    let total = digits.len();
    let mut i = total;
    while i > 0
        invariant
            total == digits@.len(),
            0 <= i <= total,
            forall|j: int| 0 <= j < digits@.len() ==> #[trigger] digits@[j] <= 9,
            r@ =~= sign + chars_of_rev(digits@).subrange(0, total - i),
        decreases i,
    {
        i -= 1;
        let d = digits[i];
        let piece = digit_str(d);
        r.append(piece);
        proof {
            assert(chars_of_rev(digits@)[total - 1 - i] == digit_char(digits@[i as int] as int));
            assert(r@ =~= sign + chars_of_rev(digits@).subrange(0, total - i));
        }
    }
    proof {
        assert(chars_of_rev(digits@).subrange(0, total as int) =~= chars_of_rev(digits@));
        assert(r@ =~= sign + nat_rep(m0));
        if neg {
            assert(i32_rep(n) == seq!['-'] + nat_rep(-(n as int)));
            assert(m0 == -(n as int));
        } else {
            assert(m0 == n as int);
            assert(sign + nat_rep(m0) =~= nat_rep(n as int));
        }
    }
    r
}

proof fn lemma_nat_rep_digits(m: int)
    requires
        m >= 0,
    ensures
        all_digits(nat_rep(m)),
        nat_rep(m).len() > 0,
        digits_val(nat_rep(m)) == m,
        is_digit(nat_rep(m)[0]),
    decreases m,
{
    if m < 10 {
        let s = nat_rep(m);
        assert(s == seq![digit_char(m)]);
        assert(s.drop_last() =~= Seq::<char>::empty());
        assert(digits_val(Seq::<char>::empty()) == 0);
        assert(s.last() == digit_char(m));
        assert(digits_val(s) == digits_val(s.drop_last()) * 10 + digit_val(s.last()));
        assert(digits_val(s) == digit_val(digit_char(m)));
    } else {
        lemma_nat_rep_digits(m / 10);
        let s = nat_rep(m);
        assert(s == nat_rep(m / 10).push(digit_char(m % 10)));
        assert(s.drop_last() =~= nat_rep(m / 10));
        assert(digits_val(s) == (m / 10) * 10 + digit_val(digit_char(m % 10)));
        assert(is_digit(digit_char(m % 10)));
        assert(all_digits(s)) by {
            assert(forall|i: int| 0 <= i < s.len() - 1 ==> s[i] == nat_rep(m / 10)[i]);
        }
    }
}

/// Reading back a rendered counter gives the counter: the store's increment
/// primitive never loses the value it wrote.
pub proof fn lemma_parse_of_rep(n: i32)
    ensures
        parse_i32_spec(i32_rep(n)) == n,
{
    if n < 0 {
        let m = -(n as int);
        lemma_nat_rep_digits(m);
        let s = i32_rep(n);
        assert(s == seq!['-'] + nat_rep(m));
        assert(s[0] == '-');
        assert(dec_digits_part(s) =~= nat_rep(m));
        assert(dec_signed_val(s) == -m);
        assert(dec_shape(s));
    } else {
        let m = n as int;
        lemma_nat_rep_digits(m);
        let s = i32_rep(n);
        assert(s == nat_rep(m));
        assert(is_digit(s[0]));
        assert(s[0] != '-' && s[0] != '+');
        assert(dec_digits_part(s) =~= s);
        assert(dec_signed_val(s) == m);
        assert(dec_shape(s));
    }
}

} // verus!
