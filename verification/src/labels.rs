//! Names of weekdays and months, and the decimal text of numbers, as the
//! screen shows them.
use vstd::prelude::*;

verus! {

/// Short weekday names, from Sunday.
pub const WEEKDAYS: [&'static str; 7] = ["Sun", "Mon", "Tue", "Wed", "Thu", "Fri", "Sat"];

/// Short month names, from January.
pub const MONTHS: [&'static str; 12] = [
    "Jan",
    "Feb",
    "Mar",
    "Apr",
    "May",
    "Jun",
    "Jul",
    "Aug",
    "Sep",
    "Oct",
    "Nov",
    "Dec",
];

/// Short name of weekday `w` (0 = Sunday).
pub open spec fn weekday_abbrev(w: int) -> Seq<char> {
    if w == 0 {
        "Sun"@
    } else if w == 1 {
        "Mon"@
    } else if w == 2 {
        "Tue"@
    } else if w == 3 {
        "Wed"@
    } else if w == 4 {
        "Thu"@
    } else if w == 5 {
        "Fri"@
    } else {
        "Sat"@
    }
}

/// Short name of month `m` (1 = January).
pub open spec fn month_abbrev(m: int) -> Seq<char> {
    if m == 1 {
        "Jan"@
    } else if m == 2 {
        "Feb"@
    } else if m == 3 {
        "Mar"@
    } else if m == 4 {
        "Apr"@
    } else if m == 5 {
        "May"@
    } else if m == 6 {
        "Jun"@
    } else if m == 7 {
        "Jul"@
    } else if m == 8 {
        "Aug"@
    } else if m == 9 {
        "Sep"@
    } else if m == 10 {
        "Oct"@
    } else if m == 11 {
        "Nov"@
    } else {
        "Dec"@
    }
}

/// Short name of weekday `w`, 0 being Sunday.
pub fn weekday_name(w: usize) -> (r: &'static str)
    requires
        w < 7,
    ensures
        r@ == weekday_abbrev(w as int),
        r@ == WEEKDAYS[w as int]@,
{
    WEEKDAYS[w]
}

/// Short name of month `m`, 1 being January.
pub fn month_name(m: u32) -> (r: &'static str)
    requires
        1 <= m <= 12,
    ensures
        r@ == month_abbrev(m as int),
        r@ == MONTHS[m - 1]@,
{
    MONTHS[(m - 1) as usize]
}

/// The decimal digit `d` as a character.
pub open spec fn digit_char(d: int) -> char {
    (48 + d) as char
}

/// Decimal text of `n`, without leading zeros.
pub open spec fn decimal(n: nat) -> Seq<char>
    decreases n,
{
    if n < 10 {
        seq![digit_char(n as int)]
    } else {
        decimal(n / 10).push(digit_char((n % 10) as int))
    }
}

/// Decimal text of `n`, with a minus sign in front when it is negative.
pub open spec fn signed_decimal(n: int) -> Seq<char> {
    if n < 0 {
        "-"@ + decimal((-n) as nat)
    } else {
        decimal(n as nat)
    }
}

fn digit_text(d: u64) -> (r: &'static str)
    requires
        d < 10,
    ensures
        r@ == seq![digit_char(d as int)],
{
    proof {
        reveal_strlit("0");
        reveal_strlit("1");
        reveal_strlit("2");
        reveal_strlit("3");
        reveal_strlit("4");
        reveal_strlit("5");
        reveal_strlit("6");
        reveal_strlit("7");
        reveal_strlit("8");
        reveal_strlit("9");
    }
    match d {
        0 => "0",
        1 => "1",
        2 => "2",
        3 => "3",
        4 => "4",
        5 => "5",
        6 => "6",
        7 => "7",
        8 => "8",
        _ => "9",
    }
}

/// Decimal text of `n`, as `format!("{}", n)` writes it.
pub fn decimal_text(n: u64) -> (r: String)
    ensures
        r@ == decimal(n as nat),
        digits_value(r@) == n,
    decreases n,
{
    proof {
        lemma_decimal_reads_back(n as nat);
    }
    if n < 10 {
        String::from_str(digit_text(n))
    } else {
        let mut s = decimal_text(n / 10);
        s.append(digit_text(n % 10));
        s
    }
}

/// Decimal text of a signed `n`, as `format!("{}", n)` writes it.
pub fn signed_decimal_text(n: i32) -> (r: String)
    ensures
        r@ == signed_decimal(n as int),
{
    if n < 0 {
        proof {
            reveal_strlit("-");
        }
        let mut s = String::from_str("-");
        let digits = decimal_text((-(n as i64)) as u64);
        s.append(digits.as_str());
        s
    } else {
        decimal_text(n as u64)
    }
}

/// `n` blanks.
pub open spec fn spaces(n: nat) -> Seq<char> {
    Seq::new(n, |i: int| ' ')
}

/// `t` centred in `width` cells, as `format!("{:^width$}", t)` writes it:
/// unchanged when it fills the width, else blanks on both sides, the odd one
/// on the right.
pub open spec fn centred_text(t: Seq<char>, width: int) -> Seq<char> {
    if t.len() >= width {
        t
    } else {
        let pad = width - t.len();
        spaces((pad / 2) as nat) + t + spaces((pad - pad / 2) as nat)
    }
}

fn append_spaces(s: &mut String, n: usize)
    ensures
        final(s)@ == old(s)@ + spaces(n as nat),
{
    let mut i: usize = 0;
    while i < n
        invariant
            i <= n,
            s@ == old(s)@ + spaces(i as nat),
        decreases n - i,
    {
        s.append(" ");
        proof {
            reveal_strlit(" ");
        }
        assert(s@ =~= old(s)@ + spaces((i + 1) as nat));
        i = i + 1;
    }
}

/// `text` centred in `width` cells.
pub fn centred(text: &str, width: usize) -> (r: String)
    ensures
        r@ == centred_text(text@, width as int),
{
    let len = text.unicode_len();
    if len >= width {
        String::from_str(text)
    } else {
        let pad = width - len;
        let mut s = String::new();
        append_spaces(&mut s, pad / 2);
        s.append(text);
        append_spaces(&mut s, pad - pad / 2);
        proof {
            assert(s@ =~= centred_text(text@, width as int));
        }
        s
    }
}

} // verus!

verus! {

/// The weekday names are the entries of `WEEKDAYS`, in its order from
/// Sunday.
pub proof fn lemma_weekday_names_are_the_table(w: int)
    requires
        0 <= w < 7,
    ensures
        weekday_abbrev(w) == WEEKDAYS[w]@,
{
}

/// The month names are the entries of `MONTHS`, in its order from January.
pub proof fn lemma_month_names_are_the_table(m: int)
    requires
        1 <= m <= 12,
    ensures
        month_abbrev(m) == MONTHS[m - 1]@,
{
}

/// Whether `c` is one of the decimal digits '0' to '9'.
pub open spec fn is_digit(c: char) -> bool {
    '0' <= c <= '9'
}

/// The number that the decimal digits `s` stand for, read from the left.
pub open spec fn digits_value(s: Seq<char>) -> int
    decreases s.len(),
{
    if s.len() == 0 {
        0
    } else {
        digits_value(s.drop_last()) * 10 + (s.last() as int - '0' as int)
    }
}

/// The decimal text of `n` reads back to `n`: it is made of digits only,
/// does not start with '0' unless `n` is 0, and its digits, weighted by
/// powers of ten from the right, add up to `n`.
pub proof fn lemma_decimal_reads_back(n: nat)
    ensures
        decimal(n).len() >= 1,
        forall|i: int| 0 <= i < decimal(n).len() ==> is_digit(#[trigger] decimal(n)[i]),
        n > 0 ==> decimal(n)[0] != '0',
        digits_value(decimal(n)) == n,
    decreases n,
{
    if n >= 10 {
        lemma_decimal_reads_back(n / 10);
        let s = decimal(n);
        let p = decimal(n / 10);
        assert(s == p.push(digit_char((n % 10) as int)));
        assert(s.drop_last() =~= p);
        assert(s[0] == p[0]);
        assert(s.last() as int == 48 + n % 10);
        assert(digits_value(s) == digits_value(p) * 10 + n % 10);
        assert((n / 10) * 10 + n % 10 == n);
    } else {
        assert(decimal(n).last() as int == 48 + n);
        assert(decimal(n).drop_last() =~= Seq::<char>::empty());
        assert(digits_value(Seq::<char>::empty()) == 0);
    }
}

/// The signed decimal text of `n` reads back to `n`: a minus sign exactly
/// when `n` is negative, followed by the decimal text of its magnitude.
pub proof fn lemma_signed_decimal_reads_back(n: int)
    ensures
        signed_decimal(n).len() >= 1,
        (signed_decimal(n)[0] == '-') <==> n < 0,
        n < 0 ==> digits_value(signed_decimal(n).drop_first()) == -n,
        n >= 0 ==> digits_value(signed_decimal(n)) == n,
{
    reveal_strlit("-");
    if n < 0 {
        lemma_decimal_reads_back((-n) as nat);
        assert(signed_decimal(n).drop_first() =~= decimal((-n) as nat));
    } else {
        lemma_decimal_reads_back(n as nat);
        assert(is_digit(decimal(n as nat)[0]));
    }
}

} // verus!
