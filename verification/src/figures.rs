//! What the texts of numbers say: a number written is the number, to the places it is written
//! with.
use vstd::prelude::*;

use crate::json::number::{exactly, real_of, without_zeros};
use crate::json::read::{pow10, shifted};
use crate::json::Number;
use crate::text::{
    begins, digit, digits, ends, first_word, fraction, has_at, hex, hundredths, leading, lemma_leading_bound,
    lemma_trailing_bound, left, milli_fixed, nearest, padded, plain_decimal, right, rounded, size, spaces, stripped,
    tenths, three, trailing, trimmed, white_space, without_prefixes, without_suffix, zero_padded,
};

verus! {

/// The number that a row of figures stands for, the last figure being the units.
pub open spec fn read_off(s: Seq<char>) -> int
    decreases s.len(),
{
    if s.len() == 0 { 0 } else { 10 * read_off(s.drop_last()) + (s.last() as int - '0' as int) }
}

/// Whether every character is a figure from nought to nine.
pub open spec fn all_figures(s: Seq<char>) -> bool {
    forall|i: int| 0 <= i < s.len() ==> '0' <= #[trigger] s[i] <= '9'
}

proof fn lemma_figures_push(s: Seq<char>, c: char)
    requires
        all_figures(s),
        '0' <= c <= '9',
    ensures
        all_figures(s.push(c)),
        read_off(s.push(c)) == 10 * read_off(s) + (c as int - '0' as int),
{
    assert(s.push(c).drop_last() =~= s);
}

/// A whole number is written in figures that read as the number, with no nought in front of
/// any other.
pub proof fn a_number_is_written_in_figures(n: nat)
    ensures
        all_figures(digits(n)),
        digits(n).len() >= 1,
        read_off(digits(n)) == n,
        digits(n).len() > 1 ==> digits(n)[0] != '0',
    decreases n,
{
    reveal_with_fuel(read_off, 3);
    if n < 10 {
        assert(digits(n).drop_last() =~= Seq::empty());
    } else {
        a_number_is_written_in_figures(n / 10);
        let s = digits(n / 10);
        let c = digits(n).last();
        assert(digits(n) =~= s.push(c));
        lemma_figures_push(s, c);
        assert(digits(n)[0] == s[0]);
        if s.len() == 1 {
            assert(s.drop_last() =~= Seq::empty());
            assert(read_off(s) == s[0] as int - '0' as int);
        }
    }
}

/// A number to a fixed count of figures is that many figures, which read as the number where
/// they are enough for it.
pub proof fn a_fixed_count_of_figures_reads_as_the_number(n: nat, places: nat)
    ensures
        all_figures(padded(n, places)),
        padded(n, places).len() == places,
        n < pow10(places) ==> read_off(padded(n, places)) == n,
    decreases places,
{
    if places > 0 {
        let before = (places - 1) as nat;
        a_fixed_count_of_figures_reads_as_the_number(n / 10, before);
        let s = padded(n / 10, before);
        lemma_figures_push(s, padded(n, places).last());
        assert(padded(n, places) =~= s.push(padded(n, places).last()));
        assert(pow10(places) == 10 * pow10(before));
    }
}

/// Noughts in front fill a number to its width and change nothing of it; a number that is
/// longer is left as it is.
pub proof fn noughts_in_front_change_nothing(n: nat, width: nat)
    ensures
        ({
            let s = zero_padded(n, width);
            &&& all_figures(s)
            &&& read_off(s) == n
            &&& s.len() >= width
            &&& s.len() > width ==> s == digits(n)
        }),
{
    a_number_is_written_in_figures(n);
    let d = digits(n);
    if d.len() < width {
        lemma_noughts((width - d.len()) as nat, d);
    }
}

proof fn lemma_noughts(k: nat, d: Seq<char>)
    requires
        all_figures(d),
    ensures
        all_figures(Seq::new(k, |i: int| '0') + d),
        read_off(Seq::new(k, |i: int| '0') + d) == read_off(d),
    decreases d.len(), k,
{
    let z = Seq::new(k, |i: int| '0');
    if d.len() > 0 {
        lemma_noughts(k, d.drop_last());
        assert((z + d).drop_last() =~= z + d.drop_last());
    } else if k > 0 {
        let less = Seq::new((k - 1) as nat, |i: int| '0');
        lemma_noughts((k - 1) as nat, d);
        assert((z + d).drop_last() =~= less + d);
    }
}

/// A figure in base sixteen, in either case.
pub open spec fn sixteenth(c: char) -> int {
    if '0' <= c <= '9' {
        c as int - '0' as int
    } else if 'a' <= c <= 'f' {
        10 + (c as int - 'a' as int)
    } else {
        10 + (c as int - 'A' as int)
    }
}

/// What a row of figures in base sixteen stands for.
pub open spec fn read_off_hex(s: Seq<char>) -> int
    decreases s.len(),
{
    if s.len() == 0 { 0 } else { 16 * read_off_hex(s.drop_last()) + sixteenth(s.last()) }
}

/// How many values so many figures in base sixteen tell apart.
pub open spec fn sixteens(places: nat) -> nat
    decreases places,
{
    if places == 0 { 1 } else { 16 * sixteens((places - 1) as nat) }
}

/// A number in base sixteen is as many figures as it is given, in the case it is asked for, and
/// reads as the number where they are enough.
pub proof fn hex_reads_as_the_number(n: nat, places: nat, large: bool)
    ensures
        hex(n, places, large).len() == places,
        n < sixteens(places) ==> read_off_hex(hex(n, places, large)) == n,
        forall|i: int|
            0 <= i < places ==> {
                ||| '0' <= #[trigger] hex(n, places, large)[i] <= '9'
                ||| large && 'A' <= hex(n, places, large)[i] <= 'F'
                ||| !large && 'a' <= hex(n, places, large)[i] <= 'f'
            },
    decreases places,
{
    if places > 0 {
        let before = (places - 1) as nat;
        hex_reads_as_the_number(n / 16, before, large);
        let s = hex(n / 16, before, large);
        assert(hex(n, places, large).drop_last() =~= s);
        assert(sixteens(places) == 16 * sixteens(before));
        assert forall|i: int| 0 <= i < places implies {
            ||| '0' <= #[trigger] hex(n, places, large)[i] <= '9'
            ||| large && 'A' <= hex(n, places, large)[i] <= 'F'
            ||| !large && 'a' <= hex(n, places, large)[i] <= 'f'
        } by {
            if i < before {
                assert(hex(n, places, large)[i] == s[i]);
            }
        }
    }
}

/// Rounding goes to the nearest, no more than half a step away, and from halfway to the even
/// one.
pub proof fn rounding_is_to_the_nearest(a: nat, b: nat)
    requires
        b > 0,
    ensures
        -(b as int) <= 2 * (a - b * nearest(a, b)) <= b,
        2 * (a - b * nearest(a, b)) == b || 2 * (a - b * nearest(a, b)) == -(b as int) ==> nearest(a, b) % 2 == 0,
{
    let q = a / b;
    let r = a % b;
    assert(a == b * q + r && 0 <= r < b) by (nonlinear_arith)
        requires
            b > 0,
            q == a / b,
            r == a % b,
    ;
    assert(b * (q + 1) == b * q + b) by (nonlinear_arith);
    if 2 * r == b && q % 2 == 1 {
        assert((q + 1) % 2 == 0);
    }
}

/// A text with a sign: the sign for what is less than nothing, then what follows it.
pub open spec fn signed(negative: bool, body: Seq<char>) -> Seq<char> {
    if negative { seq!['-'] + body } else { body }
}

/// A number with so many decimals: figures, a point and just as many figures, which together
/// read as the number in units of the last place.
pub open spec fn to_places(s: Seq<char>, n: int, places: int) -> bool {
    exists|point: int| #[trigger] pointed(s, n, places, point)
}

/// The same, with the point where it stands.
pub open spec fn pointed(s: Seq<char>, n: int, places: int, point: int) -> bool {
    &&& 1 <= point
    &&& s.len() == point + 1 + places
    &&& s[point] == '.'
    &&& all_figures(s.subrange(0, point))
    &&& all_figures(s.subrange(point + 1, s.len() as int))
    &&& read_off(s.subrange(0, point) + s.subrange(point + 1, s.len() as int)) == n
}

proof fn lemma_joined_figures(a: Seq<char>, b: Seq<char>)
    requires
        all_figures(a),
        all_figures(b),
    ensures
        all_figures(a + b),
        read_off(a + b) == read_off(a) * pow10(b.len()) + read_off(b),
    decreases b.len(),
{
    if b.len() == 0 {
        assert(a + b =~= a);
        assert(read_off(a) * 1 == read_off(a));
    } else {
        let c = b.drop_last();
        lemma_joined_figures(a, c);
        assert((a + b).drop_last() =~= a + c);
        assert((a + b).last() == b.last());
        let x = read_off(a);
        let p = pow10(c.len()) as int;
        assert(pow10(b.len()) == 10 * p);
        assert(10 * (x * p) == x * (10 * p)) by (nonlinear_arith);
    }
}

proof fn lemma_to_places(a: Seq<char>, b: Seq<char>, n: int)
    requires
        all_figures(a),
        a.len() >= 1,
        all_figures(b),
        n == read_off(a) * pow10(b.len()) + read_off(b),
    ensures
        to_places(a + seq!['.'] + b, n, b.len() as int),
{
    let s = a + seq!['.'] + b;
    let point = a.len() as int;
    lemma_joined_figures(a, b);
    assert(s.subrange(0, point) =~= a);
    assert(s.subrange(point + 1, s.len() as int) =~= b);
    assert(pointed(s, n, b.len() as int, point));
}

proof fn lemma_powers()
    ensures
        pow10(0) == 1,
        pow10(1) == 10,
        pow10(2) == 100,
        pow10(3) == 1000,
        pow10(9) == 1_000_000_000,
{
    reveal_with_fuel(pow10, 10);
}

/// A number of thousandths written whole is the nearest whole number.
pub proof fn a_rounded_number_is_the_nearest(milli: int)
    ensures
        exists|n: nat|
            rounded(milli) == signed(milli < 0, #[trigger] digits(n)) && -1000 <= 2 * (size(milli) - 1000 * n)
                <= 1000,
{
    let n = nearest(size(milli), 1000);
    rounding_is_to_the_nearest(size(milli), 1000);
    assert(rounded(milli) == signed(milli < 0, digits(n)));
}

proof fn lemma_three(k: nat)
    requires
        k < 1000,
    ensures
        three(k).len() == 3,
        all_figures(three(k)),
        read_off(three(k)) == k,
{
    let b = three(k);
    let h = digit(((k / 100) % 10) as int);
    let t = digit(((k / 10) % 10) as int);
    let u = digit((k % 10) as int);
    let none: Seq<char> = Seq::empty();
    assert(b =~= none.push(h).push(t).push(u));
    lemma_figures_push(none, h);
    lemma_figures_push(none.push(h), t);
    lemma_figures_push(none.push(h).push(t), u);
}

/// A number of millionths written to the thousandth is the nearest thousandth, with three
/// decimals.
pub proof fn a_thousandth_is_three_decimals(micro: int)
    ensures
        exists|n: int, body: Seq<char>|
            milli_fixed(micro) == signed(micro < 0, body) && #[trigger] to_places(body, n, 3) && -1000 <= 2 * (
            size(micro) - 1000 * n) <= 1000,
{
    let n = nearest(size(micro), 1000);
    rounding_is_to_the_nearest(size(micro), 1000);
    a_number_is_written_in_figures(n / 1000);
    let b = three(n % 1000);
    lemma_three(n % 1000);
    lemma_powers();
    lemma_to_places(digits(n / 1000), b, n as int);
    let body = digits(n / 1000) + seq!['.'] + b;
    assert(milli_fixed(micro) == signed(micro < 0, body));
}

/// A number written to the tenth is the nearest tenth, with one decimal.
pub proof fn a_tenth_is_one_decimal(n: int, tenth: nat)
    requires
        tenth > 0,
    ensures
        exists|t: int, body: Seq<char>|
            tenths(n, tenth) == signed(n < 0, body) && #[trigger] to_places(body, t, 1) && -(tenth as int) <= 2 * (
            size(n) - tenth * t) <= tenth,
{
    let t = nearest(size(n), tenth);
    rounding_is_to_the_nearest(size(n), tenth);
    a_number_is_written_in_figures(t / 10);
    a_number_is_written_in_figures(t % 10);
    lemma_powers();
    assert(digits(t % 10).len() == 1);
    lemma_to_places(digits(t / 10), digits(t % 10), t as int);
    let body = digits(t / 10) + seq!['.'] + digits(t % 10);
    assert(tenths(n, tenth) == signed(n < 0, body));
}

/// A number of millionths written to the hundredth is the nearest hundredth, with two
/// decimals.
pub proof fn a_hundredth_is_two_decimals(micro: int)
    ensures
        exists|n: int, body: Seq<char>|
            hundredths(micro) == signed(micro < 0, body) && #[trigger] to_places(body, n, 2) && -10_000 <= 2 * (
            size(micro) - 10_000 * n) <= 10_000,
{
    let n = nearest(size(micro), 10_000);
    rounding_is_to_the_nearest(size(micro), 10_000);
    a_number_is_written_in_figures(n / 100);
    lemma_powers();
    a_fixed_count_of_figures_reads_as_the_number(n % 100, 2);
    lemma_to_places(digits(n / 100), padded(n % 100, 2), n as int);
    let body = digits(n / 100) + seq!['.'] + padded(n % 100, 2);
    reveal_strlit("-");
    reveal_strlit("");
    reveal_strlit(".");
    assert("."@ =~= seq!['.']);
    assert("-"@ =~= seq!['-']);
    assert(hundredths(micro) =~= signed(micro < 0, body));
}

/// The decimals of a number of thousand-millionths are those it has and no more: none where it
/// is whole, and otherwise a point and figures that end in no nought.
pub proof fn decimals_are_those_there_are(n: nat, places: nat)
    requires
        n < pow10(places),
    ensures
        n == 0 ==> fraction(n, places).len() == 0,
        n > 0 ==> {
            let s = fraction(n, places);
            let figures = s.subrange(1, s.len() as int);
            &&& 2 <= s.len() <= places + 1
            &&& s[0] == '.'
            &&& all_figures(figures)
            &&& s.last() != '0'
            &&& read_off(figures) * pow10((places + 1 - s.len()) as nat) == n
        },
    decreases places,
{
    if n > 0 {
        assert(places > 0) by {
            lemma_powers();
        }
        let before = (places - 1) as nat;
        assert(pow10(places) == 10 * pow10(before));
        if n % 10 == 0 {
            decimals_are_those_there_are(n / 10, before);
            let s = fraction(n / 10, before);
            assert(s == fraction(n, places));
            let x = read_off(s.subrange(1, s.len() as int));
            let k = (before + 1 - s.len()) as nat;
            assert(pow10((places + 1 - s.len()) as nat) == 10 * pow10(k));
            let p = pow10(k) as int;
            assert(x * (10 * p) == 10 * (x * p)) by (nonlinear_arith);
            assert(x * pow10((places + 1 - s.len()) as nat) == n);
        } else {
            a_fixed_count_of_figures_reads_as_the_number(n, places);
            let s = fraction(n, places);
            assert(s.subrange(1, s.len() as int) =~= padded(n, places));
            lemma_powers();
            assert(s.len() == places + 1);
            assert(s.last() == padded(n, places).last());
            assert(read_off(padded(n, places)) * 1 == n);
        }
    }
}

/// A number of thousand-millionths is its whole part and the decimals it has, with a sign for
/// what is less than nothing.
pub proof fn a_decimal_is_the_whole_and_the_rest(nano: int)
    ensures
        ({
            let whole = size(nano) / 1_000_000_000;
            let rest = (size(nano) % 1_000_000_000) as nat;
            &&& plain_decimal(nano) == signed(nano < 0, digits(whole) + fraction(rest, 9))
            &&& rest < pow10(9)
            &&& rest == 0 ==> plain_decimal(nano) == signed(nano < 0, digits(whole))
        }),
{
    lemma_powers();
    let whole = size(nano) / 1_000_000_000;
    assert(digits(whole) + Seq::empty() =~= digits(whole));
}

/// What is trimmed is what stands between the white space at either end: it begins and ends
/// with no white space, and everything cut off is white space.
pub proof fn trimming_cuts_only_white_space(s: Seq<char>)
    ensures
        exists|a: int, b: int|
            #![trigger s.subrange(a, b)]
            {
                &&& 0 <= a <= b <= s.len()
                &&& trimmed(s) == s.subrange(a, b)
                &&& forall|i: int| 0 <= i < a || b <= i < s.len() ==> white_space(#[trigger] s[i])
                &&& a < b ==> !white_space(s[a]) && !white_space(s[b - 1])
            },
{
    let test = |c: char| white_space(c);
    lemma_leading_bound(s, test);
    let a = leading(s, test) as int;
    let front = s.subrange(a, s.len() as int);
    lemma_trailing_bound(front, test);
    let b = s.len() - trailing(front, test);
    assert(trimmed(s) == stripped(s, test));
    assert(front.subrange(0, front.len() - trailing(front, test)) =~= s.subrange(a, b));
    assert forall|i: int| 0 <= i < a || b <= i < s.len() implies white_space(#[trigger] s[i]) by {
        if i < a {
            assert(test(s[i]));
        } else {
            assert(test(front[i - a]));
        }
    }
    if a < b {
        assert(front[0] == s[a]);
        assert(front[front.len() - trailing(front, test) - 1] == s[b - 1]);
    }
}

/// The first word is what stands between the white space in front and the next.
pub proof fn the_first_word_ends_at_white_space(s: Seq<char>)
    ensures
        exists|a: int, b: int|
            #![trigger s.subrange(a, b)]
            {
                &&& 0 <= a <= b <= s.len()
                &&& first_word(s) == s.subrange(a, b)
                &&& forall|i: int| 0 <= i < a ==> white_space(#[trigger] s[i])
                &&& forall|i: int| a <= i < b ==> !white_space(#[trigger] s[i])
                &&& a < s.len() ==> a < b
                &&& b < s.len() ==> white_space(s[b])
            },
{
    let test = |c: char| white_space(c);
    let word = |c: char| !white_space(c);
    lemma_leading_bound(s, test);
    let a = leading(s, test) as int;
    let rest = s.subrange(a, s.len() as int);
    lemma_leading_bound(rest, word);
    let b = a + leading(rest, word);
    assert(first_word(s) =~= s.subrange(a, b));
    assert forall|i: int| 0 <= i < a implies white_space(#[trigger] s[i]) by {
        assert(test(s[i]));
    }
    assert forall|i: int| a <= i < b implies !white_space(#[trigger] s[i]) by {
        assert(word(rest[i - a]));
    }
    if a < s.len() {
        assert(!test(s[a]));
        assert(rest[0] == s[a]);
        assert(word(rest[0]));
    }
    if b < s.len() {
        assert(rest[leading(rest, word) as int] == s[b]);
    }
}

/// Filling a text out to a width puts spaces on one side of it and keeps it whole; what is wide
/// enough is left as it is.
pub proof fn filling_out_keeps_the_text(s: Seq<char>, width: nat)
    ensures
        s.len() >= width ==> right(s, width) == s && left(s, width) == s,
        s.len() < width ==> {
            let gap = width - s.len();
            &&& right(s, width).len() == width && left(s, width).len() == width
            &&& right(s, width).subrange(gap, width as int) == s
            &&& left(s, width).subrange(0, s.len() as int) == s
            &&& forall|i: int| 0 <= i < gap ==> #[trigger] right(s, width)[i] == ' '
            &&& forall|i: int| s.len() <= i < width ==> #[trigger] left(s, width)[i] == ' '
        },
{
    if s.len() < width {
        let gap = width - s.len();
        assert(right(s, width).subrange(gap, width as int) =~= s);
        assert(left(s, width).subrange(0, s.len() as int) =~= s);
        assert(spaces(gap as nat).len() == gap);
    }
}

/// What is put in front of a text, or behind it, is found there and taken off again.
pub proof fn what_is_put_on_is_taken_off(s: Seq<char>, t: Seq<char>)
    ensures
        begins(t + s, t),
        ends(s + t, t),
        without_suffix(s + t, t) == s,
        t.len() > 0 ==> without_prefixes(t + s, t) == without_prefixes(s, t),
        t.len() > 0 && !begins(s, t) ==> without_prefixes(t + s, t) == s,
{
    assert((t + s).subrange(0, t.len() as int) =~= t);
    assert((s + t).subrange(s.len() as int, (s + t).len() as int) =~= t);
    assert(has_at(s + t, t, (s + t).len() - t.len()));
    assert((s + t).subrange(0, s.len() as int) =~= s);
    assert((t + s).subrange(t.len() as int, (t + s).len() as int) =~= s);
}

/// Moving a point to the left rounds to the nearest, no more than half a step away; to the
/// right it puts noughts behind.
pub proof fn moving_a_point_keeps_the_number(m: nat, shift: int)
    ensures
        shift >= 0 ==> shifted(m, shift) == m * pow10(shift as nat),
        shift < 0 ==> {
            let step = pow10((-shift) as nat) as int;
            -step < 2 * (m - shifted(m, shift) * step) <= step || -step <= 2 * (m - shifted(m, shift) * step) < step
        },
{
    if shift < 0 {
        let d = pow10((-shift) as nat) as int;
        lemma_power_positive((-shift) as nat);
        let q = shifted(m, shift) as int;
        assert(q == (2 * m + d) / (2 * d));
        assert(2 * d * q <= 2 * m + d < 2 * d * q + 2 * d) by (nonlinear_arith)
            requires
                d > 0,
                q == (2 * m + d) / (2 * d),
        ;
        assert(2 * d * q == 2 * (q * d)) by (nonlinear_arith);
    }
}

proof fn lemma_power_positive(k: nat)
    ensures
        pow10(k) > 0,
    decreases k,
{
    if k > 0 {
        lemma_power_positive((k - 1) as nat);
    }
}

/// Taking the noughts off the end of a number keeps its value and leaves none.
pub proof fn taking_noughts_off_keeps_the_value(m: nat, power: int)
    ensures
        ({
            let (figures, stands) = without_zeros(m, power);
            &&& stands >= power
            &&& m == figures * pow10((stands - power) as nat)
            &&& m > 0 ==> figures % 10 != 0
        }),
    decreases m,
{
    if m > 0 && m % 10 == 0 {
        taking_noughts_off_keeps_the_value(m / 10, power + 1);
        let (figures, stands) = without_zeros(m, power);
        let k = (stands - power - 1) as nat;
        assert(pow10((stands - power) as nat) == 10 * pow10(k));
        let p = pow10(k);
        assert(figures * (10 * p) == 10 * (figures * p)) by (nonlinear_arith);
    } else {
        lemma_powers();
        assert(m * 1 == m);
    }
}

/// A real number in a document keeps its value: in thousand-millionths where that is exact and
/// fits, and otherwise as its figures and where they stand.
pub proof fn a_real_number_keeps_its_value(negative: bool, m: nat, power: int)
    requires
        m <= u64::MAX,
        -1000 <= power <= 1000,
    ensures
        real_of(negative, m, power) matches Number::Real(n) ==> {
            &&& power >= -9 ==> n as int == (if negative { -(m * pow10((power + 9) as nat)) } else { m * pow10((power + 9) as nat) as int })
            &&& power < -9 ==> n * pow10((-9 - power) as nat) == (if negative { -(m as int) } else { m as int })
        },
        real_of(negative, m, power) matches Number::Fine(less, figures, stands) ==> {
            &&& less == negative
            &&& figures % 10 != 0
            &&& stands >= power
            &&& m == figures * pow10((stands - power) as nat)
        },
{
    taking_noughts_off_keeps_the_value(m, power);
    let (figures, stands) = without_zeros(m, power);
    lemma_fewer(figures, (stands - power) as nat, m);
    if m > 0 {
        lemma_figures_bound(figures, (stands - power) as nat, m);
    }
    if power + 9 < 0 {
        let d = pow10((-(power + 9)) as nat);
        lemma_power_positive((-(power + 9)) as nat);
        if m % d == 0 {
            let q = m / d;
            assert(q * d == m) by (nonlinear_arith)
                requires
                    d > 0,
                    m % d == 0,
                    q == m / d,
            ;
            assert(q <= m) by (nonlinear_arith)
                requires
                    q * d == m,
                    d > 0,
            ;
            assert((-(q as int)) * d == -(m as int)) by (nonlinear_arith)
                requires
                    q * d == m,
            ;
            assert(d == pow10((-9 - power) as nat));
            assert(exactly(m, power + 9) == Some(q));
            let n: int = if negative { -(q as int) } else { q as int };
            assert(real_of(negative, m, power) == Number::Real(n as i128));
            assert(n * pow10((-9 - power) as nat) == (if negative { -(m as int) } else { m as int }));
        }
        if m == 0 {
            assert(m % d == 0) by (nonlinear_arith)
                requires
                    m == 0,
                    d > 0,
            ;
        }
    } else if m == 0 {
        assert(0 * pow10((power + 9) as nat) == 0);
    }
}

proof fn lemma_fewer(figures: nat, k: nat, m: nat)
    requires
        m == figures * pow10(k),
    ensures
        figures <= m,
{
    lemma_power_positive(k);
    let p = pow10(k);
    assert(figures <= figures * p) by (nonlinear_arith)
        requires
            p >= 1,
    ;
}

proof fn lemma_figures_bound(figures: nat, k: nat, m: nat)
    requires
        m == figures * pow10(k),
        0 < m <= u64::MAX,
    ensures
        k < 20,
{
    if k >= 20 {
        lemma_power_grows(20, k);
        reveal_with_fuel(pow10, 21);
        assert(pow10(20) == 100_000_000_000_000_000_000);
        let p = pow10(k);
        assert(figures >= 1) by {
            if figures == 0 {
                assert(0 * p == 0);
            }
        }
        assert(figures * p >= p) by (nonlinear_arith)
            requires
                figures >= 1,
        ;
    }
}

proof fn lemma_power_grows(j: nat, k: nat)
    requires
        j <= k,
    ensures
        pow10(j) <= pow10(k),
    decreases k,
{
    if j < k {
        lemma_power_grows(j, (k - 1) as nat);
        lemma_power_positive((k - 1) as nat);
    }
}

/// A number is past a limit when its value is: above it when greater, below it when less, the
/// limit being in thousand-millionths.
pub proof fn limits_are_passed_by_value(n: Number, limit: int, lower: int)
    requires
        lower <= limit,
    ensures
        !(n.above(limit) && n.below(limit)),
        n.above(limit) ==> n.above(lower),
        n.below(lower) ==> n.below(limit),
        n matches Number::Unsigned(k) ==> (n.above(limit) <==> k * 1_000_000_000 > limit) && (n.below(limit) <==> k
            * 1_000_000_000 < limit),
        n matches Number::Negative(k) ==> (n.above(limit) <==> k * 1_000_000_000 > limit) && (n.below(limit) <==> k
            * 1_000_000_000 < limit),
        n matches Number::Real(k) ==> (n.above(limit) <==> k > limit) && (n.below(limit) <==> k < limit),
        n matches Number::Fine(negative, figures, power) ==> power >= -9 ==> {
            let value = (if negative { -(figures as int) } else { figures as int }) * pow10((power + 9) as nat);
            &&& n.above(limit) <==> value > limit
            &&& n.below(limit) <==> value < limit
        },
        n matches Number::Fine(negative, figures, power) ==> power < -9 ==> {
            let value = if negative { -(figures as int) } else { figures as int };
            &&& n.above(limit) <==> value > limit * pow10((-9 - power) as nat)
            &&& n.below(limit) <==> value < limit * pow10((-9 - power) as nat)
        },
{
    match n {
        Number::Fine(negative, figures, power) => {
            let value: int = if negative { -(figures as int) } else { figures as int };
            if power + 9 >= 0 {
                let p = pow10((power + 9) as nat) as int;
                assert((-value) * p == -(value * p)) by (nonlinear_arith);
            } else {
                let p = pow10((-(power + 9)) as nat) as int;
                assert((-limit) * p == -(limit * p)) by (nonlinear_arith);
                assert((-lower) * p == -(lower * p)) by (nonlinear_arith);
                assert(lower * p <= limit * p) by (nonlinear_arith)
                    requires
                        lower <= limit,
                        p >= 0,
                ;
                assert(p == pow10((-9 - power) as nat));
            }
        },
        _ => {},
    }
}

} // verus!
