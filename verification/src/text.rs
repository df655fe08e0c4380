//! Text and numbers in text, with their contents known exactly.
//!
//! Everything the station says to an operator is put together here: characters, decimal
//! numbers, joined lists. Each function states the characters it gives.
use vstd::prelude::*;

verus! {

/// Whether two texts are the same.
pub fn same(a: &str, b: &str) -> (r: bool)
    ensures
        r == (a@ == b@),
{
    a.to_owned() == b.to_owned()
}

/// Two pieces of text, one after the other.
pub fn cat(a: &str, b: &str) -> (r: String)
    ensures
        r@ == a@ + b@,
{
    let mut s = a.to_owned();
    s.append(b);
    s
}

/// Puts one character at the end of a text, by `String::push`: the text keeps what it had
/// and ends with the character.
#[verifier::external_body]
pub(crate) fn push_char(s: &mut String, c: char)
    ensures
        final(s)@ == old(s)@.push(c),
{
    s.push(c);
}

/// The characters of a text.
pub fn chars_of(s: &str) -> (r: Vec<char>)
    ensures
        r@ == s@,
{
    let mut out: Vec<char> = Vec::new();
    let n: usize = s.unicode_len();
    let mut i: usize = 0;
    while i < n
        invariant
            i <= n,
            n == s@.len(),
            out@ == s@.subrange(0, i as int),
        decreases n - i,
    {
        let c: char = s.get_char(i);
        out.push(c);
        proof {
            assert(s@.subrange(0, i + 1) =~= s@.subrange(0, i as int).push(s@[i as int]));
        }
        i += 1;
    }
    proof {
        assert(s@.subrange(0, n as int) =~= s@);
    }
    out
}

/// The text of a run of characters, from `from` up to `to`.
pub fn text_of(chars: &Vec<char>, from: usize, to: usize) -> (r: String)
    requires
        from <= to <= chars.len(),
    ensures
        r@ == chars@.subrange(from as int, to as int),
{
    let mut out = String::new();
    let mut i: usize = from;
    while i < to
        invariant
            from <= i <= to <= chars.len(),
            out@ == chars@.subrange(from as int, i as int),
        decreases to - i,
    {
        push_char(&mut out, chars[i]);
        proof {
            assert(chars@.subrange(from as int, i + 1) =~= chars@.subrange(from as int, i as int).push(chars@[i as int]));
        }
        i += 1;
    }
    out
}

/// The decimal digit for `d`.
pub open spec fn digit(d: int) -> char {
    if d == 0 { '0' } else if d == 1 { '1' } else if d == 2 { '2' } else if d == 3 { '3' }
    else if d == 4 { '4' } else if d == 5 { '5' } else if d == 6 { '6' } else if d == 7 { '7' }
    else if d == 8 { '8' } else { '9' }
}

/// A whole number in decimal, with no leading zeros.
pub open spec fn digits(n: nat) -> Seq<char>
    decreases n,
{
    if n < 10 {
        seq![digit(n as int)]
    } else {
        digits(n / 10).push(digit((n % 10) as int))
    }
}

/// A whole number in decimal, with a minus sign when it is below zero.
pub open spec fn signed_digits(n: int) -> Seq<char> {
    if n < 0 {
        seq!['-'] + digits((-n) as nat)
    } else {
        digits(n as nat)
    }
}

fn digit_char(d: u128) -> (c: char)
    requires
        d < 10,
    ensures
        c == digit(d as int),
{
    if d == 0 { '0' } else if d == 1 { '1' } else if d == 2 { '2' } else if d == 3 { '3' }
    else if d == 4 { '4' } else if d == 5 { '5' } else if d == 6 { '6' } else if d == 7 { '7' }
    else if d == 8 { '8' } else { '9' }
}

/// A whole number in decimal.
pub fn whole(n: u128) -> (r: String)
    ensures
        r@ == digits(n as nat),
    decreases n,
{
    let mut s = if n < 10 { String::new() } else { whole(n / 10) };
    push_char(&mut s, digit_char(n % 10));
    proof {
        if n < 10 {
            assert(s@ =~= seq![digit(n as int)]);
        }
    }
    s
}

/// A whole number in decimal, with its sign.
pub fn signed(n: i128) -> (r: String)
    ensures
        r@ == signed_digits(n as int),
{
    if n < 0 {
        let mut s = String::new();
        push_char(&mut s, '-');
        let d = whole(size_of(n));
        s.append(&d);
        proof {
            assert(s@ =~= seq!['-'] + digits((-n) as nat));
        }
        s
    } else {
        whole(n as u128)
    }
}

/// `a` divided by `b`, to the nearest whole number, an exact half going to the even one.
pub open spec fn nearest(a: nat, b: nat) -> nat
    recommends
        b > 0,
{
    let q = a / b;
    let r = a % b;
    if 2 * r < b || (2 * r == b && q % 2 == 0) { q } else { q + 1 }
}

/// `a` thousandths to the nearest whole number, an exact half going to the even one.
pub fn nearest_thousand(a: u128) -> (r: u128)
    ensures
        r as nat == nearest(a as nat, 1000),
{
    let q: u128 = a / 1000;
    let r: u128 = a % 1000;
    if 2 * r < 1000 || (2 * r == 1000 && q % 2 == 0) { q } else { q + 1 }
}

/// The size of a number, without its sign.
pub open spec fn size(n: int) -> nat {
    if n < 0 { (-n) as nat } else { n as nat }
}

/// Thousandths as whole units, rounded: 2812400 gives "2812".
pub open spec fn rounded(milli: int) -> Seq<char> {
    let n = nearest(size(milli), 1000);
    if milli < 0 { seq!['-'] + digits(n) } else { digits(n) }
}

fn size_of(n: i128) -> (r: u128)
    ensures
        r as nat == size(n as int),
{
    if n < 0 { (-(n + 1)) as u128 + 1 } else { n as u128 }
}

fn with_sign(negative: bool, magnitude: String) -> (r: String)
    ensures
        r@ == if negative { seq!['-'] + magnitude@ } else { magnitude@ },
{
    if negative {
        let mut s = String::new();
        push_char(&mut s, '-');
        s.append(&magnitude);
        proof {
            assert(s@ =~= seq!['-'] + magnitude@);
        }
        s
    } else {
        magnitude
    }
}

/// Thousandths as whole units, rounded.
pub fn round_text(milli: i128) -> (r: String)
    ensures
        r@ == rounded(milli as int),
{
    with_sign(milli < 0, whole(nearest_thousand(size_of(milli))))
}

/// Three digits, with zeros in front where they are needed.
pub open spec fn three(n: nat) -> Seq<char> {
    seq![digit(((n / 100) % 10) as int), digit(((n / 10) % 10) as int), digit((n % 10) as int)]
}

fn append_three(s: &mut String, n: u128)
    requires
        n < 1000,
    ensures
        final(s)@ == old(s)@ + three(n as nat),
{
    let ghost before = s@;
    push_char(s, digit_char((n / 100) % 10));
    push_char(s, digit_char((n / 10) % 10));
    push_char(s, digit_char(n % 10));
    proof {
        assert(s@ =~= before + three(n as nat));
    }
}

/// A thousandth of a thousandth as a number with three decimals: 7125000000 gives "7125.000".
pub open spec fn milli_fixed(micro: int) -> Seq<char> {
    let n = nearest(size(micro), 1000);
    let body = digits(n / 1000) + seq!['.'] + three(n % 1000);
    if micro < 0 { seq!['-'] + body } else { body }
}

/// A thousandth of a thousandth as a number with three decimals.
pub fn milli_fixed_text(micro: i128) -> (r: String)
    ensures
        r@ == milli_fixed(micro as int),
{
    let n: u128 = nearest_thousand(size_of(micro));
    let mut s = whole(n / 1000);
    s.append(".");
    proof {
        reveal_strlit(".");
        assert("."@ =~= seq!['.']);
    }
    append_three(&mut s, n % 1000);
    with_sign(micro < 0, s)
}

/// A number with one decimal, rounded, out of units of which `tenth` make a tenth.
pub open spec fn tenths(n: int, tenth: nat) -> Seq<char> {
    let t = nearest(size(n), tenth);
    let body = digits(t / 10) + seq!['.'] + digits(t % 10);
    if n < 0 { seq!['-'] + body } else { body }
}

/// A number with one decimal, rounded, out of units of which `tenth` make a tenth.
pub fn tenths_text(n: i128, tenth: u64) -> (r: String)
    requires
        tenth > 0,
    ensures
        r@ == tenths(n as int, tenth as nat),
{
    let a: u128 = size_of(n);
    let b: u128 = tenth as u128;
    let q: u128 = a / b;
    let rest: u128 = a % b;
    proof {
        assert(q <= a) by (nonlinear_arith)
            requires
                b >= 1,
                q == a / b,
        ;
    }
    let t: u128 = if 2 * rest < b || (2 * rest == b && q % 2 == 0) { q } else { q + 1 };
    let mut s = whole(t / 10);
    s.append(".");
    proof {
        reveal_strlit(".");
        assert("."@ =~= seq!['.']);
    }
    let last = whole(t % 10);
    s.append(&last);
    with_sign(n < 0, s)
}

/// Billionths as a number with no more decimals than it needs: 50000000 gives "0.05".
pub open spec fn plain_decimal(nano: int) -> Seq<char> {
    let n = size(nano);
    let body = digits(n / 1_000_000_000) + fraction(n % 1_000_000_000, 9);
    if nano < 0 { seq!['-'] + body } else { body }
}

/// The decimals of `n` out of `places` places, with the point, and nothing when `n` is zero.
pub open spec fn fraction(n: nat, places: nat) -> Seq<char>
    decreases places,
{
    if n == 0 || places == 0 {
        Seq::empty()
    } else if n % 10 == 0 {
        fraction(n / 10, (places - 1) as nat)
    } else {
        seq!['.'] + padded(n, places)
    }
}

/// A number in exactly `places` digits, zeros in front.
pub open spec fn padded(n: nat, places: nat) -> Seq<char>
    decreases places,
{
    if places == 0 {
        Seq::empty()
    } else {
        padded(n / 10, (places - 1) as nat).push(digit((n % 10) as int))
    }
}

fn padded_text(n: u128, places: u32) -> (r: String)
    ensures
        r@ == padded(n as nat, places as nat),
    decreases places,
{
    if places == 0 {
        String::new()
    } else {
        let mut s = padded_text(n / 10, places - 1);
        push_char(&mut s, digit_char(n % 10));
        s
    }
}

fn fraction_text(n: u128, places: u32) -> (r: String)
    ensures
        r@ == fraction(n as nat, places as nat),
    decreases places,
{
    if n == 0 || places == 0 {
        String::new()
    } else if n % 10 == 0 {
        fraction_text(n / 10, places - 1)
    } else {
        let mut s = String::new();
        push_char(&mut s, '.');
        let p = padded_text(n, places);
        s.append(&p);
        proof {
            assert(s@ =~= seq!['.'] + padded(n as nat, places as nat));
        }
        s
    }
}

/// Billionths as a number with no more decimals than it needs.
pub fn decimal_text(nano: i128) -> (r: String)
    ensures
        r@ == plain_decimal(nano as int),
{
    let n: u128 = size_of(nano);
    let mut s = whole(n / 1_000_000_000);
    let f = fraction_text(n % 1_000_000_000, 9);
    s.append(&f);
    with_sign(nano < 0, s)
}

/// The views of a list of texts.
pub open spec fn views(list: Seq<String>) -> Seq<Seq<char>> {
    list.map_values(|s: String| s@)
}

/// A list of texts with a separator between each two.
pub open spec fn joined(list: Seq<String>, separator: Seq<char>) -> Seq<char>
    decreases list.len(),
{
    if list.len() == 0 {
        Seq::empty()
    } else if list.len() == 1 {
        list[0]@
    } else {
        joined(list.drop_last(), separator) + separator + list.last()@
    }
}

/// A list of texts with a separator between each two.
pub fn join(list: &Vec<String>, separator: &str) -> (r: String)
    ensures
        r@ == joined(list@, separator@),
{
    let mut s = String::new();
    let mut i: usize = 0;
    proof {
        assert(s@ =~= joined(list@.subrange(0, 0), separator@));
    }
    while i < list.len()
        invariant
            i <= list.len(),
            s@ == joined(list@.subrange(0, i as int), separator@),
        decreases list.len() - i,
    {
        proof {
            let next = list@.subrange(0, i + 1);
            assert(next.drop_last() =~= list@.subrange(0, i as int));
            assert(next.last() == list@[i as int]);
            if i == 0 {
                assert(s@ =~= Seq::<char>::empty());
                assert(s@ + list@[0]@ =~= list@[0]@);
            }
        }
        if i > 0 {
            s.append(separator);
        }
        s.append(&list[i]);
        i += 1;
    }
    proof {
        assert(list@.subrange(0, list@.len() as int) =~= list@);
    }
    s
}

/// Whether a list holds a text.
pub open spec fn names(list: Seq<String>, text: Seq<char>) -> bool {
    exists|i: int| 0 <= i < list.len() && #[trigger] list[i]@ == text
}

/// Whether a list holds a text.
pub fn holds_text(list: &Vec<String>, text: &str) -> (r: bool)
    ensures
        r == names(list@, text@),
{
    let mut i: usize = 0;
    while i < list.len()
        invariant
            i <= list.len(),
            forall|j: int| 0 <= j < i ==> #[trigger] list@[j]@ != text@,
        decreases list.len() - i,
    {
        if same(&list[i], text) {
            return true;
        }
        i += 1;
    }
    false
}

/// Whether a character has Unicode's White_Space property.
pub open spec fn white_space(c: char) -> bool {
    ||| '\u{9}' <= c <= '\u{d}'
    ||| c == ' '
    ||| c == '\u{85}'
    ||| c == '\u{a0}'
    ||| c == '\u{1680}'
    ||| '\u{2000}' <= c <= '\u{200a}'
    ||| '\u{2028}' <= c <= '\u{2029}'
    ||| c == '\u{202f}'
    ||| c == '\u{205f}'
    ||| c == '\u{3000}'
}

/// Whether a character is white space, by `char::is_whitespace`: it says whether the character
/// has Unicode's White_Space property, which twenty-five code points have.
#[verifier::external_body]
pub(crate) fn is_white_space(c: char) -> (r: bool)
    ensures
        r == white_space(c),
{
    c.is_whitespace()
}

/// What `str::to_lowercase` makes of a text.
pub uninterp spec fn lowercase(s: Seq<char>) -> Seq<char>;

/// A text in lower case, by `str::to_lowercase`.
#[verifier::external_body]
pub(crate) fn to_lower(s: &str) -> (r: String)
    ensures
        r@ == lowercase(s@),
{
    s.to_lowercase()
}

/// What `str::to_uppercase` makes of a text.
pub uninterp spec fn uppercase(s: Seq<char>) -> Seq<char>;

/// A text in upper case, by `str::to_uppercase`.
#[verifier::external_body]
pub(crate) fn to_upper(s: &str) -> (r: String)
    ensures
        r@ == uppercase(s@),
{
    s.to_uppercase()
}

/// What `Debug` prints for a text: quoted, with what needs it escaped.
pub uninterp spec fn quoted(s: Seq<char>) -> Seq<char>;

/// A text in quotes, as its `Debug` prints it.
#[verifier::external_body]
pub(crate) fn quote(s: &str) -> (r: String)
    ensures
        r@ == quoted(s@),
{
    format!("{s:?}")
}

/// How many characters at the start of a text a test holds of.
pub open spec fn leading(s: Seq<char>, test: spec_fn(char) -> bool) -> nat
    decreases s.len(),
{
    if s.len() > 0 && test(s[0]) {
        1 + leading(s.drop_first(), test)
    } else {
        0
    }
}

/// How many characters at the end of a text a test holds of.
pub open spec fn trailing(s: Seq<char>, test: spec_fn(char) -> bool) -> nat
    decreases s.len(),
{
    if s.len() > 0 && test(s.last()) {
        1 + trailing(s.drop_last(), test)
    } else {
        0
    }
}

/// A text without the characters at either end that a test holds of.
pub open spec fn stripped(s: Seq<char>, test: spec_fn(char) -> bool) -> Seq<char> {
    let front = s.subrange(leading(s, test) as int, s.len() as int);
    front.subrange(0, front.len() - trailing(front, test))
}

/// A text without the white space at either end.
pub open spec fn trimmed(s: Seq<char>) -> Seq<char> {
    stripped(s, |c: char| white_space(c))
}

pub proof fn lemma_leading_bound(s: Seq<char>, test: spec_fn(char) -> bool)
    ensures
        leading(s, test) <= s.len(),
        forall|i: int| 0 <= i < leading(s, test) ==> test(#[trigger] s[i]),
        leading(s, test) < s.len() ==> !test(s[leading(s, test) as int]),
    decreases s.len(),
{
    if s.len() > 0 && test(s[0]) {
        let rest = s.drop_first();
        lemma_leading_bound(rest, test);
        assert forall|i: int| 0 <= i < leading(s, test) implies test(#[trigger] s[i]) by {
            if i > 0 {
                assert(s[i] == rest[i - 1]);
            }
        }
    }
}

pub proof fn lemma_trailing_bound(s: Seq<char>, test: spec_fn(char) -> bool)
    ensures
        trailing(s, test) <= s.len(),
        forall|i: int| s.len() - trailing(s, test) <= i < s.len() ==> test(#[trigger] s[i]),
        trailing(s, test) < s.len() ==> !test(s[s.len() - trailing(s, test) - 1]),
    decreases s.len(),
{
    if s.len() > 0 && test(s.last()) {
        let rest = s.drop_last();
        lemma_trailing_bound(rest, test);
        assert forall|i: int| s.len() - trailing(s, test) <= i < s.len() implies test(#[trigger] s[i]) by {
            if i < s.len() - 1 {
                assert(s[i] == rest[i]);
            }
        }
    }
}

/// The run of leading characters is the one run that the test holds of and that ends where
/// it stops holding.
pub proof fn lemma_leading_is(s: Seq<char>, test: spec_fn(char) -> bool, n: nat)
    requires
        n <= s.len(),
        forall|i: int| 0 <= i < n ==> test(#[trigger] s[i]),
        n < s.len() ==> !test(s[n as int]),
    ensures
        leading(s, test) == n,
{
    lemma_leading_bound(s, test);
    let m = leading(s, test);
    if m < n {
        assert(test(s[m as int]));
    }
    if n < m {
        assert(test(s[n as int]));
    }
}

/// The same of the trailing characters.
pub proof fn lemma_trailing_is(s: Seq<char>, test: spec_fn(char) -> bool, n: nat)
    requires
        n <= s.len(),
        forall|i: int| s.len() - n <= i < s.len() ==> test(#[trigger] s[i]),
        n < s.len() ==> !test(s[s.len() - n - 1]),
    ensures
        trailing(s, test) == n,
{
    lemma_trailing_bound(s, test);
    let m = trailing(s, test);
    if m < n {
        assert(test(s[s.len() - m - 1]));
    }
    if n < m {
        assert(test(s[s.len() - n - 1]));
    }
}

/// A text without the white space at either end.
pub fn trim(s: &str) -> (r: String)
    ensures
        r@ == trimmed(s@),
{
    let chars = chars_of(s);
    let ghost test = |c: char| white_space(c);
    let mut from: usize = 0;
    while from < chars.len() && is_white_space(chars[from])
        invariant
            from <= chars.len(),
            forall|i: int| 0 <= i < from ==> white_space(#[trigger] chars@[i]),
        decreases chars.len() - from,
    {
        from += 1;
    }
    let mut to: usize = chars.len();
    while from < to && is_white_space(chars[to - 1])
        invariant
            from <= to <= chars.len(),
            forall|i: int| to <= i < chars.len() ==> white_space(#[trigger] chars@[i]),
        decreases to,
    {
        to -= 1;
    }
    proof {
        assert forall|i: int| 0 <= i < from implies test(#[trigger] chars@[i]) by {}
        lemma_leading_is(chars@, test, from as nat);
        let front = chars@.subrange(from as int, chars@.len() as int);
        let n = (chars@.len() - to) as nat;
        assert forall|i: int| front.len() - n <= i < front.len() implies test(#[trigger] front[i]) by {
            assert(front[i] == chars@[from + i]);
        }
        lemma_trailing_is(front, test, n);
        assert(chars@.subrange(from as int, to as int) =~= front.subrange(0, front.len() - n));
    }
    text_of(&chars, from, to)
}

/// The value of a decimal digit.
pub open spec fn digit_value(c: char) -> Option<nat> {
    if '0' <= c <= '9' { Some(((c as int) - ('0' as int)) as nat) } else { None }
}

/// The number a run of decimal digits spells; none when there are none, or when something
/// else is among them.
pub open spec fn number_in(s: Seq<char>) -> Option<nat>
    decreases s.len(),
{
    if s.len() == 0 {
        None
    } else if s.len() == 1 {
        digit_value(s[0])
    } else {
        match (number_in(s.drop_last()), digit_value(s.last())) {
            (Some(n), Some(d)) => Some(n * 10 + d),
            _ => None,
        }
    }
}

/// The value of a decimal digit.
pub fn digit_of(c: char) -> (r: Option<u64>)
    ensures
        match r {
            Some(d) => digit_value(c) == Some(d as nat) && d < 10,
            None => digit_value(c) is None,
        },
{
    if c == '0' { Some(0) } else if c == '1' { Some(1) } else if c == '2' { Some(2) }
    else if c == '3' { Some(3) } else if c == '4' { Some(4) } else if c == '5' { Some(5) }
    else if c == '6' { Some(6) } else if c == '7' { Some(7) } else if c == '8' { Some(8) }
    else if c == '9' { Some(9) } else { None }
}

/// A longer run spells a number only when a shorter one does, and never a smaller one.
proof fn lemma_number_grows(s: Seq<char>, n: int)
    requires
        1 <= n <= s.len(),
    ensures
        number_in(s) is Some ==> number_in(s.subrange(0, n)) is Some
            && number_in(s.subrange(0, n))->0 <= number_in(s)->0,
    decreases s.len(),
{
    if n == s.len() {
        assert(s.subrange(0, n) =~= s);
    } else {
        lemma_number_grows(s.drop_last(), n);
        assert(s.drop_last().subrange(0, n) =~= s.subrange(0, n));
    }
}

/// The number a run of decimal digits spells, when it fits.
pub fn parse_digits(s: &Vec<char>) -> (r: Option<u64>)
    ensures
        r == match number_in(s@) {
            Some(n) => if n <= u64::MAX { Some(n as u64) } else { None },
            None => None::<u64>,
        },
{
    if s.len() == 0 {
        return None;
    }
    let mut value: u64 = 0;
    let mut i: usize = 0;
    while i < s.len()
        invariant
            i <= s.len(),
            i == 0 ==> value == 0,
            i > 0 ==> number_in(s@.subrange(0, i as int)) == Some(value as nat),
        decreases s.len() - i,
    {
        proof {
            let next = s@.subrange(0, i + 1);
            assert(next.drop_last() =~= s@.subrange(0, i as int));
            assert(next.last() == s@[i as int]);
            lemma_number_grows(s@, i + 1);
        }
        let d: u64 = match digit_of(s[i]) {
            Some(d) => d,
            None => return None,
        };
        let shifted: u64 = match value.checked_mul(10) {
            Some(v) => v,
            None => return None,
        };
        value = match shifted.checked_add(d) {
            Some(v) => v,
            None => return None,
        };
        i += 1;
    }
    proof {
        assert(s@.subrange(0, s@.len() as int) =~= s@);
    }
    Some(value)
}

/// The number a text spells in decimal, a plus sign in front allowed, when it fits.
pub open spec fn unsigned_in(s: Seq<char>) -> Option<u64> {
    let number = if s.len() > 0 && s[0] == '+' { s.drop_first() } else { s };
    match number_in(number) {
        Some(n) => if n <= u64::MAX { Some(n as u64) } else { None },
        None => None,
    }
}

/// The number a text spells in decimal, a plus sign in front allowed, when it fits.
pub fn parse_unsigned(s: &str) -> (r: Option<u64>)
    ensures
        r == unsigned_in(s@),
{
    let chars = chars_of(s);
    if chars.len() > 0 && chars[0] == '+' {
        let mut chars = chars;
        let first = chars.remove(0);
        proof {
            assert(chars@ =~= s@.drop_first());
        }
        parse_digits(&chars)
    } else {
        parse_digits(&chars)
    }
}

/// A letter of the ASCII alphabet in upper case; every other character as it is.
pub open spec fn ascii_upper(c: char) -> char {
    if 'a' <= c <= 'z' { ((c as u32) - 32) as char } else { c }
}

/// A letter of the ASCII alphabet in lower case; every other character as it is.
pub open spec fn ascii_lower(c: char) -> char {
    if 'A' <= c <= 'Z' { ((c as u32) + 32) as char } else { c }
}

fn upper_char(c: char) -> (r: char)
    ensures
        r == ascii_upper(c),
{
    if 'a' <= c && c <= 'z' { (c as u8 - 32) as char } else { c }
}

fn lower_char(c: char) -> (r: char)
    ensures
        r == ascii_lower(c),
{
    if 'A' <= c && c <= 'Z' { (c as u8 + 32) as char } else { c }
}

/// A text with every ASCII letter in upper case.
pub open spec fn ascii_uppercase(s: Seq<char>) -> Seq<char> {
    s.map_values(|c: char| ascii_upper(c))
}

/// A text with every ASCII letter in lower case.
pub open spec fn ascii_lowercase(s: Seq<char>) -> Seq<char> {
    s.map_values(|c: char| ascii_lower(c))
}

/// A text with every ASCII letter in upper case.
pub fn to_ascii_upper(s: &str) -> (r: String)
    ensures
        r@ == ascii_uppercase(s@),
{
    let chars = chars_of(s);
    let mut out = String::new();
    let mut i: usize = 0;
    while i < chars.len()
        invariant
            i <= chars.len(),
            chars@ == s@,
            out@ == ascii_uppercase(s@.subrange(0, i as int)),
        decreases chars.len() - i,
    {
        push_char(&mut out, upper_char(chars[i]));
        proof {
            assert(ascii_uppercase(s@.subrange(0, i + 1)) =~= ascii_uppercase(s@.subrange(0, i as int)).push(
                ascii_upper(s@[i as int]),
            ));
        }
        i += 1;
    }
    proof {
        assert(s@.subrange(0, i as int) =~= s@);
    }
    out
}

/// A text with every ASCII letter in lower case.
pub fn to_ascii_lower(s: &str) -> (r: String)
    ensures
        r@ == ascii_lowercase(s@),
{
    let chars = chars_of(s);
    let mut out = String::new();
    let mut i: usize = 0;
    while i < chars.len()
        invariant
            i <= chars.len(),
            chars@ == s@,
            out@ == ascii_lowercase(s@.subrange(0, i as int)),
        decreases chars.len() - i,
    {
        push_char(&mut out, lower_char(chars[i]));
        proof {
            assert(ascii_lowercase(s@.subrange(0, i + 1)) =~= ascii_lowercase(s@.subrange(0, i as int)).push(
                ascii_lower(s@[i as int]),
            ));
        }
        i += 1;
    }
    proof {
        assert(s@.subrange(0, i as int) =~= s@);
    }
    out
}

/// Whether a text has another at a place.
pub open spec fn has_at(s: Seq<char>, t: Seq<char>, at: int) -> bool {
    0 <= at && at + t.len() <= s.len() && s.subrange(at, at + t.len()) == t
}

/// Whether a run of characters has another at a place.
pub fn matches_at(s: &Vec<char>, t: &Vec<char>, at: usize) -> (r: bool)
    ensures
        r == has_at(s@, t@, at as int),
{
    if at > s.len() || t.len() > s.len() - at {
        return false;
    }
    let mut i: usize = 0;
    while i < t.len()
        invariant
            i <= t.len(),
            at + t.len() <= s.len(),
            forall|j: int| 0 <= j < i ==> s@[at + j] == t@[j],
        decreases t.len() - i,
    {
        if s[at + i] != t[i] {
            proof {
                assert(s@.subrange(at as int, at + t@.len())[i as int] != t@[i as int]);
            }
            return false;
        }
        i += 1;
    }
    proof {
        assert(s@.subrange(at as int, at + t@.len()) =~= t@);
    }
    true
}

/// The first place, from `from` on, where a text has another.
pub open spec fn first_at(s: Seq<char>, t: Seq<char>, from: int) -> Option<int>
    decreases s.len() - from + 1,
{
    if from > s.len() {
        None
    } else if has_at(s, t, from) {
        Some(from)
    } else {
        first_at(s, t, from + 1)
    }
}

/// The first place where a run of characters has another.
pub fn find_text(s: &Vec<char>, t: &Vec<char>) -> (r: Option<usize>)
    ensures
        match r {
            Some(i) => first_at(s@, t@, 0) == Some(i as int) && has_at(s@, t@, i as int),
            None => first_at(s@, t@, 0) is None,
        },
{
    let mut i: usize = 0;
    while i < s.len()
        invariant
            i <= s.len(),
            first_at(s@, t@, 0) == first_at(s@, t@, i as int),
        decreases s.len() - i,
    {
        if matches_at(s, t, i) {
            return Some(i);
        }
        i += 1;
    }
    if matches_at(s, t, i) {
        return Some(i);
    }
    proof {
        assert(first_at(s@, t@, i as int) == first_at(s@, t@, i + 1));
    }
    None
}

/// Whether a text begins with another.
pub open spec fn begins(s: Seq<char>, t: Seq<char>) -> bool {
    has_at(s, t, 0)
}

/// Whether a text begins with another.
pub fn starts_with(s: &str, t: &str) -> (r: bool)
    ensures
        r == begins(s@, t@),
{
    matches_at(&chars_of(s), &chars_of(t), 0)
}

/// Whether a text has another in it.
pub open spec fn contains(s: Seq<char>, t: Seq<char>) -> bool {
    first_at(s, t, 0) is Some
}

/// Whether a text has another in it.
pub fn contains_text(s: &str, t: &str) -> (r: bool)
    ensures
        r == contains(s@, t@),
{
    find_text(&chars_of(s), &chars_of(t)).is_some()
}

/// A text has another in it exactly when it has it at some place.
pub proof fn contains_is_having_it_somewhere(s: Seq<char>, t: Seq<char>)
    ensures
        contains(s, t) <==> exists|i: int| has_at(s, t, i),
{
    lemma_first_at(s, t, 0);
}

proof fn lemma_first_at(s: Seq<char>, t: Seq<char>, from: int)
    requires
        0 <= from,
    ensures
        first_at(s, t, from) is Some <==> exists|i: int| from <= i && has_at(s, t, i),
        first_at(s, t, from) is Some ==> has_at(s, t, first_at(s, t, from)->0) && first_at(s, t, from)->0 >= from,
    decreases s.len() - from + 1,
{
    if from <= s.len() && !has_at(s, t, from) {
        lemma_first_at(s, t, from + 1);
        if exists|i: int| from <= i && has_at(s, t, i) {
            let i = choose|i: int| from <= i && has_at(s, t, i);
            assert(from + 1 <= i && has_at(s, t, i));
        }
    }
}

/// A text without an ending, when it has it.
pub open spec fn without_suffix(s: Seq<char>, t: Seq<char>) -> Seq<char> {
    if has_at(s, t, s.len() - t.len()) { s.subrange(0, s.len() - t.len()) } else { s }
}

/// A text without an ending, when it has it.
pub fn strip_suffix(s: &str, t: &str) -> (r: String)
    ensures
        r@ == without_suffix(s@, t@),
{
    let chars = chars_of(s);
    let end = chars_of(t);
    if end.len() <= chars.len() && matches_at(&chars, &end, chars.len() - end.len()) {
        text_of(&chars, 0, chars.len() - end.len())
    } else {
        s.to_owned()
    }
}

/// A hexadecimal digit: small letters, or large ones.
pub open spec fn hex_digit(d: int, large: bool) -> char {
    if d < 10 { digit(d) } else if d == 10 { if large { 'A' } else { 'a' } } else if d == 11 { if large { 'B' } else { 'b' } }
    else if d == 12 { if large { 'C' } else { 'c' } } else if d == 13 { if large { 'D' } else { 'd' } }
    else if d == 14 { if large { 'E' } else { 'e' } } else { if large { 'F' } else { 'f' } }
}

fn hex_char(d: u128, large: bool) -> (c: char)
    requires
        d < 16,
    ensures
        c == hex_digit(d as int, large),
{
    if d < 10 { digit_char(d) } else if d == 10 { if large { 'A' } else { 'a' } } else if d == 11 { if large { 'B' } else { 'b' } }
    else if d == 12 { if large { 'C' } else { 'c' } } else if d == 13 { if large { 'D' } else { 'd' } }
    else if d == 14 { if large { 'E' } else { 'e' } } else { if large { 'F' } else { 'f' } }
}

/// A number in exactly `places` hexadecimal digits.
pub open spec fn hex(n: nat, places: nat, large: bool) -> Seq<char>
    decreases places,
{
    if places == 0 {
        Seq::empty()
    } else {
        hex(n / 16, (places - 1) as nat, large).push(hex_digit((n % 16) as int, large))
    }
}

/// A number in exactly `places` hexadecimal digits.
pub fn hex_text(n: u128, places: u32, large: bool) -> (r: String)
    ensures
        r@ == hex(n as nat, places as nat, large),
    decreases places,
{
    if places == 0 {
        String::new()
    } else {
        let mut s = hex_text(n / 16, places - 1, large);
        push_char(&mut s, hex_char(n % 16, large));
        s
    }
}

/// Bytes as a list in large hexadecimal: "[FE, 0A]".
pub open spec fn hex_items(bytes: Seq<u8>) -> Seq<char>
    decreases bytes.len(),
{
    if bytes.len() == 0 {
        "["@
    } else {
        hex_items(bytes.drop_last()) + (if bytes.len() == 1 { ""@ } else { ", "@ }) + hex(bytes.last() as nat, 2, true)
    }
}

/// Bytes as a list in large hexadecimal.
pub open spec fn hex_list(bytes: Seq<u8>) -> Seq<char> {
    hex_items(bytes) + "]"@
}

/// Bytes as a list in large hexadecimal.
pub fn hex_list_text(bytes: &Vec<u8>) -> (r: String)
    ensures
        r@ == hex_list(bytes@),
{
    let mut s = "[".to_owned();
    let mut i: usize = 0;
    proof {
        assert(bytes@.subrange(0, 0) =~= Seq::empty());
    }
    while i < bytes.len()
        invariant
            i <= bytes.len(),
            s@ == hex_items(bytes@.subrange(0, i as int)),
        decreases bytes.len() - i,
    {
        proof {
            let next = bytes@.subrange(0, i + 1);
            assert(next.drop_last() =~= bytes@.subrange(0, i as int));
            assert(next.last() == bytes@[i as int]);
        }
        s.append(if i == 0 { "" } else { ", " });
        s.append(&hex_text(bytes[i] as u128, 2, true));
        i += 1;
    }
    proof {
        assert(bytes@.subrange(0, i as int) =~= bytes@);
    }
    s.append("]");
    s
}

/// A number in decimal with zeros in front, up to a number of digits.
pub open spec fn zero_padded(n: nat, width: nat) -> Seq<char> {
    let d = digits(n);
    if d.len() >= width { d } else { Seq::new((width - d.len()) as nat, |i: int| '0') + d }
}

/// A number in decimal with zeros in front, up to a number of digits.
pub fn zero_padded_text(n: u128, width: usize) -> (r: String)
    ensures
        r@ == zero_padded(n as nat, width as nat),
{
    let d = whole(n);
    let len: usize = d.unicode_len();
    let mut s = String::new();
    let mut i: usize = len;
    proof {
        assert(s@ =~= Seq::new(0, |k: int| '0'));
    }
    while i < width
        invariant
            len <= i,
            len < width ==> i <= width,
            len >= width ==> i == len,
            s@ == Seq::new((i - len) as nat, |k: int| '0'),
        decreases width - i,
    {
        push_char(&mut s, '0');
        i += 1;
        proof {
            assert(s@ =~= Seq::new((i - len) as nat, |k: int| '0'));
        }
    }
    s.append(&d);
    proof {
        if len >= width {
            assert(s@ =~= d@);
        }
    }
    s
}

/// Decimal digits read back as the number they were written from, however many zeros are in
/// front.
pub proof fn padded_numbers_read_back(n: nat, width: nat)
    ensures
        number_in(digits(n)) == Some(n),
        number_in(zero_padded(n, width)) == Some(n),
        forall|i: int| 0 <= i < zero_padded(n, width).len() ==> digit_value(#[trigger] zero_padded(n, width)[i]) is Some,
{
    lemma_digits_read_back(n);
    let d = digits(n);
    if d.len() < width {
        lemma_zeros_in_front(d, (width - d.len()) as nat, n);
    }
}

proof fn lemma_digits_read_back(n: nat)
    ensures
        number_in(digits(n)) == Some(n),
        digits(n).len() >= 1,
        forall|i: int| 0 <= i < digits(n).len() ==> digit_value(#[trigger] digits(n)[i]) is Some,
    decreases n,
{
    if n >= 10 {
        lemma_digits_read_back(n / 10);
        assert(digits(n).drop_last() =~= digits(n / 10));
        assert(digits(n).last() == digit((n % 10) as int));
        assert(digit_value(digit((n % 10) as int)) == Some(n % 10));
        assert forall|i: int| 0 <= i < digits(n).len() implies digit_value(#[trigger] digits(n)[i]) is Some by {
            if i < digits(n).len() - 1 {
                assert(digits(n)[i] == digits(n / 10)[i]);
            }
        }
    } else {
        assert(digit_value(digit(n as int)) == Some(n));
    }
}

proof fn lemma_zeros_in_front(d: Seq<char>, zeros: nat, n: nat)
    requires
        number_in(d) == Some(n),
        d.len() >= 1,
        forall|i: int| 0 <= i < d.len() ==> digit_value(#[trigger] d[i]) is Some,
    ensures
        number_in(Seq::new(zeros, |i: int| '0') + d) == Some(n),
    decreases d.len(),
{
    let z = Seq::new(zeros, |i: int| '0');
    if zeros == 0 {
        assert(z + d =~= d);
    } else if d.len() == 1 {
        lemma_zeros(zeros);
        assert((z + d).drop_last() =~= z);
        assert((z + d).last() == d[0]);
    } else {
        assert(number_in(d.drop_last()) is Some);
        lemma_zeros_in_front(d.drop_last(), zeros, number_in(d.drop_last())->0);
        assert((z + d).drop_last() =~= z + d.drop_last());
        assert((z + d).last() == d.last());
    }
}

proof fn lemma_zeros(zeros: nat)
    requires
        zeros > 0,
    ensures
        number_in(Seq::new(zeros, |i: int| '0')) == Some(0nat),
    decreases zeros,
{
    let z = Seq::new(zeros, |i: int| '0');
    assert(digit_value('0') == Some(0nat));
    if zeros > 1 {
        lemma_zeros((zeros - 1) as nat);
        assert(z.drop_last() =~= Seq::new((zeros - 1) as nat, |i: int| '0'));
    }
}

/// Whether a text comes before another: by the first character in which they differ, the
/// shorter first where one begins the other.
pub open spec fn precedes(a: Seq<char>, b: Seq<char>) -> bool
    decreases a.len(),
{
    if b.len() == 0 {
        false
    } else if a.len() == 0 {
        true
    } else if a[0] != b[0] {
        (a[0] as int) < (b[0] as int)
    } else {
        precedes(a.drop_first(), b.drop_first())
    }
}

/// Of two different texts one comes before the other, and not the other way round.
pub proof fn order_is_total(a: Seq<char>, b: Seq<char>)
    ensures
        a == b ==> !precedes(a, b),
        a != b ==> precedes(a, b) != precedes(b, a),
    decreases a.len(),
{
    if a.len() > 0 && b.len() > 0 && a[0] == b[0] {
        order_is_total(a.drop_first(), b.drop_first());
        if a.drop_first() == b.drop_first() {
            assert(a =~= seq![a[0]] + a.drop_first());
            assert(b =~= seq![b[0]] + b.drop_first());
        }
    } else if a.len() == 0 && b.len() == 0 {
        assert(a =~= b);
    }
}

/// What comes before a text comes before all that follow it.
pub proof fn order_is_transitive(a: Seq<char>, b: Seq<char>, c: Seq<char>)
    requires
        precedes(a, b),
        precedes(b, c),
    ensures
        precedes(a, c),
    decreases a.len(),
{
    if a.len() > 0 && b.len() > 0 && c.len() > 0 && a[0] == b[0] && b[0] == c[0] {
        order_is_transitive(a.drop_first(), b.drop_first(), c.drop_first());
    }
}

/// Whether a text comes before another.
pub fn comes_before(a: &str, b: &str) -> (r: bool)
    ensures
        r == precedes(a@, b@),
{
    let x = chars_of(a);
    let y = chars_of(b);
    let mut i: usize = 0;
    proof {
        assert(x@.subrange(0, x@.len() as int) =~= a@);
        assert(y@.subrange(0, y@.len() as int) =~= b@);
    }
    while i < x.len() && i < y.len() && x[i] == y[i]
        invariant
            i <= x.len(),
            i <= y.len(),
            precedes(a@, b@) == precedes(
                x@.subrange(i as int, x@.len() as int),
                y@.subrange(i as int, y@.len() as int),
            ),
        decreases x.len() - i,
    {
        proof {
            assert(x@.subrange(i as int, x@.len() as int).drop_first() =~= x@.subrange(i + 1, x@.len() as int));
            assert(y@.subrange(i as int, y@.len() as int).drop_first() =~= y@.subrange(i + 1, y@.len() as int));
        }
        i += 1;
    }
    if i >= y.len() {
        false
    } else if i >= x.len() {
        true
    } else {
        x[i] < y[i]
    }
}

/// Where the first `n` of some texts stand once they are in order, those that are alike in
/// the order they had.
pub open spec fn order_of(keys: Seq<Seq<char>>, n: nat) -> Seq<int>
    decreases n,
{
    if n == 0 {
        Seq::empty()
    } else {
        insert_place(keys, order_of(keys, (n - 1) as nat), n - 1)
    }
}

/// Places in order with one more, before the first whose text comes after its own.
pub open spec fn insert_place(keys: Seq<Seq<char>>, places: Seq<int>, new: int) -> Seq<int>
    decreases places.len(),
{
    if places.len() == 0 || !precedes(keys[new], keys[places.last()]) {
        places.push(new)
    } else {
        insert_place(keys, places.drop_last(), new).push(places.last())
    }
}

/// Whether places hold each of the first `n` once.
pub open spec fn all_places(places: Seq<int>, n: nat) -> bool {
    &&& places.len() == n
    &&& places.no_duplicates()
    &&& forall|i: int| 0 <= i < places.len() ==> 0 <= #[trigger] places[i] < n
}

/// Whether a place belongs before another: by its text, then as it stood.
pub open spec fn place_before(keys: Seq<Seq<char>>, a: int, b: int) -> bool {
    precedes(keys[a], keys[b]) || (keys[a] == keys[b] && a < b)
}

/// Putting texts in order leaves none out and adds none, puts none before one it follows,
/// and keeps those that are alike as they stood.
pub proof fn ordering_keeps_them_all(keys: Seq<Seq<char>>, n: nat)
    requires
        n <= keys.len(),
    ensures
        all_places(order_of(keys, n), n),
        forall|i: int, j: int|
            0 <= i < j < n ==> place_before(keys, #[trigger] order_of(keys, n)[i], #[trigger] order_of(keys, n)[j]),
    decreases n,
{
    if n > 0 {
        let m = (n - 1) as nat;
        ordering_keeps_them_all(keys, m);
        lemma_insert_place(keys, order_of(keys, m), n - 1);
    }
}

proof fn lemma_insert_place(keys: Seq<Seq<char>>, places: Seq<int>, new: int)
    requires
        0 <= new < keys.len(),
        places.no_duplicates(),
        forall|i: int| 0 <= i < places.len() ==> 0 <= #[trigger] places[i] < new,
        forall|i: int, j: int|
            0 <= i < j < places.len() ==> place_before(keys, #[trigger] places[i], #[trigger] places[j]),
    ensures
        insert_place(keys, places, new).len() == places.len() + 1,
        insert_place(keys, places, new).no_duplicates(),
        forall|i: int|
            0 <= i <= places.len() ==> (#[trigger] insert_place(keys, places, new)[i] == new || places.contains(
                insert_place(keys, places, new)[i],
            )),
        forall|i: int, j: int|
            0 <= i < j <= places.len() ==> place_before(
                keys,
                #[trigger] insert_place(keys, places, new)[i],
                #[trigger] insert_place(keys, places, new)[j],
            ),
    decreases places.len(),
{
    let r = insert_place(keys, places, new);
    if places.len() == 0 || !precedes(keys[new], keys[places.last()]) {
        assert forall|i: int| 0 <= i <= places.len() implies (#[trigger] r[i] == new || places.contains(r[i])) by {
            if i < places.len() {
                assert(places[i] == r[i]);
            }
        }
        assert forall|i: int, j: int| 0 <= i < j <= places.len() implies place_before(
            keys,
            #[trigger] r[i],
            #[trigger] r[j],
        ) by {
            if j == places.len() {
                let last = places.last();
                order_is_total(keys[new], keys[last]);
                assert(place_before(keys, last, new));
                if i < places.len() - 1 {
                    assert(place_before(keys, places[i], places[places.len() - 1]));
                    if precedes(keys[places[i]], keys[last]) && precedes(keys[last], keys[new]) {
                        order_is_transitive(keys[places[i]], keys[last], keys[new]);
                    }
                }
            }
        }
    } else {
        let rest = places.drop_last();
        assert forall|i: int| 0 <= i < rest.len() implies 0 <= #[trigger] rest[i] < new by {
            assert(rest[i] == places[i]);
        }
        assert forall|i: int, j: int| 0 <= i < j < rest.len() implies place_before(
            keys,
            #[trigger] rest[i],
            #[trigger] rest[j],
        ) by {
            assert(rest[i] == places[i] && rest[j] == places[j]);
        }
        lemma_insert_place(keys, rest, new);
        let q = insert_place(keys, rest, new);
        let last = places.last();
        assert(places[places.len() - 1] == last);
        assert forall|i: int| 0 <= i < q.len() implies #[trigger] q[i] != last && place_before(keys, q[i], last) by {
            if q[i] == new {
            } else {
                let k = choose|k: int| 0 <= k < rest.len() && rest[k] == q[i];
                assert(places[k] == rest[k]);
                assert(place_before(keys, places[k], places[places.len() - 1]));
            }
        }
        assert forall|i: int| 0 <= i <= places.len() implies (#[trigger] r[i] == new || places.contains(r[i])) by {
            if i < q.len() {
                assert(r[i] == q[i]);
                if q[i] != new {
                    let k = choose|k: int| 0 <= k < rest.len() && rest[k] == q[i];
                    assert(places[k] == rest[k]);
                }
            }
        }
        assert forall|i: int, j: int| 0 <= i < j <= places.len() implies place_before(
            keys,
            #[trigger] r[i],
            #[trigger] r[j],
        ) by {
            assert(r[i] == q[i]);
            if j < q.len() {
                assert(r[j] == q[j]);
            }
        }
    }
}

/// Where some texts stand once they are in order.
pub fn in_order(keys: &Vec<String>) -> (r: Vec<usize>)
    ensures
        r@.map_values(|i: usize| i as int) == order_of(views(keys@), keys@.len()),
        forall|i: int| 0 <= i < r@.len() ==> (#[trigger] r@[i]) < keys@.len(),
        r@.len() == keys@.len(),
{
    let ghost as_int = |i: usize| i as int;
    let ghost v = views(keys@);
    let mut out: Vec<usize> = Vec::new();
    let mut i: usize = 0;
    proof {
        assert(out@.map_values(as_int) =~= Seq::empty());
    }
    while i < keys.len()
        invariant
            i <= keys.len(),
            as_int == (|i: usize| i as int),
            v == views(keys@),
            out@.map_values(as_int) == order_of(v, i as nat),
            out@.len() == i,
            forall|j: int| 0 <= j < out@.len() ==> (#[trigger] out@[j]) < i,
        decreases keys.len() - i,
    {
        let ghost places = out@.map_values(as_int);
        let ghost old_out = out@;
        let mut at: usize = out.len();
        proof {
            assert(places.subrange(0, at as int) =~= places);
            assert(places.subrange(at as int, places.len() as int) =~= Seq::empty());
            assert(insert_place(v, places, i as int) + Seq::<int>::empty() =~= insert_place(v, places, i as int));
        }
        while at > 0 && comes_before(&keys[i], &keys[out[at - 1]])
            invariant
                at <= out.len(),
                i < keys.len(),
                out@ == old_out,
                v == views(keys@),
                as_int == (|i: usize| i as int),
                places == out@.map_values(as_int),
                forall|j: int| 0 <= j < out@.len() ==> (#[trigger] out@[j]) < i,
                insert_place(v, places, i as int) == insert_place(v, places.subrange(0, at as int), i as int)
                    + places.subrange(at as int, places.len() as int),
            decreases at,
        {
            proof {
                let p = places.subrange(0, at as int);
                assert(p.last() == out@[at - 1] as int);
                assert(p.drop_last() =~= places.subrange(0, at - 1));
                let q = insert_place(v, places.subrange(0, at - 1), i as int);
                assert(q.push(p.last()) + places.subrange(at as int, places.len() as int) =~= q + places.subrange(
                    at - 1,
                    places.len() as int,
                ));
            }
            at -= 1;
        }
        proof {
            let p = places.subrange(0, at as int);
            if at > 0 {
                assert(p.last() == out@[at - 1] as int);
            }
            assert(insert_place(v, p, i as int) == p.push(i as int));
        }
        out.insert(at, i);
        proof {
            assert(out@.map_values(as_int) =~= places.subrange(0, at as int).push(i as int) + places.subrange(
                at as int,
                places.len() as int,
            ));
            assert forall|j: int| 0 <= j < out@.len() implies (#[trigger] out@[j]) < i + 1 by {
                if j < at {
                    assert(out@[j] == old_out[j]);
                } else if j > at {
                    assert(out@[j] == old_out[j - 1]);
                }
            }
        }
        i += 1;
    }
    out
}

/// So many spaces.
pub open spec fn spaces(n: nat) -> Seq<char> {
    Seq::new(n, |i: int| ' ')
}

/// A text at the right of a field.
pub open spec fn right(s: Seq<char>, width: nat) -> Seq<char> {
    if s.len() < width { spaces((width - s.len()) as nat) + s } else { s }
}

/// A text at the left of a field.
pub open spec fn left(s: Seq<char>, width: nat) -> Seq<char> {
    if s.len() < width { s + spaces((width - s.len()) as nat) } else { s }
}

fn append_spaces(s: &mut String, n: usize)
    ensures
        final(s)@ == old(s)@ + spaces(n as nat),
{
    let ghost before = s@;
    let mut i: usize = 0;
    proof {
        assert(before + spaces(0) =~= before);
    }
    while i < n
        invariant
            i <= n,
            s@ == before + spaces(i as nat),
        decreases n - i,
    {
        push_char(s, ' ');
        proof {
            assert((before + spaces(i as nat)).push(' ') =~= before + spaces((i + 1) as nat));
        }
        i += 1;
    }
}

/// A text at the right of a field.
pub fn right_text(s: &str, width: usize) -> (r: String)
    ensures
        r@ == right(s@, width as nat),
{
    let n: usize = s.unicode_len();
    if n >= width {
        return s.to_owned();
    }
    let mut r = "".to_owned();
    append_spaces(&mut r, width - n);
    proof {
        reveal_strlit("");
        assert(""@ + spaces((width - n) as nat) =~= spaces((width - n) as nat));
    }
    r.append(s);
    r
}

/// A text at the left of a field.
pub fn left_text(s: &str, width: usize) -> (r: String)
    ensures
        r@ == left(s@, width as nat),
{
    let n: usize = s.unicode_len();
    let mut r = s.to_owned();
    if n < width {
        append_spaces(&mut r, width - n);
    }
    r
}

/// A number in units of which `tenth` are a tenth, with one digit behind the point and its
/// sign, whichever it is.
pub open spec fn signed_tenths(n: int, tenth: nat) -> Seq<char> {
    if n < 0 { tenths(n, tenth) } else { "+"@ + tenths(n, tenth) }
}

/// A number in units of which `tenth` are a tenth, with one digit behind the point and its
/// sign, whichever it is.
pub fn signed_tenths_text(n: i128, tenth: u64) -> (r: String)
    requires
        tenth > 0,
    ensures
        r@ == signed_tenths(n as int, tenth as nat),
{
    if n < 0 { tenths_text(n, tenth) } else { cat("+", &tenths_text(n, tenth)) }
}

/// A number in millionths with two digits behind the point.
pub open spec fn hundredths(micro: int) -> Seq<char> {
    let q = nearest(size(micro), 10_000);
    (if micro < 0 { "-"@ } else { ""@ }) + digits(q / 100) + "."@ + padded(q % 100, 2)
}

/// A number in millionths with two digits behind the point.
pub fn hundredths_text(micro: i128) -> (r: String)
    ensures
        r@ == hundredths(micro as int),
{
    let a: u128 = size_of(micro);
    let down: u128 = a / 10_000;
    let rest: u128 = a % 10_000;
    let q: u128 = if rest < 5_000 || (rest == 5_000 && down % 2 == 0) { down } else { down + 1 };
    let mut s = if micro < 0 { "-".to_owned() } else { "".to_owned() };
    s.append(&whole(q / 100));
    s.append(".");
    s.append(&padded_text(q % 100, 2));
    s
}

/// The first word of a text: what stands before, between or behind white space.
pub open spec fn first_word(s: Seq<char>) -> Seq<char> {
    let rest = s.subrange(leading(s, |c: char| white_space(c)) as int, s.len() as int);
    rest.subrange(0, leading(rest, |c: char| !white_space(c)) as int)
}

/// The first word of a text.
pub fn first_word_of(s: &str) -> (r: String)
    ensures
        r@ == first_word(s@),
{
    let chars = chars_of(s);
    let ghost white = |c: char| white_space(c);
    let ghost black = |c: char| !white_space(c);
    let mut from: usize = 0;
    while from < chars.len() && is_white_space(chars[from])
        invariant
            from <= chars.len(),
            forall|i: int| 0 <= i < from ==> white_space(#[trigger] chars@[i]),
        decreases chars.len() - from,
    {
        from += 1;
    }
    let mut to: usize = from;
    while to < chars.len() && !is_white_space(chars[to])
        invariant
            from <= to <= chars.len(),
            forall|i: int| from <= i < to ==> !white_space(#[trigger] chars@[i]),
        decreases chars.len() - to,
    {
        to += 1;
    }
    proof {
        assert forall|i: int| 0 <= i < from implies white(#[trigger] chars@[i]) by {}
        lemma_leading_is(chars@, white, from as nat);
        let rest = chars@.subrange(from as int, chars@.len() as int);
        let n = (to - from) as nat;
        assert forall|i: int| 0 <= i < n implies black(#[trigger] rest[i]) by {
            assert(rest[i] == chars@[from + i]);
        }
        if n < rest.len() {
            assert(rest[n as int] == chars@[to as int]);
        }
        lemma_leading_is(rest, black, n);
        assert(rest.subrange(0, n as int) =~= chars@.subrange(from as int, to as int));
    }
    text_of(&chars, from, to)
}

/// Whether a text ends with another.
pub open spec fn ends(s: Seq<char>, t: Seq<char>) -> bool {
    s.len() >= t.len() && s.subrange(s.len() - t.len(), s.len() as int) == t
}

/// Whether a text ends with another.
pub fn ends_with(s: &str, t: &str) -> (r: bool)
    ensures
        r == ends(s@, t@),
{
    let a = chars_of(s);
    let b = chars_of(t);
    if a.len() < b.len() {
        return false;
    }
    let from: usize = a.len() - b.len();
    same(&text_of(&a, from, a.len()), t)
}

/// A text without the copies of another at its start.
pub open spec fn without_prefixes(s: Seq<char>, t: Seq<char>) -> Seq<char>
    decreases s.len(),
{
    if t.len() > 0 && begins(s, t) { without_prefixes(s.subrange(t.len() as int, s.len() as int), t) } else { s }
}

/// A text without the copies of another at its start.
pub fn strip_prefixes(s: &str, t: &str) -> (r: String)
    ensures
        r@ == without_prefixes(s@, t@),
{
    let a = chars_of(s);
    let b = chars_of(t);
    let mut from: usize = 0;
    proof {
        assert(a@.subrange(0, a@.len() as int) =~= a@);
    }
    while b.len() > 0 && matches_at(&a, &b, from)
        invariant
            from <= a.len(),
            a@ == s@,
            b@ == t@,
            without_prefixes(s@, t@) == without_prefixes(a@.subrange(from as int, a@.len() as int), t@),
        decreases a.len() - from,
    {
        proof {
            let rest = a@.subrange(from as int, a@.len() as int);
            assert(rest.subrange(0, b@.len() as int) =~= a@.subrange(from as int, from + b@.len()));
            assert(rest.subrange(b@.len() as int, rest.len() as int) =~= a@.subrange(from + b@.len(), a@.len() as int));
        }
        from += b.len();
    }
    proof {
        let rest = a@.subrange(from as int, a@.len() as int);
        if b@.len() > 0 && begins(rest, b@) {
            assert(rest.subrange(0, b@.len() as int) =~= a@.subrange(from as int, from + b@.len()));
        }
    }
    text_of(&a, from, a.len())
}

/// Texts again.
pub fn clone_texts(list: &Vec<String>) -> (r: Vec<String>)
    ensures
        views(r@) == views(list@),
{
    let mut out: Vec<String> = Vec::new();
    let mut i: usize = 0;
    proof {
        assert(views(out@) =~= views(list@).subrange(0, 0));
    }
    while i < list.len()
        invariant
            i <= list.len(),
            views(out@) == views(list@).subrange(0, i as int),
        decreases list.len() - i,
    {
        let ghost before = out@;
        out.push(list[i].clone());
        proof {
            assert(views(out@) =~= views(before).push(list@[i as int]@));
            assert(views(list@).subrange(0, i + 1) =~= views(list@).subrange(0, i as int).push(views(list@)[i as int]));
        }
        i += 1;
    }
    proof {
        assert(views(list@).subrange(0, i as int) =~= views(list@));
    }
    out
}

} // verus!
