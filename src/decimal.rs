use vstd::prelude::*;

use core::cmp::Ordering;

use crate::text::{
    all_digits, digit_value, digits_value, first_index, first_index_from, first_index_of,
    is_ascii_digit, is_digit, lemma_first_index_from_bounds, slice_of,
};

verus! {

/// End of the run of digits that starts at `i`.
pub open spec fn digit_run_end(s: Seq<char>, i: int) -> int
    decreases s.len() - i,
{
    if 0 <= i < s.len() && is_digit(s[i]) {
        digit_run_end(s, i + 1)
    } else {
        i
    }
}

/// End of the number `digits(.digits)?` that starts at `i`, read greedily
/// (ASCII digits; no sign, no bare leading or trailing dot, no exponent).
pub open spec fn number_end(s: Seq<char>, i: int) -> int {
    let e = digit_run_end(s, i);
    if 0 <= e && e + 1 < s.len() && s[e] == '.' && is_digit(s[e + 1]) {
        digit_run_end(s, e + 1)
    } else {
        e
    }
}

/// Bounds of the last number that a left-to-right scan finds from `i` on,
/// numbers never overlapping, `found` being the last one before `i`.
pub open spec fn last_number_from(s: Seq<char>, i: int, found: Option<(int, int)>) -> Option<
    (int, int),
>
    decreases s.len() - i,
{
    if i < 0 || i >= s.len() {
        found
    } else if is_digit(s[i]) {
        let e = number_end(s, i);
        if i < e <= s.len() {
            last_number_from(s, e, Some((i, e)))
        } else {
            found
        }
    } else {
        last_number_from(s, i + 1, found)
    }
}

/// Bounds of the last number written in `s`.
pub open spec fn last_number(s: Seq<char>) -> Option<(int, int)> {
    last_number_from(s, 0, None)
}

/// Digits without the zeros that lead them.
pub open spec fn strip_leading_zeros(d: Seq<char>) -> Seq<char>
    decreases d.len(),
{
    if d.len() > 0 && d[0] == '0' {
        strip_leading_zeros(d.drop_first())
    } else {
        d
    }
}

/// Digits without the zeros that trail them.
pub open spec fn strip_trailing_zeros(d: Seq<char>) -> Seq<char>
    decreases d.len(),
{
    if d.len() > 0 && d.last() == '0' {
        strip_trailing_zeros(d.drop_last())
    } else {
        d
    }
}

/// A decimal `digits(.digits)?` as its whole and fractional digits, with no
/// leading zero in the first and no trailing zero in the second, so that equal
/// numbers have equal keys.
pub open spec fn decimal_key(t: Seq<char>) -> (Seq<char>, Seq<char>) {
    let dot = first_index_of(t, '.');
    if dot < 0 {
        (strip_leading_zeros(t), Seq::empty())
    } else {
        (
            strip_leading_zeros(t.subrange(0, dot)),
            strip_trailing_zeros(t.subrange(dot + 1, t.len() as int)),
        )
    }
}

/// Lexicographic order of digit strings, a proper prefix first.
pub open spec fn lex_cmp(a: Seq<char>, b: Seq<char>) -> Ordering
    decreases a.len(),
{
    if a.len() == 0 {
        if b.len() == 0 {
            Ordering::Equal
        } else {
            Ordering::Less
        }
    } else if b.len() == 0 {
        Ordering::Greater
    } else if a[0] < b[0] {
        Ordering::Less
    } else if a[0] > b[0] {
        Ordering::Greater
    } else {
        lex_cmp(a.drop_first(), b.drop_first())
    }
}

/// Numeric order of two decimal keys: the whole part with more digits is the
/// larger, equal lengths go digit by digit, then the fractions digit by digit.
pub open spec fn decimal_cmp(a: (Seq<char>, Seq<char>), b: (Seq<char>, Seq<char>)) -> Ordering {
    if a.0.len() < b.0.len() {
        Ordering::Less
    } else if a.0.len() > b.0.len() {
        Ordering::Greater
    } else {
        match lex_cmp(a.0, b.0) {
            Ordering::Equal => lex_cmp(a.1, b.1),
            o => o,
        }
    }
}

/// Order of optional keys: present keys by value, an absent key after every present one.
pub open spec fn key_cmp(a: Option<(Seq<char>, Seq<char>)>, b: Option<(Seq<char>, Seq<char>)>) -> Ordering {
    match (a, b) {
        (Some(x), Some(y)) => decimal_cmp(x, y),
        (Some(_), None) => Ordering::Less,
        (None, Some(_)) => Ordering::Greater,
        (None, None) => Ordering::Equal,
    }
}

/// Flip of an ordering.
pub open spec fn flip(o: Ordering) -> Ordering {
    match o {
        Ordering::Less => Ordering::Greater,
        Ordering::Greater => Ordering::Less,
        Ordering::Equal => Ordering::Equal,
    }
}

pub proof fn lemma_digit_run_end_bounds(s: Seq<char>, i: int)
    requires
        0 <= i <= s.len(),
    ensures
        i <= digit_run_end(s, i) <= s.len(),
        forall|k: int| i <= k < digit_run_end(s, i) ==> is_digit(#[trigger] s[k]),
    decreases s.len() - i,
{
    if i < s.len() && is_digit(s[i]) {
        lemma_digit_run_end_bounds(s, i + 1);
    }
}

pub proof fn lemma_number_end_bounds(s: Seq<char>, i: int)
    requires
        0 <= i < s.len(),
        is_digit(s[i]),
    ensures
        i < number_end(s, i) <= s.len(),
{
    lemma_digit_run_end_bounds(s, i);
    lemma_digit_run_end_bounds(s, i + 1);
    let e = digit_run_end(s, i);
    if 0 <= e && e + 1 < s.len() && s[e] == '.' && is_digit(s[e + 1]) {
        lemma_digit_run_end_bounds(s, e + 1);
    }
}

pub proof fn lemma_lex_cmp_flip(a: Seq<char>, b: Seq<char>)
    ensures
        lex_cmp(b, a) == flip(lex_cmp(a, b)),
        lex_cmp(a, b) == Ordering::Equal <==> a == b,
    decreases a.len(),
{
    if a.len() > 0 && b.len() > 0 && a[0] == b[0] {
        lemma_lex_cmp_flip(a.drop_first(), b.drop_first());
        if a.drop_first() == b.drop_first() {
            assert(a =~= seq![a[0]] + a.drop_first());
            assert(b =~= seq![b[0]] + b.drop_first());
        }
    }
    if a.len() > 0 && b.len() > 0 && a[0] != b[0] {
        assert(a != b);
    }
    if a.len() == 0 && b.len() > 0 || a.len() > 0 && b.len() == 0 {
        assert(a.len() != b.len());
    }
    if a.len() == 0 && b.len() == 0 {
        assert(a =~= b);
    }
}

pub proof fn lemma_lex_cmp_trans(a: Seq<char>, b: Seq<char>, c: Seq<char>)
    requires
        lex_cmp(a, b) != Ordering::Greater,
        lex_cmp(b, c) != Ordering::Greater,
    ensures
        lex_cmp(a, c) != Ordering::Greater,
        lex_cmp(a, b) == Ordering::Less || lex_cmp(b, c) == Ordering::Less ==> lex_cmp(a, c)
            == Ordering::Less,
    decreases a.len(),
{
    if a.len() > 0 && b.len() > 0 && c.len() > 0 && a[0] == b[0] && b[0] == c[0] {
        lemma_lex_cmp_trans(a.drop_first(), b.drop_first(), c.drop_first());
    }
}

pub proof fn lemma_decimal_cmp_laws(a: (Seq<char>, Seq<char>), b: (Seq<char>, Seq<char>))
    ensures
        decimal_cmp(b, a) == flip(decimal_cmp(a, b)),
        decimal_cmp(a, b) == Ordering::Equal <==> a == b,
{
    lemma_lex_cmp_flip(a.0, b.0);
    lemma_lex_cmp_flip(a.1, b.1);
}

pub proof fn lemma_decimal_cmp_trans(
    a: (Seq<char>, Seq<char>),
    b: (Seq<char>, Seq<char>),
    c: (Seq<char>, Seq<char>),
)
    requires
        decimal_cmp(a, b) != Ordering::Greater,
        decimal_cmp(b, c) != Ordering::Greater,
    ensures
        decimal_cmp(a, c) != Ordering::Greater,
        decimal_cmp(a, b) == Ordering::Less || decimal_cmp(b, c) == Ordering::Less
            ==> decimal_cmp(a, c) == Ordering::Less,
{
    lemma_lex_cmp_flip(a.0, b.0);
    lemma_lex_cmp_flip(b.0, c.0);
    lemma_lex_cmp_flip(a.0, c.0);
    lemma_lex_cmp_flip(a.1, b.1);
    lemma_lex_cmp_flip(b.1, c.1);
    if a.0.len() == b.0.len() && b.0.len() == c.0.len() {
        lemma_lex_cmp_trans(a.0, b.0, c.0);
        if lex_cmp(a.0, b.0) == Ordering::Equal && lex_cmp(b.0, c.0) == Ordering::Equal {
            lemma_lex_cmp_trans(a.1, b.1, c.1);
        }
    }
}

pub proof fn lemma_key_cmp_laws(a: Option<(Seq<char>, Seq<char>)>, b: Option<(Seq<char>, Seq<char>)>)
    ensures
        key_cmp(b, a) == flip(key_cmp(a, b)),
        key_cmp(a, b) == Ordering::Equal <==> a == b,
{
    if a is Some && b is Some {
        lemma_decimal_cmp_laws(a->Some_0, b->Some_0);
    }
}

pub proof fn lemma_key_cmp_trans(
    a: Option<(Seq<char>, Seq<char>)>,
    b: Option<(Seq<char>, Seq<char>)>,
    c: Option<(Seq<char>, Seq<char>)>,
)
    requires
        key_cmp(a, b) != Ordering::Greater,
        key_cmp(b, c) != Ordering::Greater,
    ensures
        key_cmp(a, c) != Ordering::Greater,
        key_cmp(a, b) == Ordering::Less || key_cmp(b, c) == Ordering::Less ==> key_cmp(a, c)
            == Ordering::Less,
{
    if a is Some && b is Some && c is Some {
        lemma_decimal_cmp_trans(a->Some_0, b->Some_0, c->Some_0);
    }
}

/// Ten to the power `n`.
pub open spec fn pow10(n: nat) -> nat
    decreases n,
{
    if n == 0 {
        1
    } else {
        10 * pow10((n - 1) as nat)
    }
}

proof fn lemma_pow10_positive(n: nat)
    ensures
        1 <= pow10(n),
    decreases n,
{
    if n > 0 {
        lemma_pow10_positive((n - 1) as nat);
    }
}

proof fn lemma_pow10_grows(m: nat, n: nat)
    requires
        m <= n,
    ensures
        1 <= pow10(m) <= pow10(n),
    decreases n,
{
    lemma_pow10_positive(m);
    if m < n {
        lemma_pow10_grows(m, (n - 1) as nat);
    }
}

/// Reading a digit string from the front: the first digit weighs a power of ten.
proof fn lemma_digits_value_front(s: Seq<char>)
    requires
        s.len() > 0,
    ensures
        digits_value(s) == digit_value(s[0]) * pow10((s.len() - 1) as nat) + digits_value(
            s.drop_first(),
        ),
    decreases s.len(),
{
    if s.len() == 1 {
        assert(s.drop_last() =~= Seq::<char>::empty());
        assert(s.drop_first() =~= Seq::<char>::empty());
        assert(digits_value(Seq::<char>::empty()) == 0);
        assert(digits_value(s) == digits_value(s.drop_last()) * 10 + digit_value(s.last()));
        assert(s.last() == s[0]);
        assert(pow10(0) == 1);
    } else {
        let dl = s.drop_last();
        lemma_digits_value_front(dl);
        assert(dl.drop_first() =~= s.drop_first().drop_last());
        assert(s.drop_first().last() == s.last());
        assert(dl[0] == s[0]);
        assert(digits_value(s) == digits_value(dl) * 10 + digit_value(s.last()));
        assert(digits_value(s.drop_first()) == digits_value(s.drop_first().drop_last()) * 10
            + digit_value(s.drop_first().last()));
        let p = pow10((s.len() - 2) as nat);
        assert(pow10((s.len() - 1) as nat) == 10 * p);
        assert((digit_value(s[0]) * p + digits_value(dl.drop_first())) * 10 == digit_value(s[0]) * (
        10 * p) + digits_value(dl.drop_first()) * 10) by (nonlinear_arith);
    }
}

proof fn lemma_digits_value_below(s: Seq<char>)
    requires
        all_digits(s),
    ensures
        digits_value(s) < pow10(s.len()),
    decreases s.len(),
{
    if s.len() > 0 {
        let dl = s.drop_last();
        assert(all_digits(dl)) by {
            assert forall|i: int| 0 <= i < dl.len() implies is_digit(#[trigger] dl[i]) by {
                assert(dl[i] == s[i]);
            }
        }
        lemma_digits_value_below(dl);
        assert(is_digit(s[s.len() - 1]));
        let v = digits_value(dl);
        let p = pow10(dl.len());
        assert(v * 10 + digit_value(s.last()) < 10 * p) by (nonlinear_arith)
            requires
                v < p,
                digit_value(s.last()) <= 9,
        ;
    }
}

proof fn lemma_digits_drop_first(s: Seq<char>)
    requires
        all_digits(s),
        s.len() > 0,
    ensures
        all_digits(s.drop_first()),
        is_digit(s[0]),
{
    assert(is_digit(s[0]));
    assert forall|i: int| 0 <= i < s.drop_first().len() implies is_digit(#[trigger] s.drop_first()[i]) by {
        assert(s.drop_first()[i] == s[i + 1]);
    }
}

/// Equal-length digit strings: digit-by-digit order is the order of their values.
proof fn lemma_lex_cmp_is_value_order(a: Seq<char>, b: Seq<char>)
    requires
        all_digits(a),
        all_digits(b),
        a.len() == b.len(),
    ensures
        lex_cmp(a, b) == Ordering::Less ==> digits_value(a) < digits_value(b),
        lex_cmp(a, b) == Ordering::Equal ==> digits_value(a) == digits_value(b),
        lex_cmp(a, b) == Ordering::Greater ==> digits_value(a) > digits_value(b),
    decreases a.len(),
{
    if a.len() > 0 {
        lemma_digits_drop_first(a);
        lemma_digits_drop_first(b);
        lemma_lex_cmp_is_value_order(a.drop_first(), b.drop_first());
        lemma_digits_value_front(a);
        lemma_digits_value_front(b);
        lemma_digits_value_below(a.drop_first());
        lemma_digits_value_below(b.drop_first());
        let p = pow10((a.len() - 1) as nat);
        let da = digit_value(a[0]);
        let db = digit_value(b[0]);
        let ra = digits_value(a.drop_first());
        let rb = digits_value(b.drop_first());
        if a[0] < b[0] {
            assert(da < db);
            assert(da * p + ra < db * p + rb) by (nonlinear_arith)
                requires
                    da < db,
                    ra < p,
            ;
        } else if a[0] > b[0] {
            assert(da > db);
            assert(da * p + ra > db * p + rb) by (nonlinear_arith)
                requires
                    da > db,
                    rb < p,
            ;
        } else {
            assert(da == db);
        }
    }
}

/// No leading zero.
pub open spec fn no_leading_zero(s: Seq<char>) -> bool {
    s.len() == 0 || s[0] != '0'
}

proof fn lemma_strip_leading_zeros(t: Seq<char>)
    requires
        all_digits(t),
    ensures
        all_digits(strip_leading_zeros(t)),
        no_leading_zero(strip_leading_zeros(t)),
        digits_value(strip_leading_zeros(t)) == digits_value(t),
    decreases t.len(),
{
    if t.len() > 0 && t[0] == '0' {
        lemma_digits_drop_first(t);
        lemma_strip_leading_zeros(t.drop_first());
        lemma_digits_value_front(t);
        assert(digit_value(t[0]) == 0);
        let p = pow10((t.len() - 1) as nat);
        let d = digit_value(t[0]);
        assert(d * p == 0) by (nonlinear_arith)
            requires
                d == 0,
        ;
        assert(strip_leading_zeros(t) == strip_leading_zeros(t.drop_first()));
    }
}

proof fn lemma_value_at_least(s: Seq<char>)
    requires
        all_digits(s),
        s.len() > 0,
        s[0] != '0',
    ensures
        pow10((s.len() - 1) as nat) <= digits_value(s),
{
    lemma_digits_value_front(s);
    let p = pow10((s.len() - 1) as nat);
    let d = digit_value(s[0]);
    assert(d >= 1);
    assert(d * p >= p) by (nonlinear_arith)
        requires
            d >= 1,
    ;
}

/// For integers written in digits, possibly with leading zeros, the order of
/// their keys is the order of their values.
pub proof fn lemma_integer_keys_order_by_value(t: Seq<char>, u: Seq<char>)
    requires
        all_digits(t),
        all_digits(u),
    ensures
        decimal_cmp(decimal_key(t), decimal_key(u)) == Ordering::Less <==> digits_value(t)
            < digits_value(u),
        decimal_cmp(decimal_key(t), decimal_key(u)) == Ordering::Equal <==> digits_value(t)
            == digits_value(u),
        decimal_cmp(decimal_key(t), decimal_key(u)) == Ordering::Greater <==> digits_value(t)
            > digits_value(u),
{
    lemma_first_index_from_bounds(t, '.', 0);
    lemma_first_index_from_bounds(u, '.', 0);
    if first_index_from(t, '.', 0) >= 0 {
        assert(is_digit(t[first_index_from(t, '.', 0)]));
    }
    if first_index_from(u, '.', 0) >= 0 {
        assert(is_digit(u[first_index_from(u, '.', 0)]));
    }
    let a = strip_leading_zeros(t);
    let b = strip_leading_zeros(u);
    lemma_strip_leading_zeros(t);
    lemma_strip_leading_zeros(u);
    assert(decimal_key(t) == (a, Seq::<char>::empty()));
    assert(decimal_key(u) == (b, Seq::<char>::empty()));
    assert(lex_cmp(Seq::<char>::empty(), Seq::<char>::empty()) == Ordering::Equal);
    lemma_digits_value_below(a);
    lemma_digits_value_below(b);
    if a.len() < b.len() {
        lemma_value_at_least(b);
        lemma_pow10_grows(a.len(), (b.len() - 1) as nat);
    } else if a.len() > b.len() {
        lemma_value_at_least(a);
        lemma_pow10_grows(b.len(), (a.len() - 1) as nat);
    } else {
        lemma_lex_cmp_is_value_order(a, b);
    }
}

/// Digits and a fraction, normalised as `decimal_key` describes.
pub struct Decimal {
    pub whole: Vec<char>,
    pub frac: Vec<char>,
}

impl View for Decimal {
    type V = (Seq<char>, Seq<char>);

    open spec fn view(&self) -> (Seq<char>, Seq<char>) {
        (self.whole@, self.frac@)
    }
}

/// End of the run of digits that starts at `i`.
pub fn run_end(s: &Vec<char>, i: usize) -> (r: usize)
    requires
        i <= s@.len(),
    ensures
        r as int == digit_run_end(s@, i as int),
{
    proof {
        lemma_digit_run_end_bounds(s@, i as int);
    }
    let mut k: usize = i;
    while k < s.len() && is_ascii_digit(s[k])
        invariant
            i <= k <= s@.len(),
            digit_run_end(s@, k as int) == digit_run_end(s@, i as int),
        decreases s@.len() - k,
    {
        k = k + 1;
    }
    k
}

/// End of the number that starts at the digit at `i`.
pub fn number_end_at(s: &Vec<char>, i: usize) -> (r: usize)
    requires
        i < s@.len(),
        is_digit(s@[i as int]),
    ensures
        r as int == number_end(s@, i as int),
        i < r <= s@.len(),
{
    proof {
        lemma_number_end_bounds(s@, i as int);
        lemma_digit_run_end_bounds(s@, i as int);
    }
    let n = s.len();
    let e = run_end(s, i);
    if e < n && s[e] == '.' && e + 1 < n && is_ascii_digit(s[e + 1]) {
        run_end(s, e + 1)
    } else {
        e
    }
}

/// Bounds of the last number written in `s`.
pub fn find_last_number(s: &Vec<char>) -> (r: Option<(usize, usize)>)
    ensures
        r matches Some(p) ==> last_number(s@) == Some((p.0 as int, p.1 as int)),
        r is None ==> last_number(s@) is None,
        r matches Some(p) ==> p.0 < p.1 <= s@.len(),
{
    let mut found: Option<(usize, usize)> = None;
    let mut i: usize = 0;
    while i < s.len()
        invariant
            i <= s@.len(),
            last_number(s@) == last_number_from(
                s@,
                i as int,
                match found {
                    Some(p) => Some((p.0 as int, p.1 as int)),
                    None => None,
                },
            ),
            found matches Some(p) ==> p.0 < p.1 <= s@.len(),
        decreases s@.len() - i,
    {
        if is_ascii_digit(s[i]) {
            let e = number_end_at(s, i);
            found = Some((i, e));
            i = e;
        } else {
            i = i + 1;
        }
    }
    found
}

/// Digits without the zeros that lead them.
pub fn without_leading_zeros(d: &Vec<char>) -> (r: Vec<char>)
    ensures
        r@ == strip_leading_zeros(d@),
{
    let mut i: usize = 0;
    assert(d@.subrange(0, d@.len() as int) =~= d@);
    while i < d.len() && d[i] == '0'
        invariant
            i <= d@.len(),
            strip_leading_zeros(d@) == strip_leading_zeros(d@.subrange(i as int, d@.len() as int)),
        decreases d@.len() - i,
    {
        assert(d@.subrange(i as int, d@.len() as int).drop_first() =~= d@.subrange(
            i + 1,
            d@.len() as int,
        ));
        i = i + 1;
    }
    slice_of(d, i, d.len())
}

/// Digits without the zeros that trail them.
pub fn without_trailing_zeros(d: &Vec<char>) -> (r: Vec<char>)
    ensures
        r@ == strip_trailing_zeros(d@),
{
    let mut n: usize = d.len();
    assert(d@.subrange(0, d@.len() as int) =~= d@);
    while n > 0 && d[n - 1] == '0'
        invariant
            n <= d@.len(),
            strip_trailing_zeros(d@) == strip_trailing_zeros(d@.subrange(0, n as int)),
        decreases n,
    {
        assert(d@.subrange(0, n as int).drop_last() =~= d@.subrange(0, n - 1));
        n = n - 1;
    }
    slice_of(d, 0, n)
}

/// The normalised key of a decimal `digits(.digits)?`.
pub fn decimal_of(t: &Vec<char>) -> (r: Decimal)
    ensures
        r@ == decimal_key(t@),
{
    proof {
        lemma_first_index_from_bounds(t@, '.', 0);
    }
    let n = t.len();
    match first_index(t, '.') {
        None => Decimal { whole: without_leading_zeros(t), frac: Vec::new() },
        Some(dot) => {
            let w = slice_of(t, 0, dot);
            let f = slice_of(t, dot + 1, n);
            Decimal { whole: without_leading_zeros(&w), frac: without_trailing_zeros(&f) }
        },
    }
}

/// Lexicographic comparison of digit strings.
pub fn lex_compare(a: &Vec<char>, b: &Vec<char>) -> (r: Ordering)
    ensures
        r == lex_cmp(a@, b@),
{
    let mut i: usize = 0;
    assert(a@.subrange(0, a@.len() as int) =~= a@);
    assert(b@.subrange(0, b@.len() as int) =~= b@);
    while i < a.len() && i < b.len() && a[i] == b[i]
        invariant
            i <= a@.len(),
            i <= b@.len(),
            lex_cmp(a@, b@) == lex_cmp(
                a@.subrange(i as int, a@.len() as int),
                b@.subrange(i as int, b@.len() as int),
            ),
        decreases a@.len() - i,
    {
        assert(a@.subrange(i as int, a@.len() as int).drop_first() =~= a@.subrange(
            i + 1,
            a@.len() as int,
        ));
        assert(b@.subrange(i as int, b@.len() as int).drop_first() =~= b@.subrange(
            i + 1,
            b@.len() as int,
        ));
        i = i + 1;
    }
    if i == a.len() {
        if i == b.len() {
            Ordering::Equal
        } else {
            Ordering::Less
        }
    } else if i == b.len() {
        Ordering::Greater
    } else if a[i] < b[i] {
        Ordering::Less
    } else {
        Ordering::Greater
    }
}

/// Numeric comparison of two decimal keys.
pub fn decimal_compare(a: &Decimal, b: &Decimal) -> (r: Ordering)
    ensures
        r == decimal_cmp(a@, b@),
{
    if a.whole.len() < b.whole.len() {
        Ordering::Less
    } else if a.whole.len() > b.whole.len() {
        Ordering::Greater
    } else {
        match lex_compare(&a.whole, &b.whole) {
            Ordering::Equal => lex_compare(&a.frac, &b.frac),
            o => o,
        }
    }
}

/// Comparison of optional keys, an absent key last.
pub fn key_compare(a: &Option<Decimal>, b: &Option<Decimal>) -> (r: Ordering)
    ensures
        r == key_cmp(
            match a {
                Some(x) => Some(x@),
                None => None,
            },
            match b {
                Some(x) => Some(x@),
                None => None,
            },
        ),
{
    match (a, b) {
        (Some(x), Some(y)) => decimal_compare(x, y),
        (Some(_), None) => Ordering::Less,
        (None, Some(_)) => Ordering::Greater,
        (None, None) => Ordering::Equal,
    }
}

} // verus!
