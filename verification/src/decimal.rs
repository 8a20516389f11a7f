//! Decimal text: integers rendered in base ten, and decimal prices read
//! into fixed-point millionths.
use vstd::prelude::*;
use vstd::string::*;

verus! {

/// `c` is an ASCII decimal digit.
pub open spec fn is_digit(c: char) -> bool {
    '0' <= c && c <= '9'
}

/// The value of the digit `c`.
pub open spec fn digit_value(c: char) -> int {
    (c as int) - ('0' as int)
}

/// Every character of `s` is a decimal digit.
pub open spec fn all_digits(s: Seq<char>) -> bool {
    forall|i: int| 0 <= i < s.len() ==> is_digit(#[trigger] s[i])
}

/// The number that the digits `s` spell in base ten (0 for no digits).
pub open spec fn digits_value(s: Seq<char>) -> int
    decreases s.len(),
{
    if s.len() == 0 {
        0
    } else {
        digits_value(s.drop_last()) * 10 + digit_value(s.last())
    }
}

/// The digit character for `d < 10`.
pub open spec fn digit_char(d: int) -> char {
    (('0' as int) + d) as char
}

/// The base-ten digits of `n`, most significant first, without leading zeros.
pub open spec fn decimal_digits(n: nat) -> Seq<char>
    decreases n,
{
    if n < 10 {
        seq![digit_char(n as int)]
    } else {
        decimal_digits(n / 10) + seq![digit_char((n % 10) as int)]
    }
}

/// The base-ten text of `v`: a minus sign for negative values, then its digits.
pub open spec fn decimal_text(v: int) -> Seq<char> {
    if v < 0 {
        seq!['-'] + decimal_digits((-v) as nat)
    } else {
        decimal_digits(v as nat)
    }
}

/// `10` to the power `n`.
pub open spec fn pow10(n: nat) -> int
    decreases n,
{
    if n == 0 {
        1
    } else {
        10 * pow10((n - 1) as nat)
    }
}

/// Position of the first `'.'` in `s`, or `s.len()` when there is none.
pub open spec fn first_dot(s: Seq<char>) -> int
    decreases s.len(),
{
    if s.len() == 0 {
        0
    } else if s[0] == '.' {
        0
    } else {
        1 + first_dot(s.drop_first())
    }
}

/// `s` with a leading `'+'` or `'-'` taken off.
pub open spec fn unsigned_part(s: Seq<char>) -> Seq<char> {
    if s.len() > 0 && (s[0] == '-' || s[0] == '+') {
        s.drop_first()
    } else {
        s
    }
}

/// Position of the first exponent mark (`'e'` or `'E'`) in `s`, or
/// `s.len()` when there is none.
pub open spec fn first_exp_mark(s: Seq<char>) -> int
    decreases s.len(),
{
    if s.len() == 0 {
        0
    } else if s[0] == 'e' || s[0] == 'E' {
        0
    } else {
        1 + first_exp_mark(s.drop_first())
    }
}

/// The text before the exponent mark, sign taken off: digits with an
/// optional point.
pub open spec fn mantissa_text(s: Seq<char>) -> Seq<char> {
    unsigned_part(s).take(first_exp_mark(unsigned_part(s)))
}

/// Digits before the decimal point.
pub open spec fn integer_digits(s: Seq<char>) -> Seq<char> {
    mantissa_text(s).take(first_dot(mantissa_text(s)))
}

/// Digits after the decimal point (none when there is no point).
pub open spec fn fraction_digits(s: Seq<char>) -> Seq<char> {
    let m = mantissa_text(s);
    let d = first_dot(m);
    if d < m.len() {
        m.skip(d + 1)
    } else {
        Seq::empty()
    }
}

/// `s` has an exponent part.
pub open spec fn has_exponent(s: Seq<char>) -> bool {
    first_exp_mark(unsigned_part(s)) < unsigned_part(s).len()
}

/// The text after the exponent mark (empty when there is none).
pub open spec fn exponent_text(s: Seq<char>) -> Seq<char> {
    let u = unsigned_part(s);
    if has_exponent(s) {
        u.skip(first_exp_mark(u) + 1)
    } else {
        Seq::empty()
    }
}

/// The value of the exponent (0 when there is none).
pub open spec fn exponent_value(s: Seq<char>) -> int {
    let t = exponent_text(s);
    let d = digits_value(unsigned_part(t));
    if t.len() > 0 && t[0] == '-' {
        -d
    } else {
        d
    }
}

/// `s` is a decimal number: an optional sign, digits with an optional point
/// and at least one digit in all, then optionally `e` or `E`, an optional
/// sign and at least one digit (`"0.25"`, `"-3"`, `".5"`, `"7."`,
/// `"1.5e-7"`).
pub open spec fn is_decimal(s: Seq<char>) -> bool {
    &&& all_digits(integer_digits(s))
    &&& all_digits(fraction_digits(s))
    &&& integer_digits(s).len() + fraction_digits(s).len() > 0
    &&& has_exponent(s) ==> unsigned_part(exponent_text(s)).len() > 0 && all_digits(
        unsigned_part(exponent_text(s)),
    )
}

/// The digits `d` (read as a whole number) times ten to the power `k`,
/// rounded to a whole number, halves away from zero.
pub open spec fn scaled_rounded(d: int, k: int) -> int {
    if k >= 0 {
        d * pow10(k as nat)
    } else {
        (d + 5 * pow10((-k - 1) as nat)) / pow10((-k) as nat)
    }
}

/// The value of the decimal `s` in millionths, rounded to the nearest
/// millionth, halves away from zero.
pub open spec fn decimal_value_micros(s: Seq<char>) -> int {
    let f = fraction_digits(s);
    let m = scaled_rounded(
        digits_value(integer_digits(s) + f),
        6 + exponent_value(s) - f.len(),
    );
    if s.len() > 0 && s[0] == '-' {
        -m
    } else {
        m
    }
}

/// What reading `s` as a price gives: its value rounded to millionths when
/// `s` is a decimal and that fits an `i64`, nothing otherwise.
pub open spec fn parse_micros_spec(s: Seq<char>) -> Option<i64> {
    if is_decimal(s) && i64::MIN <= decimal_value_micros(s) <= i64::MAX {
        Some(decimal_value_micros(s) as i64)
    } else {
        None
    }
}

proof fn lemma_digits_value_nonneg(s: Seq<char>)
    requires
        all_digits(s),
    ensures
        digits_value(s) >= 0,
    decreases s.len(),
{
    if s.len() > 0 {
        lemma_digits_value_nonneg(s.drop_last());
    }
}

proof fn lemma_digits_value_bound(s: Seq<char>)
    requires
        all_digits(s),
    ensures
        0 <= digits_value(s) < pow10(s.len()),
    decreases s.len(),
{
    if s.len() > 0 {
        lemma_digits_value_bound(s.drop_last());
    }
}

proof fn lemma_digits_value_grows(s: Seq<char>, k: int)
    requires
        all_digits(s),
        0 <= k <= s.len(),
    ensures
        digits_value(s.take(k)) <= digits_value(s),
    decreases s.len() - k,
{
    if k < s.len() {
        lemma_digits_value_grows(s, k + 1);
        assert(s.take(k + 1).drop_last() =~= s.take(k));
        lemma_digits_value_nonneg(s.take(k));
    } else {
        assert(s.take(k) =~= s);
    }
}

proof fn lemma_first_dot(s: Seq<char>)
    ensures
        0 <= first_dot(s) <= s.len(),
        forall|i: int| 0 <= i < first_dot(s) ==> s[i] != '.',
        first_dot(s) < s.len() ==> s[first_dot(s)] == '.',
    decreases s.len(),
{
    if s.len() > 0 && s[0] != '.' {
        lemma_first_dot(s.drop_first());
        assert forall|i: int| 0 <= i < first_dot(s) implies s[i] != '.' by {
            if i > 0 {
                assert(s[i] == s.drop_first()[i - 1]);
            }
        }
    }
}

proof fn lemma_first_dot_unique(s: Seq<char>, d: int)
    requires
        0 <= d <= s.len(),
        forall|i: int| 0 <= i < d ==> s[i] != '.',
        d < s.len() ==> s[d] == '.',
    ensures
        first_dot(s) == d,
{
    lemma_first_dot(s);
    if first_dot(s) < d {
        assert(s[first_dot(s)] == '.');
    }
    if d < first_dot(s) {
        assert(s[d] != '.');
    }
}

proof fn lemma_decimal_digits_shape(n: nat)
    ensures
        decimal_digits(n).len() >= 1,
        (decimal_digits(n).len() == 1) == (n < 10),
        is_digit(decimal_digits(n)[0]),
    decreases n,
{
    if n >= 10 {
        lemma_decimal_digits_shape(n / 10);
        assert(decimal_digits(n)[0] == decimal_digits(n / 10)[0]);
    }
}

proof fn lemma_digit_char_injective(a: int, b: int)
    requires
        0 <= a < 10,
        0 <= b < 10,
        digit_char(a) == digit_char(b),
    ensures
        a == b,
{
    assert(digit_char(a) as int == 48 + a);
    assert(digit_char(b) as int == 48 + b);
}

/// Different numbers have different base-ten digits.
pub proof fn lemma_decimal_digits_injective(a: nat, b: nat)
    requires
        decimal_digits(a) == decimal_digits(b),
    ensures
        a == b,
    decreases a,
{
    lemma_decimal_digits_shape(a);
    lemma_decimal_digits_shape(b);
    let s = decimal_digits(a);
    if a < 10 {
        assert(b < 10);
        assert(s[0] == digit_char(a as int));
        lemma_digit_char_injective(a as int, b as int);
    } else {
        assert(b >= 10);
        let pa = decimal_digits(a / 10);
        let pb = decimal_digits(b / 10);
        assert(s =~= pa + seq![digit_char((a % 10) as int)]);
        assert(s =~= pb + seq![digit_char((b % 10) as int)]);
        assert(s.last() == digit_char((a % 10) as int));
        assert(s.last() == digit_char((b % 10) as int));
        lemma_digit_char_injective((a % 10) as int, (b % 10) as int);
        assert(pa =~= s.drop_last());
        assert(pb =~= s.drop_last());
        lemma_decimal_digits_injective(a / 10, b / 10);
    }
}

/// Different integers have different base-ten texts.
pub proof fn lemma_decimal_text_injective(a: int, b: int)
    requires
        decimal_text(a) == decimal_text(b),
    ensures
        a == b,
{
    if a < 0 && b < 0 {
        assert(decimal_digits((-a) as nat) =~= decimal_text(a).drop_first());
        assert(decimal_digits((-b) as nat) =~= decimal_text(b).drop_first());
        lemma_decimal_digits_injective((-a) as nat, (-b) as nat);
    } else if a >= 0 && b >= 0 {
        lemma_decimal_digits_injective(a as nat, b as nat);
    } else if a < 0 {
        lemma_decimal_digits_shape(b as nat);
        assert(decimal_text(a)[0] == '-');
    } else {
        lemma_decimal_digits_shape(a as nat);
        assert(decimal_text(b)[0] == '-');
    }
}

/// The text of the single digit `d`.
fn digit_str(d: u64) -> (r: &'static str)
    requires
        d < 10,
    ensures
        r@ == seq![digit_char(d as int)],
{
    proof {
        reveal_strlit("0");
        reveal_strlit("1");
        reveal_strlit("2");
        reveal_strlit("3");
        reveal_strlit("4");
        reveal_strlit("5");
        reveal_strlit("6");
        reveal_strlit("7");
        reveal_strlit("8");
        reveal_strlit("9");
    }
    let r = if d == 0 {
        "0"
    } else if d == 1 {
        "1"
    } else if d == 2 {
        "2"
    } else if d == 3 {
        "3"
    } else if d == 4 {
        "4"
    } else if d == 5 {
        "5"
    } else if d == 6 {
        "6"
    } else if d == 7 {
        "7"
    } else if d == 8 {
        "8"
    } else {
        "9"
    };
    assert(r@ =~= seq![digit_char(d as int)]);
    r
}

/// Appends the base-ten digits of `n` to `s`.
fn push_decimal_digits(s: &mut String, n: u64)
    ensures
        final(s)@ == old(s)@ + decimal_digits(n as nat),
    decreases n,
{
    if n >= 10 {
        push_decimal_digits(s, n / 10);
    }
    s.append(digit_str(n % 10));
    proof {
        if n >= 10 {
            assert(old(s)@ + decimal_digits((n / 10) as nat) + seq![digit_char((n % 10) as int)]
                =~= old(s)@ + decimal_digits(n as nat));
        } else {
            assert(n % 10 == n);
            assert(old(s)@ + seq![digit_char((n % 10) as int)] =~= old(s)@ + decimal_digits(
                n as nat,
            ));
        }
    }
}

/// The base-ten text of `v`, as `format!("{}", v)` writes it.
pub fn i64_to_decimal(v: i64) -> (s: String)
    ensures
        s@ == decimal_text(v as int),
{
    let mut s = String::new();
    if v < 0 {
        proof {
            reveal_strlit("-");
        }
        s.append("-");
        let magnitude: u64 = (-(v as i128)) as u64;
        push_decimal_digits(&mut s, magnitude);
    } else {
        push_decimal_digits(&mut s, v as u64);
    }
    s
}

/// The characters of `s`, one per element.
pub fn chars_of(s: &str) -> (v: Vec<char>)
    ensures
        v@ == s@,
{
    let n = s.unicode_len();
    let mut v: Vec<char> = Vec::new();
    let mut i: usize = 0;
    while i < n
        invariant
            n == s@.len(),
            i <= n,
            v@ == s@.take(i as int),
        decreases n - i,
    {
        v.push(s.get_char(i));
        i = i + 1;
        assert(v@ =~= s@.take(i as int));
    }
    assert(s@.take(n as int) =~= s@);
    v
}

/// The value of the digits `v[from..to]`, when they are all digits and the
/// value does not pass `limit`.
fn digits_in(v: &Vec<char>, from: usize, to: usize, limit: i128) -> (r: Option<i128>)
    requires
        from <= to <= v@.len(),
        0 <= limit <= 1_000_000_000_000_000_000_000,
    ensures
        r matches Some(x) ==> all_digits(v@.subrange(from as int, to as int)) && x == digits_value(
            v@.subrange(from as int, to as int),
        ) && 0 <= x <= limit,
        r is None ==> !all_digits(v@.subrange(from as int, to as int)) || digits_value(
            v@.subrange(from as int, to as int),
        ) > limit,
{
    let mut acc: i128 = 0;
    let mut i: usize = from;
    while i < to
        invariant
            from <= i <= to <= v@.len(),
            0 <= limit <= 1_000_000_000_000_000_000_000,
            all_digits(v@.subrange(from as int, i as int)),
            acc == digits_value(v@.subrange(from as int, i as int)),
            0 <= acc <= limit,
        decreases to - i,
    {
        let c = v[i];
        let ghost before = v@.subrange(from as int, i as int);
        let ghost after = v@.subrange(from as int, i + 1);
        assert(after.drop_last() =~= before);
        if !('0' <= c && c <= '9') {
            proof {
                assert(after[after.len() - 1] == c);
                let whole = v@.subrange(from as int, to as int);
                assert(whole[i - from] == c);
            }
            return None;
        }
        let d: i128 = (c as u32 - '0' as u32) as i128;
        acc = acc * 10 + d;
        assert(all_digits(after)) by {
            assert forall|j: int| 0 <= j < after.len() implies is_digit(#[trigger] after[j]) by {
                if j < before.len() {
                    assert(after[j] == before[j]);
                }
            }
        }
        if acc > limit {
            proof {
                let whole = v@.subrange(from as int, to as int);
                if all_digits(whole) {
                    lemma_digits_value_grows(whole, (i + 1 - from) as int);
                    assert(whole.take((i + 1 - from) as int) =~= after);
                }
            }
            return None;
        }
        i = i + 1;
    }
    Some(acc)
}

proof fn lemma_first_exp_mark(s: Seq<char>)
    ensures
        0 <= first_exp_mark(s) <= s.len(),
        forall|i: int| 0 <= i < first_exp_mark(s) ==> s[i] != 'e' && s[i] != 'E',
        first_exp_mark(s) < s.len() ==> (s[first_exp_mark(s)] == 'e' || s[first_exp_mark(s)]
            == 'E'),
    decreases s.len(),
{
    if s.len() > 0 && s[0] != 'e' && s[0] != 'E' {
        lemma_first_exp_mark(s.drop_first());
        assert forall|i: int| 0 <= i < first_exp_mark(s) implies s[i] != 'e' && s[i] != 'E' by {
            if i > 0 {
                assert(s[i] == s.drop_first()[i - 1]);
            }
        }
    }
}

proof fn lemma_first_exp_mark_unique(s: Seq<char>, d: int)
    requires
        0 <= d <= s.len(),
        forall|i: int| 0 <= i < d ==> s[i] != 'e' && s[i] != 'E',
        d < s.len() ==> (s[d] == 'e' || s[d] == 'E'),
    ensures
        first_exp_mark(s) == d,
{
    lemma_first_exp_mark(s);
    if first_exp_mark(s) < d {
        let f = first_exp_mark(s);
        assert(s[f] == 'e' || s[f] == 'E');
    }
    if d < first_exp_mark(s) {
        assert(s[d] != 'e' && s[d] != 'E');
    }
}

proof fn lemma_pow10_mono(a: nat, b: nat)
    requires
        a <= b,
    ensures
        0 < pow10(a) <= pow10(b),
    decreases b,
{
    lemma_pow10_pos(a);
    if a < b {
        lemma_pow10_mono(a, (b - 1) as nat);
    }
}

proof fn lemma_pow10_exceeds(n: nat)
    ensures
        pow10(n) > n,
    decreases n,
{
    if n > 0 {
        lemma_pow10_exceeds((n - 1) as nat);
    }
}

proof fn lemma_digits_value_concat(a: Seq<char>, b: Seq<char>)
    ensures
        digits_value(a + b) == digits_value(a) * pow10(b.len()) + digits_value(b),
    decreases b.len(),
{
    if b.len() == 0 {
        assert(a + b =~= a);
    } else {
        lemma_digits_value_concat(a, b.drop_last());
        assert((a + b).drop_last() =~= a + b.drop_last());
        assert((a + b).last() == b.last());
        let x = digits_value(a);
        let p = pow10(b.drop_last().len());
        assert((x * p + digits_value(b.drop_last())) * 10 + digit_value(b.last()) == x * (10 * p)
            + (digits_value(b.drop_last()) * 10 + digit_value(b.last()))) by (nonlinear_arith);
    }
}

/// Rounding `q * p + r` (with `r < p`) at `10 * p` is rounding `q` at ten.
proof fn lemma_round_at(q: int, r: int, p: int)
    requires
        q >= 0,
        p > 0,
        0 <= r < p,
    ensures
        (q * p + r + 5 * p) / (10 * p) == (q + 5) / 10,
{
    let a = (q + 5) / 10;
    let b = (q + 5) % 10;
    assert(q + 5 == 10 * a + b && 0 <= b < 10);
    assert(q * p + r + 5 * p == a * (10 * p) + (b * p + r)) by (nonlinear_arith)
        requires
            q + 5 == 10 * a + b,
    ;
    assert(0 <= b * p + r < 10 * p) by (nonlinear_arith)
        requires
            0 <= b < 10,
            p > 0,
            0 <= r < p,
    ;
    vstd::arithmetic::div_mod::lemma_fundamental_div_mod_converse(
        q * p + r + 5 * p,
        10 * p,
        a,
        b * p + r,
    );
}

/// Whether `v[from..to]` are all digits.
fn all_digits_between(v: &Vec<char>, from: usize, to: usize) -> (r: bool)
    requires
        from <= to <= v@.len(),
    ensures
        r == all_digits(v@.subrange(from as int, to as int)),
{
    let mut i: usize = from;
    while i < to
        invariant
            from <= i <= to <= v@.len(),
            forall|j: int| from <= j < i ==> is_digit(v@[j]),
        decreases to - i,
    {
        if !('0' <= v[i] && v[i] <= '9') {
            proof {
                assert(v@.subrange(from as int, to as int)[i - from] == v@[i as int]);
            }
            return false;
        }
        i = i + 1;
    }
    proof {
        assert forall|j: int| 0 <= j < to - from implies is_digit(
            #[trigger] v@.subrange(from as int, to as int)[j],
        ) by {
            assert(v@.subrange(from as int, to as int)[j] == v@[from + j]);
        }
    }
    true
}

/// `v[from..to]` followed by `v[from2..to2]`, as a new vector.
fn concat_ranges(v: &Vec<char>, from: usize, to: usize, from2: usize, to2: usize) -> (r: Vec<char>)
    requires
        from <= to <= v@.len(),
        from2 <= to2 <= v@.len(),
    ensures
        r@ == v@.subrange(from as int, to as int) + v@.subrange(from2 as int, to2 as int),
{
    let mut r: Vec<char> = Vec::new();
    let mut i: usize = from;
    while i < to
        invariant
            from <= i <= to <= v@.len(),
            r@ == v@.subrange(from as int, i as int),
        decreases to - i,
    {
        r.push(v[i]);
        i = i + 1;
        assert(r@ =~= v@.subrange(from as int, i as int));
    }
    let mut j: usize = from2;
    while j < to2
        invariant
            from <= to <= v@.len(),
            from2 <= j <= to2 <= v@.len(),
            r@ == v@.subrange(from as int, to as int) + v@.subrange(from2 as int, j as int),
        decreases to2 - j,
    {
        r.push(v[j]);
        j = j + 1;
        assert(r@ =~= v@.subrange(from as int, to as int) + v@.subrange(from2 as int, j as int));
    }
    r
}

/// The digits `ds` (read as a whole number) times ten to the power `k >= 0`;
/// nothing when that passes 10^19.
fn scaled_up(ds: &Vec<char>, k: i128) -> (r: Option<i128>)
    requires
        all_digits(ds@),
        0 <= k <= 1_000_000_000_000_000_000_000,
    ensures
        r matches Some(x) ==> x == scaled_rounded(digits_value(ds@), k as int) && 0 <= x
            <= 100_000_000_000_000_000_000_000_000_000_000_000_000,
        r is None ==> scaled_rounded(digits_value(ds@), k as int) > 10_000_000_000_000_000_000,
{
    let n = ds.len();
    let ghost d = digits_value(ds@);
    proof {
        assert(ds@.subrange(0, n as int) =~= ds@);
        lemma_digits_value_nonneg(ds@);
        lemma_pow10_pos(k as nat);
    }
    match digits_in(ds, 0, n, 10_000_000_000_000_000_000) {
        None => {
            proof {
                assert(d * pow10(k as nat) >= d) by (nonlinear_arith)
                    requires
                        d >= 0,
                        pow10(k as nat) >= 1,
                ;
            }
            None
        },
        Some(x) => {
            if x == 0 {
                Some(0)
            } else if k > 19 {
                proof {
                    lemma_pow10_19();
                    lemma_pow10_mono(20, k as nat);
                    assert(pow10(20) == 10 * pow10(19));
                    assert(d * pow10(k as nat) >= pow10(k as nat)) by (nonlinear_arith)
                        requires
                            d >= 1,
                            pow10(k as nat) >= 1,
                    ;
                }
                None
            } else {
                let p = pow10_exec(k as usize);
                proof {
                    assert(x * p <= 10_000_000_000_000_000_000 * 10_000_000_000_000_000_000)
                        by (nonlinear_arith)
                        requires
                            0 <= x <= 10_000_000_000_000_000_000,
                            0 < p <= 10_000_000_000_000_000_000,
                    ;
                    assert(0 <= x * p) by (nonlinear_arith)
                        requires
                            0 <= x,
                            0 < p,
                    ;
                }
                Some(x * p)
            }
        },
    }
}

/// The digits of `v`, read as `q * 10^(v.len() - keep) + r` with `q` the
/// first `keep` digits: rounding at `10^(v.len() - keep + 1)` is rounding `q`
/// at ten.
proof fn lemma_round_prefix(ds: Seq<char>, keep: int)
    requires
        all_digits(ds),
        0 <= keep <= ds.len(),
    ensures
        ({
            let p = pow10((ds.len() - keep) as nat);
            (digits_value(ds) + 5 * p) / (10 * p) == (digits_value(ds.subrange(0, keep)) + 5) / 10
        }),
{
    let head = ds.subrange(0, keep);
    let tail = ds.subrange(keep, ds.len() as int);
    assert(ds =~= head + tail);
    assert(all_digits(head)) by {
        assert forall|j: int| 0 <= j < head.len() implies is_digit(#[trigger] head[j]) by {
            assert(head[j] == ds[j]);
        }
    }
    assert(all_digits(tail)) by {
        assert forall|j: int| 0 <= j < tail.len() implies is_digit(#[trigger] tail[j]) by {
            assert(tail[j] == ds[keep + j]);
        }
    }
    let q = digits_value(head);
    let r = digits_value(tail);
    let p = pow10(tail.len());
    lemma_digits_value_concat(head, tail);
    lemma_digits_value_bound(tail);
    lemma_digits_value_nonneg(head);
    lemma_round_at(q, r, p);
}

/// The digits `ds` (read as a whole number) divided by ten to the power
/// `m >= 1`, rounded halves away from zero; nothing when that passes 10^19.
fn scaled_down(ds: &Vec<char>, m: i128) -> (r: Option<i128>)
    requires
        all_digits(ds@),
        1 <= m <= 1_000_000_000_000_000_000_000,
    ensures
        r matches Some(x) ==> x == scaled_rounded(digits_value(ds@), -m) && 0 <= x
            <= 100_000_000_000_000_000_000_000_000_000_000_000_000,
        r is None ==> scaled_rounded(digits_value(ds@), -m) > 10_000_000_000_000_000_000,
{
    let n = ds.len();
    let ghost d = digits_value(ds@);
    proof {
        lemma_digits_value_nonneg(ds@);
        assert(pow10(m as nat) == 10 * pow10((m - 1) as nat));
    }
    if m - 1 >= n as i128 {
        proof {
            let p = pow10((m - 1) as nat);
            lemma_digits_value_bound(ds@);
            lemma_pow10_mono(n as nat, (m - 1) as nat);
            lemma_round_at(0, d, p);
            assert(0 * p + d + 5 * p == d + 5 * p);
        }
        Some(0)
    } else {
        let keep: usize = n - (m - 1) as usize;
        proof {
            lemma_round_prefix(ds@, keep as int);
            assert(ds@.subrange(0, keep as int) == ds@.subrange(0, keep as int));
        }
        match digits_in(ds, 0, keep, 1_000_000_000_000_000_000_000) {
            None => None,
            Some(q) => Some((q + 5) / 10),
        }
    }
}

/// The magnitude of a decimal whose digits are `ds`, whose fraction has
/// `frac_len` digits and whose exponent is `ev`: `exp` holds the exponent's
/// digits read when they stay within 10^20.
fn decimal_magnitude(
    ds: &Vec<char>,
    exp: Option<i128>,
    exp_negative: bool,
    frac_len: usize,
    Ghost(ev): Ghost<int>,
) -> (r: Option<i128>)
    requires
        all_digits(ds@),
        exp matches Some(e) ==> 0 <= e <= 100_000_000_000_000_000_000 && ev == (if exp_negative {
            -(e as int)
        } else {
            e as int
        }),
        exp is None ==> (if exp_negative {
            ev < -100_000_000_000_000_000_000
        } else {
            ev > 100_000_000_000_000_000_000
        }),
    ensures
        r matches Some(x) ==> x == scaled_rounded(digits_value(ds@), 6 + ev - frac_len) && 0 <= x
            <= 100_000_000_000_000_000_000_000_000_000_000_000_000,
        r is None ==> scaled_rounded(digits_value(ds@), 6 + ev - frac_len)
            > 10_000_000_000_000_000_000,
{
    let ghost d = digits_value(ds@);
    let ghost k = 6 + ev - frac_len;
    proof {
        assert(ds@.subrange(0, ds@.len() as int) =~= ds@);
        lemma_digits_value_nonneg(ds@);
    }
    match exp {
        Some(e) => {
            let e_signed: i128 = if exp_negative {
                -e
            } else {
                e
            };
            let k: i128 = 6 + e_signed - frac_len as i128;
            if k >= 0 {
                scaled_up(ds, k)
            } else {
                scaled_down(ds, -k)
            }
        },
        None => {
            let len = ds.len();
            if exp_negative {
                proof {
                    assert(ds@.len() == len);
                    let p = pow10((-k - 1) as nat);
                    lemma_digits_value_bound(ds@);
                    lemma_pow10_mono(ds@.len(), (-k - 1) as nat);
                    lemma_round_at(0, d, p);
                    assert(0 * p + d + 5 * p == d + 5 * p);
                    assert(pow10((-k) as nat) == 10 * p);
                }
                Some(0)
            } else {
                match digits_in(ds, 0, ds.len(), 0) {
                    Some(_) => Some(0),
                    None => {
                        proof {
                            lemma_pow10_exceeds(k as nat);
                            lemma_pow10_pos(k as nat);
                            assert(d * pow10(k as nat) >= pow10(k as nat)) by (nonlinear_arith)
                                requires
                                    d >= 1,
                                    pow10(k as nat) >= 1,
                            ;
                        }
                        None
                    },
                }
            }
        },
    }
}

/// The exponent after the mark at `e_pos`: whether it is negative and where
/// its digits start, when it is an optional sign followed by digits.
fn exponent_part(v: &Vec<char>, e_pos: usize) -> (r: Option<(bool, usize)>)
    requires
        e_pos < v@.len(),
    ensures
        ({
            let t = v@.subrange(e_pos + 1, v@.len() as int);
            &&& r matches Some((neg, from)) ==> {
                &&& e_pos < from < v@.len()
                &&& unsigned_part(t) == v@.subrange(from as int, v@.len() as int)
                &&& neg == (t.len() > 0 && t[0] == '-')
                &&& all_digits(unsigned_part(t))
            }
            &&& r is None ==> !(unsigned_part(t).len() > 0 && all_digits(unsigned_part(t)))
        }),
{
    let n = v.len();
    let es = e_pos + 1;
    let neg = es < n && v[es] == '-';
    let from: usize = if es < n && (v[es] == '-' || v[es] == '+') {
        es + 1
    } else {
        es
    };
    proof {
        let t = v@.subrange(es as int, n as int);
        assert(unsigned_part(t) =~= v@.subrange(from as int, n as int));
    }
    if from >= n || !all_digits_between(v, from, n) {
        return None;
    }
    Some((neg, from))
}

/// Reads a decimal price such as `"0.25"` or `"1.5e-3"` into millionths
/// (`250_000`, `1_500`), rounded to the nearest millionth, halves away from
/// zero. Gives `None` for text that is not a decimal, or whose value does
/// not fit an `i64` in millionths.
#[verifier::rlimit(30)]
pub fn parse_micros(text: &str) -> (r: Option<i64>)
    ensures
        r == parse_micros_spec(text@),
{
    let v = chars_of(text);
    let n = v.len();
    let ghost s = text@;
    let negative = n > 0 && v[0] == '-';
    let start: usize = if n > 0 && (v[0] == '-' || v[0] == '+') {
        1
    } else {
        0
    };
    let ghost u = unsigned_part(s);
    assert(u =~= s.subrange(start as int, n as int));
    // the exponent mark
    let mut e_pos: usize = start;
    while e_pos < n && v[e_pos] != 'e' && v[e_pos] != 'E'
        invariant
            start <= e_pos <= n,
            n == v@.len(),
            v@ == s,
            forall|i: int| start <= i < e_pos ==> s[i] != 'e' && s[i] != 'E',
        decreases n - e_pos,
    {
        e_pos = e_pos + 1;
    }
    proof {
        lemma_first_exp_mark_unique(u, e_pos - start);
    }
    let ghost mt = mantissa_text(s);
    assert(mt =~= s.subrange(start as int, e_pos as int));
    // the point
    let mut dot: usize = start;
    while dot < e_pos && v[dot] != '.'
        invariant
            start <= dot <= e_pos <= n,
            n == v@.len(),
            v@ == s,
            forall|i: int| start <= i < dot ==> s[i] != '.',
        decreases e_pos - dot,
    {
        dot = dot + 1;
    }
    proof {
        lemma_first_dot_unique(mt, dot - start);
        assert(integer_digits(s) =~= v@.subrange(start as int, dot as int));
    }
    let frac_from: usize = if dot < e_pos {
        dot + 1
    } else {
        e_pos
    };
    proof {
        assert(fraction_digits(s) =~= v@.subrange(frac_from as int, e_pos as int));
    }
    let frac_len: usize = e_pos - frac_from;
    if dot - start + frac_len == 0 {
        return None;
    }
    if !all_digits_between(&v, start, dot) || !all_digits_between(&v, frac_from, e_pos) {
        return None;
    }
    // the exponent
    let mut exp_negative = false;
    let mut exp_from: usize = n;
    if e_pos < n {
        proof {
            assert(exponent_text(s) =~= v@.subrange(e_pos + 1, n as int));
        }
        match exponent_part(&v, e_pos) {
            Some((neg, from)) => {
                exp_negative = neg;
                exp_from = from;
            },
            None => return None,
        }
    } else {
        proof {
            assert(exponent_text(s) =~= Seq::<char>::empty());
            assert(unsigned_part(exponent_text(s)) =~= Seq::<char>::empty());
        }
    }
    let ds = concat_ranges(&v, start, dot, frac_from, e_pos);
    proof {
        assert(is_decimal(s));
        let a = integer_digits(s);
        let b = fraction_digits(s);
        assert forall|j: int| 0 <= j < ds@.len() implies is_digit(#[trigger] ds@[j]) by {
            if j < a.len() {
                assert(ds@[j] == a[j]);
            } else {
                assert(ds@[j] == b[j - a.len()]);
            }
        }
    }
    let exp_value = digits_in(&v, exp_from, n, 100_000_000_000_000_000_000);
    let magnitude = decimal_magnitude(&ds, exp_value, exp_negative, frac_len, Ghost(exponent_value(s)));
    let m = match magnitude {
        Some(x) => x,
        None => return None,
    };
    let value: i128 = if negative {
        -m
    } else {
        m
    };
    proof {
        assert(negative == (s.len() > 0 && s[0] == '-'));
        assert(value == decimal_value_micros(s));
    }
    if value < i64::MIN as i128 || value > i64::MAX as i128 {
        return None;
    }
    Some(value as i64)
}

proof fn lemma_pow10_pos(n: nat)
    ensures
        pow10(n) > 0,
    decreases n,
{
    if n > 0 {
        lemma_pow10_pos((n - 1) as nat);
    }
}

proof fn lemma_pow10_19()
    ensures
        pow10(19) == 10_000_000_000_000_000_000,
{
    reveal_with_fuel(pow10, 20);
}

/// `10` to the power `n`, for `n <= 19`.
fn pow10_exec(n: usize) -> (r: i128)
    requires
        n <= 19,
    ensures
        r == pow10(n as nat),
        0 < r <= 10_000_000_000_000_000_000,
{
    proof {
        lemma_pow10_19();
    }
    let mut r: i128 = 1;
    let mut i: usize = 0;
    while i < n
        invariant
            i <= n <= 19,
            r == pow10(i as nat),
            pow10(19) == 10_000_000_000_000_000_000,
        decreases n - i,
    {
        proof {
            lemma_pow10_mono((i + 1) as nat, 19);
        }
        r = r * 10;
        i = i + 1;
    }
    proof {
        lemma_pow10_mono(n as nat, 19);
    }
    r
}

} // verus!
