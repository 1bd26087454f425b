//! Volume validation: the request text is read as a decimal number the
//! way `f32::from_str` reads one, and the value must lie between 0 and
//! 10 inclusive.  Not-a-number and infinite spellings are rejected, as
//! is anything out of range; text that is no number at all is told
//! apart so the caller can drop it silently, as the original command
//! path did.

use vstd::prelude::*;

use crate::text::{chars_vec, spec_strip_spaces, string_from_chars, strip_spaces, subvec};

verus! {

/// Ten to the power `n`.
pub open spec fn pow10(n: nat) -> nat
    decreases n,
{
    if n == 0 {
        1
    } else {
        10 * pow10((n - 1) as nat)
    }
}

proof fn lemma_pow10_pos(n: nat)
    ensures
        pow10(n) >= 1,
    decreases n,
{
    if n > 0 {
        lemma_pow10_pos((n - 1) as nat);
    }
}

proof fn lemma_pow10_adds(a: nat, b: nat)
    ensures
        pow10(a + b) == pow10(a) * pow10(b),
    decreases a,
{
    if a == 0 {
        assert(pow10(b) == 1 * pow10(b));
    } else {
        lemma_pow10_adds((a - 1) as nat, b);
        assert(pow10(a + b) == 10 * pow10((a + b - 1) as nat));
        assert(pow10((a - 1) as nat + b) == pow10((a - 1) as nat) * pow10(b));
        assert(10 * (pow10((a - 1) as nat) * pow10(b)) == (10 * pow10((a - 1) as nat)) * pow10(b))
            by (nonlinear_arith);
    }
}

proof fn lemma_pow10_monotone(a: nat, b: nat)
    requires
        a <= b,
    ensures
        pow10(a) <= pow10(b),
    decreases b,
{
    if a < b {
        lemma_pow10_monotone(a, (b - 1) as nat);
        lemma_pow10_pos(a);
    }
}

/// The numeric value of a digit character.
pub open spec fn digit_val(c: char) -> int {
    if c == '0' {
        0
    } else if c == '1' {
        1
    } else if c == '2' {
        2
    } else if c == '3' {
        3
    } else if c == '4' {
        4
    } else if c == '5' {
        5
    } else if c == '6' {
        6
    } else if c == '7' {
        7
    } else if c == '8' {
        8
    } else {
        9
    }
}

/// A decimal digit.
pub open spec fn is_digit(c: char) -> bool {
    '0' <= c && c <= '9'
}

/// The value of a digit string read in base ten.
pub open spec fn digits_val(s: Seq<char>) -> int
    decreases s.len(),
{
    if s.len() == 0 {
        0
    } else {
        digits_val(s.take(s.len() - 1)) * 10 + digit_val(s[s.len() - 1])
    }
}

proof fn lemma_digits_val_bounds(s: Seq<char>)
    ensures
        0 <= digits_val(s) < pow10(s.len()),
    decreases s.len(),
{
    if s.len() == 0 {
    } else {
        lemma_digits_val_bounds(s.take(s.len() - 1));
        assert(digit_val(s[s.len() - 1]) <= 9);
        assert(pow10(s.len()) == 10 * pow10((s.len() - 1) as nat));
    }
}

proof fn lemma_digits_val_lower(s: Seq<char>)
    requires
        s.len() >= 1,
        s[0] != '0',
        forall|j: int| 0 <= j < s.len() ==> is_digit(#[trigger] s[j]),
    ensures
        digits_val(s) >= pow10((s.len() - 1) as nat),
    decreases s.len(),
{
    if s.len() == 1 {
        assert(digits_val(s) == digits_val(s.take(0)) * 10 + digit_val(s[0]));
        assert(digit_val(s[0]) >= 1);
    } else {
        let pre = s.take(s.len() - 1);
        assert(pre[0] == s[0]);
        assert(forall|j: int| 0 <= j < pre.len() ==> is_digit(#[trigger] pre[j]));
        lemma_digits_val_lower(pre);
        assert(pow10((s.len() - 1) as nat) == 10 * pow10((s.len() - 2) as nat));
    }
}

proof fn lemma_digits_val_zeros(s: Seq<char>)
    requires
        forall|j: int| 0 <= j < s.len() ==> s[j] == '0',
    ensures
        digits_val(s) == 0,
    decreases s.len(),
{
    if s.len() > 0 {
        lemma_digits_val_zeros(s.take(s.len() - 1));
    }
}

proof fn lemma_digits_val_skip_zeros(s: Seq<char>, z: int)
    requires
        0 <= z <= s.len(),
        forall|j: int| 0 <= j < z ==> s[j] == '0',
    ensures
        digits_val(s) == digits_val(s.skip(z)),
    decreases s.len(),
{
    if z == 0 {
        assert(s.skip(0) =~= s);
    } else if s.len() == z {
        lemma_digits_val_zeros(s);
        assert(s.skip(z) =~= Seq::<char>::empty());
    } else {
        let pre = s.take(s.len() - 1);
        lemma_digits_val_skip_zeros(pre, z);
        assert(pre.skip(z) =~= s.skip(z).take(s.skip(z).len() - 1));
        assert(s.skip(z)[s.skip(z).len() - 1] == s[s.len() - 1]);
    }
}

proof fn lemma_digits_val_pow_shape(s: Seq<char>)
    requires
        s.len() >= 1,
        s[0] == '1',
        forall|j: int| 1 <= j < s.len() ==> s[j] == '0',
    ensures
        digits_val(s) == pow10((s.len() - 1) as nat),
    decreases s.len(),
{
    if s.len() == 1 {
        assert(digits_val(s) == digits_val(s.take(0)) * 10 + digit_val(s[0]));
        assert(digits_val(s.take(0)) == 0);
        assert(digits_val(s) == 1);
    } else {
        let pre = s.take(s.len() - 1);
        assert(pre[0] == '1');
        assert(forall|j: int| 1 <= j < pre.len() ==> #[trigger] pre[j] == s[j] && s[j] == '0');
        lemma_digits_val_pow_shape(pre);
        assert(s[s.len() - 1] == '0');
        assert(digits_val(s) == pow10((s.len() - 2) as nat) * 10);
        assert(pow10((s.len() - 1) as nat) == 10 * pow10((s.len() - 2) as nat));
    }
}

// ---------------------------------------------------------------------------
// The number grammar, as `f32::from_str` reads it: an optional sign,
// then one of the not-a-number or infinity words (any case) or a
// decimal number — digits with an optional point and an optional
// exponent, with at least one digit somewhere in the mantissa.
// ---------------------------------------------------------------------------
/// One character of a case-insensitive word.
pub open spec fn ci(c: char, l: char, u: char) -> bool {
    c == l || c == u
}

/// The length of a leading sign, zero or one.
pub open spec fn sign_len(s: Seq<char>) -> int {
    if s.len() > 0 && (s[0] == '+' || s[0] == '-') {
        1
    } else {
        0
    }
}

/// The text opens with a minus sign.
pub open spec fn is_neg(s: Seq<char>) -> bool {
    s.len() > 0 && s[0] == '-'
}

/// The length of the leading run of digits.
pub open spec fn digit_run(s: Seq<char>) -> int
    decreases s.len(),
{
    if s.len() > 0 && is_digit(s[0]) {
        1 + digit_run(s.skip(1))
    } else {
        0
    }
}

proof fn lemma_digit_run_bounds(s: Seq<char>)
    ensures
        0 <= digit_run(s) <= s.len(),
        forall|j: int| 0 <= j < digit_run(s) ==> is_digit(#[trigger] s[j]),
    decreases s.len(),
{
    if s.len() > 0 && is_digit(s[0]) {
        lemma_digit_run_bounds(s.skip(1));
        assert(forall|j: int| 1 <= j < digit_run(s) ==> s[j] == s.skip(1)[j - 1]);
    }
}

/// The spelling of the not-a-number value.
pub open spec fn is_nan_word(b: Seq<char>) -> bool {
    b.len() == 3 && ci(b[0], 'n', 'N') && ci(b[1], 'a', 'A') && ci(b[2], 'n', 'N')
}

/// Either spelling of infinity.
pub open spec fn is_inf_word(b: Seq<char>) -> bool {
    (b.len() == 3 && ci(b[0], 'i', 'I') && ci(b[1], 'n', 'N') && ci(b[2], 'f', 'F')) || (b.len()
        == 8 && ci(b[0], 'i', 'I') && ci(b[1], 'n', 'N') && ci(b[2], 'f', 'F') && ci(
        b[3],
        'i',
        'I',
    ) && ci(b[4], 'n', 'N') && ci(b[5], 'i', 'I') && ci(b[6], 't', 'T') && ci(b[7], 'y', 'Y'))
}

/// The digits before the point.
pub open spec fn int_len(b: Seq<char>) -> int {
    digit_run(b)
}

/// A decimal point follows the integer digits.
pub open spec fn has_point(b: Seq<char>) -> bool {
    int_len(b) < b.len() && b[int_len(b)] == '.'
}

/// The digits after the point.
pub open spec fn frac_len(b: Seq<char>) -> int {
    if has_point(b) {
        digit_run(b.skip(int_len(b) + 1))
    } else {
        0
    }
}

/// Where the mantissa ends and an exponent may begin.
pub open spec fn mant_end(b: Seq<char>) -> int {
    if has_point(b) {
        int_len(b) + 1 + frac_len(b)
    } else {
        int_len(b)
    }
}

/// A well-formed exponent part that reaches the end of the text.
pub open spec fn exp_ok(t: Seq<char>) -> bool {
    t.len() >= 2 && (t[0] == 'e' || t[0] == 'E') && {
        let u = t.skip(1);
        let sl = sign_len(u);
        digit_run(u.skip(sl)) >= 1 && sl + digit_run(u.skip(sl)) == u.len()
    }
}

/// A well-formed decimal number that spans the whole text.
pub open spec fn is_number(b: Seq<char>) -> bool {
    (int_len(b) >= 1 || (has_point(b) && frac_len(b) >= 1)) && (mant_end(b) == b.len() || exp_ok(
        b.skip(mant_end(b)),
    ))
}

/// The mantissa digits with the point dropped.
pub open spec fn mant_digits(b: Seq<char>) -> Seq<char> {
    if has_point(b) {
        b.take(int_len(b)) + b.skip(int_len(b) + 1).take(frac_len(b))
    } else {
        b.take(int_len(b))
    }
}

/// The signed value of the exponent part, zero when there is none.
pub open spec fn exp_val(b: Seq<char>) -> int {
    if mant_end(b) == b.len() {
        0
    } else {
        let u = b.skip(mant_end(b)).skip(1);
        let sl = sign_len(u);
        let v = digits_val(u.skip(sl));
        if u.len() > 0 && u[0] == '-' {
            -v
        } else {
            v
        }
    }
}

/// The magnitude of a well-formed number body is at most ten.
pub open spec fn le_ten(b: Seq<char>) -> bool {
    let m = digits_val(mant_digits(b));
    let e = exp_val(b) - frac_len(b);
    m == 0 || (if e >= 0 {
        m * pow10(e as nat) <= 10
    } else {
        m <= 10 * pow10((-e) as nat)
    })
}

/// What the volume command decides about its cleaned-up argument.
#[derive(Clone, Copy, Debug, PartialEq, Eq, Structural)]
pub enum VolumeCheck {
    /// No argument was given; the caller shows the usage line.
    Empty,
    /// The text is not a number at all; the caller drops the command.
    NotANumber,
    /// The value is not a finite number between 0 and 10 inclusive.
    Invalid,
    /// The value may be applied.
    Valid,
}

/// The decision on cleaned-up argument text: empty text asks for usage;
/// text that is no number is dropped; a not-a-number or infinite
/// spelling, a negative value, or one above ten is rejected; everything
/// else is applied.
pub open spec fn spec_check_volume(s: Seq<char>) -> VolumeCheck {
    if s.len() == 0 {
        VolumeCheck::Empty
    } else {
        let b = s.skip(sign_len(s));
        if is_nan_word(b) || is_inf_word(b) {
            VolumeCheck::Invalid
        } else if !is_number(b) {
            VolumeCheck::NotANumber
        } else if is_neg(s) && digits_val(mant_digits(b)) != 0 {
            VolumeCheck::Invalid
        } else if !le_ten(b) {
            VolumeCheck::Invalid
        } else {
            VolumeCheck::Valid
        }
    }
}

fn digit_run_at(v: &Vec<char>, from: usize) -> (r: usize)
    requires
        from <= v@.len(),
    ensures
        r == digit_run(v@.skip(from as int)),
        from + r <= v@.len(),
{
    let n = v.len();
    let mut j: usize = from;
    while j < n && '0' <= v[j] && v[j] <= '9'
        invariant
            from <= j <= n,
            n == v@.len(),
            digit_run(v@.skip(from as int)) == j - from + digit_run(v@.skip(j as int)),
        decreases n - j,
    {
        proof {
            assert(v@.skip(j as int)[0] == v@[j as int]);
            assert(v@.skip(j as int).skip(1) =~= v@.skip(j + 1));
        }
        j += 1;
    }
    proof {
        if j < n {
            assert(v@.skip(j as int)[0] == v@[j as int]);
        } else {
            assert(v@.skip(j as int) =~= Seq::<char>::empty());
        }
        assert(digit_run(v@.skip(j as int)) == 0);
    }
    j - from
}

fn first_non_zero_char(v: &Vec<char>) -> (r: Option<usize>)
    ensures
        match r {
            Some(z) => z < v@.len() && v@[z as int] != '0' && forall|j: int|
                0 <= j < z ==> v@[j] == '0',
            None => forall|j: int| 0 <= j < v@.len() ==> v@[j] == '0',
        },
{
    let n = v.len();
    let mut j: usize = 0;
    while j < n
        invariant
            j <= n,
            n == v@.len(),
            forall|k: int| 0 <= k < j ==> v@[k] == '0',
        decreases n - j,
    {
        if v[j] != '0' {
            return Some(j);
        }
        j += 1;
    }
    None
}

fn all_zeros_from(v: &Vec<char>, from: usize) -> (r: bool)
    requires
        from <= v@.len(),
    ensures
        r == (forall|j: int| from <= j < v@.len() ==> v@[j] == '0'),
{
    let n = v.len();
    let mut j: usize = from;
    while j < n
        invariant
            from <= j <= n,
            n == v@.len(),
            forall|k: int| from <= k < j ==> v@[k] == '0',
        decreases n - j,
    {
        if v[j] != '0' {
            return false;
        }
        j += 1;
    }
    true
}

fn digit_of(c: char) -> (d: u128)
    requires
        is_digit(c),
    ensures
        d == digit_val(c),
{
    if c == '0' {
        0
    } else if c == '1' {
        1
    } else if c == '2' {
        2
    } else if c == '3' {
        3
    } else if c == '4' {
        4
    } else if c == '5' {
        5
    } else if c == '6' {
        6
    } else if c == '7' {
        7
    } else if c == '8' {
        8
    } else {
        9
    }
}

fn parse_digits(v: &Vec<char>, from: usize, len: usize) -> (r: u128)
    requires
        from + len <= v@.len(),
        len <= 20,
        forall|j: int| from <= j < from + len ==> is_digit(#[trigger] v@[j]),
    ensures
        r == digits_val(v@.subrange(from as int, (from + len) as int)),
        r < pow10(20),
{
    proof {
        reveal_with_fuel(pow10, 21);
        assert(v@.subrange(from as int, from as int) =~= Seq::<char>::empty());
    }
    let n = v.len();
    let end = from + len;
    let mut acc: u128 = 0;
    let mut j: usize = from;
    while j < end
        invariant
            from <= j <= end,
            end == from + len,
            from + len <= v@.len(),
            len <= 20,
            forall|k: int| from <= k < from + len ==> is_digit(#[trigger] v@[k]),
            acc == digits_val(v@.subrange(from as int, j as int)),
            acc < pow10((j - from) as nat),
        decreases end - j,
    {
        proof {
            reveal_with_fuel(pow10, 21);
            lemma_pow10_monotone((j - from) as nat, 19);
            assert(pow10(19) == 10000000000000000000);
            let pre = v@.subrange(from as int, j as int);
            let cur = v@.subrange(from as int, j + 1);
            assert(cur.take(cur.len() - 1) =~= pre);
            assert(cur[cur.len() - 1] == v@[j as int]);
        }
        acc = acc * 10 + digit_of(v[j]);
        j += 1;
        proof {
            lemma_digits_val_bounds(v@.subrange(from as int, j as int));
        }
    }
    proof {
        lemma_pow10_monotone((len) as nat, 20);
        lemma_digits_val_bounds(v@.subrange(from as int, (from + len) as int));
    }
    acc
}

proof fn lemma_digits_val_pow_iff(t: Seq<char>)
    requires
        t.len() >= 1,
        t[0] != '0',
        forall|j: int| 0 <= j < t.len() ==> is_digit(#[trigger] t[j]),
    ensures
        digits_val(t) == pow10((t.len() - 1) as nat) <==> (t[0] == '1' && forall|j: int|
            1 <= j < t.len() ==> t[j] == '0'),
    decreases t.len(),
{
    if t.len() == 1 {
        assert(digits_val(t) == digits_val(t.take(0)) * 10 + digit_val(t[0]));
        assert(digits_val(t.take(0)) == 0);
    } else {
        let pre = t.take(t.len() - 1);
        let d = t[t.len() - 1];
        assert(pre[0] == t[0]);
        assert(forall|j: int| 0 <= j < pre.len() ==> is_digit(#[trigger] pre[j]));
        lemma_digits_val_pow_iff(pre);
        lemma_digits_val_bounds(pre);
        lemma_digits_val_lower(pre);
        assert(digits_val(t) == digits_val(pre) * 10 + digit_val(d));
        assert(pow10((t.len() - 1) as nat) == 10 * pow10((t.len() - 2) as nat));
        assert(0 <= digit_val(d) <= 9);
        if digits_val(t) == pow10((t.len() - 1) as nat) {
            assert(digits_val(pre) * 10 + digit_val(d) == 10 * pow10((t.len() - 2) as nat));
            assert(digit_val(d) == 0);
            assert(d == '0');
            assert(digits_val(pre) == pow10((pre.len() - 1) as nat));
            assert(forall|j: int| 1 <= j < t.len() - 1 ==> t[j] == pre[j] && pre[j] == '0');
        }
        if t[0] == '1' && forall|j: int| 1 <= j < t.len() ==> t[j] == '0' {
            assert(forall|j: int| 1 <= j < pre.len() ==> #[trigger] pre[j] == t[j] && t[j] == '0');
            assert(digits_val(pre) == pow10((pre.len() - 1) as nat));
            assert(d == '0');
        }
    }
}

/// Does the body spell not-a-number or infinity?
fn special_word(arg: &Vec<char>, sl: usize) -> (r: bool)
    requires
        arg@.len() >= 1,
        sl as int == sign_len(arg@),
    ensures
        r == (is_nan_word(arg@.skip(sl as int)) || is_inf_word(arg@.skip(sl as int))),
{
    let n = arg.len();
    let ghost b = arg@.skip(sl as int);
    proof {
        assert(forall|j: int| 0 <= j < b.len() ==> b[j] == arg@[sl + j]);
    }
    let bl = n - sl;
    let nan_word = bl == 3 && (arg[sl] == 'n' || arg[sl] == 'N') && (arg[sl + 1] == 'a' || arg[sl
        + 1] == 'A') && (arg[sl + 2] == 'n' || arg[sl + 2] == 'N');
    let inf3 = bl == 3 && (arg[sl] == 'i' || arg[sl] == 'I') && (arg[sl + 1] == 'n' || arg[sl + 1]
        == 'N') && (arg[sl + 2] == 'f' || arg[sl + 2] == 'F');
    let inf8 = bl == 8 && (arg[sl] == 'i' || arg[sl] == 'I') && (arg[sl + 1] == 'n' || arg[sl + 1]
        == 'N') && (arg[sl + 2] == 'f' || arg[sl + 2] == 'F') && (arg[sl + 3] == 'i' || arg[sl + 3]
        == 'I') && (arg[sl + 4] == 'n' || arg[sl + 4] == 'N') && (arg[sl + 5] == 'i' || arg[sl + 5]
        == 'I') && (arg[sl + 6] == 't' || arg[sl + 6] == 'T') && (arg[sl + 7] == 'y' || arg[sl + 7]
        == 'Y');
    proof {
        assert(nan_word == is_nan_word(b));
        assert((inf3 || inf8) == is_inf_word(b));
    }
    nan_word || inf3 || inf8
}

/// Measures the mantissa of the body: integer digits, point, fraction
/// digits, and the absolute position where an exponent may begin.
fn mant_shape(arg: &Vec<char>, sl: usize) -> (r: (usize, bool, usize, usize))
    requires
        arg@.len() >= 1,
        sl as int == sign_len(arg@),
    ensures
        ({
            let b = arg@.skip(sl as int);
            let (d1, point, fr, me) = r;
            d1 as int == int_len(b) && point == has_point(b) && fr as int == frac_len(b) && me
                as int == sl + mant_end(b) && mant_end(b) <= b.len()
        }),
{
    let n = arg.len();
    let ghost b = arg@.skip(sl as int);
    let d1 = digit_run_at(arg, sl);
    proof {
        assert(d1 as int == int_len(b));
        lemma_digit_run_bounds(b);
        if sl + d1 < n {
            assert(b[d1 as int] == arg@[sl + d1]);
        }
    }
    let point = sl + d1 < n && arg[sl + d1] == '.';
    proof {
        assert(point == has_point(b));
        if point {
            assert(b.skip(d1 + 1) =~= arg@.skip(sl + d1 + 1));
        }
    }
    let fr = if point {
        digit_run_at(arg, sl + d1 + 1)
    } else {
        0
    };
    proof {
        assert(fr as int == frac_len(b));
        if point {
            lemma_digit_run_bounds(b.skip(d1 + 1));
        }
    }
    let me: usize = if point {
        sl + d1 + 1 + fr
    } else {
        sl + d1
    };
    (d1, point, fr, me)
}

/// Reads the exponent part that begins at `me`, if it is well formed.
fn exp_shape(arg: &Vec<char>, sl: usize, me: usize) -> (r: Option<(bool, usize, usize)>)
    requires
        arg@.len() >= 1,
        sl as int == sign_len(arg@),
        sl <= me < arg@.len(),
        me as int == sl + mant_end(arg@.skip(sl as int)),
    ensures
        ({
            let b = arg@.skip(sl as int);
            match r {
                Some((exp_neg, estart, ed)) => exp_ok(b.skip(mant_end(b))) && exp_neg == (arg@[me
                    + 1] == '-') && estart as int == me + 1 + sign_len(arg@.skip(me + 1)) && ed
                    as int == digit_run(arg@.skip(estart as int)) && ed >= 1 && estart + ed
                    == arg@.len(),
                None => !exp_ok(b.skip(mant_end(b))),
            }
        }),
{
    let n = arg.len();
    let ghost b = arg@.skip(sl as int);
    proof {
        assert(b.skip(mant_end(b)) =~= arg@.skip(me as int));
        assert(arg@.skip(me as int)[0] == arg@[me as int]);
    }
    let t0 = arg[me];
    if !(t0 == 'e' || t0 == 'E') {
        return None;
    }
    if me + 1 == n {
        return None;
    }
    proof {
        assert(arg@.skip(me + 1) =~= b.skip(mant_end(b)).skip(1));
        assert(arg@.skip(me + 1)[0] == arg@[me + 1]);
    }
    let esl: usize = if arg[me + 1] == '+' || arg[me + 1] == '-' {
        1
    } else {
        0
    };
    proof {
        assert(esl as int == sign_len(arg@.skip(me + 1)));
        assert(arg@.skip(me + 1).skip(esl as int) =~= arg@.skip(me + 1 + esl));
    }
    let ed = digit_run_at(arg, me + 1 + esl);
    if ed >= 1 && me + 1 + esl + ed == n {
        Some((arg[me + 1] == '-', me + 1 + esl, ed))
    } else {
        None
    }
}

/// The facts the structure pass establishes, bundled for the range
/// decision.
pub open spec fn shaped(
    a: Seq<char>,
    sl: int,
    d1: int,
    point: bool,
    fr: int,
    me: int,
    has_exp: bool,
    exp_neg: bool,
    estart: int,
    ed: int,
) -> bool {
    let b = a.skip(sl);
    &&& a.len() >= 1
    &&& 0 <= sl <= a.len()
    &&& sl == sign_len(a)
    &&& is_number(b)
    &&& !(is_nan_word(b) || is_inf_word(b))
    &&& d1 == int_len(b)
    &&& point == has_point(b)
    &&& fr == frac_len(b)
    &&& me == sl + mant_end(b)
    &&& mant_end(b) <= b.len()
    &&& has_exp == (mant_end(b) < b.len())
    &&& (has_exp ==> me + 1 < a.len() && exp_neg == (a[me + 1] == '-'))
    &&& (has_exp ==> estart == me + 1 + sign_len(a.skip(me + 1)))
    &&& (has_exp ==> ed == digit_run(a.skip(estart)) && ed >= 1 && estart + ed == a.len())
}

proof fn lemma_pow10_consts()
    ensures
        pow10(0) == 1,
        pow10(1) == 10,
        pow10(2) == 100,
        pow10(20) == 100000000000000000000,
{
    reveal_with_fuel(pow10, 22);
}

/// How large the exponent of a shaped number is.
enum ExpSize {
    /// The exponent value itself, small enough to work with.
    Known(i128),
    /// At or below the negative of the twentieth power of ten.
    HugeNeg,
    /// At or above the twentieth power of ten.
    HugePos,
}

fn eval_exponent(
    arg: &Vec<char>,
    sl: usize,
    d1: usize,
    point: bool,
    fr: usize,
    me: usize,
    has_exp: bool,
    exp_neg: bool,
    estart: usize,
    ed: usize,
) -> (r: ExpSize)
    requires
        shaped(
            arg@,
            sl as int,
            d1 as int,
            point,
            fr as int,
            me as int,
            has_exp,
            exp_neg,
            estart as int,
            ed as int,
        ),
    ensures
        ({
            let b = arg@.skip(sl as int);
            match r {
                ExpSize::Known(v) => v == exp_val(b) && -100000000000000000000 < v
                    < 100000000000000000000,
                ExpSize::HugeNeg => exp_val(b) <= -pow10(20),
                ExpSize::HugePos => exp_val(b) >= pow10(20),
            }
        }),
{
    let n = arg.len();
    let ghost b = arg@.skip(sl as int);
    if !has_exp {
        proof {
            assert(exp_val(b) == 0);
        }
        return ExpSize::Known(0);
    }
    proof {
        assert(b.skip(mant_end(b)) =~= arg@.skip(me as int));
        lemma_digit_run_bounds(arg@.skip(estart as int));
    }
    let expd = subvec(arg, estart, n);
    proof {
        let u = arg@.skip(me + 1);
        assert(u =~= b.skip(mant_end(b)).skip(1));
        assert(u.skip(sign_len(u)) =~= arg@.skip(estart as int));
        assert(expd@ =~= u.skip(sign_len(u)));
        assert forall|j: int| 0 <= j < expd@.len() implies is_digit(#[trigger] expd@[j]) by {
            assert(expd@[j] == arg@.skip(estart as int)[j]);
        }
        assert(u[0] == arg@[me + 1]);
    }
    let efz = first_non_zero_char(&expd);
    match efz {
        None => {
            proof {
                lemma_digits_val_zeros(expd@);
                assert(exp_val(b) == 0);
            }
            ExpSize::Known(0)
        },
        Some(ez) => {
            proof {
                lemma_digits_val_skip_zeros(expd@, ez as int);
                assert(forall|j: int|
                    0 <= j < expd@.len() - ez ==> expd@.skip(ez as int)[j] == expd@[ez + j]);
                lemma_digits_val_lower(expd@.skip(ez as int));
            }
            let sig = ed - ez;
            if sig > 20 {
                proof {
                    lemma_pow10_monotone(20, (sig - 1) as nat);
                    assert(digits_val(expd@) >= pow10(20));
                }
                if exp_neg {
                    ExpSize::HugeNeg
                } else {
                    ExpSize::HugePos
                }
            } else {
                let ev = parse_digits(&expd, ez, sig);
                proof {
                    assert(expd@.subrange(ez as int, (ez + sig) as int) =~= expd@.skip(ez as int));
                    assert(ev == digits_val(expd@));
                    lemma_pow10_consts();
                }
                if exp_neg {
                    ExpSize::Known(-(ev as i128))
                } else {
                    ExpSize::Known(ev as i128)
                }
            }
        },
    }
}

/// Builds the mantissa digit string, the point dropped.
fn build_mant(arg: &Vec<char>, sl: usize, d1: usize, point: bool, fr: usize) -> (mant: Vec<char>)
    requires
        arg@.len() >= 1,
        sl as int == sign_len(arg@),
        d1 as int == int_len(arg@.skip(sl as int)),
        point == has_point(arg@.skip(sl as int)),
        fr as int == frac_len(arg@.skip(sl as int)),
    ensures
        mant@ == mant_digits(arg@.skip(sl as int)),
        forall|j: int| 0 <= j < mant@.len() ==> is_digit(#[trigger] mant@[j]),
{
    let n = arg.len();
    let ghost b = arg@.skip(sl as int);
    proof {
        lemma_digit_run_bounds(b);
        if point {
            assert(b.skip(d1 + 1) =~= arg@.skip(sl + d1 + 1));
            lemma_digit_run_bounds(b.skip(d1 + 1));
        }
        assert(sl + d1 <= n);
    }
    let mut mant = subvec(arg, sl, sl + d1);
    if point {
        let mut frv = subvec(arg, sl + d1 + 1, sl + d1 + 1 + fr);
        mant.append(&mut frv);
    }
    proof {
        assert(b.take(d1 as int) =~= arg@.subrange(sl as int, (sl + d1) as int));
        if point {
            assert(b.skip(d1 + 1).take(fr as int) =~= arg@.subrange(
                (sl + d1 + 1) as int,
                (sl + d1 + 1 + fr) as int,
            ));
        }
        assert(mant@ =~= mant_digits(b));
        assert forall|j: int| 0 <= j < mant@.len() implies is_digit(#[trigger] mant@[j]) by {
            if j < d1 {
                assert(mant@[j] == b[j]);
            } else {
                assert(mant@[j] == b.skip(d1 + 1)[j - d1]);
            }
        }
    }
    mant
}

/// Decides whether a nonzero mantissa with exponent `e` stays within
/// ten: it must fit in `1 - e` digits, or be a one followed by zeros in
/// exactly `2 - e` digits.
#[verifier::rlimit(100)]
#[verifier::spinoff_prover]
fn classify_range(mant: &Vec<char>, z: usize, e: i128, Ghost(b): Ghost<Seq<char>>) -> (r: bool)
    requires
        mant@ == mant_digits(b),
        forall|j: int| 0 <= j < mant@.len() ==> is_digit(#[trigger] mant@[j]),
        z < mant@.len(),
        mant@[z as int] != '0',
        forall|j: int| 0 <= j < z ==> mant@[j] == '0',
        e == exp_val(b) - frac_len(b),
        -200000000000000000000 < e < 200000000000000000000,
    ensures
        r == le_ten(b),
{
    let ghost m = digits_val(mant@);
    let ghost tsig = mant@.skip(z as int);
    proof {
        lemma_pow10_consts();
        lemma_digits_val_skip_zeros(mant@, z as int);
        assert(forall|j: int| 0 <= j < tsig.len() ==> tsig[j] == mant@[z + j]);
        assert(forall|j: int| 0 <= j < tsig.len() ==> is_digit(#[trigger] tsig[j]));
        lemma_digits_val_lower(tsig);
        lemma_pow10_pos((tsig.len() - 1) as nat);
        lemma_digits_val_bounds(tsig);
        assert(m >= 1);
    }
    let lz: i128 = (mant.len() - z) as i128;
    proof {
        assert(lz == tsig.len());
    }
    if e >= 2 {
        proof {
            lemma_pow10_monotone(2, e as nat);
            assert(m * pow10(e as nat) >= 1 * pow10(e as nat)) by (nonlinear_arith)
                requires
                    m >= 1,
                    pow10(e as nat) >= 0,
            ;
            assert(!le_ten(b));
        }
        return false;
    }
    if e == 1 {
        if lz == 1 && mant[z] == '1' {
            proof {
                assert(tsig.len() == 1);
                assert(tsig[0] == '1');
                assert(digits_val(tsig) == digits_val(tsig.take(0)) * 10 + digit_val(tsig[0]));
                assert(digits_val(tsig.take(0)) == 0);
                assert(m == 1);
                assert(le_ten(b));
            }
            return true;
        } else {
            proof {
                if tsig.len() >= 2 {
                    lemma_pow10_monotone(1, (tsig.len() - 1) as nat);
                    assert(m >= 10);
                } else {
                    assert(tsig[0] != '1');
                    assert(digits_val(tsig) == digits_val(tsig.take(0)) * 10 + digit_val(tsig[0]));
                    assert(digits_val(tsig.take(0)) == 0);
                    assert(m >= 2);
                }
                assert(m * pow10(1) >= 2 * 10) by (nonlinear_arith)
                    requires
                        m >= 2,
                        pow10(1) == 10,
                ;
                assert(!le_ten(b));
            }
            return false;
        }
    }
    let k: i128 = 1 - e;
    proof {
        assert(k >= 1);
        lemma_pow10_adds(1, (-e) as nat);
        assert(pow10(k as nat) == 10 * pow10((-e) as nat));
        if e == 0 {
            assert(le_ten(b) <==> m * pow10(0) <= 10);
            assert(m * 1 == m);
            assert(pow10(k as nat) == 10);
        } else {
            assert(e < 0);
            assert(le_ten(b) <==> m <= 10 * pow10((-(exp_val(b) - frac_len(b))) as nat));
        }
        assert(le_ten(b) <==> m <= pow10(k as nat));
    }
    if lz <= k {
        proof {
            lemma_pow10_monotone(lz as nat, k as nat);
            assert(m < pow10(lz as nat));
        }
        return true;
    }
    if lz == k + 1 {
        proof {
            lemma_digits_val_pow_iff(tsig);
        }
        let shape = mant[z] == '1' && all_zeros_from(mant, z + 1);
        if shape {
            proof {
                assert(tsig[0] == '1');
                assert forall|j: int| 1 <= j < tsig.len() implies tsig[j] == '0' by {
                    assert(tsig[j] == mant@[z + j]);
                }
                assert(m == pow10((tsig.len() - 1) as nat));
            }
            return true;
        } else {
            proof {
                if m == pow10((tsig.len() - 1) as nat) {
                    assert(tsig[0] == '1');
                    assert(mant@[z as int] == '1');
                    assert forall|j: int| z + 1 <= j < mant@.len() implies mant@[j] == '0' by {
                        assert(mant@[j] == tsig[j - z]);
                    }
                    assert(false);
                }
                assert(m > pow10(k as nat));
            }
            return false;
        }
    }
    proof {
        lemma_pow10_monotone((k + 1) as nat, (lz - 1) as nat);
        assert(m >= pow10((lz - 1) as nat));
        assert(pow10((k + 1) as nat) == 10 * pow10(k as nat));
        lemma_pow10_pos(k as nat);
        assert(m > pow10(k as nat));
        assert(!le_ten(b));
    }
    false
}

/// Decides the range part on a shaped number: negative values and
/// values above ten are rejected.
#[verifier::rlimit(100)]
#[verifier::spinoff_prover]
fn decide_range(
    arg: &Vec<char>,
    sl: usize,
    d1: usize,
    point: bool,
    fr: usize,
    me: usize,
    has_exp: bool,
    exp_neg: bool,
    estart: usize,
    ed: usize,
) -> (r: VolumeCheck)
    requires
        shaped(
            arg@,
            sl as int,
            d1 as int,
            point,
            fr as int,
            me as int,
            has_exp,
            exp_neg,
            estart as int,
            ed as int,
        ),
    ensures
        r == spec_check_volume(arg@),
{
    let n = arg.len();
    let ghost b = arg@.skip(sl as int);
    let mant = build_mant(arg, sl, d1, point, fr);
    let ghost m = digits_val(mant@);
    let fz = first_non_zero_char(&mant);
    let z: usize;
    match fz {
        None => {
            proof {
                lemma_digits_val_zeros(mant@);
            }
            return VolumeCheck::Valid;
        },
        Some(zz) => {
            z = zz;
        },
    }
    proof {
        let tsig = mant@.skip(z as int);
        lemma_digits_val_skip_zeros(mant@, z as int);
        assert(forall|j: int| 0 <= j < tsig.len() ==> tsig[j] == mant@[z + j]);
        assert(forall|j: int| 0 <= j < tsig.len() ==> is_digit(#[trigger] tsig[j]));
        lemma_digits_val_lower(tsig);
        lemma_pow10_pos((tsig.len() - 1) as nat);
        assert(m >= 1);
    }
    if sl == 1 && arg[0] == '-' {
        proof {
            assert(is_neg(arg@));
        }
        return VolumeCheck::Invalid;
    }
    proof {
        assert(!(is_neg(arg@) && digits_val(mant_digits(b)) != 0));
    }
    let esz = eval_exponent(arg, sl, d1, point, fr, me, has_exp, exp_neg, estart, ed);
    let e_exp: i128;
    match esz {
        ExpSize::Known(v) => {
            e_exp = v;
        },
        ExpSize::HugeNeg => {
            proof {
                lemma_pow10_consts();
                let e_spec = exp_val(b) - frac_len(b);
                assert(e_spec <= -pow10(20) < 0);
                lemma_digits_val_bounds(mant@);
                assert(mant@.len() <= n <= usize::MAX);
                assert((usize::MAX as int) < pow10(20));
                lemma_pow10_monotone(mant@.len(), (-e_spec) as nat);
                lemma_pow10_pos((-e_spec) as nat);
                assert(m < pow10((-e_spec) as nat));
                assert(pow10((-e_spec) as nat) <= 10 * pow10((-e_spec) as nat));
                assert(le_ten(b));
            }
            return VolumeCheck::Valid;
        },
        ExpSize::HugePos => {
            proof {
                lemma_pow10_consts();
                let e_spec = exp_val(b) - frac_len(b);
                assert(frac_len(b) <= n <= usize::MAX);
                assert((usize::MAX as int) < pow10(20));
                assert(e_spec >= 2);
                lemma_pow10_monotone(2, e_spec as nat);
                assert(m * pow10(e_spec as nat) >= 1 * pow10(e_spec as nat)) by (nonlinear_arith)
                    requires
                        m >= 1,
                        pow10(e_spec as nat) >= 0,
                ;
                assert(!le_ten(b));
            }
            return VolumeCheck::Invalid;
        },
    }
    let e: i128 = e_exp - (fr as i128);
    proof {
        lemma_pow10_consts();
        assert(fr <= n <= usize::MAX);
        assert(e == exp_val(b) - frac_len(b));
    }
    let ok = classify_range(&mant, z, e, Ghost(b));
    if ok {
        VolumeCheck::Valid
    } else {
        VolumeCheck::Invalid
    }
}

/// Decides the volume command on its cleaned-up argument text.
pub fn check_volume(arg: &Vec<char>) -> (r: VolumeCheck)
    ensures
        r == spec_check_volume(arg@),
{
    let n = arg.len();
    if n == 0 {
        return VolumeCheck::Empty;
    }
    let sl: usize = if arg[0] == '+' || arg[0] == '-' {
        1
    } else {
        0
    };
    let ghost b = arg@.skip(sl as int);
    proof {
        assert(sl as int == sign_len(arg@));
        assert(b.len() == n - sl);
    }
    if special_word(arg, sl) {
        return VolumeCheck::Invalid;
    }
    let (d1, point, fr, me) = mant_shape(arg, sl);
    if !(d1 >= 1 || (point && fr >= 1)) {
        proof {
            assert(!is_number(b));
        }
        return VolumeCheck::NotANumber;
    }
    let mut has_exp = false;
    let mut exp_neg = false;
    let mut estart: usize = 0;
    let mut ed: usize = 0;
    if me < n {
        let shaped_exp = exp_shape(arg, sl, me);
        match shaped_exp {
            None => {
                proof {
                    assert(!is_number(b));
                }
                return VolumeCheck::NotANumber;
            },
            Some((en, es, e_d)) => {
                has_exp = true;
                exp_neg = en;
                estart = es;
                ed = e_d;
            },
        }
    }
    proof {
        assert(is_number(b));
        assert(shaped(
            arg@,
            sl as int,
            d1 as int,
            point,
            fr as int,
            me as int,
            has_exp,
            exp_neg,
            estart as int,
            ed as int,
        ));
    }
    decide_range(arg, sl, d1, point, fr, me, has_exp, exp_neg, estart, ed)
}

/// The cleaned argument of a volume command: everything after the
/// command word, with white space removed wherever it stands.
pub fn volume_argument(content: &str) -> (r: String)
    requires
        content@.len() >= 7,
    ensures
        r@ == spec_strip_spaces(content@.skip(7)),
{
    let cs = chars_vec(content);
    let tail = subvec(&cs, 7, cs.len());
    proof {
        assert(tail@ =~= content@.skip(7));
    }
    let arg = strip_spaces(&tail);
    string_from_chars(&arg)
}

/// Decides the volume command on the full message text.
pub fn volume_command(content: &str) -> (r: VolumeCheck)
    requires
        content@.len() >= 7,
    ensures
        r == spec_check_volume(spec_strip_spaces(content@.skip(7))),
{
    let cs = chars_vec(content);
    let tail = subvec(&cs, 7, cs.len());
    proof {
        assert(tail@ =~= content@.skip(7));
    }
    let arg = strip_spaces(&tail);
    check_volume(&arg)
}

} // verus!
