use vstd::prelude::*;

verus! {

// ---------------------------------------------------------------------------
// Decimal digits
// ---------------------------------------------------------------------------

pub open spec fn is_digit(c: char) -> bool {
    48 <= c as u32 && c as u32 <= 57
}

pub open spec fn digit_val(c: char) -> nat {
    (c as u32 - 48) as nat
}

pub open spec fn digit_char(d: int) -> char {
    if d == 0 {
        '0'
    } else if d == 1 {
        '1'
    } else if d == 2 {
        '2'
    } else if d == 3 {
        '3'
    } else if d == 4 {
        '4'
    } else if d == 5 {
        '5'
    } else if d == 6 {
        '6'
    } else if d == 7 {
        '7'
    } else if d == 8 {
        '8'
    } else {
        '9'
    }
}

pub fn digit_char_exec(d: u64) -> (c: char)
    requires
        d < 10,
    ensures
        c == digit_char(d as int),
{
    if d == 0 {
        '0'
    } else if d == 1 {
        '1'
    } else if d == 2 {
        '2'
    } else if d == 3 {
        '3'
    } else if d == 4 {
        '4'
    } else if d == 5 {
        '5'
    } else if d == 6 {
        '6'
    } else if d == 7 {
        '7'
    } else if d == 8 {
        '8'
    } else {
        '9'
    }
}

/// The decimal digit string of a non-negative integer, most significant digit
/// first, with no leading zeros (`0` itself prints as "0").
pub open spec fn nat_digits(n: nat) -> Seq<char>
    decreases n,
{
    if n < 10 {
        seq![digit_char(n as int)]
    } else {
        nat_digits(n / 10).push(digit_char((n % 10) as int))
    }
}

/// The decimal digit string of an integer: a leading '-' for negative values.
pub open spec fn int_chars(i: int) -> Seq<char> {
    if i < 0 {
        seq!['-'] + nat_digits((-i) as nat)
    } else {
        nat_digits(i as nat)
    }
}

pub fn u64_to_chars(n: u64) -> (r: Vec<char>)
    ensures
        r@ == nat_digits(n as nat),
    decreases n,
{
    if n < 10 {
        let mut r: Vec<char> = Vec::new();
        r.push(digit_char_exec(n));
        assert(r@ =~= nat_digits(n as nat));
        r
    } else {
        let mut r = u64_to_chars(n / 10);
        r.push(digit_char_exec(n % 10));
        assert(r@ =~= nat_digits(n as nat));
        r
    }
}

pub fn i64_to_chars(v: i64) -> (r: Vec<char>)
    ensures
        r@ == int_chars(v as int),
{
    if v >= 0 {
        u64_to_chars(v as u64)
    } else {
        let mag: u64 = (-(v as i128)) as u64;
        assert(mag as nat == -(v as int));
        let mut r: Vec<char> = Vec::new();
        r.push('-');
        let mut ds = u64_to_chars(mag);
        r.append(&mut ds);
        assert(r@ =~= int_chars(v as int));
        r
    }
}

// ---------------------------------------------------------------------------
// Powers of ten
// ---------------------------------------------------------------------------

pub open spec fn pow10(e: nat) -> nat
    decreases e,
{
    if e == 0 {
        1
    } else {
        10 * pow10((e - 1) as nat)
    }
}

pub proof fn lemma_pow10_mono(a: nat, b: nat)
    requires
        a <= b,
    ensures
        1 <= pow10(a) <= pow10(b),
    decreases b,
{
    if b == 0 {
    } else if a == b {
        lemma_pow10_mono(0, (b - 1) as nat);
    } else {
        lemma_pow10_mono(a, (b - 1) as nat);
    }
}

pub proof fn lemma_pow10_18()
    ensures
        pow10(18) == 1000000000000000000nat,
{
    reveal_with_fuel(pow10, 19);
}

/// Ten raised to `e`, exactly.
pub fn pow10_u64(e: u32) -> (r: u64)
    requires
        e <= 18,
    ensures
        r as nat == pow10(e as nat),
{
    let mut r: u64 = 1;
    let mut i: u32 = 0;
    while i < e
        invariant
            i <= e <= 18,
            r as nat == pow10(i as nat),
        decreases e - i,
    {
        proof {
            lemma_pow10_mono(i as nat, 17);
            lemma_pow10_mono(17, 18);
            lemma_pow10_18();
        }
        r = r * 10;
        i = i + 1;
    }
    r
}

// ---------------------------------------------------------------------------
// Reading digit strings as integers
// ---------------------------------------------------------------------------

pub open spec fn all_digits(s: Seq<char>) -> bool {
    forall|j: int| 0 <= j < s.len() ==> is_digit(#[trigger] s[j])
}

/// The non-negative integer denoted by a digit string (most significant digit
/// first); the empty string denotes 0.
pub open spec fn digits_val(s: Seq<char>) -> nat
    decreases s.len(),
{
    if s.len() == 0 {
        0
    } else {
        digits_val(s.drop_last()) * 10 + digit_val(s.last())
    }
}

pub proof fn lemma_digits_val_take_mono(s: Seq<char>, j: int, k: int)
    requires
        0 <= j <= k <= s.len(),
    ensures
        digits_val(s.take(j)) <= digits_val(s.take(k)),
    decreases k - j,
{
    if j < k {
        lemma_digits_val_take_mono(s, j, k - 1);
        assert(s.take(k).drop_last() =~= s.take(k - 1));
        assert(digits_val(s.take(k)) == digits_val(s.take(k - 1)) * 10 + digit_val(
            s.take(k).last(),
        ));
    }
}

/// Printing a number and reading the digits back is the identity.
pub proof fn lemma_nat_digits_roundtrip(n: nat)
    ensures
        nat_digits(n).len() >= 1,
        all_digits(nat_digits(n)),
        digits_val(nat_digits(n)) == n,
    decreases n,
{
    if n < 10 {
        assert(nat_digits(n) == seq![digit_char(n as int)]);
        assert(nat_digits(n).drop_last() =~= Seq::<char>::empty());
        assert(is_digit(digit_char(n as int)));
        assert(digit_val(digit_char(n as int)) == n);
        assert(digits_val(nat_digits(n)) == digits_val(nat_digits(n).drop_last()) * 10
            + digit_val(nat_digits(n).last()));
        assert(digits_val(nat_digits(n)) == n);
    } else {
        lemma_nat_digits_roundtrip(n / 10);
        let d = nat_digits(n);
        let h = nat_digits(n / 10);
        assert(d == h.push(digit_char((n % 10) as int)));
        assert(d.drop_last() =~= h);
        assert(is_digit(digit_char((n % 10) as int)));
        assert(digit_val(digit_char((n % 10) as int)) == n % 10);
        assert forall|j: int| 0 <= j < d.len() implies is_digit(#[trigger] d[j]) by {
            if j < d.len() - 1 {
                assert(d[j] == h[j]);
            }
        }
        assert(digits_val(d) == digits_val(h) * 10 + digit_val(d.last()));
        vstd::arithmetic::div_mod::lemma_fundamental_div_mod(n as int, 10);
    }
}

pub fn digit(c: char) -> (b: bool)
    ensures
        b == is_digit(c),
{
    let u = c as u32;
    48 <= u && u <= 57
}

pub fn digit_value(c: char) -> (d: u64)
    requires
        is_digit(c),
    ensures
        d as nat == digit_val(c),
{
    (c as u32 - 48) as u64
}

// ---------------------------------------------------------------------------
// Repeat counts
// ---------------------------------------------------------------------------

/// The unsigned integer a repeat-count literal denotes: defined exactly when
/// the text is one or more digits (no sign, no point) whose value fits `u64`.
pub open spec fn count_of(s: Seq<char>) -> Option<u64> {
    if s.len() > 0 && all_digits(s) && digits_val(s) <= u64::MAX {
        Some(digits_val(s) as u64)
    } else {
        None
    }
}

/// Reads a repeat-count literal.
pub fn parse_count(s: &Vec<char>) -> (r: Option<u64>)
    ensures
        r == count_of(s@),
{
    let n = s.len();
    if n == 0 {
        return None;
    }
    let mut acc: u128 = 0;
    let mut i: usize = 0;
    while i < n
        invariant
            i <= n,
            n == s@.len(),
            forall|j: int| 0 <= j < i ==> is_digit(#[trigger] s@[j]),
            acc as nat == digits_val(s@.take(i as int)),
            acc <= u64::MAX as u128,
        decreases n - i,
    {
        let c = s[i];
        if !digit(c) {
            assert(!all_digits(s@));
            return None;
        }
        let d = digit_value(c);
        let acc2: u128 = acc * 10 + d as u128;
        proof {
            assert(s@.take(i as int + 1).drop_last() =~= s@.take(i as int));
        }
        if acc2 > u64::MAX as u128 {
            proof {
                lemma_digits_val_take_mono(s@, i as int + 1, n as int);
                assert(s@.take(n as int) =~= s@);
            }
            return None;
        }
        acc = acc2;
        i = i + 1;
    }
    assert(s@.take(n as int) =~= s@);
    Some(acc as u64)
}

// ---------------------------------------------------------------------------
// Number literals
// ---------------------------------------------------------------------------

/// The first position at or after `i` holding a decimal point.
pub open spec fn find_dot_from(s: Seq<char>, i: int) -> Option<int>
    decreases s.len() - i,
{
    if i < 0 || i >= s.len() {
        None
    } else if s[i] == '.' {
        Some(i)
    } else {
        find_dot_from(s, i + 1)
    }
}

/// The exact decimal a number literal denotes, as mantissa and scale:
/// an optional leading '-', one or more digits, then optionally a point
/// followed by one or more digits. Defined exactly when the text has that
/// shape, the digits (point removed) fit `i64::MAX`, and at most `18`
/// fraction digits occur; otherwise the literal is rejected as invalid.
pub open spec fn num_lit_of(s: Seq<char>) -> Option<(int, nat)> {
    let neg = s.len() > 0 && s[0] == '-';
    let start: int = if neg { 1 } else { 0 };
    if s.len() <= start {
        None
    } else {
        match find_dot_from(s, start) {
            None => {
                let ip = s.subrange(start, s.len() as int);
                if all_digits(ip) && digits_val(ip) <= i64::MAX {
                    Some(((if neg { -1int } else { 1int }) * digits_val(ip), 0))
                } else {
                    None
                }
            },
            Some(k) => {
                let ip = s.subrange(start, k);
                let fp = s.subrange(k + 1, s.len() as int);
                if ip.len() > 0 && fp.len() > 0 && fp.len() <= 18 && all_digits(ip) && all_digits(
                    fp,
                ) && digits_val(ip + fp) <= i64::MAX {
                    Some(((if neg { -1int } else { 1int }) * digits_val(ip + fp), fp.len()))
                } else {
                    None
                }
            },
        }
    }
}

/// Accumulates the digits of `s[from..to]` on top of `acc0`, stopping at the
/// first non-digit or when the running value leaves `i64::MAX`; exact about
/// which of the two happened.
fn accum_digits(s: &Vec<char>, from: usize, to: usize, acc0: u64, ghost_pre: Ghost<Seq<char>>)
    -> (r: Option<u64>)
    requires
        from <= to <= s@.len(),
        acc0 as nat == digits_val(ghost_pre@),
    ensures
        match r {
            Some(acc) => all_digits(s@.subrange(from as int, to as int)) && acc as nat
                == digits_val(ghost_pre@ + s@.subrange(from as int, to as int)) && acc
                <= i64::MAX as u64,
            None => !all_digits(s@.subrange(from as int, to as int)) || digits_val(
                ghost_pre@ + s@.subrange(from as int, to as int),
            ) > i64::MAX,
        },
{
    let ghost pre = ghost_pre@;
    let ghost whole = pre + s@.subrange(from as int, to as int);
    let mut acc: u128 = acc0 as u128;
    let mut i: usize = from;
    proof {
        assert(pre + s@.subrange(from as int, from as int) =~= pre);
        lemma_digits_val_take_mono(whole, pre.len() as int, whole.len() as int);
        assert(whole.take(pre.len() as int) =~= pre);
        assert(whole.take(whole.len() as int) =~= whole);
    }
    if acc0 > i64::MAX as u64 {
        return None;
    }
    while i < to
        invariant
            from <= i <= to <= s@.len(),
            pre == ghost_pre@,
            whole == pre + s@.subrange(from as int, to as int),
            digits_val(pre) <= digits_val(whole),
            forall|j: int| from <= j < i ==> is_digit(#[trigger] s@[j]),
            acc as nat == digits_val(pre + s@.subrange(from as int, i as int)),
            acc <= i64::MAX as u128,
        decreases to - i,
    {
        let c = s[i];
        if !digit(c) {
            assert(s@.subrange(from as int, to as int)[i as int - from] == s@[i as int]);
            assert(!all_digits(s@.subrange(from as int, to as int)));
            return None;
        }
        let d = digit_value(c);
        let acc2: u128 = acc * 10 + d as u128;
        proof {
            assert((pre + s@.subrange(from as int, i as int + 1)).drop_last() =~= pre
                + s@.subrange(from as int, i as int));
            assert((pre + s@.subrange(from as int, i as int + 1)).last() == s@[i as int]);
            assert(digits_val(pre + s@.subrange(from as int, i as int + 1)) == digits_val(
                pre + s@.subrange(from as int, i as int),
            ) * 10 + digit_val(s@[i as int]));
        }
        if acc2 > i64::MAX as u128 {
            proof {
                assert(acc2 as nat == digits_val(pre + s@.subrange(from as int, i as int + 1)));
                assert(pre + s@.subrange(from as int, i as int + 1) =~= whole.take(
                    pre.len() + (i as int + 1) - from,
                ));
                lemma_digits_val_take_mono(whole, pre.len() + (i as int + 1) - from,
                    whole.len() as int);
                assert(whole.take(whole.len() as int) =~= whole);
                assert(digits_val(pre + s@.subrange(from as int, to as int)) > i64::MAX);
            }
            return None;
        }
        acc = acc2;
        i = i + 1;
    }
    assert(pre + s@.subrange(from as int, i as int) == whole);
    Some(acc as u64)
}

/// Reads a number literal into mantissa and scale.
pub fn parse_num_lit(s: &Vec<char>) -> (r: Option<(i64, u32)>)
    ensures
        match r {
            Some(p) => num_lit_of(s@) == Some((p.0 as int, p.1 as nat)) && p.1 <= 18,
            None => num_lit_of(s@) is None,
        },
{
    let n = s.len();
    let neg = n > 0 && s[0] == '-';
    let start: usize = if neg { 1 } else { 0 };
    if n <= start {
        return None;
    }
    // find the decimal point, if any
    let mut j: usize = start;
    while j < n && s[j] != '.'
        invariant
            start <= j <= n,
            n == s@.len(),
            find_dot_from(s@, start as int) == find_dot_from(s@, j as int),
        decreases n - j,
    {
        j = j + 1;
    }
    let dot: Option<usize> = if j < n {
        Some(j)
    } else {
        None
    };
    match dot {
        None => {
            assert(find_dot_from(s@, start as int) is None);
            let acc = accum_digits(s, start, n, 0, Ghost(Seq::empty()));
            proof {
                assert(Seq::<char>::empty() + s@.subrange(start as int, n as int) =~= s@.subrange(
                    start as int, n as int));
                assert(digits_val(Seq::<char>::empty()) == 0);
            }
            match acc {
                None => None,
                Some(mag) => {
                    let m: i64 = if neg {
                        -(mag as i64)
                    } else {
                        mag as i64
                    };
                    proof {
                        let ip = s@.subrange(start as int, n as int);
                        assert(Seq::<char>::empty() + ip =~= ip);
                        assert(mag as nat == digits_val(ip));
                        assert(find_dot_from(s@, start as int) is None);
                        assert((-1int) * (mag as int) == -(mag as int)) by (nonlinear_arith);
                        assert((1int) * (mag as int) == mag as int) by (nonlinear_arith);
                        assert(num_lit_of(s@) == Some((m as int, 0nat)));
                    }
                    Some((m, 0))
                },
            }
        },
        Some(dj) => {
            assert(find_dot_from(s@, start as int) == Some(dj as int));
            if dj <= start {
                return None;
            }
            if n - dj - 1 == 0 {
                return None;
            }
            if n - dj - 1 > 18 {
                return None;
            }
            let ip_acc = accum_digits(s, start, dj, 0, Ghost(Seq::empty()));
            proof {
                assert(Seq::<char>::empty() + s@.subrange(start as int, dj as int) =~= s@.subrange(
                    start as int, dj as int));
            }
            match ip_acc {
                None => {
                    proof {
                        if all_digits(s@.subrange(start as int, dj as int)) {
                            let ip = s@.subrange(start as int, dj as int);
                            let fp = s@.subrange(dj as int + 1, n as int);
                            assert(ip =~= (ip + fp).take(ip.len() as int));
                            lemma_digits_val_take_mono(ip + fp, ip.len() as int,
                                (ip + fp).len() as int);
                            assert((ip + fp).take((ip + fp).len() as int) =~= ip + fp);
                        }
                    }
                    None
                },
                Some(ip_val) => {
                    let acc = accum_digits(s, dj + 1, n, ip_val,
                        Ghost(s@.subrange(start as int, dj as int)));
                    match acc {
                        None => None,
                        Some(mag) => {
                            let m: i64 = if neg {
                                -(mag as i64)
                            } else {
                                mag as i64
                            };
                            proof {
                                let ip = s@.subrange(start as int, dj as int);
                                let fp = s@.subrange(dj as int + 1, n as int);
                                assert(mag as nat == digits_val(ip + fp));
                                assert((-1int) * (mag as int) == -(mag as int))
                                    by (nonlinear_arith);
                                assert((1int) * (mag as int) == mag as int) by (nonlinear_arith);
                                assert(num_lit_of(s@) == Some(
                                    (m as int, (n - dj - 1) as nat),
                                ));
                            }
                            Some((m, (n - dj - 1) as u32))
                        },
                    }
                },
            }
        },
    }
}

} // verus!
