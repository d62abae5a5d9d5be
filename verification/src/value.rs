use vstd::prelude::*;
use vstd::string::StringExecFns;
use crate::chars::chars_to_string;
use crate::num::{int_chars, lemma_pow10_18, lemma_pow10_mono, nat_digits, pow10, pow10_u64,
    i64_to_chars, u64_to_chars};
use crate::token::CmpOp;

verus! {

// ---------------------------------------------------------------------------
// Decimal numbers
// ---------------------------------------------------------------------------

/// The mathematical image of a `Decimal`: the rational number `m / 10^s`.
pub struct DecV {
    pub m: int,
    pub s: nat,
}

/// An exact decimal number `mantissa / 10^scale`, the library's carrier for
/// fractional numeric values. `3.14` is `mantissa = 314, scale = 2`.
#[derive(Clone, Copy, Debug, PartialEq, Eq)]
pub struct Decimal {
    mantissa: i64,
    scale: u32,
}

/// The largest scale a `Decimal` may carry; enough for every digit of a
/// 64-bit mantissa, and small enough that cross-multiplied comparisons stay
/// exact in machine arithmetic.
pub const MAX_SCALE: u32 = 18;

impl Decimal {
    #[verifier::type_invariant]
    pub closed spec fn wf(self) -> bool {
        self.scale <= MAX_SCALE
    }

    /// Builds `mantissa / 10^scale`; rejects scales beyond `MAX_SCALE`.
    pub fn new(mantissa: i64, scale: u32) -> (r: Option<Decimal>)
        ensures
            scale <= MAX_SCALE ==> (r matches Some(d) && d@ == (DecV {
                m: mantissa as int,
                s: scale as nat,
            })),
            scale > MAX_SCALE ==> r is None,
    {
        if scale <= MAX_SCALE {
            Some(Decimal { mantissa, scale })
        } else {
            None
        }
    }

    /// The decimal with the value of a whole number.
    pub fn from_int(v: i64) -> (r: Decimal)
        ensures
            r@ == (DecV { m: v as int, s: 0 }),
    {
        Decimal { mantissa: v, scale: 0 }
    }
}

impl View for Decimal {
    type V = DecV;

    closed spec fn view(&self) -> DecV {
        DecV { m: self.mantissa as int, s: self.scale as nat }
    }
}

/// The mantissa of `a` brought to the common scale `a.s + b.s`. Two decimals
/// compare exactly as their cross-scaled mantissas do.
pub open spec fn dec_cross(a: DecV, b: DecV) -> int {
    a.m * pow10(b.s)
}

/// Whether the comparison `a op b` holds, numerically.
pub open spec fn num_cmp(op: CmpOp, a: DecV, b: DecV) -> bool {
    match op {
        CmpOp::Eq => dec_cross(a, b) == dec_cross(b, a),
        CmpOp::Ne => dec_cross(a, b) != dec_cross(b, a),
        CmpOp::Lt => dec_cross(a, b) < dec_cross(b, a),
        CmpOp::Le => dec_cross(a, b) <= dec_cross(b, a),
        CmpOp::Gt => dec_cross(a, b) > dec_cross(b, a),
        CmpOp::Ge => dec_cross(a, b) >= dec_cross(b, a),
    }
}

proof fn lemma_mul_in_i128(x: int, p: int)
    requires
        -0x8000_0000_0000_0000 <= x <= 0x7fff_ffff_ffff_ffff,
        0 <= p <= 0xDE0B_6B3A_7640_0000,
    ensures
        -0x8000_0000_0000_0000_0000_0000_0000_0000 <= x * p
            <= 0x7fff_ffff_ffff_ffff_ffff_ffff_ffff_ffff,
{
    assert(-0x8000_0000_0000_0000_0000_0000_0000_0000 <= x * p
        <= 0x7fff_ffff_ffff_ffff_ffff_ffff_ffff_ffff) by (nonlinear_arith)
        requires
            -0x8000_0000_0000_0000 <= x <= 0x7fff_ffff_ffff_ffff,
            0 <= p <= 0xDE0B_6B3A_7640_0000,
    ;
}

/// Compares two decimals by numeric value.
pub fn dec_compare(op: CmpOp, a: &Decimal, b: &Decimal) -> (r: bool)
    ensures
        r == num_cmp(op, a@, b@),
{
    proof {
        use_type_invariant(*a);
        use_type_invariant(*b);
        lemma_pow10_mono(a.scale as nat, 18);
        lemma_pow10_mono(b.scale as nat, 18);
        lemma_pow10_18();
    }
    let pa = pow10_u64(b.scale);
    let pb = pow10_u64(a.scale);
    proof {
        lemma_mul_in_i128(a.mantissa as int, pa as int);
        lemma_mul_in_i128(b.mantissa as int, pb as int);
    }
    let left: i128 = (a.mantissa as i128) * (pa as i128);
    let right: i128 = (b.mantissa as i128) * (pb as i128);
    match op {
        CmpOp::Eq => left == right,
        CmpOp::Ne => left != right,
        CmpOp::Lt => left < right,
        CmpOp::Le => left <= right,
        CmpOp::Gt => left > right,
        CmpOp::Ge => left >= right,
    }
}

// ---------------------------------------------------------------------------
// Values
// ---------------------------------------------------------------------------

/// The kind of a `Value`, named in type-mismatch errors.
#[derive(Clone, Copy, Debug, PartialEq, Eq, Structural)]
pub enum ValueKind {
    Int,
    Float,
    Bool,
    Text,
}

/// A typed runtime value a context binds a name to.
#[derive(Debug, PartialEq, Eq)]
pub enum Value {
    Int(i64),
    Float(Decimal),
    Bool(bool),
    Text(String),
}

/// The mathematical image of a `Value`.
pub enum ValueV {
    Int(int),
    Float(DecV),
    Bool(bool),
    Text(Seq<char>),
}

impl View for Value {
    type V = ValueV;

    open spec fn view(&self) -> ValueV {
        match self {
            Value::Int(i) => ValueV::Int(*i as int),
            Value::Float(d) => ValueV::Float(d@),
            Value::Bool(b) => ValueV::Bool(*b),
            Value::Text(s) => ValueV::Text(s@),
        }
    }
}

impl Value {
    /// A text value from a string slice.
    pub fn text(s: &str) -> (r: Value)
        ensures
            r@ == ValueV::Text(s@),
    {
        Value::Text(s.to_owned())
    }
}

pub open spec fn kind_of(v: ValueV) -> ValueKind {
    match v {
        ValueV::Int(_) => ValueKind::Int,
        ValueV::Float(_) => ValueKind::Float,
        ValueV::Bool(_) => ValueKind::Bool,
        ValueV::Text(_) => ValueKind::Text,
    }
}

pub fn value_kind(v: &Value) -> (k: ValueKind)
    ensures
        k == kind_of(v@),
{
    match v {
        Value::Int(_) => ValueKind::Int,
        Value::Float(_) => ValueKind::Float,
        Value::Bool(_) => ValueKind::Bool,
        Value::Text(_) => ValueKind::Text,
    }
}

// ---------------------------------------------------------------------------
// Stringification
// ---------------------------------------------------------------------------

pub open spec fn bool_chars(b: bool) -> Seq<char> {
    if b {
        seq!['t', 'r', 'u', 'e']
    } else {
        seq!['f', 'a', 'l', 's', 'e']
    }
}

pub open spec fn zeros(n: nat) -> Seq<char> {
    Seq::new(n, |i: int| '0')
}

/// `ds` widened to at least `w` characters by leading zeros.
pub open spec fn pad_left(ds: Seq<char>, w: nat) -> Seq<char> {
    if ds.len() >= w {
        ds
    } else {
        zeros((w - ds.len()) as nat) + ds
    }
}

/// The output text of a decimal: the sign, then the mantissa's digits with a
/// point placed `s` digits from the right, the whole part zero-padded so at
/// least one digit stands before the point (`m = 5, s = 3` prints "0.005").
/// A scale of zero prints as a plain integer.
pub open spec fn dec_chars(d: DecV) -> Seq<char> {
    let sign: Seq<char> = if d.m < 0 { seq!['-'] } else { Seq::empty() };
    let mag: nat = (if d.m < 0 { -d.m } else { d.m }) as nat;
    if d.s == 0 {
        sign + nat_digits(mag)
    } else {
        let ds = pad_left(nat_digits(mag), d.s + 1);
        sign + ds.take(ds.len() - d.s) + seq!['.'] + ds.skip(ds.len() - d.s)
    }
}

/// The output text of a value: Int in decimal, Float as `dec_chars`, Bool as
/// "true"/"false", Text verbatim.
pub open spec fn stringify(v: ValueV) -> Seq<char> {
    match v {
        ValueV::Int(i) => int_chars(i),
        ValueV::Float(d) => dec_chars(d),
        ValueV::Bool(b) => bool_chars(b),
        ValueV::Text(s) => s,
    }
}

pub fn dec_to_chars(d: &Decimal) -> (r: Vec<char>)
    ensures
        r@ == dec_chars(d@),
{
    proof {
        use_type_invariant(*d);
    }
    if d.scale == 0 {
        i64_to_chars(d.mantissa)
    } else {
        let neg = d.mantissa < 0;
        let mag: u64 = if neg {
            (-(d.mantissa as i128)) as u64
        } else {
            d.mantissa as u64
        };
        assert(mag as nat == (if d@.m < 0 { -d@.m } else { d@.m }) as nat);
        let mut digs = u64_to_chars(mag);
        let ghost nd = nat_digits(mag as nat);
        let w = d.scale as usize + 1;
        assert(w as nat == d@.s + 1);
        while digs.len() < w
            invariant
                digs@ =~= zeros((digs@.len() - nd.len()) as nat) + nd,
                nd.len() >= 1,
                w <= 19,
                digs@.len() == nd.len() || digs@.len() <= w,
            decreases w - digs.len(),
        {
            digs.insert(0, '0');
            assert(digs@ =~= zeros((digs@.len() - nd.len()) as nat) + nd);
        }
        assert(w as nat == d@.s + 1);
        assert(digs@ =~= pad_left(nd, d@.s + 1));
        let split = digs.len() - d.scale as usize;
        let mut out: Vec<char> = Vec::new();
        if neg {
            out.push('-');
        }
        let ghost sign: Seq<char> = if d@.m < 0 { seq!['-'] } else { Seq::empty() };
        assert(out@ =~= sign);
        let mut k: usize = 0;
        while k < split
            invariant
                k <= split <= digs@.len(),
                out@ =~= sign + digs@.take(k as int),
            decreases split - k,
        {
            out.push(digs[k]);
            k = k + 1;
            assert(out@ =~= sign + digs@.take(k as int));
        }
        out.push('.');
        let ghost mid = out@;
        let mut k2: usize = split;
        while k2 < digs.len()
            invariant
                split <= k2 <= digs@.len(),
                out@ =~= mid + digs@.subrange(split as int, k2 as int),
                mid == sign + digs@.take(split as int) + seq!['.'],
            decreases digs@.len() - k2,
        {
            out.push(digs[k2]);
            k2 = k2 + 1;
            assert(out@ =~= mid + digs@.subrange(split as int, k2 as int));
        }
        assert(out@ =~= dec_chars(d@));
        out
    }
}

/// Renders a value as output text.
pub fn stringify_value(v: &Value) -> (r: String)
    ensures
        r@ == stringify(v@),
{
    match v {
        Value::Int(i) => {
            let cs = i64_to_chars(*i);
            chars_to_string(&cs)
        },
        Value::Float(d) => {
            let cs = dec_to_chars(d);
            chars_to_string(&cs)
        },
        Value::Bool(b) => {
            if *b {
                proof {
                    reveal_strlit("true");
                }
                assert("true"@ =~= bool_chars(true));
                String::from_str("true")
            } else {
                proof {
                    reveal_strlit("false");
                }
                assert("false"@ =~= bool_chars(false));
                String::from_str("false")
            }
        },
        Value::Text(s) => s.clone(),
    }
}

// ---------------------------------------------------------------------------
// Context
// ---------------------------------------------------------------------------

/// The binding a name resolves to: the most recently inserted entry with that
/// name wins.
pub open spec fn lookup(entries: Seq<(String, Value)>, name: Seq<char>) -> Option<ValueV>
    decreases entries.len(),
{
    if entries.len() == 0 {
        None
    } else if entries[0].0@ == name {
        Some(entries[0].1@)
    } else {
        lookup(entries.drop_first(), name)
    }
}

/// A read-only mapping from variable names to typed values, supplied by the
/// caller of `format`.
pub struct Context {
    entries: Vec<(String, Value)>,
}

impl View for Context {
    type V = Map<Seq<char>, ValueV>;

    closed spec fn view(&self) -> Map<Seq<char>, ValueV> {
        Map::new(
            |k: Seq<char>| lookup(self.entries@, k) is Some,
            |k: Seq<char>| lookup(self.entries@, k)->0,
        )
    }
}

impl Context {
    /// An empty context.
    pub fn new() -> (r: Context)
        ensures
            r@ == Map::<Seq<char>, ValueV>::empty(),
    {
        let r = Context { entries: Vec::new() };
        assert(r@ =~= Map::<Seq<char>, ValueV>::empty());
        r
    }

    /// Binds `name` to `value`, shadowing any earlier binding of the name.
    pub fn insert(&mut self, name: &str, value: Value)
        ensures
            final(self)@ == old(self)@.insert(name@, value@),
    {
        let ghost value_v = value@;
        let key = name.to_owned();
        self.entries.insert(0, (key, value));
        proof {
            assert(self.entries@.drop_first() =~= old(self).entries@);
            assert(self.entries@[0].0@ == name@ && self.entries@[0].1@ == value_v);
            assert(self@ =~= old(self)@.insert(name@, value_v));
        }
    }

    /// Looks a name up; `None` when the context holds no binding for it.
    pub fn get(&self, name: &str) -> (r: Option<&Value>)
        ensures
            match r {
                Some(v) => self@.contains_key(name@) && v@ == self@[name@],
                None => !self@.contains_key(name@),
            },
    {
        let key = name.to_owned();
        let n = self.entries.len();
        let mut i: usize = 0;
        proof {
            assert(self.entries@.skip(0) =~= self.entries@);
        }
        while i < n
            invariant
                i <= n,
                n == self.entries@.len(),
                key@ == name@,
                lookup(self.entries@, name@) == lookup(self.entries@.skip(i as int), name@),
            decreases n - i,
        {
            let e = &self.entries[i];
            proof {
                assert(self.entries@.skip(i as int)[0] == self.entries@[i as int]);
                assert(self.entries@.skip(i as int).drop_first() =~= self.entries@.skip(
                    i as int + 1));
            }
            if e.0 == key {
                return Some(&e.1);
            }
            i = i + 1;
        }
        proof {
            assert(self.entries@.skip(n as int) =~= Seq::<(String, Value)>::empty());
        }
        None
    }
}

} // verus!
