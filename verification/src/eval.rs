use vstd::prelude::*;
use vstd::string::StringExecFns;
use crate::ast::{ConditionV, CmpLit, CmpLitV, Condition, CountSource, CountSourceV, FormatError,
    FormatErrorV, RepeatSource, RepeatSourceV, Segment, SegmentV, Template, TemplateV, pairs_view};
use crate::value::{Context, DecV, Decimal, Value, ValueKind, ValueV, dec_compare, kind_of,
    num_cmp, stringify, stringify_value, value_kind};

verus! {

// ---------------------------------------------------------------------------
// What formatting means
// ---------------------------------------------------------------------------

/// `s` repeated `n` times, end to end.
pub open spec fn repeat_seq(s: Seq<char>, n: nat) -> Seq<char>
    decreases n,
{
    if n == 0 {
        Seq::empty()
    } else {
        repeat_seq(s, (n - 1) as nat) + s
    }
}

/// The numeric value a comparison literal stands for; text literals never
/// reach this.
pub open spec fn lit_as_dec(l: CmpLitV) -> DecV {
    match l {
        CmpLitV::Int(i) => DecV { m: i, s: 0 },
        CmpLitV::Float(d) => d,
        CmpLitV::Text(_) => DecV { m: 0, s: 0 },
    }
}

/// The boolean a condition evaluates to under a context. A bare identifier
/// must name a `Bool`. A comparison against a numeric literal needs a numeric
/// left side, compared by numeric value across `Int` and `Float`; against a
/// text literal only `==`/`!=` apply, over the stringified left side, and the
/// ordering operators are a type mismatch.
pub open spec fn eval_cond(c: ConditionV, ctx: Map<Seq<char>, ValueV>) -> Result<
    bool,
    FormatErrorV,
> {
    match c {
        ConditionV::BoolVar(n) => if !ctx.contains_key(n) {
            Err(FormatErrorV::MissingVariable(n))
        } else {
            match ctx[n] {
                ValueV::Bool(b) => Ok(b),
                v => Err(FormatErrorV::TypeMismatch {
                    name: n,
                    expected: ValueKind::Bool,
                    found: kind_of(v),
                }),
            }
        },
        ConditionV::Compare { left, op, right } => if !ctx.contains_key(left) {
            Err(FormatErrorV::MissingVariable(left))
        } else {
            let v = ctx[left];
            match right {
                CmpLitV::Text(s) => match op {
                    crate::token::CmpOp::Eq => Ok(stringify(v) == s),
                    crate::token::CmpOp::Ne => Ok(stringify(v) != s),
                    _ => Err(FormatErrorV::TypeMismatch {
                        name: left,
                        expected: ValueKind::Int,
                        found: kind_of(v),
                    }),
                },
                _ => match v {
                    ValueV::Int(i) => Ok(num_cmp(op, DecV { m: i, s: 0 }, lit_as_dec(right))),
                    ValueV::Float(d) => Ok(num_cmp(op, d, lit_as_dec(right))),
                    _ => Err(FormatErrorV::TypeMismatch {
                        name: left,
                        expected: ValueKind::Int,
                        found: kind_of(v),
                    }),
                },
            }
        },
    }
}

/// The repeated text once the source string is known: a literal count is used
/// directly; a count variable must name a non-negative `Int`.
pub open spec fn eval_repeat(s: Seq<char>, count: CountSourceV, ctx: Map<Seq<char>, ValueV>)
    -> Result<Seq<char>, FormatErrorV> {
    match count {
        CountSourceV::LiteralInt(k) => Ok(repeat_seq(s, k as nat)),
        CountSourceV::Variable(n) => if !ctx.contains_key(n) {
            Err(FormatErrorV::MissingVariable(n))
        } else {
            match ctx[n] {
                ValueV::Int(i) => if i < 0 {
                    Err(FormatErrorV::InvalidCount)
                } else {
                    Ok(repeat_seq(s, i as nat))
                },
                v => Err(FormatErrorV::TypeMismatch {
                    name: n,
                    expected: ValueKind::Int,
                    found: kind_of(v),
                }),
            }
        },
    }
}

/// The result text of the first case whose pattern equals the stringified
/// selector; empty when none matches.
pub open spec fn first_case(cases: Seq<(Seq<char>, Seq<char>)>, sel: Seq<char>) -> Seq<char>
    decreases cases.len(),
{
    if cases.len() == 0 {
        Seq::empty()
    } else if cases[0].0 == sel {
        cases[0].1
    } else {
        first_case(cases.drop_first(), sel)
    }
}

/// The text one segment contributes, or the error that stops formatting.
pub open spec fn eval_seg(seg: SegmentV, ctx: Map<Seq<char>, ValueV>) -> Result<
    Seq<char>,
    FormatErrorV,
> {
    match seg {
        SegmentV::Literal(s) => Ok(s),
        SegmentV::Variable(n) => if ctx.contains_key(n) {
            Ok(stringify(ctx[n]))
        } else {
            Err(FormatErrorV::MissingVariable(n))
        },
        SegmentV::Repeat { source, count } => match source {
            RepeatSourceV::Variable(n) => if !ctx.contains_key(n) {
                Err(FormatErrorV::MissingVariable(n))
            } else {
                eval_repeat(stringify(ctx[n]), count, ctx)
            },
            RepeatSourceV::LiteralText(s) => eval_repeat(s, count, ctx),
        },
        SegmentV::Conditional { cond, then_text, else_text } => match eval_cond(cond, ctx) {
            Err(e) => Err(e),
            Ok(b) => Ok(
                if b {
                    then_text
                } else {
                    else_text
                },
            ),
        },
        SegmentV::Switch { selector, cases } => if !ctx.contains_key(selector) {
            Err(FormatErrorV::MissingVariable(selector))
        } else {
            Ok(first_case(cases, stringify(ctx[selector])))
        },
    }
}

/// The output of the segments from `i` on: their texts in order, or the
/// first error.
pub open spec fn format_from(segs: Seq<SegmentV>, ctx: Map<Seq<char>, ValueV>, i: int) -> Result<
    Seq<char>,
    FormatErrorV,
>
    decreases segs.len() - i,
{
    if i < 0 || i >= segs.len() {
        Ok(Seq::empty())
    } else {
        match eval_seg(segs[i], ctx) {
            Err(e) => Err(e),
            Ok(p) => match format_from(segs, ctx, i + 1) {
                Ok(r) => Ok(p + r),
                Err(e) => Err(e),
            },
        }
    }
}

/// What formatting a template against a context yields: the concatenation of
/// its segments' texts, or the first error. The delimiter pair plays no part.
pub open spec fn spec_format(t: TemplateV, ctx: Map<Seq<char>, ValueV>) -> Result<
    Seq<char>,
    FormatErrorV,
> {
    format_from(t.segments, ctx, 0)
}

// ---------------------------------------------------------------------------
// Executable evaluation
// ---------------------------------------------------------------------------

fn eval_cond_exec(c: &Condition, ctx: &Context) -> (r: Result<bool, FormatError>)
    ensures
        match r {
            Ok(b) => eval_cond(c@, ctx@) == Ok::<bool, FormatErrorV>(b),
            Err(e) => eval_cond(c@, ctx@) == Err::<bool, FormatErrorV>(e@),
        },
{
    match c {
        Condition::BoolVar(n) => match ctx.get(n.as_str()) {
            None => Err(FormatError::MissingVariable(n.clone())),
            Some(v) => match v {
                Value::Bool(b) => Ok(*b),
                other => Err(FormatError::TypeMismatch {
                    name: n.clone(),
                    expected: ValueKind::Bool,
                    found: value_kind(other),
                }),
            },
        },
        Condition::Compare { left, op, right } => match ctx.get(left.as_str()) {
            None => Err(FormatError::MissingVariable(left.clone())),
            Some(v) => match right {
                CmpLit::Text(s) => match op {
                    crate::token::CmpOp::Eq => {
                        let sv = stringify_value(v);
                        Ok(sv == *s)
                    },
                    crate::token::CmpOp::Ne => {
                        let sv = stringify_value(v);
                        Ok(!(sv == *s))
                    },
                    _ => Err(FormatError::TypeMismatch {
                        name: left.clone(),
                        expected: ValueKind::Int,
                        found: value_kind(v),
                    }),
                },
                _ => {
                    let rhs: Decimal = match right {
                        CmpLit::Int(i) => Decimal::from_int(*i),
                        CmpLit::Float(d) => *d,
                        CmpLit::Text(_) => Decimal::from_int(0),
                    };
                    match v {
                        Value::Int(i) => {
                            let ld = Decimal::from_int(*i);
                            Ok(dec_compare(*op, &ld, &rhs))
                        },
                        Value::Float(d) => Ok(dec_compare(*op, d, &rhs)),
                        other => Err(FormatError::TypeMismatch {
                            name: left.clone(),
                            expected: ValueKind::Int,
                            found: value_kind(other),
                        }),
                    }
                },
            },
        },
    }
}

fn repeat_exec(src: &String, k: u64) -> (r: String)
    ensures
        r@ == repeat_seq(src@, k as nat),
{
    let mut out = String::new();
    let mut j: u64 = 0;
    while j < k
        invariant
            j <= k,
            out@ == repeat_seq(src@, j as nat),
        decreases k - j,
    {
        out.append(src.as_str());
        j = j + 1;
    }
    out
}

fn eval_seg_exec(seg: &Segment, ctx: &Context) -> (r: Result<String, FormatError>)
    ensures
        match r {
            Ok(s) => eval_seg(seg@, ctx@) == Ok::<Seq<char>, FormatErrorV>(s@),
            Err(e) => eval_seg(seg@, ctx@) == Err::<Seq<char>, FormatErrorV>(e@),
        },
{
    match seg {
        Segment::Literal(s) => Ok(s.clone()),
        Segment::Variable(n) => match ctx.get(n.as_str()) {
            None => Err(FormatError::MissingVariable(n.clone())),
            Some(v) => Ok(stringify_value(v)),
        },
        Segment::Repeat { source, count } => {
            let src: String = match source {
                RepeatSource::Variable(n) => match ctx.get(n.as_str()) {
                    None => {
                        return Err(FormatError::MissingVariable(n.clone()));
                    },
                    Some(v) => stringify_value(v),
                },
                RepeatSource::LiteralText(s) => s.clone(),
            };
            let k: u64 = match count {
                CountSource::LiteralInt(k) => *k,
                CountSource::Variable(n) => match ctx.get(n.as_str()) {
                    None => {
                        return Err(FormatError::MissingVariable(n.clone()));
                    },
                    Some(v) => match v {
                        Value::Int(i) => {
                            if *i < 0 {
                                return Err(FormatError::InvalidCount);
                            }
                            *i as u64
                        },
                        other => {
                            return Err(FormatError::TypeMismatch {
                                name: n.clone(),
                                expected: ValueKind::Int,
                                found: value_kind(other),
                            });
                        },
                    },
                },
            };
            Ok(repeat_exec(&src, k))
        },
        Segment::Conditional { cond, then_text, else_text } => match eval_cond_exec(cond, ctx) {
            Err(e) => Err(e),
            Ok(b) => if b {
                Ok(then_text.clone())
            } else {
                Ok(else_text.clone())
            },
        },
        Segment::Switch { selector, cases } => match ctx.get(selector.as_str()) {
            None => Err(FormatError::MissingVariable(selector.clone())),
            Some(v) => {
                let sv = stringify_value(v);
                let n = cases.len();
                let mut i: usize = 0;
                proof {
                    assert(pairs_view(cases@).skip(0) =~= pairs_view(cases@));
                }
                while i < n
                    invariant
                        i <= n,
                        n == cases@.len(),
                        seg@ == (SegmentV::Switch { selector: selector@, cases: pairs_view(cases@) }),
                        ctx@.contains_key(selector@),
                        sv@ == stringify(ctx@[selector@]),
                        pairs_view(cases@).len() == n,
                        first_case(pairs_view(cases@), sv@) == first_case(
                            pairs_view(cases@).skip(i as int),
                            sv@,
                        ),
                    decreases n - i,
                {
                    proof {
                        assert(pairs_view(cases@).skip(i as int)[0] == pairs_view(cases@)[
                            i as int]);
                        assert(pairs_view(cases@).skip(i as int).drop_first() =~= pairs_view(
                            cases@,
                        ).skip(i as int + 1));
                        assert(pairs_view(cases@)[i as int] == (cases@[i as int].0@, cases@[
                            i as int].1@));
                    }
                    let e = &cases[i];
                    if e.0 == sv {
                        return Ok(e.1.clone());
                    }
                    i = i + 1;
                }
                proof {
                    assert(pairs_view(cases@).skip(n as int) =~= Seq::<
                        (Seq<char>, Seq<char>),
                    >::empty());
                }
                Ok(String::new())
            },
        },
    }
}

/// Joins an already-produced prefix with the outcome of the remaining work.
pub open spec fn glue(prefix: Seq<char>, r: Result<Seq<char>, FormatErrorV>) -> Result<
    Seq<char>,
    FormatErrorV,
> {
    match r {
        Ok(s) => Ok(prefix + s),
        Err(e) => Err(e),
    }
}

impl Template {
    /// Formats this template against a context, producing the substituted
    /// output text or the first error. The result is a function of the
    /// template and context values alone: repeated calls agree, and nothing
    /// is mutated.
    pub fn format(&self, ctx: &Context) -> (r: Result<String, FormatError>)
        ensures
            match r {
                Ok(s) => spec_format(self@, ctx@) == Ok::<Seq<char>, FormatErrorV>(s@),
                Err(e) => spec_format(self@, ctx@) == Err::<Seq<char>, FormatErrorV>(e@),
            },
    {
        let n = self.segments.len();
        let mut out = String::new();
        let mut i: usize = 0;
        proof {
            assert(out@ + format_from(self@.segments, ctx@, 0)->Ok_0 =~= format_from(
                self@.segments, ctx@, 0,
            )->Ok_0);
        }
        while i < n
            invariant
                i <= n,
                n == self.segments@.len(),
                self@.segments.len() == n,
                glue(out@, format_from(self@.segments, ctx@, i as int)) == format_from(
                    self@.segments, ctx@, 0,
                ),
            decreases n - i,
        {
            proof {
                assert(self@.segments[i as int] == self.segments@[i as int]@);
            }
            match eval_seg_exec(&self.segments[i], ctx) {
                Err(e) => {
                    return Err(e);
                },
                Ok(p) => {
                    let ghost pre = out@;
                    out.append(p.as_str());
                    proof {
                        let segs = self@.segments;
                        let rest = format_from(segs, ctx@, i as int + 1);
                        if rest is Ok {
                            assert(pre + (p@ + rest->Ok_0) =~= (pre + p@) + rest->Ok_0);
                        }
                    }
                },
            }
            i = i + 1;
        }
        proof {
            assert(glue(out@, Ok(Seq::<char>::empty())) == format_from(self@.segments, ctx@, 0));
            assert(out@ + Seq::<char>::empty() =~= out@);
        }
        Ok(out)
    }
}

} // verus!
