use vstd::prelude::*;
use crate::token::CmpOp;
use crate::value::{DecV, Decimal, ValueKind};

verus! {

// ---------------------------------------------------------------------------
// Errors
// ---------------------------------------------------------------------------

/// A structural fault of the template text itself, found without any context.
#[derive(Clone, Copy, Debug, PartialEq, Eq, Structural)]
pub enum ParseError {
    /// A directive was opened and the text ended before it closed.
    UnterminatedDirective,
    /// A directive span with no tokens at all.
    EmptyDirective,
    /// A number literal of the wrong shape, or one too large to represent.
    InvalidNumber,
    /// A directive span matching none of the directive forms.
    UnknownDirectiveShape,
    /// Mismatched parentheses or brackets inside a directive span.
    UnbalancedGrouping,
}

/// A semantic fault found only when formatting against a concrete context.
#[derive(Debug, PartialEq, Eq)]
pub enum FormatError {
    /// A directive named a variable the context does not bind.
    MissingVariable(String),
    /// A variable was bound, but to a value of an unusable kind.
    TypeMismatch { name: String, expected: ValueKind, found: ValueKind },
    /// A repeat count that is negative.
    InvalidCount,
}

/// The mathematical image of a `FormatError`.
pub enum FormatErrorV {
    MissingVariable(Seq<char>),
    TypeMismatch { name: Seq<char>, expected: ValueKind, found: ValueKind },
    InvalidCount,
}

impl View for FormatError {
    type V = FormatErrorV;

    open spec fn view(&self) -> FormatErrorV {
        match self {
            FormatError::MissingVariable(n) => FormatErrorV::MissingVariable(n@),
            FormatError::TypeMismatch { name, expected, found } => FormatErrorV::TypeMismatch {
                name: name@,
                expected: *expected,
                found: *found,
            },
            FormatError::InvalidCount => FormatErrorV::InvalidCount,
        }
    }
}

// ---------------------------------------------------------------------------
// The AST
// ---------------------------------------------------------------------------

/// What a repeat directive repeats: a context variable's value, or raw text.
#[derive(Debug, PartialEq, Eq)]
pub enum RepeatSource {
    Variable(String),
    LiteralText(String),
}

pub enum RepeatSourceV {
    Variable(Seq<char>),
    LiteralText(Seq<char>),
}

impl View for RepeatSource {
    type V = RepeatSourceV;

    open spec fn view(&self) -> RepeatSourceV {
        match self {
            RepeatSource::Variable(n) => RepeatSourceV::Variable(n@),
            RepeatSource::LiteralText(s) => RepeatSourceV::LiteralText(s@),
        }
    }
}

/// Where a repeat directive's count comes from.
#[derive(Debug, PartialEq, Eq)]
pub enum CountSource {
    LiteralInt(u64),
    Variable(String),
}

pub enum CountSourceV {
    LiteralInt(u64),
    Variable(Seq<char>),
}

impl View for CountSource {
    type V = CountSourceV;

    open spec fn view(&self) -> CountSourceV {
        match self {
            CountSource::LiteralInt(k) => CountSourceV::LiteralInt(*k),
            CountSource::Variable(n) => CountSourceV::Variable(n@),
        }
    }
}

/// The right-hand literal of a comparison.
#[derive(Debug, PartialEq, Eq)]
pub enum CmpLit {
    Int(i64),
    Float(Decimal),
    Text(String),
}

pub enum CmpLitV {
    Int(int),
    Float(DecV),
    Text(Seq<char>),
}

impl View for CmpLit {
    type V = CmpLitV;

    open spec fn view(&self) -> CmpLitV {
        match self {
            CmpLit::Int(i) => CmpLitV::Int(*i as int),
            CmpLit::Float(d) => CmpLitV::Float(d@),
            CmpLit::Text(s) => CmpLitV::Text(s@),
        }
    }
}

/// The condition of a conditional directive.
#[derive(Debug, PartialEq, Eq)]
pub enum Condition {
    /// A bare identifier naming a boolean variable.
    BoolVar(String),
    /// A variable compared against a literal.
    Compare { left: String, op: CmpOp, right: CmpLit },
}

pub enum ConditionV {
    BoolVar(Seq<char>),
    Compare { left: Seq<char>, op: CmpOp, right: CmpLitV },
}

impl View for Condition {
    type V = ConditionV;

    open spec fn view(&self) -> ConditionV {
        match self {
            Condition::BoolVar(n) => ConditionV::BoolVar(n@),
            Condition::Compare { left, op, right } => ConditionV::Compare {
                left: left@,
                op: *op,
                right: right@,
            },
        }
    }
}

/// The views of a vector of switch cases, pattern and result text each.
pub open spec fn pairs_view(s: Seq<(String, String)>) -> Seq<(Seq<char>, Seq<char>)> {
    s.map_values(|c: (String, String)| (c.0@, c.1@))
}

pub proof fn lemma_pairs_view_cons(h: (String, String), rest: Seq<(String, String)>)
    ensures
        pairs_view(seq![h] + rest) == seq![(h.0@, h.1@)] + pairs_view(rest),
{
    let lhs = pairs_view(seq![h] + rest);
    let rhs = seq![(h.0@, h.1@)] + pairs_view(rest);
    assert forall|k: int| 0 <= k < lhs.len() implies lhs[k] == rhs[k] by {
        if k == 0 {
            assert((seq![h] + rest)[0] == h);
        } else {
            assert((seq![h] + rest)[k] == rest[k - 1]);
        }
    }
    assert(lhs =~= rhs);
}

/// One parsed piece of a template: literal text, or one directive.
#[derive(Debug, PartialEq, Eq)]
pub enum Segment {
    Literal(String),
    Variable(String),
    Repeat { source: RepeatSource, count: CountSource },
    Conditional { cond: Condition, then_text: String, else_text: String },
    Switch { selector: String, cases: Vec<(String, String)> },
}

pub enum SegmentV {
    Literal(Seq<char>),
    Variable(Seq<char>),
    Repeat { source: RepeatSourceV, count: CountSourceV },
    Conditional { cond: ConditionV, then_text: Seq<char>, else_text: Seq<char> },
    Switch { selector: Seq<char>, cases: Seq<(Seq<char>, Seq<char>)> },
}

impl View for Segment {
    type V = SegmentV;

    open spec fn view(&self) -> SegmentV {
        match self {
            Segment::Literal(s) => SegmentV::Literal(s@),
            Segment::Variable(n) => SegmentV::Variable(n@),
            Segment::Repeat { source, count } => SegmentV::Repeat {
                source: source@,
                count: count@,
            },
            Segment::Conditional { cond, then_text, else_text } => SegmentV::Conditional {
                cond: cond@,
                then_text: then_text@,
                else_text: else_text@,
            },
            Segment::Switch { selector, cases } => SegmentV::Switch {
                selector: selector@,
                cases: pairs_view(cases@),
            },
        }
    }
}

pub open spec fn segs_view(s: Seq<Segment>) -> Seq<SegmentV> {
    s.map_values(|g: Segment| g@)
}

pub proof fn lemma_segs_view_cons(h: Segment, rest: Seq<Segment>)
    ensures
        segs_view(seq![h] + rest) == seq![h@] + segs_view(rest),
{
    let lhs = segs_view(seq![h] + rest);
    let rhs = seq![h@] + segs_view(rest);
    assert forall|k: int| 0 <= k < lhs.len() implies lhs[k] == rhs[k] by {
        if k == 0 {
            assert((seq![h] + rest)[0] == h);
        } else {
            assert((seq![h] + rest)[k] == rest[k - 1]);
        }
    }
    assert(lhs =~= rhs);
}

// ---------------------------------------------------------------------------
// Templates
// ---------------------------------------------------------------------------

/// The immutable parsed form of a template: its delimiter pair and its
/// segments, in order.
#[derive(Debug, PartialEq, Eq)]
pub struct Template {
    pub open_ch: char,
    pub close_ch: char,
    pub segments: Vec<Segment>,
}

/// The mathematical image of a `Template`.
pub struct TemplateV {
    pub open_ch: char,
    pub close_ch: char,
    pub segments: Seq<SegmentV>,
}

impl View for Template {
    type V = TemplateV;

    open spec fn view(&self) -> TemplateV {
        TemplateV {
            open_ch: self.open_ch,
            close_ch: self.close_ch,
            segments: segs_view(self.segments@),
        }
    }
}

} // verus!
