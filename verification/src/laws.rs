use vstd::prelude::*;
use crate::ast::{FormatErrorV, SegmentV};
use crate::eval::{eval_seg, format_from, repeat_seq};
use crate::ast::ParseError;
use crate::parser::{balanced_from, classify, find_close_from, find_top_colon, find_top_q,
    parse_segs, spec_parse};
use crate::token::{RunKind, TokenV, flush, is_ident_cont, is_ident_start, spec_tokenize,
    tok_from};
use crate::value::{ValueV, stringify};

verus! {

// ---------------------------------------------------------------------------
// Runs the tokenizer absorbs in one piece
// ---------------------------------------------------------------------------

/// Outside a directive, a run of non-delimiter characters only grows the
/// pending literal.
proof fn lemma_literal_run_until(
    t: Seq<char>,
    oc: char,
    cc: char,
    i: int,
    k: int,
    pending: Seq<char>,
)
    requires
        0 <= i <= k <= t.len(),
        forall|j: int| i <= j < k ==> t[j] != oc && t[j] != cc,
    ensures
        tok_from(t, oc, cc, i, false, RunKind::Lit, pending) == tok_from(
            t, oc, cc, k, false, RunKind::Lit, pending + t.subrange(i, k),
        ),
    decreases k - i,
{
    if i == k {
        assert(pending + t.subrange(i, k) =~= pending);
    } else {
        lemma_literal_run_until(t, oc, cc, i + 1, k, pending.push(t[i]));
        assert(pending.push(t[i]) + t.subrange(i + 1, k) =~= pending + t.subrange(i, k));
    }
}

/// Outside a directive, delimiter-free text to the end of the input flushes
/// as one literal run.
proof fn lemma_literal_tail(t: Seq<char>, oc: char, cc: char, i: int, pending: Seq<char>)
    requires
        0 <= i <= t.len(),
        forall|j: int| i <= j < t.len() ==> t[j] != oc && t[j] != cc,
    ensures
        tok_from(t, oc, cc, i, false, RunKind::Lit, pending) == flush(
            RunKind::Lit,
            pending + t.skip(i),
        ),
{
    lemma_literal_run_until(t, oc, cc, i, t.len() as int, pending);
    assert(t.subrange(i, t.len() as int) =~= t.skip(i));
}

/// Inside a directive, a run of identifier characters only grows the pending
/// identifier.
proof fn lemma_ident_run_until(
    t: Seq<char>,
    oc: char,
    cc: char,
    i: int,
    k: int,
    pending: Seq<char>,
)
    requires
        0 <= i <= k <= t.len(),
        pending.len() > 0,
        forall|j: int| i <= j < k ==> is_ident_cont(t[j]) && t[j] != oc && t[j] != cc,
    ensures
        tok_from(t, oc, cc, i, true, RunKind::Ident, pending) == tok_from(
            t, oc, cc, k, true, RunKind::Ident, pending + t.subrange(i, k),
        ),
    decreases k - i,
{
    if i == k {
        assert(pending + t.subrange(i, k) =~= pending);
    } else {
        lemma_ident_run_until(t, oc, cc, i + 1, k, pending.push(t[i]));
        assert(pending.push(t[i]) + t.subrange(i + 1, k) =~= pending + t.subrange(i, k));
    }
}

/// Inside a directive, a run of digits only grows the pending number.
proof fn lemma_num_run_until(
    t: Seq<char>,
    oc: char,
    cc: char,
    i: int,
    k: int,
    pending: Seq<char>,
)
    requires
        0 <= i <= k <= t.len(),
        pending.len() > 0,
        forall|j: int| i <= j < k ==> crate::num::is_digit(t[j]) && t[j] != oc && t[j] != cc,
    ensures
        tok_from(t, oc, cc, i, true, RunKind::Num, pending) == tok_from(
            t, oc, cc, k, true, RunKind::Num, pending + t.subrange(i, k),
        ),
    decreases k - i,
{
    if i == k {
        assert(pending + t.subrange(i, k) =~= pending);
    } else {
        lemma_num_run_until(t, oc, cc, i + 1, k, pending.push(t[i]));
        assert(pending.push(t[i]) + t.subrange(i + 1, k) =~= pending + t.subrange(i, k));
    }
}

// ---------------------------------------------------------------------------
// Literal-only templates format to themselves
// ---------------------------------------------------------------------------

/// A template without a single delimiter character parses, and formats to its
/// own text under every context, the empty one included.
pub proof fn law_literal_only(text: Seq<char>, oc: char, cc: char, ctx: Map<Seq<char>, ValueV>)
    requires
        forall|j: int| 0 <= j < text.len() ==> text[j] != oc && text[j] != cc,
    ensures
        spec_parse(text, oc, cc) is Ok,
        format_from(spec_parse(text, oc, cc)->Ok_0, ctx, 0) == Ok::<Seq<char>, FormatErrorV>(text),
{
    lemma_literal_tail(text, oc, cc, 0, Seq::empty());
    assert(Seq::<char>::empty() + text.skip(0) =~= text);
    let ts = spec_tokenize(text, oc, cc);
    if text.len() == 0 {
        assert(ts =~= Seq::<TokenV>::empty());
        assert(spec_parse(text, oc, cc) == Ok::<_, crate::ast::ParseError>(Seq::<
            SegmentV,
        >::empty()));
        assert(format_from(Seq::<SegmentV>::empty(), ctx, 0) == Ok::<Seq<char>, FormatErrorV>(
            Seq::<char>::empty(),
        ));
        assert(text =~= Seq::<char>::empty());
    } else {
        assert(ts == seq![TokenV::Literal(text)]);
        let segs = seq![SegmentV::Literal(text)];
        assert(parse_segs(ts, 1) == Ok::<Seq<SegmentV>, ParseError>(Seq::empty()));
        assert(parse_segs(ts, 0) == Ok::<Seq<SegmentV>, ParseError>(
            seq![SegmentV::Literal(text)] + Seq::<SegmentV>::empty(),
        ));
        assert(seq![SegmentV::Literal(text)] + Seq::<SegmentV>::empty() =~= segs);
        assert(spec_parse(text, oc, cc) == parse_segs(ts, 0));
        assert(format_from(segs, ctx, 1) == Ok::<Seq<char>, FormatErrorV>(Seq::<char>::empty()));
        assert(text + Seq::<char>::empty() =~= text);
    }
}

// ---------------------------------------------------------------------------
// Doubled delimiters are literal, never directive boundaries
// ---------------------------------------------------------------------------

/// A doubled delimiter character between two delimiter-free runs formats to
/// one literal delimiter character; it never opens a directive.
pub proof fn law_doubled_delimiter(
    a: Seq<char>,
    b: Seq<char>,
    d: char,
    oc: char,
    cc: char,
    ctx: Map<Seq<char>, ValueV>,
)
    requires
        d == oc || d == cc,
        forall|j: int| 0 <= j < a.len() ==> a[j] != oc && a[j] != cc,
        forall|j: int| 0 <= j < b.len() ==> b[j] != oc && b[j] != cc,
    ensures
        spec_parse(a + seq![d, d] + b, oc, cc) is Ok,
        format_from(spec_parse(a + seq![d, d] + b, oc, cc)->Ok_0, ctx, 0) == Ok::<Seq<char>, FormatErrorV>(
            a + seq![d] + b,
        ),
{
    let t = a + seq![d, d] + b;
    let al = a.len() as int;
    assert(t.len() == a.len() + 2 + b.len());
    assert forall|j: int| 0 <= j < al implies t[j] != oc && t[j] != cc by {
        assert(t[j] == a[j]);
    }
    lemma_literal_run_until(t, oc, cc, 0, al, Seq::empty());
    assert(Seq::<char>::empty() + t.subrange(0, al) =~= a);
    assert(t[al] == d && t[al + 1] == d);
    // the doubled delimiter collapses into the pending literal
    assert(tok_from(t, oc, cc, al, false, RunKind::Lit, a) == tok_from(
        t, oc, cc, al + 2, false, RunKind::Lit, a.push(d),
    ));
    assert forall|j: int| al + 2 <= j < t.len() implies t[j] != oc && t[j] != cc by {
        assert(t[j] == b[j - al - 2]);
    }
    lemma_literal_tail(t, oc, cc, al + 2, a.push(d));
    assert(a.push(d) + t.skip(al + 2) =~= a + seq![d] + b);
    let lit = a + seq![d] + b;
    assert(lit.len() > 0);
    let ts = spec_tokenize(t, oc, cc);
    assert(ts == seq![TokenV::Literal(lit)]);
    let segs = seq![SegmentV::Literal(lit)];
    assert(parse_segs(ts, 1) == Ok::<Seq<SegmentV>, ParseError>(Seq::empty()));
    assert(parse_segs(ts, 0) == Ok::<Seq<SegmentV>, ParseError>(
        seq![SegmentV::Literal(lit)] + Seq::<SegmentV>::empty(),
    ));
    assert(seq![SegmentV::Literal(lit)] + Seq::<SegmentV>::empty() =~= segs);
    assert(spec_parse(t, oc, cc) == parse_segs(ts, 0));
    assert(format_from(segs, ctx, 1) == Ok::<Seq<char>, FormatErrorV>(Seq::<char>::empty()));
    assert(lit + Seq::<char>::empty() =~= lit);
}

// ---------------------------------------------------------------------------
// The delimiter pair does not show in the output
// ---------------------------------------------------------------------------

/// A bare-variable template tokenizes to exactly directive-enter, the
/// identifier, directive-exit.
proof fn lemma_tokenize_variable(name: Seq<char>, oc: char, cc: char)
    requires
        name.len() > 0,
        is_ident_start(name[0]),
        forall|j: int| 0 <= j < name.len() ==> is_ident_cont(#[trigger] name[j]),
        !is_ident_cont(oc),
        !is_ident_cont(cc),
    ensures
        spec_tokenize(seq![oc] + name + seq![cc], oc, cc) == seq![
            TokenV::Open,
            TokenV::Identifier(name),
            TokenV::Close,
        ],
{
    let t = seq![oc] + name + seq![cc];
    let nl = name.len() as int;
    assert(t.len() == nl + 2);
    assert(t[0] == oc);
    assert(t[1] == name[0]);
    assert(t[1] != oc && t[1] != cc);
    // entering the directive
    assert(tok_from(t, oc, cc, 0, false, RunKind::Lit, Seq::empty()) == seq![TokenV::Open]
        + tok_from(t, oc, cc, 1, true, RunKind::Lit, Seq::empty()));
    // the first identifier character starts the run
    assert(tok_from(t, oc, cc, 1, true, RunKind::Lit, Seq::empty()) == tok_from(
        t, oc, cc, 2, true, RunKind::Ident, seq![name[0]],
    ));
    assert forall|j: int| 2 <= j < nl + 1 implies is_ident_cont(t[j]) && t[j] != oc && t[j]
        != cc by {
        assert(t[j] == name[j - 1]);
    }
    lemma_ident_run_until(t, oc, cc, 2, nl + 1, seq![name[0]]);
    assert(seq![name[0]] + t.subrange(2, nl + 1) =~= name);
    assert(t[nl + 1] == cc);
    assert(tok_from(t, oc, cc, nl + 1, true, RunKind::Ident, name) == flush(RunKind::Ident, name)
        + seq![TokenV::Close] + tok_from(t, oc, cc, nl + 2, false, RunKind::Lit, Seq::empty()));
    assert(tok_from(t, oc, cc, nl + 2, false, RunKind::Lit, Seq::empty()) =~= Seq::<
        TokenV,
    >::empty());
    assert(spec_tokenize(t, oc, cc) =~= seq![
        TokenV::Open,
        TokenV::Identifier(name),
        TokenV::Close,
    ]);
}

/// A bare-variable template parses to its one variable segment.
proof fn lemma_parse_variable(name: Seq<char>, oc: char, cc: char)
    requires
        name.len() > 0,
        is_ident_start(name[0]),
        forall|j: int| 0 <= j < name.len() ==> is_ident_cont(#[trigger] name[j]),
        !is_ident_cont(oc),
        !is_ident_cont(cc),
    ensures
        spec_parse(seq![oc] + name + seq![cc], oc, cc) == Ok::<_, crate::ast::ParseError>(
            seq![SegmentV::Variable(name)],
        ),
{
    lemma_tokenize_variable(name, oc, cc);
    let ts = seq![TokenV::Open, TokenV::Identifier(name), TokenV::Close];
    let span = ts.subrange(1, 2);
    assert(span =~= seq![TokenV::Identifier(name)]);
    assert(find_close_from(ts, 2) == Some(2int));
    assert(find_close_from(ts, 1) == Some(2int));
    assert(balanced_from(span, 1, 0, 0));
    assert(balanced_from(span, 0, 0, 0));
    assert(find_top_q(span, 1, 0, 0) is None);
    assert(find_top_q(span, 0, 0, 0) is None);
    assert(find_top_colon(span, 1, 0, 0) is None);
    assert(find_top_colon(span, 0, 0, 0) is None);
    assert(classify(span) == Ok::<SegmentV, ParseError>(SegmentV::Variable(name)));
    assert(parse_segs(ts, 3) == Ok::<Seq<SegmentV>, ParseError>(Seq::empty()));
    assert(parse_segs(ts, 0) == Ok::<Seq<SegmentV>, ParseError>(
        seq![SegmentV::Variable(name)] + Seq::<SegmentV>::empty(),
    ));
    assert(seq![SegmentV::Variable(name)] + Seq::<SegmentV>::empty() =~= seq![
        SegmentV::Variable(name),
    ]);
    assert(spec_parse(seq![oc] + name + seq![cc], oc, cc) == parse_segs(ts, 0));
}

/// The same variable template expressed with any delimiter pair — two
/// distinct characters or one character twice — formats identically under
/// equal contexts: the output depends on the name and the context alone.
pub proof fn law_delimiter_choice(
    name: Seq<char>,
    o1: char,
    c1: char,
    o2: char,
    c2: char,
    ctx: Map<Seq<char>, ValueV>,
)
    requires
        name.len() > 0,
        is_ident_start(name[0]),
        forall|j: int| 0 <= j < name.len() ==> is_ident_cont(#[trigger] name[j]),
        !is_ident_cont(o1),
        !is_ident_cont(c1),
        !is_ident_cont(o2),
        !is_ident_cont(c2),
    ensures
        spec_parse(seq![o1] + name + seq![c1], o1, c1) is Ok,
        spec_parse(seq![o2] + name + seq![c2], o2, c2) is Ok,
        format_from(spec_parse(seq![o1] + name + seq![c1], o1, c1)->Ok_0, ctx, 0) == format_from(
            spec_parse(seq![o2] + name + seq![c2], o2, c2)->Ok_0,
            ctx,
            0,
        ),
{
    lemma_parse_variable(name, o1, c1);
    lemma_parse_variable(name, o2, c2);
}

// ---------------------------------------------------------------------------
// Repeat templates
// ---------------------------------------------------------------------------

/// A repeat template over a variable and a literal count tokenizes to its
/// five tokens.
proof fn lemma_tokenize_repeat(x: Seq<char>, n: u64, oc: char, cc: char)
    requires
        x.len() > 0,
        is_ident_start(x[0]),
        forall|j: int| 0 <= j < x.len() ==> is_ident_cont(#[trigger] x[j]),
        !is_ident_cont(oc),
        !is_ident_cont(cc),
        oc != ':',
        cc != ':',
    ensures
        spec_tokenize(seq![oc] + x + seq![':'] + crate::num::nat_digits(n as nat) + seq![cc], oc,
            cc) == seq![
            TokenV::Open,
            TokenV::Identifier(x),
            TokenV::Colon,
            TokenV::NumberLiteral(crate::num::nat_digits(n as nat)),
            TokenV::Close,
        ],
{
    crate::num::lemma_nat_digits_roundtrip(n as nat);
    let ds = crate::num::nat_digits(n as nat);
    let t = seq![oc] + x + seq![':'] + ds + seq![cc];
    let xl = x.len() as int;
    let dl = ds.len() as int;
    assert(t.len() == xl + dl + 3);
    assert(t[0] == oc);
    assert(t[1] == x[0]);
    // entering the directive, then the identifier run
    assert(tok_from(t, oc, cc, 0, false, RunKind::Lit, Seq::empty()) == seq![TokenV::Open]
        + tok_from(t, oc, cc, 1, true, RunKind::Lit, Seq::empty()));
    assert(tok_from(t, oc, cc, 1, true, RunKind::Lit, Seq::empty()) == tok_from(
        t, oc, cc, 2, true, RunKind::Ident, seq![x[0]],
    ));
    assert forall|j: int| 2 <= j < xl + 1 implies is_ident_cont(t[j]) && t[j] != oc && t[j]
        != cc by {
        assert(t[j] == x[j - 1]);
    }
    lemma_ident_run_until(t, oc, cc, 2, xl + 1, seq![x[0]]);
    assert(seq![x[0]] + t.subrange(2, xl + 1) =~= x);
    // the colon flushes the identifier
    assert(t[xl + 1] == ':');
    assert(crate::token::simple_tok(t, xl + 1) == Some((TokenV::Colon, 1int)));
    assert(tok_from(t, oc, cc, xl + 1, true, RunKind::Ident, x) == flush(RunKind::Ident, x)
        + seq![TokenV::Colon] + tok_from(t, oc, cc, xl + 2, true, RunKind::Lit, Seq::empty()));
    // the first digit starts the number run
    assert(t[xl + 2] == ds[0]);
    assert(crate::num::is_digit(ds[0]));
    assert(!is_ident_start(ds[0]));
    assert(tok_from(t, oc, cc, xl + 2, true, RunKind::Lit, Seq::empty()) == tok_from(
        t, oc, cc, xl + 3, true, RunKind::Num, seq![ds[0]],
    ));
    assert forall|j: int| xl + 3 <= j < xl + 2 + dl implies crate::num::is_digit(t[j]) && t[j]
        != oc && t[j] != cc by {
        assert(t[j] == ds[j - xl - 2]);
        assert(is_ident_cont(ds[j - xl - 2]));
    }
    lemma_num_run_until(t, oc, cc, xl + 3, xl + 2 + dl, seq![ds[0]]);
    assert(seq![ds[0]] + t.subrange(xl + 3, xl + 2 + dl) =~= ds);
    // the closing delimiter flushes the number
    assert(t[xl + 2 + dl] == cc);
    assert(tok_from(t, oc, cc, xl + 2 + dl, true, RunKind::Num, ds) == flush(RunKind::Num, ds)
        + seq![TokenV::Close] + tok_from(
        t, oc, cc, xl + 3 + dl, false, RunKind::Lit, Seq::empty(),
    ));
    assert(tok_from(t, oc, cc, xl + 3 + dl, false, RunKind::Lit, Seq::empty()) =~= Seq::<
        TokenV,
    >::empty());
    assert(spec_tokenize(t, oc, cc) =~= seq![
        TokenV::Open,
        TokenV::Identifier(x),
        TokenV::Colon,
        TokenV::NumberLiteral(ds),
        TokenV::Close,
    ]);
}

/// For every count `n`, the template `{x:n}` — with the count written in
/// decimal — parses to one repeat segment and formats to the string value of
/// `x` repeated exactly `n` times; `n = 0` yields the empty string.
pub proof fn law_repeat_template(
    x: Seq<char>,
    n: u64,
    oc: char,
    cc: char,
    ctx: Map<Seq<char>, ValueV>,
)
    requires
        x.len() > 0,
        is_ident_start(x[0]),
        forall|j: int| 0 <= j < x.len() ==> is_ident_cont(#[trigger] x[j]),
        !is_ident_cont(oc),
        !is_ident_cont(cc),
        oc != ':',
        cc != ':',
        ctx.contains_key(x),
    ensures
        spec_parse(seq![oc] + x + seq![':'] + crate::num::nat_digits(n as nat) + seq![cc], oc, cc)
            is Ok,
        format_from(
            spec_parse(seq![oc] + x + seq![':'] + crate::num::nat_digits(n as nat) + seq![cc], oc,
                cc)->Ok_0,
            ctx,
            0,
        ) == Ok::<Seq<char>, FormatErrorV>(repeat_seq(stringify(ctx[x]), n as nat)),
        n == 0 ==> repeat_seq(stringify(ctx[x]), n as nat) == Seq::<char>::empty(),
{
    crate::num::lemma_nat_digits_roundtrip(n as nat);
    lemma_tokenize_repeat(x, n, oc, cc);
    let ds = crate::num::nat_digits(n as nat);
    let t = seq![oc] + x + seq![':'] + ds + seq![cc];
    let ts = seq![
        TokenV::Open,
        TokenV::Identifier(x),
        TokenV::Colon,
        TokenV::NumberLiteral(ds),
        TokenV::Close,
    ];
    assert(find_close_from(ts, 4) == Some(4int));
    assert(find_close_from(ts, 3) == Some(4int));
    assert(find_close_from(ts, 2) == Some(4int));
    assert(find_close_from(ts, 1) == Some(4int));
    let span = ts.subrange(1, 4);
    assert(span =~= seq![TokenV::Identifier(x), TokenV::Colon, TokenV::NumberLiteral(ds)]);
    assert(balanced_from(span, 3, 0, 0));
    assert(balanced_from(span, 2, 0, 0));
    assert(balanced_from(span, 1, 0, 0));
    assert(balanced_from(span, 0, 0, 0));
    assert(find_top_q(span, 3, 0, 0) is None);
    assert(find_top_q(span, 2, 0, 0) is None);
    assert(find_top_q(span, 1, 0, 0) is None);
    assert(find_top_q(span, 0, 0, 0) is None);
    assert(find_top_colon(span, 1, 0, 0) == Some(1int));
    assert(find_top_colon(span, 0, 0, 0) == Some(1int));
    assert(span.take(1) =~= seq![TokenV::Identifier(x)]);
    assert(span.skip(2) =~= seq![TokenV::NumberLiteral(ds)]);
    assert(crate::num::count_of(ds) == Some(n));
    let seg = SegmentV::Repeat {
        source: crate::ast::RepeatSourceV::Variable(x),
        count: crate::ast::CountSourceV::LiteralInt(n),
    };
    assert(classify(span) == Ok::<SegmentV, ParseError>(seg));
    assert(parse_segs(ts, 5) == Ok::<Seq<SegmentV>, ParseError>(Seq::empty()));
    assert(parse_segs(ts, 0) == Ok::<Seq<SegmentV>, ParseError>(
        seq![seg] + Seq::<SegmentV>::empty(),
    ));
    assert(seq![seg] + Seq::<SegmentV>::empty() =~= seq![seg]);
    assert(spec_parse(t, oc, cc) == parse_segs(ts, 0));
    let out = repeat_seq(stringify(ctx[x]), n as nat);
    assert(format_from(seq![seg], ctx, 1) == Ok::<Seq<char>, FormatErrorV>(
        Seq::<char>::empty(),
    ));
    assert(eval_seg(seg, ctx) == Ok::<Seq<char>, FormatErrorV>(out));
    assert(out + Seq::<char>::empty() =~= out);
}

// ---------------------------------------------------------------------------
// Repeat counts
// ---------------------------------------------------------------------------

pub proof fn lemma_repeat_len(s: Seq<char>, n: nat)
    ensures
        repeat_seq(s, n).len() == n * s.len(),
    decreases n,
{
    if n == 0 {
        assert(0 * s.len() == 0) by (nonlinear_arith);
    } else {
        lemma_repeat_len(s, (n - 1) as nat);
        assert((n - 1) * s.len() + s.len() == n * s.len()) by (nonlinear_arith);
    }
}

/// A repeat segment with literal count `n` formats to its source text
/// repeated exactly `n` times — the empty string for `n = 0` — whether the
/// source is raw text or a bound variable; and the output's length is exactly
/// `n` times the source's.
pub proof fn law_repeat_count(
    s: Seq<char>,
    x: Seq<char>,
    n: u64,
    ctx: Map<Seq<char>, ValueV>,
)
    ensures
        eval_seg(
            SegmentV::Repeat {
                source: crate::ast::RepeatSourceV::LiteralText(s),
                count: crate::ast::CountSourceV::LiteralInt(n),
            },
            ctx,
        ) == Ok::<Seq<char>, FormatErrorV>(repeat_seq(s, n as nat)),
        ctx.contains_key(x) ==> eval_seg(
            SegmentV::Repeat {
                source: crate::ast::RepeatSourceV::Variable(x),
                count: crate::ast::CountSourceV::LiteralInt(n),
            },
            ctx,
        ) == Ok::<Seq<char>, FormatErrorV>(repeat_seq(stringify(ctx[x]), n as nat)),
        repeat_seq(s, 0) == Seq::<char>::empty(),
        repeat_seq(s, n as nat).len() == n * s.len(),
{
    lemma_repeat_len(s, n as nat);
}

} // verus!
