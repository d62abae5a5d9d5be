use vstd::prelude::*;
use crate::ast::{lemma_pairs_view_cons, lemma_segs_view_cons, pairs_view, CmpLitV, CmpLit, Condition, ConditionV, CountSource, CountSourceV, ParseError,
    RepeatSource, RepeatSourceV, Segment, SegmentV, Template, segs_view};
use crate::chars::to_chars;
use crate::num::{count_of, num_lit_of, parse_count, parse_num_lit};
use crate::token::{Token, TokenV, token_text, tokenize, tokens_view, spec_tokenize,
    append_token_text};
use crate::value::{DecV, Decimal};

verus! {

// ---------------------------------------------------------------------------
// Helpers over token sequences
// ---------------------------------------------------------------------------

/// The first position at or after `i` that closes a directive span.
pub open spec fn find_close_from(ts: Seq<TokenV>, i: int) -> Option<int>
    decreases ts.len() - i,
{
    if i < 0 || i >= ts.len() {
        None
    } else if ts[i] is Close {
        Some(i)
    } else {
        find_close_from(ts, i + 1)
    }
}

/// Whether parentheses and brackets nest properly from `i` on, starting at
/// the given depths: neither counter may dip below zero, and both must end
/// at zero.
pub open spec fn balanced_from(ts: Seq<TokenV>, i: int, pd: int, bd: int) -> bool
    decreases ts.len() - i,
{
    if pd < 0 || bd < 0 {
        false
    } else if i < 0 || i >= ts.len() {
        pd == 0 && bd == 0
    } else {
        match ts[i] {
            TokenV::LParen => balanced_from(ts, i + 1, pd + 1, bd),
            TokenV::RParen => balanced_from(ts, i + 1, pd - 1, bd),
            TokenV::LBracket => balanced_from(ts, i + 1, pd, bd + 1),
            TokenV::RBracket => balanced_from(ts, i + 1, pd, bd - 1),
            _ => balanced_from(ts, i + 1, pd, bd),
        }
    }
}

/// The first top-level `?` at or after `i`, where top-level means both
/// nesting depths are zero.
pub open spec fn find_top_q(ts: Seq<TokenV>, i: int, pd: int, bd: int) -> Option<int>
    decreases ts.len() - i,
{
    if i < 0 || i >= ts.len() {
        None
    } else {
        match ts[i] {
            TokenV::Question => if pd == 0 && bd == 0 {
                Some(i)
            } else {
                find_top_q(ts, i + 1, pd, bd)
            },
            TokenV::LParen => find_top_q(ts, i + 1, pd + 1, bd),
            TokenV::RParen => find_top_q(ts, i + 1, pd - 1, bd),
            TokenV::LBracket => find_top_q(ts, i + 1, pd, bd + 1),
            TokenV::RBracket => find_top_q(ts, i + 1, pd, bd - 1),
            _ => find_top_q(ts, i + 1, pd, bd),
        }
    }
}

/// The first top-level `:` at or after `i`.
pub open spec fn find_top_colon(ts: Seq<TokenV>, i: int, pd: int, bd: int) -> Option<int>
    decreases ts.len() - i,
{
    if i < 0 || i >= ts.len() {
        None
    } else {
        match ts[i] {
            TokenV::Colon => if pd == 0 && bd == 0 {
                Some(i)
            } else {
                find_top_colon(ts, i + 1, pd, bd)
            },
            TokenV::LParen => find_top_colon(ts, i + 1, pd + 1, bd),
            TokenV::RParen => find_top_colon(ts, i + 1, pd - 1, bd),
            TokenV::LBracket => find_top_colon(ts, i + 1, pd, bd + 1),
            TokenV::RBracket => find_top_colon(ts, i + 1, pd, bd - 1),
            _ => find_top_colon(ts, i + 1, pd, bd),
        }
    }
}

/// The `)` matching an already-open parenthesis: the first one at or after
/// `i` once `depth` further `(`/`)` pairs have closed.
pub open spec fn find_match_rp(ts: Seq<TokenV>, i: int, depth: int) -> Option<int>
    decreases ts.len() - i,
{
    if i < 0 || i >= ts.len() {
        None
    } else {
        match ts[i] {
            TokenV::RParen => if depth == 0 {
                Some(i)
            } else {
                find_match_rp(ts, i + 1, depth - 1)
            },
            TokenV::LParen => find_match_rp(ts, i + 1, depth + 1),
            _ => find_match_rp(ts, i + 1, depth),
        }
    }
}

/// The raw text a run of tokens was scanned from, reassembled verbatim.
pub open spec fn text_of(ts: Seq<TokenV>) -> Seq<char>
    decreases ts.len(),
{
    if ts.len() == 0 {
        Seq::empty()
    } else {
        token_text(ts[0]) + text_of(ts.drop_first())
    }
}

pub proof fn lemma_text_of_snoc(ts: Seq<TokenV>, t: TokenV)
    ensures
        text_of(ts.push(t)) == text_of(ts) + token_text(t),
    decreases ts.len(),
{
    assert(ts.push(t)[0] == if ts.len() == 0 {
        t
    } else {
        ts[0]
    });
    if ts.len() == 0 {
        assert(ts.push(t).drop_first() =~= Seq::<TokenV>::empty());
        assert(text_of(ts.push(t)) == token_text(t) + text_of(Seq::<TokenV>::empty()));
        assert(text_of(ts.push(t)) =~= text_of(ts) + token_text(t));
    } else {
        assert(ts.push(t).drop_first() =~= ts.drop_first().push(t));
        lemma_text_of_snoc(ts.drop_first(), t);
        assert(text_of(ts.push(t)) == token_text(ts[0]) + text_of(ts.drop_first().push(t)));
        assert(text_of(ts.push(t)) =~= text_of(ts) + token_text(t));
    }
}

// ---------------------------------------------------------------------------
// Classifying one directive span
// ---------------------------------------------------------------------------

/// The comparison literal a single token denotes: a number literal becomes an
/// integer or a decimal, an identifier or plain run becomes text.
pub open spec fn lit_of_token(t: TokenV) -> Result<CmpLitV, ParseError> {
    match t {
        TokenV::Identifier(s) => Ok(CmpLitV::Text(s)),
        TokenV::Literal(s) => Ok(CmpLitV::Text(s)),
        TokenV::NumberLiteral(s) => match num_lit_of(s) {
            None => Err(ParseError::InvalidNumber),
            Some(p) => if p.1 == 0 {
                Ok(CmpLitV::Int(p.0))
            } else {
                Ok(CmpLitV::Float(DecV { m: p.0, s: p.1 }))
            },
        },
        _ => Err(ParseError::UnknownDirectiveShape),
    }
}

/// The condition left of a `?`: one identifier, or identifier-operator-literal.
pub open spec fn cond_of(left: Seq<TokenV>) -> Result<ConditionV, ParseError> {
    if left.len() == 1 && left[0] is Identifier {
        Ok(ConditionV::BoolVar(left[0]->Identifier_0))
    } else if left.len() == 3 && left[0] is Identifier && left[1] is Operator {
        match lit_of_token(left[2]) {
            Ok(l) => Ok(ConditionV::Compare {
                left: left[0]->Identifier_0,
                op: left[1]->Operator_0,
                right: l,
            }),
            Err(e) => Err(e),
        }
    } else {
        Err(ParseError::UnknownDirectiveShape)
    }
}

/// The conditional directive built from the spans left and right of the `?`:
/// the right span splits at its first top-level `:` into the true and false
/// texts; with no such `:` the false text is empty.
pub open spec fn cond_directive_of(left: Seq<TokenV>, right: Seq<TokenV>) -> Result<
    SegmentV,
    ParseError,
> {
    match cond_of(left) {
        Err(e) => Err(e),
        Ok(c) => match find_top_colon(right, 0, 0, 0) {
            Some(k) => Ok(SegmentV::Conditional {
                cond: c,
                then_text: text_of(right.take(k)),
                else_text: text_of(right.skip(k + 1)),
            }),
            None => Ok(SegmentV::Conditional {
                cond: c,
                then_text: text_of(right),
                else_text: Seq::empty(),
            }),
        },
    }
}

/// The repeat directive built from the spans left and right of the `:`: the
/// left span is a variable when it is one identifier and raw text otherwise;
/// the right span must be one unsigned integer literal or one identifier.
pub open spec fn repeat_of(left: Seq<TokenV>, right: Seq<TokenV>) -> Result<
    SegmentV,
    ParseError,
> {
    let src = if left.len() == 1 && left[0] is Identifier {
        RepeatSourceV::Variable(left[0]->Identifier_0)
    } else {
        RepeatSourceV::LiteralText(text_of(left))
    };
    if right.len() == 1 {
        match right[0] {
            TokenV::NumberLiteral(s) => match count_of(s) {
                Some(k) => Ok(SegmentV::Repeat { source: src, count: CountSourceV::LiteralInt(k) }),
                None => Err(ParseError::InvalidNumber),
            },
            TokenV::Identifier(n) => Ok(SegmentV::Repeat {
                source: src,
                count: CountSourceV::Variable(n),
            }),
            _ => Err(ParseError::UnknownDirectiveShape),
        }
    } else {
        Err(ParseError::UnknownDirectiveShape)
    }
}

/// The switch cases from position `i` on: a run of `(pattern:result)` groups
/// reaching exactly to the end of the span. Each group splits at its first
/// top-level `:`; pattern and result are raw text.
pub open spec fn cases_of(ts: Seq<TokenV>, i: int) -> Result<
    Seq<(Seq<char>, Seq<char>)>,
    ParseError,
>
    decreases ts.len() - i,
{
    if i < 0 || i >= ts.len() {
        Ok(Seq::empty())
    } else if ts[i] is LParen {
        match find_match_rp(ts, i + 1, 0) {
            None => Err(ParseError::UnbalancedGrouping),
            Some(k) => if k < i + 1 || k >= ts.len() {
                // the scan cannot actually hand back a position outside the
                // span; the guard keeps the recursion measure meaningful
                Err(ParseError::UnbalancedGrouping)
            } else {
                let g = ts.subrange(i + 1, k);
                match find_top_colon(g, 0, 0, 0) {
                    None => Err(ParseError::UnknownDirectiveShape),
                    Some(c) => match cases_of(ts, k + 1) {
                        Ok(rest) => Ok(
                            seq![(text_of(g.take(c)), text_of(g.skip(c + 1)))] + rest,
                        ),
                        Err(e) => Err(e),
                    },
                }
            },
        }
    } else {
        Err(ParseError::UnknownDirectiveShape)
    }
}

/// The switch directive: `[selector]` then at least one case group.
pub open spec fn switch_of(span: Seq<TokenV>) -> Result<SegmentV, ParseError> {
    if span.len() >= 3 && span[1] is Identifier && span[2] is RBracket {
        match cases_of(span, 3) {
            Err(e) => Err(e),
            Ok(cs) => if cs.len() >= 1 {
                Ok(SegmentV::Switch { selector: span[1]->Identifier_0, cases: cs })
            } else {
                Err(ParseError::UnknownDirectiveShape)
            },
        }
    } else {
        Err(ParseError::UnknownDirectiveShape)
    }
}

/// Classifies one directive span, in priority order: a span opening with `[`
/// is a switch; else one holding a top-level `?` is a conditional; else one
/// holding a top-level `:` is a repeat; else a lone identifier is a variable.
pub open spec fn classify(span: Seq<TokenV>) -> Result<SegmentV, ParseError> {
    if span.len() == 0 {
        Err(ParseError::EmptyDirective)
    } else if !balanced_from(span, 0, 0, 0) {
        Err(ParseError::UnbalancedGrouping)
    } else if span[0] is LBracket {
        switch_of(span)
    } else {
        match find_top_q(span, 0, 0, 0) {
            Some(q) => cond_directive_of(span.take(q), span.skip(q + 1)),
            None => match find_top_colon(span, 0, 0, 0) {
                Some(c) => repeat_of(span.take(c), span.skip(c + 1)),
                None => if span.len() == 1 && span[0] is Identifier {
                    Ok(SegmentV::Variable(span[0]->Identifier_0))
                } else {
                    Err(ParseError::UnknownDirectiveShape)
                },
            },
        }
    }
}

// ---------------------------------------------------------------------------
// Parsing a whole token stream
// ---------------------------------------------------------------------------

/// The segments of a token stream from position `i` on: literal runs stand
/// for themselves, and each `Open`..`Close` span is classified as one
/// directive. An `Open` with no later `Close` is an unterminated directive.
pub open spec fn parse_segs(ts: Seq<TokenV>, i: int) -> Result<Seq<SegmentV>, ParseError>
    decreases ts.len() - i,
{
    if i < 0 || i >= ts.len() {
        Ok(Seq::empty())
    } else {
        match ts[i] {
            TokenV::Literal(s) => match parse_segs(ts, i + 1) {
                Ok(r) => Ok(seq![SegmentV::Literal(s)] + r),
                Err(e) => Err(e),
            },
            TokenV::Open => match find_close_from(ts, i + 1) {
                None => Err(ParseError::UnterminatedDirective),
                Some(j) => if j < i + 1 || j >= ts.len() {
                    // as in `cases_of`: unreachable, and keeps the measure
                    Err(ParseError::UnterminatedDirective)
                } else {
                    match classify(ts.subrange(i + 1, j)) {
                        Err(e) => Err(e),
                        Ok(seg) => match parse_segs(ts, j + 1) {
                            Ok(r) => Ok(seq![seg] + r),
                            Err(e) => Err(e),
                        },
                    }
                },
            },
            _ => Err(ParseError::UnknownDirectiveShape),
        }
    }
}

/// What parsing a template text yields: the segments, or the first error.
pub open spec fn spec_parse(text: Seq<char>, oc: char, cc: char) -> Result<
    Seq<SegmentV>,
    ParseError,
> {
    parse_segs(spec_tokenize(text, oc, cc), 0)
}

// ---------------------------------------------------------------------------
// Executable parsing
// ---------------------------------------------------------------------------

fn clone_token(t: &Token) -> (r: Token)
    ensures
        r@ == t@,
{
    match t {
        Token::Literal(s) => Token::Literal(s.clone()),
        Token::Open => Token::Open,
        Token::Close => Token::Close,
        Token::Identifier(s) => Token::Identifier(s.clone()),
        Token::NumberLiteral(s) => Token::NumberLiteral(s.clone()),
        Token::Operator(op) => Token::Operator(*op),
        Token::Colon => Token::Colon,
        Token::Question => Token::Question,
        Token::LBracket => Token::LBracket,
        Token::RBracket => Token::RBracket,
        Token::LParen => Token::LParen,
        Token::RParen => Token::RParen,
    }
}

fn copy_span(ts: &Vec<Token>, lo: usize, hi: usize) -> (r: Vec<Token>)
    requires
        lo <= hi <= ts@.len(),
    ensures
        tokens_view(r@) == tokens_view(ts@).subrange(lo as int, hi as int),
{
    let mut r: Vec<Token> = Vec::new();
    let mut k: usize = lo;
    while k < hi
        invariant
            lo <= k <= hi <= ts@.len(),
            r@.len() == k - lo,
            forall|j: int| 0 <= j < r@.len() ==> #[trigger] r@[j]@ == ts@[lo + j]@,
        decreases hi - k,
    {
        let t = clone_token(&ts[k]);
        r.push(t);
        k = k + 1;
    }
    assert(tokens_view(r@) =~= tokens_view(ts@).subrange(lo as int, hi as int));
    r
}

fn find_close_exec(ts: &Vec<Token>, i: usize) -> (r: Option<usize>)
    ensures
        match r {
            Some(j) => i <= j < ts@.len() && find_close_from(tokens_view(ts@), i as int) == Some(
                j as int,
            ),
            None => find_close_from(tokens_view(ts@), i as int) is None,
        },
    decreases ts@.len() - i,
{
    if i >= ts.len() {
        None
    } else {
        match &ts[i] {
            Token::Close => Some(i),
            _ => find_close_exec(ts, i + 1),
        }
    }
}

fn balanced_exec(ts: &Vec<Token>) -> (r: bool)
    ensures
        r == balanced_from(tokens_view(ts@), 0, 0, 0),
{
    let n = ts.len();
    let mut pd: i128 = 0;
    let mut bd: i128 = 0;
    let mut i: usize = 0;
    while i < n
        invariant
            i <= n,
            n == ts@.len(),
            -(i as int) <= pd <= i as int,
            -(i as int) <= bd <= i as int,
            balanced_from(tokens_view(ts@), 0, 0, 0) == balanced_from(
                tokens_view(ts@), i as int, pd as int, bd as int,
            ),
        decreases n - i,
    {
        if pd < 0 || bd < 0 {
            return false;
        }
        match &ts[i] {
            Token::LParen => {
                pd = pd + 1;
            },
            Token::RParen => {
                pd = pd - 1;
            },
            Token::LBracket => {
                bd = bd + 1;
            },
            Token::RBracket => {
                bd = bd - 1;
            },
            _ => {
            },
        }
        i = i + 1;
    }
    pd == 0 && bd == 0
}

fn find_top_q_exec(ts: &Vec<Token>) -> (r: Option<usize>)
    ensures
        match r {
            Some(q) => q < ts@.len() && find_top_q(tokens_view(ts@), 0, 0, 0) == Some(q as int),
            None => find_top_q(tokens_view(ts@), 0, 0, 0) is None,
        },
{
    let n = ts.len();
    let mut pd: i128 = 0;
    let mut bd: i128 = 0;
    let mut i: usize = 0;
    while i < n
        invariant
            i <= n,
            n == ts@.len(),
            -(i as int) <= pd <= i as int,
            -(i as int) <= bd <= i as int,
            find_top_q(tokens_view(ts@), 0, 0, 0) == find_top_q(
                tokens_view(ts@), i as int, pd as int, bd as int,
            ),
        decreases n - i,
    {
        match &ts[i] {
            Token::Question => {
                if pd == 0 && bd == 0 {
                    return Some(i);
                }
            },
            Token::LParen => {
                pd = pd + 1;
            },
            Token::RParen => {
                pd = pd - 1;
            },
            Token::LBracket => {
                bd = bd + 1;
            },
            Token::RBracket => {
                bd = bd - 1;
            },
            _ => {
            },
        }
        i = i + 1;
    }
    None
}

fn find_top_colon_exec(ts: &Vec<Token>, start: usize) -> (r: Option<usize>)
    requires
        start <= ts@.len(),
    ensures
        match r {
            Some(q) => start <= q < ts@.len() && find_top_colon(
                tokens_view(ts@), start as int, 0, 0,
            ) == Some(q as int),
            None => find_top_colon(tokens_view(ts@), start as int, 0, 0) is None,
        },
{
    let n = ts.len();
    let mut pd: i128 = 0;
    let mut bd: i128 = 0;
    let mut i: usize = start;
    while i < n
        invariant
            start <= i <= n,
            n == ts@.len(),
            -(i as int) <= pd <= i as int,
            -(i as int) <= bd <= i as int,
            find_top_colon(tokens_view(ts@), start as int, 0, 0) == find_top_colon(
                tokens_view(ts@), i as int, pd as int, bd as int,
            ),
        decreases n - i,
    {
        match &ts[i] {
            Token::Colon => {
                if pd == 0 && bd == 0 {
                    return Some(i);
                }
            },
            Token::LParen => {
                pd = pd + 1;
            },
            Token::RParen => {
                pd = pd - 1;
            },
            Token::LBracket => {
                bd = bd + 1;
            },
            Token::RBracket => {
                bd = bd - 1;
            },
            _ => {
            },
        }
        i = i + 1;
    }
    None
}

fn find_match_rp_exec(ts: &Vec<Token>, start: usize) -> (r: Option<usize>)
    requires
        start <= ts@.len(),
    ensures
        match r {
            Some(k) => start <= k < ts@.len() && find_match_rp(
                tokens_view(ts@), start as int, 0,
            ) == Some(k as int),
            None => find_match_rp(tokens_view(ts@), start as int, 0) is None,
        },
{
    let n = ts.len();
    let mut depth: i128 = 0;
    let mut i: usize = start;
    while i < n
        invariant
            start <= i <= n,
            n == ts@.len(),
            -(i as int) <= depth <= i as int,
            find_match_rp(tokens_view(ts@), start as int, 0) == find_match_rp(
                tokens_view(ts@), i as int, depth as int,
            ),
        decreases n - i,
    {
        match &ts[i] {
            Token::RParen => {
                if depth == 0 {
                    return Some(i);
                }
                depth = depth - 1;
            },
            Token::LParen => {
                depth = depth + 1;
            },
            _ => {
            },
        }
        i = i + 1;
    }
    None
}

fn text_of_range(ts: &Vec<Token>, lo: usize, hi: usize) -> (r: String)
    requires
        lo <= hi <= ts@.len(),
    ensures
        r@ == text_of(tokens_view(ts@).subrange(lo as int, hi as int)),
{
    let mut r = String::new();
    let mut k: usize = lo;
    proof {
        assert(tokens_view(ts@).subrange(lo as int, lo as int) =~= Seq::<TokenV>::empty());
    }
    while k < hi
        invariant
            lo <= k <= hi <= ts@.len(),
            r@ == text_of(tokens_view(ts@).subrange(lo as int, k as int)),
        decreases hi - k,
    {
        append_token_text(&mut r, &ts[k]);
        proof {
            assert(tokens_view(ts@).subrange(lo as int, k as int + 1) =~= tokens_view(
                ts@,
            ).subrange(lo as int, k as int).push(ts@[k as int]@));
            lemma_text_of_snoc(
                tokens_view(ts@).subrange(lo as int, k as int),
                ts@[k as int]@,
            );
        }
        k = k + 1;
    }
    r
}

fn lit_of_token_exec(t: &Token) -> (r: Result<CmpLit, ParseError>)
    ensures
        match r {
            Ok(l) => lit_of_token(t@) == Ok::<CmpLitV, ParseError>(l@),
            Err(e) => lit_of_token(t@) == Err::<CmpLitV, ParseError>(e),
        },
{
    match t {
        Token::Identifier(s) => Ok(CmpLit::Text(s.clone())),
        Token::Literal(s) => Ok(CmpLit::Text(s.clone())),
        Token::NumberLiteral(s) => {
            let cs = to_chars(s.as_str());
            match parse_num_lit(&cs) {
                None => Err(ParseError::InvalidNumber),
                Some((m, sc)) => {
                    if sc == 0 {
                        Ok(CmpLit::Int(m))
                    } else {
                        match Decimal::new(m, sc) {
                            Some(d) => Ok(CmpLit::Float(d)),
                            None => {
                                proof {
                                    assert(false);
                                }
                                Err(ParseError::InvalidNumber)
                            },
                        }
                    }
                },
            }
        },
        _ => Err(ParseError::UnknownDirectiveShape),
    }
}

fn cond_of_exec(left: &Vec<Token>) -> (r: Result<Condition, ParseError>)
    ensures
        match r {
            Ok(c) => cond_of(tokens_view(left@)) == Ok::<ConditionV, ParseError>(c@),
            Err(e) => cond_of(tokens_view(left@)) == Err::<ConditionV, ParseError>(e),
        },
{
    if left.len() == 1 {
        match &left[0] {
            Token::Identifier(n) => Ok(Condition::BoolVar(n.clone())),
            _ => Err(ParseError::UnknownDirectiveShape),
        }
    } else if left.len() == 3 {
        match (&left[0], &left[1]) {
            (Token::Identifier(n), Token::Operator(op)) => {
                match lit_of_token_exec(&left[2]) {
                    Ok(l) => Ok(Condition::Compare { left: n.clone(), op: *op, right: l }),
                    Err(e) => Err(e),
                }
            },
            _ => Err(ParseError::UnknownDirectiveShape),
        }
    } else {
        Err(ParseError::UnknownDirectiveShape)
    }
}

fn cases_exec(ts: &Vec<Token>, i: usize) -> (r: Result<Vec<(String, String)>, ParseError>)
    requires
        i <= ts@.len(),
    ensures
        match r {
            Ok(cs) => cases_of(tokens_view(ts@), i as int) == Ok::<
                Seq<(Seq<char>, Seq<char>)>,
                ParseError,
            >(pairs_view(cs@)),
            Err(e) => cases_of(tokens_view(ts@), i as int) == Err::<
                Seq<(Seq<char>, Seq<char>)>,
                ParseError,
            >(e),
        },
    decreases ts@.len() - i,
{
    if i >= ts.len() {
        let cs: Vec<(String, String)> = Vec::new();
        assert(pairs_view(cs@) =~= Seq::<(Seq<char>, Seq<char>)>::empty());
        return Ok(cs);
    }
    match &ts[i] {
        Token::LParen => {
            match find_match_rp_exec(ts, i + 1) {
                None => Err(ParseError::UnbalancedGrouping),
                Some(k) => {
                    let g = copy_span(ts, i + 1, k);
                    match find_top_colon_exec(&g, 0) {
                        None => Err(ParseError::UnknownDirectiveShape),
                        Some(c) => {
                            let pat = text_of_range(&g, 0, c);
                            let res = text_of_range(&g, c + 1, g.len());
                            proof {
                                assert(tokens_view(g@).subrange(0, c as int) =~= tokens_view(
                                    g@,
                                ).take(c as int));
                                assert(tokens_view(g@).subrange(c as int + 1,
                                    tokens_view(g@).len() as int) =~= tokens_view(g@).skip(
                                    c as int + 1));
                            }
                            match cases_exec(ts, k + 1) {
                                Err(e) => Err(e),
                                Ok(mut rest) => {
                                    let ghost head = (pat@, res@);
                                    let ghost rest_v = rest@;
                                    let mut cs: Vec<(String, String)> = Vec::new();
                                    cs.push((pat, res));
                                    cs.append(&mut rest);
                                    proof {
                                        assert(cs@ =~= seq![cs@[0]] + rest_v);
                                        lemma_pairs_view_cons(cs@[0], rest_v);
                                        assert(pairs_view(cs@) =~= seq![head] + pairs_view(
                                            rest_v,
                                        ));
                                    }
                                    Ok(cs)
                                },
                            }
                        },
                    }
                },
            }
        },
        _ => Err(ParseError::UnknownDirectiveShape),
    }
}

fn classify_exec(span: &Vec<Token>) -> (r: Result<Segment, ParseError>)
    ensures
        match r {
            Ok(seg) => classify(tokens_view(span@)) == Ok::<SegmentV, ParseError>(seg@),
            Err(e) => classify(tokens_view(span@)) == Err::<SegmentV, ParseError>(e),
        },
{
    let n = span.len();
    if n == 0 {
        return Err(ParseError::EmptyDirective);
    }
    if !balanced_exec(span) {
        return Err(ParseError::UnbalancedGrouping);
    }
    let first_is_lbracket = match &span[0] {
        Token::LBracket => true,
        _ => false,
    };
    if first_is_lbracket {
        // switch directive
        if n < 3 {
            return Err(ParseError::UnknownDirectiveShape);
        }
        let sel: String = match &span[1] {
            Token::Identifier(s) => s.clone(),
            _ => {
                return Err(ParseError::UnknownDirectiveShape);
            },
        };
        let ok_rb = match &span[2] {
            Token::RBracket => true,
            _ => false,
        };
        if !ok_rb {
            return Err(ParseError::UnknownDirectiveShape);
        }
        match cases_exec(span, 3) {
            Err(e) => Err(e),
            Ok(cs) => {
                if cs.len() >= 1 {
                    Ok(Segment::Switch { selector: sel, cases: cs })
                } else {
                    Err(ParseError::UnknownDirectiveShape)
                }
            },
        }
    } else {
        match find_top_q_exec(span) {
            Some(q) => {
                let left = copy_span(span, 0, q);
                let right = copy_span(span, q + 1, n);
                proof {
                    assert(tokens_view(span@).subrange(0, q as int) =~= tokens_view(span@).take(
                        q as int));
                    assert(tokens_view(span@).subrange(q as int + 1, n as int) =~= tokens_view(
                        span@,
                    ).skip(q as int + 1));
                }
                match cond_of_exec(&left) {
                    Err(e) => Err(e),
                    Ok(c) => {
                        match find_top_colon_exec(&right, 0) {
                            Some(k) => {
                                let tt = text_of_range(&right, 0, k);
                                let et = text_of_range(&right, k + 1, right.len());
                                proof {
                                    assert(tokens_view(right@).subrange(0, k as int)
                                        =~= tokens_view(right@).take(k as int));
                                    assert(tokens_view(right@).subrange(k as int + 1,
                                        tokens_view(right@).len() as int) =~= tokens_view(
                                        right@,
                                    ).skip(k as int + 1));
                                }
                                Ok(Segment::Conditional { cond: c, then_text: tt, else_text: et })
                            },
                            None => {
                                let tt = text_of_range(&right, 0, right.len());
                                proof {
                                    assert(tokens_view(right@).subrange(0,
                                        tokens_view(right@).len() as int) =~= tokens_view(
                                        right@,
                                    ));
                                }
                                let et = String::new();
                                Ok(Segment::Conditional { cond: c, then_text: tt, else_text: et })
                            },
                        }
                    },
                }
            },
            None => {
                match find_top_colon_exec(span, 0) {
                    Some(c) => {
                        let left = copy_span(span, 0, c);
                        let right = copy_span(span, c + 1, n);
                        proof {
                            assert(tokens_view(span@).subrange(0, c as int) =~= tokens_view(
                                span@,
                            ).take(c as int));
                            assert(tokens_view(span@).subrange(c as int + 1, n as int)
                                =~= tokens_view(span@).skip(c as int + 1));
                        }
                        let src: RepeatSource = if left.len() == 1 {
                            match &left[0] {
                                Token::Identifier(nm) => RepeatSource::Variable(nm.clone()),
                                _ => {
                                    let t = text_of_range(&left, 0, left.len());
                                    proof {
                                        assert(tokens_view(left@).subrange(0,
                                            tokens_view(left@).len() as int) =~= tokens_view(
                                            left@,
                                        ));
                                    }
                                    RepeatSource::LiteralText(t)
                                },
                            }
                        } else {
                            let t = text_of_range(&left, 0, left.len());
                            proof {
                                assert(tokens_view(left@).subrange(0,
                                    tokens_view(left@).len() as int) =~= tokens_view(left@));
                            }
                            RepeatSource::LiteralText(t)
                        };
                        if right.len() == 1 {
                            match &right[0] {
                                Token::NumberLiteral(s) => {
                                    let cs = to_chars(s.as_str());
                                    match parse_count(&cs) {
                                        Some(k) => Ok(Segment::Repeat {
                                            source: src,
                                            count: CountSource::LiteralInt(k),
                                        }),
                                        None => Err(ParseError::InvalidNumber),
                                    }
                                },
                                Token::Identifier(nm) => Ok(Segment::Repeat {
                                    source: src,
                                    count: CountSource::Variable(nm.clone()),
                                }),
                                _ => Err(ParseError::UnknownDirectiveShape),
                            }
                        } else {
                            Err(ParseError::UnknownDirectiveShape)
                        }
                    },
                    None => {
                        if n == 1 {
                            match &span[0] {
                                Token::Identifier(nm) => Ok(Segment::Variable(nm.clone())),
                                _ => Err(ParseError::UnknownDirectiveShape),
                            }
                        } else {
                            Err(ParseError::UnknownDirectiveShape)
                        }
                    },
                }
            },
        }
    }
}

fn parse_segs_exec(ts: &Vec<Token>, i: usize) -> (r: Result<Vec<Segment>, ParseError>)
    requires
        i <= ts@.len(),
    ensures
        match r {
            Ok(segs) => parse_segs(tokens_view(ts@), i as int) == Ok::<
                Seq<SegmentV>,
                ParseError,
            >(segs_view(segs@)),
            Err(e) => parse_segs(tokens_view(ts@), i as int) == Err::<Seq<SegmentV>, ParseError>(
                e,
            ),
        },
    decreases ts@.len() - i,
{
    if i >= ts.len() {
        let segs: Vec<Segment> = Vec::new();
        assert(segs_view(segs@) =~= Seq::<SegmentV>::empty());
        return Ok(segs);
    }
    match &ts[i] {
        Token::Literal(s) => {
            match parse_segs_exec(ts, i + 1) {
                Err(e) => Err(e),
                Ok(mut rest) => {
                    let ghost rest_v = rest@;
                    let mut segs: Vec<Segment> = Vec::new();
                    segs.push(Segment::Literal(s.clone()));
                    segs.append(&mut rest);
                    proof {
                        assert(segs@ =~= seq![segs@[0]] + rest_v);
                        lemma_segs_view_cons(segs@[0], rest_v);
                        assert(segs_view(segs@) =~= seq![SegmentV::Literal(s@)] + segs_view(
                            rest_v,
                        ));
                    }
                    Ok(segs)
                },
            }
        },
        Token::Open => {
            match find_close_exec(ts, i + 1) {
                None => Err(ParseError::UnterminatedDirective),
                Some(j) => {
                    let span = copy_span(ts, i + 1, j);
                    match classify_exec(&span) {
                        Err(e) => Err(e),
                        Ok(seg) => {
                            match parse_segs_exec(ts, j + 1) {
                                Err(e) => Err(e),
                                Ok(mut rest) => {
                                    let ghost seg_v = seg@;
                                    let ghost rest_v = rest@;
                                    let mut segs: Vec<Segment> = Vec::new();
                                    segs.push(seg);
                                    segs.append(&mut rest);
                                    proof {
                                        assert(segs@ =~= seq![segs@[0]] + rest_v);
                                        lemma_segs_view_cons(segs@[0], rest_v);
                                        assert(segs_view(segs@) =~= seq![seg_v] + segs_view(
                                            rest_v,
                                        ));
                                    }
                                    Ok(segs)
                                },
                            }
                        },
                    }
                },
            }
        },
        _ => Err(ParseError::UnknownDirectiveShape),
    }
}

impl Template {
    /// Parses template text with the given delimiter pair, which may be two
    /// distinct characters or the same character twice.
    pub fn parse(text: &str, open_ch: char, close_ch: char) -> (r: Result<Template, ParseError>)
        ensures
            match r {
                Ok(t) => spec_parse(text@, open_ch, close_ch) == Ok::<Seq<SegmentV>, ParseError>(
                    t@.segments,
                ) && t@.open_ch == open_ch && t@.close_ch == close_ch,
                Err(e) => spec_parse(text@, open_ch, close_ch) == Err::<
                    Seq<SegmentV>,
                    ParseError,
                >(e),
            },
    {
        let ts = tokenize(text, open_ch, close_ch);
        match parse_segs_exec(&ts, 0) {
            Err(e) => Err(e),
            Ok(segs) => Ok(Template { open_ch, close_ch, segments: segs }),
        }
    }

    /// Parses template text with the customary `{`/`}` delimiter pair.
    pub fn parse_default(text: &str) -> (r: Result<Template, ParseError>)
        ensures
            match r {
                Ok(t) => spec_parse(text@, '{', '}') == Ok::<Seq<SegmentV>, ParseError>(
                    t@.segments,
                ) && t@.open_ch == '{' && t@.close_ch == '}',
                Err(e) => spec_parse(text@, '{', '}') == Err::<Seq<SegmentV>, ParseError>(e),
            },
    {
        Template::parse(text, '{', '}')
    }
}

} // verus!
