use vstd::prelude::*;
use vstd::string::StringExecFns;
use crate::chars::{chars_to_string, to_chars};
use crate::num::{digit, is_digit};

verus! {

// ---------------------------------------------------------------------------
// Tokens
// ---------------------------------------------------------------------------

/// The six comparison operators a directive may use.
#[derive(Clone, Copy, Debug, PartialEq, Eq, Structural)]
pub enum CmpOp {
    Eq,
    Ne,
    Lt,
    Le,
    Gt,
    Ge,
}

/// One token of a template. `Open` marks entering directive mode, `Close`
/// leaving it; everything else only occurs inside a directive span, except
/// `Literal`, which carries runs of plain text on both sides of the boundary.
#[derive(Debug, PartialEq, Eq)]
pub enum Token {
    Literal(String),
    Open,
    Close,
    Identifier(String),
    NumberLiteral(String),
    Operator(CmpOp),
    Colon,
    Question,
    LBracket,
    RBracket,
    LParen,
    RParen,
}

/// The mathematical image of a `Token`: text carried as a character sequence.
pub enum TokenV {
    Literal(Seq<char>),
    Open,
    Close,
    Identifier(Seq<char>),
    NumberLiteral(Seq<char>),
    Operator(CmpOp),
    Colon,
    Question,
    LBracket,
    RBracket,
    LParen,
    RParen,
}

impl View for Token {
    type V = TokenV;

    open spec fn view(&self) -> TokenV {
        match self {
            Token::Literal(s) => TokenV::Literal(s@),
            Token::Open => TokenV::Open,
            Token::Close => TokenV::Close,
            Token::Identifier(s) => TokenV::Identifier(s@),
            Token::NumberLiteral(s) => TokenV::NumberLiteral(s@),
            Token::Operator(op) => TokenV::Operator(*op),
            Token::Colon => TokenV::Colon,
            Token::Question => TokenV::Question,
            Token::LBracket => TokenV::LBracket,
            Token::RBracket => TokenV::RBracket,
            Token::LParen => TokenV::LParen,
            Token::RParen => TokenV::RParen,
        }
    }
}

pub open spec fn tokens_view(s: Seq<Token>) -> Seq<TokenV> {
    s.map_values(|t: Token| t@)
}

pub proof fn lemma_tokens_view_push(s: Seq<Token>, t: Token)
    ensures
        tokens_view(s.push(t)) == tokens_view(s).push(t@),
{
    assert(tokens_view(s.push(t)) =~= tokens_view(s).push(t@));
}

// ---------------------------------------------------------------------------
// Character classes
// ---------------------------------------------------------------------------

pub open spec fn is_ident_start(c: char) -> bool {
    (65 <= c as u32 && c as u32 <= 90) || (97 <= c as u32 && c as u32 <= 122) || c as u32 == 95
}

pub open spec fn is_ident_cont(c: char) -> bool {
    is_ident_start(c) || is_digit(c)
}

pub fn ident_start(c: char) -> (b: bool)
    ensures
        b == is_ident_start(c),
{
    let u = c as u32;
    (65 <= u && u <= 90) || (97 <= u && u <= 122) || u == 95
}

pub fn ident_cont(c: char) -> (b: bool)
    ensures
        b == is_ident_cont(c),
{
    let u = c as u32;
    ident_start(c) || (48 <= u && u <= 57)
}

// ---------------------------------------------------------------------------
// The tokenizer, one character at a time
// ---------------------------------------------------------------------------

/// What the pending run of characters will become when it is flushed.
#[derive(Clone, Copy, Debug, PartialEq, Eq, Structural)]
pub enum RunKind {
    /// Plain text: a literal run outside directives, or a run of characters
    /// inside a directive that form no identifier, number, operator or
    /// punctuation.
    Lit,
    /// An identifier run.
    Ident,
    /// A number run with no decimal point seen yet.
    Num,
    /// A number run that already contains its decimal point.
    NumDot,
}

pub open spec fn flush(kind: RunKind, pending: Seq<char>) -> Seq<TokenV> {
    if pending.len() == 0 {
        Seq::empty()
    } else {
        match kind {
            RunKind::Lit => seq![TokenV::Literal(pending)],
            RunKind::Ident => seq![TokenV::Identifier(pending)],
            RunKind::Num => seq![TokenV::NumberLiteral(pending)],
            RunKind::NumDot => seq![TokenV::NumberLiteral(pending)],
        }
    }
}

/// The punctuation or operator token starting at position `i`, with the
/// number of characters it spans; `None` when `t[i]` starts neither.
pub open spec fn simple_tok(t: Seq<char>, i: int) -> Option<(TokenV, int)> {
    let c = t[i];
    if c == ':' {
        Some((TokenV::Colon, 1int))
    } else if c == '?' {
        Some((TokenV::Question, 1int))
    } else if c == '[' {
        Some((TokenV::LBracket, 1int))
    } else if c == ']' {
        Some((TokenV::RBracket, 1int))
    } else if c == '(' {
        Some((TokenV::LParen, 1int))
    } else if c == ')' {
        Some((TokenV::RParen, 1int))
    } else if c == '=' && i + 1 < t.len() && t[i + 1] == '=' {
        Some((TokenV::Operator(CmpOp::Eq), 2int))
    } else if c == '!' && i + 1 < t.len() && t[i + 1] == '=' {
        Some((TokenV::Operator(CmpOp::Ne), 2int))
    } else if c == '<' {
        if i + 1 < t.len() && t[i + 1] == '=' {
            Some((TokenV::Operator(CmpOp::Le), 2int))
        } else {
            Some((TokenV::Operator(CmpOp::Lt), 1int))
        }
    } else if c == '>' {
        if i + 1 < t.len() && t[i + 1] == '=' {
            Some((TokenV::Operator(CmpOp::Ge), 2int))
        } else {
            Some((TokenV::Operator(CmpOp::Gt), 1int))
        }
    } else {
        None
    }
}

fn simple_tok_exec(tv: &Vec<char>, i: usize) -> (r: Option<(Token, usize)>)
    requires
        i < tv@.len(),
    ensures
        match r {
            Some(p) => simple_tok(tv@, i as int) == Some((p.0@, p.1 as int)) && 1 <= p.1 <= 2 && i
                + p.1 <= tv@.len(),
            None => simple_tok(tv@, i as int) is None,
        },
{
    let n = tv.len();
    let c = tv[i];
    if c == ':' {
        Some((Token::Colon, 1))
    } else if c == '?' {
        Some((Token::Question, 1))
    } else if c == '[' {
        Some((Token::LBracket, 1))
    } else if c == ']' {
        Some((Token::RBracket, 1))
    } else if c == '(' {
        Some((Token::LParen, 1))
    } else if c == ')' {
        Some((Token::RParen, 1))
    } else if c == '=' && i + 1 < n && tv[i + 1] == '=' {
        Some((Token::Operator(CmpOp::Eq), 2))
    } else if c == '!' && i + 1 < n && tv[i + 1] == '=' {
        Some((Token::Operator(CmpOp::Ne), 2))
    } else if c == '<' {
        if i + 1 < n && tv[i + 1] == '=' {
            Some((Token::Operator(CmpOp::Le), 2))
        } else {
            Some((Token::Operator(CmpOp::Lt), 1))
        }
    } else if c == '>' {
        if i + 1 < n && tv[i + 1] == '=' {
            Some((Token::Operator(CmpOp::Ge), 2))
        } else {
            Some((Token::Operator(CmpOp::Gt), 1))
        }
    } else {
        None
    }
}

/// The tokens produced from position `i` onward, given the tokenizer state:
/// `mode` is true inside a directive span, `kind`/`pending` hold the run of
/// characters not yet flushed into a token.
///
/// Outside a directive, a delimiter character doubled with itself collapses
/// into the literal run; a single delimiter character toggles into directive
/// mode. Inside a directive, any delimiter character toggles back out, so
/// that an ambiguous pair with `oc == cc` alternates on every unescaped
/// occurrence.
pub open spec fn tok_from(
    t: Seq<char>,
    oc: char,
    cc: char,
    i: int,
    mode: bool,
    kind: RunKind,
    pending: Seq<char>,
) -> Seq<TokenV>
    decreases t.len() - i,
{
    if i < 0 || i >= t.len() {
        flush(kind, pending)
    } else {
        let c = t[i];
        if !mode {
            if c == oc || c == cc {
                if i + 1 < t.len() && t[i + 1] == c {
                    tok_from(t, oc, cc, i + 2, false, RunKind::Lit, pending.push(c))
                } else {
                    flush(kind, pending) + seq![TokenV::Open] + tok_from(
                        t,
                        oc,
                        cc,
                        i + 1,
                        true,
                        RunKind::Lit,
                        Seq::empty(),
                    )
                }
            } else {
                tok_from(t, oc, cc, i + 1, false, RunKind::Lit, pending.push(c))
            }
        } else {
            if c == oc || c == cc {
                flush(kind, pending) + seq![TokenV::Close] + tok_from(
                    t,
                    oc,
                    cc,
                    i + 1,
                    false,
                    RunKind::Lit,
                    Seq::empty(),
                )
            } else if kind == RunKind::Ident && is_ident_cont(c) {
                tok_from(t, oc, cc, i + 1, true, RunKind::Ident, pending.push(c))
            } else if kind == RunKind::Num && is_digit(c) {
                tok_from(t, oc, cc, i + 1, true, RunKind::Num, pending.push(c))
            } else if kind == RunKind::Num && c == '.' {
                tok_from(t, oc, cc, i + 1, true, RunKind::NumDot, pending.push(c))
            } else if kind == RunKind::NumDot && is_digit(c) {
                tok_from(t, oc, cc, i + 1, true, RunKind::NumDot, pending.push(c))
            } else if is_ident_start(c) {
                flush(kind, pending) + tok_from(t, oc, cc, i + 1, true, RunKind::Ident, seq![c])
            } else if is_digit(c) {
                flush(kind, pending) + tok_from(t, oc, cc, i + 1, true, RunKind::Num, seq![c])
            } else if c == '-' && i + 1 < t.len() && is_digit(t[i + 1]) {
                flush(kind, pending) + tok_from(t, oc, cc, i + 1, true, RunKind::Num, seq!['-'])
            } else if simple_tok(t, i) is Some {
                let p = simple_tok(t, i)->0;
                flush(kind, pending) + seq![p.0] + tok_from(
                    t, oc, cc, i + p.1, true, RunKind::Lit, Seq::empty(),
                )
            } else if kind == RunKind::Lit {
                tok_from(t, oc, cc, i + 1, true, RunKind::Lit, pending.push(c))
            } else {
                flush(kind, pending) + tok_from(t, oc, cc, i + 1, true, RunKind::Lit, seq![c])
            }
        }
    }
}

/// The token stream of a whole template text.
pub open spec fn spec_tokenize(t: Seq<char>, oc: char, cc: char) -> Seq<TokenV> {
    tok_from(t, oc, cc, 0, false, RunKind::Lit, Seq::empty())
}

fn flush_into(kind: RunKind, pending: &mut Vec<char>, out: &mut Vec<Token>)
    ensures
        tokens_view(final(out)@) == tokens_view(old(out)@) + flush(kind, old(pending)@),
        final(pending)@ == Seq::<char>::empty(),
{
    if pending.len() > 0 {
        let s = chars_to_string(pending);
        let t = match kind {
            RunKind::Lit => Token::Literal(s),
            RunKind::Ident => Token::Identifier(s),
            RunKind::Num => Token::NumberLiteral(s),
            RunKind::NumDot => Token::NumberLiteral(s),
        };
        proof {
            lemma_tokens_view_push(out@, t);
        }
        out.push(t);
        pending.clear();
        assert(tokens_view(out@) =~= tokens_view(old(out)@) + flush(kind, old(pending)@));
    } else {
        assert(tokens_view(out@) =~= tokens_view(old(out)@) + flush(kind, old(pending)@));
    }
}

/// Scans template text into its token stream. Infallible: the tokenizer only
/// segments characters; directive grammar is judged later, by the parser.
#[verifier::rlimit(100)]
pub fn tokenize(text: &str, open_ch: char, close_ch: char) -> (r: Vec<Token>)
    ensures
        tokens_view(r@) == spec_tokenize(text@, open_ch, close_ch),
{
    let tv = to_chars(text);
    let n = tv.len();
    let mut out: Vec<Token> = Vec::new();
    let mut pending: Vec<char> = Vec::new();
    let mut kind = RunKind::Lit;
    let mut mode = false;
    let mut i: usize = 0;
    while i < n
        invariant
            i <= n,
            n == tv@.len(),
            tv@ == text@,
            !mode ==> kind == RunKind::Lit,
            tokens_view(out@) + tok_from(tv@, open_ch, close_ch, i as int, mode, kind, pending@)
                == spec_tokenize(text@, open_ch, close_ch),
        decreases n - i,
    {
        let ghost pre_out = out@;
        let ghost pre_pending = pending@;
        let ghost pre_kind = kind;
        let ghost pre_mode = mode;
        let ghost pre_i = i as int;
        let c = tv[i];
        if !mode {
            if c == open_ch || c == close_ch {
                if i + 1 < n && tv[i + 1] == c {
                    pending.push(c);
                    i = i + 2;
                } else {
                    flush_into(kind, &mut pending, &mut out);
                    proof {
                        lemma_tokens_view_push(out@, Token::Open);
                    }
                    out.push(Token::Open);
                    kind = RunKind::Lit;
                    mode = true;
                    i = i + 1;
                }
            } else {
                pending.push(c);
                i = i + 1;
            }
        } else {
            if c == open_ch || c == close_ch {
                flush_into(kind, &mut pending, &mut out);
                proof {
                    lemma_tokens_view_push(out@, Token::Close);
                }
                out.push(Token::Close);
                kind = RunKind::Lit;
                mode = false;
                i = i + 1;
            } else if kind == RunKind::Ident && ident_cont(c) {
                pending.push(c);
                i = i + 1;
            } else if kind == RunKind::Num && digit(c) {
                pending.push(c);
                i = i + 1;
            } else if kind == RunKind::Num && c == '.' {
                pending.push(c);
                kind = RunKind::NumDot;
                i = i + 1;
            } else if kind == RunKind::NumDot && digit(c) {
                pending.push(c);
                i = i + 1;
            } else if ident_start(c) {
                flush_into(kind, &mut pending, &mut out);
                pending.push(c);
                kind = RunKind::Ident;
                i = i + 1;
            } else if digit(c) {
                flush_into(kind, &mut pending, &mut out);
                pending.push(c);
                kind = RunKind::Num;
                i = i + 1;
            } else if c == '-' && i + 1 < n && digit(tv[i + 1]) {
                flush_into(kind, &mut pending, &mut out);
                pending.push('-');
                kind = RunKind::Num;
                i = i + 1;
            } else {
                let st = simple_tok_exec(&tv, i);
                match st {
                    Some((tok, adv)) => {
                        flush_into(kind, &mut pending, &mut out);
                        proof {
                            lemma_tokens_view_push(out@, tok);
                        }
                        out.push(tok);
                        kind = RunKind::Lit;
                        i = i + adv;
                    },
                    None => {
                        if kind == RunKind::Lit {
                            pending.push(c);
                            i = i + 1;
                        } else {
                            flush_into(kind, &mut pending, &mut out);
                            pending.push(c);
                            kind = RunKind::Lit;
                            i = i + 1;
                        }
                    },
                }
            }
        }
        proof {
            assert(seq![c] =~= Seq::<char>::empty().push(c));
            assert(seq!['-'] =~= Seq::<char>::empty().push('-'));
            assert(tokens_view(out@) + tok_from(tv@, open_ch, close_ch, i as int, mode, kind, pending@)
                =~= tokens_view(pre_out) + tok_from(tv@, open_ch, close_ch, pre_i, pre_mode, pre_kind, pre_pending));
        }
    }
    flush_into(kind, &mut pending, &mut out);
    assert(tokens_view(out@) =~= spec_tokenize(text@, open_ch, close_ch));
    out
}

// ---------------------------------------------------------------------------
// The raw text a run of tokens stands for
// ---------------------------------------------------------------------------

pub open spec fn op_chars(op: CmpOp) -> Seq<char> {
    match op {
        CmpOp::Eq => seq!['=', '='],
        CmpOp::Ne => seq!['!', '='],
        CmpOp::Lt => seq!['<'],
        CmpOp::Le => seq!['<', '='],
        CmpOp::Gt => seq!['>'],
        CmpOp::Ge => seq!['>', '='],
    }
}

/// The exact characters a token was scanned from. Because the tokenizer skips
/// nothing inside a directive span, concatenating these reconstructs the raw
/// span text verbatim.
pub open spec fn token_text(t: TokenV) -> Seq<char> {
    match t {
        TokenV::Literal(s) => s,
        TokenV::Open => Seq::empty(),
        TokenV::Close => Seq::empty(),
        TokenV::Identifier(s) => s,
        TokenV::NumberLiteral(s) => s,
        TokenV::Operator(op) => op_chars(op),
        TokenV::Colon => seq![':'],
        TokenV::Question => seq!['?'],
        TokenV::LBracket => seq!['['],
        TokenV::RBracket => seq![']'],
        TokenV::LParen => seq!['('],
        TokenV::RParen => seq![')'],
    }
}

/// Appends the raw text of one token to a string under construction.
pub fn append_token_text(out: &mut String, t: &Token)
    ensures
        final(out)@ == old(out)@ + token_text(t@),
{
    match t {
        Token::Literal(s) => out.append(s.as_str()),
        Token::Open => {
            assert(old(out)@ + token_text(t@) =~= old(out)@);
        },
        Token::Close => {
            assert(old(out)@ + token_text(t@) =~= old(out)@);
        },
        Token::Identifier(s) => out.append(s.as_str()),
        Token::NumberLiteral(s) => out.append(s.as_str()),
        Token::Operator(op) => {
            match op {
                CmpOp::Eq => {
                    proof {
                        reveal_strlit("==");
                    }
                    out.append("==");
                    assert(out@ =~= old(out)@ + token_text(t@));
                },
                CmpOp::Ne => {
                    proof {
                        reveal_strlit("!=");
                    }
                    out.append("!=");
                    assert(out@ =~= old(out)@ + token_text(t@));
                },
                CmpOp::Lt => {
                    proof {
                        reveal_strlit("<");
                    }
                    out.append("<");
                    assert(out@ =~= old(out)@ + token_text(t@));
                },
                CmpOp::Le => {
                    proof {
                        reveal_strlit("<=");
                    }
                    out.append("<=");
                    assert(out@ =~= old(out)@ + token_text(t@));
                },
                CmpOp::Gt => {
                    proof {
                        reveal_strlit(">");
                    }
                    out.append(">");
                    assert(out@ =~= old(out)@ + token_text(t@));
                },
                CmpOp::Ge => {
                    proof {
                        reveal_strlit(">=");
                    }
                    out.append(">=");
                    assert(out@ =~= old(out)@ + token_text(t@));
                },
            }
        },
        Token::Colon => {
            proof {
                reveal_strlit(":");
            }
            out.append(":");
            assert(out@ =~= old(out)@ + token_text(t@));
        },
        Token::Question => {
            proof {
                reveal_strlit("?");
            }
            out.append("?");
            assert(out@ =~= old(out)@ + token_text(t@));
        },
        Token::LBracket => {
            proof {
                reveal_strlit("[");
            }
            out.append("[");
            assert(out@ =~= old(out)@ + token_text(t@));
        },
        Token::RBracket => {
            proof {
                reveal_strlit("]");
            }
            out.append("]");
            assert(out@ =~= old(out)@ + token_text(t@));
        },
        Token::LParen => {
            proof {
                reveal_strlit("(");
            }
            out.append("(");
            assert(out@ =~= old(out)@ + token_text(t@));
        },
        Token::RParen => {
            proof {
                reveal_strlit(")");
            }
            out.append(")");
            assert(out@ =~= old(out)@ + token_text(t@));
        },
    }
}

} // verus!
