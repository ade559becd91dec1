use vstd::prelude::*;
use crate::expr::BinOp;
use crate::expr::Expr;
use crate::expr::ExprModel;
use crate::expr::Stmt;
use crate::expr::StmtModel;
use crate::expr::UnOp;
use crate::expr::stmts_view;
use crate::rox_type::RoxType;
use crate::rox_type::ValueModel;
use crate::scanner::next_pos;
use crate::token::Token;
use crate::token::TokenModel;
use crate::token::TokenType;
use crate::token::tokens_view;

verus! {

/// Spec-level mirror of a parse diagnostic.
pub struct ParseErrModel {
    pub err_token: TokenModel,
    pub err_msg: Seq<char>,
}

/// A parse diagnostic: the token the grammar violation was found at, and
/// what was expected there.
#[derive(Debug)]
pub struct ParseErr {
    pub err_token: Token,
    pub err_msg: String,
}

impl View for ParseErr {
    type V = ParseErrModel;

    open spec fn view(&self) -> ParseErrModel {
        ParseErrModel { err_token: self.err_token@, err_msg: self.err_msg@ }
    }
}

/// The view of a diagnostic sequence, entry by entry.
pub open spec fn perrs_view(s: Seq<ParseErr>) -> Seq<ParseErrModel> {
    s.map_values(|e: ParseErr| e@)
}

pub open spec fn perr(t: TokenModel, msg: Seq<char>) -> ParseErrModel {
    ParseErrModel { err_token: t, err_msg: msg }
}

/// A token sequence the parser accepts: the scanner always ends its output
/// with one `EndOfInput` token.
pub open spec fn wf_tokens(toks: Seq<TokenModel>) -> bool {
    toks.len() >= 1 && toks[toks.len() - 1].token_type == TokenType::EndOfInput
}

/// The token the parser sees at `i`; out of range it sees end of input.
pub open spec fn peek_tok(toks: Seq<TokenModel>, i: int) -> TokenModel {
    if 0 <= i && i < toks.len() {
        toks[i]
    } else {
        TokenModel {
            token_type: TokenType::EndOfInput,
            lexeme: Seq::empty(),
            literal: ValueModel::Nil,
            line: 0,
        }
    }
}

/// Statement boundaries at which panic-mode recovery stops discarding.
pub open spec fn is_sync_boundary(tt: TokenType) -> bool {
    ||| tt == TokenType::Class
    ||| tt == TokenType::Fun
    ||| tt == TokenType::Var
    ||| tt == TokenType::For
    ||| tt == TokenType::If
    ||| tt == TokenType::While
    ||| tt == TokenType::Print
    ||| tt == TokenType::Return
}

/// How many tokens are left at cursor `i`, held to the interval the cursor
/// actually ranges over; the measure of the mutual recursion below.
pub open spec fn remaining(toks: Seq<TokenModel>, i: int) -> int {
    if i < 0 {
        toks.len() as int
    } else if i > toks.len() {
        0
    } else {
        toks.len() - i
    }
}

// ----- the functional model of parsing -----
//
// Each function returns what it parsed — or the first grammar violation —
// together with the cursor it stopped at. The cursor of a real parse never
// moves backwards, so the `next_pos` bounds at the recursion sites are the
// identity on every reachable path; they keep the mutual recursion visibly
// well-founded.

pub open spec fn p_expression(toks: Seq<TokenModel>, i: int) -> (Result<ExprModel, ParseErrModel>, int)
    decreases remaining(toks, i), 10int,
{
    p_equality(toks, i)
}

pub open spec fn p_equality(toks: Seq<TokenModel>, i: int) -> (Result<ExprModel, ParseErrModel>, int)
    decreases remaining(toks, i), 9int,
{
    let (r, j) = p_comparison(toks, i);
    match r {
        Err(e) => (Err(e), j),
        Ok(e) => p_eq_tail(toks, next_pos(j, i, toks.len() as int), e),
    }
}

pub open spec fn p_eq_tail(toks: Seq<TokenModel>, i: int, acc: ExprModel) -> (Result<
    ExprModel,
    ParseErrModel,
>, int)
    decreases remaining(toks, i), 8int,
{
    let tt = peek_tok(toks, i).token_type;
    if tt == TokenType::BangEqual || tt == TokenType::EqualEqual {
        let op = if tt == TokenType::BangEqual {
            BinOp::BangEqual
        } else {
            BinOp::EqualEqual
        };
        let (r, j) = p_comparison(toks, i + 1);
        match r {
            Err(e) => (Err(e), j),
            Ok(rhs) => p_eq_tail(
                toks,
                next_pos(j, i + 1, toks.len() as int),
                ExprModel::Binary(Box::new(acc), op, Box::new(rhs)),
            ),
        }
    } else {
        (Ok(acc), i)
    }
}

pub open spec fn p_comparison(toks: Seq<TokenModel>, i: int) -> (Result<ExprModel, ParseErrModel>, int)
    decreases remaining(toks, i), 7int,
{
    let (r, j) = p_term(toks, i);
    match r {
        Err(e) => (Err(e), j),
        Ok(e) => p_cmp_tail(toks, next_pos(j, i, toks.len() as int), e),
    }
}

pub open spec fn p_cmp_tail(toks: Seq<TokenModel>, i: int, acc: ExprModel) -> (Result<
    ExprModel,
    ParseErrModel,
>, int)
    decreases remaining(toks, i), 6int,
{
    let tt = peek_tok(toks, i).token_type;
    if tt == TokenType::Greater || tt == TokenType::GreaterEqual || tt == TokenType::Less || tt
        == TokenType::LessEqual {
        let op = if tt == TokenType::Greater {
            BinOp::Greater
        } else if tt == TokenType::GreaterEqual {
            BinOp::GreaterEqual
        } else if tt == TokenType::Less {
            BinOp::Less
        } else {
            BinOp::LessEqual
        };
        let (r, j) = p_term(toks, i + 1);
        match r {
            Err(e) => (Err(e), j),
            Ok(rhs) => p_cmp_tail(
                toks,
                next_pos(j, i + 1, toks.len() as int),
                ExprModel::Binary(Box::new(acc), op, Box::new(rhs)),
            ),
        }
    } else {
        (Ok(acc), i)
    }
}

pub open spec fn p_term(toks: Seq<TokenModel>, i: int) -> (Result<ExprModel, ParseErrModel>, int)
    decreases remaining(toks, i), 5int,
{
    let (r, j) = p_factor(toks, i);
    match r {
        Err(e) => (Err(e), j),
        Ok(e) => p_term_tail(toks, next_pos(j, i, toks.len() as int), e),
    }
}

pub open spec fn p_term_tail(toks: Seq<TokenModel>, i: int, acc: ExprModel) -> (Result<
    ExprModel,
    ParseErrModel,
>, int)
    decreases remaining(toks, i), 4int,
{
    let tt = peek_tok(toks, i).token_type;
    if tt == TokenType::Minus || tt == TokenType::Plus {
        let op = if tt == TokenType::Minus {
            BinOp::Minus
        } else {
            BinOp::Plus
        };
        let (r, j) = p_factor(toks, i + 1);
        match r {
            Err(e) => (Err(e), j),
            Ok(rhs) => p_term_tail(
                toks,
                next_pos(j, i + 1, toks.len() as int),
                ExprModel::Binary(Box::new(acc), op, Box::new(rhs)),
            ),
        }
    } else {
        (Ok(acc), i)
    }
}

pub open spec fn p_factor(toks: Seq<TokenModel>, i: int) -> (Result<ExprModel, ParseErrModel>, int)
    decreases remaining(toks, i), 3int,
{
    let (r, j) = p_unary(toks, i);
    match r {
        Err(e) => (Err(e), j),
        Ok(e) => p_factor_tail(toks, next_pos(j, i, toks.len() as int), e),
    }
}

pub open spec fn p_factor_tail(toks: Seq<TokenModel>, i: int, acc: ExprModel) -> (Result<
    ExprModel,
    ParseErrModel,
>, int)
    decreases remaining(toks, i), 2int,
{
    let tt = peek_tok(toks, i).token_type;
    if tt == TokenType::Slash || tt == TokenType::Star {
        let op = if tt == TokenType::Slash {
            BinOp::Slash
        } else {
            BinOp::Star
        };
        let (r, j) = p_unary(toks, i + 1);
        match r {
            Err(e) => (Err(e), j),
            Ok(rhs) => p_factor_tail(
                toks,
                next_pos(j, i + 1, toks.len() as int),
                ExprModel::Binary(Box::new(acc), op, Box::new(rhs)),
            ),
        }
    } else {
        (Ok(acc), i)
    }
}

pub open spec fn p_unary(toks: Seq<TokenModel>, i: int) -> (Result<ExprModel, ParseErrModel>, int)
    decreases remaining(toks, i), 1int,
{
    let tt = peek_tok(toks, i).token_type;
    if tt == TokenType::Bang {
        let (r, j) = p_unary(toks, i + 1);
        match r {
            Err(e) => (Err(e), j),
            Ok(e) => (Ok(ExprModel::Unary(UnOp::Bang, Box::new(e))), j),
        }
    } else if tt == TokenType::Minus {
        let (r, j) = p_unary(toks, i + 1);
        match r {
            Err(e) => (Err(e), j),
            Ok(e) => (Ok(ExprModel::Unary(UnOp::Minus, Box::new(e))), j),
        }
    } else {
        p_primary(toks, i)
    }
}

pub open spec fn p_primary(toks: Seq<TokenModel>, i: int) -> (Result<ExprModel, ParseErrModel>, int)
    decreases remaining(toks, i), 0int,
{
    let t = peek_tok(toks, i);
    if t.token_type == TokenType::False {
        (Ok(ExprModel::Literal(ValueModel::Bool(false))), i + 1)
    } else if t.token_type == TokenType::True {
        (Ok(ExprModel::Literal(ValueModel::Bool(true))), i + 1)
    } else if t.token_type == TokenType::Nil {
        (Ok(ExprModel::Literal(ValueModel::Nil)), i + 1)
    } else if t.token_type == TokenType::Number || t.token_type == TokenType::StringLit {
        (Ok(ExprModel::Literal(t.literal)), i + 1)
    } else if t.token_type == TokenType::Identifier {
        (Ok(ExprModel::Variable(t.lexeme)), i + 1)
    } else if t.token_type == TokenType::LeftParen {
        let (r, j) = p_expression(toks, i + 1);
        match r {
            Err(e) => (Err(e), j),
            Ok(e) => if peek_tok(toks, j).token_type == TokenType::RightParen {
                (Ok(ExprModel::Grouping(Box::new(e))), j + 1)
            } else {
                (Err(perr(peek_tok(toks, j), "Expect ')' after expression."@)), j)
            },
        }
    } else {
        (Err(perr(t, "Expect expression"@)), i)
    }
}

pub open spec fn p_print_statement(toks: Seq<TokenModel>, i: int) -> (Result<
    StmtModel,
    ParseErrModel,
>, int)
    decreases remaining(toks, i), 11int,
{
    let (r, j) = p_expression(toks, i);
    match r {
        Err(e) => (Err(e), j),
        Ok(e) => if peek_tok(toks, j).token_type == TokenType::Semicolon {
            (Ok(StmtModel::Print(e)), j + 1)
        } else {
            (Err(perr(peek_tok(toks, j), "Expect ';' after value."@)), j)
        },
    }
}

pub open spec fn p_expression_statement(toks: Seq<TokenModel>, i: int) -> (Result<
    StmtModel,
    ParseErrModel,
>, int)
    decreases remaining(toks, i), 11int,
{
    let (r, j) = p_expression(toks, i);
    match r {
        Err(e) => (Err(e), j),
        Ok(e) => if peek_tok(toks, j).token_type == TokenType::Semicolon {
            (Ok(StmtModel::Expression(e)), j + 1)
        } else {
            (Err(perr(peek_tok(toks, j), "Expect ';' after value."@)), j)
        },
    }
}

/// The `var` keyword is already consumed; `i` is at the expected name.
pub open spec fn p_var_declaration(toks: Seq<TokenModel>, i: int) -> (Result<
    StmtModel,
    ParseErrModel,
>, int)
    decreases remaining(toks, i), 11int,
{
    let t = peek_tok(toks, i);
    if t.token_type != TokenType::Identifier {
        (Err(perr(t, "Expect variable name."@)), i)
    } else if peek_tok(toks, i + 1).token_type == TokenType::Equal {
        let (r, j) = p_expression(toks, i + 2);
        match r {
            Err(e) => (Err(e), j),
            Ok(e) => if peek_tok(toks, j).token_type == TokenType::Semicolon {
                (Ok(StmtModel::Var(t.lexeme, Some(e))), j + 1)
            } else {
                (Err(perr(peek_tok(toks, j), "Expect ';' after value."@)), j)
            },
        }
    } else if peek_tok(toks, i + 1).token_type == TokenType::Semicolon {
        (Ok(StmtModel::Var(t.lexeme, None)), i + 2)
    } else {
        (Err(perr(peek_tok(toks, i + 1), "Expect ';' after value."@)), i + 1)
    }
}

pub open spec fn p_statement(toks: Seq<TokenModel>, i: int) -> (Result<StmtModel, ParseErrModel>, int)
    decreases remaining(toks, i), 12int,
{
    if peek_tok(toks, i).token_type == TokenType::Print {
        p_print_statement(toks, i + 1)
    } else {
        p_expression_statement(toks, i)
    }
}

pub open spec fn p_declaration(toks: Seq<TokenModel>, i: int) -> (Result<StmtModel, ParseErrModel>, int)
    decreases remaining(toks, i), 13int,
{
    if peek_tok(toks, i).token_type == TokenType::Var {
        p_var_declaration(toks, i + 1)
    } else {
        p_statement(toks, i)
    }
}

/// Where panic-mode recovery leaves the cursor: one token is discarded, then
/// tokens are dropped until just past a semicolon, at a statement-starting
/// keyword, or at end of input.
pub open spec fn sync_end(toks: Seq<TokenModel>, i: int) -> int
    decreases remaining(toks, i), 1int,
{
    if peek_tok(toks, i).token_type == TokenType::EndOfInput {
        i
    } else {
        sync_scan(toks, i + 1)
    }
}

pub open spec fn sync_scan(toks: Seq<TokenModel>, i: int) -> int
    decreases remaining(toks, i), 0int,
{
    if peek_tok(toks, i).token_type == TokenType::EndOfInput {
        i
    } else if peek_tok(toks, i - 1).token_type == TokenType::Semicolon {
        i
    } else if is_sync_boundary(peek_tok(toks, i).token_type) {
        i
    } else {
        sync_scan(toks, i + 1)
    }
}

/// The statements parsed cleanly and the diagnostics collected, in order:
/// parsing recovers at statement boundaries and carries on, one diagnostic
/// per grammar violation.
pub open spec fn p_program(toks: Seq<TokenModel>, i: int) -> (Seq<StmtModel>, Seq<ParseErrModel>)
    decreases remaining(toks, i), 14int,
{
    if peek_tok(toks, i).token_type == TokenType::EndOfInput {
        (Seq::empty(), Seq::empty())
    } else {
        let (r, j) = p_declaration(toks, i);
        match r {
            Ok(s) => {
                let rest = p_program(toks, next_pos(j, i + 1, toks.len() as int));
                (seq![s] + rest.0, rest.1)
            },
            Err(e) => {
                let k = sync_end(toks, next_pos(j, i, toks.len() as int));
                let rest = p_program(toks, next_pos(k, i + 1, toks.len() as int));
                (rest.0, seq![e] + rest.1)
            },
        }
    }
}

// ----- what printed expressions parse back to -----
//
// `Expr::to_string` parenthesises every composite node. Re-parsing its
// output therefore rebuilds the same tree except that each composite node
// sits inside one fresh grouping — `regroup` below — and a grouping is
// transparent to evaluation. The lemmas here prove that token-level round
// trip for every expression.

/// The tree the printed form of `e` parses back to: the same tree with one
/// grouping around every composite node.
pub open spec fn regroup(e: ExprModel) -> ExprModel
    decreases e,
{
    match e {
        ExprModel::Literal(v) => ExprModel::Literal(v),
        ExprModel::Variable(n) => ExprModel::Variable(n),
        ExprModel::Grouping(inner) => ExprModel::Grouping(Box::new(regroup(*inner))),
        ExprModel::Unary(op, inner) => ExprModel::Grouping(
            Box::new(ExprModel::Unary(op, Box::new(regroup(*inner)))),
        ),
        ExprModel::Binary(l, op, r) => ExprModel::Grouping(
            Box::new(
                ExprModel::Binary(Box::new(regroup(*l)), op, Box::new(regroup(*r))),
            ),
        ),
    }
}

pub open spec fn paren_tok(tt: TokenType, text: Seq<char>, line: int) -> TokenModel {
    TokenModel { token_type: tt, lexeme: text, literal: ValueModel::Nil, line }
}

pub open spec fn unop_token(op: UnOp, line: int) -> TokenModel {
    match op {
        UnOp::Bang => paren_tok(TokenType::Bang, "!"@, line),
        UnOp::Minus => paren_tok(TokenType::Minus, "-"@, line),
    }
}

pub open spec fn binop_token(op: BinOp, line: int) -> TokenModel {
    match op {
        BinOp::Minus => paren_tok(TokenType::Minus, "-"@, line),
        BinOp::Plus => paren_tok(TokenType::Plus, "+"@, line),
        BinOp::Slash => paren_tok(TokenType::Slash, "/"@, line),
        BinOp::Star => paren_tok(TokenType::Star, "*"@, line),
        BinOp::Greater => paren_tok(TokenType::Greater, ">"@, line),
        BinOp::GreaterEqual => paren_tok(TokenType::GreaterEqual, ">="@, line),
        BinOp::Less => paren_tok(TokenType::Less, "<"@, line),
        BinOp::LessEqual => paren_tok(TokenType::LessEqual, "<="@, line),
        BinOp::EqualEqual => paren_tok(TokenType::EqualEqual, "=="@, line),
        BinOp::BangEqual => paren_tok(TokenType::BangEqual, "!="@, line),
    }
}

pub open spec fn literal_token(v: ValueModel, d: spec_fn(u64) -> Seq<char>, line: int) -> TokenModel {
    match v {
        ValueModel::Str(s) => TokenModel {
            token_type: TokenType::StringLit,
            lexeme: "\""@ + s + "\""@,
            literal: ValueModel::Str(s),
            line,
        },
        ValueModel::Num(b) => TokenModel {
            token_type: TokenType::Number,
            lexeme: d(b),
            literal: ValueModel::Num(b),
            line,
        },
        ValueModel::Bool(b) => if b {
            paren_tok(TokenType::True, "true"@, line)
        } else {
            paren_tok(TokenType::False, "false"@, line)
        },
        ValueModel::Nil => paren_tok(TokenType::Nil, "nil"@, line),
    }
}

/// The token form of a printed expression: what the scanner makes of the
/// text `Expr::to_string` writes, with `d` formatting the numbers.
pub open spec fn expr_tokens(e: ExprModel, d: spec_fn(u64) -> Seq<char>, line: int) -> Seq<
    TokenModel,
>
    decreases e,
{
    match e {
        ExprModel::Literal(v) => seq![literal_token(v, d, line)],
        ExprModel::Variable(n) => seq![
            TokenModel {
                token_type: TokenType::Identifier,
                lexeme: n,
                literal: ValueModel::Nil,
                line,
            },
        ],
        ExprModel::Grouping(inner) => seq![paren_tok(TokenType::LeftParen, "("@, line)]
            + expr_tokens(*inner, d, line) + seq![paren_tok(TokenType::RightParen, ")"@, line)],
        ExprModel::Unary(op, inner) => seq![
            paren_tok(TokenType::LeftParen, "("@, line),
            unop_token(op, line),
        ] + expr_tokens(*inner, d, line) + seq![paren_tok(TokenType::RightParen, ")"@, line)],
        ExprModel::Binary(l, op, r) => seq![paren_tok(TokenType::LeftParen, "("@, line)]
            + expr_tokens(*l, d, line) + seq![binop_token(op, line)] + expr_tokens(*r, d, line)
            + seq![paren_tok(TokenType::RightParen, ")"@, line)],
    }
}

/// A token no expression parse continues past: not an operator of any
/// precedence level.
pub open spec fn is_expr_delimiter(tt: TokenType) -> bool {
    &&& tt != TokenType::BangEqual
    &&& tt != TokenType::EqualEqual
    &&& tt != TokenType::Greater
    &&& tt != TokenType::GreaterEqual
    &&& tt != TokenType::Less
    &&& tt != TokenType::LessEqual
    &&& tt != TokenType::Minus
    &&& tt != TokenType::Plus
    &&& tt != TokenType::Slash
    &&& tt != TokenType::Star
}

/// At a delimiter every precedence level hands its accumulated tree back
/// unchanged, so a parse that reached `p_unary`'s result is the result of
/// the whole expression grammar.
proof fn lemma_levels_from_unary(toks: Seq<TokenModel>, i: int, v: ExprModel, end: int)
    requires
        0 <= i <= end <= toks.len(),
        p_unary(toks, i) == (Ok::<ExprModel, ParseErrModel>(v), end),
        is_expr_delimiter(peek_tok(toks, end).token_type),
    ensures
        p_factor(toks, i) == (Ok::<ExprModel, ParseErrModel>(v), end),
        p_term(toks, i) == (Ok::<ExprModel, ParseErrModel>(v), end),
        p_comparison(toks, i) == (Ok::<ExprModel, ParseErrModel>(v), end),
        p_equality(toks, i) == (Ok::<ExprModel, ParseErrModel>(v), end),
        p_expression(toks, i) == (Ok::<ExprModel, ParseErrModel>(v), end),
{
    assert(next_pos(end, i, toks.len() as int) == end);
    assert(p_factor_tail(toks, end, v) == (Ok::<ExprModel, ParseErrModel>(v), end));
    assert(p_factor(toks, i) == (Ok::<ExprModel, ParseErrModel>(v), end));
    assert(p_term_tail(toks, end, v) == (Ok::<ExprModel, ParseErrModel>(v), end));
    assert(p_term(toks, i) == (Ok::<ExprModel, ParseErrModel>(v), end));
    assert(p_cmp_tail(toks, end, v) == (Ok::<ExprModel, ParseErrModel>(v), end));
    assert(p_comparison(toks, i) == (Ok::<ExprModel, ParseErrModel>(v), end));
    assert(p_eq_tail(toks, end, v) == (Ok::<ExprModel, ParseErrModel>(v), end));
    assert(p_equality(toks, i) == (Ok::<ExprModel, ParseErrModel>(v), end));
}

/// The token at offset `off` inside an embedded token run.
proof fn lemma_tok_at(toks: Seq<TokenModel>, i: int, t: Seq<TokenModel>, off: int)
    requires
        0 <= i,
        i + t.len() <= toks.len(),
        toks.subrange(i, i + t.len() as int) == t,
        0 <= off < t.len(),
    ensures
        peek_tok(toks, i + off) == t[off],
{
    assert(toks.subrange(i, i + t.len() as int)[off] == t[off]);
}

/// A run embedded inside an embedded run is itself embedded.
proof fn lemma_sub_tokens(toks: Seq<TokenModel>, i: int, t: Seq<TokenModel>, off: int, sub: Seq<TokenModel>)
    requires
        0 <= i,
        i + t.len() <= toks.len(),
        toks.subrange(i, i + t.len() as int) == t,
        0 <= off,
        off + sub.len() <= t.len(),
        t.subrange(off, off + sub.len() as int) == sub,
    ensures
        toks.subrange(i + off, i + off + sub.len() as int) == sub,
{
    assert forall|k: int| 0 <= k < sub.len() implies toks.subrange(
        i + off,
        i + off + sub.len() as int,
    )[k] == sub[k] by {
        assert(toks.subrange(i, i + t.len() as int)[off + k] == t[off + k]);
        assert(t.subrange(off, off + sub.len() as int)[k] == sub[k]);
    }
    assert(toks.subrange(i + off, i + off + sub.len() as int) =~= sub);
}

/// Every printed expression is one atom to the parser: a literal, a name,
/// or a parenthesised form. Parsing its token form at the innermost
/// expression level rebuilds the tree, with one grouping around every
/// composite node, and consumes exactly those tokens.
#[verifier::rlimit(100)]
pub proof fn lemma_parse_printed_atom(
    toks: Seq<TokenModel>,
    i: int,
    e: ExprModel,
    d: spec_fn(u64) -> Seq<char>,
    line: int,
)
    requires
        0 <= i,
        i + expr_tokens(e, d, line).len() <= toks.len(),
        toks.subrange(i, i + expr_tokens(e, d, line).len() as int) == expr_tokens(e, d, line),
    ensures
        p_unary(toks, i) == (
            Ok::<ExprModel, ParseErrModel>(regroup(e)),
            i + expr_tokens(e, d, line).len(),
        ),
    decreases e,
{
    let t = expr_tokens(e, d, line);
    let len = toks.len() as int;
    match e {
        ExprModel::Literal(v) => {
            lemma_tok_at(toks, i, t, 0);
            assert(peek_tok(toks, i) == literal_token(v, d, line));
            match v {
                ValueModel::Str(_) => {
                    assert(p_primary(toks, i) == (
                        Ok::<ExprModel, ParseErrModel>(ExprModel::Literal(v)),
                        i + 1,
                    ));
                },
                ValueModel::Num(_) => {
                    assert(p_primary(toks, i) == (
                        Ok::<ExprModel, ParseErrModel>(ExprModel::Literal(v)),
                        i + 1,
                    ));
                },
                ValueModel::Bool(_) => {
                    assert(p_primary(toks, i) == (
                        Ok::<ExprModel, ParseErrModel>(ExprModel::Literal(v)),
                        i + 1,
                    ));
                },
                ValueModel::Nil => {
                    assert(p_primary(toks, i) == (
                        Ok::<ExprModel, ParseErrModel>(ExprModel::Literal(v)),
                        i + 1,
                    ));
                },
            }
        },
        ExprModel::Variable(n) => {
            lemma_tok_at(toks, i, t, 0);
            assert(peek_tok(toks, i).token_type == TokenType::Identifier);
            assert(p_primary(toks, i) == (
                Ok::<ExprModel, ParseErrModel>(ExprModel::Variable(n)),
                i + 1,
            ));
        },
        ExprModel::Grouping(inner) => {
            let ti = expr_tokens(*inner, d, line);
            lemma_tok_at(toks, i, t, 0);
            assert(peek_tok(toks, i).token_type == TokenType::LeftParen);
            assert(t.subrange(1, 1 + ti.len() as int) =~= ti);
            lemma_sub_tokens(toks, i, t, 1, ti);
            lemma_parse_printed_atom(toks, i + 1, *inner, d, line);
            let m = i + 1 + ti.len();
            lemma_tok_at(toks, i, t, t.len() - 1);
            assert(peek_tok(toks, m).token_type == TokenType::RightParen);
            lemma_levels_from_unary(toks, i + 1, regroup(*inner), m);
            assert(p_primary(toks, i) == (
                Ok::<ExprModel, ParseErrModel>(ExprModel::Grouping(Box::new(regroup(*inner)))),
                m + 1,
            ));
        },
        ExprModel::Unary(op, inner) => {
            let ti = expr_tokens(*inner, d, line);
            lemma_tok_at(toks, i, t, 0);
            assert(peek_tok(toks, i).token_type == TokenType::LeftParen);
            lemma_tok_at(toks, i, t, 1);
            assert(peek_tok(toks, i + 1) == unop_token(op, line));
            assert(t.subrange(2, 2 + ti.len() as int) =~= ti);
            lemma_sub_tokens(toks, i, t, 2, ti);
            lemma_parse_printed_atom(toks, i + 2, *inner, d, line);
            let m = i + 2 + ti.len();
            lemma_tok_at(toks, i, t, t.len() - 1);
            assert(peek_tok(toks, m).token_type == TokenType::RightParen);
            let u = ExprModel::Unary(op, Box::new(regroup(*inner)));
            match op {
                UnOp::Bang => {
                    assert(p_unary(toks, i + 1) == (Ok::<ExprModel, ParseErrModel>(u), m));
                },
                UnOp::Minus => {
                    assert(p_unary(toks, i + 1) == (Ok::<ExprModel, ParseErrModel>(u), m));
                },
            }
            lemma_levels_from_unary(toks, i + 1, u, m);
            assert(p_primary(toks, i) == (
                Ok::<ExprModel, ParseErrModel>(ExprModel::Grouping(Box::new(u))),
                m + 1,
            ));
        },
        ExprModel::Binary(l, op, r) => {
            let tl = expr_tokens(*l, d, line);
            let tr = expr_tokens(*r, d, line);
            let op_pos = i + 1 + tl.len();
            let r_start = op_pos + 1;
            let rp_pos = r_start + tr.len();
            lemma_tok_at(toks, i, t, 0);
            assert(peek_tok(toks, i).token_type == TokenType::LeftParen);
            assert(t.subrange(1, 1 + tl.len() as int) =~= tl);
            lemma_sub_tokens(toks, i, t, 1, tl);
            lemma_parse_printed_atom(toks, i + 1, *l, d, line);
            assert(t.subrange(
                1 + tl.len() as int + 1,
                1 + tl.len() as int + 1 + tr.len() as int,
            ) =~= tr);
            lemma_sub_tokens(toks, i, t, 1 + tl.len() as int + 1, tr);
            lemma_parse_printed_atom(toks, r_start, *r, d, line);
            lemma_tok_at(toks, i, t, 1 + tl.len() as int);
            assert(peek_tok(toks, op_pos) == binop_token(op, line));
            lemma_tok_at(toks, i, t, t.len() - 1);
            assert(peek_tok(toks, rp_pos).token_type == TokenType::RightParen);
            let lv = regroup(*l);
            let rv = regroup(*r);
            let b = ExprModel::Binary(Box::new(lv), op, Box::new(rv));
            assert(tr.len() >= 1);
            assert(next_pos(op_pos, i + 1, len) == op_pos);
            assert(next_pos(rp_pos, op_pos + 1, len) == rp_pos);
            assert(next_pos(rp_pos, i + 1, len) == rp_pos);
            // the right operand, parsed as a factor after the operator
            assert(p_factor_tail(toks, rp_pos, rv) == (Ok::<ExprModel, ParseErrModel>(rv), rp_pos));
            assert(p_factor(toks, r_start) == (Ok::<ExprModel, ParseErrModel>(rv), rp_pos));
            assert(p_term_tail(toks, rp_pos, rv) == (Ok::<ExprModel, ParseErrModel>(rv), rp_pos));
            assert(p_term(toks, r_start) == (Ok::<ExprModel, ParseErrModel>(rv), rp_pos));
            assert(p_cmp_tail(toks, rp_pos, rv) == (Ok::<ExprModel, ParseErrModel>(rv), rp_pos));
            assert(p_comparison(toks, r_start) == (Ok::<ExprModel, ParseErrModel>(rv), rp_pos));
            match op {
                BinOp::Slash | BinOp::Star => {
                    assert(p_factor_tail(toks, op_pos, lv) == (
                        Ok::<ExprModel, ParseErrModel>(b),
                        rp_pos,
                    ));
                    assert(p_factor(toks, i + 1) == (Ok::<ExprModel, ParseErrModel>(b), rp_pos));
                    assert(p_term_tail(toks, rp_pos, b) == (
                        Ok::<ExprModel, ParseErrModel>(b),
                        rp_pos,
                    ));
                    assert(p_term(toks, i + 1) == (Ok::<ExprModel, ParseErrModel>(b), rp_pos));
                    assert(p_cmp_tail(toks, rp_pos, b) == (
                        Ok::<ExprModel, ParseErrModel>(b),
                        rp_pos,
                    ));
                    assert(p_comparison(toks, i + 1) == (
                        Ok::<ExprModel, ParseErrModel>(b),
                        rp_pos,
                    ));
                    assert(p_eq_tail(toks, rp_pos, b) == (
                        Ok::<ExprModel, ParseErrModel>(b),
                        rp_pos,
                    ));
                    assert(p_equality(toks, i + 1) == (Ok::<ExprModel, ParseErrModel>(b), rp_pos));
                },
                BinOp::Minus | BinOp::Plus => {
                    assert(p_factor_tail(toks, op_pos, lv) == (
                        Ok::<ExprModel, ParseErrModel>(lv),
                        op_pos,
                    ));
                    assert(p_factor(toks, i + 1) == (Ok::<ExprModel, ParseErrModel>(lv), op_pos));
                    assert(p_term_tail(toks, rp_pos, b) == (
                        Ok::<ExprModel, ParseErrModel>(b),
                        rp_pos,
                    ));
                    assert(p_term_tail(toks, op_pos, lv) == (
                        Ok::<ExprModel, ParseErrModel>(b),
                        rp_pos,
                    ));
                    assert(p_term(toks, i + 1) == (Ok::<ExprModel, ParseErrModel>(b), rp_pos));
                    assert(p_cmp_tail(toks, rp_pos, b) == (
                        Ok::<ExprModel, ParseErrModel>(b),
                        rp_pos,
                    ));
                    assert(p_comparison(toks, i + 1) == (
                        Ok::<ExprModel, ParseErrModel>(b),
                        rp_pos,
                    ));
                    assert(p_eq_tail(toks, rp_pos, b) == (
                        Ok::<ExprModel, ParseErrModel>(b),
                        rp_pos,
                    ));
                    assert(p_equality(toks, i + 1) == (Ok::<ExprModel, ParseErrModel>(b), rp_pos));
                },
                BinOp::Greater | BinOp::GreaterEqual | BinOp::Less | BinOp::LessEqual => {
                    assert(p_factor_tail(toks, op_pos, lv) == (
                        Ok::<ExprModel, ParseErrModel>(lv),
                        op_pos,
                    ));
                    assert(p_factor(toks, i + 1) == (Ok::<ExprModel, ParseErrModel>(lv), op_pos));
                    assert(p_term_tail(toks, op_pos, lv) == (
                        Ok::<ExprModel, ParseErrModel>(lv),
                        op_pos,
                    ));
                    assert(p_term(toks, i + 1) == (Ok::<ExprModel, ParseErrModel>(lv), op_pos));
                    assert(p_cmp_tail(toks, rp_pos, b) == (
                        Ok::<ExprModel, ParseErrModel>(b),
                        rp_pos,
                    ));
                    assert(p_cmp_tail(toks, op_pos, lv) == (
                        Ok::<ExprModel, ParseErrModel>(b),
                        rp_pos,
                    ));
                    assert(p_comparison(toks, i + 1) == (
                        Ok::<ExprModel, ParseErrModel>(b),
                        rp_pos,
                    ));
                    assert(p_eq_tail(toks, rp_pos, b) == (
                        Ok::<ExprModel, ParseErrModel>(b),
                        rp_pos,
                    ));
                    assert(p_equality(toks, i + 1) == (Ok::<ExprModel, ParseErrModel>(b), rp_pos));
                },
                BinOp::EqualEqual | BinOp::BangEqual => {
                    assert(p_factor_tail(toks, op_pos, lv) == (
                        Ok::<ExprModel, ParseErrModel>(lv),
                        op_pos,
                    ));
                    assert(p_factor(toks, i + 1) == (Ok::<ExprModel, ParseErrModel>(lv), op_pos));
                    assert(p_term_tail(toks, op_pos, lv) == (
                        Ok::<ExprModel, ParseErrModel>(lv),
                        op_pos,
                    ));
                    assert(p_term(toks, i + 1) == (Ok::<ExprModel, ParseErrModel>(lv), op_pos));
                    assert(p_cmp_tail(toks, rp_pos, b) == (
                        Ok::<ExprModel, ParseErrModel>(b),
                        rp_pos,
                    ));
                    assert(p_cmp_tail(toks, op_pos, lv) == (
                        Ok::<ExprModel, ParseErrModel>(lv),
                        op_pos,
                    ));
                    assert(p_comparison(toks, i + 1) == (
                        Ok::<ExprModel, ParseErrModel>(lv),
                        op_pos,
                    ));
                    assert(p_eq_tail(toks, rp_pos, b) == (
                        Ok::<ExprModel, ParseErrModel>(b),
                        rp_pos,
                    ));
                    assert(p_eq_tail(toks, op_pos, lv) == (
                        Ok::<ExprModel, ParseErrModel>(b),
                        rp_pos,
                    ));
                    assert(p_equality(toks, i + 1) == (Ok::<ExprModel, ParseErrModel>(b), rp_pos));
                },
            }
            assert(p_expression(toks, i + 1) == (Ok::<ExprModel, ParseErrModel>(b), rp_pos));
            assert(p_primary(toks, i) == (
                Ok::<ExprModel, ParseErrModel>(ExprModel::Grouping(Box::new(b))),
                rp_pos + 1,
            ));
        },
    }
}

/// The token form of a whole printed expression statement: the printed
/// expression, the closing semicolon, and end of input.
pub open spec fn printed_stmt_tokens(e: ExprModel, d: spec_fn(u64) -> Seq<char>, line: int) -> Seq<
    TokenModel,
> {
    expr_tokens(e, d, line) + seq![
        paren_tok(TokenType::Semicolon, ";"@, line),
        TokenModel {
            token_type: TokenType::EndOfInput,
            lexeme: Seq::empty(),
            literal: ValueModel::Nil,
            line,
        },
    ]
}

/// Parsing the token form of one printed expression statement yields no
/// diagnostics and exactly one expression statement: the original tree with
/// one grouping around every composite node.
pub proof fn lemma_parse_printed_program(e: ExprModel, d: spec_fn(u64) -> Seq<char>, line: int)
    ensures
        p_program(printed_stmt_tokens(e, d, line), 0) == (
            seq![StmtModel::Expression(regroup(e))],
            Seq::<ParseErrModel>::empty(),
        ),
{
    let t = expr_tokens(e, d, line);
    let toks = printed_stmt_tokens(e, d, line);
    let tl = t.len() as int;
    assert(toks.subrange(0, tl) =~= t);
    lemma_parse_printed_atom(toks, 0, e, d, line);
    assert(peek_tok(toks, tl) == toks[tl]);
    assert(peek_tok(toks, tl).token_type == TokenType::Semicolon);
    lemma_levels_from_unary(toks, 0, regroup(e), tl);
    assert(t.len() >= 1);
    assert(peek_tok(toks, 0) == t[0]);
    assert(t[0].token_type != TokenType::Var && t[0].token_type != TokenType::Print && t[0].token_type
        != TokenType::EndOfInput) by {
        match e {
            ExprModel::Literal(v) => {
                match v {
                    ValueModel::Str(_) => {},
                    ValueModel::Num(_) => {},
                    ValueModel::Bool(_) => {},
                    ValueModel::Nil => {},
                }
            },
            ExprModel::Variable(_) => {},
            ExprModel::Grouping(_) => {},
            ExprModel::Unary(_, _) => {},
            ExprModel::Binary(_, _, _) => {},
        }
    }
    let s = StmtModel::Expression(regroup(e));
    assert(p_expression_statement(toks, 0) == (Ok::<StmtModel, ParseErrModel>(s), tl + 1));
    assert(p_statement(toks, 0) == (Ok::<StmtModel, ParseErrModel>(s), tl + 1));
    assert(p_declaration(toks, 0) == (Ok::<StmtModel, ParseErrModel>(s), tl + 1));
    assert(peek_tok(toks, tl + 1).token_type == TokenType::EndOfInput);
    assert(p_program(toks, tl + 1) == (Seq::<StmtModel>::empty(), Seq::<ParseErrModel>::empty()));
    assert(next_pos(tl + 1, 1, toks.len() as int) == tl + 1);
    assert(p_program(toks, 0).0 =~= seq![s]);
    assert(p_program(toks, 0).1 =~= Seq::<ParseErrModel>::empty());
}

// ----- the recursive-descent parser -----

/// Recursive descent with one token of lookahead; `current` never moves
/// backwards. On a statement-level violation it records the diagnostic,
/// discards tokens to a plausible statement boundary, and carries on.
pub struct Parser {
    pub tokens: Vec<Token>,
    pub current: usize,
}

impl Parser {
    pub open spec fn toks(&self) -> Seq<TokenModel> {
        tokens_view(self.tokens@)
    }

    pub open spec fn wf(&self) -> bool {
        wf_tokens(self.toks()) && self.current < self.tokens@.len()
    }

    pub fn new(list: Vec<Token>) -> (p: Parser)
        requires
            wf_tokens(tokens_view(list@)),
        ensures
            p.wf(),
            p.toks() == tokens_view(list@),
            p.current == 0,
    {
        Parser { tokens: list, current: 0 }
    }

    fn peek_type(&self) -> (tt: TokenType)
        requires
            self.wf(),
        ensures
            tt == peek_tok(self.toks(), self.current as int).token_type,
    {
        self.tokens[self.current].token_type
    }

    fn at_end(&self) -> (r: bool)
        requires
            self.wf(),
        ensures
            r == (peek_tok(self.toks(), self.current as int).token_type
                == TokenType::EndOfInput),
    {
        self.peek_type() == TokenType::EndOfInput
    }

    fn check(&self, tt: TokenType) -> (r: bool)
        requires
            self.wf(),
        ensures
            r == (peek_tok(self.toks(), self.current as int).token_type == tt && tt
                != TokenType::EndOfInput),
    {
        if self.at_end() {
            false
        } else {
            self.peek_type() == tt
        }
    }

    fn advance(&mut self)
        requires
            old(self).wf(),
            peek_tok(old(self).toks(), old(self).current as int).token_type
                != TokenType::EndOfInput,
        ensures
            final(self).wf(),
            final(self).toks() == old(self).toks(),
            final(self).current == old(self).current + 1,
    {
        // the exec length witnesses that the cursor increment fits in usize
        let n = self.tokens.len();
        proof {
            assert(self.current < n);
        }
        self.current = self.current + 1;
    }

    fn peek_clone(&self) -> (t: Token)
        requires
            self.wf(),
        ensures
            t@ == peek_tok(self.toks(), self.current as int),
    {
        self.tokens[self.current].clone()
    }

    fn peek_literal(&self) -> (v: RoxType)
        requires
            self.wf(),
        ensures
            v@ == peek_tok(self.toks(), self.current as int).literal,
    {
        self.tokens[self.current].literal.clone()
    }

    fn peek_lexeme(&self) -> (s: String)
        requires
            self.wf(),
        ensures
            s@ == peek_tok(self.toks(), self.current as int).lexeme,
    {
        self.tokens[self.current].lexeme.clone()
    }

    fn error_at_peek(&self, msg: &str) -> (pe: ParseErr)
        requires
            self.wf(),
        ensures
            pe@ == perr(peek_tok(self.toks(), self.current as int), msg@),
    {
        ParseErr { err_token: self.peek_clone(), err_msg: msg.to_owned() }
    }

    fn expression(&mut self) -> (r: Result<Expr, ParseErr>)
        requires
            old(self).wf(),
        ensures
            final(self).wf(),
            final(self).toks() == old(self).toks(),
            old(self).current <= final(self).current,
            ({
                let (rm, j) = p_expression(old(self).toks(), old(self).current as int);
                &&& final(self).current as int == j
                &&& (match r {
                    Ok(e) => rm == Ok::<ExprModel, ParseErrModel>(e@),
                    Err(pe) => rm == Err::<ExprModel, ParseErrModel>(pe@),
                })
            }),
        decreases self.tokens@.len() - self.current, 10int,
    {
        self.equality()
    }

    #[verifier::loop_isolation(false)]
    #[verifier::rlimit(80)]
    fn equality(&mut self) -> (r: Result<Expr, ParseErr>)
        requires
            old(self).wf(),
        ensures
            final(self).wf(),
            final(self).toks() == old(self).toks(),
            old(self).current <= final(self).current,
            ({
                let (rm, j) = p_equality(old(self).toks(), old(self).current as int);
                &&& final(self).current as int == j
                &&& (match r {
                    Ok(e) => rm == Ok::<ExprModel, ParseErrModel>(e@),
                    Err(pe) => rm == Err::<ExprModel, ParseErrModel>(pe@),
                })
            }),
        decreases self.tokens@.len() - self.current, 9int,
    {
        let ghost toks = self.toks();
        let ghost i0 = self.current as int;
        let mut expr = match self.comparison() {
            Ok(e) => e,
            Err(pe) => {
                return Err(pe);
            },
        };
        proof {
            assert(next_pos(self.current as int, i0, toks.len() as int) == self.current as int);
        }
        while self.check(TokenType::BangEqual) || self.check(TokenType::EqualEqual)
            invariant
                self.wf(),
                self.toks() == toks,
                i0 <= self.current as int,
                p_equality(toks, i0) == p_eq_tail(toks, self.current as int, expr@),
            decreases toks.len() - self.current,
        {
            let op = if self.check(TokenType::BangEqual) {
                BinOp::BangEqual
            } else {
                BinOp::EqualEqual
            };
            self.advance();
            let ghost cur1 = self.current as int;
            let rhs = match self.comparison() {
                Ok(e) => e,
                Err(pe) => {
                    return Err(pe);
                },
            };
            proof {
                assert(next_pos(self.current as int, cur1, toks.len() as int)
                    == self.current as int);
            }
            expr = Expr::Binary(Box::new(expr), op, Box::new(rhs));
        }
        Ok(expr)
    }

    #[verifier::loop_isolation(false)]
    #[verifier::rlimit(40)]
    fn comparison(&mut self) -> (r: Result<Expr, ParseErr>)
        requires
            old(self).wf(),
        ensures
            final(self).wf(),
            final(self).toks() == old(self).toks(),
            old(self).current <= final(self).current,
            ({
                let (rm, j) = p_comparison(old(self).toks(), old(self).current as int);
                &&& final(self).current as int == j
                &&& (match r {
                    Ok(e) => rm == Ok::<ExprModel, ParseErrModel>(e@),
                    Err(pe) => rm == Err::<ExprModel, ParseErrModel>(pe@),
                })
            }),
        decreases self.tokens@.len() - self.current, 7int,
    {
        let ghost toks = self.toks();
        let ghost i0 = self.current as int;
        let mut expr = match self.term() {
            Ok(e) => e,
            Err(pe) => {
                return Err(pe);
            },
        };
        proof {
            assert(next_pos(self.current as int, i0, toks.len() as int) == self.current as int);
        }
        while self.check(TokenType::Greater) || self.check(TokenType::GreaterEqual) || self.check(
            TokenType::Less,
        ) || self.check(TokenType::LessEqual)
            invariant
                self.wf(),
                self.toks() == toks,
                i0 <= self.current as int,
                p_comparison(toks, i0) == p_cmp_tail(toks, self.current as int, expr@),
            decreases toks.len() - self.current,
        {
            let op = if self.check(TokenType::Greater) {
                BinOp::Greater
            } else if self.check(TokenType::GreaterEqual) {
                BinOp::GreaterEqual
            } else if self.check(TokenType::Less) {
                BinOp::Less
            } else {
                BinOp::LessEqual
            };
            self.advance();
            let ghost cur1 = self.current as int;
            let rhs = match self.term() {
                Ok(e) => e,
                Err(pe) => {
                    return Err(pe);
                },
            };
            proof {
                assert(next_pos(self.current as int, cur1, toks.len() as int)
                    == self.current as int);
            }
            expr = Expr::Binary(Box::new(expr), op, Box::new(rhs));
        }
        Ok(expr)
    }

    #[verifier::loop_isolation(false)]
    #[verifier::rlimit(30)]
    fn term(&mut self) -> (r: Result<Expr, ParseErr>)
        requires
            old(self).wf(),
        ensures
            final(self).wf(),
            final(self).toks() == old(self).toks(),
            old(self).current <= final(self).current,
            ({
                let (rm, j) = p_term(old(self).toks(), old(self).current as int);
                &&& final(self).current as int == j
                &&& (match r {
                    Ok(e) => rm == Ok::<ExprModel, ParseErrModel>(e@),
                    Err(pe) => rm == Err::<ExprModel, ParseErrModel>(pe@),
                })
            }),
        decreases self.tokens@.len() - self.current, 5int,
    {
        let ghost toks = self.toks();
        let ghost i0 = self.current as int;
        let mut expr = match self.factor() {
            Ok(e) => e,
            Err(pe) => {
                return Err(pe);
            },
        };
        proof {
            assert(next_pos(self.current as int, i0, toks.len() as int) == self.current as int);
        }
        while self.check(TokenType::Minus) || self.check(TokenType::Plus)
            invariant
                self.wf(),
                self.toks() == toks,
                i0 <= self.current as int,
                p_term(toks, i0) == p_term_tail(toks, self.current as int, expr@),
            decreases toks.len() - self.current,
        {
            let op = if self.check(TokenType::Minus) {
                BinOp::Minus
            } else {
                BinOp::Plus
            };
            self.advance();
            let ghost cur1 = self.current as int;
            let rhs = match self.factor() {
                Ok(e) => e,
                Err(pe) => {
                    return Err(pe);
                },
            };
            proof {
                assert(next_pos(self.current as int, cur1, toks.len() as int)
                    == self.current as int);
            }
            expr = Expr::Binary(Box::new(expr), op, Box::new(rhs));
        }
        Ok(expr)
    }

    #[verifier::loop_isolation(false)]
    #[verifier::rlimit(30)]
    fn factor(&mut self) -> (r: Result<Expr, ParseErr>)
        requires
            old(self).wf(),
        ensures
            final(self).wf(),
            final(self).toks() == old(self).toks(),
            old(self).current <= final(self).current,
            ({
                let (rm, j) = p_factor(old(self).toks(), old(self).current as int);
                &&& final(self).current as int == j
                &&& (match r {
                    Ok(e) => rm == Ok::<ExprModel, ParseErrModel>(e@),
                    Err(pe) => rm == Err::<ExprModel, ParseErrModel>(pe@),
                })
            }),
        decreases self.tokens@.len() - self.current, 3int,
    {
        let ghost toks = self.toks();
        let ghost i0 = self.current as int;
        let mut expr = match self.unary() {
            Ok(e) => e,
            Err(pe) => {
                return Err(pe);
            },
        };
        proof {
            assert(next_pos(self.current as int, i0, toks.len() as int) == self.current as int);
        }
        while self.check(TokenType::Slash) || self.check(TokenType::Star)
            invariant
                self.wf(),
                self.toks() == toks,
                i0 <= self.current as int,
                p_factor(toks, i0) == p_factor_tail(toks, self.current as int, expr@),
            decreases toks.len() - self.current,
        {
            let op = if self.check(TokenType::Slash) {
                BinOp::Slash
            } else {
                BinOp::Star
            };
            self.advance();
            let ghost cur1 = self.current as int;
            let rhs = match self.unary() {
                Ok(e) => e,
                Err(pe) => {
                    return Err(pe);
                },
            };
            proof {
                assert(next_pos(self.current as int, cur1, toks.len() as int)
                    == self.current as int);
            }
            expr = Expr::Binary(Box::new(expr), op, Box::new(rhs));
        }
        Ok(expr)
    }

    fn unary(&mut self) -> (r: Result<Expr, ParseErr>)
        requires
            old(self).wf(),
        ensures
            final(self).wf(),
            final(self).toks() == old(self).toks(),
            old(self).current <= final(self).current,
            ({
                let (rm, j) = p_unary(old(self).toks(), old(self).current as int);
                &&& final(self).current as int == j
                &&& (match r {
                    Ok(e) => rm == Ok::<ExprModel, ParseErrModel>(e@),
                    Err(pe) => rm == Err::<ExprModel, ParseErrModel>(pe@),
                })
            }),
        decreases self.tokens@.len() - self.current, 1int,
    {
        if self.check(TokenType::Bang) {
            self.advance();
            match self.unary() {
                Ok(e) => Ok(Expr::Unary(UnOp::Bang, Box::new(e))),
                Err(pe) => Err(pe),
            }
        } else if self.check(TokenType::Minus) {
            self.advance();
            match self.unary() {
                Ok(e) => Ok(Expr::Unary(UnOp::Minus, Box::new(e))),
                Err(pe) => Err(pe),
            }
        } else {
            self.primary()
        }
    }

    fn primary(&mut self) -> (r: Result<Expr, ParseErr>)
        requires
            old(self).wf(),
        ensures
            final(self).wf(),
            final(self).toks() == old(self).toks(),
            old(self).current <= final(self).current,
            ({
                let (rm, j) = p_primary(old(self).toks(), old(self).current as int);
                &&& final(self).current as int == j
                &&& (match r {
                    Ok(e) => rm == Ok::<ExprModel, ParseErrModel>(e@),
                    Err(pe) => rm == Err::<ExprModel, ParseErrModel>(pe@),
                })
            }),
        decreases self.tokens@.len() - self.current, 0int,
    {
        let tt = self.peek_type();
        if tt == TokenType::False {
            self.advance();
            Ok(Expr::Literal(RoxType::Boolean(false)))
        } else if tt == TokenType::True {
            self.advance();
            Ok(Expr::Literal(RoxType::Boolean(true)))
        } else if tt == TokenType::Nil {
            self.advance();
            Ok(Expr::Literal(RoxType::Nil))
        } else if tt == TokenType::Number || tt == TokenType::StringLit {
            let lit = self.peek_literal();
            self.advance();
            Ok(Expr::Literal(lit))
        } else if tt == TokenType::Identifier {
            let name = self.peek_lexeme();
            self.advance();
            Ok(Expr::Variable(name))
        } else if tt == TokenType::LeftParen {
            self.advance();
            let e = match self.expression() {
                Ok(e) => e,
                Err(pe) => {
                    return Err(pe);
                },
            };
            if self.check(TokenType::RightParen) {
                self.advance();
                Ok(Expr::Grouping(Box::new(e)))
            } else {
                Err(self.error_at_peek("Expect ')' after expression."))
            }
        } else {
            Err(self.error_at_peek("Expect expression"))
        }
    }

    fn print_statement(&mut self) -> (r: Result<Stmt, ParseErr>)
        requires
            old(self).wf(),
        ensures
            final(self).wf(),
            final(self).toks() == old(self).toks(),
            old(self).current <= final(self).current,
            r is Ok ==> old(self).current < final(self).current,
            ({
                let (rm, j) = p_print_statement(old(self).toks(), old(self).current as int);
                &&& final(self).current as int == j
                &&& (match r {
                    Ok(s) => rm == Ok::<StmtModel, ParseErrModel>(s@),
                    Err(pe) => rm == Err::<StmtModel, ParseErrModel>(pe@),
                })
            }),
        decreases self.tokens@.len() - self.current, 11int,
    {
        let val = match self.expression() {
            Ok(e) => e,
            Err(pe) => {
                return Err(pe);
            },
        };
        if self.check(TokenType::Semicolon) {
            self.advance();
            Ok(Stmt::Print(Box::new(val)))
        } else {
            Err(self.error_at_peek("Expect ';' after value."))
        }
    }

    fn expression_statement(&mut self) -> (r: Result<Stmt, ParseErr>)
        requires
            old(self).wf(),
        ensures
            final(self).wf(),
            final(self).toks() == old(self).toks(),
            old(self).current <= final(self).current,
            r is Ok ==> old(self).current < final(self).current,
            ({
                let (rm, j) = p_expression_statement(old(self).toks(), old(self).current as int);
                &&& final(self).current as int == j
                &&& (match r {
                    Ok(s) => rm == Ok::<StmtModel, ParseErrModel>(s@),
                    Err(pe) => rm == Err::<StmtModel, ParseErrModel>(pe@),
                })
            }),
        decreases self.tokens@.len() - self.current, 11int,
    {
        let val = match self.expression() {
            Ok(e) => e,
            Err(pe) => {
                return Err(pe);
            },
        };
        if self.check(TokenType::Semicolon) {
            self.advance();
            Ok(Stmt::Expression(Box::new(val)))
        } else {
            Err(self.error_at_peek("Expect ';' after value."))
        }
    }

    fn var_declaration(&mut self) -> (r: Result<Stmt, ParseErr>)
        requires
            old(self).wf(),
        ensures
            final(self).wf(),
            final(self).toks() == old(self).toks(),
            old(self).current <= final(self).current,
            r is Ok ==> old(self).current < final(self).current,
            ({
                let (rm, j) = p_var_declaration(old(self).toks(), old(self).current as int);
                &&& final(self).current as int == j
                &&& (match r {
                    Ok(s) => rm == Ok::<StmtModel, ParseErrModel>(s@),
                    Err(pe) => rm == Err::<StmtModel, ParseErrModel>(pe@),
                })
            }),
        decreases self.tokens@.len() - self.current, 11int,
    {
        if !self.check(TokenType::Identifier) {
            return Err(self.error_at_peek("Expect variable name."));
        }
        let name = self.peek_clone();
        self.advance();
        if self.check(TokenType::Equal) {
            self.advance();
            let e = match self.expression() {
                Ok(e) => e,
                Err(pe) => {
                    return Err(pe);
                },
            };
            if self.check(TokenType::Semicolon) {
                self.advance();
                Ok(Stmt::Var(name, Some(Box::new(e))))
            } else {
                Err(self.error_at_peek("Expect ';' after value."))
            }
        } else if self.check(TokenType::Semicolon) {
            self.advance();
            Ok(Stmt::Var(name, None))
        } else {
            Err(self.error_at_peek("Expect ';' after value."))
        }
    }

    fn statement(&mut self) -> (r: Result<Stmt, ParseErr>)
        requires
            old(self).wf(),
        ensures
            final(self).wf(),
            final(self).toks() == old(self).toks(),
            old(self).current <= final(self).current,
            r is Ok ==> old(self).current < final(self).current,
            ({
                let (rm, j) = p_statement(old(self).toks(), old(self).current as int);
                &&& final(self).current as int == j
                &&& (match r {
                    Ok(s) => rm == Ok::<StmtModel, ParseErrModel>(s@),
                    Err(pe) => rm == Err::<StmtModel, ParseErrModel>(pe@),
                })
            }),
        decreases self.tokens@.len() - self.current, 12int,
    {
        if self.check(TokenType::Print) {
            self.advance();
            self.print_statement()
        } else {
            self.expression_statement()
        }
    }

    fn declaration(&mut self) -> (r: Result<Stmt, ParseErr>)
        requires
            old(self).wf(),
        ensures
            final(self).wf(),
            final(self).toks() == old(self).toks(),
            old(self).current <= final(self).current,
            r is Ok ==> old(self).current < final(self).current,
            ({
                let (rm, j) = p_declaration(old(self).toks(), old(self).current as int);
                &&& final(self).current as int == j
                &&& (match r {
                    Ok(s) => rm == Ok::<StmtModel, ParseErrModel>(s@),
                    Err(pe) => rm == Err::<StmtModel, ParseErrModel>(pe@),
                })
            }),
        decreases self.tokens@.len() - self.current, 13int,
    {
        if self.check(TokenType::Var) {
            self.advance();
            self.var_declaration()
        } else {
            self.statement()
        }
    }

    fn sync_stop(&self) -> (r: bool)
        requires
            self.wf(),
            1 <= self.current,
        ensures
            r == (peek_tok(self.toks(), self.current as int).token_type == TokenType::EndOfInput
                || peek_tok(self.toks(), self.current as int - 1).token_type
                == TokenType::Semicolon || is_sync_boundary(
                peek_tok(self.toks(), self.current as int).token_type,
            )),
    {
        if self.at_end() {
            return true;
        }
        let prev = self.tokens[self.current - 1].token_type;
        if prev == TokenType::Semicolon {
            return true;
        }
        let tt = self.peek_type();
        tt == TokenType::Class || tt == TokenType::Fun || tt == TokenType::Var || tt
            == TokenType::For || tt == TokenType::If || tt == TokenType::While || tt
            == TokenType::Print || tt == TokenType::Return
    }

    /// Panic-mode recovery: discard tokens until a plausible statement
    /// boundary, so one grammar violation yields one diagnostic.
    #[verifier::loop_isolation(false)]
    #[verifier::rlimit(20)]
    fn synchronize(&mut self)
        requires
            old(self).wf(),
        ensures
            final(self).wf(),
            final(self).toks() == old(self).toks(),
            old(self).current <= final(self).current,
            final(self).current as int == sync_end(old(self).toks(), old(self).current as int),
            peek_tok(old(self).toks(), old(self).current as int).token_type
                != TokenType::EndOfInput ==> old(self).current < final(self).current,
    {
        let ghost toks = self.toks();
        let ghost i0 = self.current as int;
        if self.at_end() {
            return ;
        }
        self.advance();
        while !self.sync_stop()
            invariant
                self.wf(),
                self.toks() == toks,
                1 <= self.current,
                i0 < self.current as int,
                sync_scan(toks, i0 + 1) == sync_scan(toks, self.current as int),
            decreases toks.len() - self.current,
        {
            self.advance();
        }
        proof {
            assert(sync_scan(toks, self.current as int) == self.current as int);
        }
    }

    /// Parse the whole token sequence as a program: exactly the statements
    /// and the diagnostics that `p_program` says — statements that parsed
    /// cleanly are kept even when later ones fail.
    #[verifier::loop_isolation(false)]
    #[verifier::rlimit(100)]
    pub fn parse(&mut self) -> (r: (Vec<Stmt>, Vec<ParseErr>))
        requires
            old(self).wf(),
        ensures
            final(self).wf(),
            stmts_view(r.0@) == p_program(old(self).toks(), old(self).current as int).0,
            perrs_view(r.1@) == p_program(old(self).toks(), old(self).current as int).1,
    {
        let ghost toks = self.toks();
        let ghost i0 = self.current as int;
        let mut statements: Vec<Stmt> = Vec::new();
        let mut errors: Vec<ParseErr> = Vec::new();
        proof {
            assert(stmts_view(statements@) =~= Seq::<StmtModel>::empty());
            assert(perrs_view(errors@) =~= Seq::<ParseErrModel>::empty());
            assert(stmts_view(statements@) + p_program(toks, i0).0 =~= p_program(toks, i0).0);
            assert(perrs_view(errors@) + p_program(toks, i0).1 =~= p_program(toks, i0).1);
        }
        while !self.at_end()
            invariant
                self.wf(),
                self.toks() == toks,
                stmts_view(statements@) + p_program(toks, self.current as int).0 == p_program(
                    toks,
                    i0,
                ).0,
                perrs_view(errors@) + p_program(toks, self.current as int).1 == p_program(
                    toks,
                    i0,
                ).1,
            decreases toks.len() - self.current,
        {
            let ghost cur0 = self.current as int;
            let ghost st_before = statements@;
            let ghost er_before = errors@;
            match self.declaration() {
                Ok(s) => {
                    let ghost sm = s@;
                    statements.push(s);
                    proof {
                        let j = self.current as int;
                        assert(next_pos(j, cur0 + 1, toks.len() as int) == j);
                        let rest = p_program(toks, j);
                        assert(p_program(toks, cur0).0 == seq![sm] + rest.0);
                        assert(p_program(toks, cur0).1 == rest.1);
                        assert(stmts_view(st_before.push(s)) =~= stmts_view(st_before).push(sm));
                        assert(stmts_view(st_before).push(sm) + rest.0 =~= stmts_view(st_before)
                            + (seq![sm] + rest.0));
                    }
                },
                Err(pe) => {
                    let ghost pm = pe@;
                    errors.push(pe);
                    let ghost j = self.current as int;
                    self.synchronize();
                    proof {
                        let k = self.current as int;
                        assert(next_pos(j, cur0, toks.len() as int) == j);
                        assert(k == sync_end(toks, j));
                        assert(cur0 + 1 <= k);
                        assert(next_pos(k, cur0 + 1, toks.len() as int) == k);
                        let rest = p_program(toks, k);
                        assert(p_program(toks, cur0).1 == seq![pm] + rest.1);
                        assert(p_program(toks, cur0).0 == rest.0);
                        assert(perrs_view(er_before.push(pe)) =~= perrs_view(er_before).push(pm));
                        assert(perrs_view(er_before).push(pm) + rest.1 =~= perrs_view(er_before)
                            + (seq![pm] + rest.1));
                    }
                },
            }
        }
        proof {
            assert(p_program(toks, self.current as int).0 =~= Seq::<StmtModel>::empty());
            assert(p_program(toks, self.current as int).1 =~= Seq::<ParseErrModel>::empty());
            assert(stmts_view(statements@) + p_program(toks, self.current as int).0
                =~= stmts_view(statements@));
            assert(perrs_view(errors@) + p_program(toks, self.current as int).1 =~= perrs_view(
                errors@,
            ));
        }
        (statements, errors)
    }
}

} // verus!
