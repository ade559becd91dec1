use vstd::prelude::*;
use vstd::string::StringExecFns;
use crate::rox_type::RoxType;
use crate::rox_type::ValueModel;
use crate::token::Token;
use crate::token::TokenModel;
use crate::token::TokenType;
use crate::token::tokens_view;

verus! {

// ----- character classes -----

pub open spec fn is_digit_char(c: char) -> bool {
    '0' <= c && c <= '9'
}

pub open spec fn is_alpha_char(c: char) -> bool {
    ('a' <= c && c <= 'z') || ('A' <= c && c <= 'Z') || c == '_'
}

pub open spec fn is_alphanumeric_char(c: char) -> bool {
    is_alpha_char(c) || is_digit_char(c)
}

pub fn is_digit(ch: char) -> (r: bool)
    ensures
        r == is_digit_char(ch),
{
    '0' <= ch && ch <= '9'
}

pub fn is_alpha(ch: char) -> (r: bool)
    ensures
        r == is_alpha_char(ch),
{
    ('a' <= ch && ch <= 'z') || ('A' <= ch && ch <= 'Z') || ch == '_'
}

pub fn is_alphanumeric(ch: char) -> (r: bool)
    ensures
        r == is_alphanumeric_char(ch),
{
    is_alpha(ch) || is_digit(ch)
}

// ----- scan diagnostics -----

/// Spec-level mirror of a scan diagnostic.
pub struct ScanErrorModel {
    pub line: int,
    pub message: Seq<char>,
}

/// A scan diagnostic: the line it was found on and what went wrong.
/// Scanning never fails; it reports and carries on.
#[derive(Debug)]
pub struct ScanError {
    pub line: usize,
    pub message: String,
}

impl View for ScanError {
    type V = ScanErrorModel;

    open spec fn view(&self) -> ScanErrorModel {
        ScanErrorModel { line: self.line as int, message: self.message@ }
    }
}

/// Builds the diagnostic record for an offence at the given line.
pub fn error(line: usize, message: &str) -> (e: ScanError)
    ensures
        e@ == (ScanErrorModel { line: line as int, message: message@ }),
{
    ScanError { line, message: message.to_owned() }
}

/// The view of a diagnostic sequence, entry by entry.
pub open spec fn errors_view(s: Seq<ScanError>) -> Seq<ScanErrorModel> {
    s.map_values(|e: ScanError| e@)
}

// ----- positions of lexeme ends -----

/// First position at or after `i` whose character is not a digit.
pub open spec fn seek_digits(src: Seq<char>, i: int) -> int
    decreases src.len() - i,
{
    if 0 <= i && i < src.len() && is_digit_char(src[i]) {
        seek_digits(src, i + 1)
    } else {
        i
    }
}

/// First position at or after `i` whose character is not alphanumeric.
pub open spec fn seek_ident(src: Seq<char>, i: int) -> int
    decreases src.len() - i,
{
    if 0 <= i && i < src.len() && is_alphanumeric_char(src[i]) {
        seek_ident(src, i + 1)
    } else {
        i
    }
}

/// First position at or after `i` holding a newline, or the end of input.
pub open spec fn seek_line_end(src: Seq<char>, i: int) -> int
    decreases src.len() - i,
{
    if 0 <= i && i < src.len() && src[i] != '\n' {
        seek_line_end(src, i + 1)
    } else {
        i
    }
}

/// First position at or after `i` holding a double quote, or the end of input.
pub open spec fn seek_quote(src: Seq<char>, i: int) -> int
    decreases src.len() - i,
{
    if 0 <= i && i < src.len() && src[i] != '"' {
        seek_quote(src, i + 1)
    } else {
        i
    }
}

/// How many newline characters lie in `src[a..b]`.
pub open spec fn newlines_in(src: Seq<char>, a: int, b: int) -> int
    decreases b - a,
{
    if a < b {
        (if 0 <= a && a < src.len() && src[a] == '\n' {
            1int
        } else {
            0int
        }) + newlines_in(src, a + 1, b)
    } else {
        0
    }
}

/// Where the numeric lexeme beginning at `i` ends: digits, then optionally
/// one dot followed by at least one digit, then digits. A trailing dot is
/// not part of the number.
pub open spec fn number_end(src: Seq<char>, i: int) -> int {
    let d = seek_digits(src, i + 1);
    if d < src.len() && src[d] == '.' && d + 1 < src.len() && is_digit_char(src[d + 1]) {
        seek_digits(src, d + 1)
    } else {
        d
    }
}

/// `j` held to the interval `[lo, len]`; the scanner's cursor only moves
/// forward and never past the end, so on every reachable path this is `j`
/// itself, but it keeps the recursion of `scan_spec` visibly well-founded.
pub open spec fn next_pos(j: int, lo: int, len: int) -> int {
    if j < lo {
        lo
    } else if j > len {
        len
    } else {
        j
    }
}

pub proof fn lemma_seek_digits_bounds(src: Seq<char>, i: int)
    requires
        0 <= i <= src.len(),
    ensures
        i <= seek_digits(src, i) <= src.len(),
        forall|k: int| i <= k < seek_digits(src, i) ==> is_digit_char(src[k]),
        seek_digits(src, i) < src.len() ==> !is_digit_char(src[seek_digits(src, i)]),
    decreases src.len() - i,
{
    if i < src.len() && is_digit_char(src[i]) {
        lemma_seek_digits_bounds(src, i + 1);
    }
}

pub proof fn lemma_seek_ident_bounds(src: Seq<char>, i: int)
    requires
        0 <= i <= src.len(),
    ensures
        i <= seek_ident(src, i) <= src.len(),
    decreases src.len() - i,
{
    if i < src.len() && is_alphanumeric_char(src[i]) {
        lemma_seek_ident_bounds(src, i + 1);
    }
}

pub proof fn lemma_seek_line_end_bounds(src: Seq<char>, i: int)
    requires
        0 <= i <= src.len(),
    ensures
        i <= seek_line_end(src, i) <= src.len(),
    decreases src.len() - i,
{
    if i < src.len() && src[i] != '\n' {
        lemma_seek_line_end_bounds(src, i + 1);
    }
}

pub proof fn lemma_newlines_bounds(src: Seq<char>, a: int, b: int)
    ensures
        0 <= newlines_in(src, a, b),
        newlines_in(src, a, b) <= (if b - a >= 0 { b - a } else { 0 }),
    decreases b - a,
{
    if a < b {
        lemma_newlines_bounds(src, a + 1, b);
    }
}

/// Extending the counted range by one character on the right adds one
/// exactly when that character is a newline.
pub proof fn lemma_newlines_extend(src: Seq<char>, a: int, b: int)
    requires
        a <= b,
    ensures
        newlines_in(src, a, b + 1) == newlines_in(src, a, b) + (if 0 <= b && b < src.len()
            && src[b] == '\n' {
            1int
        } else {
            0int
        }),
    decreases b - a,
{
    if a < b {
        lemma_newlines_extend(src, a + 1, b);
    } else {
        assert(newlines_in(src, a, b) == 0);
        assert(newlines_in(src, a + 1, b + 1) == 0);
    }
}

/// Every character of `src[a..b]` is a digit.
pub open spec fn all_digits(src: Seq<char>, a: int, b: int) -> bool {
    forall|k: int| a <= k < b ==> is_digit_char(#[trigger] src[k])
}

/// A whole numeric literal: digits, optionally followed by one dot and at
/// least one more digit, running to the end.
pub open spec fn is_number_lexeme(s: Seq<char>) -> bool {
    &&& s.len() > 0
    &&& is_digit_char(s[0])
    &&& (all_digits(s, 0, s.len() as int) || (exists|d: int|
        1 <= d < s.len() - 1 && #[trigger] s[d] == '.' && all_digits(s, 0, d) && all_digits(
            s,
            d + 1,
            s.len() as int,
        )))
}

/// `seek_digits` stops exactly at the first non-digit.
proof fn lemma_seek_digits_exact(src: Seq<char>, i: int, b: int)
    requires
        0 <= i <= b <= src.len(),
        all_digits(src, i, b),
        b == src.len() || !is_digit_char(src[b]),
    ensures
        seek_digits(src, i) == b,
    decreases b - i,
{
    if i < b {
        lemma_seek_digits_exact(src, i + 1, b);
    }
}

/// Scanning one whole numeric literal yields exactly one `Number` token —
/// whose lexeme is the full literal and whose payload is the value the
/// numeric reader gives that lexeme — followed by the end-of-input token,
/// and no diagnostics.
pub proof fn lemma_scan_number_lexeme(src: Seq<char>, g: spec_fn(Seq<char>) -> u64)
    requires
        is_number_lexeme(src),
    ensures
        scan_spec(src, 0, 1, g).tokens == seq![
            TokenModel {
                token_type: TokenType::Number,
                lexeme: src,
                literal: ValueModel::Num(g(src)),
                line: 1,
            },
            TokenModel {
                token_type: TokenType::EndOfInput,
                lexeme: Seq::empty(),
                literal: ValueModel::Nil,
                line: 1,
            },
        ],
        scan_spec(src, 0, 1, g).errors == Seq::<ScanErrorModel>::empty(),
{
    let len = src.len() as int;
    if all_digits(src, 0, len) {
        lemma_seek_digits_exact(src, 1, len);
        assert(seek_digits(src, 1) == len);
        assert(number_end(src, 0) == len);
    } else {
        let d = choose|d: int|
            1 <= d < src.len() - 1 && #[trigger] src[d] == '.' && all_digits(src, 0, d)
                && all_digits(src, d + 1, src.len() as int);
        lemma_seek_digits_exact(src, 1, d);
        assert(seek_digits(src, 1) == d);
        lemma_seek_digits_exact(src, d + 1, len);
        assert(seek_digits(src, d + 1) == len);
        assert(number_end(src, 0) == len);
    }
    assert(next_pos(number_end(src, 0), 1, len) == len);
    assert(src.subrange(0, len) =~= src);
    let rest = scan_spec(src, len, 1, g);
    assert(rest.tokens == seq![
        TokenModel {
            token_type: TokenType::EndOfInput,
            lexeme: Seq::empty(),
            literal: ValueModel::Nil,
            line: 1,
        },
    ]);
    let tm = TokenModel {
        token_type: TokenType::Number,
        lexeme: src,
        literal: ValueModel::Num(g(src)),
        line: 1,
    };
    assert(scan_spec(src, 0, 1, g) == with_token(tm, rest));
    assert(seq![tm] + rest.tokens =~= seq![tm, rest.tokens[0]]);
}

// ----- keywords -----

/// The keyword table: the kind an identifier-shaped lexeme resolves to.
pub open spec fn keyword_token(s: Seq<char>) -> TokenType {
    if s == "and"@ {
        TokenType::And
    } else if s == "class"@ {
        TokenType::Class
    } else if s == "else"@ {
        TokenType::Else
    } else if s == "false"@ {
        TokenType::False
    } else if s == "for"@ {
        TokenType::For
    } else if s == "fun"@ {
        TokenType::Fun
    } else if s == "if"@ {
        TokenType::If
    } else if s == "nil"@ {
        TokenType::Nil
    } else if s == "or"@ {
        TokenType::Or
    } else if s == "print"@ {
        TokenType::Print
    } else if s == "return"@ {
        TokenType::Return
    } else if s == "super"@ {
        TokenType::Super
    } else if s == "this"@ {
        TokenType::This
    } else if s == "true"@ {
        TokenType::True
    } else if s == "var"@ {
        TokenType::Var
    } else if s == "while"@ {
        TokenType::While
    } else {
        TokenType::Identifier
    }
}

fn keyword_or_identifier(lex: &String) -> (tt: TokenType)
    ensures
        tt == keyword_token(lex@),
{
    if *lex == String::from_str("and") {
        TokenType::And
    } else if *lex == String::from_str("class") {
        TokenType::Class
    } else if *lex == String::from_str("else") {
        TokenType::Else
    } else if *lex == String::from_str("false") {
        TokenType::False
    } else if *lex == String::from_str("for") {
        TokenType::For
    } else if *lex == String::from_str("fun") {
        TokenType::Fun
    } else if *lex == String::from_str("if") {
        TokenType::If
    } else if *lex == String::from_str("nil") {
        TokenType::Nil
    } else if *lex == String::from_str("or") {
        TokenType::Or
    } else if *lex == String::from_str("print") {
        TokenType::Print
    } else if *lex == String::from_str("return") {
        TokenType::Return
    } else if *lex == String::from_str("super") {
        TokenType::Super
    } else if *lex == String::from_str("this") {
        TokenType::This
    } else if *lex == String::from_str("true") {
        TokenType::True
    } else if *lex == String::from_str("var") {
        TokenType::Var
    } else if *lex == String::from_str("while") {
        TokenType::While
    } else {
        TokenType::Identifier
    }
}

// ----- the functional model of scanning -----

/// What one run of the scanner produces.
pub struct ScanOut {
    pub tokens: Seq<TokenModel>,
    pub errors: Seq<ScanErrorModel>,
}

pub open spec fn with_token(t: TokenModel, rest: ScanOut) -> ScanOut {
    ScanOut { tokens: seq![t] + rest.tokens, errors: rest.errors }
}

pub open spec fn with_error(e: ScanErrorModel, rest: ScanOut) -> ScanOut {
    ScanOut { tokens: rest.tokens, errors: seq![e] + rest.errors }
}

/// A token with no literal payload whose lexeme is the `n` characters at `i`.
pub open spec fn punct(tt: TokenType, src: Seq<char>, i: int, n: int, line: int) -> TokenModel {
    TokenModel {
        token_type: tt,
        lexeme: src.subrange(i, i + n),
        literal: ValueModel::Nil,
        line,
    }
}

/// The tokens and diagnostics scanned from `src[i..]` at line `line`.
/// `g` is the mathematical function turning a numeric lexeme into the bit
/// pattern of its IEEE-754 binary64 value; the library does not compute it,
/// the caller supplies an implementation of it (see `parse_consistent`).
pub open spec fn scan_spec(src: Seq<char>, i: int, line: int, g: spec_fn(Seq<char>) -> u64) -> ScanOut
    decreases src.len() - i,
{
    let len = src.len() as int;
    if !(0 <= i && i < len) {
        ScanOut {
            tokens: seq![
                TokenModel {
                    token_type: TokenType::EndOfInput,
                    lexeme: Seq::empty(),
                    literal: ValueModel::Nil,
                    line,
                },
            ],
            errors: Seq::empty(),
        }
    } else {
        let c = src[i];
        if c == '(' {
            with_token(punct(TokenType::LeftParen, src, i, 1, line), scan_spec(src, i + 1, line, g))
        } else if c == ')' {
            with_token(punct(TokenType::RightParen, src, i, 1, line), scan_spec(src, i + 1, line, g))
        } else if c == '{' {
            with_token(punct(TokenType::LeftBrace, src, i, 1, line), scan_spec(src, i + 1, line, g))
        } else if c == '}' {
            with_token(punct(TokenType::RightBrace, src, i, 1, line), scan_spec(src, i + 1, line, g))
        } else if c == ',' {
            with_token(punct(TokenType::Comma, src, i, 1, line), scan_spec(src, i + 1, line, g))
        } else if c == '.' {
            with_token(punct(TokenType::Dot, src, i, 1, line), scan_spec(src, i + 1, line, g))
        } else if c == '-' {
            with_token(punct(TokenType::Minus, src, i, 1, line), scan_spec(src, i + 1, line, g))
        } else if c == '+' {
            with_token(punct(TokenType::Plus, src, i, 1, line), scan_spec(src, i + 1, line, g))
        } else if c == ';' {
            with_token(punct(TokenType::Semicolon, src, i, 1, line), scan_spec(src, i + 1, line, g))
        } else if c == '*' {
            with_token(punct(TokenType::Star, src, i, 1, line), scan_spec(src, i + 1, line, g))
        } else if c == '!' {
            if i + 1 < len && src[i + 1] == '=' {
                with_token(punct(TokenType::BangEqual, src, i, 2, line), scan_spec(src, i + 2, line, g))
            } else {
                with_token(punct(TokenType::Bang, src, i, 1, line), scan_spec(src, i + 1, line, g))
            }
        } else if c == '=' {
            if i + 1 < len && src[i + 1] == '=' {
                with_token(punct(TokenType::EqualEqual, src, i, 2, line), scan_spec(src, i + 2, line, g))
            } else {
                with_token(punct(TokenType::Equal, src, i, 1, line), scan_spec(src, i + 1, line, g))
            }
        } else if c == '<' {
            if i + 1 < len && src[i + 1] == '=' {
                with_token(punct(TokenType::LessEqual, src, i, 2, line), scan_spec(src, i + 2, line, g))
            } else {
                with_token(punct(TokenType::Less, src, i, 1, line), scan_spec(src, i + 1, line, g))
            }
        } else if c == '>' {
            if i + 1 < len && src[i + 1] == '=' {
                with_token(punct(TokenType::GreaterEqual, src, i, 2, line), scan_spec(src, i + 2, line, g))
            } else {
                with_token(punct(TokenType::Greater, src, i, 1, line), scan_spec(src, i + 1, line, g))
            }
        } else if c == '/' {
            if i + 1 < len && src[i + 1] == '/' {
                // a line comment: everything through the end of the line is dropped
                scan_spec(src, next_pos(seek_line_end(src, i + 2), i + 2, len), line, g)
            } else {
                with_token(punct(TokenType::Slash, src, i, 1, line), scan_spec(src, i + 1, line, g))
            }
        } else if c == ' ' || c == '\r' || c == '\t' {
            scan_spec(src, i + 1, line, g)
        } else if c == '\n' {
            scan_spec(src, i + 1, line + 1, g)
        } else if c == '"' {
            let q = seek_quote(src, i + 1);
            let nl = newlines_in(src, i + 1, q);
            if q >= len {
                with_error(
                    ScanErrorModel { line: line + nl, message: "unterminated string"@ },
                    scan_spec(src, len, line + nl, g),
                )
            } else {
                with_token(
                    TokenModel {
                        token_type: TokenType::StringLit,
                        lexeme: src.subrange(i, q + 1),
                        literal: ValueModel::Str(src.subrange(i + 1, q)),
                        line: line + nl,
                    },
                    scan_spec(src, next_pos(q + 1, i + 1, len), line + nl, g),
                )
            }
        } else if is_digit_char(c) {
            let j = next_pos(number_end(src, i), i + 1, len);
            let lex = src.subrange(i, j);
            with_token(
                TokenModel {
                    token_type: TokenType::Number,
                    lexeme: lex,
                    literal: ValueModel::Num(g(lex)),
                    line,
                },
                scan_spec(src, j, line, g),
            )
        } else if is_alpha_char(c) {
            let j = next_pos(seek_ident(src, i + 1), i + 1, len);
            let lex = src.subrange(i, j);
            with_token(
                TokenModel { token_type: keyword_token(lex), lexeme: lex, literal: ValueModel::Nil, line },
                scan_spec(src, j, line, g),
            )
        } else {
            with_error(
                ScanErrorModel { line, message: "Unexpected character"@ },
                scan_spec(src, i + 1, line, g),
            )
        }
    }
}

/// Tokens and diagnostics already produced, followed by what is still to come.
pub open spec fn out_app(ts: Seq<TokenModel>, es: Seq<ScanErrorModel>, rest: ScanOut) -> ScanOut {
    ScanOut { tokens: ts + rest.tokens, errors: es + rest.errors }
}

proof fn lemma_app_token(ts: Seq<TokenModel>, es: Seq<ScanErrorModel>, t: TokenModel, rest: ScanOut)
    ensures
        out_app(ts.push(t), es, rest) == out_app(ts, es, with_token(t, rest)),
{
    assert(ts.push(t) + rest.tokens =~= ts + (seq![t] + rest.tokens));
    assert(out_app(ts.push(t), es, rest).tokens == out_app(ts, es, with_token(t, rest)).tokens);
}

proof fn lemma_app_error(ts: Seq<TokenModel>, es: Seq<ScanErrorModel>, e: ScanErrorModel, rest: ScanOut)
    ensures
        out_app(ts, es.push(e), rest) == out_app(ts, es, with_error(e, rest)),
{
    assert(es.push(e) + rest.errors =~= es + (seq![e] + rest.errors));
    assert(out_app(ts, es.push(e), rest).errors == out_app(ts, es, with_error(e, rest)).errors);
}

/// One emitted token turns an unfolding of `scan_spec` into progress of the
/// exec scanner: appending the token and moving the cursor keeps the whole
/// output unchanged.
proof fn lemma_step_token(
    ts: Seq<TokenModel>,
    es: Seq<ScanErrorModel>,
    tm: TokenModel,
    src: Seq<char>,
    i: int,
    line: int,
    i2: int,
    line2: int,
)
    requires
        forall|g: spec_fn(Seq<char>) -> u64|
            #[trigger] scan_spec(src, i, line, g) == with_token(tm, scan_spec(src, i2, line2, g)),
    ensures
        forall|g: spec_fn(Seq<char>) -> u64|
            out_app(ts.push(tm), es, #[trigger] scan_spec(src, i2, line2, g)) == out_app(
                ts,
                es,
                scan_spec(src, i, line, g),
            ),
{
    assert forall|g: spec_fn(Seq<char>) -> u64|
        out_app(ts.push(tm), es, #[trigger] scan_spec(src, i2, line2, g)) == out_app(
            ts,
            es,
            scan_spec(src, i, line, g),
        ) by {
        lemma_app_token(ts, es, tm, scan_spec(src, i2, line2, g));
    }
}

/// The diagnostic counterpart of `lemma_step_token`.
proof fn lemma_step_error(
    ts: Seq<TokenModel>,
    es: Seq<ScanErrorModel>,
    em: ScanErrorModel,
    src: Seq<char>,
    i: int,
    line: int,
    i2: int,
    line2: int,
)
    requires
        forall|g: spec_fn(Seq<char>) -> u64|
            #[trigger] scan_spec(src, i, line, g) == with_error(em, scan_spec(src, i2, line2, g)),
    ensures
        forall|g: spec_fn(Seq<char>) -> u64|
            out_app(ts, es.push(em), #[trigger] scan_spec(src, i2, line2, g)) == out_app(
                ts,
                es,
                scan_spec(src, i, line, g),
            ),
{
    assert forall|g: spec_fn(Seq<char>) -> u64|
        out_app(ts, es.push(em), #[trigger] scan_spec(src, i2, line2, g)) == out_app(
            ts,
            es,
            scan_spec(src, i, line, g),
        ) by {
        lemma_app_error(ts, es, em, scan_spec(src, i2, line2, g));
    }
}

proof fn lemma_tokens_view_push(s: Seq<Token>, t: Token)
    ensures
        tokens_view(s.push(t)) == tokens_view(s).push(t@),
{
    assert(tokens_view(s.push(t)) =~= tokens_view(s).push(t@));
}

proof fn lemma_errors_view_push(s: Seq<ScanError>, e: ScanError)
    ensures
        errors_view(s.push(e)) == errors_view(s).push(e@),
{
    assert(errors_view(s.push(e)) =~= errors_view(s).push(e@));
}

// ----- the caller-supplied numeric literal reader -----

/// The caller-supplied literal reader may be handed any lexeme.
pub open spec fn parse_callable<P: Fn(String) -> u64>(p: P) -> bool {
    forall|s: String| call_requires(p, (s,))
}

/// The caller-supplied literal reader answers nothing but what the
/// mathematical function `g` says of the lexeme's text.
pub open spec fn parse_consistent<P: Fn(String) -> u64>(p: P, g: spec_fn(Seq<char>) -> u64) -> bool {
    forall|s: String, r: u64| call_ensures(p, (s,), r) ==> r == g(s@)
}

// ----- the scanner -----

/// Relies on `core::slice::Iter` and `String: FromIterator<char>`: collecting
/// a range of characters yields exactly that text.
#[verifier::external_body]
fn string_from_range(v: &Vec<char>, from: usize, to: usize) -> (r: String)
    requires
        from <= to && to <= v@.len(),
    ensures
        r@ == v@.subrange(from as int, to as int),
{
    v[from..to].iter().collect()
}

/// A single left-to-right pass over the source characters. `start` and
/// `current` delimit the lexeme in hand; `line` counts consumed newlines
/// and serves diagnostics only.
pub struct Scanner {
    pub source: Vec<char>,
    pub tokens: Vec<Token>,
    pub errors: Vec<ScanError>,
    pub start: usize,
    pub current: usize,
    pub line: usize,
}

impl Scanner {
    pub open spec fn wf(&self) -> bool {
        &&& self.current <= self.source@.len()
        &&& self.source@.len() < usize::MAX
        &&& 1 <= self.line
        &&& self.line <= self.current + 1
    }

    pub fn new(source: Vec<char>) -> (s: Scanner)
        requires
            source@.len() < usize::MAX,
        ensures
            s.wf(),
            s.source@ == source@,
            s.tokens@.len() == 0,
            s.errors@.len() == 0,
            s.current == 0,
            s.line == 1,
    {
        Scanner {
            source,
            tokens: Vec::new(),
            errors: Vec::new(),
            start: 0,
            current: 0,
            line: 1,
        }
    }

    fn at_end(&self) -> (r: bool)
        ensures
            r == (self.current >= self.source@.len()),
    {
        self.current >= self.source.len()
    }

    fn peek(&self) -> (c: char)
        ensures
            c == (if (self.current as int) < self.source@.len() {
                self.source@[self.current as int]
            } else {
                '\0'
            }),
    {
        if self.at_end() {
            '\0'
        } else {
            self.source[self.current]
        }
    }

    fn peek_next(&self) -> (c: char)
        requires
            self.current <= self.source@.len(),
            self.source@.len() < usize::MAX,
        ensures
            c == (if self.current + 1 < self.source@.len() {
                self.source@[self.current + 1]
            } else {
                '\0'
            }),
    {
        if self.current + 1 >= self.source.len() {
            '\0'
        } else {
            self.source[self.current + 1]
        }
    }

    fn advance(&mut self) -> (c: char)
        requires
            old(self).current < old(self).source@.len(),
            old(self).source@.len() < usize::MAX,
        ensures
            final(self).current == old(self).current + 1,
            c == final(self).source@[old(self).current as int],
            final(self).source@ == old(self).source@,
            final(self).tokens@ == old(self).tokens@,
            final(self).errors@ == old(self).errors@,
            final(self).start == old(self).start,
            final(self).line == old(self).line,
    {
        self.current = self.current + 1;
        self.source[self.current - 1]
    }

    fn match_next(&mut self, expected: char) -> (r: bool)
        requires
            old(self).current <= old(self).source@.len(),
            old(self).source@.len() < usize::MAX,
        ensures
            final(self).source@ == old(self).source@,
            final(self).tokens@ == old(self).tokens@,
            final(self).errors@ == old(self).errors@,
            final(self).start == old(self).start,
            final(self).line == old(self).line,
            r == ((old(self).current as int) < old(self).source@.len() && old(self).source@[old(
                self,
            ).current as int] == expected),
            final(self).current as int == if r {
                old(self).current + 1
            } else {
                old(self).current as int
            },
    {
        if self.at_end() {
            return false;
        }
        if self.source[self.current] != expected {
            return false;
        }
        self.current = self.current + 1;
        true
    }

    /// Emit a token with no literal payload for the lexeme in hand.
    fn add(&mut self, tokentype: TokenType)
        requires
            old(self).start <= old(self).current <= old(self).source@.len(),
        ensures
            final(self).source@ == old(self).source@,
            final(self).errors@ == old(self).errors@,
            final(self).start == old(self).start,
            final(self).current == old(self).current,
            final(self).line == old(self).line,
            tokens_view(final(self).tokens@) == tokens_view(old(self).tokens@).push(
                TokenModel {
                    token_type: tokentype,
                    lexeme: old(self).source@.subrange(old(self).start as int, old(self).current as int),
                    literal: ValueModel::Nil,
                    line: old(self).line as int,
                },
            ),
    {
        self.add_token(tokentype, RoxType::Nil)
    }

    /// Emit a token for the lexeme in hand, with the given literal payload.
    fn add_token(&mut self, token_type: TokenType, literal: RoxType)
        requires
            old(self).start <= old(self).current <= old(self).source@.len(),
        ensures
            final(self).source@ == old(self).source@,
            final(self).errors@ == old(self).errors@,
            final(self).start == old(self).start,
            final(self).current == old(self).current,
            final(self).line == old(self).line,
            tokens_view(final(self).tokens@) == tokens_view(old(self).tokens@).push(
                TokenModel {
                    token_type,
                    lexeme: old(self).source@.subrange(old(self).start as int, old(self).current as int),
                    literal: literal@,
                    line: old(self).line as int,
                },
            ),
    {
        let text = string_from_range(&self.source, self.start, self.current);
        let ghost before = self.tokens@;
        let t = Token::new(token_type, text, literal, self.line);
        self.tokens.push(t);
        proof {
            lemma_tokens_view_push(before, t);
        }
    }

    /// Record a diagnostic at the current line.
    fn push_error(&mut self, message: &str)
        ensures
            final(self).source@ == old(self).source@,
            final(self).tokens@ == old(self).tokens@,
            final(self).start == old(self).start,
            final(self).current == old(self).current,
            final(self).line == old(self).line,
            errors_view(final(self).errors@) == errors_view(old(self).errors@).push(
                ScanErrorModel { line: old(self).line as int, message: message@ },
            ),
    {
        let ghost before = self.errors@;
        let e = error(self.line, message);
        self.errors.push(e);
        proof {
            lemma_errors_view_push(before, e);
        }
    }

    /// Scan the whole source: the returned token sequence and the collected
    /// diagnostics are exactly what `scan_spec` says, for every function `g`
    /// the caller-supplied numeric literal reader `p` may implement. The
    /// sequence always ends in one `EndOfInput` token; diagnostics never stop
    /// the scan.
    pub fn scan_tokens<P: Fn(String) -> u64 + Copy>(&mut self, p: P) -> (r: Vec<Token>)
        requires
            parse_callable(p),
            old(self).wf(),
            old(self).current == 0,
            old(self).line == 1,
            old(self).tokens@.len() == 0,
            old(self).errors@.len() == 0,
        ensures
            final(self).wf(),
            final(self).source@ == old(self).source@,
            tokens_view(r@) == tokens_view(final(self).tokens@),
            r@.len() >= 1,
            r@[r@.len() - 1]@.token_type == TokenType::EndOfInput,
            forall|g: spec_fn(Seq<char>) -> u64|
                #[trigger] parse_consistent(p, g) ==> tokens_view(r@) == scan_spec(
                    final(self).source@,
                    0,
                    1,
                    g,
                ).tokens && errors_view(final(self).errors@) == scan_spec(
                    final(self).source@,
                    0,
                    1,
                    g,
                ).errors,
    {
        let ghost src = self.source@;
        proof {
            assert forall|g: spec_fn(Seq<char>) -> u64|
                out_app(
                    tokens_view(self.tokens@),
                    errors_view(self.errors@),
                    #[trigger] scan_spec(src, 0, 1, g),
                ) == scan_spec(src, 0, 1, g) by {
                assert(tokens_view(self.tokens@) =~= Seq::<TokenModel>::empty());
                assert(errors_view(self.errors@) =~= Seq::<ScanErrorModel>::empty());
                assert(tokens_view(self.tokens@) + scan_spec(src, 0, 1, g).tokens =~= scan_spec(
                    src,
                    0,
                    1,
                    g,
                ).tokens);
                assert(errors_view(self.errors@) + scan_spec(src, 0, 1, g).errors =~= scan_spec(
                    src,
                    0,
                    1,
                    g,
                ).errors);
            }
        }
        while !self.at_end()
            invariant
                parse_callable(p),
                self.wf(),
                self.source@ == src,
                forall|g: spec_fn(Seq<char>) -> u64|
                    #[trigger] parse_consistent(p, g) ==> out_app(
                        tokens_view(self.tokens@),
                        errors_view(self.errors@),
                        scan_spec(src, self.current as int, self.line as int, g),
                    ) == scan_spec(src, 0, 1, g),
            decreases src.len() - self.current,
        {
            self.start = self.current;
            self.scan_token(p);
        }
        let ghost before_eof = self.tokens@;
        let eof = Token::new(TokenType::EndOfInput, String::new(), RoxType::Nil, self.line);
        self.tokens.push(eof);
        proof {
            lemma_tokens_view_push(before_eof, eof);
            assert forall|g: spec_fn(Seq<char>) -> u64| #[trigger] parse_consistent(p, g) implies tokens_view(
                self.tokens@,
            ) == scan_spec(src, 0, 1, g).tokens && errors_view(self.errors@) == scan_spec(
                src,
                0,
                1,
                g,
            ).errors by {
                let tail = scan_spec(src, self.current as int, self.line as int, g);
                assert(tail.tokens == seq![eof@]);
                assert(tokens_view(before_eof) + tail.tokens =~= tokens_view(before_eof).push(
                    eof@,
                ));
                assert(errors_view(self.errors@) + tail.errors =~= errors_view(self.errors@));
            }
        }
        let mut r: Vec<Token> = Vec::new();
        let mut k: usize = 0;
        while k < self.tokens.len()
            invariant
                k <= self.tokens@.len(),
                r@.len() == k,
                forall|m: int| 0 <= m < k ==> r@[m]@ == self.tokens@[m]@,
                self.wf(),
                self.source@ == src,
            decreases self.tokens@.len() - k,
        {
            let t = &self.tokens[k];
            r.push(t.clone());
            k = k + 1;
        }
        proof {
            assert(tokens_view(r@) =~= tokens_view(self.tokens@));
        }
        r
    }

    /// Consume one lexeme: emit its token or diagnostic, if it produces one,
    /// and leave the cursor at the next lexeme.
    fn scan_token<P: Fn(String) -> u64 + Copy>(&mut self, p: P)
        requires
            parse_callable(p),
            old(self).wf(),
            old(self).start == old(self).current,
            old(self).current < old(self).source@.len(),
        ensures
            final(self).wf(),
            final(self).source@ == old(self).source@,
            old(self).current < final(self).current,
            forall|g: spec_fn(Seq<char>) -> u64|
                #[trigger] parse_consistent(p, g) ==> out_app(
                    tokens_view(final(self).tokens@),
                    errors_view(final(self).errors@),
                    scan_spec(
                        final(self).source@,
                        final(self).current as int,
                        final(self).line as int,
                        g,
                    ),
                ) == out_app(
                    tokens_view(old(self).tokens@),
                    errors_view(old(self).errors@),
                    scan_spec(
                        old(self).source@,
                        old(self).current as int,
                        old(self).line as int,
                        g,
                    ),
                ),
    {
        let ghost src = self.source@;
        let ghost i = self.current as int;
        let ghost line0 = self.line as int;
        let ghost ts = tokens_view(old(self).tokens@);
        let ghost es = errors_view(old(self).errors@);
        let c = self.advance();
        if c == '(' {
            self.add(TokenType::LeftParen);
            proof {
                lemma_step_token(ts, es, punct(TokenType::LeftParen, src, i, 1, line0), src, i, line0, i + 1, line0);
            }
        } else if c == ')' {
            self.add(TokenType::RightParen);
            proof {
                lemma_step_token(ts, es, punct(TokenType::RightParen, src, i, 1, line0), src, i, line0, i + 1, line0);
            }
        } else if c == '{' {
            self.add(TokenType::LeftBrace);
            proof {
                lemma_step_token(ts, es, punct(TokenType::LeftBrace, src, i, 1, line0), src, i, line0, i + 1, line0);
            }
        } else if c == '}' {
            self.add(TokenType::RightBrace);
            proof {
                lemma_step_token(ts, es, punct(TokenType::RightBrace, src, i, 1, line0), src, i, line0, i + 1, line0);
            }
        } else if c == ',' {
            self.add(TokenType::Comma);
            proof {
                lemma_step_token(ts, es, punct(TokenType::Comma, src, i, 1, line0), src, i, line0, i + 1, line0);
            }
        } else if c == '.' {
            self.add(TokenType::Dot);
            proof {
                lemma_step_token(ts, es, punct(TokenType::Dot, src, i, 1, line0), src, i, line0, i + 1, line0);
            }
        } else if c == '-' {
            self.add(TokenType::Minus);
            proof {
                lemma_step_token(ts, es, punct(TokenType::Minus, src, i, 1, line0), src, i, line0, i + 1, line0);
            }
        } else if c == '+' {
            self.add(TokenType::Plus);
            proof {
                lemma_step_token(ts, es, punct(TokenType::Plus, src, i, 1, line0), src, i, line0, i + 1, line0);
            }
        } else if c == ';' {
            self.add(TokenType::Semicolon);
            proof {
                lemma_step_token(ts, es, punct(TokenType::Semicolon, src, i, 1, line0), src, i, line0, i + 1, line0);
            }
        } else if c == '*' {
            self.add(TokenType::Star);
            proof {
                lemma_step_token(ts, es, punct(TokenType::Star, src, i, 1, line0), src, i, line0, i + 1, line0);
            }
        } else if c == '!' {
            if self.match_next('=') {
                self.add(TokenType::BangEqual);
                proof {
                    lemma_step_token(ts, es, punct(TokenType::BangEqual, src, i, 2, line0), src, i, line0, i + 2, line0);
                }
            } else {
                self.add(TokenType::Bang);
                proof {
                    lemma_step_token(ts, es, punct(TokenType::Bang, src, i, 1, line0), src, i, line0, i + 1, line0);
                }
            }
        } else if c == '=' {
            if self.match_next('=') {
                self.add(TokenType::EqualEqual);
                proof {
                    lemma_step_token(ts, es, punct(TokenType::EqualEqual, src, i, 2, line0), src, i, line0, i + 2, line0);
                }
            } else {
                self.add(TokenType::Equal);
                proof {
                    lemma_step_token(ts, es, punct(TokenType::Equal, src, i, 1, line0), src, i, line0, i + 1, line0);
                }
            }
        } else if c == '<' {
            if self.match_next('=') {
                self.add(TokenType::LessEqual);
                proof {
                    lemma_step_token(ts, es, punct(TokenType::LessEqual, src, i, 2, line0), src, i, line0, i + 2, line0);
                }
            } else {
                self.add(TokenType::Less);
                proof {
                    lemma_step_token(ts, es, punct(TokenType::Less, src, i, 1, line0), src, i, line0, i + 1, line0);
                }
            }
        } else if c == '>' {
            if self.match_next('=') {
                self.add(TokenType::GreaterEqual);
                proof {
                    lemma_step_token(ts, es, punct(TokenType::GreaterEqual, src, i, 2, line0), src, i, line0, i + 2, line0);
                }
            } else {
                self.add(TokenType::Greater);
                proof {
                    lemma_step_token(ts, es, punct(TokenType::Greater, src, i, 1, line0), src, i, line0, i + 1, line0);
                }
            }
        } else if c == '/' {
            if self.match_next('/') {
                while self.peek() != '\n' && !self.at_end()
                    invariant
                        self.wf(),
                        self.source@ == src,
                        self.tokens@ == old(self).tokens@,
                        self.errors@ == old(self).errors@,
                        self.line == old(self).line,
                        i + 2 <= self.current <= src.len(),
                        seek_line_end(src, i + 2) == seek_line_end(src, self.current as int),
                    decreases src.len() - self.current,
                {
                    self.advance();
                }
                proof {
                    assert(seek_line_end(src, self.current as int) == self.current as int);
                    lemma_seek_line_end_bounds(src, i + 2);
                    assert(next_pos(seek_line_end(src, i + 2), i + 2, src.len() as int)
                        == self.current as int);
                    assert(forall|g: spec_fn(Seq<char>) -> u64|
                        #[trigger] scan_spec(src, i, line0, g) == scan_spec(
                            src,
                            self.current as int,
                            line0,
                            g,
                        ));
                }
            } else {
                self.add(TokenType::Slash);
                proof {
                    lemma_step_token(ts, es, punct(TokenType::Slash, src, i, 1, line0), src, i, line0, i + 1, line0);
                }
            }
        } else if c == ' ' || c == '\r' || c == '\t' {
            proof {
                assert(forall|g: spec_fn(Seq<char>) -> u64|
                    #[trigger] scan_spec(src, i, line0, g) == scan_spec(src, i + 1, line0, g));
            }
        } else if c == '\n' {
            self.line = self.line + 1;
            proof {
                assert(forall|g: spec_fn(Seq<char>) -> u64|
                    #[trigger] scan_spec(src, i, line0, g) == scan_spec(src, i + 1, line0 + 1, g));
            }
        } else if c == '"' {
            self.scn_string();
        } else if is_digit(c) {
            self.scn_number(p);
        } else if is_alpha(c) {
            self.scn_identifier();
        } else {
            self.push_error("Unexpected character");
            proof {
                lemma_step_error(
                    ts,
                    es,
                    ScanErrorModel { line: line0, message: "Unexpected character"@ },
                    src,
                    i,
                    line0,
                    i + 1,
                    line0,
                );
            }
        }
    }

    /// Scan the rest of a numeric literal whose first digit has just been
    /// consumed, and emit its token; the caller-supplied reader `p` turns
    /// the lexeme into the literal's bit pattern.
    fn scn_number<P: Fn(String) -> u64 + Copy>(&mut self, p: P)
        requires
            parse_callable(p),
            old(self).wf(),
            old(self).start + 1 == old(self).current,
            is_digit_char(old(self).source@[old(self).start as int]),
        ensures
            final(self).wf(),
            final(self).source@ == old(self).source@,
            final(self).line == old(self).line,
            old(self).current <= final(self).current,
            forall|g: spec_fn(Seq<char>) -> u64|
                #[trigger] parse_consistent(p, g) ==> out_app(
                    tokens_view(final(self).tokens@),
                    errors_view(final(self).errors@),
                    scan_spec(
                        final(self).source@,
                        final(self).current as int,
                        final(self).line as int,
                        g,
                    ),
                ) == out_app(
                    tokens_view(old(self).tokens@),
                    errors_view(old(self).errors@),
                    scan_spec(
                        old(self).source@,
                        old(self).start as int,
                        old(self).line as int,
                        g,
                    ),
                ),
    {
        let ghost src = self.source@;
        let ghost i = self.start as int;
        let ghost line0 = self.line as int;
        while is_digit(self.peek())
            invariant
                self.wf(),
                self.source@ == src,
                self.tokens@ == old(self).tokens@,
                self.errors@ == old(self).errors@,
                self.start == old(self).start,
                self.line == old(self).line,
                i + 1 <= self.current <= src.len(),
                seek_digits(src, i + 1) == seek_digits(src, self.current as int),
            decreases src.len() - self.current,
        {
            self.advance();
        }
        let ghost d = seek_digits(src, i + 1);
        proof {
            assert(seek_digits(src, self.current as int) == self.current as int);
            assert(d == self.current as int);
        }
        let c1 = self.peek();
        let c2 = self.peek_next();
        if c1 == '.' && is_digit(c2) {
            self.advance();
            while is_digit(self.peek())
                invariant
                    self.wf(),
                    self.source@ == src,
                    self.tokens@ == old(self).tokens@,
                    self.errors@ == old(self).errors@,
                    self.start == old(self).start,
                    self.line == old(self).line,
                    d + 1 <= self.current <= src.len(),
                    seek_digits(src, d + 1) == seek_digits(src, self.current as int),
                decreases src.len() - self.current,
            {
                self.advance();
            }
            proof {
                assert(seek_digits(src, self.current as int) == self.current as int);
            }
        }
        proof {
            assert(self.current as int == number_end(src, i));
        }
        let text = string_from_range(&self.source, self.start, self.current);
        let ghost lex = text@;
        let bits = p(text);
        self.add_token(TokenType::Number, RoxType::Number(bits));
        proof {
            lemma_seek_digits_bounds(src, i + 1);
            let j = self.current as int;
            assert(next_pos(number_end(src, i), i + 1, src.len() as int) == j);
            assert forall|g: spec_fn(Seq<char>) -> u64| #[trigger] parse_consistent(p, g) implies out_app(
                tokens_view(self.tokens@),
                errors_view(self.errors@),
                scan_spec(src, j, line0, g),
            ) == out_app(
                tokens_view(old(self).tokens@),
                errors_view(old(self).errors@),
                scan_spec(src, i, line0, g),
            ) by {
                let lexs = src.subrange(i, j);
                assert(lex == lexs);
                assert(bits == g(lexs));
                let tm = TokenModel {
                    token_type: TokenType::Number,
                    lexeme: lexs,
                    literal: ValueModel::Num(g(lexs)),
                    line: line0,
                };
                assert(scan_spec(src, i, line0, g) == with_token(tm, scan_spec(src, j, line0, g)));
                lemma_app_token(
                    tokens_view(old(self).tokens@),
                    errors_view(old(self).errors@),
                    tm,
                    scan_spec(src, j, line0, g),
                );
            }
        }
    }

    /// Scan the rest of a string literal whose opening quote has just been
    /// consumed; an unclosed literal is a diagnostic, not a token.
    fn scn_string(&mut self)
        requires
            old(self).wf(),
            old(self).start + 1 == old(self).current,
            old(self).source@[old(self).start as int] == '"',
        ensures
            final(self).wf(),
            final(self).source@ == old(self).source@,
            old(self).current <= final(self).current,
            forall|g: spec_fn(Seq<char>) -> u64|
                out_app(
                    tokens_view(final(self).tokens@),
                    errors_view(final(self).errors@),
                    #[trigger] scan_spec(
                        final(self).source@,
                        final(self).current as int,
                        final(self).line as int,
                        g,
                    ),
                ) == out_app(
                    tokens_view(old(self).tokens@),
                    errors_view(old(self).errors@),
                    scan_spec(
                        old(self).source@,
                        old(self).start as int,
                        old(self).line as int,
                        g,
                    ),
                ),
    {
        let ghost src = self.source@;
        let ghost i = self.start as int;
        let ghost line0 = self.line as int;
        while self.peek() != '"' && !self.at_end()
            invariant
                self.wf(),
                self.source@ == src,
                self.tokens@ == old(self).tokens@,
                self.errors@ == old(self).errors@,
                self.start == old(self).start,
                i + 1 <= self.current <= src.len(),
                seek_quote(src, i + 1) == seek_quote(src, self.current as int),
                self.line as int == line0 + newlines_in(src, i + 1, self.current as int),
            decreases src.len() - self.current,
        {
            proof {
                lemma_newlines_extend(src, i + 1, self.current as int);
                lemma_newlines_bounds(src, i + 1, self.current as int);
            }
            if self.peek() == '\n' {
                self.line = self.line + 1;
            }
            self.advance();
        }
        let ghost q = seek_quote(src, i + 1);
        let ghost nl = newlines_in(src, i + 1, q);
        proof {
            assert(seek_quote(src, self.current as int) == self.current as int);
            assert(q == self.current as int);
        }
        if self.at_end() {
            self.push_error("unterminated string");
            proof {
                lemma_step_error(
                    tokens_view(old(self).tokens@),
                    errors_view(old(self).errors@),
                    ScanErrorModel { line: line0 + nl, message: "unterminated string"@ },
                    src,
                    i,
                    line0,
                    src.len() as int,
                    line0 + nl,
                );
            }
            return ;
        }
        self.advance();
        let lit = string_from_range(&self.source, self.start + 1, self.current - 1);
        self.add_token(TokenType::StringLit, RoxType::Str(lit));
        proof {
            let tm = TokenModel {
                token_type: TokenType::StringLit,
                lexeme: src.subrange(i, q + 1),
                literal: ValueModel::Str(src.subrange(i + 1, q)),
                line: line0 + nl,
            };
            assert(next_pos(q + 1, i + 1, src.len() as int) == q + 1);
            lemma_step_token(
                tokens_view(old(self).tokens@),
                errors_view(old(self).errors@),
                tm,
                src,
                i,
                line0,
                q + 1,
                line0 + nl,
            );
        }
    }

    /// Scan the rest of an identifier or keyword whose first character has
    /// just been consumed, and emit its token.
    fn scn_identifier(&mut self)
        requires
            old(self).wf(),
            old(self).start + 1 == old(self).current,
            is_alpha_char(old(self).source@[old(self).start as int]),
        ensures
            final(self).wf(),
            final(self).source@ == old(self).source@,
            final(self).line == old(self).line,
            old(self).current <= final(self).current,
            forall|g: spec_fn(Seq<char>) -> u64|
                out_app(
                    tokens_view(final(self).tokens@),
                    errors_view(final(self).errors@),
                    #[trigger] scan_spec(
                        final(self).source@,
                        final(self).current as int,
                        final(self).line as int,
                        g,
                    ),
                ) == out_app(
                    tokens_view(old(self).tokens@),
                    errors_view(old(self).errors@),
                    scan_spec(
                        old(self).source@,
                        old(self).start as int,
                        old(self).line as int,
                        g,
                    ),
                ),
    {
        let ghost src = self.source@;
        let ghost i = self.start as int;
        let ghost line0 = self.line as int;
        while is_alphanumeric(self.peek())
            invariant
                self.wf(),
                self.source@ == src,
                self.tokens@ == old(self).tokens@,
                self.errors@ == old(self).errors@,
                self.start == old(self).start,
                self.line == old(self).line,
                i + 1 <= self.current <= src.len(),
                seek_ident(src, i + 1) == seek_ident(src, self.current as int),
            decreases src.len() - self.current,
        {
            self.advance();
        }
        proof {
            assert(seek_ident(src, self.current as int) == self.current as int);
        }
        let text = string_from_range(&self.source, self.start, self.current);
        let tt = keyword_or_identifier(&text);
        self.add(tt);
        proof {
            lemma_seek_ident_bounds(src, i + 1);
            let j = self.current as int;
            assert(next_pos(seek_ident(src, i + 1), i + 1, src.len() as int) == j);
            let tm = TokenModel {
                token_type: keyword_token(src.subrange(i, j)),
                lexeme: src.subrange(i, j),
                literal: ValueModel::Nil,
                line: line0,
            };
            lemma_step_token(
                tokens_view(old(self).tokens@),
                errors_view(old(self).errors@),
                tm,
                src,
                i,
                line0,
                j,
                line0,
            );
        }
    }
}

} // verus!
