use vstd::prelude::*;

use crate::chunk::{height_from, lemma_height_append, lemma_height_shift, Chunk, OpCode, Value};
use crate::scanner::{kind_fits, spec_scan, Scanner};
use crate::token::{is_numeral, lex_error_text, Token, TokenType};

verus! {

/// How tightly an operator binds, from `Lowest` (binds nothing) up to `Primary`.
#[derive(Clone, Copy, Debug, PartialEq, Eq, Structural)]
pub enum Precedence {
    Lowest,
    Assignment,
    Or,
    And,
    Eq,
    Comp,
    Term,
    Factor,
    Unary,
    Call,
    Primary,
}

pub open spec fn rank(p: Precedence) -> int {
    match p {
        Precedence::Lowest => 0,
        Precedence::Assignment => 1,
        Precedence::Or => 2,
        Precedence::And => 3,
        Precedence::Eq => 4,
        Precedence::Comp => 5,
        Precedence::Term => 6,
        Precedence::Factor => 7,
        Precedence::Unary => 8,
        Precedence::Call => 9,
        Precedence::Primary => 10,
    }
}

/// The rank of `p`, as a number.
pub fn rank_of(p: Precedence) -> (r: u8)
    ensures
        r == rank(p),
{
    match p {
        Precedence::Lowest => 0,
        Precedence::Assignment => 1,
        Precedence::Or => 2,
        Precedence::And => 3,
        Precedence::Eq => 4,
        Precedence::Comp => 5,
        Precedence::Term => 6,
        Precedence::Factor => 7,
        Precedence::Unary => 8,
        Precedence::Call => 9,
        Precedence::Primary => 10,
    }
}

/// What a token does where an expression begins.
#[derive(Clone, Copy, Debug, PartialEq, Eq, Structural)]
pub enum PrefixFn {
    Grouping,
    Unary,
    Number,
}

/// What a token does after a complete left operand.
#[derive(Clone, Copy, Debug, PartialEq, Eq, Structural)]
pub enum InfixFn {
    Binary,
}

/// The row of the rule table for one kind of token.
#[derive(Clone, Copy, Debug, PartialEq, Eq, Structural)]
pub struct ParseRule {
    pub prefix: Option<PrefixFn>,
    pub infix: Option<InfixFn>,
    pub precedence: Precedence,
}

/// The rule table: every kind of token has a rule, most of them empty.
pub open spec fn rule_of(k: TokenType) -> ParseRule {
    match k {
        TokenType::LeftParen => ParseRule {
            prefix: Some(PrefixFn::Grouping),
            infix: None,
            precedence: Precedence::Lowest,
        },
        TokenType::Minus => ParseRule {
            prefix: Some(PrefixFn::Unary),
            infix: Some(InfixFn::Binary),
            precedence: Precedence::Term,
        },
        TokenType::Plus => ParseRule {
            prefix: None,
            infix: Some(InfixFn::Binary),
            precedence: Precedence::Term,
        },
        TokenType::Slash => ParseRule {
            prefix: None,
            infix: Some(InfixFn::Binary),
            precedence: Precedence::Factor,
        },
        TokenType::Star => ParseRule {
            prefix: None,
            infix: Some(InfixFn::Binary),
            precedence: Precedence::Factor,
        },
        TokenType::Number => ParseRule {
            prefix: Some(PrefixFn::Number),
            infix: None,
            precedence: Precedence::Lowest,
        },
        _ => ParseRule { prefix: None, infix: None, precedence: Precedence::Lowest },
    }
}

/// The instruction of a binary operator token, tagged with `line`.
pub open spec fn binary_opcode(k: TokenType, line: usize) -> OpCode {
    match k {
        TokenType::Plus => OpCode::Add { line },
        TokenType::Minus => OpCode::Sub { line },
        TokenType::Slash => OpCode::Div { line },
        _ => OpCode::Mul { line },
    }
}

/// The successor of `p`; past the highest rank it starts over at `Assignment`.
pub open spec fn successor(p: Precedence) -> Precedence {
    match p {
        Precedence::Lowest => Precedence::Assignment,
        Precedence::Assignment => Precedence::Or,
        Precedence::Or => Precedence::And,
        Precedence::And => Precedence::Eq,
        Precedence::Eq => Precedence::Comp,
        Precedence::Comp => Precedence::Term,
        Precedence::Term => Precedence::Factor,
        Precedence::Factor => Precedence::Unary,
        Precedence::Unary => Precedence::Call,
        Precedence::Call => Precedence::Primary,
        Precedence::Primary => Precedence::Assignment,
    }
}

/// A parser state: scanner position, scanner line, the token in line, the token consumed.
pub type PState = (usize, usize, Option<Token>, Option<Token>);

/// A failure: the token it points at and its message.
pub type Failure = Option<(Token, Seq<char>)>;

/// What a parsing step comes to: the state after it, the code it emits, the numerals it
/// adds to the pool, in order, and its failure if it fails.
pub type Outcome = (PState, Seq<OpCode>, Seq<Seq<char>>, Failure);

pub open spec fn cur_tok(ps: PState) -> Token {
    ps.2->0
}

pub open spec fn prev_tok(ps: PState) -> Token {
    ps.3->0
}

pub open spec fn failure_token(f: Failure) -> Token {
    let (t, m) = f->0;
    t
}

pub open spec fn failure_message(f: Failure) -> Seq<char> {
    let (t, m) = f->0;
    m
}

pub open spec fn ps_fuel(s: Seq<char>, ps: PState) -> int {
    2 * (s.len() - ps.0) + if ps.2 is Some && ps.2->0.token_type == TokenType::Eof {
        0int
    } else {
        1int
    }
}

/// Moving the cursor on: `current` becomes `previous`, the scanner's next token becomes
/// `current`, and a token that carries a lexical error fails.
pub open spec fn sp_advance(s: Seq<char>, ps: PState) -> (PState, Failure) {
    let (t, p, l) = spec_scan(s, ps.0 as int, ps.1);
    (
        (p as usize, l, Some(t), ps.2),
        if t.token_type == TokenType::Error {
            Some((t, lex_error_text(t.error->0)))
        } else {
            None
        },
    )
}

/// An expression at precedence `prec` from the token in line: one operand, then every
/// infix operator that binds at least as tightly with its right operand. `base` is the
/// pool's length before it. The tests on `ps_fuel` only bound the recursion: in every state
/// a compile reaches, the scanner's progress makes them pass (the parsing functions prove it).
pub open spec fn sp_parse(s: Seq<char>, ps: PState, prec: Precedence, base: nat) -> Outcome
    decreases ps_fuel(s, ps), 0int,
{
    let (ps1, f) = sp_advance(s, ps);
    if f is Some {
        (ps1, seq![], seq![], f)
    } else {
        let t = ps1.3->0;
        match rule_of(t.token_type).prefix {
            None => (ps1, seq![], seq![], Some((t, "Expected expression"@))),
            Some(h) => if ps_fuel(s, ps1) >= ps_fuel(s, ps) || ps_fuel(s, ps1) < 0 {
                (ps1, seq![], seq![], None)
            } else {
                let a = sp_prefix(s, ps1, h, base);
                if a.3 is Some || ps_fuel(s, a.0) >= ps_fuel(s, ps) || ps_fuel(s, a.0) < 0 {
                    a
                } else {
                    let b = sp_infix_loop(s, a.0, prec, base + a.2.len());
                    (b.0, a.1 + b.1, a.2 + b.2, b.3)
                }
            },
        }
    }
}

/// The operand that the consumed token begins.
pub open spec fn sp_prefix(s: Seq<char>, ps: PState, h: PrefixFn, base: nat) -> Outcome
    decreases ps_fuel(s, ps), 3int,
{
    match h {
        PrefixFn::Number => {
            let t = ps.3->0;
            (
                ps,
                seq![OpCode::Const { line: t.line, const_idx: base as usize }],
                seq![s.subrange(t.start as int, t.start + t.length)],
                None,
            )
        },
        PrefixFn::Grouping => sp_grouping(s, ps, base),
        PrefixFn::Unary => sp_unary(s, ps, base),
    }
}

/// A parenthesised expression: the inner expression, then `)`.
pub open spec fn sp_grouping(s: Seq<char>, ps: PState, base: nat) -> Outcome
    decreases ps_fuel(s, ps), 2int,
{
    let a = sp_parse(s, ps, Precedence::Assignment, base);
    if a.3 is Some {
        a
    } else if cur_tok(a.0).token_type == TokenType::RightParen {
        let (ps2, f) = sp_advance(s, a.0);
        (ps2, a.1, a.2, f)
    } else {
        (a.0, a.1, a.2, Some((cur_tok(a.0), "Expected ')'"@)))
    }
}

/// A prefix operator: its operand at `Unary` precedence, then `Negate` for `-`.
pub open spec fn sp_unary(s: Seq<char>, ps: PState, base: nat) -> Outcome
    decreases ps_fuel(s, ps), 2int,
{
    let op = ps.3->0.token_type;
    let a = sp_parse(s, ps, Precedence::Unary, base);
    if a.3 is Some || op != TokenType::Minus {
        a
    } else {
        (a.0, a.1.push(OpCode::Negate { line: prev_tok(a.0).line }), a.2, None)
    }
}

/// An infix operator: its right operand at the successor of its precedence, so that
/// operators of one rank group to the left, then the operation.
pub open spec fn sp_binary(s: Seq<char>, ps: PState, base: nat) -> Outcome
    decreases ps_fuel(s, ps), 2int,
{
    let op = ps.3->0.token_type;
    let a = sp_parse(s, ps, successor(rule_of(op).precedence), base);
    if a.3 is Some {
        a
    } else {
        (a.0, a.1.push(binary_opcode(op, prev_tok(a.0).line)), a.2, None)
    }
}

/// The infix operators that follow a complete operand, while they bind at least at `prec`.
pub open spec fn sp_infix_loop(s: Seq<char>, ps: PState, prec: Precedence, base: nat) -> Outcome
    decreases ps_fuel(s, ps), 1int,
{
    if ps.2 is None || rank(rule_of(ps.2->0.token_type).precedence) < rank(prec) {
        (ps, seq![], seq![], None)
    } else {
        let (ps1, f) = sp_advance(s, ps);
        if f is Some {
            (ps1, seq![], seq![], f)
        } else if ps_fuel(s, ps1) >= ps_fuel(s, ps) || ps_fuel(s, ps1) < 0 {
            (ps1, seq![], seq![], None)
        } else {
            match rule_of(ps1.3->0.token_type).infix {
                None => sp_infix_loop(s, ps1, prec, base),
                Some(_) => {
                    let a = sp_binary(s, ps1, base);
                    if a.3 is Some || ps_fuel(s, a.0) >= ps_fuel(s, ps) || ps_fuel(s, a.0) < 0 {
                        a
                    } else {
                        let b = sp_infix_loop(s, a.0, prec, base + a.2.len());
                        (b.0, a.1 + b.1, a.2 + b.2, b.3)
                    }
                },
            }
        }
    }
}

/// A whole compile: prime the cursor, one expression, then the end of the input.
pub open spec fn sp_compile(s: Seq<char>, ps: PState, base: nat) -> Outcome {
    let (ps1, f) = sp_advance(s, ps);
    if f is Some {
        (ps1, seq![], seq![], f)
    } else {
        let a = sp_parse(s, ps1, Precedence::Assignment, base);
        if a.3 is Some {
            a
        } else if cur_tok(a.0).token_type == TokenType::Eof {
            let (ps2, g) = sp_advance(s, a.0);
            (ps2, a.1, a.2, g)
        } else {
            (a.0, a.1, a.2, Some((cur_tok(a.0), "Expected end of expression"@)))
        }
    }
}

/// The numerals of the constants that `k1` has beyond `k0`.
pub open spec fn new_numerals(k0: Chunk, k1: Chunk) -> Seq<Seq<char>> {
    k1.constants@.subrange(k0.constants@.len() as int, k1.constants@.len() as int).map_values(
        |v: Value| v.numeral(),
    )
}

proof fn lemma_new_numerals_trans(a: Chunk, b: Chunk, c: Chunk)
    requires
        grows(a, b),
        grows(b, c),
    ensures
        new_numerals(a, c) == new_numerals(a, b) + new_numerals(b, c),
{
    lemma_grows_trans(a, b, c);
    assert forall|i: int| a.constants@.len() <= i < b.constants@.len() implies c.constants@[i]
        == b.constants@[i] by {
        assert(c.constants@.subrange(0, b.constants@.len() as int)[i] == c.constants@[i]);
    }
    assert(new_numerals(a, c) =~= new_numerals(a, b) + new_numerals(b, c));
}

/// Compiling is a function of the source and the state it starts from: two compiles of
/// one source from one state into chunks of one pool length emit the same code, add the same
/// numerals and succeed or fail alike.
pub proof fn lemma_compile_deterministic(
    s: Seq<char>,
    ps: PState,
    base: nat,
    c1: Compiler,
    k1_before: Chunk,
    k1_after: Chunk,
    r1: VoidResult,
    c2: Compiler,
    k2_before: Chunk,
    k2_after: Chunk,
    r2: VoidResult,
)
    requires
        follows(sp_compile(s, ps, base), c1, k1_before, k1_after, r1),
        follows(sp_compile(s, ps, base), c2, k2_before, k2_after, r2),
    ensures
        appended(k1_before, k1_after) == appended(k2_before, k2_after),
        new_numerals(k1_before, k1_after) == new_numerals(k2_before, k2_after),
        r1 is Ok <==> r2 is Ok,
        ps_of(c1) == ps_of(c2),
{
}

/// The parser state of `c`.
pub open spec fn ps_of(c: Compiler) -> PState {
    (c.scanner.current, c.scanner.line, c.parser.current, c.parser.previous)
}

/// The step that left compiler `c1`, chunk `k1` (from `k0`) and result `r` is `o`.
pub open spec fn follows(o: Outcome, c1: Compiler, k0: Chunk, k1: Chunk, r: VoidResult) -> bool {
    &&& ps_of(c1) == o.0
    &&& appended(k0, k1) == o.1
    &&& new_numerals(k0, k1) == o.2
    &&& (r is Ok <==> o.3 is None)
    &&& r is Err ==> reports(r->Err_0, failure_token(o.3), c1.scanner.source@, failure_message(o.3))
}

/// Where a diagnostic points.
#[derive(Clone, Debug, PartialEq, Eq)]
pub enum ErrorLocation {
    /// At the end of the input.
    AtEnd,
    /// At the token that covers these characters.
    AtLexeme { lexeme: Vec<char> },
    /// Nowhere in particular: the token itself carries a lexical error.
    Unplaced,
}

/// The first error of a compile, as a diagnostic shows it:
/// `[line <line>] Error<location>: <message>`.
#[derive(Clone, Debug, PartialEq, Eq)]
pub struct ParsingError {
    pub line: usize,
    pub location: ErrorLocation,
    pub message: String,
}

pub type VoidResult = Result<(), ParsingError>;

/// `e` is the diagnostic for `message` at token `t` of source `src`.
pub open spec fn reports(e: ParsingError, t: Token, src: Seq<char>, message: Seq<char>) -> bool {
    &&& e.line == t.line
    &&& e.message@ == message
    &&& match t.token_type {
        TokenType::Eof => e.location is AtEnd,
        TokenType::Error => e.location is Unplaced,
        _ => e.location is AtLexeme && e.location->lexeme@ == src.subrange(
            t.start as int,
            t.start + t.length,
        ),
    }
}

pub open spec fn op_refers_within(op: OpCode, n: int) -> bool {
    op is Const ==> op->const_idx < n
}

/// `b` is `a` with instructions and constants appended; the new instructions refer
/// to constants of the pool, and the new constants are numerals.
pub open spec fn grows(a: Chunk, b: Chunk) -> bool {
    &&& a.code@.len() <= b.code@.len()
    &&& b.code@.subrange(0, a.code@.len() as int) == a.code@
    &&& a.constants@.len() <= b.constants@.len()
    &&& b.constants@.subrange(0, a.constants@.len() as int) == a.constants@
    &&& forall|i: int|
        a.code@.len() <= i < b.code@.len() ==> op_refers_within(
            #[trigger] b.code@[i],
            b.constants@.len() as int,
        )
    &&& forall|j: int|
        a.constants@.len() <= j < b.constants@.len() ==> (#[trigger] b.constants@[j]).is_numeral_value()
}

/// The instructions that `b` has beyond `a`.
pub open spec fn appended(a: Chunk, b: Chunk) -> Seq<OpCode> {
    b.code@.subrange(a.code@.len() as int, b.code@.len() as int)
}

proof fn lemma_grows_refl(a: Chunk)
    ensures
        grows(a, a),
        appended(a, a) == Seq::<OpCode>::empty(),
        new_numerals(a, a) == Seq::<Seq<char>>::empty(),
{
    assert(new_numerals(a, a) =~= Seq::<Seq<char>>::empty());
    assert(a.code@.subrange(0, a.code@.len() as int) =~= a.code@);
    assert(a.constants@.subrange(0, a.constants@.len() as int) =~= a.constants@);
    assert(appended(a, a) =~= Seq::<OpCode>::empty());
}

proof fn lemma_grows_trans(a: Chunk, b: Chunk, c: Chunk)
    requires
        grows(a, b),
        grows(b, c),
    ensures
        grows(a, c),
        appended(a, c) == appended(a, b) + appended(b, c),
{
    assert(c.code@.subrange(0, a.code@.len() as int) =~= a.code@) by {
        assert(c.code@.subrange(0, a.code@.len() as int) =~= b.code@.subrange(
            0,
            a.code@.len() as int,
        ));
    }
    assert(c.constants@.subrange(0, a.constants@.len() as int) =~= a.constants@) by {
        assert(c.constants@.subrange(0, a.constants@.len() as int) =~= b.constants@.subrange(
            0,
            a.constants@.len() as int,
        ));
    }
    assert forall|i: int| a.code@.len() <= i < c.code@.len() implies op_refers_within(
        #[trigger] c.code@[i],
        c.constants@.len() as int,
    ) by {
        if i < b.code@.len() {
            assert(c.code@[i] == c.code@.subrange(0, b.code@.len() as int)[i]);
            assert(op_refers_within(b.code@[i], b.constants@.len() as int));
        }
    }
    assert forall|j: int| a.constants@.len() <= j < c.constants@.len() implies (
    #[trigger] c.constants@[j]).is_numeral_value() by {
        if j < b.constants@.len() {
            assert(c.constants@[j] == c.constants@.subrange(0, b.constants@.len() as int)[j]);
            assert(b.constants@[j].is_numeral_value());
        }
    }
    assert(appended(a, c) =~= appended(a, b) + appended(b, c));
}

/// The parsing routines a trace names.
#[derive(Clone, Copy, Debug, PartialEq, Eq, Structural)]
pub enum Handler {
    Expression,
    Number,
    Grouping,
    Unary,
    Binary,
}

/// One step of a compile, recorded when the compiler traces.
#[derive(Clone, Copy, Debug, PartialEq, Eq, Structural)]
pub enum TraceEvent {
    /// The cursor moved on; these are its two tokens afterwards.
    Advanced { current: Token, previous: Option<Token> },
    /// A handler was entered.
    Called { handler: Handler },
    /// The climbing engine was entered with this minimum precedence.
    ParsePrecedence { precedence: Precedence },
    /// The infix loop went round once more: the operator in line binds at `current`.
    InfixLoop { precedence: Precedence, current: Precedence },
    /// An instruction went to the chunk.
    Emitted { op: OpCode },
}

/// The two live tokens: the one just consumed and the one next in line.
pub struct Parser {
    pub current: Option<Token>,
    pub previous: Option<Token>,
}

impl Parser {
    pub fn new() -> (p: Parser)
        ensures
            p.current is None,
            p.previous is None,
    {
        Parser { current: None, previous: None }
    }
}

/// Compiles one expression of a source text into a chunk of bytecode.
pub struct Compiler {
    pub parser: Parser,
    pub scanner: Scanner,
    pub debug_mode: bool,
    pub trace: Vec<TraceEvent>,
}

impl Compiler {
    /// The text being compiled.
    pub open spec fn source(&self) -> Seq<char> {
        self.scanner.source@
    }

    /// The token next in line, once the cursor has been primed.
    pub open spec fn current_token(&self) -> Option<Token> {
        self.parser.current
    }

    /// The token consumed last.
    pub open spec fn previous_token(&self) -> Option<Token> {
        self.parser.previous
    }

    /// The compiler was asked to trace its steps.
    pub open spec fn traced(&self) -> bool {
        self.debug_mode
    }

    /// The steps recorded so far.
    pub open spec fn trace_log(&self) -> Seq<TraceEvent> {
        self.trace@
    }

    /// The same compiler state, with perhaps more steps recorded.
    pub open spec fn same_state(&self, other: &Compiler) -> bool {
        &&& other.parser == self.parser
        &&& other.scanner == self.scanner
        &&& other.debug_mode == self.debug_mode
        &&& !self.debug_mode ==> other.trace@ == self.trace@
    }

    /// The part of the source the scanner has not read yet.
    pub open spec fn unread(&self) -> Seq<char> {
        self.scanner.source@.subrange(self.scanner.current as int, self.scanner.source.len() as int)
    }

    /// The scanner has handed out its last token.
    pub open spec fn at_end(&self) -> bool {
        self.scanner.current == self.scanner.source.len()
    }

    /// The live tokens lie within the source; `Eof` comes only at its end.
    pub open spec fn wf(&self) -> bool {
        &&& self.scanner.wf()
        &&& self.parser.current is Some ==> self.parser.current->0.wf_in(self.source())
        &&& self.parser.previous is Some ==> self.parser.previous->0.wf_in(self.source())
        &&& self.parser.current is Some && self.parser.current->0.token_type == TokenType::Eof
            ==> self.at_end()
    }

    /// Bounds the work left: every advance past a token other than `Eof` lowers it.
    pub open spec fn fuel(&self) -> nat {
        (2 * (self.scanner.source.len() - self.scanner.current) + if self.parser.current is Some
            && self.parser.current->0.token_type == TokenType::Eof {
            0int
        } else {
            1int
        }) as nat
    }

    /// What every step of a compile keeps: the source, the well-formedness, a token in
    /// line, and work that never grows.
    pub open spec fn steps_to(&self, next: &Compiler) -> bool {
        &&& next.wf()
        &&& next.source() == self.source()
        &&& next.parser.current is Some
        &&& next.fuel() <= self.fuel()
        &&& self.parser.current is Some ==> next.parser.previous is Some
        &&& next.debug_mode == self.debug_mode
        &&& !self.debug_mode ==> next.trace@ == self.trace@
    }

    pub fn from_source(source: String, debug_mode: bool) -> (c: Self)
        ensures
            c.wf(),
            c.source() == source@,
            c.traced() == debug_mode,
            c.unread() == source@,
            c.scanner.line == 1,
            ps_of(c) == (0usize, 1usize, Option::<Token>::None, Option::<Token>::None),
            c.current_token() is None,
            c.previous_token() is None,
            c.trace_log().len() == 0,
    {
        let scanner = Scanner::new(source);
        let parser = Parser::new();
        let c = Compiler { parser, scanner, debug_mode, trace: Vec::new() };
        proof {
            assert(c.unread() =~= c.source());
        }
        c
    }

    /// Whether the compiler was asked to trace its steps.
    pub fn debug_mode(&self) -> (r: bool)
        ensures
            r == self.traced(),
    {
        self.debug_mode
    }

    /// Compiles the source as one expression followed by the end of the input, appending
    /// its code to `chunk`. The outcome is exactly that of `sp_compile`: the code, the
    /// numerals added to the pool, the state reached and the first error, if any. On success
    /// the appended code leaves exactly one value on the stack and the whole input has been
    /// read; on failure what was appended before the error stays.
    pub fn compile(&mut self, chunk: &mut Chunk) -> (r: VoidResult)
        requires
            old(self).wf(),
        ensures
            final(self).wf(),
            final(self).source() == old(self).source(),
            final(self).traced() == old(self).traced(),
            !old(self).traced() ==> final(self).trace_log() == old(self).trace_log(),
            grows(*old(chunk), *final(chunk)),
            r is Ok ==> height_from(appended(*old(chunk), *final(chunk)), 0) == Some(1int),
            r is Ok ==> final(self).at_end(),
            r is Ok ==> final(self).current_token()->0.token_type == TokenType::Eof,
            is_numeral(old(self).unread()) ==> {
                &&& r is Ok
                &&& appended(*old(chunk), *final(chunk)) == seq![
                    OpCode::Const {
                        line: old(self).scanner.line,
                        const_idx: old(chunk).constants@.len() as usize,
                    },
                ]
                &&& final(chunk).constants@.len() == old(chunk).constants@.len() + 1
                &&& final(chunk).constants@.last().numeral() == old(self).unread()
            },
            follows(
                sp_compile(old(self).source(), ps_of(*old(self)), old(chunk).constants@.len()),
                *final(self),
                *old(chunk),
                *final(chunk),
                r,
            ),
    {
        proof {
            lemma_grows_refl(*chunk);
        }
        let ghost entry = *chunk;
        match self.advance() {
            Err(e) => return Err(e),
            Ok(()) => {},
        }
        match self.expression(chunk) {
            Err(e) => return Err(e),
            Ok(()) => {},
        }
        proof {
            assert(entry.constants@.len() == entry.constants.len());
        }
        self.consume(TokenType::Eof, "Expected end of expression".to_string())
    }

    /// The steps recorded so far: none unless the compiler traces.
    pub fn trace(&self) -> (r: &Vec<TraceEvent>)
        ensures
            r@ == self.trace_log(),
    {
        &self.trace
    }

    /// Records `event` if the compiler traces.
    fn record(&mut self, event: TraceEvent)
        ensures
            old(self).same_state(final(self)),
            final(self).trace@ == if old(self).debug_mode {
                old(self).trace@.push(event)
            } else {
                old(self).trace@
            },
    {
        if self.debug_mode {
            self.trace.push(event);
        }
    }

    fn previous(&self) -> (r: Option<Token>)
        ensures
            r == self.parser.previous,
    {
        self.parser.previous
    }

    fn current(&self) -> (r: Option<Token>)
        ensures
            r == self.parser.current,
    {
        self.parser.current
    }

    /// Moves `current` into `previous` and takes the next token as `current`.
    /// A token that carries a lexical error is reported.
    fn advance(&mut self) -> (r: VoidResult)
        requires
            old(self).wf(),
        ensures
            old(self).steps_to(final(self)),
            final(self).parser.previous == old(self).parser.current,
            old(self).parser.current is None || old(self).parser.current->0.token_type
                != TokenType::Eof ==> final(self).fuel() < old(self).fuel(),
            r is Err <==> final(self).parser.current->0.token_type == TokenType::Error,
            r is Err ==> reports(
                r->Err_0,
                final(self).parser.current->0,
                final(self).source(),
                lex_error_text(final(self).parser.current->0.error->0),
            ),
            old(self).at_end() ==> final(self).parser.current->0.token_type == TokenType::Eof,
            ps_of(*final(self)) == sp_advance(old(self).source(), ps_of(*old(self))).0,
            r is Ok <==> sp_advance(old(self).source(), ps_of(*old(self))).1 is None,
            r is Err ==> reports(
                r->Err_0,
                failure_token(sp_advance(old(self).source(), ps_of(*old(self))).1),
                old(self).source(),
                failure_message(sp_advance(old(self).source(), ps_of(*old(self))).1),
            ),
            old(self).scanner.current <= final(self).parser.current->0.start,
            final(self).parser.current->0.start + final(self).parser.current->0.length
                == final(self).scanner.current,
            final(self).parser.current->0.token_type != TokenType::Eof ==> kind_fits(
                final(self).source(),
                final(self).parser.current->0,
            ),
            is_numeral(old(self).unread()) ==> {
                &&& final(self).parser.current->0.token_type == TokenType::Number
                &&& final(self).parser.current->0.line == old(self).scanner.line
                &&& final(self).parser.current->0.start == old(self).scanner.current
                &&& final(self).parser.current->0.start + final(self).parser.current->0.length
                    == final(self).source().len()
                &&& final(self).at_end()
            },
    {
        self.parser.previous = self.parser.current;
        let new_token = self.scanner.scan_token();
        self.parser.current = Some(new_token);
        self.record(TraceEvent::Advanced { current: new_token, previous: self.parser.previous });
        match new_token.error {
            Some(e) => self.error_at_current(e.text()),
            None => Ok(()),
        }
    }

    fn error_at_current(&self, message: String) -> (r: VoidResult)
        requires
            self.parser.current is Some,
            self.parser.current->0.start + self.parser.current->0.length <= self.source().len(),
        ensures
            r is Err,
            reports(r->Err_0, self.parser.current->0, self.source(), message@),
    {
        let t = self.parser.current.unwrap();
        self.error_at(&t, message)
    }

    fn error(&self, message: String) -> (r: VoidResult)
        requires
            self.parser.previous is Some,
            self.parser.previous->0.start + self.parser.previous->0.length <= self.source().len(),
        ensures
            r is Err,
            reports(r->Err_0, self.parser.previous->0, self.source(), message@),
    {
        let t = self.parser.previous.unwrap();
        self.error_at(&t, message)
    }

    /// The diagnostic for `message` at `token`.
    fn error_at(&self, token: &Token, message: String) -> (r: VoidResult)
        requires
            token.start + token.length <= self.source().len(),
        ensures
            r is Err,
            reports(r->Err_0, *token, self.source(), message@),
    {
        let location = match token.token_type {
            TokenType::Eof => ErrorLocation::AtEnd,
            TokenType::Error => ErrorLocation::Unplaced,
            _ => ErrorLocation::AtLexeme { lexeme: self.scanner.lexeme(token) },
        };
        Err(ParsingError { line: token.line, location, message })
    }

    fn emit_op_code(&mut self, chunk: &mut Chunk, op_code: OpCode)
        ensures
            old(self).same_state(final(self)),
            final(chunk).code@ == old(chunk).code@.push(op_code),
            final(chunk).constants@ == old(chunk).constants@,
    {
        self.record(TraceEvent::Emitted { op: op_code });
        chunk.push(op_code);
    }

    /// Adds `value` to the pool and emits the instruction that loads it.
    fn emit_const(&mut self, chunk: &mut Chunk, value: Value)
        requires
            old(self).parser.previous is Some,
        ensures
            old(self).same_state(final(self)),
            final(chunk).code@ == old(chunk).code@.push(
                OpCode::Const {
                    line: old(self).parser.previous->0.line,
                    const_idx: old(chunk).constants@.len() as usize,
                },
            ),
            final(chunk).constants@ == old(chunk).constants@.push(value),
    {
        let line = self.line();
        let const_idx = self.make_const(chunk, value);
        self.emit_op_code(chunk, OpCode::Const { line, const_idx });
    }

    fn make_const(&self, chunk: &mut Chunk, value: Value) -> (idx: usize)
        ensures
            final(chunk).code@ == old(chunk).code@,
            final(chunk).constants@ == old(chunk).constants@.push(value),
            idx == old(chunk).constants@.len(),
    {
        chunk.push_const(value)
    }

    /// The line of the token just consumed.
    fn line(&self) -> (r: usize)
        requires
            self.parser.previous is Some,
        ensures
            r == self.parser.previous->0.line,
    {
        self.previous().unwrap().line
    }

    /// The successor of `variant`; past the highest rank it starts over at `Assignment`.
    fn next_precedence(&self, variant: Precedence) -> (r: Precedence)
        ensures
            r == successor(variant),
            rank(r) == if rank(variant) < 10 {
                rank(variant) + 1
            } else {
                1
            },
    {
        match variant {
            Precedence::Lowest => Precedence::Assignment,
            Precedence::Assignment => Precedence::Or,
            Precedence::Or => Precedence::And,
            Precedence::And => Precedence::Eq,
            Precedence::Eq => Precedence::Comp,
            Precedence::Comp => Precedence::Term,
            Precedence::Term => Precedence::Factor,
            Precedence::Factor => Precedence::Unary,
            Precedence::Unary => Precedence::Call,
            Precedence::Call => Precedence::Primary,
            Precedence::Primary => Precedence::Assignment,
        }
    }

    /// The row of the rule table for `token_type`.
    fn get_rule(&self, token_type: TokenType) -> (r: ParseRule)
        ensures
            r == rule_of(token_type),
    {
        match token_type {
            TokenType::LeftParen => ParseRule {
                prefix: Some(PrefixFn::Grouping),
                infix: None,
                precedence: Precedence::Lowest,
            },
            TokenType::Minus => ParseRule {
                prefix: Some(PrefixFn::Unary),
                infix: Some(InfixFn::Binary),
                precedence: Precedence::Term,
            },
            TokenType::Plus => ParseRule {
                prefix: None,
                infix: Some(InfixFn::Binary),
                precedence: Precedence::Term,
            },
            TokenType::Slash => ParseRule {
                prefix: None,
                infix: Some(InfixFn::Binary),
                precedence: Precedence::Factor,
            },
            TokenType::Star => ParseRule {
                prefix: None,
                infix: Some(InfixFn::Binary),
                precedence: Precedence::Factor,
            },
            TokenType::Number => ParseRule {
                prefix: Some(PrefixFn::Number),
                infix: None,
                precedence: Precedence::Lowest,
            },
            _ => ParseRule { prefix: None, infix: None, precedence: Precedence::Lowest },
        }
    }

    /// One full expression, at the lowest precedence that binds.
    fn expression(&mut self, chunk: &mut Chunk) -> (r: VoidResult)
        requires
            old(self).wf(),
            old(self).parser.current is Some,
        ensures
            old(self).steps_to(final(self)),
            final(self).parser.previous is Some,
            grows(*old(chunk), *final(chunk)),
            r is Ok ==> height_from(appended(*old(chunk), *final(chunk)), 0) == Some(1int),
            r is Ok ==> rank(rule_of(final(self).parser.current->0.token_type).precedence) < rank(
                Precedence::Assignment,
            ),
            old(self).parser.current is Some && old(self).parser.current->0.token_type
                == TokenType::Number && old(self).at_end() ==> {
                &&& r is Ok
                &&& appended(*old(chunk), *final(chunk)) == seq![
                    OpCode::Const {
                        line: old(self).parser.current->0.line,
                        const_idx: old(chunk).constants@.len() as usize,
                    },
                ]
                &&& final(chunk).constants@.len() == old(chunk).constants@.len() + 1
                &&& final(chunk).constants@.last().numeral() == old(self).source().subrange(
                    old(self).parser.current->0.start as int,
                    old(self).parser.current->0.start + old(self).parser.current->0.length,
                )
                &&& final(self).parser.current->0.token_type == TokenType::Eof
            },
            old(self).parser.current is Some && rule_of(old(self).parser.current->0.token_type).prefix
                is None ==> {
                &&& r is Err
                &&& final(chunk).code@ == old(chunk).code@
                &&& final(chunk).constants@ == old(chunk).constants@
                &&& final(self).parser.previous == old(self).parser.current
                &&& final(self).parser.current->0.token_type == TokenType::Error ==> reports(
                    r->Err_0,
                    final(self).parser.current->0,
                    old(self).source(),
                    lex_error_text(final(self).parser.current->0.error->0),
                )
                &&& final(self).parser.current->0.token_type != TokenType::Error ==> reports(
                    r->Err_0,
                    old(self).parser.current->0,
                    old(self).source(),
                    "Expected expression"@,
                )
            },
            follows(sp_parse(old(self).source(), ps_of(*old(self)), Precedence::Assignment, old(chunk).constants@.len()), *final(self), *old(chunk), *final(chunk), r),
        decreases old(self).fuel(), 1nat,
    {
        self.record(TraceEvent::Called { handler: Handler::Expression });
        self.parse_precedence(chunk, Precedence::Assignment)
    }

    /// A number literal: its numeral goes to the pool and is loaded.
    fn number(&mut self, chunk: &mut Chunk) -> (r: VoidResult)
        requires
            old(self).wf(),
            old(self).parser.previous is Some,
            old(self).parser.previous->0.token_type == TokenType::Number,
        ensures
            old(self).same_state(final(self)),
            r is Ok,
            grows(*old(chunk), *final(chunk)),
            appended(*old(chunk), *final(chunk)) == seq![
                OpCode::Const {
                    line: old(self).parser.previous->0.line,
                    const_idx: old(chunk).constants@.len() as usize,
                },
            ],
            final(chunk).constants@.len() == old(chunk).constants@.len() + 1,
            final(chunk).constants@.last().numeral() == old(self).source().subrange(
                old(self).parser.previous->0.start as int,
                old(self).parser.previous->0.start + old(self).parser.previous->0.length,
            ),
            follows(sp_prefix(old(self).source(), ps_of(*old(self)), PrefixFn::Number, old(chunk).constants@.len()), *final(self), *old(chunk), *final(chunk), r),
    {
        self.record(TraceEvent::Called { handler: Handler::Number });
        let t = self.previous().unwrap();
        let numeral = self.scanner.lexeme(&t);
        self.emit_const(chunk, Value::Number(numeral));
        proof {
            let a = *old(chunk);
            let b = *chunk;
            assert(new_numerals(a, b) =~= seq![numeral@]);
            assert(b.code@.subrange(0, a.code@.len() as int) =~= a.code@);
            assert(b.constants@.subrange(0, a.constants@.len() as int) =~= a.constants@);
            assert(appended(a, b) =~= seq![
                OpCode::Const {
                    line: old(self).parser.previous->0.line,
                    const_idx: a.constants@.len() as usize,
                },
            ]);
        }
        Ok(())
    }

    /// A parenthesised expression: its own code, and nothing for the parentheses.
    fn grouping(&mut self, chunk: &mut Chunk) -> (r: VoidResult)
        requires
            old(self).wf(),
            old(self).parser.current is Some,
        ensures
            old(self).steps_to(final(self)),
            final(self).parser.previous is Some,
            grows(*old(chunk), *final(chunk)),
            r is Ok ==> height_from(appended(*old(chunk), *final(chunk)), 0) == Some(1int),
            follows(sp_grouping(old(self).source(), ps_of(*old(self)), old(chunk).constants@.len()), *final(self), *old(chunk), *final(chunk), r),
        decreases old(self).fuel(), 2nat,
    {
        self.record(TraceEvent::Called { handler: Handler::Grouping });
        match self.expression(chunk) {
            Err(e) => return Err(e),
            Ok(()) => {},
        }
        self.consume(TokenType::RightParen, "Expected ')'".to_string())
    }

    /// A prefix operator: its operand, then the operation.
    fn unary(&mut self, chunk: &mut Chunk) -> (r: VoidResult)
        requires
            old(self).wf(),
            old(self).parser.current is Some,
            old(self).parser.previous is Some,
        ensures
            old(self).steps_to(final(self)),
            final(self).parser.previous is Some,
            grows(*old(chunk), *final(chunk)),
            r is Ok ==> height_from(appended(*old(chunk), *final(chunk)), 0) == Some(1int),
            r is Ok && old(self).parser.previous->0.token_type == TokenType::Minus ==> appended(
                *old(chunk),
                *final(chunk),
            ).last() == (OpCode::Negate { line: final(self).parser.previous->0.line }),
            follows(sp_unary(old(self).source(), ps_of(*old(self)), old(chunk).constants@.len()), *final(self), *old(chunk), *final(chunk), r),
        decreases old(self).fuel(), 1nat,
    {
        let ghost start = *chunk;
        self.record(TraceEvent::Called { handler: Handler::Unary });
        let op_type = self.previous().unwrap().token_type;
        match self.parse_precedence(chunk, Precedence::Unary) {
            Err(e) => return Err(e),
            Ok(()) => {},
        }
        if op_type == TokenType::Minus {
            let ghost before = *chunk;
            let line = self.line();
            self.emit_op_code(chunk, OpCode::Negate { line });
            proof {
                let operand = appended(start, before);
                assert(appended(start, *chunk) =~= operand.push(OpCode::Negate { line }));
                assert(operand.push(OpCode::Negate { line }).drop_last() =~= operand);
                assert(chunk.code@.subrange(0, before.code@.len() as int) =~= before.code@);
                assert(chunk.code@.subrange(0, start.code@.len() as int) =~= start.code@);
                assert forall|i: int| start.code@.len() <= i < chunk.code@.len() implies op_refers_within(
                    #[trigger] chunk.code@[i],
                    chunk.constants@.len() as int,
                ) by {
                    if i < before.code@.len() {
                        assert(chunk.code@[i] == before.code@[i]);
                    }
                }
            }
        }
        Ok(())
    }

    /// An infix operator: its right operand, parsed one rank tighter so that operators
    /// of one rank group to the left, then the operation.
    fn binary(&mut self, chunk: &mut Chunk) -> (r: VoidResult)
        requires
            old(self).wf(),
            old(self).parser.current is Some,
            old(self).parser.previous is Some,
            rule_of(old(self).parser.previous->0.token_type).infix is Some,
        ensures
            old(self).steps_to(final(self)),
            final(self).parser.previous is Some,
            grows(*old(chunk), *final(chunk)),
            r is Ok ==> height_from(appended(*old(chunk), *final(chunk)), 1) == Some(1int),
            r is Ok ==> appended(*old(chunk), *final(chunk)).last() == binary_opcode(
                old(self).parser.previous->0.token_type,
                final(self).parser.previous->0.line,
            ),
            follows(sp_binary(old(self).source(), ps_of(*old(self)), old(chunk).constants@.len()), *final(self), *old(chunk), *final(chunk), r),
        decreases old(self).fuel(), 1nat,
    {
        let ghost start = *chunk;
        self.record(TraceEvent::Called { handler: Handler::Binary });
        let op_type = self.previous().unwrap().token_type;
        let rule = self.get_rule(op_type);
        let next_precedence = self.next_precedence(rule.precedence);
        match self.parse_precedence(chunk, next_precedence) {
            Err(e) => return Err(e),
            Ok(()) => {},
        }
        let ghost before = *chunk;
        let line = self.line();
        let op = match op_type {
            TokenType::Plus => OpCode::Add { line },
            TokenType::Minus => OpCode::Sub { line },
            TokenType::Slash => OpCode::Div { line },
            _ => OpCode::Mul { line },
        };
        self.emit_op_code(chunk, op);
        proof {
            let operand = appended(start, before);
            lemma_height_shift(operand, 0, 1);
            assert(appended(start, *chunk) =~= operand.push(op));
            assert(operand.push(op).drop_last() =~= operand);
            assert(chunk.code@.subrange(0, before.code@.len() as int) =~= before.code@);
            assert(chunk.code@.subrange(0, start.code@.len() as int) =~= start.code@);
            assert forall|i: int| start.code@.len() <= i < chunk.code@.len() implies op_refers_within(
                #[trigger] chunk.code@[i],
                chunk.constants@.len() as int,
            ) by {
                if i < before.code@.len() {
                    assert(chunk.code@[i] == before.code@[i]);
                }
            }
        }
        Ok(())
    }

    /// The precedence of the token in line.
    fn current_precedence(&self) -> (r: Precedence)
        requires
            self.parser.current is Some,
        ensures
            r == rule_of(self.parser.current->0.token_type).precedence,
    {
        self.get_rule(self.current().unwrap().token_type).precedence
    }

    /// One operand, then every infix operator that binds at least as tightly as
    /// `precedence` together with its right operand.
    #[verifier::rlimit(100)]
    fn parse_precedence(&mut self, chunk: &mut Chunk, precedence: Precedence) -> (r: VoidResult)
        requires
            old(self).wf(),
            old(self).parser.current is Some,
            rank(precedence) >= 1,
        ensures
            old(self).steps_to(final(self)),
            final(self).parser.previous is Some,
            grows(*old(chunk), *final(chunk)),
            r is Ok ==> height_from(appended(*old(chunk), *final(chunk)), 0) == Some(1int),
            r is Ok ==> rank(rule_of(final(self).parser.current->0.token_type).precedence) < rank(
                precedence,
            ),
            old(self).parser.current is Some && old(self).parser.current->0.token_type
                == TokenType::Number && old(self).at_end() ==> {
                &&& r is Ok
                &&& appended(*old(chunk), *final(chunk)) == seq![
                    OpCode::Const {
                        line: old(self).parser.current->0.line,
                        const_idx: old(chunk).constants@.len() as usize,
                    },
                ]
                &&& final(chunk).constants@.len() == old(chunk).constants@.len() + 1
                &&& final(chunk).constants@.last().numeral() == old(self).source().subrange(
                    old(self).parser.current->0.start as int,
                    old(self).parser.current->0.start + old(self).parser.current->0.length,
                )
                &&& final(self).parser.current->0.token_type == TokenType::Eof
            },
            old(self).parser.current is Some && rule_of(old(self).parser.current->0.token_type).prefix
                is None ==> {
                &&& r is Err
                &&& final(chunk).code@ == old(chunk).code@
                &&& final(chunk).constants@ == old(chunk).constants@
                &&& final(self).parser.previous == old(self).parser.current
                &&& final(self).parser.current->0.token_type == TokenType::Error ==> reports(
                    r->Err_0,
                    final(self).parser.current->0,
                    old(self).source(),
                    lex_error_text(final(self).parser.current->0.error->0),
                )
                &&& final(self).parser.current->0.token_type != TokenType::Error ==> reports(
                    r->Err_0,
                    old(self).parser.current->0,
                    old(self).source(),
                    "Expected expression"@,
                )
            },
            follows(sp_parse(old(self).source(), ps_of(*old(self)), precedence, old(chunk).constants@.len()), *final(self), *old(chunk), *final(chunk), r),
        decreases old(self).fuel(), 0nat,
    {
        let ghost start = *chunk;
        proof {
            lemma_grows_refl(start);
        }
        self.record(TraceEvent::ParsePrecedence { precedence });
        match self.advance() {
            Err(e) => return Err(e),
            Ok(()) => {},
        }
        let prev = self.previous().unwrap();
        let prefix = self.get_rule(prev.token_type).prefix;
        let r = match prefix {
            None => {
                return self.error("Expected expression".to_string());
            },
            Some(PrefixFn::Number) => {
                let r = self.number(chunk);
                proof {
                    let code = appended(start, *chunk);
                    assert(code.drop_last() =~= Seq::<OpCode>::empty());
                    assert(height_from(Seq::<OpCode>::empty(), 0) == Some(0int));
                }
                r
            },
            Some(PrefixFn::Grouping) => self.grouping(chunk),
            Some(PrefixFn::Unary) => self.unary(chunk),
        };
        match r {
            Err(e) => return Err(e),
            Ok(()) => {},
        }
        let ghost operand_end = *chunk;
        let ghost entry_fuel = old(self).fuel();
        let ghost src = old(self).source();
        let ghost target = sp_parse(src, ps_of(*old(self)), precedence, start.constants@.len());
        proof {
            assert(self.fuel() == ps_fuel(src, ps_of(*self)));
            assert(old(self).fuel() == ps_fuel(src, ps_of(*old(self))));
            let l = sp_infix_loop(src, ps_of(*self), precedence, chunk.constants@.len());
            assert(target == (l.0, appended(start, *chunk) + l.1, new_numerals(start, *chunk) + l.2, l.3));
        }
        let ghost lone = old(self).parser.current->0.token_type == TokenType::Number
            && old(self).at_end();
        while rank_of(precedence) <= rank_of(self.current_precedence())
            invariant
                self.wf(),
                self.source() == old(self).source(),
                self.parser.current is Some,
                self.parser.previous is Some,
                self.fuel() < entry_fuel,
                entry_fuel == old(self).fuel(),
                rank(precedence) >= 1,
                start == *old(chunk),
                rule_of(old(self).parser.current->0.token_type).prefix is Some,
                self.debug_mode == old(self).debug_mode,
                !old(self).debug_mode ==> self.trace@ == old(self).trace@,
                grows(start, *chunk),
                height_from(appended(start, *chunk), 0) == Some(1int),
                lone ==> *chunk == operand_end && self.parser.current->0.token_type
                    == TokenType::Eof,
                src == old(self).source(),
                target == sp_parse(src, ps_of(*old(self)), precedence, start.constants@.len()),
                ({
                    let l = sp_infix_loop(src, ps_of(*self), precedence, chunk.constants@.len());
                    target == (
                        l.0,
                        appended(start, *chunk) + l.1,
                        new_numerals(start, *chunk) + l.2,
                        l.3,
                    )
                }),
            decreases self.fuel(),
        {
            let ghost before = *chunk;
            let ghost ps_before = ps_of(*self);
            proof {
                assert(self.fuel() == ps_fuel(src, ps_of(*self)));
            }
            let current = self.current_precedence();
            self.record(TraceEvent::InfixLoop { precedence, current });
            match self.advance() {
                Err(e) => {
                    proof {
                        assert(appended(start, *chunk) + Seq::<OpCode>::empty() =~= appended(start, *chunk));
                    }
                    return Err(e);
                },
                Ok(()) => {},
            }
            proof {
                assert(self.fuel() == ps_fuel(src, ps_of(*self)));
            }
            let op = self.previous().unwrap();
            match self.get_rule(op.token_type).infix {
                None => {},
                Some(InfixFn::Binary) => {
                    match self.binary(chunk) {
                        Err(e) => {
                            proof {
                                lemma_grows_trans(start, before, *chunk);
                                lemma_new_numerals_trans(start, before, *chunk);
                            }
                            return Err(e);
                        },
                        Ok(()) => {},
                    }
                    proof {
                        lemma_grows_trans(start, before, *chunk);
                        lemma_new_numerals_trans(start, before, *chunk);
                        lemma_height_append(appended(start, before), appended(before, *chunk), 0);
                        assert(self.fuel() == ps_fuel(src, ps_of(*self)));
                        let a = sp_binary(src, ps_of(*self), before.constants@.len());
                        let l = sp_infix_loop(src, ps_of(*self), precedence, chunk.constants@.len());
                        assert(appended(start, *chunk) + l.1 =~= appended(start, before) + (appended(before, *chunk) + l.1));
                        assert(new_numerals(start, *chunk) + l.2 =~= new_numerals(start, before) + (new_numerals(before, *chunk) + l.2));
                    }
                },
            }
        }
        proof {
            assert(appended(start, *chunk) + Seq::<OpCode>::empty() =~= appended(start, *chunk));
            assert(new_numerals(start, *chunk) + Seq::<Seq<char>>::empty() =~= new_numerals(start, *chunk));
        }
        Ok(())
    }

    /// Advances past `current` if it is of kind `token_type`, and reports `message` if not.
    fn consume(&mut self, token_type: TokenType, message: String) -> (r: VoidResult)
        requires
            old(self).wf(),
            old(self).parser.current is Some,
            old(self).parser.previous is Some,
        ensures
            old(self).steps_to(final(self)),
            old(self).parser.current->0.token_type == token_type ==> {
                &&& final(self).parser.previous == old(self).parser.current
                &&& token_type != TokenType::Eof ==> final(self).fuel() < old(self).fuel()
                &&& (r is Err <==> final(self).parser.current->0.token_type == TokenType::Error)
                &&& r is Err ==> reports(
                    r->Err_0,
                    final(self).parser.current->0,
                    final(self).source(),
                    lex_error_text(final(self).parser.current->0.error->0),
                )
                &&& old(self).at_end() ==> final(self).parser.current->0.token_type
                    == TokenType::Eof
                &&& ps_of(*final(self)) == sp_advance(old(self).source(), ps_of(*old(self))).0
                &&& (r is Ok <==> sp_advance(old(self).source(), ps_of(*old(self))).1 is None)
                &&& r is Err ==> reports(
                    r->Err_0,
                    failure_token(sp_advance(old(self).source(), ps_of(*old(self))).1),
                    old(self).source(),
                    failure_message(sp_advance(old(self).source(), ps_of(*old(self))).1),
                )
            },
            old(self).parser.current->0.token_type != token_type ==> {
                &&& *final(self) == *old(self)
                &&& r is Err
                &&& reports(r->Err_0, old(self).parser.current->0, old(self).source(), message@)
            },
    {
        if self.parser.current.unwrap().token_type == token_type {
            self.advance()
        } else {
            self.error_at_current(message)
        }
    }
}

} // verus!
