use lox_compiler::chunk::{Chunk, OpCode, Value};
use lox_compiler::compiler::{Compiler, ErrorLocation, Handler, ParsingError, TraceEvent};

fn compile_source(source: &str) -> (Result<(), ParsingError>, Chunk) {
    let mut compiler = Compiler::from_source(source.to_string(), false);
    let mut chunk = Chunk::new();
    let result = compiler.compile(&mut chunk);
    (result, chunk)
}

fn num(text: &str) -> Value {
    Value::Number(text.chars().collect())
}

fn konst(idx: usize) -> OpCode {
    OpCode::Const { line: 1, const_idx: idx }
}

#[test]
fn single_integer_literal() {
    let (result, chunk) = compile_source("42");
    assert!(result.is_ok());
    assert_eq!(chunk.code, vec![konst(0)]);
    assert_eq!(chunk.constants, vec![num("42")]);
}

#[test]
fn single_fractional_literal() {
    let (result, chunk) = compile_source("3.25");
    assert!(result.is_ok());
    assert_eq!(chunk.code, vec![konst(0)]);
    assert_eq!(chunk.constants, vec![num("3.25")]);
}

#[test]
fn literal_surrounded_by_blanks() {
    let (result, chunk) = compile_source("  \t7  ");
    assert!(result.is_ok());
    assert_eq!(chunk.code, vec![konst(0)]);
    assert_eq!(chunk.constants, vec![num("7")]);
}

#[test]
fn addition() {
    let (result, chunk) = compile_source("1 + 2");
    assert!(result.is_ok());
    assert_eq!(chunk.code, vec![konst(0), konst(1), OpCode::Add { line: 1 }]);
    assert_eq!(chunk.constants, vec![num("1"), num("2")]);
}

#[test]
fn subtraction_groups_to_the_left() {
    let (result, chunk) = compile_source("1 - 2 - 3");
    assert!(result.is_ok());
    assert_eq!(
        chunk.code,
        vec![konst(0), konst(1), OpCode::Sub { line: 1 }, konst(2), OpCode::Sub { line: 1 }]
    );
    assert_eq!(chunk.constants, vec![num("1"), num("2"), num("3")]);
}

#[test]
fn multiplication_binds_tighter_than_addition() {
    let (result, chunk) = compile_source("1 + 2 * 3");
    assert!(result.is_ok());
    assert_eq!(
        chunk.code,
        vec![konst(0), konst(1), konst(2), OpCode::Mul { line: 1 }, OpCode::Add { line: 1 }]
    );
}

#[test]
fn division_and_multiplication_group_to_the_left() {
    let (result, chunk) = compile_source("8 / 4 * 2");
    assert!(result.is_ok());
    assert_eq!(
        chunk.code,
        vec![konst(0), konst(1), OpCode::Div { line: 1 }, konst(2), OpCode::Mul { line: 1 }]
    );
}

#[test]
fn parentheses_override_precedence() {
    let (result, chunk) = compile_source("(1 + 2) * 3");
    assert!(result.is_ok());
    assert_eq!(
        chunk.code,
        vec![konst(0), konst(1), OpCode::Add { line: 1 }, konst(2), OpCode::Mul { line: 1 }]
    );
}

#[test]
fn negation_of_literal() {
    let (result, chunk) = compile_source("-1");
    assert!(result.is_ok());
    assert_eq!(chunk.code, vec![konst(0), OpCode::Negate { line: 1 }]);
}

#[test]
fn negation_of_group() {
    let (result, chunk) = compile_source("-(1+2)");
    assert!(result.is_ok());
    assert_eq!(
        chunk.code,
        vec![konst(0), konst(1), OpCode::Add { line: 1 }, OpCode::Negate { line: 1 }]
    );
}

#[test]
fn negation_binds_tighter_than_addition() {
    let (result, chunk) = compile_source("-1 + 2");
    assert!(result.is_ok());
    assert_eq!(
        chunk.code,
        vec![konst(0), OpCode::Negate { line: 1 }, konst(1), OpCode::Add { line: 1 }]
    );
}

#[test]
fn binary_operator_takes_line_of_last_token() {
    let (result, chunk) = compile_source("1 +\n2");
    assert!(result.is_ok());
    assert_eq!(
        chunk.code,
        vec![
            OpCode::Const { line: 1, const_idx: 0 },
            OpCode::Const { line: 2, const_idx: 1 },
            OpCode::Add { line: 2 },
        ]
    );
}

#[test]
fn unterminated_group_fails_at_end() {
    let (result, chunk) = compile_source("(1 + 2");
    let e = result.unwrap_err();
    assert_eq!(e.location, ErrorLocation::AtEnd);
    assert_eq!(e.message, "Expected ')'");
    assert_eq!(e.line, 1);
    // the code emitted before the error stays
    assert_eq!(chunk.code, vec![konst(0), konst(1), OpCode::Add { line: 1 }]);
    assert_eq!(chunk.constants, vec![num("1"), num("2")]);
}

#[test]
fn trailing_input_fails() {
    let (result, chunk) = compile_source("1 2");
    let e = result.unwrap_err();
    assert_eq!(e.message, "Expected end of expression");
    assert_eq!(e.location, ErrorLocation::AtLexeme { lexeme: vec!['2'] });
    // what was emitted before the error stays
    assert_eq!(chunk.code, vec![konst(0)]);
}

#[test]
fn leading_operator_fails() {
    let (result, chunk) = compile_source("* 1");
    let e = result.unwrap_err();
    assert_eq!(e.message, "Expected expression");
    assert_eq!(e.location, ErrorLocation::AtLexeme { lexeme: vec!['*'] });
    assert!(chunk.code.is_empty());
}

#[test]
fn empty_source_fails_at_end() {
    let (result, _) = compile_source("");
    let e = result.unwrap_err();
    assert_eq!(e.message, "Expected expression");
    assert_eq!(e.location, ErrorLocation::AtEnd);
}

#[test]
fn unexpected_character_is_reported_unplaced() {
    let (result, _) = compile_source("1 + #");
    let e = result.unwrap_err();
    assert_eq!(e.message, "Unexpected character.");
    assert_eq!(e.location, ErrorLocation::Unplaced);
}

#[test]
fn unterminated_string_is_reported() {
    let (result, _) = compile_source("\"abc");
    let e = result.unwrap_err();
    assert_eq!(e.message, "Unterminated string.");
    assert_eq!(e.location, ErrorLocation::Unplaced);
}

#[test]
fn token_without_prefix_rule_fails() {
    let (result, _) = compile_source("var");
    let e = result.unwrap_err();
    assert_eq!(e.message, "Expected expression");
    assert_eq!(e.location, ErrorLocation::AtLexeme { lexeme: "var".chars().collect() });
}

#[test]
fn error_line_follows_line_breaks() {
    let (result, _) = compile_source("1 +\n\n*");
    let e = result.unwrap_err();
    assert_eq!(e.line, 3);
    assert_eq!(e.message, "Expected expression");
}

#[test]
fn comment_is_skipped() {
    let (result, chunk) = compile_source("2 // a note");
    assert!(result.is_ok());
    assert_eq!(chunk.code, vec![konst(0)]);
}

#[test]
fn compiling_twice_gives_the_same_chunk() {
    let source = "(1 + 2.5) * -3 / 4 - 5";
    let (first, chunk_a) = compile_source(source);
    let (second, chunk_b) = compile_source(source);
    assert!(first.is_ok() && second.is_ok());
    assert_eq!(chunk_a.code, chunk_b.code);
    assert_eq!(chunk_a.constants, chunk_b.constants);
}

#[test]
fn compile_appends_to_a_used_chunk() {
    let mut chunk = Chunk::new();
    let mut first = Compiler::from_source("1".to_string(), false);
    assert!(first.compile(&mut chunk).is_ok());
    let mut second = Compiler::from_source("2 * 3".to_string(), true);
    assert!(second.debug_mode());
    assert!(second.compile(&mut chunk).is_ok());
    assert_eq!(
        chunk.code,
        vec![konst(0), konst(1), konst(2), OpCode::Mul { line: 1 }]
    );
    assert_eq!(chunk.constants, vec![num("1"), num("2"), num("3")]);
}

#[test]
fn trace_is_recorded_only_when_asked() {
    let mut quiet = Compiler::from_source("1 + 2".to_string(), false);
    let mut chunk = Chunk::new();
    assert!(quiet.compile(&mut chunk).is_ok());
    assert!(quiet.trace().is_empty());

    let mut verbose = Compiler::from_source("1 + 2".to_string(), true);
    let mut traced_chunk = Chunk::new();
    assert!(verbose.compile(&mut traced_chunk).is_ok());
    assert_eq!(traced_chunk.code, chunk.code);
    let trace = verbose.trace();
    assert!(trace.contains(&TraceEvent::Called { handler: Handler::Binary }));
    assert!(trace.contains(&TraceEvent::Emitted { op: OpCode::Add { line: 1 } }));
    let advances = trace
        .iter()
        .filter(|e| matches!(e, TraceEvent::Advanced { .. }))
        .count();
    // priming, then past "1", "+" and "2", then past the end of the input
    assert_eq!(advances, 5);
}
