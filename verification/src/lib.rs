//! An arithmetic-expression evaluator front end.
//!
//! A textual formula made of the binary operators `+ - * / % ^ ~`, nested
//! parentheses, and decimal or `#`-prefixed hexadecimal literals is scanned
//! into a flat sequence of tokens, which a precedence resolver then collapses
//! in place into a single expression tree.  The numeric folding of the
//! finished tree works on floating-point values and therefore lives with the
//! embedding program; everything up to that point is verified here.

mod ast;
mod chars;
mod resolver;
mod tokenizer;
mod laws;

pub use ast::ExprModel;
pub use ast::Expression;
pub use ast::Group;
pub use ast::OpKind;
pub use ast::OpParams;
pub use ast::ParseError;
pub use ast::Side;
pub use ast::Tier;
pub use ast::model;
pub use ast::seq_model;
pub use ast::tier_of;
pub use chars::dec_string;
pub use chars::hex_val;
pub use chars::is_decimal_digit;
pub use chars::is_hex_digit;
pub use chars::is_space;
pub use chars::to_decimal;
pub use resolver::first_pending;
pub use resolver::is_pending_of;
pub use resolver::resolve_spec;
pub use resolver::resolve_tier;
pub use resolver::step_at;
pub use tokenizer::find_close;
pub use tokenizer::hex_end;
pub use tokenizer::num_end;
pub use tokenizer::op_char;
pub use tokenizer::tokenize;
pub use tokenizer::tokenize_spec;
pub use laws::is_decimal_literal;
pub use laws::lemma_group_wraps_tokens;
pub use laws::lemma_hex_literal_token;
pub use laws::lemma_leading_sign_gets_zero_operand;
pub use laws::lemma_lower_tier_binds_later;
pub use laws::lemma_plain_literal_scans_whole;
pub use laws::lemma_same_tier_is_left_associative;
