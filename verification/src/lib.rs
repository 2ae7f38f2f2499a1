//! A desk-calculator arithmetic engine.
//!
//! A calculation is a chain of operands joined by operations. Digits, the
//! decimal point, operations and the backspace edit the chain; `Equals`
//! evaluates it from left to right, in decimal arithmetic at a precision of
//! thirty significant digits. The engine shows the chain being typed and the
//! chain that was evaluated last as text.
//!
//! - [`text`] describes decimal numerals as sequences of characters.
//! - [`decimal`] holds [`decimal::Decimal`], an exact decimal number, with its
//!   numeral and its arithmetic.
//! - [`backend`] makes the calls into the arithmetic crate.
//! - [`numeric_value`] holds the number being typed.
//! - [`calculation`] holds the chain and what each input does to it.
//! - [`event`] names the inputs and hands each to the calculation.
//! - [`laws`] proves what holds of the engine whatever is typed.

pub mod backend;
pub mod calculation;
pub mod decimal;
pub mod event;
pub mod laws;
pub mod numeric_value;
pub mod text;
