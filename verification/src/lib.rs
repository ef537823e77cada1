//! Symbolic scalar and matrix expressions for qudit circuits, with exact
//! rational constants.

pub mod constant;
pub mod expression;
pub mod varmap;
pub mod derivative;
pub mod variables;
pub mod zero_one;
pub mod complex;
pub mod cisc;
pub mod text;
pub mod prefix_text;
pub mod radices;
pub mod unitary;
pub mod products;
pub mod qasm;
pub mod system;
pub mod ket;
pub mod directive;
pub mod laws;
pub mod value;
pub mod calculus;
pub mod tensor;
pub mod bra;
pub mod kraus;
