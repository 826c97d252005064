//! Finite-element operator building blocks with machine-checked contracts.

pub mod basis;
pub mod context_laws;
pub mod cpu;
pub mod csr;
pub mod csr_laws;
pub mod elem_restriction;
pub mod enums;
pub mod error;
pub mod exact;
pub mod index;
pub mod linear;
pub mod matrix;
pub mod operator;
pub mod qfunction;
pub mod qfunction_context;
pub mod reed;
pub mod scalar;
pub mod text;
pub mod types;
pub mod vector;
