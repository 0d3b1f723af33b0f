//! A small-register quantum-circuit simulator core.
//!
//! A register's state is a vector of complex amplitudes held in fixed-point
//! form: one real unit is `complex::SCALE` fixed-point units.  Gates are
//! unitary operators bound to a qubit width; applying a gate tensor-expands
//! its operator to the register's full dimension and left-multiplies the
//! amplitude vector.  Measurement collapses the state to a basis vector drawn
//! according to the Born rule.

pub mod complex;
pub mod computer;
pub mod gate;
pub mod gates;
pub mod ket;
pub mod laws;
pub mod matrix;
