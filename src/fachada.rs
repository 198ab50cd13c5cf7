//! The front of the restaurant.

pub mod recepcion;
