//! Packing algorithms that see the whole item collection upfront and may
//! preprocess it before placing anything.

pub mod first_fit_decreasing;
