//! Packing algorithms that place items one at a time, in arrival order.

pub mod first_fit;
pub mod next_k_fit;
pub mod online_packer;

pub use online_packer::OnlinePacker;
pub use online_packer::OnlinePackerError;
