pub mod error;
pub mod house;
pub mod providers;
