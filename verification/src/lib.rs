pub mod error;
pub mod extract;
pub mod fortune;
pub mod pattern;
pub mod rng;
pub mod rot;
pub mod strfile;
