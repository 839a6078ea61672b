pub mod defrag;
pub mod duration;
