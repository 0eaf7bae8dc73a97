pub mod order;
pub mod parse;
pub mod series;
pub mod stats;
