pub mod evaluation;
pub mod player;
pub mod search;
pub mod tt;
