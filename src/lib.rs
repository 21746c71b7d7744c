pub mod order;
pub mod table;
pub mod render;
pub mod negotiate;
pub mod prompt;
pub mod context;
