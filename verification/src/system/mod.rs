pub mod position;
pub mod rectangle;
pub mod via;
