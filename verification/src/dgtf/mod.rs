pub mod text;
pub mod spritesheet;
