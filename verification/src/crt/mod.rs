pub mod divmod;
pub mod shift;
