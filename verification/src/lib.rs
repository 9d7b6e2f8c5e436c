pub mod crt;
pub mod system;
pub mod dgtf;
pub mod boot;
pub mod bank_0;
