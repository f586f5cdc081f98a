pub mod ctx;
pub mod error;
pub mod fetch;
pub mod log;
pub mod pledge;
pub mod poll;
