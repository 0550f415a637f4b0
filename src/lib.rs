pub mod envelope;
pub mod target;
pub mod link;
pub mod boot;
pub mod gateway;
pub mod sync;
