//! The control interface: what is reported, and what requests ask for.

pub mod http;
pub mod json;
pub mod method;
pub mod params;
pub mod publish;
pub mod report;
pub mod request;
pub mod state;
