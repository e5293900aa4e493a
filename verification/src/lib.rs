pub mod digest;
pub mod job_description;
pub mod job_transfer;
pub mod lex;
pub mod queue;
pub mod upload;
pub mod wire;
