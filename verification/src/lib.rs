pub mod buffer;
pub mod form;
pub mod hasher;
pub mod plot;
pub mod poc_hashing;
pub mod scheduler;
pub mod segments;
pub mod shabal256;
pub mod writer;
