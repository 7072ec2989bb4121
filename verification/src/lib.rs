//! Verified core of a local WebAssembly execution engine.

pub mod text;

pub mod order;

pub mod names;

pub mod path;

pub mod calendar;

pub mod clock;

pub mod digest;

pub mod failure;

pub mod signature;

pub mod scheduler;

pub mod lanes;

pub mod artifact;

pub mod request;

pub mod outcome;

pub mod guest;

pub mod runtime;

pub mod cache;

pub mod preparation;

pub mod node;

pub mod paddock;

pub mod http;

pub mod garage;

pub mod number;

pub mod bench;
