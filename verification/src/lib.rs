//! Request scheduling, verification and bookkeeping logic of a subnet validator.

pub mod keyed;
pub mod timed;
pub mod text;
pub mod json;
pub mod fifo;
pub mod address;
pub mod chance;
pub mod rsv;
pub mod seqs;
pub mod digest;
pub mod types;
pub mod request_pipeline;
pub mod dispatch;
pub mod incremental_runner;
pub mod relay;
pub mod work;
pub mod dispatch_pass;
pub mod response;
pub mod restoring;
pub mod laws;
pub mod results;
pub mod verification;
pub mod planning;
pub mod dslice;
pub mod staging;
pub mod completion;
pub mod submission;
pub mod capacity;
pub mod units;
pub mod delivery;
pub mod meminfo;
pub mod performance;
pub mod scoring;
pub mod dsperse_events;
pub mod stats_reporter;
pub mod rotation;
pub mod maintenance;
pub mod startup;
pub mod consistency;
pub mod simulator;
pub mod stepwise;
pub mod rounds;
pub mod response_processor;
pub mod proof_uploader;
pub mod pow_manager;
pub mod tensor;
pub mod miner_client;
pub mod wire;
