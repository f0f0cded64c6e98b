//! The decisions of a local inference stack, written on plain values.
pub mod answer;
pub mod api;
pub mod bytes;
pub mod config;
pub mod convert;
pub mod cuda;
pub mod cuda_session;
pub mod engine;
pub mod error;
pub mod gather;
pub mod ggml;
pub mod grpc;
pub mod http;
pub mod import;
pub mod infer;
pub mod json;
pub mod names;
pub mod oip;
pub mod order;
pub mod preload;
pub mod provider;
pub mod rank;
pub mod reference;
pub mod safetensors;
pub mod serve;
pub mod spans;
pub mod staging;
pub mod static_session;
pub mod static_table;
pub mod status;
pub mod stop;
pub mod text;
pub mod types;
pub mod wordpiece;
