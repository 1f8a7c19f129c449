//! The model runtime: configuration, weights, caches, generation and scheduling.
pub mod answering;
pub mod assign;
pub mod attention;
pub mod batch;
pub mod bits;
pub mod blank;
pub mod built;
pub mod cache;
pub mod config;
pub mod continuous;
pub mod drawing;
pub mod filed;
pub mod generate;
pub mod gguf;
pub mod gguf_loader;
pub mod gpu;
pub mod half;
pub mod headed;
pub mod heads;
pub mod kept;
pub mod layers;
pub mod loaded;
pub mod loading;
pub mod lone;
pub mod model;
pub mod naming;
pub mod network;
pub mod order;
pub mod pass;
pub mod placed;
pub mod ready;
pub mod record;
pub mod rope;
pub mod rounding;
pub mod routing;
pub mod safetensors;
pub mod sampled;
pub mod sampler;
pub mod scheduler;
pub mod speculative;
pub mod told;
pub mod transformer;
pub mod turning;
pub mod tying;
pub mod unit;
pub mod weights;
pub mod worth;
