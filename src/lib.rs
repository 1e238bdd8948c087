pub mod codec;
pub mod id_generator;
pub mod existence_cache;
pub mod store;
pub mod orchestrator;
pub mod settings;
