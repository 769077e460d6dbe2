//! Verified core of the Tessivum plugin runtime.

pub mod answer_laws;
pub mod bench;
pub mod bench_laws;
pub mod capability;
pub mod catalog_drive;
pub mod catalog_emit;
pub mod catalog_events;
pub mod catalog_lifecycle;
pub mod catalog_loader;
pub mod catalog_providers;
pub mod catalog_services;
pub mod combine;
pub mod config;
pub mod config_laws;
pub mod conformance;
pub mod context;
pub mod context_laws;
pub mod decode;
pub mod dispatch;
pub mod disposal;
pub mod document;
pub mod dynamic;
pub mod engine;
pub mod entry_laws;
pub mod envelope;
pub mod error;
pub mod event_laws;
pub mod events;
pub mod expression_laws;
pub mod extism_guest;
pub mod fixture;
pub mod fixture_laws;
pub mod forms;
pub mod guest;
pub mod guest_laws;
pub mod ids;
pub mod instance;
pub mod json;
pub mod json_laws;
pub mod lifecycle;
pub mod lifecycle_laws;
pub mod listener_laws;
pub mod loader;
pub mod loader_laws;
pub mod managed;
pub mod managed_laws;
pub mod manifest;
pub mod manifest_laws;
pub mod message_laws;
pub mod module;
pub mod module_laws;
pub mod native;
pub mod native_instance;
pub mod native_update;
pub mod package;
pub mod patch;
pub mod persist;
pub mod read_laws;
pub mod reference_laws;
pub mod registry;
pub mod registry_laws;
pub mod repeat_laws;
pub mod repeats;
pub mod replace;
pub mod report;
pub mod schema;
pub mod service;
pub mod service_laws;
pub mod service_order;
pub mod text;
pub mod text_laws;
pub mod tree;
pub mod tree_laws;
pub mod wasm_runtime;
