//! DevBind: a local development reverse proxy for `.test` domains, with an
//! embedded DNS responder, certificates from a machine-local root CA,
//! hosts-file management and dev-server auto-detection.
pub mod text;
pub mod config;
pub mod paths;
pub mod commands;
pub mod panel;
pub mod dns;
pub mod proxy;
pub mod cert;
pub mod trust;
pub mod hosts;
pub mod runner;
pub mod detect;
pub mod setup;
pub mod service;
