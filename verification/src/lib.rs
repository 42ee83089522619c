//! Local persistence and credential-resolution core of a desktop
//! application shell: an in-memory, single-writer store for projects,
//! chat messages, settings and one credential record, together with the
//! decision logic that resolves credentials from an OS keychain, a remote
//! validation probe and the local store.

pub mod credentials;
pub mod credjson;
pub mod ids;
pub mod laws;
pub mod netpath;
pub mod seq_lemmas;
pub mod server_config;
pub mod settings;
pub mod store;
pub mod textui;
pub mod types;
pub mod update_config;
