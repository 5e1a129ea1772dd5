//! Aether: local-first voice assistant — the verified core logic.

// Shared by both nodes.
pub mod text;
pub mod trie;
pub mod types;

// The brain.
pub mod catalog;
pub mod dispatch;
pub mod history;
pub mod ingest;
pub mod music;
pub mod navidrome;
pub mod pair;
pub mod pipeline;
pub mod session;
pub mod skills;
pub mod training;
pub mod tts;
pub mod updates;
pub mod web_ui;

// The edge nodes.
pub mod brain_conn;
pub mod device_discovery;
pub mod edge_loop;
pub mod gpio;
pub mod kill_signal;
pub mod playback;
pub mod sse;
