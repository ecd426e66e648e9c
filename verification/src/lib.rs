//! The runtime of a Marzban node.
//!
//! What the node decides stands here; sockets, TLS, processes and clocks are
//! around it. The modules that end in `_laws` state what holds of it as a whole.
pub mod text;
pub mod number;
pub mod bytes;
pub mod json;
pub mod json_text;
pub mod config;
pub mod sing_box;
pub mod xray_config;
pub mod runtime;
pub mod sockets;
pub mod error;
pub mod http;
pub mod websocket;
pub mod tls;
pub mod session;
pub mod server;
pub mod logs;
pub mod text_laws;
pub mod settings_laws;
pub mod translation_laws;
pub mod selection_laws;
pub mod machine_laws;
pub mod connection_laws;
pub mod service_laws;
