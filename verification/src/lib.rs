//! Verified core of the Esotereel editor's host helpers: the values handed
//! across the C boundary, the error codes of the GUI helper, the server's
//! bookkeeping of what each client watches, and the planning of the messages
//! and commands that travel between client and server.

pub mod ids;
pub mod ffi_string;
pub mod model;
pub mod layer_rows;
pub mod client_views;
pub mod dispatch;
pub mod ffi_values;
pub mod error_code;
pub mod commands;
pub mod text_order;
pub mod field_value;
pub mod server;
pub mod client;
pub mod settings;
pub mod toolbar;
pub mod framing;
pub mod registry;
pub mod laws;
pub mod cxxqt_value;
pub mod lookups;
