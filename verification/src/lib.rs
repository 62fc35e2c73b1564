//! The decisions behind `browser-control click` and `browser-control curl`.
//!
//! Processes, files and connections to a browser stay outside: what arrives here are plain values,
//! and so is what leaves. What the library takes from `serde_json`, `regex`, `base64` and `url` is
//! stated where it is called.

pub mod arguments;
pub mod blob;
pub mod capture;
pub mod click;
pub mod curl;
pub mod headers;
pub mod html;
pub mod json;
pub mod markup;
pub mod mcp;
pub mod origin;
pub mod pattern;
pub mod targets;
pub mod text;
pub mod utf8;
