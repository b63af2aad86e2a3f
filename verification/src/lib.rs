//! eusei: the verified core of an HTTP/JSON gateway to the SEI SOAP web services.

pub mod text;
pub mod envelope;
pub mod json;
pub mod error;
pub mod xml;
pub mod order;
pub mod cache;
pub mod config;
pub mod auth;
pub mod client;
pub mod sei;
pub mod andamentos;
pub mod timeline;
pub mod documentos;
pub mod consultas;
pub mod listas;
