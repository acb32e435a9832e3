//! Core of a single-directory file-sharing service: credential checks, the
//! login handshake, safe resolution of requested file names, the directory
//! fingerprint that keys the archive cache, and the archive plan.

pub mod archive;
pub mod auth;
pub mod fingerprint;
pub mod login;
pub mod models;
pub mod pages;
pub mod text;
pub mod paths;
