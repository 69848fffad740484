//! Verified core of a command line client for the Apache Tomcat Manager text API.

pub mod apps;
pub mod commands;
pub mod connection;
pub mod error;
pub mod expire;
pub mod html;
pub mod info;
pub mod json;
pub mod leaks;
pub mod machine;
pub mod number;
pub mod output;
pub mod printing;
pub mod profile_commands;
pub mod profiles;
pub mod reading;
pub mod response;
pub mod retry;
pub mod sessions;
pub mod style;
pub mod table;
pub mod text;
pub mod trace;
pub mod wait;
