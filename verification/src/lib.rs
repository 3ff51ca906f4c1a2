//! Jarman: finds the build scripts of the projects listed in a path file,
//! and keeps the path file, the build logs and the answers to the web
//! front end consistent.
pub mod text;
pub mod files;
pub mod pattern;
pub mod project;
pub mod cors;
pub mod install;
