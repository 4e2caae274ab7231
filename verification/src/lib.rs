//! A minimal build tool for C projects: a parser for the parenthesized
//! `ketchfile` notation, a validated project descriptor built from the
//! parsed tree, and an orchestrator that sequences the compiler, archiver
//! and build-script invocations a build consists of.  Every function here
//! carries a contract stating exactly what it computes.

pub mod builder;
pub mod config;
pub mod errors;
pub mod project;
pub mod serialize;
