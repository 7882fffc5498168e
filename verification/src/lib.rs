//! The decisions of a package keeper: what its text files mean, which repository is
//! asked next, what an installation does step by step, and which files a removal may
//! delete. Everything here is computed from plain values; the program around it reads
//! files, runs commands and talks to the network.

pub mod batch;
pub mod cli;
pub mod commands;
pub mod compile;
pub mod control;
pub mod course_laws;
pub mod database;
pub mod depends;
pub mod deploy;
pub mod fetch;
pub mod fields;
pub mod history_laws;
pub mod image;
pub mod install;
pub mod install_laws;
pub mod install_model;
pub mod local_repo;
pub mod number;
pub mod packagekit;
pub mod paths;
pub mod receive;
pub mod receive_laws;
pub mod recipe;
pub mod remove;
pub mod repo;
pub mod run_laws;
pub mod send;
pub mod std_text;
pub mod system;
pub mod text;
pub mod text_lemmas;
pub mod upgrade;
pub mod wire;
