//! The verified core of the sudo gate, its shim and the permission prompt: escaping of
//! caller-controlled bytes, the settle state machine, request parsing, the command environment,
//! and the shim's classification.

pub mod bytes;
pub mod category;
pub mod dialog;
pub mod display;
pub mod classify;
pub mod agreement;
pub mod cli;
pub mod cmdenv;
pub mod config;
pub mod envsetup;
pub mod exec;
pub mod fileinfo;
pub mod gate;
pub mod generic;
pub mod interp;
pub mod journal;
pub mod lockfile;
pub mod present;
pub mod prompt;
pub mod settle;
pub mod sys;
pub mod text;
pub mod unambiguous;
pub mod untrusted;
pub mod utf8;
