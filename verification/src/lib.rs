use vstd::prelude::*;

pub mod audio;
pub mod backend;
pub mod clock;
pub mod cpu;
pub mod display;
pub mod entries;
pub mod fullscreen;
pub mod history;
pub mod ipc;
pub mod localtime;
pub mod network;
pub mod paths;
pub mod power;
pub mod preferences;
pub mod process;
pub mod provider;
pub mod redact;
pub mod roots;
pub mod sampler;
pub mod schedule;
pub mod service;
pub mod session;
pub mod steppers;
pub mod store;
pub mod text;
pub mod view;
pub mod watch;

verus! {
} // verus!
