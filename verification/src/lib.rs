use vstd::prelude::*;

pub mod text;
pub mod num;
pub mod seqs;
pub mod poller;
pub mod delta;
pub mod contracts;
pub mod db;
pub mod runtime;
pub mod helper;
pub mod config;
pub mod ipc;

verus! {

} // verus!
