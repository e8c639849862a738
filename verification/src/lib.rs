//! The verified core of the `cowboy` command line.
//!
//! Every decision the command line takes about text, configuration, plans and
//! containers is made here, on plain values, with a contract. Reading files,
//! talking to Docker and painting terminals happen in the program around it.

pub mod advance;
pub mod approvals;
pub mod atomic;
pub mod choice;
pub mod compose;
pub mod confine;
pub mod container;
pub mod control;
pub mod dashboard;
pub mod depths;
pub mod diagnose;
pub mod edit;
pub mod firstrun;
pub mod gateway;
pub mod grant;
pub mod grep;
pub mod harnesses;
pub mod init;
pub mod journal;
pub mod listing;
pub mod localsock;
pub mod mcp;
pub mod models;
pub mod order;
pub mod output;
pub mod patch;
pub mod paths;
pub mod pattern;
pub mod process;
pub mod ranch;
pub mod ranch_text;
pub mod registry;
pub mod repair;
pub mod review;
pub mod roundup;
pub mod runtime;
pub mod sandbox;
pub mod search;
pub mod secrets;
pub mod session;
pub mod sessions;
pub mod setup;
pub mod shell;
pub mod skill;
pub mod text;
pub mod trust;
pub mod view;
pub mod web;
pub mod words;
pub mod worker;
pub mod workspace;
pub mod worktree;

use vstd::prelude::*;

verus! {

broadcast use vstd::string::group_string_axioms;

/// What went wrong has been reported in full: the program ends, and says no more.
#[derive(Debug, Clone, Copy)]
pub struct AlreadyReported;

impl AlreadyReported {
    /// What is said where it is shown after all.
    pub fn message(self) -> (r: &'static str)
        ensures
            r@ == "cannot continue (see the report above)"@,
    {
        "cannot continue (see the report above)"
    }
}

} // verus!
