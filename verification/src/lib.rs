//! Verified core of a dedicated-server manager: text handling, item
//! catalog validation, ordering and diffing (with the laws that hold of
//! them), battlegroup status and component health, message-queue payloads,
//! the admin API's request checks and the order of its handlers' steps,
//! and the player and specialization rules.
use vstd::prelude::*;

pub mod text;
pub mod clock;
pub mod json;
pub mod catalog;
pub mod catalog_laws;
pub mod players;
pub mod admin;
pub mod battlegroup;
pub mod remote;
pub mod paths;
pub mod mq;
pub mod status;
pub mod components;
pub mod flow;
pub mod handlers;

verus! {
} // verus!
