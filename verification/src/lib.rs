//! A minimal worker for the governed work of the infernal-law kernel.
//!
//! The worker claims its own eligible work, oldest first, reads the request behind
//! the route that it claimed, executes it (what a request means is not for this
//! worker to know, so it is acknowledged and no more), and completes it through the
//! kernel. It owns no authoritative state: the kernel alone decides whether a claim
//! or a completion succeeds, and a refusal is something to accept, not a failure.
//!
//! Everything that is decided or computed on the way stands here, with contracts:
//! - [`worker`] and [`work_loop`]: one pass, and the loop around it;
//! - [`session`]: which calls a pass can make;
//! - [`kernel_client`]: what each call asks for, and how its answer is read;
//! - [`routes`], [`claims`], [`routed_request`], [`instance_lease`]: the kernel's
//!   answers, record by record, on top of [`json`] and the table in [`wire`];
//! - [`startup`]: from the environment to a process that is ready to work, on top of
//!   [`config`] and [`enrollment`];
//! - [`health`]: the answers to probes;
//! - [`clock`], [`text`], [`error`]: what the others share.
//!
//! Signing, sending, sleeping and listening are left to the process around it.

pub mod claims;
pub mod clock;
pub mod config;
pub mod enrollment;
pub mod error;
pub mod health;
pub mod instance_lease;
pub mod json;
pub mod kernel_client;
pub mod routed_request;
pub mod routes;
pub mod session;
pub mod startup;
pub mod text;
pub mod wire;
pub mod work_loop;
pub mod worker;

pub use crate::config::Config;
pub use crate::instance_lease::InstanceLease;
