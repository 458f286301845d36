//! The logic of `th`, a helper for Teleport logins, apart from the terminal,
//! the processes and the files.
//!
//! The heart of it is the credential proxy session: a proxy is started in
//! the background, its log artifact is watched until credentials show
//! ([`watcher`]), the artifact is cut down to export statements and read as
//! credentials ([`exporter`]), and the shell profile is made to source it
//! ([`shell`]); [`session`] takes a session through these stages in order,
//! and [`reaper`] works out what a logout has to undo. Every function says
//! in its contract what it gives back, over texts as sequences of
//! characters ([`text`]); the functions named `law_..` state what holds of
//! several of them together.
//!
//! Around that stand the smaller decisions of the helper's commands: what a
//! run of a program came to ([`process`]), what `tsh` printed ([`teleport`],
//! [`roles`], [`kube`], [`database`], [`json`]), what the operator typed
//! ([`prompt`], [`number`], [`cli`]), what is configured ([`config`]),
//! whether a newer release is out ([`update`]), the arithmetic of what is
//! drawn ([`display`]), and the errors ([`error`]).

pub mod cli;
pub mod config;
pub mod database;
pub mod display;
pub mod error;
pub mod exporter;
pub mod json;
pub mod kube;
pub mod number;
pub mod process;
pub mod prompt;
pub mod reaper;
pub mod roles;
pub mod session;
pub mod shell;
pub mod teleport;
pub mod text;
pub mod update;
pub mod watcher;
