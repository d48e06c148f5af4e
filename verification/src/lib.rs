//! Client-side building blocks of a match runner.
//!
//! A match runner fetches its work from a tournament service, unpacks and
//! packs bot files, and reports results back. This library holds the rules
//! of that work and proves them; it never touches the network or the disk
//! itself.
//!
//! * [`paths`]: structural paths and the relativizer.
//! * [`archive`]: sessions that assemble an archive from what the caller
//!   reads for them; [`walk`] states what a whole session achieves, and
//!   [`zip_writer`] holds the archive writer and what is assumed of it.
//! * [`api`], [`aiarena_api_client`], [`sc2_controller_client`]: what the
//!   clients send and how they read the answers.
//! * [`retry`]: when a request is repeated.
//! * [`text`], [`urls`]: searching text, and reading URLs.

pub mod aiarena_api_client;
pub mod api;
pub mod archive;
pub mod paths;
pub mod retry;
pub mod sc2_controller_client;
pub mod text;
pub mod urls;
pub mod walk;
pub mod zip_writer;
