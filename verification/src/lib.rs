//! Discovery, caching and swap engine for per-user game-save profiles.
//!
//! A game client keeps, under its data root, one directory for each user
//! profile and in it one directory for each game. This crate finds the
//! profiles, tells which games each of them owns, and copies the data of
//! chosen games from one profile to others, keeping what it overwrites as a
//! backup under a directory of the data root set apart for that.
//!
//! The crate decides; it does not touch the disk. Whoever uses it reads the
//! disk into the plain values that the functions take, and carries out the
//! disk operations that the swap transaction asks for.
//!
//! - [`catalog`] builds the library index from the decoded catalog, and
//!   [`cache`] keeps it for as long as the catalog file is unchanged.
//! - [`fields`] reads names out of the client's small text files.
//! - [`games`] tells which games a profile owns, and [`discovery`] which
//!   directories are profiles and in which order they are shown.
//! - [`summary`] sizes up a swap before it is made, and [`swap`] is the
//!   transaction itself; [`swap_model`] states what the transaction does to
//!   a disk.
//! - [`guard`] tells whether one of the games is running.
//! - [`install`] finds the installation and knows the layout of its
//!   directories.
//! - [`order`], [`text`] and [`time`] hold what the others share: stable
//!   sorting, work on characters, and points in time.

pub mod cache;
pub mod catalog;
pub mod discovery;
pub mod fields;
pub mod games;
pub mod guard;
pub mod install;
pub mod order;
pub mod summary;
pub mod swap;
pub mod swap_model;
pub mod text;
pub mod time;
