//! Verified core of a serial boot loader and its over-the-air bundles.
//!
//! # Bundles
//!
//! [`bundle`] reads and writes the container that a board installs on itself,
//! [`layout`] says what one is on the wire and which rules its entries obey, and
//! [`apply`] decides how one is installed. [`rules`] says in its own words which
//! bundles are accepted and what they are byte by byte, and [`laws`], [`reorder`],
//! [`card`] and [`installs`] what holds of all bundles and of whole installs.
//! [`manifest`] packs a bundle from a description of what a card holds, and
//! [`upload`] judges what a board answers to one.
//!
//! # The loader
//!
//! [`device`] is the loader on the board and [`link`] the host that drives it,
//! each a state machine that takes what has happened and says what to do next.
//! [`protocol`] holds what the two share, [`listing`] the directory listings that
//! one sends the other, and [`session`] what holds of both together. [`loader`]
//! and [`exchange`] say what either does with what it is sent, and [`paths`] what a
//! path on the card names.
//!
//! # The command line
//!
//! [`cli`] turns a command into steps, [`terminal`] passes keys and output
//! through, [`completions`] finishes a shell's script, [`ports`] and [`table`]
//! print, [`hat`] reads an identification EEPROM's header and [`numbers`] what
//! was typed. [`commands`], [`figures`], [`outputs`] and [`said`] state what all of
//! that comes to.
//!
//! [`crc32`], [`order`], [`text`] and [`wire`] serve all of these.

pub mod apply;
pub mod bundle;
pub mod card;
pub mod cli;
pub mod commands;
pub mod completions;
pub mod crc32;
pub mod device;
pub mod exchange;
pub mod figures;
pub mod hat;
pub mod installs;
pub mod laws;
pub mod layout;
pub mod link;
pub mod listing;
pub mod loader;
pub mod manifest;
pub mod numbers;
pub mod order;
pub mod outputs;
pub mod paths;
pub mod ports;
pub mod protocol;
pub mod reorder;
pub mod rules;
pub mod said;
pub mod session;
pub mod table;
pub mod terminal;
pub mod text;
pub mod upload;
pub mod wire;

pub use bundle::{checksum, encode, Bundle, Entry, Error, Format, Role};
