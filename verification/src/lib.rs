//! Provisioning scripts for the units of a passive optical network.
//!
//! The library writes the command lines that provision a unit end to end,
//! and reads a dump of the equipment's configuration back into units.
//!
//! - [`olt`] reads and names the interfaces of the equipment.
//! - [`command`] builds command lines stage by stage, so that only whole
//!   commands can be finished.
//! - [`configuration`] holds a configuration as named sections of nested
//!   commands, and writes it as text; [`lines`] writes it line by line, and
//!   [`dump`] reads such lines. [`round_trip`] shows that what was written is
//!   read back.
//! - [`onu`] models a unit and its services; [`script`] writes the script
//!   that provisions one.
//! - [`extract`] finds the units that a dump describes, with the line
//!   grammars of [`legacy`]; [`laws`] shows that a unit is found again in
//!   the script that provisions it.
//!
//! Every function states what it returns over plain sequences of
//! characters and trees of them, and is proved to return just that.
use vstd::prelude::*;

pub mod command;
pub mod configuration;
pub mod dump;
pub mod error;
pub mod extract;
pub mod laws;
pub mod legacy;
pub mod lines;
pub mod olt;
pub mod onu;
pub mod round_trip;
pub mod script;
pub mod text;

verus! {

} // verus!
