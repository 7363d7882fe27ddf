//! Plix kernel core: the Auralattice message fabric, prototype authentication,
//! the user-centric Everyfile tree, the driver registry, the command line and
//! the freestanding memory routines, modelled as safe data with verified contracts.

pub mod cstr;
pub mod auralattice;
pub mod auth;
pub mod everyfile;
pub mod driver;
pub mod memory;
pub mod cli;
pub mod kernel;
