use vstd::prelude::*;

pub mod text;
pub mod pattern;
pub mod table;
pub mod error;
pub mod status;
pub mod format;
pub mod parse;
pub mod device;
pub mod rpc;
pub mod vxi11;
pub mod portmap;
pub mod time;
pub mod trigger;
pub mod clock;
pub mod crucible_error;
pub mod formula;
pub mod unit;
pub mod perfil;
pub mod modelo;
pub mod protocolo;
pub mod banco;
pub mod instrument;
pub mod bench;
pub mod cli;
pub mod discovery;

verus! {
} // verus!
