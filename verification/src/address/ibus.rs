//! The address of the bus that the IBus daemon runs.
//!
//! IBus does not publish its address in the environment: it is asked for it
//! with the command `ibus address`, which prints the address on a line of its
//! own. Running the command is left to the caller; what is made of its
//! outcome is decided here.

use std::collections::HashMap;
use vstd::prelude::*;
use vstd::string::StringSliceAdditionalSpecFns;
use vstd::utf8::{decode_utf8, encode_utf8, valid_utf8};
use crate::address::parse::{address_of, entry_views, parse_usable_address, Entry};
use crate::error::Error;
use crate::text::{concat, from_utf8, trim, trimmed};

verus! {

/// The transport properties of an IBus address. There are none: the address
/// is `ibus:` and nothing else.
#[derive(Clone, Copy, Debug, PartialEq, Eq, Structural)]
pub struct Ibus;

/// How the run of `ibus address` ended.
#[derive(Clone, Debug, PartialEq, Eq)]
pub enum CommandOutcome {
    /// The command could not be run; the text says why.
    NotRun(String),
    /// The command ran to its end.
    Exited {
        /// It reported success.
        success: bool,
        /// Its exit status, as the platform prints it.
        status: String,
        /// What it wrote to its standard output.
        stdout: Vec<u8>,
    },
}

/// The address as text: the scheme, and no options.
pub open spec fn ibus_address() -> Seq<char> {
    "ibus:"@
}

/// The start of the error for a command that could not be run.
pub open spec fn not_run_prefix() -> Seq<char> {
    "Failed to execute ibus command: "@
}

/// The start of the error for a command that reported failure.
pub open spec fn terminated_prefix() -> Seq<char> {
    "ibus terminated with code: "@
}

/// The start of the error for output that is not text.
pub open spec fn not_text_prefix() -> Seq<char> {
    "Unable to parse ibus output as UTF-8: "@
}

impl Ibus {
    /// Create a new IBus transport.
    #[must_use]
    pub fn new() -> (r: Self)
        ensures
            r == Ibus,
    {
        Ibus
    }

    /// Reads the transport from the options of an address. The IBus
    /// transport has no options, so every set of them gives the transport.
    pub fn from_options(_opts: HashMap<&str, &str>) -> (r: Result<Self, Error>)
        ensures
            r == Ok::<Ibus, Error>(Ibus),
    {
        Ok(Ibus)
    }

    /// The address as text.
    pub fn to_string(&self) -> (r: String)
        ensures
            r@ == ibus_address(),
    {
        "ibus:".to_owned()
    }

    /// The address of the bus behind this transport, from the outcome of
    /// `ibus address`: the command's output as text, without the white space
    /// around it, read as an address. A command that did not run, that
    /// reported failure or that printed bytes which are no UTF-8 gives an
    /// address error that starts by saying which of the three it was; output
    /// that spells no address gives an address error too.
    pub fn bus_address(&self, outcome: CommandOutcome) -> (r: Result<Vec<Entry>, Error>)
        ensures
            match outcome {
                CommandOutcome::NotRun(reason) => r matches Err(Error::Address(m)) && m@
                    == not_run_prefix() + reason@,
                CommandOutcome::Exited { success, status, stdout } => if !success {
                    r matches Err(Error::Address(m)) && m@ == terminated_prefix() + status@
                } else if !valid_utf8(stdout@) {
                    r matches Err(Error::Address(m)) && not_text_prefix().is_prefix_of(m@)
                } else {
                    match address_of(encode_utf8(trimmed(decode_utf8(stdout@)))) {
                        Some(entries) => r matches Ok(found) && entry_views(found@) == entries,
                        None => r matches Err(Error::Address(_)),
                    }
                },
            },
    {
        match outcome {
            CommandOutcome::NotRun(reason) => Err(
                Error::Address(concat("Failed to execute ibus command: ", reason.as_str())),
            ),
            CommandOutcome::Exited { success, status, stdout } => {
                if !success {
                    return Err(
                        Error::Address(concat("ibus terminated with code: ", status.as_str())),
                    );
                }
                match from_utf8(stdout.as_slice()) {
                    Ok(addr) => parse_usable_address(trim(addr)),
                    Err(e) => Err(
                        Error::Address(
                            concat("Unable to parse ibus output as UTF-8: ", e.as_str()),
                        ),
                    ),
                }
            },
        }
    }
}

impl Default for Ibus {
    fn default() -> (r: Self)
        ensures
            r == Ibus,
    {
        Self::new()
    }
}

} // verus!
