//! The stored ledger: where it lies and when it is accepted.

use vstd::prelude::*;

use crate::binding::{ledger_fault, validate_bindings, BindingState, StateView, STATE_VERSION};
use crate::text::{decimal, decimal_of};

verus! {

broadcast use vstd::string::group_string_axioms;

/// The directory that Beckon's files lie under.
#[derive(Clone, Copy, Debug, PartialEq, Eq, Structural)]
pub enum BaseDirectory {
    /// The one that an XDG variable names.
    Xdg,
    /// The customary one under the home directory.
    Home,
    /// Neither variable is set.
    Fallback,
}

/// Chooses the directory that Beckon's files lie under, given which variables
/// are set.
pub fn base_directory(xdg: bool, home: bool) -> (directory: BaseDirectory)
    ensures
        directory == if xdg {
            BaseDirectory::Xdg
        } else if home {
            BaseDirectory::Home
        } else {
            BaseDirectory::Fallback
        },
{
    if xdg {
        BaseDirectory::Xdg
    } else if home {
        BaseDirectory::Home
    } else {
        BaseDirectory::Fallback
    }
}

/// Why a stored ledger is refused: another version, or a fault of the ledger.
pub open spec fn stored_fault(state: StateView, path: Seq<char>) -> Option<Seq<char>> {
    if state.state_version != STATE_VERSION {
        Some(
            path + " has state_version "@ + decimal_of(state.state_version as nat)
                + "; this Beckon version supports 1"@,
        )
    } else {
        match ledger_fault(state.bindings) {
            Some(fault) => Some(fault.message()),
            None => None,
        }
    }
}

/// Accepts a ledger that was read from `path`.
pub fn accept_stored(state: &BindingState, path: &str) -> (result: Result<(), String>)
    ensures
        match result {
            Ok(()) => stored_fault(state@, path@) is None,
            Err(message) => stored_fault(state@, path@) == Some(message@),
        },
{
    if state.state_version != STATE_VERSION {
        return Err(
            path.to_owned().concat(" has state_version ").concat(
                decimal(state.state_version as u128).as_str(),
            ).concat("; this Beckon version supports 1"),
        );
    }
    match validate_bindings(state.bindings.as_slice()) {
        Ok(()) => Ok(()),
        Err(error) => Err(error.message()),
    }
}

} // verus!
