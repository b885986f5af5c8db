//! The token path of a request: a list of the host that should hold addresses.

use soroban_sdk::{Address, ConversionError};
use vstd::prelude::*;

use crate::error::RouterError;

verus! {

/// A list that the host keeps. Opaque.
#[verifier::external_type_specification]
#[verifier::external_body]
#[verifier::reject_recursive_types(T)]
pub struct ExHostVec<T>(soroban_sdk::Vec<T>);

/// What the list `path` holds, in order: an address, or `None` where the entry is a value of
/// another type. The host does not check the entries of a list that comes from outside.
pub uninterp spec fn path_entries(path: soroban_sdk::Vec<Address>) -> Seq<Option<Address>>;

/// Whether there is an entry at `index` that is not an address.
pub open spec fn unreadable_at(entries: Seq<Option<Address>>, index: int) -> bool {
    0 <= index < entries.len() && entries[index] is None
}

/// The address at `index`, if there is one.
pub open spec fn entry_at(entries: Seq<Option<Address>>, index: int) -> Option<Address> {
    if 0 <= index < entries.len() {
        entries[index]
    } else {
        None
    }
}

/// Calls `soroban_sdk::Vec::len`, which returns the number of entries of the list.
#[verifier::external_body]
pub(crate) fn path_len(path: &soroban_sdk::Vec<Address>) -> (len: u32)
    ensures
        len == path_entries(*path).len(),
{
    path.len()
}

/// Calls `soroban_sdk::Vec::try_get`, which returns the entry at `index`, `None` behind the end
/// of the list, and an error where the entry is not an address.
#[verifier::external_body]
pub(crate) fn path_try_get(path: &soroban_sdk::Vec<Address>, index: u32) -> (entry: Result<
    Option<Address>,
    ConversionError,
>)
    ensures
        entry is Err <==> unreadable_at(path_entries(*path), index as int),
        entry is Ok ==> entry->Ok_0 == entry_at(path_entries(*path), index as int),
{
    path.try_get(index)
}

/// The token at `index` of a path with the entries `entries`.
pub open spec fn token_of(entries: Seq<Option<Address>>, index: int) -> Result<
    Address,
    RouterError,
> {
    match entries[index] {
        Some(token) => Ok(token),
        None => Err(RouterError::TokenUnreadable { index: index as u32 }),
    }
}

/// Returns the token at `index` of the path, or the error that names the entry when it is not an
/// address.
pub fn token_at(path: &soroban_sdk::Vec<Address>, index: u32) -> (token: Result<
    Address,
    RouterError,
>)
    requires
        index < path_entries(*path).len(),
    ensures
        token == token_of(path_entries(*path), index as int),
{
    match path_try_get(path, index) {
        Ok(Some(token)) => Ok(token),
        _ => Err(RouterError::TokenUnreadable { index }),
    }
}

} // verus!
