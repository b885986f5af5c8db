//! The Soroban host as the router sees it.
//!
//! Everything that the router does to the ledger, and everything that it learns from it, goes
//! through the few functions of this module that call `soroban_sdk`. Each of them writes down,
//! in the ghost history of the [`Host`] it is given, which call was made, with which arguments,
//! and what the host replied. A contract elsewhere in the crate then says what a function does
//! by saying which calls it adds to the history.
//!
//! What the ledger holds, and what another contract replies, is up to the host: no function here
//! promises a particular reply. The host may also end the whole invocation in place of a reply,
//! and roll back everything the invocation did: when an authorisation is missing, when the
//! invocation exceeds its budget or reaches for a ledger entry that it did not announce, or when
//! the host itself is at fault. Nothing after such a call is reached, and no clause speaks of it.
//!
//! Only contracts can be called. An address may be an account's, and calling that one would end
//! the invocation too, so every call asks for the address of a contract, which [`is_contract`]
//! tells from its strkey.
//!
//! Two values of type `Address` are equal in a specification when they denote the same account
//! or contract.

use soroban_sdk::{
    Address, ConversionError, Env, Error, IntoVal, InvokeError, Symbol, TryFromVal, Val,
};
use vstd::prelude::*;

use crate::error::CallFailed;

verus! {

/// The handle through which a contract reaches its host. Opaque.
#[verifier::external_type_specification]
#[verifier::external_body]
pub struct ExEnv(soroban_sdk::Env);

/// The address of an account or a contract. Opaque: the router passes addresses on, and asks of
/// the ones that it calls whether they are a contract's.
#[verifier::external_type_specification]
#[verifier::external_body]
pub struct ExAddress(soroban_sdk::Address);

/// Why a value of the host is not of the type asked for. Opaque.
#[verifier::external_type_specification]
#[verifier::external_body]
pub struct ExConversionError(soroban_sdk::ConversionError);

/// An error value of the host: what a called contract failed with, or why a value is not an
/// amount. Opaque.
#[verifier::external_type_specification]
#[verifier::external_body]
pub struct ExError(soroban_sdk::Error);

/// How the call of another contract failed. Opaque.
#[verifier::external_type_specification]
#[verifier::external_body]
pub struct ExInvokeError(soroban_sdk::InvokeError);

/// One argument of a call to another contract.
pub enum Arg {
    Address(Address),
    Amount(i128),
}

/// What came back from a call to another contract.
pub enum Reply {
    /// The call failed, or returned a value of another type.
    Failed,
    /// The call returned an optional address.
    Pool(Option<Address>),
    /// The call returned an amount.
    Amount(i128),
}

/// What the contract's instance storage holds under a key, read as an address.
pub enum Stored {
    /// Nothing.
    Absent,
    /// Something that is not an address.
    Unreadable,
    /// An address.
    Present(Address),
}

/// One call that was made to the host, with what the host replied.
pub enum HostCall {
    /// The host was asked to make sure that `who` authorised the invocation, and went on.
    RequireAuth { who: Address },
    /// The instance storage was asked whether it holds anything under `key`.
    StorageHas { key: Seq<char>, found: bool },
    /// The instance storage was read under `key`.
    StorageGet { key: Seq<char>, stored: Stored },
    /// The instance storage was given `value` to hold under `key`.
    StorageSet { key: Seq<char>, value: Address },
    /// Function `function` of `contract` was called with `args`.
    Invoke { contract: Address, function: Seq<char>, args: Seq<Arg>, reply: Reply },
}

/// A contract's access to its host.
///
/// Its view is the history of the calls that were made through it, oldest first.
pub struct Host {
    env: Env,
    calls: Ghost<Seq<HostCall>>,
}

impl View for Host {
    type V = Seq<HostCall>;

    closed spec fn view(&self) -> Seq<HostCall> {
        self.calls@
    }
}

impl Host {
    /// Access to the host behind `env`, with an empty history.
    ///
    /// `env` is the handle that the host gave to the contract for the running invocation.
    pub fn new(env: Env) -> (host: Host)
        ensures
            host@ == Seq::<HostCall>::empty(),
    {
        Host { env, calls: Ghost(Seq::empty()) }
    }
}

/// Whether `text` can be written as a symbol of the host: at most 32 characters, each of them a
/// letter, a digit or an underscore.
pub open spec fn is_symbol(text: Seq<char>) -> bool {
    &&& text.len() <= 32
    &&& forall|i: int|
        0 <= i < text.len() ==> {
            ||| 'a' <= #[trigger] text[i] <= 'z'
            ||| 'A' <= text[i] <= 'Z'
            ||| '0' <= text[i] <= '9'
            ||| text[i] == '_'
        }
}

/// The strkey of `address`, the text by which Stellar writes it down, as ASCII.
pub uninterp spec fn strkey(address: Address) -> Seq<u8>;

/// The first letter of the strkey of a contract, `C`. The one of an account starts with `G`.
pub const CONTRACT_LETTER: u8 = 67;

/// Whether `key` is the strkey of a contract, if it is the strkey of an address at all.
pub open spec fn contract_key(key: Seq<u8>) -> bool {
    key.len() > 0 && key[0] == CONTRACT_LETTER
}

/// Whether `address` is the address of a contract, deployed or not, rather than an account's.
pub open spec fn names_contract(address: Address) -> bool {
    contract_key(strkey(address))
}

/// Calls `soroban_sdk::Address::to_string`, which returns the strkey of the address, and hands
/// out its bytes. What they are rests on the address alone; they carry a checksum, and no clause
/// spells them out.
#[verifier::external_body]
pub(crate) fn address_strkey(address: &Address) -> (key: Vec<u8>)
    ensures
        key@ == strkey(*address),
{
    address.to_string().to_bytes().iter().collect()
}

/// Tells from a strkey whether it is a contract's.
pub fn is_contract_key(key: &Vec<u8>) -> (yes: bool)
    ensures
        yes == contract_key(key@),
{
    key.len() > 0 && key[0] == CONTRACT_LETTER
}

/// Tells whether `address` is the address of a contract.
pub fn is_contract(address: &Address) -> (yes: bool)
    ensures
        yes == names_contract(*address),
{
    is_contract_key(&address_strkey(address))
}

/// The reply that a call for an optional address amounts to.
pub open spec fn pool_reply(reply: Result<Option<Address>, CallFailed>) -> Reply {
    match reply {
        Ok(pool) => Reply::Pool(pool),
        Err(_) => Reply::Failed,
    }
}

/// The reply that a call for an amount amounts to.
pub open spec fn amount_reply(reply: Result<i128, CallFailed>) -> Reply {
    match reply {
        Ok(amount) => Reply::Amount(amount),
        Err(_) => Reply::Failed,
    }
}

/// What the outcome of calling another contract amounts to: the value it returned, if the call
/// went through and the value is of the type asked for.
pub open spec fn settled<T, E>(
    outcome: Result<Result<T, E>, Result<Error, InvokeError>>,
) -> Result<T, CallFailed> {
    match outcome {
        Ok(Ok(value)) => Ok(value),
        Ok(Err(_)) => Err(CallFailed),
        Err(_) => Err(CallFailed),
    }
}

/// Sorts out the outcome of calling another contract.
pub fn settle<T, E>(
    outcome: Result<Result<T, E>, Result<Error, InvokeError>>,
) -> (value: Result<T, CallFailed>)
    ensures
        value == settled(outcome),
{
    match outcome {
        Ok(Ok(value)) => Ok(value),
        Ok(Err(_)) => Err(CallFailed),
        Err(_) => Err(CallFailed),
    }
}

/// What an entry of the instance storage amounts to.
pub open spec fn stored_entry(entry: Option<Result<Address, ConversionError>>) -> Stored {
    match entry {
        None => Stored::Absent,
        Some(Err(_)) => Stored::Unreadable,
        Some(Ok(address)) => Stored::Present(address),
    }
}

/// Sorts out an entry of the instance storage.
pub fn read_entry(entry: Option<Result<Address, ConversionError>>) -> (stored: Stored)
    ensures
        stored == stored_entry(entry),
{
    match entry {
        None => Stored::Absent,
        Some(Err(_)) => Stored::Unreadable,
        Some(Ok(address)) => Stored::Present(address),
    }
}

/// Calls `soroban_sdk::Address::require_auth`, which returns only if `who` authorised the
/// running invocation with all its arguments; the history says that it was asked.
///
/// Whether the authorisation is there rests with the host, which ends the invocation when it is
/// not; no clause says on which inputs that happens.
#[verifier::external_body]
pub(crate) fn require_auth(host: &mut Host, who: &Address)
    ensures
        final(host)@ == old(host)@.push(HostCall::RequireAuth { who: *who }),
{
    who.require_auth();
}

/// Calls `soroban_sdk::storage::Instance::has` for the key that is the one-element list of the
/// symbol `key`; the history says what was asked and that the returned flag was the reply.
///
/// What the storage holds rests with the ledger, where other handles to the same host can write
/// too; no clause says which flag comes back.
#[verifier::external_body]
pub(crate) fn instance_has(host: &mut Host, key: &str) -> (found: bool)
    requires
        is_symbol(key@),
    ensures
        final(host)@ == old(host)@.push(HostCall::StorageHas { key: key@, found }),
{
    host.env.storage().instance().has(&(Symbol::new(&host.env, key),))
}

/// Calls `soroban_sdk::storage::Instance::get` for the key that is the one-element list of the
/// symbol `key`, and converts what it finds to an address; the history says what was asked and
/// that the returned entry was the reply.
///
/// What the storage holds rests with the ledger, where other handles to the same host can write
/// too; no clause says which entry comes back.
#[verifier::external_body]
pub(crate) fn instance_get(host: &mut Host, key: &str) -> (entry: Option<
    Result<Address, ConversionError>,
>)
    requires
        is_symbol(key@),
    ensures
        final(host)@ == old(host)@.push(
            HostCall::StorageGet { key: key@, stored: stored_entry(entry) },
        ),
{
    let entry: Option<Val> = host.env.storage().instance().get(&(Symbol::new(&host.env, key),));
    entry.map(|value| Address::try_from_val(&host.env, &value))
}

/// Calls `soroban_sdk::storage::Instance::set` with `value`, for the key that is the one-element
/// list of the symbol `key`; the history says so.
#[verifier::external_body]
pub(crate) fn instance_set(host: &mut Host, key: &str, value: &Address)
    requires
        is_symbol(key@),
    ensures
        final(host)@ == old(host)@.push(HostCall::StorageSet { key: key@, value: *value }),
{
    host.env.storage().instance().set(&(Symbol::new(&host.env, key),), value);
}

/// Calls `soroban_sdk::Env::try_invoke_contract` on a function that takes two addresses and
/// returns an optional address; the history says what was asked, and that the returned outcome
/// was the reply.
///
/// What the called contract does rests with that contract; no clause says what comes back. That
/// `contract` is not deployed, or that the call fails, is a reply. Whether the call keeps within
/// the limits of the invocation rests with the host, which ends the invocation if not.
#[verifier::external_body]
pub(crate) fn invoke_for_pool(
    host: &mut Host,
    contract: &Address,
    function: &str,
    first: &Address,
    second: &Address,
) -> (outcome: Result<Result<Option<Address>, ConversionError>, Result<Error, InvokeError>>)
    requires
        is_symbol(function@),
        names_contract(*contract),
    ensures
        final(host)@ == old(host)@.push(
            HostCall::Invoke {
                contract: *contract,
                function: function@,
                args: seq![Arg::Address(*first), Arg::Address(*second)],
                reply: pool_reply(settled(outcome)),
            },
        ),
{
    let args = soroban_sdk::Vec::from_array(&host.env, [first.to_val(), second.to_val()]);
    host.env.try_invoke_contract(contract, &Symbol::new(&host.env, function), args)
}

/// Calls `soroban_sdk::Env::try_invoke_contract` on a function that takes two addresses and two
/// amounts and returns an amount; the history says what was asked, and that the returned outcome
/// was the reply.
///
/// What the called contract does rests with that contract; no clause says what comes back. That
/// `contract` is not deployed, or that the call fails, is a reply. Whether the call keeps within
/// the limits of the invocation rests with the host, which ends the invocation if not.
#[verifier::external_body]
pub(crate) fn invoke_for_swap(
    host: &mut Host,
    contract: &Address,
    function: &str,
    trader: &Address,
    token: &Address,
    amount: i128,
    floor: i128,
) -> (outcome: Result<Result<i128, Error>, Result<Error, InvokeError>>)
    requires
        is_symbol(function@),
        names_contract(*contract),
    ensures
        final(host)@ == old(host)@.push(
            HostCall::Invoke {
                contract: *contract,
                function: function@,
                args: seq![
                    Arg::Address(*trader),
                    Arg::Address(*token),
                    Arg::Amount(amount),
                    Arg::Amount(floor),
                ],
                reply: amount_reply(settled(outcome)),
            },
        ),
{
    let env = &host.env;
    let args = soroban_sdk::Vec::from_array(
        env,
        [trader.to_val(), token.to_val(), amount.into_val(env), floor.into_val(env)],
    );
    env.try_invoke_contract(contract, &Symbol::new(env, function), args)
}

/// Calls `soroban_sdk::Env::try_invoke_contract` on a function that takes an address and an
/// amount and returns an amount; the history says what was asked, and that the returned outcome
/// was the reply.
///
/// What the called contract does rests with that contract; no clause says what comes back. That
/// `contract` is not deployed, or that the call fails, is a reply. Whether the call keeps within
/// the limits of the invocation rests with the host, which ends the invocation if not.
#[verifier::external_body]
pub(crate) fn invoke_for_quote(
    host: &mut Host,
    contract: &Address,
    function: &str,
    token: &Address,
    amount: i128,
) -> (outcome: Result<Result<i128, Error>, Result<Error, InvokeError>>)
    requires
        is_symbol(function@),
        names_contract(*contract),
    ensures
        final(host)@ == old(host)@.push(
            HostCall::Invoke {
                contract: *contract,
                function: function@,
                args: seq![Arg::Address(*token), Arg::Amount(amount)],
                reply: amount_reply(settled(outcome)),
            },
        ),
{
    let args = soroban_sdk::Vec::from_array(
        &host.env,
        [token.to_val(), amount.into_val(&host.env)],
    );
    host.env.try_invoke_contract(contract, &Symbol::new(&host.env, function), args)
}

} // verus!
