//! The contracts that the router works with, and the clients through which it calls them.

use soroban_sdk::Address;
use vstd::prelude::*;

use crate::error::CallFailed;
use crate::host::{
    amount_reply, invoke_for_pool, invoke_for_quote, invoke_for_swap, is_contract, names_contract,
    pool_reply, settle, Arg, Host, HostCall,
};

verus! {

/// The call by which `factory` was asked for the pool of two tokens.
pub open spec fn get_pool_call(
    factory: Address,
    token_a: Address,
    token_b: Address,
    reply: Result<Option<Address>, CallFailed>,
) -> HostCall {
    HostCall::Invoke {
        contract: factory,
        function: "get_pool"@,
        args: seq![Arg::Address(token_a), Arg::Address(token_b)],
        reply: pool_reply(reply),
    }
}

/// The call by which `pool` was told to swap `amount_in` of `token_in` for `trader`, and to pay
/// out no less than `min_out`.
pub open spec fn swap_call(
    pool: Address,
    trader: Address,
    token_in: Address,
    amount_in: i128,
    min_out: i128,
    reply: Result<i128, CallFailed>,
) -> HostCall {
    HostCall::Invoke {
        contract: pool,
        function: "swap"@,
        args: seq![
            Arg::Address(trader),
            Arg::Address(token_in),
            Arg::Amount(amount_in),
            Arg::Amount(min_out),
        ],
        reply: amount_reply(reply),
    }
}

/// The call by which `pool` was asked what it would pay out for `amount_in` of `token_in`.
pub open spec fn get_amount_out_call(
    pool: Address,
    token_in: Address,
    amount_in: i128,
    reply: Result<i128, CallFailed>,
) -> HostCall {
    HostCall::Invoke {
        contract: pool,
        function: "get_amount_out"@,
        args: seq![Arg::Address(token_in), Arg::Amount(amount_in)],
        reply: amount_reply(reply),
    }
}

/// What is asked of the host to have `call` made to `contract`: nothing, if that is not the
/// address of a contract.
pub open spec fn asked(contract: Address, call: HostCall) -> Seq<HostCall> {
    if names_contract(contract) {
        seq![call]
    } else {
        seq![]
    }
}

/// What is heard from `contract` where a call to it would be replied to with `reply`: the call
/// counts as failed if that is not the address of a contract.
pub open spec fn heard<T>(contract: Address, reply: Result<T, CallFailed>) -> Result<
    T,
    CallFailed,
> {
    if names_contract(contract) {
        reply
    } else {
        Err(CallFailed)
    }
}

/// Minimal AMM pool interface needed by the router.
pub trait AmmPoolInterface {
    /// The contract behind the interface.
    spec fn contract(&self) -> Address;

    /// Swaps `amount_in` of `token_in` for `trader`. Returns the amount paid out.
    fn swap(
        &self,
        host: &mut Host,
        trader: &Address,
        token_in: &Address,
        amount_in: i128,
        min_out: i128,
    ) -> (reply: Result<i128, CallFailed>)
        ensures
            final(host)@ == old(host)@ + asked(
                self.contract(),
                swap_call(self.contract(), *trader, *token_in, amount_in, min_out, reply),
            ),
            reply == heard(self.contract(), reply),
    ;

    /// Quotes what `amount_in` of `token_in` would be swapped for.
    fn get_amount_out(&self, host: &mut Host, token_in: &Address, amount_in: i128) -> (reply:
        Result<i128, CallFailed>)
        ensures
            final(host)@ == old(host)@ + asked(
                self.contract(),
                get_amount_out_call(self.contract(), *token_in, amount_in, reply),
            ),
            reply == heard(self.contract(), reply),
    ;
}

/// Minimal factory interface needed by the router.
pub trait FactoryInterface {
    /// The contract behind the interface.
    spec fn contract(&self) -> Address;

    /// Looks up the pool of two tokens. Returns `None` when there is none.
    fn get_pool(&self, host: &mut Host, token_a: &Address, token_b: &Address) -> (reply: Result<
        Option<Address>,
        CallFailed,
    >)
        ensures
            final(host)@ == old(host)@ + asked(
                self.contract(),
                get_pool_call(self.contract(), *token_a, *token_b, reply),
            ),
            reply == heard(self.contract(), reply),
    ;
}

/// Client for calling an AMM pool. It makes no call to an address that is not a contract's.
pub struct AmmPoolClient {
    pub address: Address,
}

impl AmmPoolInterface for AmmPoolClient {
    open spec fn contract(&self) -> Address {
        self.address
    }

    fn swap(
        &self,
        host: &mut Host,
        trader: &Address,
        token_in: &Address,
        amount_in: i128,
        min_out: i128,
    ) -> (reply: Result<i128, CallFailed>) {
        if !is_contract(&self.address) {
            return Err(CallFailed);
        }
        proof {
            reveal_strlit("swap");
        }
        settle(invoke_for_swap(host, &self.address, "swap", trader, token_in, amount_in, min_out))
    }

    fn get_amount_out(&self, host: &mut Host, token_in: &Address, amount_in: i128) -> (reply:
        Result<i128, CallFailed>) {
        if !is_contract(&self.address) {
            return Err(CallFailed);
        }
        proof {
            reveal_strlit("get_amount_out");
        }
        settle(invoke_for_quote(host, &self.address, "get_amount_out", token_in, amount_in))
    }
}

/// Client for calling the factory. It makes no call to an address that is not a contract's.
pub struct FactoryClient {
    pub address: Address,
}

impl FactoryInterface for FactoryClient {
    open spec fn contract(&self) -> Address {
        self.address
    }

    fn get_pool(&self, host: &mut Host, token_a: &Address, token_b: &Address) -> (reply: Result<
        Option<Address>,
        CallFailed,
    >) {
        if !is_contract(&self.address) {
            return Err(CallFailed);
        }
        proof {
            reveal_strlit("get_pool");
        }
        settle(invoke_for_pool(host, &self.address, "get_pool", token_a, token_b))
    }
}

} // verus!
