//! What can be read off the history of a request, call by call.
//!
//! The laws here speak of the recorded calls themselves: which function of which contract was
//! called, with which arguments, what came back, and how the result of the request follows from
//! that. Nothing in them goes by what the host might have replied to a call that was not made.

use soroban_sdk::{Address, ConversionError, Error, InvokeError};
use vstd::prelude::*;

use crate::error::{CallFailed, RouterError};
use crate::host::{
    amount_reply, contract_key, names_contract, pool_reply, settled, stored_entry, strkey, Arg,
    HostCall, Reply, Stored,
};
use crate::interfaces::{asked, get_amount_out_call, get_pool_call, heard, swap_call};
use crate::path::{entry_at, token_of, unreadable_at};
use crate::route::{
    checked_hops, deal_amount, deal_call, factory_of, hop_floor, hop_of_path, pool_of,
    quoted_amount, swap_pool_of, swapped_amount, walk, without_pool, HopReply, Leg, Mode,
};
use crate::router::{
    admission, factory_call, initialize_calls, quote_run, swap_run, DataKey,
};

verus! {

// ---- single calls ----

/// An address is a contract's exactly if its strkey starts with the byte 67, the letter `C`,
/// whatever comes after it.
pub proof fn law_contracts_start_with_c(key: Seq<u8>, address: Address)
    ensures
        contract_key(key) <==> key.len() > 0 && key[0] == 67,
        names_contract(address) <==> strkey(address).len() > 0 && strkey(address)[0] == 67,
{
}

/// A pool that is told to swap is told of the trader, the token, the whole amount and the guard,
/// each as it was given, and the amount that it pays out is the one that is recorded. Nothing is
/// asked of an address that is not a contract's.
pub proof fn law_recorded_swap(
    pool: Address,
    trader: Address,
    token_in: Address,
    amount_in: i128,
    min_out: i128,
    out: i128,
)
    ensures
        ({
            let paid = asked(
                pool,
                swap_call(pool, trader, token_in, amount_in, min_out, Ok(out)),
            );
            let failed = asked(
                pool,
                swap_call(pool, trader, token_in, amount_in, min_out, Err(CallFailed)),
            );
            let args = seq![
                Arg::Address(trader),
                Arg::Address(token_in),
                Arg::Amount(amount_in),
                Arg::Amount(min_out),
            ];
            if strkey(pool).len() > 0 && strkey(pool)[0] == 67 {
                &&& paid == seq![
                    HostCall::Invoke {
                        contract: pool,
                        function: "swap"@,
                        args,
                        reply: Reply::Amount(out),
                    },
                ]
                &&& failed == seq![
                    HostCall::Invoke {
                        contract: pool,
                        function: "swap"@,
                        args,
                        reply: Reply::Failed,
                    },
                ]
            } else {
                &&& paid == Seq::<HostCall>::empty()
                &&& failed == Seq::<HostCall>::empty()
            }
        }),
{
}

/// A pool that is asked for a quote is asked about the token and the whole amount, each as it was
/// given, and the amount that it quotes is the one that is recorded. Nothing is asked of an
/// address that is not a contract's.
pub proof fn law_recorded_quote(pool: Address, token_in: Address, amount_in: i128, out: i128)
    ensures
        ({
            let quoted = asked(pool, get_amount_out_call(pool, token_in, amount_in, Ok(out)));
            let failed = asked(
                pool,
                get_amount_out_call(pool, token_in, amount_in, Err(CallFailed)),
            );
            let args = seq![Arg::Address(token_in), Arg::Amount(amount_in)];
            if strkey(pool).len() > 0 && strkey(pool)[0] == 67 {
                &&& quoted == seq![
                    HostCall::Invoke {
                        contract: pool,
                        function: "get_amount_out"@,
                        args,
                        reply: Reply::Amount(out),
                    },
                ]
                &&& failed == seq![
                    HostCall::Invoke {
                        contract: pool,
                        function: "get_amount_out"@,
                        args,
                        reply: Reply::Failed,
                    },
                ]
            } else {
                &&& quoted == Seq::<HostCall>::empty()
                &&& failed == Seq::<HostCall>::empty()
            }
        }),
{
}

/// A factory that is asked for a pool is asked about the two tokens in the order in which they
/// were given, and the pool that it names is the one that is recorded. Nothing is asked of an
/// address that is not a contract's.
pub proof fn law_recorded_lookup(
    factory: Address,
    token_a: Address,
    token_b: Address,
    pool: Option<Address>,
)
    ensures
        ({
            let found = asked(factory, get_pool_call(factory, token_a, token_b, Ok(pool)));
            let failed = asked(factory, get_pool_call(factory, token_a, token_b, Err(CallFailed)));
            let args = seq![Arg::Address(token_a), Arg::Address(token_b)];
            if strkey(factory).len() > 0 && strkey(factory)[0] == 67 {
                &&& found == seq![
                    HostCall::Invoke {
                        contract: factory,
                        function: "get_pool"@,
                        args,
                        reply: Reply::Pool(pool),
                    },
                ]
                &&& failed == seq![
                    HostCall::Invoke {
                        contract: factory,
                        function: "get_pool"@,
                        args,
                        reply: Reply::Failed,
                    },
                ]
            } else {
                &&& found == Seq::<HostCall>::empty()
                &&& failed == Seq::<HostCall>::empty()
            }
        }),
{
}

/// What is heard from a contract is what it replied; from any other address nothing is heard but
/// a failure.
pub proof fn law_only_contracts_are_heard<T>(contract: Address, reply: Result<T, CallFailed>)
    ensures
        strkey(contract).len() > 0 && strkey(contract)[0] == 67 ==> heard(contract, reply)
            == reply,
        !(strkey(contract).len() > 0 && strkey(contract)[0] == 67) ==> heard(
            contract,
            reply,
        ) is Err,
{
}

/// Calling another contract gives a value exactly if the call went through and returned one of
/// the type asked for; the value is then that one.
pub proof fn law_calls_give_what_was_returned<T, E>(
    outcome: Result<Result<T, E>, Result<Error, InvokeError>>,
    value: T,
)
    ensures
        settled(outcome) == Ok::<T, CallFailed>(value) <==> outcome == Ok::<
            Result<T, E>,
            Result<Error, InvokeError>,
        >(Ok(value)),
        settled(outcome) is Err <==> !(outcome matches Ok(Ok(_))),
{
}

/// An amount is recorded exactly if the called contract returned it.
pub proof fn law_recorded_amount(
    outcome: Result<Result<i128, Error>, Result<Error, InvokeError>>,
    amount: i128,
)
    ensures
        amount_reply(settled(outcome)) == Reply::Amount(amount) <==> (outcome matches Ok(Ok(value))
            && value == amount),
        amount_reply(settled(outcome)) == Reply::Failed <==> !(outcome matches Ok(Ok(_))),
{
}

/// A pool, or that there is none, is recorded exactly if the called contract returned it.
pub proof fn law_recorded_pool(
    outcome: Result<Result<Option<Address>, ConversionError>, Result<Error, InvokeError>>,
    pool: Option<Address>,
)
    ensures
        pool_reply(settled(outcome)) == Reply::Pool(pool) <==> (outcome matches Ok(Ok(value))
            && value == pool),
        pool_reply(settled(outcome)) == Reply::Failed <==> !(outcome matches Ok(Ok(_))),
{
}

/// An address is read from the storage exactly if it is held there, and nothing exactly if
/// nothing is.
pub proof fn law_recorded_entry(entry: Option<Result<Address, ConversionError>>, address: Address)
    ensures
        stored_entry(entry) == Stored::Present(address) <==> entry == Some(
            Ok::<Address, ConversionError>(address),
        ),
        stored_entry(entry) is Absent <==> entry is None,
        stored_entry(entry) is Unreadable <==> (entry matches Some(Err(_))),
{
}

// ---- single steps ----

/// The token at a place of the path is the address that stands there; any other value there is
/// refused with the error that names the place.
pub proof fn law_token_of_path(entries: Seq<Option<Address>>, index: u32, token: Address)
    requires
        index < entries.len(),
    ensures
        entry_at(entries, index as int) == entries[index as int],
        unreadable_at(entries, index as int) <==> entries[index as int] is None,
        token_of(entries, index as int) == Ok::<Address, RouterError>(token)
            <==> entries[index as int] == Some(token),
        token_of(entries, index as int) is Err ==> token_of(entries, index as int) == Err::<
            Address,
            RouterError,
        >(RouterError::TokenUnreadable { index }),
{
}

/// Behind the end of the path there is no entry, readable or not.
pub proof fn law_path_ends(entries: Seq<Option<Address>>, index: int)
    requires
        index >= entries.len(),
    ensures
        entry_at(entries, index) is None,
        !unreadable_at(entries, index),
{
}

/// A request goes ahead exactly if its path has two tokens and its amount is positive, and has
/// one hop fewer than tokens. A short path is reported before a bad amount.
pub proof fn law_checked_requests(tokens: u32, amount_in: i128)
    ensures
        ({
            let checked = checked_hops(tokens as nat, amount_in as int);
            &&& checked is Ok <==> tokens >= 2 && amount_in >= 1
            &&& checked matches Ok(hops) ==> hops + 1 == tokens
            &&& checked == Err::<u32, RouterError>(RouterError::PathTooShort) <==> tokens <= 1
            &&& checked == Err::<u32, RouterError>(RouterError::AmountNotPositive) <==> tokens >= 2
                && amount_in <= 0
        }),
{
}

/// The last of the hops is held to the caller's guard, whatever that is, and every other hop to
/// zero.
pub proof fn law_guard_of_a_hop(hop: u32, hops: u32, min_out: i128)
    requires
        hop < hops,
    ensures
        hop == hops - 1 ==> hop_floor(hop as int, hops as int, min_out) == min_out,
        hop < hops - 1 ==> hop_floor(hop as int, hops as int, min_out) == 0,
{
}

/// A hop goes through the pool that the factory named. Without one a quote is told so and a swap
/// is refused, and a failed lookup is an error of either.
pub proof fn law_pool_of_a_hop<A>(hop: u32, pool: A)
    ensures
        pool_of(hop as int, Ok(Some(pool))) == Ok::<Option<A>, RouterError>(Some(pool)),
        pool_of::<A>(hop as int, Ok(None)) == Ok::<Option<A>, RouterError>(None),
        pool_of::<A>(hop as int, Err(CallFailed)) == Err::<Option<A>, RouterError>(
            RouterError::LookupFailed { hop },
        ),
        swap_pool_of(hop as int, Ok(Some(pool))) == Ok::<A, RouterError>(pool),
        swap_pool_of::<A>(hop as int, Ok(None)) == Err::<A, RouterError>(
            RouterError::NoPool { hop },
        ),
        swap_pool_of::<A>(hop as int, Err(CallFailed)) == Err::<A, RouterError>(
            RouterError::LookupFailed { hop },
        ),
{
}

/// A hop pays out, or would pay out, what its pool said; a pool that gave no amount is an error.
pub proof fn law_amount_of_a_hop(hop: u32, amount: i128)
    ensures
        swapped_amount(hop as int, Ok(amount)) == Ok::<i128, RouterError>(amount),
        swapped_amount(hop as int, Err(CallFailed)) == Err::<i128, RouterError>(
            RouterError::SwapFailed { hop },
        ),
        quoted_amount(hop as int, Ok(amount)) == Ok::<i128, RouterError>(amount),
        quoted_amount(hop as int, Err(CallFailed)) == Err::<i128, RouterError>(
            RouterError::QuoteFailed { hop },
        ),
{
}

/// Every error comes with the sentence that tells it.
pub proof fn law_error_texts(error: RouterError)
    ensures
        error is AlreadyInitialized ==> error.text() == "already initialized"@,
        error is NotInitialized ==> error.text() == "not initialized"@,
        error is FactoryUnreadable ==> error.text() == "stored factory is not an address"@,
        error is PathTooShort ==> error.text() == "path must have at least 2 tokens"@,
        error is AmountNotPositive ==> error.text() == "amount_in must be positive"@,
        error is TokenUnreadable ==> error.text() == "path entry is not an address"@,
        error is LookupFailed ==> error.text() == "factory lookup failed"@,
        error is NoPool ==> error.text() == "no pool for hop"@,
        error is SwapFailed ==> error.text() == "pool swap failed"@,
        error is QuoteFailed ==> error.text() == "pool quote failed"@,
{
}

// ---- the factory ----

/// A request to initialize the router asks the storage whether it holds a factory. If not, it
/// has the storage hold the factory that was given, under the same key, and succeeds; if so, it
/// is refused and asks for nothing more.
pub proof fn law_initialize_history(factory: Address, found: bool, key: DataKey)
    ensures
        key.text() == "Factory"@,
        initialize_calls(factory, found)[0] == (HostCall::StorageHas {
            key: "Factory"@,
            found,
        }),
        found ==> initialize_calls(factory, found).len() == 1,
        found ==> admission(found) == Err::<(), RouterError>(RouterError::AlreadyInitialized),
        !found ==> initialize_calls(factory, found).len() == 2,
        !found ==> initialize_calls(factory, found)[1] == (HostCall::StorageSet {
            key: "Factory"@,
            value: factory,
        }),
        !found ==> admission(found) == Ok::<(), RouterError>(()),
{
}

/// The router's factory is the address that was read from its storage, under the key that
/// initialization writes, and there is none otherwise.
pub proof fn law_factory_history(stored: Stored, factory: Address)
    ensures
        factory_call(stored) == (HostCall::StorageGet { key: "Factory"@, stored }),
        factory_of(stored) == Ok::<Address, RouterError>(factory) <==> stored == Stored::Present(
            factory,
        ),
        factory_of(stored) == Err::<Address, RouterError>(RouterError::NotInitialized)
            <==> stored is Absent,
        factory_of(stored) == Err::<Address, RouterError>(RouterError::FactoryUnreadable)
            <==> stored is Unreadable,
{
}

// ---- whole requests ----

/// What brings a walk to each of its calls: a lookup needs two readable tokens, a factory that
/// is a contract, and an amount from the hop before; a deal needs a pool that is a contract.
proof fn lemma_walk_grounds(
    mode: Mode,
    factory: Address,
    entries: Seq<Option<Address>>,
    amount_in: i128,
    replies: Seq<HopReply>,
    n: nat,
)
    ensures
        ({
            let through = walk(mode, factory, entries, amount_in, replies, n);
            &&& through.calls.len() <= 2 * n
            &&& forall|k: int|
                #![trigger through.calls[2 * k]]
                0 <= 2 * k < through.calls.len() ==> {
                    &&& entries[k] is Some
                    &&& entries[k + 1] is Some
                    &&& names_contract(factory)
                    &&& through.calls[2 * k] == get_pool_call(
                        factory,
                        entries[k]->0,
                        entries[k + 1]->0,
                        replies[k].pool,
                    )
                    &&& k > 0 ==> replies[k - 1].out is Ok
                }
            &&& forall|k: int|
                #![trigger through.calls[2 * k + 1]]
                0 <= 2 * k + 1 < through.calls.len() ==> {
                    &&& replies[k].pool matches Ok(Some(pool))
                    &&& names_contract(pool)
                    &&& through.calls[2 * k + 1] == deal_call(
                        mode,
                        pool,
                        entries[k]->0,
                        if k == 0 {
                            amount_in
                        } else {
                            replies[k - 1].out->Ok_0
                        },
                        k,
                        entries.len() - 1,
                        replies[k].out,
                    )
                }
            &&& through.leg matches Leg::Carrying(amount) ==> {
                &&& through.calls.len() == 2 * n
                &&& n == 0 ==> amount == amount_in
                &&& n > 0 ==> replies[n - 1].out == Ok::<i128, CallFailed>(amount)
            }
        }),
    decreases n,
{
    if n > 0 {
        let m = (n - 1) as nat;
        lemma_walk_grounds(mode, factory, entries, amount_in, replies, m);
        let before = walk(mode, factory, entries, amount_in, replies, m);
        let through = walk(mode, factory, entries, amount_in, replies, n);
        if before.leg is Carrying {
            let amount = before.leg->Carrying_0;
            let step = hop_of_path(mode, factory, entries, amount, n - 1, replies[n - 1]);
            assert(through.calls == before.calls + step.calls);
            assert forall|k: int|
                #![trigger through.calls[2 * k]]
                0 <= 2 * k < through.calls.len() implies {
                &&& entries[k] is Some
                &&& entries[k + 1] is Some
                &&& names_contract(factory)
                &&& through.calls[2 * k] == get_pool_call(
                    factory,
                    entries[k]->0,
                    entries[k + 1]->0,
                    replies[k].pool,
                )
                &&& k > 0 ==> replies[k - 1].out is Ok
            } by {
                if k < m {
                    assert(through.calls[2 * k] == before.calls[2 * k]);
                } else {
                    assert(k == m);
                    assert(through.calls[2 * k] == step.calls[0]);
                }
            }
            assert forall|k: int|
                #![trigger through.calls[2 * k + 1]]
                0 <= 2 * k + 1 < through.calls.len() implies {
                &&& replies[k].pool matches Ok(Some(pool))
                &&& names_contract(pool)
                &&& through.calls[2 * k + 1] == deal_call(
                    mode,
                    pool,
                    entries[k]->0,
                    if k == 0 {
                        amount_in
                    } else {
                        replies[k - 1].out->Ok_0
                    },
                    k,
                    entries.len() - 1,
                    replies[k].out,
                )
            } by {
                if k < m {
                    assert(through.calls[2 * k + 1] == before.calls[2 * k + 1]);
                } else {
                    assert(k == m);
                    assert(through.calls[2 * k + 1] == step.calls[1]);
                }
            }
        }
    }
}

/// Why a walk is over before its end, by the last call that it made.
proof fn lemma_walk_over(
    mode: Mode,
    factory: Address,
    entries: Seq<Option<Address>>,
    amount_in: i128,
    replies: Seq<HopReply>,
    n: nat,
)
    ensures
        ({
            let through = walk(mode, factory, entries, amount_in, replies, n);
            let len = through.calls.len() as int;
            let hop = len / 2;
            through.leg matches Leg::Finished(result) ==> {
                if len % 2 == 1 {
                    &&& hop < n
                    &&& match replies[hop].pool {
                        Err(_) => result == Err::<i128, RouterError>(
                            RouterError::LookupFailed { hop: hop as u32 },
                        ),
                        Ok(None) => result == without_pool(mode, hop),
                        Ok(Some(pool)) => {
                            &&& !names_contract(pool)
                            &&& result == deal_amount(mode, hop, Err(CallFailed))
                        },
                    }
                } else if len > 0 && replies[hop - 1].out is Err {
                    &&& hop <= n
                    &&& result == deal_amount(mode, hop - 1, Err(CallFailed))
                } else {
                    &&& hop < n
                    &&& entries[hop] is None ==> result == Err::<i128, RouterError>(
                        RouterError::TokenUnreadable { index: hop as u32 },
                    )
                    &&& entries[hop] is Some && entries[hop + 1] is None ==> result == Err::<
                        i128,
                        RouterError,
                    >(RouterError::TokenUnreadable { index: (hop + 1) as u32 })
                    &&& entries[hop] is Some && entries[hop + 1] is Some ==> {
                        &&& !names_contract(factory)
                        &&& result == Err::<i128, RouterError>(
                            RouterError::LookupFailed { hop: hop as u32 },
                        )
                    }
                }
            }
        }),
    decreases n,
{
    if n > 0 {
        let m = (n - 1) as nat;
        lemma_walk_over(mode, factory, entries, amount_in, replies, m);
        lemma_walk_grounds(mode, factory, entries, amount_in, replies, m);
        let before = walk(mode, factory, entries, amount_in, replies, m);
        if before.leg is Carrying {
            let amount = before.leg->Carrying_0;
            let step = hop_of_path(mode, factory, entries, amount, n - 1, replies[n - 1]);
            let through = walk(mode, factory, entries, amount_in, replies, n);
            assert(through.calls.len() == 2 * m + step.calls.len());
            assert(step.calls.len() <= 2);
        }
    }
}

/// The calls of a swap, as they are recorded. It asks for the trader's authorisation; unless the
/// path is short or the amount is not positive, it reads the factory; and then, hop by hop:
///
/// - it asks the factory that was read, which is a contract, for the pool of the hop's two
///   tokens, in the order of the path;
/// - it has the pool that the factory named, which is a contract, swap the hop's first token for
///   the trader: all of `amount_in` at the first hop, and after that all of what the pool of the
///   hop before replied, with `min_out` as the guard of the last hop and zero before it.
pub proof fn law_swap_history(
    trader: Address,
    entries: Seq<Option<Address>>,
    amount_in: i128,
    min_out: i128,
    stored: Stored,
    replies: Seq<HopReply>,
)
    requires
        entries.len() <= u32::MAX,
    ensures
        ({
            let calls = swap_run(trader, entries, amount_in, min_out, stored, replies).calls;
            &&& calls.len() >= 1
            &&& calls[0] == (HostCall::RequireAuth { who: trader })
            &&& calls.len() == 1 <==> entries.len() < 2 || amount_in <= 0
            &&& calls.len() > 1 ==> calls[1] == (HostCall::StorageGet { key: "Factory"@, stored })
            &&& calls.len() > 1 ==> calls.len() <= 2 * entries.len()
            &&& forall|hop: int|
                #![trigger calls[2 * hop + 2]]
                2 <= 2 * hop + 2 < calls.len() ==> {
                    &&& stored matches Stored::Present(factory)
                    &&& strkey(factory).len() > 0 && strkey(factory)[0] == 67
                    &&& entries[hop] matches Some(token_in)
                    &&& entries[hop + 1] matches Some(token_out)
                    &&& calls[2 * hop + 2] matches HostCall::Invoke {
                        contract,
                        function,
                        args,
                        reply,
                    }
                    &&& contract == factory
                    &&& function == "get_pool"@
                    &&& args == seq![Arg::Address(token_in), Arg::Address(token_out)]
                    &&& reply is Failed || reply is Pool
                }
            &&& forall|hop: int|
                #![trigger calls[2 * hop + 3]]
                3 <= 2 * hop + 3 < calls.len() ==> {
                    &&& calls[2 * hop + 2] matches HostCall::Invoke {
                        reply: Reply::Pool(Some(pool)),
                        ..
                    }
                    &&& strkey(pool).len() > 0 && strkey(pool)[0] == 67
                    &&& calls[2 * hop + 3] matches HostCall::Invoke {
                        contract,
                        function,
                        args,
                        reply,
                    }
                    &&& contract == pool
                    &&& function == "swap"@
                    &&& args.len() == 4
                    &&& args[0] == Arg::Address(trader)
                    &&& args[1] == Arg::Address(entries[hop]->0)
                    &&& hop == 0 ==> args[2] == Arg::Amount(amount_in)
                    &&& hop > 0 ==> (calls[2 * hop + 1] matches HostCall::Invoke {
                        reply: Reply::Amount(paid),
                        ..
                    } && args[2] == Arg::Amount(paid))
                    &&& hop + 2 == entries.len() ==> args[3] == Arg::Amount(min_out)
                    &&& hop + 2 != entries.len() ==> args[3] == Arg::Amount(0)
                    &&& reply is Failed || reply is Amount
                }
        }),
{
    let mode = Mode::Swap { trader, min_out };
    let run = swap_run(trader, entries, amount_in, min_out, stored, replies);
    if checked_hops(entries.len(), amount_in as int) is Ok && factory_of(stored) is Ok {
        let hops = (entries.len() - 1) as nat;
        let factory = stored->Present_0;
        let through = walk(mode, factory, entries, amount_in, replies, hops);
        lemma_walk_grounds(mode, factory, entries, amount_in, replies, hops);
        let opening = seq![HostCall::RequireAuth { who: trader }, factory_call(stored)];
        assert(run.calls =~= opening + through.calls);
        let calls = run.calls;
        assert forall|hop: int| #![trigger calls[2 * hop + 2]] 2 <= 2 * hop + 2
            < calls.len() implies calls[2 * hop + 2] == through.calls[2 * hop] by {}
        assert forall|hop: int| #![trigger calls[2 * hop + 3]] 3 <= 2 * hop + 3
            < calls.len() implies {
            &&& calls[2 * hop + 3] == through.calls[2 * hop + 1]
            &&& calls[2 * hop + 2] == through.calls[2 * hop]
            &&& hop > 0 ==> calls[2 * hop + 1] == through.calls[2 * (hop - 1) + 1]
        } by {}
    }
}

/// The result of a swap follows from its inputs and from what is recorded. It succeeds exactly
/// if the pool of the last hop was called and replied with an amount, and that amount is the
/// result. Otherwise the last call tells which hop it failed at and why.
pub proof fn law_swap_result(
    trader: Address,
    entries: Seq<Option<Address>>,
    amount_in: i128,
    min_out: i128,
    stored: Stored,
    replies: Seq<HopReply>,
)
    requires
        entries.len() <= u32::MAX,
    ensures
        ({
            let run = swap_run(trader, entries, amount_in, min_out, stored, replies);
            let calls = run.calls;
            let result = run.result;
            // the hops whose pool was called
            let hop = (calls.len() - 2) / 2;
            if entries.len() < 2 {
                result == Err::<i128, RouterError>(RouterError::PathTooShort)
            } else if amount_in <= 0 {
                result == Err::<i128, RouterError>(RouterError::AmountNotPositive)
            } else {
                match stored {
                    Stored::Absent => result == Err::<i128, RouterError>(
                        RouterError::NotInitialized,
                    ),
                    Stored::Unreadable => result == Err::<i128, RouterError>(
                        RouterError::FactoryUnreadable,
                    ),
                    Stored::Present(factory) => {
                        if calls.len() % 2 == 1 {
                            // the last call is a lookup
                            match calls.last()->reply {
                                Reply::Failed => result == Err::<i128, RouterError>(
                                    RouterError::LookupFailed { hop: hop as u32 },
                                ),
                                Reply::Pool(None) => result == Err::<i128, RouterError>(
                                    RouterError::NoPool { hop: hop as u32 },
                                ),
                                Reply::Pool(Some(pool)) => {
                                    &&& !(strkey(pool).len() > 0 && strkey(pool)[0] == 67)
                                    &&& result == Err::<i128, RouterError>(
                                        RouterError::SwapFailed { hop: hop as u32 },
                                    )
                                },
                                Reply::Amount(_) => false,
                            }
                        } else if hop > 0 && calls.last()->reply is Failed {
                            result == Err::<i128, RouterError>(
                                RouterError::SwapFailed { hop: (hop - 1) as u32 },
                            )
                        } else if hop + 1 == entries.len() {
                            &&& calls.last()->reply is Amount
                            &&& result == Ok::<i128, RouterError>(calls.last()->reply->Amount_0)
                        } else if entries[hop] is None {
                            result == Err::<i128, RouterError>(
                                RouterError::TokenUnreadable { index: hop as u32 },
                            )
                        } else if entries[hop + 1] is None {
                            result == Err::<i128, RouterError>(
                                RouterError::TokenUnreadable { index: (hop + 1) as u32 },
                            )
                        } else {
                            &&& !(strkey(factory).len() > 0 && strkey(factory)[0] == 67)
                            &&& result == Err::<i128, RouterError>(
                                RouterError::LookupFailed { hop: hop as u32 },
                            )
                        }
                    },
                }
            }
        }),
{
    let mode = Mode::Swap { trader, min_out };
    let run = swap_run(trader, entries, amount_in, min_out, stored, replies);
    if checked_hops(entries.len(), amount_in as int) is Ok && factory_of(stored) is Ok {
        let hops = (entries.len() - 1) as nat;
        let factory = stored->Present_0;
        let through = walk(mode, factory, entries, amount_in, replies, hops);
        lemma_walk_grounds(mode, factory, entries, amount_in, replies, hops);
        lemma_walk_over(mode, factory, entries, amount_in, replies, hops);
        let opening = seq![HostCall::RequireAuth { who: trader }, factory_call(stored)];
        assert(run.calls =~= opening + through.calls);
        let len = through.calls.len() as int;
        let hop = len / 2;
        assert((run.calls.len() - 2) / 2 == hop);
        if len > 0 {
            assert(run.calls.last() == through.calls[len - 1]);
            if len % 2 == 1 {
                assert(through.calls[len - 1] == through.calls[2 * hop]);
            } else {
                assert(through.calls[len - 1] == through.calls[2 * (hop - 1) + 1]);
            }
        }
    }
}

/// A swap that succeeds ends with a call that holds the last pool to `min_out`, and returns what
/// that pool replied. So where the pool keeps to the guard that it is told, the trader gets at
/// least `min_out`.
pub proof fn law_swap_ends_guarded(
    trader: Address,
    entries: Seq<Option<Address>>,
    amount_in: i128,
    min_out: i128,
    stored: Stored,
    replies: Seq<HopReply>,
)
    requires
        entries.len() <= u32::MAX,
    ensures
        ({
            let run = swap_run(trader, entries, amount_in, min_out, stored, replies);
            run.result matches Ok(out) ==> {
                &&& run.calls.last() matches HostCall::Invoke { function, args, reply, .. }
                &&& function == "swap"@
                &&& args.len() == 4
                &&& args[0] == Arg::Address(trader)
                &&& args[3] == Arg::Amount(min_out)
                &&& reply == Reply::Amount(out)
                &&& reply->Amount_0 >= args[3]->Amount_0 ==> out >= min_out
            }
        }),
{
    let run = swap_run(trader, entries, amount_in, min_out, stored, replies);
    law_swap_history(trader, entries, amount_in, min_out, stored, replies);
    law_swap_result(trader, entries, amount_in, min_out, stored, replies);
    if run.result is Ok {
        let hop = entries.len() - 2;
        assert(run.calls.last() == run.calls[2 * hop + 3]);
    }
}

/// The calls of a quote, as they are recorded. Unless the path is short or the amount is not
/// positive, it reads the factory; and then, hop by hop:
///
/// - it asks the factory that was read, which is a contract, for the pool of the hop's two
///   tokens, in the order of the path;
/// - it asks the pool that the factory named, which is a contract, what it would pay out for the
///   hop's first token: for all of `amount_in` at the first hop, and after that for all of what
///   the pool of the hop before replied.
pub proof fn law_quote_history(
    entries: Seq<Option<Address>>,
    amount_in: i128,
    stored: Stored,
    replies: Seq<HopReply>,
)
    requires
        entries.len() <= u32::MAX,
    ensures
        ({
            let calls = quote_run(entries, amount_in, stored, replies).calls;
            &&& calls.len() == 0 <==> entries.len() < 2 || amount_in <= 0
            &&& calls.len() > 0 ==> calls[0] == (HostCall::StorageGet { key: "Factory"@, stored })
            &&& calls.len() > 0 ==> calls.len() < 2 * entries.len()
            &&& forall|hop: int|
                #![trigger calls[2 * hop + 1]]
                1 <= 2 * hop + 1 < calls.len() ==> {
                    &&& stored matches Stored::Present(factory)
                    &&& strkey(factory).len() > 0 && strkey(factory)[0] == 67
                    &&& entries[hop] matches Some(token_in)
                    &&& entries[hop + 1] matches Some(token_out)
                    &&& calls[2 * hop + 1] matches HostCall::Invoke {
                        contract,
                        function,
                        args,
                        reply,
                    }
                    &&& contract == factory
                    &&& function == "get_pool"@
                    &&& args == seq![Arg::Address(token_in), Arg::Address(token_out)]
                    &&& reply is Failed || reply is Pool
                }
            &&& forall|hop: int|
                #![trigger calls[2 * hop + 2]]
                2 <= 2 * hop + 2 < calls.len() ==> {
                    &&& calls[2 * hop + 1] matches HostCall::Invoke {
                        reply: Reply::Pool(Some(pool)),
                        ..
                    }
                    &&& strkey(pool).len() > 0 && strkey(pool)[0] == 67
                    &&& calls[2 * hop + 2] matches HostCall::Invoke {
                        contract,
                        function,
                        args,
                        reply,
                    }
                    &&& contract == pool
                    &&& function == "get_amount_out"@
                    &&& args.len() == 2
                    &&& args[0] == Arg::Address(entries[hop]->0)
                    &&& hop == 0 ==> args[1] == Arg::Amount(amount_in)
                    &&& hop > 0 ==> (calls[2 * hop] matches HostCall::Invoke {
                        reply: Reply::Amount(quoted),
                        ..
                    } && args[1] == Arg::Amount(quoted))
                    &&& reply is Failed || reply is Amount
                }
        }),
{
    let mode = Mode::Quote;
    let run = quote_run(entries, amount_in, stored, replies);
    if checked_hops(entries.len(), amount_in as int) is Ok && factory_of(stored) is Ok {
        let hops = (entries.len() - 1) as nat;
        let factory = stored->Present_0;
        let through = walk(mode, factory, entries, amount_in, replies, hops);
        lemma_walk_grounds(mode, factory, entries, amount_in, replies, hops);
        let calls = run.calls;
        assert(calls =~= seq![factory_call(stored)] + through.calls);
        assert forall|hop: int| #![trigger calls[2 * hop + 1]] 1 <= 2 * hop + 1
            < calls.len() implies calls[2 * hop + 1] == through.calls[2 * hop] by {}
        assert forall|hop: int| #![trigger calls[2 * hop + 2]] 2 <= 2 * hop + 2
            < calls.len() implies {
            &&& calls[2 * hop + 2] == through.calls[2 * hop + 1]
            &&& calls[2 * hop + 1] == through.calls[2 * hop]
            &&& hop > 0 ==> calls[2 * hop] == through.calls[2 * (hop - 1) + 1]
        } by {}
    }
}

/// The result of a quote follows from its inputs and from what is recorded. It is the amount
/// that the pool of the last hop replied with, if it came to that, and zero if the factory
/// replied that a hop has no pool. Otherwise the last call tells which hop it failed at and why.
pub proof fn law_quote_result(
    entries: Seq<Option<Address>>,
    amount_in: i128,
    stored: Stored,
    replies: Seq<HopReply>,
)
    requires
        entries.len() <= u32::MAX,
    ensures
        ({
            let run = quote_run(entries, amount_in, stored, replies);
            let calls = run.calls;
            let result = run.result;
            // the hops whose pool was asked
            let hop = (calls.len() - 1) / 2;
            if entries.len() < 2 {
                result == Err::<i128, RouterError>(RouterError::PathTooShort)
            } else if amount_in <= 0 {
                result == Err::<i128, RouterError>(RouterError::AmountNotPositive)
            } else {
                match stored {
                    Stored::Absent => result == Err::<i128, RouterError>(
                        RouterError::NotInitialized,
                    ),
                    Stored::Unreadable => result == Err::<i128, RouterError>(
                        RouterError::FactoryUnreadable,
                    ),
                    Stored::Present(factory) => {
                        if calls.len() % 2 == 0 {
                            // the last call is a lookup
                            match calls.last()->reply {
                                Reply::Failed => result == Err::<i128, RouterError>(
                                    RouterError::LookupFailed { hop: hop as u32 },
                                ),
                                Reply::Pool(None) => result == Ok::<i128, RouterError>(0),
                                Reply::Pool(Some(pool)) => {
                                    &&& !(strkey(pool).len() > 0 && strkey(pool)[0] == 67)
                                    &&& result == Err::<i128, RouterError>(
                                        RouterError::QuoteFailed { hop: hop as u32 },
                                    )
                                },
                                Reply::Amount(_) => false,
                            }
                        } else if hop > 0 && calls.last()->reply is Failed {
                            result == Err::<i128, RouterError>(
                                RouterError::QuoteFailed { hop: (hop - 1) as u32 },
                            )
                        } else if hop + 1 == entries.len() {
                            &&& calls.last()->reply is Amount
                            &&& result == Ok::<i128, RouterError>(calls.last()->reply->Amount_0)
                        } else if entries[hop] is None {
                            result == Err::<i128, RouterError>(
                                RouterError::TokenUnreadable { index: hop as u32 },
                            )
                        } else if entries[hop + 1] is None {
                            result == Err::<i128, RouterError>(
                                RouterError::TokenUnreadable { index: (hop + 1) as u32 },
                            )
                        } else {
                            &&& !(strkey(factory).len() > 0 && strkey(factory)[0] == 67)
                            &&& result == Err::<i128, RouterError>(
                                RouterError::LookupFailed { hop: hop as u32 },
                            )
                        }
                    },
                }
            }
        }),
{
    let mode = Mode::Quote;
    let run = quote_run(entries, amount_in, stored, replies);
    if checked_hops(entries.len(), amount_in as int) is Ok && factory_of(stored) is Ok {
        let hops = (entries.len() - 1) as nat;
        let factory = stored->Present_0;
        let through = walk(mode, factory, entries, amount_in, replies, hops);
        lemma_walk_grounds(mode, factory, entries, amount_in, replies, hops);
        lemma_walk_over(mode, factory, entries, amount_in, replies, hops);
        assert(run.calls =~= seq![factory_call(stored)] + through.calls);
        let len = through.calls.len() as int;
        let hop = len / 2;
        assert((run.calls.len() - 1) / 2 == hop);
        if len > 0 {
            assert(run.calls.last() == through.calls[len - 1]);
            if len % 2 == 1 {
                assert(through.calls[len - 1] == through.calls[2 * hop]);
            } else {
                assert(through.calls[len - 1] == through.calls[2 * (hop - 1) + 1]);
            }
        }
    }
}

} // verus!
