//! What holds of swaps and quotes as a whole, for every reply of the host.

use soroban_sdk::Address;
use vstd::prelude::*;

use crate::error::{CallFailed, RouterError};
use crate::factory_laws::writes_nothing;
use crate::host::{names_contract, HostCall, Stored};
use crate::interfaces::{get_amount_out_call, get_pool_call, swap_call};
use crate::route::{
    arrived, checked_hops, deal_call, factory_of, hop_floor, hop_of_path, lemma_walk_finished,
    walk, HopReply, Leg, Mode,
};
use crate::router::{factory_call, quote_run, swap_run};

verus! {

/// The amount that goes into hop `hop` once the hops before it went through.
pub open spec fn amount_into(amount_in: i128, replies: Seq<HopReply>, hop: int) -> i128 {
    if hop == 0 {
        amount_in
    } else {
        replies[hop - 1].out->Ok_0
    }
}

/// Whether hop `hop` can go through: its two tokens can be read, the factory is a contract that
/// knows its pool, and the pool is a contract that gives an amount.
pub open spec fn passable(
    factory: Address,
    entries: Seq<Option<Address>>,
    replies: Seq<HopReply>,
    hop: int,
) -> bool {
    &&& entries[hop] is Some
    &&& entries[hop + 1] is Some
    &&& names_contract(factory)
    &&& replies[hop].pool matches Ok(Some(pool))
    &&& names_contract(pool)
    &&& replies[hop].out is Ok
}

/// Whether the factory replies that there is no pool for hop `hop`.
pub open spec fn without_pool_at(replies: Seq<HopReply>, hop: int) -> bool {
    replies[hop].pool == Ok::<Option<Address>, CallFailed>(None)
}

/// The calls of a walk, whether it goes through or not: hop by hop a lookup and then a deal, each
/// with what the hop before gave. It goes through exactly if each of its hops can, and then
/// carries what the last pool gave.
proof fn lemma_walk_calls(
    mode: Mode,
    factory: Address,
    entries: Seq<Option<Address>>,
    amount_in: i128,
    replies: Seq<HopReply>,
    n: nat,
)
    ensures
        ({
            let through = walk(mode, factory, entries, amount_in, replies, n);
            &&& through.calls.len() <= 2 * n
            &&& forall|k: int|
                #![trigger through.calls[2 * k]]
                0 <= 2 * k < through.calls.len() ==> through.calls[2 * k] == get_pool_call(
                    factory,
                    entries[k]->0,
                    entries[k + 1]->0,
                    replies[k].pool,
                )
            &&& forall|k: int|
                #![trigger through.calls[2 * k + 1]]
                0 <= 2 * k + 1 < through.calls.len() ==> through.calls[2 * k + 1] == deal_call(
                    mode,
                    replies[k].pool->Ok_0->0,
                    entries[k]->0,
                    amount_into(amount_in, replies, k),
                    k,
                    entries.len() - 1,
                    replies[k].out,
                )
            &&& through.leg is Carrying <==> forall|k: int|
                0 <= k < n ==> #[trigger] passable(factory, entries, replies, k)
            &&& through.leg is Carrying ==> through.calls.len() == 2 * n
            &&& through.leg is Carrying ==> through.leg == Leg::Carrying(
                amount_into(amount_in, replies, n as int),
            )
        }),
    decreases n,
{
    if n > 0 {
        let m = (n - 1) as nat;
        lemma_walk_calls(mode, factory, entries, amount_in, replies, m);
        let before = walk(mode, factory, entries, amount_in, replies, m);
        let through = walk(mode, factory, entries, amount_in, replies, n);
        if before.leg is Carrying {
            let amount = before.leg->Carrying_0;
            let step = hop_of_path(mode, factory, entries, amount, n - 1, replies[n - 1]);
            assert(through.calls == before.calls + step.calls);
            assert(through.leg is Carrying <==> passable(factory, entries, replies, n - 1));
            assert forall|k: int|
                #![trigger through.calls[2 * k]]
                0 <= 2 * k < through.calls.len() implies through.calls[2 * k] == get_pool_call(
                factory,
                entries[k]->0,
                entries[k + 1]->0,
                replies[k].pool,
            ) by {
                if k < m {
                    assert(through.calls[2 * k] == before.calls[2 * k]);
                } else {
                    assert(k == m);
                    assert(through.calls[2 * k] == step.calls[0]);
                }
            }
            assert forall|k: int|
                #![trigger through.calls[2 * k + 1]]
                0 <= 2 * k + 1 < through.calls.len() implies through.calls[2 * k + 1]
                == deal_call(
                mode,
                replies[k].pool->Ok_0->0,
                entries[k]->0,
                amount_into(amount_in, replies, k),
                k,
                entries.len() - 1,
                replies[k].out,
            ) by {
                if k < m {
                    assert(through.calls[2 * k + 1] == before.calls[2 * k + 1]);
                } else {
                    assert(k == m);
                    assert(through.calls[2 * k + 1] == step.calls[1]);
                }
            }
        } else {
            let k = choose|k: int|
                0 <= k < m && !#[trigger] passable(factory, entries, replies, k);
            assert(!passable(factory, entries, replies, k));
        }
    }
}

/// Whether a request along a path can go through from beginning to end.
pub open spec fn all_passable(
    entries: Seq<Option<Address>>,
    amount_in: i128,
    stored: Stored,
    replies: Seq<HopReply>,
) -> bool {
    &&& entries.len() >= 2
    &&& amount_in > 0
    &&& stored is Present
    &&& forall|k: int|
        0 <= k < entries.len() - 1 ==> #[trigger] passable(
            stored->Present_0,
            entries,
            replies,
            k,
        )
}

/// A swap succeeds exactly if the path has two tokens, the amount is positive, the router has a
/// factory and every hop can go through; the trader then receives what the last pool paid out.
pub proof fn law_swap_succeeds(
    trader: Address,
    entries: Seq<Option<Address>>,
    amount_in: i128,
    min_out: i128,
    stored: Stored,
    replies: Seq<HopReply>,
)
    requires
        entries.len() <= u32::MAX,
    ensures
        ({
            let run = swap_run(trader, entries, amount_in, min_out, stored, replies);
            &&& run.result is Ok <==> all_passable(entries, amount_in, stored, replies)
            &&& run.result is Ok ==> run.result->Ok_0 == replies[entries.len() - 2].out->Ok_0
        }),
{
    if checked_hops(entries.len(), amount_in as int) is Ok && factory_of(stored) is Ok {
        let mode = Mode::Swap { trader, min_out };
        let hops = (entries.len() - 1) as nat;
        let factory = factory_of(stored)->Ok_0;
        lemma_walk_calls(mode, factory, entries, amount_in, replies, hops);
        lemma_swap_walk_ends(trader, min_out, factory, entries, amount_in, replies, hops);
    }
}

/// A swap that is over before its last hop is refused.
proof fn lemma_swap_walk_ends(
    trader: Address,
    min_out: i128,
    factory: Address,
    entries: Seq<Option<Address>>,
    amount_in: i128,
    replies: Seq<HopReply>,
    n: nat,
)
    ensures
        walk(
            Mode::Swap { trader, min_out },
            factory,
            entries,
            amount_in,
            replies,
            n,
        ).leg matches Leg::Finished(result) ==> result is Err,
    decreases n,
{
    if n > 0 {
        lemma_swap_walk_ends(
            trader,
            min_out,
            factory,
            entries,
            amount_in,
            replies,
            (n - 1) as nat,
        );
    }
}

/// A swap asks for the trader's authorisation first, then reads the factory, and then goes hop
/// by hop: it looks up the pool of the hop's two tokens and has it swap, for the trader, all of
/// what the hop before paid out. Only the pool of the last hop is held to `min_out`; every other
/// pool is held to zero. This is so of a swap that fails on the way, too.
pub proof fn law_swap_calls(
    trader: Address,
    entries: Seq<Option<Address>>,
    amount_in: i128,
    min_out: i128,
    stored: Stored,
    replies: Seq<HopReply>,
)
    requires
        entries.len() <= u32::MAX,
    ensures
        ({
            let run = swap_run(trader, entries, amount_in, min_out, stored, replies);
            let factory = stored->Present_0;
            &&& run.calls.len() >= 1
            &&& run.calls.len() > 1 ==> run.calls.len() <= 2 * entries.len()
            &&& run.calls[0] == (HostCall::RequireAuth { who: trader })
            &&& run.calls.len() > 1 ==> run.calls[1] == factory_call(stored)
            &&& forall|hop: int|
                #![trigger run.calls[2 * hop + 2]]
                2 <= 2 * hop + 2 < run.calls.len() ==> run.calls[2 * hop + 2] == get_pool_call(
                    factory,
                    entries[hop]->0,
                    entries[hop + 1]->0,
                    replies[hop].pool,
                )
            &&& forall|hop: int|
                #![trigger run.calls[2 * hop + 3]]
                3 <= 2 * hop + 3 < run.calls.len() ==> run.calls[2 * hop + 3] == swap_call(
                    replies[hop].pool->Ok_0->0,
                    trader,
                    entries[hop]->0,
                    amount_into(amount_in, replies, hop),
                    if hop == entries.len() - 2 {
                        min_out
                    } else {
                        0
                    },
                    replies[hop].out,
                )
            &&& run.result is Ok ==> run.calls.len() == 2 * entries.len()
        }),
{
    let mode = Mode::Swap { trader, min_out };
    let run = swap_run(trader, entries, amount_in, min_out, stored, replies);
    if checked_hops(entries.len(), amount_in as int) is Ok && factory_of(stored) is Ok {
        let hops = (entries.len() - 1) as nat;
        let factory = factory_of(stored)->Ok_0;
        let through = walk(mode, factory, entries, amount_in, replies, hops);
        lemma_walk_calls(mode, factory, entries, amount_in, replies, hops);
        lemma_swap_walk_ends(trader, min_out, factory, entries, amount_in, replies, hops);
        let opening = seq![HostCall::RequireAuth { who: trader }, factory_call(stored)];
        assert(run.calls =~= opening + through.calls);
        assert forall|hop: int|
            #![trigger run.calls[2 * hop + 2]]
            2 <= 2 * hop + 2 < run.calls.len() implies run.calls[2 * hop + 2] == get_pool_call(
            factory,
            entries[hop]->0,
            entries[hop + 1]->0,
            replies[hop].pool,
        ) by {
            assert(run.calls[2 * hop + 2] == through.calls[2 * hop]);
        }
        assert forall|hop: int|
            #![trigger run.calls[2 * hop + 3]]
            3 <= 2 * hop + 3 < run.calls.len() implies run.calls[2 * hop + 3] == swap_call(
            replies[hop].pool->Ok_0->0,
            trader,
            entries[hop]->0,
            amount_into(amount_in, replies, hop),
            hop_floor(hop, entries.len() - 1, min_out),
            replies[hop].out,
        ) by {
            assert(run.calls[2 * hop + 3] == through.calls[2 * hop + 1]);
        }
    }
}

/// A quote goes through exactly if the path has two tokens, the amount is positive, the router
/// has a factory and every hop can go through; it is then what the last pool quoted. Short of
/// that it fails, or, where it comes to a hop without a pool, it is zero.
pub proof fn law_quote_succeeds(
    entries: Seq<Option<Address>>,
    amount_in: i128,
    stored: Stored,
    replies: Seq<HopReply>,
)
    requires
        entries.len() <= u32::MAX,
    ensures
        ({
            let run = quote_run(entries, amount_in, stored, replies);
            &&& all_passable(entries, amount_in, stored, replies) ==> run.result == Ok::<
                i128,
                RouterError,
            >(replies[entries.len() - 2].out->Ok_0)
            &&& !all_passable(entries, amount_in, stored, replies) ==> run.result is Err || {
                &&& run.result == Ok::<i128, RouterError>(0i128)
                &&& exists|hop: int|
                    0 <= hop < entries.len() - 1 && #[trigger] without_pool_at(replies, hop)
            }
        }),
{
    if checked_hops(entries.len(), amount_in as int) is Ok && factory_of(stored) is Ok {
        let hops = (entries.len() - 1) as nat;
        let factory = factory_of(stored)->Ok_0;
        lemma_walk_calls(Mode::Quote, factory, entries, amount_in, replies, hops);
        lemma_quote_walk_ends(factory, entries, amount_in, replies, hops);
    }
}

/// A quote that is over before its last hop failed, or is zero because a hop has no pool.
proof fn lemma_quote_walk_ends(
    factory: Address,
    entries: Seq<Option<Address>>,
    amount_in: i128,
    replies: Seq<HopReply>,
    n: nat,
)
    ensures
        walk(Mode::Quote, factory, entries, amount_in, replies, n).leg matches Leg::Finished(
            result,
        ) ==> result is Err || {
            &&& result == Ok::<i128, RouterError>(0i128)
            &&& exists|hop: int| 0 <= hop < n && #[trigger] without_pool_at(replies, hop)
        },
    decreases n,
{
    if n > 0 {
        lemma_quote_walk_ends(factory, entries, amount_in, replies, (n - 1) as nat);
        if replies[n - 1].pool == Ok::<Option<Address>, CallFailed>(None) {
            assert(without_pool_at(replies, n - 1));
        }
    }
}

/// A quote only asks: it reads the factory, and then, hop by hop, looks up the pool of the hop's
/// two tokens and asks it what it would pay out for all of what the hop before quoted. This is
/// so of a quote that fails on the way, too.
pub proof fn law_quote_calls(
    entries: Seq<Option<Address>>,
    amount_in: i128,
    stored: Stored,
    replies: Seq<HopReply>,
)
    requires
        entries.len() <= u32::MAX,
    ensures
        ({
            let run = quote_run(entries, amount_in, stored, replies);
            let factory = stored->Present_0;
            &&& run.calls.len() > 0 ==> run.calls.len() < 2 * entries.len()
            &&& run.calls.len() > 0 ==> run.calls[0] == factory_call(stored)
            &&& forall|hop: int|
                #![trigger run.calls[2 * hop + 1]]
                1 <= 2 * hop + 1 < run.calls.len() ==> run.calls[2 * hop + 1] == get_pool_call(
                    factory,
                    entries[hop]->0,
                    entries[hop + 1]->0,
                    replies[hop].pool,
                )
            &&& forall|hop: int|
                #![trigger run.calls[2 * hop + 2]]
                2 <= 2 * hop + 2 < run.calls.len() ==> run.calls[2 * hop + 2]
                    == get_amount_out_call(
                    replies[hop].pool->Ok_0->0,
                    entries[hop]->0,
                    amount_into(amount_in, replies, hop),
                    replies[hop].out,
                )
        }),
{
    let run = quote_run(entries, amount_in, stored, replies);
    if checked_hops(entries.len(), amount_in as int) is Ok && factory_of(stored) is Ok {
        let hops = (entries.len() - 1) as nat;
        let factory = factory_of(stored)->Ok_0;
        let through = walk(Mode::Quote, factory, entries, amount_in, replies, hops);
        lemma_walk_calls(Mode::Quote, factory, entries, amount_in, replies, hops);
        assert forall|hop: int|
            #![trigger run.calls[2 * hop + 1]]
            1 <= 2 * hop + 1 < run.calls.len() implies run.calls[2 * hop + 1] == get_pool_call(
            factory,
            entries[hop]->0,
            entries[hop + 1]->0,
            replies[hop].pool,
        ) by {
            assert(run.calls[2 * hop + 1] == through.calls[2 * hop]);
        }
        assert forall|hop: int|
            #![trigger run.calls[2 * hop + 2]]
            2 <= 2 * hop + 2 < run.calls.len() implies run.calls[2 * hop + 2]
            == get_amount_out_call(
            replies[hop].pool->Ok_0->0,
            entries[hop]->0,
            amount_into(amount_in, replies, hop),
            replies[hop].out,
        ) by {
            assert(run.calls[2 * hop + 2] == through.calls[2 * hop + 1]);
        }
    }
}

/// A quote matches the execution: where every pool pays out what it quotes, that is, where the
/// host replies to the swap as it does to the quote, a swap that succeeds pays what was quoted,
/// and a quote that does not fail is what the swap pays, unless a hop has no pool.
pub proof fn law_quote_matches_execution(
    trader: Address,
    entries: Seq<Option<Address>>,
    amount_in: i128,
    min_out: i128,
    stored: Stored,
    replies: Seq<HopReply>,
)
    requires
        entries.len() <= u32::MAX,
    ensures
        ({
            let swap = swap_run(trader, entries, amount_in, min_out, stored, replies);
            let quote = quote_run(entries, amount_in, stored, replies);
            &&& swap.result is Ok ==> quote.result == swap.result
            &&& quote.result is Ok ==> swap.result == quote.result || exists|hop: int|
                0 <= hop < entries.len() - 1 && #[trigger] without_pool_at(replies, hop)
        }),
{
    law_swap_succeeds(trader, entries, amount_in, min_out, stored, replies);
    law_quote_succeeds(entries, amount_in, stored, replies);
}

/// Whether the pool that was called paid out no less than it was told to.
pub open spec fn pays_floor(call: HostCall) -> bool {
    forall|pool: Address, trader: Address, token_in: Address, amount: i128, floor: i128, out: i128|
        call == #[trigger] swap_call(pool, trader, token_in, amount, floor, Ok(out)) ==> out
            >= floor
}

/// The slippage guard holds end to end: where the pool that is called last pays out no less than
/// it is told to, a swap that succeeds pays at least `min_out`.
pub proof fn law_swap_pays_min_out(
    trader: Address,
    entries: Seq<Option<Address>>,
    amount_in: i128,
    min_out: i128,
    stored: Stored,
    replies: Seq<HopReply>,
)
    requires
        entries.len() <= u32::MAX,
        ({
            let run = swap_run(trader, entries, amount_in, min_out, stored, replies);
            run.result is Ok ==> pays_floor(run.calls.last())
        }),
    ensures
        swap_run(trader, entries, amount_in, min_out, stored, replies).result matches Ok(out)
            ==> out >= min_out,
{
    let run = swap_run(trader, entries, amount_in, min_out, stored, replies);
    law_swap_succeeds(trader, entries, amount_in, min_out, stored, replies);
    law_swap_calls(trader, entries, amount_in, min_out, stored, replies);
    if run.result is Ok {
        let hop = entries.len() - 2;
        assert(passable(stored->Present_0, entries, replies, hop));
        assert(run.calls.last() == run.calls[2 * hop + 3]);
        assert(run.calls[2 * hop + 3] == swap_call(
            replies[hop].pool->Ok_0->0,
            trader,
            entries[hop]->0,
            amount_into(amount_in, replies, hop),
            min_out,
            Ok(replies[hop].out->Ok_0),
        ));
    }
}

/// A quote along a path with a hop that has no pool is zero, unless it fails before it comes to
/// that hop.
pub proof fn law_quote_without_pool_is_zero(
    entries: Seq<Option<Address>>,
    amount_in: i128,
    stored: Stored,
    replies: Seq<HopReply>,
    hop: int,
)
    requires
        entries.len() <= u32::MAX,
        0 <= hop < entries.len() - 1,
        without_pool_at(replies, hop),
        quote_run(entries, amount_in, stored, replies).result is Ok,
    ensures
        quote_run(entries, amount_in, stored, replies).result == Ok::<i128, RouterError>(0i128),
{
    law_quote_succeeds(entries, amount_in, stored, replies);
    assert(!passable(stored->Present_0, entries, replies, hop));
}

/// At the first hop without a pool a quote is zero and a swap is refused, with the error that
/// names the hop; the pools of the hops before it have been told to swap, or asked, and nothing
/// is asked after the lookup of that hop.
pub proof fn law_first_hop_without_pool(
    trader: Address,
    entries: Seq<Option<Address>>,
    amount_in: i128,
    min_out: i128,
    stored: Stored,
    replies: Seq<HopReply>,
    hop: int,
)
    requires
        entries.len() <= u32::MAX,
        amount_in > 0,
        stored is Present,
        names_contract(stored->Present_0),
        0 <= hop < entries.len() - 1,
        forall|k: int|
            0 <= k < hop ==> #[trigger] passable(stored->Present_0, entries, replies, k),
        entries[hop] is Some,
        entries[hop + 1] is Some,
        without_pool_at(replies, hop),
    ensures
        quote_run(entries, amount_in, stored, replies).result == Ok::<i128, RouterError>(0i128),
        quote_run(entries, amount_in, stored, replies).calls.len() == 2 * hop + 2,
        swap_run(trader, entries, amount_in, min_out, stored, replies).result == Err::<
            i128,
            RouterError,
        >(RouterError::NoPool { hop: hop as u32 }),
        swap_run(trader, entries, amount_in, min_out, stored, replies).calls.len() == 2 * hop + 3,
{
    let factory = stored->Present_0;
    let swap = Mode::Swap { trader, min_out };
    let hops = (entries.len() - 1) as nat;
    lemma_walk_calls(swap, factory, entries, amount_in, replies, hop as nat);
    lemma_walk_calls(Mode::Quote, factory, entries, amount_in, replies, hop as nat);
    lemma_walk_finished(swap, factory, entries, amount_in, replies, (hop + 1) as nat, hops);
    lemma_walk_finished(Mode::Quote, factory, entries, amount_in, replies, (hop + 1) as nat, hops);
}

/// Swaps and quotes write nothing to the router's storage, and neither does reading the factory.
pub proof fn law_requests_write_nothing(
    trader: Address,
    entries: Seq<Option<Address>>,
    amount_in: i128,
    min_out: i128,
    stored: Stored,
    replies: Seq<HopReply>,
)
    requires
        entries.len() <= u32::MAX,
    ensures
        writes_nothing(swap_run(trader, entries, amount_in, min_out, stored, replies).calls),
        writes_nothing(quote_run(entries, amount_in, stored, replies).calls),
        writes_nothing(seq![factory_call(stored)]),
{
    let swap = swap_run(trader, entries, amount_in, min_out, stored, replies);
    let quote = quote_run(entries, amount_in, stored, replies);
    law_swap_calls(trader, entries, amount_in, min_out, stored, replies);
    law_quote_calls(entries, amount_in, stored, replies);
    assert forall|i: int| 0 <= i < swap.calls.len() implies !(
        #[trigger] swap.calls[i] is StorageSet) by {
        if i >= 2 {
            let hop = (i - 2) / 2;
            assert(i == 2 * hop + 2 || i == 2 * hop + 3);
        }
    }
    assert forall|i: int| 0 <= i < quote.calls.len() implies !(
        #[trigger] quote.calls[i] is StorageSet) by {
        if i >= 1 {
            let hop = (i - 1) / 2;
            assert(i == 2 * hop + 1 || i == 2 * hop + 2);
        }
    }
}

/// A quote carries nothing out: it neither asks for an authorisation, nor writes to the storage,
/// nor tells any pool to swap.
pub proof fn law_quote_carries_nothing_out(
    entries: Seq<Option<Address>>,
    amount_in: i128,
    stored: Stored,
    replies: Seq<HopReply>,
)
    requires
        entries.len() <= u32::MAX,
    ensures
        ({
            let run = quote_run(entries, amount_in, stored, replies);
            forall|i: int|
                0 <= i < run.calls.len() ==> match #[trigger] run.calls[i] {
                    HostCall::RequireAuth { .. } => false,
                    HostCall::StorageSet { .. } => false,
                    HostCall::Invoke { function, .. } => function != "swap"@,
                    _ => true,
                }
        }),
{
    let run = quote_run(entries, amount_in, stored, replies);
    law_quote_calls(entries, amount_in, stored, replies);
    reveal_strlit("swap");
    reveal_strlit("get_pool");
    reveal_strlit("get_amount_out");
    assert("get_pool"@.len() != "swap"@.len());
    assert("get_amount_out"@.len() != "swap"@.len());
    assert forall|i: int| 0 <= i < run.calls.len() implies match #[trigger] run.calls[i] {
        HostCall::RequireAuth { .. } => false,
        HostCall::StorageSet { .. } => false,
        HostCall::Invoke { function, .. } => function != "swap"@,
        _ => true,
    } by {
        if i >= 1 {
            let hop = (i - 1) / 2;
            assert(i == 2 * hop + 1 || i == 2 * hop + 2);
        }
    }
}

/// Whether whatever `calls` calls is a contract.
pub open spec fn calls_contracts(calls: Seq<HostCall>) -> bool {
    forall|i: int|
        0 <= i < calls.len() ==> (#[trigger] calls[i] matches HostCall::Invoke { contract, .. }
            ==> names_contract(contract))
}

/// Swaps and quotes call contracts only, whatever the storage gives as the factory, and whatever
/// the factory gives as a pool. A factory that is not a contract is not called at all, and no
/// request along a path with readable tokens gets past its first hop.
pub proof fn law_only_contracts_are_called(
    trader: Address,
    entries: Seq<Option<Address>>,
    amount_in: i128,
    min_out: i128,
    stored: Stored,
    replies: Seq<HopReply>,
)
    requires
        entries.len() <= u32::MAX,
    ensures
        ({
            let swap = swap_run(trader, entries, amount_in, min_out, stored, replies);
            let quote = quote_run(entries, amount_in, stored, replies);
            let stopped = checked_hops(entries.len(), amount_in as int) is Ok && stored is Present
                && !names_contract(stored->Present_0) && entries[0] is Some && entries[1] is Some;
            let refused = Err::<i128, RouterError>(RouterError::LookupFailed { hop: 0 });
            &&& calls_contracts(swap.calls)
            &&& calls_contracts(quote.calls)
            &&& stopped ==> swap.result == refused && swap.calls.len() == 2
            &&& stopped ==> quote.result == refused && quote.calls.len() == 1
        }),
{
    let swap = swap_run(trader, entries, amount_in, min_out, stored, replies);
    let quote = quote_run(entries, amount_in, stored, replies);
    if checked_hops(entries.len(), amount_in as int) is Ok && stored is Present {
        let hops = (entries.len() - 1) as nat;
        let factory = stored->Present_0;
        let mode = Mode::Swap { trader, min_out };
        lemma_walk_contracts(mode, factory, entries, amount_in, replies, hops);
        lemma_walk_contracts(Mode::Quote, factory, entries, amount_in, replies, hops);
        if !names_contract(factory) && entries[0] is Some && entries[1] is Some {
            reveal_with_fuel(walk, 2);
            lemma_walk_finished(mode, factory, entries, amount_in, replies, 1, hops);
            lemma_walk_finished(Mode::Quote, factory, entries, amount_in, replies, 1, hops);
        }
    }
}

/// Whatever a walk calls is a contract.
proof fn lemma_walk_contracts(
    mode: Mode,
    factory: Address,
    entries: Seq<Option<Address>>,
    amount_in: i128,
    replies: Seq<HopReply>,
    n: nat,
)
    ensures
        calls_contracts(walk(mode, factory, entries, amount_in, replies, n).calls),
    decreases n,
{
    if n > 0 {
        lemma_walk_contracts(mode, factory, entries, amount_in, replies, (n - 1) as nat);
    }
}

/// A path of fewer than two tokens, and an amount that is not positive, are refused before
/// anything is asked of the storage, the factory or a pool; a swap of that kind is refused once
/// the trader's authorisation is there.
pub proof fn law_bad_requests_are_refused(
    trader: Address,
    entries: Seq<Option<Address>>,
    amount_in: i128,
    min_out: i128,
    stored: Stored,
    replies: Seq<HopReply>,
)
    requires
        entries.len() < 2 || amount_in <= 0,
    ensures
        ({
            let swap = swap_run(trader, entries, amount_in, min_out, stored, replies);
            let quote = quote_run(entries, amount_in, stored, replies);
            let error = if entries.len() < 2 {
                RouterError::PathTooShort
            } else {
                RouterError::AmountNotPositive
            };
            &&& swap.calls == seq![HostCall::RequireAuth { who: trader }]
            &&& swap.result == Err::<i128, RouterError>(error)
            &&& quote.calls == Seq::<HostCall>::empty()
            &&& quote.result == Err::<i128, RouterError>(error)
        }),
{
    let swap = swap_run(trader, entries, amount_in, min_out, stored, replies);
    assert(swap.calls =~= seq![HostCall::RequireAuth { who: trader }]);
}

/// A quote along a path is the quotes along its parts, one after the other: where the quote up
/// to the token at `middle` goes through and is positive, the quote along the whole path goes
/// through exactly if the one along the rest does with that amount, and they agree. It asks what
/// the two parts ask, and reads the factory once.
pub proof fn law_quote_composes(
    entries: Seq<Option<Address>>,
    amount_in: i128,
    stored: Stored,
    replies: Seq<HopReply>,
    middle: int,
)
    requires
        entries.len() <= u32::MAX,
        0 < middle < entries.len() - 1,
        replies.len() == entries.len() - 1,
        quote_run(entries.take(middle + 1), amount_in, stored, replies.take(middle)).result
            matches Ok(reached) && reached > 0,
    ensures
        ({
            let first = quote_run(
                entries.take(middle + 1),
                amount_in,
                stored,
                replies.take(middle),
            );
            let rest = quote_run(
                entries.skip(middle),
                first.result->Ok_0,
                stored,
                replies.skip(middle),
            );
            let whole = quote_run(entries, amount_in, stored, replies);
            &&& whole.result is Ok <==> rest.result is Ok
            &&& whole.result is Ok ==> whole.result == rest.result
            &&& whole.calls == first.calls + rest.calls.skip(1)
        }),
{
    let hops = (entries.len() - 1) as nat;
    let factory = stored->Present_0;
    let head = entries.take(middle + 1);
    let head_replies = replies.take(middle);
    let mode = Mode::Quote;
    law_quote_succeeds(head, amount_in, stored, head_replies);
    assert(all_passable(head, amount_in, stored, head_replies));
    let first = quote_run(head, amount_in, stored, head_replies);
    let reached = first.result->Ok_0;
    lemma_walk_calls(mode, factory, head, amount_in, head_replies, middle as nat);
    lemma_walk_head(mode, mode, factory, entries, amount_in, replies, middle as nat, middle as nat);
    lemma_walk_rest(mode, factory, entries, amount_in, replies, reached, middle as nat, hops);
    let rest = quote_run(entries.skip(middle), reached, stored, replies.skip(middle));
    let whole = quote_run(entries, amount_in, stored, replies);
    assert(whole.calls =~= first.calls + rest.calls.skip(1));
}

/// A swap along a path is the swaps along its parts, one after the other: where a swap up to the
/// token at `middle`, without a guard, goes through and pays a positive amount, the swap along
/// the whole path goes through exactly if the one along the rest does with that amount and the
/// same guard, and they pay the same. It makes the calls of the two parts, and asks for the
/// authorisation and the factory once.
pub proof fn law_swap_composes(
    trader: Address,
    entries: Seq<Option<Address>>,
    amount_in: i128,
    min_out: i128,
    stored: Stored,
    replies: Seq<HopReply>,
    middle: int,
)
    requires
        entries.len() <= u32::MAX,
        0 < middle < entries.len() - 1,
        replies.len() == entries.len() - 1,
        swap_run(
            trader,
            entries.take(middle + 1),
            amount_in,
            0,
            stored,
            replies.take(middle),
        ).result matches Ok(reached) && reached > 0,
    ensures
        ({
            let first = swap_run(
                trader,
                entries.take(middle + 1),
                amount_in,
                0,
                stored,
                replies.take(middle),
            );
            let rest = swap_run(
                trader,
                entries.skip(middle),
                first.result->Ok_0,
                min_out,
                stored,
                replies.skip(middle),
            );
            let whole = swap_run(trader, entries, amount_in, min_out, stored, replies);
            &&& whole.result is Ok <==> rest.result is Ok
            &&& whole.result is Ok ==> whole.result == rest.result
            &&& whole.calls == first.calls + rest.calls.skip(2)
        }),
{
    let hops = (entries.len() - 1) as nat;
    let factory = stored->Present_0;
    let head = entries.take(middle + 1);
    let head_replies = replies.take(middle);
    let unguarded = Mode::Swap { trader, min_out: 0 };
    let mode = Mode::Swap { trader, min_out };
    law_swap_succeeds(trader, head, amount_in, 0, stored, head_replies);
    let first = swap_run(trader, head, amount_in, 0, stored, head_replies);
    let reached = first.result->Ok_0;
    let n = middle as nat;
    lemma_walk_calls(unguarded, factory, head, amount_in, head_replies, n);
    lemma_walk_head(unguarded, mode, factory, entries, amount_in, replies, n, n);
    lemma_walk_rest(mode, factory, entries, amount_in, replies, reached, n, hops);
    let rest = swap_run(
        trader,
        entries.skip(middle),
        reached,
        min_out,
        stored,
        replies.skip(middle),
    );
    let whole = swap_run(trader, entries, amount_in, min_out, stored, replies);
    assert(whole.calls =~= first.calls + rest.calls.skip(2));
}

/// Up to `middle`, a request goes as the one along the path that ends there, without a guard.
proof fn lemma_walk_head(
    unguarded: Mode,
    mode: Mode,
    factory: Address,
    entries: Seq<Option<Address>>,
    amount_in: i128,
    replies: Seq<HopReply>,
    middle: nat,
    n: nat,
)
    requires
        n <= middle < entries.len() - 1,
        replies.len() == entries.len() - 1,
        match mode {
            Mode::Swap { trader, .. } => unguarded == (Mode::Swap { trader, min_out: 0 }),
            Mode::Quote => unguarded == mode,
        },
    ensures
        walk(
            unguarded,
            factory,
            entries.take(middle as int + 1),
            amount_in,
            replies.take(middle as int),
            n,
        ) == walk(mode, factory, entries, amount_in, replies, n),
    decreases n,
{
    if n > 0 {
        let m = (n - 1) as nat;
        lemma_walk_head(unguarded, mode, factory, entries, amount_in, replies, middle, m);
        assert(entries.take(middle as int + 1)[m as int] == entries[m as int]);
        assert(entries.take(middle as int + 1)[m as int + 1] == entries[m as int + 1]);
        assert(replies.take(middle as int)[m as int] == replies[m as int]);
    }
}

/// From `middle` on, a request goes as the one along the rest of the path does.
proof fn lemma_walk_rest(
    mode: Mode,
    factory: Address,
    entries: Seq<Option<Address>>,
    amount_in: i128,
    replies: Seq<HopReply>,
    reached: i128,
    middle: nat,
    n: nat,
)
    requires
        middle <= n < entries.len(),
        replies.len() == entries.len() - 1,
        walk(mode, factory, entries, amount_in, replies, middle).leg == Leg::Carrying(reached),
    ensures
        ({
            let head = walk(mode, factory, entries, amount_in, replies, middle);
            let whole = walk(mode, factory, entries, amount_in, replies, n);
            let rest = walk(
                mode,
                factory,
                entries.skip(middle as int),
                reached,
                replies.skip(middle as int),
                (n - middle) as nat,
            );
            &&& arrived(whole.leg) is Ok <==> arrived(rest.leg) is Ok
            &&& arrived(whole.leg) is Ok ==> whole.leg == rest.leg
            &&& whole.leg is Carrying <==> rest.leg is Carrying
            &&& whole.calls == head.calls + rest.calls
        }),
    decreases n,
{
    let head = walk(mode, factory, entries, amount_in, replies, middle);
    let whole = walk(mode, factory, entries, amount_in, replies, n);
    let tail = entries.skip(middle as int);
    let tail_replies = replies.skip(middle as int);
    let rest = walk(mode, factory, tail, reached, tail_replies, (n - middle) as nat);
    if n > middle {
        let m = (n - 1) as nat;
        lemma_walk_rest(mode, factory, entries, amount_in, replies, reached, middle, m);
        assert(tail[m - middle] == entries[m as int]);
        assert(tail[m - middle + 1] == entries[m as int + 1]);
        assert(tail_replies[m - middle] == replies[m as int]);
    }
    assert(whole.calls =~= head.calls + rest.calls);
}

/// The slippage guard reaches the host at one place only: two swaps that differ in `min_out`
/// alone make the same calls, but for what the pool of the last hop is held to, and where the
/// host replies alike they have the same result.
pub proof fn law_min_out_binds_the_last_pool_only(
    trader: Address,
    entries: Seq<Option<Address>>,
    amount_in: i128,
    min_out: i128,
    other: i128,
    stored: Stored,
    replies: Seq<HopReply>,
)
    requires
        entries.len() <= u32::MAX,
    ensures
        ({
            let one = swap_run(trader, entries, amount_in, min_out, stored, replies);
            let two = swap_run(trader, entries, amount_in, other, stored, replies);
            &&& one.result == two.result
            &&& one.calls.len() == two.calls.len()
            &&& forall|i: int|
                0 <= i < one.calls.len() && i != 2 * entries.len() - 1 ==> #[trigger] one.calls[i]
                    == two.calls[i]
        }),
{
    let one = swap_run(trader, entries, amount_in, min_out, stored, replies);
    let two = swap_run(trader, entries, amount_in, other, stored, replies);
    law_swap_calls(trader, entries, amount_in, min_out, stored, replies);
    law_swap_calls(trader, entries, amount_in, other, stored, replies);
    if checked_hops(entries.len(), amount_in as int) is Ok && factory_of(stored) is Ok {
        let hops = (entries.len() - 1) as nat;
        let factory = stored->Present_0;
        lemma_walk_legs(trader, min_out, other, factory, entries, amount_in, replies, hops);
    }
    assert forall|i: int|
        0 <= i < one.calls.len() && i != 2 * entries.len() - 1 implies #[trigger] one.calls[i]
        == two.calls[i] by {
        if i >= 2 {
            let hop = (i - 2) / 2;
            assert(i == 2 * hop + 2 || i == 2 * hop + 3);
        }
    }
}

/// How far a swap comes does not depend on its guard.
proof fn lemma_walk_legs(
    trader: Address,
    min_out: i128,
    other: i128,
    factory: Address,
    entries: Seq<Option<Address>>,
    amount_in: i128,
    replies: Seq<HopReply>,
    n: nat,
)
    ensures
        ({
            let mode = Mode::Swap { trader, min_out };
            let one = walk(mode, factory, entries, amount_in, replies, n);
            let other_mode = Mode::Swap { trader, min_out: other };
            let two = walk(other_mode, factory, entries, amount_in, replies, n);
            &&& one.leg == two.leg
            &&& one.calls.len() == two.calls.len()
        }),
    decreases n,
{
    if n > 0 {
        let m = (n - 1) as nat;
        lemma_walk_legs(trader, min_out, other, factory, entries, amount_in, replies, m);
    }
}

/// One more hop never pays off where its pool pays out less than it is given, nor where it has
/// no pool and what comes to it is positive: the quote along the longer path is then lower than
/// the one along the path without its last token.
pub proof fn law_longer_path_pays_less(
    entries: Seq<Option<Address>>,
    amount_in: i128,
    stored: Stored,
    replies: Seq<HopReply>,
)
    requires
        2 < entries.len() <= u32::MAX,
        replies.len() == entries.len() - 1,
        all_passable(entries.drop_last(), amount_in, stored, replies.drop_last()),
        ({
            let hop = replies.len() - 1;
            let carried = amount_into(amount_in, replies, hop);
            ||| passable(stored->Present_0, entries, replies, hop) && replies[hop].out->Ok_0
                < carried
            ||| entries[hop + 1] is Some && without_pool_at(replies, hop) && carried > 0
        }),
    ensures
        ({
            let shorter = quote_run(entries.drop_last(), amount_in, stored, replies.drop_last());
            let longer = quote_run(entries, amount_in, stored, replies);
            &&& shorter.result is Ok
            &&& longer.result is Ok
            &&& longer.result->Ok_0 < shorter.result->Ok_0
        }),
{
    let hop = replies.len() - 1;
    let factory = stored->Present_0;
    assert forall|k: int| 0 <= k < hop implies #[trigger] passable(
        factory,
        entries,
        replies,
        k,
    ) by {
        assert(passable(factory, entries.drop_last(), replies.drop_last(), k));
    }
    law_quote_succeeds(entries.drop_last(), amount_in, stored, replies.drop_last());
    assert(passable(factory, entries, replies, hop - 1));
    if without_pool_at(replies, hop) {
        law_first_hop_without_pool(factory, entries, amount_in, 0, stored, replies, hop);
    } else {
        law_quote_succeeds(entries, amount_in, stored, replies);
    }
}

} // verus!
