//! The router itself.

use soroban_sdk::Address;
use vstd::prelude::*;

use crate::error::{CallFailed, RouterError};
use crate::host::{
    instance_get, instance_has, instance_set, is_symbol, read_entry, require_auth, Host, HostCall,
    Stored,
};
use crate::interfaces::{AmmPoolClient, AmmPoolInterface, FactoryClient, FactoryInterface};
use crate::path::{path_entries, path_len, token_at};
use crate::route::{
    arrived, check_request, checked_hops, factory_of, hop_min_out, hop_of_path, known_factory,
    lemma_walk_finished, lemma_walk_step, quoted, quoting_pool, swapped, swapping_pool, walk,
    HopReply, Leg, Mode, Run,
};

verus! {

// ---- storage keys ----

/// What the router keeps in its instance storage.
pub enum DataKey {
    Factory,
}

impl DataKey {
    /// The symbol that the key is stored under.
    pub open spec fn text(self) -> Seq<char> {
        match self {
            DataKey::Factory => "Factory"@,
        }
    }

    /// Returns the symbol that the key is stored under.
    pub fn symbol(&self) -> (symbol: &'static str)
        ensures
            symbol@ == self.text(),
            is_symbol(symbol@),
    {
        proof {
            reveal_strlit("Factory");
        }
        match self {
            DataKey::Factory => "Factory",
        }
    }
}

// ---- what each request asks of the host ----

/// The call by which the router learns its factory.
pub open spec fn factory_call(stored: Stored) -> HostCall {
    HostCall::StorageGet { key: DataKey::Factory.text(), stored }
}

/// Whether a router whose storage already held a factory, or not, takes one.
pub open spec fn admission(found: bool) -> Result<(), RouterError> {
    if found {
        Err(RouterError::AlreadyInitialized)
    } else {
        Ok(())
    }
}

/// The calls of a request to initialize the router with `factory`, where the storage replied
/// `found` when asked whether it holds a factory already.
pub open spec fn initialize_calls(factory: Address, found: bool) -> Seq<HostCall> {
    let asked = HostCall::StorageHas { key: DataKey::Factory.text(), found };
    if found {
        seq![asked]
    } else {
        seq![asked, HostCall::StorageSet { key: DataKey::Factory.text(), value: factory }]
    }
}

/// A request along a path, once it may go ahead: `stored` is what the storage holds as the
/// factory, and `replies` is what the host replies hop by hop.
pub open spec fn route_run(
    mode: Mode,
    entries: Seq<Option<Address>>,
    amount_in: i128,
    stored: Stored,
    replies: Seq<HopReply>,
) -> Run {
    match checked_hops(entries.len(), amount_in as int) {
        Err(error) => Run { calls: seq![], result: Err(error) },
        Ok(hops) => match factory_of(stored) {
            Err(error) => Run { calls: seq![factory_call(stored)], result: Err(error) },
            Ok(factory) => {
                let whole = walk(mode, factory, entries, amount_in, replies, hops as nat);
                Run {
                    calls: seq![factory_call(stored)] + whole.calls,
                    result: arrived(whole.leg),
                }
            },
        },
    }
}

/// A swap: the trader's authorisation comes before everything else.
pub open spec fn swap_run(
    trader: Address,
    entries: Seq<Option<Address>>,
    amount_in: i128,
    min_out: i128,
    stored: Stored,
    replies: Seq<HopReply>,
) -> Run {
    let run = route_run(Mode::Swap { trader, min_out }, entries, amount_in, stored, replies);
    Run { calls: seq![HostCall::RequireAuth { who: trader }] + run.calls, result: run.result }
}

/// A quote: nothing is authorised and nothing is carried out.
pub open spec fn quote_run(
    entries: Seq<Option<Address>>,
    amount_in: i128,
    stored: Stored,
    replies: Seq<HopReply>,
) -> Run {
    route_run(Mode::Quote, entries, amount_in, stored, replies)
}

// ---- the router ----

/// Decides whether the router takes a factory, given whether it already has one.
pub fn admit_factory(found: bool) -> (admitted: Result<(), RouterError>)
    ensures
        admitted == admission(found),
{
    if found {
        Err(RouterError::AlreadyInitialized)
    } else {
        Ok(())
    }
}

/// Reads what the storage holds as the factory.
fn load_factory(host: &mut Host) -> (stored: Stored)
    ensures
        final(host)@ == old(host)@.push(factory_call(stored)),
{
    read_entry(instance_get(host, DataKey::Factory.symbol()))
}

/// How far a swap has come once a hop has paid out, or failed.
pub open spec fn swap_leg(paid: Result<i128, RouterError>) -> Leg {
    match paid {
        Ok(amount) => Leg::Carrying(amount),
        Err(error) => Leg::Finished(Err(error)),
    }
}

/// How far a quote has come once a hop has been quoted, has no pool, or failed.
pub open spec fn quote_leg(paid: Result<Option<i128>, RouterError>) -> Leg {
    match paid {
        Ok(Some(amount)) => Leg::Carrying(amount),
        Ok(None) => Leg::Finished(Ok(0i128)),
        Err(error) => Leg::Finished(Err(error)),
    }
}

/// Carries out hop `hop` of a swap with `amount` going in.
fn swap_hop(
    host: &mut Host,
    factory_client: &FactoryClient,
    trader: &Address,
    path: &soroban_sdk::Vec<Address>,
    hop: u32,
    hops: u32,
    amount: i128,
    min_out: i128,
) -> (paid: Result<i128, RouterError>)
    requires
        hop < hops,
        hops == path_entries(*path).len() - 1,
    ensures
        exists|reply: HopReply|
            {
                let step = #[trigger] hop_of_path(
                    Mode::Swap { trader: *trader, min_out },
                    factory_client.address,
                    path_entries(*path),
                    amount,
                    hop as int,
                    reply,
                );
                &&& final(host)@ == old(host)@ + step.calls
                &&& swap_leg(paid) == step.leg
            },
{
    let ghost mode = Mode::Swap { trader: *trader, min_out };
    let ghost factory = factory_client.address;
    let ghost entries = path_entries(*path);
    let ghost mut reply = HopReply { pool: Err(CallFailed), out: Err(CallFailed) };
    let token_in = match token_at(path, hop) {
        Ok(token) => token,
        Err(error) => {
            let ghost step = hop_of_path(mode, factory, entries, amount, hop as int, reply);
            assert(host@ =~= old(host)@ + step.calls);
            return Err(error);
        },
    };
    let token_out = match token_at(path, hop + 1) {
        Ok(token) => token,
        Err(error) => {
            let ghost step = hop_of_path(mode, factory, entries, amount, hop as int, reply);
            assert(host@ =~= old(host)@ + step.calls);
            return Err(error);
        },
    };
    let found = factory_client.get_pool(host, &token_in, &token_out);
    proof {
        reply = HopReply { pool: found, ..reply };
    }
    let pool = match swapping_pool(hop, found) {
        Ok(pool) => pool,
        Err(error) => {
            let ghost step = hop_of_path(mode, factory, entries, amount, hop as int, reply);
            assert(host@ =~= old(host)@ + step.calls);
            return Err(error);
        },
    };
    let pool_client = AmmPoolClient { address: pool };
    // On the last hop apply the caller's slippage guard; intermediate
    // hops use 0 so dust rounding does not abort mid-route.
    let floor = hop_min_out(hop, hops, min_out);
    let out = pool_client.swap(host, trader, &token_in, amount, floor);
    proof {
        reply = HopReply { out, ..reply };
        let step = hop_of_path(mode, factory, entries, amount, hop as int, reply);
        assert(host@ =~= old(host)@ + step.calls);
    }
    swapped(hop, out)
}

/// Quotes hop `hop` with `amount` going in. Returns `None` when there is no pool for it.
fn quote_hop(
    host: &mut Host,
    factory_client: &FactoryClient,
    path: &soroban_sdk::Vec<Address>,
    hop: u32,
    hops: u32,
    amount: i128,
) -> (paid: Result<Option<i128>, RouterError>)
    requires
        hop < hops,
        hops == path_entries(*path).len() - 1,
    ensures
        exists|reply: HopReply|
            {
                let step = #[trigger] hop_of_path(
                    Mode::Quote,
                    factory_client.address,
                    path_entries(*path),
                    amount,
                    hop as int,
                    reply,
                );
                &&& final(host)@ == old(host)@ + step.calls
                &&& quote_leg(paid) == step.leg
            },
{
    let ghost factory = factory_client.address;
    let ghost entries = path_entries(*path);
    let ghost mut reply = HopReply { pool: Err(CallFailed), out: Err(CallFailed) };
    let token_in = match token_at(path, hop) {
        Ok(token) => token,
        Err(error) => {
            let ghost step = hop_of_path(Mode::Quote, factory, entries, amount, hop as int, reply);
            assert(host@ =~= old(host)@ + step.calls);
            return Err(error);
        },
    };
    let token_out = match token_at(path, hop + 1) {
        Ok(token) => token,
        Err(error) => {
            let ghost step = hop_of_path(Mode::Quote, factory, entries, amount, hop as int, reply);
            assert(host@ =~= old(host)@ + step.calls);
            return Err(error);
        },
    };
    let found = factory_client.get_pool(host, &token_in, &token_out);
    proof {
        reply = HopReply { pool: found, ..reply };
    }
    let pool = match quoting_pool(hop, found) {
        Ok(Some(pool)) => pool,
        Ok(None) => {
            let ghost step = hop_of_path(Mode::Quote, factory, entries, amount, hop as int, reply);
            assert(host@ =~= old(host)@ + step.calls);
            return Ok(None);
        },
        Err(error) => {
            let ghost step = hop_of_path(Mode::Quote, factory, entries, amount, hop as int, reply);
            assert(host@ =~= old(host)@ + step.calls);
            return Err(error);
        },
    };
    let pool_client = AmmPoolClient { address: pool };
    let out = pool_client.get_amount_out(host, &token_in, amount);
    proof {
        reply = HopReply { out, ..reply };
        let step = hop_of_path(Mode::Quote, factory, entries, amount, hop as int, reply);
        assert(host@ =~= old(host)@ + step.calls);
    }
    match quoted(hop, out) {
        Ok(amount) => Ok(Some(amount)),
        Err(error) => Err(error),
    }
}

/// Multi-hop swap router.
pub struct Router;

impl Router {
    /// Initialize the router with the factory that tracks all deployed pools.
    ///
    /// Must be called exactly once after deployment.
    pub fn initialize(host: &mut Host, factory: Address) -> (result: Result<(), RouterError>)
        ensures
            exists|found: bool|
                {
                    &&& final(host)@ == old(host)@ + #[trigger] initialize_calls(factory, found)
                    &&& result == admission(found)
                },
    {
        let found = instance_has(host, DataKey::Factory.symbol());
        let admitted = admit_factory(found);
        if admitted.is_ok() {
            instance_set(host, DataKey::Factory.symbol(), &factory);
        }
        assert(host@ =~= old(host)@ + initialize_calls(factory, found));
        admitted
    }

    /// Execute a multi-hop swap along `path`.
    ///
    /// `path` must contain at least two token addresses. Each adjacent pair
    /// `(path[i], path[i+1])` must have a pool registered in the factory.
    /// Tokens flow from `path[0]` to `path[last]`.
    ///
    /// `min_out` is a slippage guard on the final output only; intermediate
    /// outputs are passed directly into the next hop with no guard so that
    /// the only externally observable constraint is the end-to-end amount.
    ///
    /// Requires `trader` to have authorised the call.
    ///
    /// Returns the amount of `path[last]` received by `trader`.
    pub fn swap_exact_in(
        host: &mut Host,
        trader: Address,
        path: soroban_sdk::Vec<Address>,
        amount_in: i128,
        min_out: i128,
    ) -> (result: Result<i128, RouterError>)
        ensures
            path_entries(path).len() <= u32::MAX,
            exists|stored: Stored, replies: Seq<HopReply>|
                {
                    let run = #[trigger] swap_run(
                        trader,
                        path_entries(path),
                        amount_in,
                        min_out,
                        stored,
                        replies,
                    );
                    &&& final(host)@ == old(host)@ + run.calls
                    &&& result == run.result
                },
    {
        let ghost entries = path_entries(path);
        let ghost mode = Mode::Swap { trader, min_out };
        require_auth(host, &trader);
        let hops = match check_request(path_len(&path), amount_in) {
            Ok(hops) => hops,
            Err(error) => {
                let ghost run = swap_run(
                    trader,
                    entries,
                    amount_in,
                    min_out,
                    Stored::Absent,
                    seq![],
                );
                assert(host@ =~= old(host)@ + run.calls);
                return Err(error);
            },
        };
        let stored = load_factory(host);
        let ghost told = stored;
        let factory = match known_factory(stored) {
            Ok(factory) => factory,
            Err(error) => {
                let ghost run = swap_run(trader, entries, amount_in, min_out, told, seq![]);
                assert(host@ =~= old(host)@ + run.calls);
                return Err(error);
            },
        };
        let factory_client = FactoryClient { address: factory };

        let mut current_amount: i128 = amount_in;
        let mut hop: u32 = 0;
        let ghost mut replies: Seq<HopReply> = seq![];
        let ghost opening = seq![HostCall::RequireAuth { who: trader }, factory_call(told)];
        assert(host@ =~= old(host)@ + opening + walk(
            mode,
            factory,
            entries,
            amount_in,
            replies,
            0,
        ).calls);
        while hop < hops
            invariant
                entries == path_entries(path),
                entries.len() <= u32::MAX,
                mode == (Mode::Swap { trader, min_out }),
                checked_hops(entries.len(), amount_in as int) == Ok::<u32, RouterError>(hops),
                hops == entries.len() - 1,
                hop <= hops,
                factory_of(told) == Ok::<Address, RouterError>(factory_client.address),
                opening == seq![HostCall::RequireAuth { who: trader }, factory_call(told)],
                replies.len() == hop,
                ({
                    let so_far = walk(
                        mode,
                        factory_client.address,
                        entries,
                        amount_in,
                        replies,
                        hop as nat,
                    );
                    &&& host@ == old(host)@ + opening + so_far.calls
                    &&& so_far.leg == Leg::Carrying(current_amount)
                }),
            decreases hops - hop,
        {
            let ghost before = host@;
            let paid = swap_hop(
                host,
                &factory_client,
                &trader,
                &path,
                hop,
                hops,
                current_amount,
                min_out,
            );
            proof {
                let factory = factory_client.address;
                let reply = choose|reply: HopReply|
                    {
                        let step = #[trigger] hop_of_path(
                            mode,
                            factory,
                            entries,
                            current_amount,
                            hop as int,
                            reply,
                        );
                        &&& host@ == before + step.calls
                        &&& swap_leg(paid) == step.leg
                    };
                lemma_walk_step(mode, factory, entries, amount_in, replies, reply);
                replies = replies.push(reply);
                let so_far = walk(mode, factory, entries, amount_in, replies, (hop + 1) as nat);
                assert(host@ =~= old(host)@ + opening + so_far.calls);
            }
            current_amount = match paid {
                Ok(amount) => amount,
                Err(error) => {
                    proof {
                        lemma_walk_finished(
                            mode,
                            factory_client.address,
                            entries,
                            amount_in,
                            replies,
                            (hop + 1) as nat,
                            hops as nat,
                        );
                        let run = swap_run(trader, entries, amount_in, min_out, told, replies);
                        assert(host@ =~= old(host)@ + run.calls);
                    }
                    return Err(error);
                },
            };
            hop += 1;
        }
        proof {
            let run = swap_run(trader, entries, amount_in, min_out, told, replies);
            assert(host@ =~= old(host)@ + run.calls);
        }
        Ok(current_amount)
    }

    /// Quote the output of a multi-hop swap without executing it.
    ///
    /// Applies each pool's current `get_amount_out` in sequence.
    /// Returns 0 if any pool in the path does not exist.
    pub fn get_amount_out_path(
        host: &mut Host,
        path: soroban_sdk::Vec<Address>,
        amount_in: i128,
    ) -> (result: Result<i128, RouterError>)
        ensures
            path_entries(path).len() <= u32::MAX,
            exists|stored: Stored, replies: Seq<HopReply>|
                {
                    let run = #[trigger] quote_run(
                        path_entries(path),
                        amount_in,
                        stored,
                        replies,
                    );
                    &&& final(host)@ == old(host)@ + run.calls
                    &&& result == run.result
                },
    {
        let ghost entries = path_entries(path);
        let hops = match check_request(path_len(&path), amount_in) {
            Ok(hops) => hops,
            Err(error) => {
                let ghost run = quote_run(entries, amount_in, Stored::Absent, seq![]);
                assert(host@ =~= old(host)@ + run.calls);
                return Err(error);
            },
        };
        let stored = load_factory(host);
        let ghost told = stored;
        let factory = match known_factory(stored) {
            Ok(factory) => factory,
            Err(error) => {
                let ghost run = quote_run(entries, amount_in, told, seq![]);
                assert(host@ =~= old(host)@ + run.calls);
                return Err(error);
            },
        };
        let factory_client = FactoryClient { address: factory };

        let mut current_amount: i128 = amount_in;
        let mut hop: u32 = 0;
        let ghost mut replies: Seq<HopReply> = seq![];
        let ghost opening = seq![factory_call(told)];
        assert(host@ =~= old(host)@ + opening + walk(
            Mode::Quote,
            factory,
            entries,
            amount_in,
            replies,
            0,
        ).calls);
        while hop < hops
            invariant
                entries == path_entries(path),
                entries.len() <= u32::MAX,
                checked_hops(entries.len(), amount_in as int) == Ok::<u32, RouterError>(hops),
                hops == entries.len() - 1,
                hop <= hops,
                factory_of(told) == Ok::<Address, RouterError>(factory_client.address),
                opening == seq![factory_call(told)],
                replies.len() == hop,
                ({
                    let so_far = walk(
                        Mode::Quote,
                        factory_client.address,
                        entries,
                        amount_in,
                        replies,
                        hop as nat,
                    );
                    &&& host@ == old(host)@ + opening + so_far.calls
                    &&& so_far.leg == Leg::Carrying(current_amount)
                }),
            decreases hops - hop,
        {
            let ghost before = host@;
            let paid = quote_hop(host, &factory_client, &path, hop, hops, current_amount);
            proof {
                let factory = factory_client.address;
                let reply = choose|reply: HopReply|
                    {
                        let step = #[trigger] hop_of_path(
                            Mode::Quote,
                            factory,
                            entries,
                            current_amount,
                            hop as int,
                            reply,
                        );
                        &&& host@ == before + step.calls
                        &&& quote_leg(paid) == step.leg
                    };
                lemma_walk_step(Mode::Quote, factory, entries, amount_in, replies, reply);
                replies = replies.push(reply);
                let so_far = walk(
                    Mode::Quote,
                    factory,
                    entries,
                    amount_in,
                    replies,
                    (hop + 1) as nat,
                );
                assert(host@ =~= old(host)@ + opening + so_far.calls);
                if so_far.leg is Finished {
                    lemma_walk_finished(
                        Mode::Quote,
                        factory,
                        entries,
                        amount_in,
                        replies,
                        (hop + 1) as nat,
                        hops as nat,
                    );
                    let run = quote_run(entries, amount_in, told, replies);
                    assert(host@ =~= old(host)@ + run.calls);
                }
            }
            current_amount = match paid {
                Ok(Some(amount)) => amount,
                Ok(None) => {
                    return Ok(0);
                },
                Err(error) => {
                    return Err(error);
                },
            };
            hop += 1;
        }
        proof {
            let run = quote_run(entries, amount_in, told, replies);
            assert(host@ =~= old(host)@ + run.calls);
        }
        Ok(current_amount)
    }

    /// Return the factory address this router was initialized with.
    pub fn get_factory(host: &mut Host) -> (result: Result<Address, RouterError>)
        ensures
            exists|stored: Stored|
                {
                    &&& final(host)@ == old(host)@.push(#[trigger] factory_call(stored))
                    &&& result == factory_of(stored)
                },
    {
        let stored = load_factory(host);
        known_factory(stored)
    }
}

} // verus!
