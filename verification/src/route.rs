//! How a request is followed along its path: what each hop asks of the host, and what becomes of
//! the amount, for every reply that the host may give.

use soroban_sdk::Address;
use vstd::prelude::*;

use crate::error::{CallFailed, RouterError};
use crate::host::{HostCall, Stored};
use crate::interfaces::{asked, get_amount_out_call, get_pool_call, heard, swap_call};
use crate::path::token_of;

verus! {

// ---- the rules of a single step ----

/// The number of hops of a request, or why it is refused before anything is looked up: a path
/// needs two tokens, and the amount has to be positive.
pub open spec fn checked_hops(tokens: nat, amount_in: int) -> Result<u32, RouterError> {
    if tokens < 2 {
        Err(RouterError::PathTooShort)
    } else if amount_in <= 0 {
        Err(RouterError::AmountNotPositive)
    } else {
        Ok((tokens - 1) as u32)
    }
}

/// Checks a request and returns its number of hops.
pub fn check_request(tokens: u32, amount_in: i128) -> (hops: Result<u32, RouterError>)
    ensures
        hops == checked_hops(tokens as nat, amount_in as int),
{
    if tokens < 2 {
        Err(RouterError::PathTooShort)
    } else if amount_in <= 0 {
        Err(RouterError::AmountNotPositive)
    } else {
        Ok(tokens - 1)
    }
}

/// The least amount that the pool of hop `hop` may pay out: the caller's slippage guard on the
/// last hop, and zero before it.
pub open spec fn hop_floor(hop: int, hops: int, min_out: i128) -> i128 {
    if hop + 1 == hops {
        min_out
    } else {
        0
    }
}

/// Returns the slippage guard of hop `hop` out of `hops`.
pub fn hop_min_out(hop: u32, hops: u32, min_out: i128) -> (floor: i128)
    requires
        hop < hops,
    ensures
        floor == hop_floor(hop as int, hops as int, min_out),
{
    if hop + 1 == hops {
        min_out
    } else {
        0
    }
}

/// The factory that a router with `stored` in its storage works with.
pub open spec fn factory_of(stored: Stored) -> Result<Address, RouterError> {
    match stored {
        Stored::Absent => Err(RouterError::NotInitialized),
        Stored::Unreadable => Err(RouterError::FactoryUnreadable),
        Stored::Present(factory) => Ok(factory),
    }
}

/// Returns the factory, given what the storage holds.
pub fn known_factory(stored: Stored) -> (factory: Result<Address, RouterError>)
    ensures
        factory == factory_of(stored),
{
    match stored {
        Stored::Absent => Err(RouterError::NotInitialized),
        Stored::Unreadable => Err(RouterError::FactoryUnreadable),
        Stored::Present(factory) => Ok(factory),
    }
}

/// The pool that hop `hop` goes through, given what the factory replied: `None` when the factory
/// knows no pool.
pub open spec fn pool_of<A>(hop: int, reply: Result<Option<A>, CallFailed>) -> Result<
    Option<A>,
    RouterError,
> {
    match reply {
        Ok(pool) => Ok(pool),
        Err(_) => Err(RouterError::LookupFailed { hop: hop as u32 }),
    }
}

/// Returns the pool that a quote goes through at hop `hop`, given what the factory replied.
pub fn quoting_pool<A>(hop: u32, reply: Result<Option<A>, CallFailed>) -> (pool: Result<
    Option<A>,
    RouterError,
>)
    ensures
        pool == pool_of(hop as int, reply),
{
    match reply {
        Ok(pool) => Ok(pool),
        Err(_) => Err(RouterError::LookupFailed { hop }),
    }
}

/// The pool that a swap goes through at hop `hop`, given what the factory replied: without a
/// pool there is no swap.
pub open spec fn swap_pool_of<A>(hop: int, reply: Result<Option<A>, CallFailed>) -> Result<
    A,
    RouterError,
> {
    match pool_of(hop, reply) {
        Ok(Some(pool)) => Ok(pool),
        Ok(None) => Err(RouterError::NoPool { hop: hop as u32 }),
        Err(error) => Err(error),
    }
}

/// Returns the pool that a swap goes through at hop `hop`, given what the factory replied.
pub fn swapping_pool<A>(hop: u32, reply: Result<Option<A>, CallFailed>) -> (pool: Result<
    A,
    RouterError,
>)
    ensures
        pool == swap_pool_of(hop as int, reply),
{
    match quoting_pool(hop, reply) {
        Ok(Some(pool)) => Ok(pool),
        Ok(None) => Err(RouterError::NoPool { hop }),
        Err(error) => Err(error),
    }
}

/// What hop `hop` paid out, given what its pool replied to the swap.
pub open spec fn swapped_amount(hop: int, reply: Result<i128, CallFailed>) -> Result<
    i128,
    RouterError,
> {
    match reply {
        Ok(amount) => Ok(amount),
        Err(_) => Err(RouterError::SwapFailed { hop: hop as u32 }),
    }
}

/// Returns what hop `hop` paid out, given what its pool replied to the swap.
pub fn swapped(hop: u32, reply: Result<i128, CallFailed>) -> (amount: Result<i128, RouterError>)
    ensures
        amount == swapped_amount(hop as int, reply),
{
    match reply {
        Ok(amount) => Ok(amount),
        Err(_) => Err(RouterError::SwapFailed { hop }),
    }
}

/// What hop `hop` would pay out, given what its pool replied to the question.
pub open spec fn quoted_amount(hop: int, reply: Result<i128, CallFailed>) -> Result<
    i128,
    RouterError,
> {
    match reply {
        Ok(amount) => Ok(amount),
        Err(_) => Err(RouterError::QuoteFailed { hop: hop as u32 }),
    }
}

/// Returns what hop `hop` would pay out, given what its pool replied to the question.
pub fn quoted(hop: u32, reply: Result<i128, CallFailed>) -> (amount: Result<i128, RouterError>)
    ensures
        amount == quoted_amount(hop as int, reply),
{
    match reply {
        Ok(amount) => Ok(amount),
        Err(_) => Err(RouterError::QuoteFailed { hop }),
    }
}

// ---- a whole route ----

/// What is done at each hop: the swap is carried out, or only quoted.
pub enum Mode {
    Swap { trader: Address, min_out: i128 },
    Quote,
}

/// What the host replies during one hop: the factory's answer to the lookup, and the pool's
/// answer. Each counts only if the factory, or the pool, is asked.
pub struct HopReply {
    pub pool: Result<Option<Address>, CallFailed>,
    pub out: Result<i128, CallFailed>,
}

/// How far a request has come.
pub enum Leg {
    /// The hops so far went through, and this amount goes into the next one.
    Carrying(i128),
    /// The request is over, with this result.
    Finished(Result<i128, RouterError>),
}

/// The calls made along a route so far, and how far it has come.
pub struct Walk {
    pub calls: Seq<HostCall>,
    pub leg: Leg,
}

/// The calls that a request makes from beginning to end, and its result.
pub struct Run {
    pub calls: Seq<HostCall>,
    pub result: Result<i128, RouterError>,
}

/// The call that the pool of a hop gets.
pub open spec fn deal_call(
    mode: Mode,
    pool: Address,
    token_in: Address,
    amount: i128,
    hop: int,
    hops: int,
    reply: Result<i128, CallFailed>,
) -> HostCall {
    match mode {
        Mode::Swap { trader, min_out } => swap_call(
            pool,
            trader,
            token_in,
            amount,
            hop_floor(hop, hops, min_out),
            reply,
        ),
        Mode::Quote => get_amount_out_call(pool, token_in, amount, reply),
    }
}

/// What a hop pays out, given its pool's reply.
pub open spec fn deal_amount(mode: Mode, hop: int, reply: Result<i128, CallFailed>) -> Result<
    i128,
    RouterError,
> {
    match mode {
        Mode::Swap { .. } => swapped_amount(hop, reply),
        Mode::Quote => quoted_amount(hop, reply),
    }
}

/// The result of a request that comes to a hop without a pool: a swap is refused, a quote is
/// zero.
pub open spec fn without_pool(mode: Mode, hop: int) -> Result<i128, RouterError> {
    match mode {
        Mode::Swap { .. } => Err(RouterError::NoPool { hop: hop as u32 }),
        Mode::Quote => Ok(0i128),
    }
}

/// One hop from `token_in` to `token_out` with `amount` going in. A factory or a pool whose
/// address is not a contract's is not called, and the request is refused as where the call fails.
pub open spec fn hop_between(
    mode: Mode,
    factory: Address,
    token_in: Address,
    token_out: Address,
    amount: i128,
    hop: int,
    hops: int,
    reply: HopReply,
) -> Walk {
    let lookup = asked(factory, get_pool_call(factory, token_in, token_out, reply.pool));
    match pool_of(hop, heard(factory, reply.pool)) {
        Err(error) => Walk { calls: lookup, leg: Leg::Finished(Err(error)) },
        Ok(None) => Walk { calls: lookup, leg: Leg::Finished(without_pool(mode, hop)) },
        Ok(Some(pool)) => Walk {
            calls: lookup + asked(
                pool,
                deal_call(mode, pool, token_in, amount, hop, hops, reply.out),
            ),
            leg: match deal_amount(mode, hop, heard(pool, reply.out)) {
                Ok(out) => Leg::Carrying(out),
                Err(error) => Leg::Finished(Err(error)),
            },
        },
    }
}

/// Hop `hop` of the path with `amount` going in.
pub open spec fn hop_of_path(
    mode: Mode,
    factory: Address,
    entries: Seq<Option<Address>>,
    amount: i128,
    hop: int,
    reply: HopReply,
) -> Walk {
    match token_of(entries, hop) {
        Err(error) => Walk { calls: seq![], leg: Leg::Finished(Err(error)) },
        Ok(token_in) => match token_of(entries, hop + 1) {
            Err(error) => Walk { calls: seq![], leg: Leg::Finished(Err(error)) },
            Ok(token_out) => hop_between(
                mode,
                factory,
                token_in,
                token_out,
                amount,
                hop,
                entries.len() - 1,
                reply,
            ),
        },
    }
}

/// The first `n` hops of the path, each fed with what the one before it paid out.
pub open spec fn walk(
    mode: Mode,
    factory: Address,
    entries: Seq<Option<Address>>,
    amount_in: i128,
    replies: Seq<HopReply>,
    n: nat,
) -> Walk
    decreases n,
{
    if n == 0 {
        Walk { calls: seq![], leg: Leg::Carrying(amount_in) }
    } else {
        let before = walk(mode, factory, entries, amount_in, replies, (n - 1) as nat);
        match before.leg {
            Leg::Finished(_) => before,
            Leg::Carrying(amount) => {
                let next = hop_of_path(mode, factory, entries, amount, n - 1, replies[n - 1]);
                Walk { calls: before.calls + next.calls, leg: next.leg }
            },
        }
    }
}

/// The result of a request whose last hop is behind it.
pub open spec fn arrived(leg: Leg) -> Result<i128, RouterError> {
    match leg {
        Leg::Carrying(amount) => Ok(amount),
        Leg::Finished(result) => result,
    }
}

// ---- what the replies settle ----

/// A walk depends only on the replies to the hops that it makes.
proof fn lemma_walk_replies(
    mode: Mode,
    factory: Address,
    entries: Seq<Option<Address>>,
    amount_in: i128,
    replies: Seq<HopReply>,
    others: Seq<HopReply>,
    n: nat,
)
    requires
        n <= replies.len(),
        n <= others.len(),
        forall|i: int| 0 <= i < n ==> replies[i] == others[i],
    ensures
        walk(mode, factory, entries, amount_in, replies, n) == walk(
            mode,
            factory,
            entries,
            amount_in,
            others,
            n,
        ),
    decreases n,
{
    if n > 0 {
        lemma_walk_replies(mode, factory, entries, amount_in, replies, others, (n - 1) as nat);
    }
}

/// One more hop, given the reply to it.
pub proof fn lemma_walk_step(
    mode: Mode,
    factory: Address,
    entries: Seq<Option<Address>>,
    amount_in: i128,
    replies: Seq<HopReply>,
    reply: HopReply,
)
    requires
        walk(mode, factory, entries, amount_in, replies, replies.len()).leg is Carrying,
    ensures
        ({
            let n = replies.len();
            let before = walk(mode, factory, entries, amount_in, replies, n);
            let step = hop_of_path(mode, factory, entries, before.leg->Carrying_0, n as int, reply);
            walk(mode, factory, entries, amount_in, replies.push(reply), n + 1) == (Walk {
                calls: before.calls + step.calls,
                leg: step.leg,
            })
        }),
{
    let more = replies.push(reply);
    lemma_walk_replies(mode, factory, entries, amount_in, replies, more, replies.len());
    assert(more[replies.len() as int] == reply);
}

/// A walk that is over makes no further hop.
pub proof fn lemma_walk_finished(
    mode: Mode,
    factory: Address,
    entries: Seq<Option<Address>>,
    amount_in: i128,
    replies: Seq<HopReply>,
    n: nat,
    m: nat,
)
    requires
        n <= m,
        walk(mode, factory, entries, amount_in, replies, n).leg is Finished,
    ensures
        walk(mode, factory, entries, amount_in, replies, m) == walk(
            mode,
            factory,
            entries,
            amount_in,
            replies,
            n,
        ),
    decreases m - n,
{
    if n < m {
        lemma_walk_finished(mode, factory, entries, amount_in, replies, n, (m - 1) as nat);
    }
}

} // verus!
