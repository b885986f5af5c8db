//! What holds of the router's factory, from one request to the next.
//!
//! What the storage replies is up to the host. The laws that relate a read to an earlier write
//! are therefore stated of the histories in which the storage gives back what was written.

use soroban_sdk::Address;
use vstd::prelude::*;

use crate::error::RouterError;
use crate::host::{HostCall, Stored};
use crate::route::factory_of;
use crate::router::{admission, factory_call, initialize_calls, DataKey};

verus! {

/// What `storage` holds under `key`: an entry of `None` stands for a value that is not an
/// address.
pub open spec fn held(storage: Map<Seq<char>, Option<Address>>, key: Seq<char>) -> Stored {
    if storage.contains_key(key) {
        match storage[key] {
            Some(address) => Stored::Present(address),
            None => Stored::Unreadable,
        }
    } else {
        Stored::Absent
    }
}

/// What the instance storage holds after `calls`, if it held `storage` before.
pub open spec fn storage_after(
    storage: Map<Seq<char>, Option<Address>>,
    calls: Seq<HostCall>,
) -> Map<Seq<char>, Option<Address>>
    decreases calls.len(),
{
    if calls.len() == 0 {
        storage
    } else {
        let before = storage_after(storage, calls.drop_last());
        match calls.last() {
            HostCall::StorageSet { key, value } => before.insert(key, Some(value)),
            _ => before,
        }
    }
}

/// Whether the reply to `call` is what an instance storage that holds `storage` replies.
pub open spec fn answers(storage: Map<Seq<char>, Option<Address>>, call: HostCall) -> bool {
    match call {
        HostCall::StorageHas { key, found } => found == !(held(storage, key) is Absent),
        HostCall::StorageGet { key, stored } => stored == held(storage, key),
        _ => true,
    }
}

/// Whether the storage, which held `storage` at first, gave back in all of `calls` what had been
/// written to it last: nobody else writes it, and nothing written is lost.
pub open spec fn storage_keeps(
    storage: Map<Seq<char>, Option<Address>>,
    calls: Seq<HostCall>,
) -> bool {
    forall|i: int|
        0 <= i < calls.len() ==> answers(
            storage_after(storage, calls.take(i)),
            #[trigger] calls[i],
        )
}

/// Whether none of `calls` writes to the storage.
pub open spec fn writes_nothing(calls: Seq<HostCall>) -> bool {
    forall|i: int| 0 <= i < calls.len() ==> !(#[trigger] calls[i] is StorageSet)
}

/// Whether each of `calls` that writes to the storage comes right after the storage was asked
/// about the same key and replied that it holds nothing there.
pub open spec fn writes_guarded(calls: Seq<HostCall>) -> bool {
    forall|i: int|
        0 <= i < calls.len() ==> (#[trigger] calls[i] matches HostCall::StorageSet { key, .. }
            ==> i > 0 && calls[i - 1] == (HostCall::StorageHas { key, found: false }))
}

/// Every request to initialize the router guards its write, and so do any number of such
/// requests, one after the other and among calls that write nothing.
pub proof fn law_requests_guard_their_writes(
    factory: Address,
    found: bool,
    first: Seq<HostCall>,
    second: Seq<HostCall>,
)
    ensures
        writes_guarded(initialize_calls(factory, found)),
        writes_nothing(first) ==> writes_guarded(first),
        writes_guarded(first) && writes_guarded(second) ==> writes_guarded(first + second),
{
    if writes_guarded(first) && writes_guarded(second) {
        let both = first + second;
        assert forall|i: int| 0 <= i < both.len() implies (
        #[trigger] both[i] matches HostCall::StorageSet { key, .. } ==> i > 0 && both[i - 1] == (
        HostCall::StorageHas { key, found: false })) by {
            if i >= first.len() {
                assert(both[i] == second[i - first.len()]);
            }
        }
    }
}

/// What the storage holds under a key never changes once it holds something, through any number
/// of requests in any order.
pub proof fn law_what_is_held_stays(
    storage: Map<Seq<char>, Option<Address>>,
    calls: Seq<HostCall>,
    key: Seq<char>,
    from: int,
    to: int,
)
    requires
        storage_keeps(storage, calls),
        0 <= from <= to <= calls.len(),
        writes_guarded(calls.subrange(from, to)),
        !(held(storage_after(storage, calls.take(from)), key) is Absent),
    ensures
        held(storage_after(storage, calls.take(to)), key) == held(
            storage_after(storage, calls.take(from)),
            key,
        ),
    decreases to - from,
{
    if from < to {
        let last = to - 1;
        let part = calls.subrange(from, to);
        let shorter = calls.subrange(from, last);
        assert forall|i: int| 0 <= i < shorter.len() implies (
        #[trigger] shorter[i] matches HostCall::StorageSet { key, .. } ==> i > 0 && shorter[i - 1]
            == (HostCall::StorageHas { key, found: false })) by {
            assert(shorter[i] == part[i]);
        }
        law_what_is_held_stays(storage, calls, key, from, last);
        assert(calls.take(to).drop_last() =~= calls.take(last));
        assert(calls.take(to).last() == calls[last]);
        assert(part[last - from] == calls[last]);
        if calls[last] is StorageSet {
            assert(calls[last - 1] == part[last - from - 1]);
            assert(answers(storage_after(storage, calls.take(last - 1)), calls[last - 1]));
            assert(calls.take(last).drop_last() =~= calls.take(last - 1));
            assert(calls.take(last).last() == calls[last - 1]);
        }
    }
}

/// After a successful initialization with `factory` the storage holds `factory`.
proof fn lemma_factory_held(
    storage: Map<Seq<char>, Option<Address>>,
    calls: Seq<HostCall>,
    before: Seq<HostCall>,
    factory: Address,
    between: Seq<HostCall>,
)
    requires
        storage_keeps(storage, calls),
        (before + initialize_calls(factory, false) + between).is_prefix_of(calls),
        writes_guarded(between),
    ensures
        held(
            storage_after(
                storage,
                calls.take((before + initialize_calls(factory, false) + between).len() as int),
            ),
            DataKey::Factory.text(),
        ) == Stored::Present(factory),
{
    let init = initialize_calls(factory, false);
    let from = (before + init).len() as int;
    let to = (before + init + between).len() as int;
    let prefix = before + init + between;
    assert(calls.take(to) =~= prefix);
    assert(prefix.take(from) =~= before + init);
    assert(calls.take(from) =~= prefix.take(from));
    assert((before + init).last() == init[1]);
    assert(calls.subrange(from, to) =~= between) by {
        assert(calls.subrange(from, to) =~= calls.take(to).subrange(from, to));
    }
    law_what_is_held_stays(storage, calls, DataKey::Factory.text(), from, to);
}

/// A router that was initialized with `factory` returns `factory`, whatever it was asked in
/// between.
pub proof fn law_get_factory_returns_what_initialize_stored(
    storage: Map<Seq<char>, Option<Address>>,
    before: Seq<HostCall>,
    factory: Address,
    found: bool,
    between: Seq<HostCall>,
    stored: Stored,
)
    requires
        storage_keeps(
            storage,
            before + initialize_calls(factory, found) + between + seq![factory_call(stored)],
        ),
        admission(found) is Ok,
        writes_guarded(between),
    ensures
        factory_of(stored) == Ok::<Address, RouterError>(factory),
{
    let earlier = before + initialize_calls(factory, found) + between;
    let calls = earlier + seq![factory_call(stored)];
    lemma_factory_held(storage, calls, before, factory, between);
    assert(calls[earlier.len() as int] == factory_call(stored));
}

/// A router takes a factory only once: once it has one, another request to initialize it is
/// refused and writes nothing.
pub proof fn law_initialize_only_once(
    storage: Map<Seq<char>, Option<Address>>,
    before: Seq<HostCall>,
    factory: Address,
    found: bool,
    between: Seq<HostCall>,
    other: Address,
    found_again: bool,
)
    requires
        storage_keeps(
            storage,
            before + initialize_calls(factory, found) + between + initialize_calls(
                other,
                found_again,
            ),
        ),
        admission(found) is Ok,
        writes_guarded(between),
    ensures
        admission(found_again) == Err::<(), RouterError>(RouterError::AlreadyInitialized),
        writes_nothing(initialize_calls(other, found_again)),
{
    let earlier = before + initialize_calls(factory, found) + between;
    let again = initialize_calls(other, found_again);
    let calls = earlier + again;
    lemma_factory_held(storage, calls, before, factory, between);
    assert(calls[earlier.len() as int] == again[0]);
}

/// A router whose storage holds nothing yet takes the factory that it is given.
pub proof fn law_initialize_the_first_time(
    storage: Map<Seq<char>, Option<Address>>,
    before: Seq<HostCall>,
    factory: Address,
    found: bool,
)
    requires
        storage_keeps(storage, before + initialize_calls(factory, found)),
        held(storage, DataKey::Factory.text()) is Absent,
        writes_nothing(before),
    ensures
        admission(found) is Ok,
{
    let calls = before + initialize_calls(factory, found);
    lemma_storage_unwritten(storage, before);
    assert(calls[before.len() as int] == initialize_calls(factory, found)[0]);
    assert(calls.take(before.len() as int) =~= before);
}

/// Calls that write nothing leave the storage as it is.
proof fn lemma_storage_unwritten(
    storage: Map<Seq<char>, Option<Address>>,
    calls: Seq<HostCall>,
)
    requires
        writes_nothing(calls),
    ensures
        storage_after(storage, calls) == storage,
    decreases calls.len(),
{
    if calls.len() > 0 {
        assert(!(calls[calls.len() - 1] is StorageSet));
        assert forall|i: int| 0 <= i < calls.drop_last().len() implies !(
            #[trigger] calls.drop_last()[i] is StorageSet) by {
            assert(calls.drop_last()[i] == calls[i]);
        }
        lemma_storage_unwritten(storage, calls.drop_last());
    }
}

} // verus!
