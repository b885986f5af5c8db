//! The rules of a single step, on given values.

use router::error::{CallFailed, RouterError};
use router::host::{is_contract_key, read_entry, settle, Stored};
use router::route::{check_request, hop_min_out, quoted, quoting_pool, swapped, swapping_pool};
use router::router::admit_factory;
use router::DataKey;
use soroban_sdk::{ConversionError, InvokeError};

#[test]
fn requests_are_checked_for_length_first() {
    assert_eq!(check_request(0, 0), Err(RouterError::PathTooShort));
    assert_eq!(check_request(1, 10), Err(RouterError::PathTooShort));
    assert_eq!(check_request(2, 0), Err(RouterError::AmountNotPositive));
    assert_eq!(check_request(2, i128::MIN), Err(RouterError::AmountNotPositive));
    assert_eq!(check_request(2, 1), Ok(1));
    assert_eq!(check_request(u32::MAX, i128::MAX), Ok(u32::MAX - 1));
}

#[test]
fn only_the_last_hop_is_guarded() {
    assert_eq!(hop_min_out(0, 1, 7), 7);
    assert_eq!(hop_min_out(0, 3, 7), 0);
    assert_eq!(hop_min_out(1, 3, 7), 0);
    assert_eq!(hop_min_out(2, 3, -7), -7);
}

#[test]
fn lookups_are_sorted_out() {
    assert_eq!(swapping_pool(4, Ok(Some(9u8))), Ok(9));
    assert_eq!(swapping_pool::<u8>(4, Ok(None)), Err(RouterError::NoPool { hop: 4 }));
    assert_eq!(swapping_pool::<u8>(4, Err(CallFailed)), Err(RouterError::LookupFailed { hop: 4 }));
    assert_eq!(quoting_pool(4, Ok(Some(9u8))), Ok(Some(9)));
    assert_eq!(quoting_pool::<u8>(4, Ok(None)), Ok(None));
    assert_eq!(quoting_pool::<u8>(4, Err(CallFailed)), Err(RouterError::LookupFailed { hop: 4 }));
}

#[test]
fn amounts_are_sorted_out() {
    assert_eq!(swapped(1, Ok(-3)), Ok(-3));
    assert_eq!(swapped(1, Err(CallFailed)), Err(RouterError::SwapFailed { hop: 1 }));
    assert_eq!(quoted(1, Ok(0)), Ok(0));
    assert_eq!(quoted(1, Err(CallFailed)), Err(RouterError::QuoteFailed { hop: 1 }));
}

#[test]
fn a_factory_is_taken_once() {
    assert_eq!(admit_factory(false), Ok(()));
    assert_eq!(admit_factory(true), Err(RouterError::AlreadyInitialized));
}

#[test]
fn texts() {
    assert_eq!(DataKey::Factory.symbol(), "Factory");
    assert_eq!(RouterError::AlreadyInitialized.message(), "already initialized");
    assert_eq!(RouterError::PathTooShort.message(), "path must have at least 2 tokens");
    assert_eq!(RouterError::AmountNotPositive.message(), "amount_in must be positive");
    assert_eq!(RouterError::NoPool { hop: 3 }.message(), "no pool for hop");
}

#[test]
fn outcomes_of_calls_are_settled() {
    assert_eq!(settle::<u8, ConversionError>(Ok(Ok(3))), Ok(3));
    assert_eq!(settle::<u8, ConversionError>(Ok(Err(ConversionError))), Err(CallFailed));
    assert_eq!(settle::<u8, ConversionError>(Err(Err(InvokeError::Abort))), Err(CallFailed));
}

#[test]
fn storage_entries_are_read() {
    assert!(matches!(read_entry(None), Stored::Absent));
    assert!(matches!(read_entry(Some(Err(ConversionError))), Stored::Unreadable));
}

#[test]
fn contracts_have_strkeys_of_their_own() {
    assert!(is_contract_key(&b"CAAA".to_vec()));
    assert!(!is_contract_key(&b"GAAA".to_vec()));
    assert!(!is_contract_key(&b"GCCC".to_vec()));
    assert!(!is_contract_key(&vec![]));
}
