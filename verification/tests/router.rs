//! The router at work on a test ledger, between a factory and constant-product pools.

use router::error::RouterError;
use router::host::{is_contract, Host};
use router::{DataKey, Router};
use soroban_sdk::testutils::{Address as _, ContractFunctionSet, EnvTestConfig, Ledger as _};
use soroban_sdk::token::{StellarAssetClient, TokenClient};
use soroban_sdk::{Address, Env, Error, IntoVal, Symbol, TryFromVal, Val, Vec};

// ---- contracts on the test ledger ----

fn address(env: &Env, arg: &Val) -> Address {
    Address::try_from_val(env, arg).unwrap()
}

fn amount(env: &Env, arg: &Val) -> i128 {
    i128::try_from_val(env, arg).unwrap()
}

/// The router as a contract: a refused request aborts the invocation.
struct RouterContract;

impl ContractFunctionSet for RouterContract {
    fn call(&self, func: &str, env: Env, args: &[Val]) -> Option<Val> {
        let mut host = Host::new(env.clone());
        match func {
            "initialize" => match Router::initialize(&mut host, address(&env, &args[0])) {
                Ok(()) => Some(().into_val(&env)),
                Err(error) => panic!("{}", error.message()),
            },
            "swap_exact_in" => {
                let result = Router::swap_exact_in(
                    &mut host,
                    address(&env, &args[0]),
                    Vec::try_from_val(&env, &args[1]).unwrap(),
                    amount(&env, &args[2]),
                    amount(&env, &args[3]),
                );
                match result {
                    Ok(out) => Some(out.into_val(&env)),
                    Err(error) => panic!("{}", error.message()),
                }
            }
            "get_amount_out_path" => {
                let path = Vec::try_from_val(&env, &args[0]).unwrap();
                match Router::get_amount_out_path(&mut host, path, amount(&env, &args[1])) {
                    Ok(out) => Some(out.into_val(&env)),
                    Err(error) => panic!("{}", error.message()),
                }
            }
            "get_factory" => match Router::get_factory(&mut host) {
                Ok(factory) => Some(factory.into_val(&env)),
                Err(error) => panic!("{}", error.message()),
            },
            _ => None,
        }
    }
}

/// A factory that knows the pools it was told of, in either order of their tokens.
struct FactoryContract;

impl ContractFunctionSet for FactoryContract {
    fn call(&self, func: &str, env: Env, args: &[Val]) -> Option<Val> {
        let store = env.storage().instance();
        match func {
            "add_pool" => {
                let (a, b) = (address(&env, &args[0]), address(&env, &args[1]));
                store.set(&(a.clone(), b.clone()), &address(&env, &args[2]));
                store.set(&(b, a), &address(&env, &args[2]));
                Some(().into_val(&env))
            }
            "get_pool" => {
                let pair = (address(&env, &args[0]), address(&env, &args[1]));
                let pool: Option<Address> = store.get(&pair);
                Some(pool.into_val(&env))
            }
            _ => None,
        }
    }
}

/// A constant-product pool that keeps thirty parts in ten thousand of what comes in.
struct PoolContract;

impl PoolContract {
    fn quote(env: &Env, token_in: &Address, amount_in: i128) -> i128 {
        let (token_in, token_out) = PoolContract::sides(env, token_in);
        let me = env.current_contract_address();
        let reserve_in = TokenClient::new(env, &token_in).balance(&me);
        let reserve_out = TokenClient::new(env, &token_out).balance(&me);
        assert!(reserve_in > 0 && reserve_out > 0, "empty pool");
        let net = amount_in * 9_970;
        net * reserve_out / (reserve_in * 10_000 + net)
    }

    fn sides(env: &Env, token_in: &Address) -> (Address, Address) {
        let store = env.storage().instance();
        let a: Address = store.get(&0u32).unwrap();
        let b: Address = store.get(&1u32).unwrap();
        if *token_in == a {
            (a, b)
        } else {
            assert!(*token_in == b, "foreign token");
            (b, a)
        }
    }
}

impl ContractFunctionSet for PoolContract {
    fn call(&self, func: &str, env: Env, args: &[Val]) -> Option<Val> {
        let store = env.storage().instance();
        let me = env.current_contract_address();
        match func {
            "setup" => {
                store.set(&0u32, &address(&env, &args[0]));
                store.set(&1u32, &address(&env, &args[1]));
                Some(().into_val(&env))
            }
            "add_liquidity" => {
                let provider = address(&env, &args[0]);
                provider.require_auth();
                let a: Address = store.get(&0u32).unwrap();
                let b: Address = store.get(&1u32).unwrap();
                TokenClient::new(&env, &a).transfer(&provider, &me, &amount(&env, &args[1]));
                TokenClient::new(&env, &b).transfer(&provider, &me, &amount(&env, &args[2]));
                Some(().into_val(&env))
            }
            "get_amount_out" => {
                let out = PoolContract::quote(&env, &address(&env, &args[0]), amount(&env, &args[1]));
                Some(out.into_val(&env))
            }
            "swap" => {
                let trader = address(&env, &args[0]);
                trader.require_auth();
                let amount_in = amount(&env, &args[2]);
                let min_out = amount(&env, &args[3]);
                let (token_in, token_out) = PoolContract::sides(&env, &address(&env, &args[1]));
                let out = PoolContract::quote(&env, &token_in, amount_in);
                assert!(out >= min_out, "slippage");
                TokenClient::new(&env, &token_in).transfer(&trader, &me, &amount_in);
                TokenClient::new(&env, &token_out).transfer(&me, &trader, &out);
                store.set(&2u32, &amount_in);
                store.set(&3u32, &min_out);
                Some(out.into_val(&env))
            }
            "last_amount_in" => Some(store.get::<u32, i128>(&2u32).unwrap().into_val(&env)),
            "last_min_out" => Some(store.get::<u32, i128>(&3u32).unwrap().into_val(&env)),
            _ => None,
        }
    }
}

// ---- calling them ----

fn test_env() -> Env {
    let env = Env::new_with_config(EnvTestConfig { capture_snapshot_at_drop: false });
    env.mock_all_auths();
    env
}

fn call<T: TryFromVal<Env, Val>>(env: &Env, contract: &Address, func: &str, args: &[Val]) -> T {
    env.invoke_contract(contract, &Symbol::new(env, func), Vec::from_slice(env, args))
}

fn call_fails(env: &Env, contract: &Address, func: &str, args: &[Val]) -> bool {
    let result = env.try_invoke_contract::<Val, Error>(
        contract,
        &Symbol::new(env, func),
        Vec::from_slice(env, args),
    );
    !matches!(result, Ok(Ok(_)))
}

fn swap_args(
    env: &Env,
    trader: &Address,
    path: &Vec<Address>,
    amount_in: i128,
    min_out: i128,
) -> [Val; 4] {
    [trader.to_val(), path.to_val(), amount_in.into_val(env), min_out.into_val(env)]
}

fn create_token(env: &Env, admin: &Address) -> Address {
    env.register_stellar_asset_contract_v2(admin.clone()).address()
}

/// A factory, the pools A-B and B-C, and a router.
struct MultiHopSetup {
    env: Env,
    router: Address,
    factory: Address,
    pool_ab: Address,
    pool_bc: Address,
    ta: Address,
    tb: Address,
    tc: Address,
}

fn create_pool(env: &Env, factory: &Address, a: &Address, b: &Address) -> Address {
    let pool = env.register(PoolContract, ());
    call::<()>(env, &pool, "setup", &[a.to_val(), b.to_val()]);
    call::<()>(env, factory, "add_pool", &[a.to_val(), b.to_val(), pool.to_val()]);
    pool
}

fn setup_multi_hop() -> MultiHopSetup {
    let env = test_env();
    env.ledger().set_timestamp(1000);

    let admin = Address::generate(&env);
    let factory = env.register(FactoryContract, ());
    let ta = create_token(&env, &admin);
    let tb = create_token(&env, &admin);
    let tc = create_token(&env, &admin);
    let pool_ab = create_pool(&env, &factory, &ta, &tb);
    let pool_bc = create_pool(&env, &factory, &tb, &tc);

    let provider = Address::generate(&env);
    StellarAssetClient::new(&env, &ta).mint(&provider, &1_000_000_i128);
    StellarAssetClient::new(&env, &tb).mint(&provider, &2_000_000_i128);
    StellarAssetClient::new(&env, &tc).mint(&provider, &1_000_000_i128);
    let liquidity =
        [provider.to_val(), 1_000_000_i128.into_val(&env), 1_000_000_i128.into_val(&env)];
    call::<()>(&env, &pool_ab, "add_liquidity", &liquidity);
    call::<()>(&env, &pool_bc, "add_liquidity", &liquidity);

    let router = env.register(RouterContract, ());
    call::<()>(&env, &router, "initialize", &[factory.to_val()]);

    MultiHopSetup { env, router, factory, pool_ab, pool_bc, ta, tb, tc }
}

impl MultiHopSetup {
    fn trader_with(&self, amount: i128) -> Address {
        let trader = Address::generate(&self.env);
        StellarAssetClient::new(&self.env, &self.ta).mint(&trader, &amount);
        trader
    }

    fn path_ab(&self) -> Vec<Address> {
        Vec::from_array(&self.env, [self.ta.clone(), self.tb.clone()])
    }

    fn path_abc(&self) -> Vec<Address> {
        Vec::from_array(&self.env, [self.ta.clone(), self.tb.clone(), self.tc.clone()])
    }

    fn swap(&self, trader: &Address, path: &Vec<Address>, amount_in: i128, min_out: i128) -> i128 {
        let args = swap_args(&self.env, trader, path, amount_in, min_out);
        call(&self.env, &self.router, "swap_exact_in", &args)
    }

    fn quote(&self, path: &Vec<Address>, amount_in: i128) -> i128 {
        let args = [path.to_val(), amount_in.into_val(&self.env)];
        call(&self.env, &self.router, "get_amount_out_path", &args)
    }

    /// A swap without the contract around the router, so that the error can be seen.
    fn try_swap(
        &self,
        path: Vec<Address>,
        amount_in: i128,
        min_out: i128,
    ) -> Result<i128, RouterError> {
        let trader = self.trader_with(100_000);
        self.env.as_contract(&self.router, || {
            let mut host = Host::new(self.env.clone());
            Router::swap_exact_in(&mut host, trader, path, amount_in, min_out)
        })
    }

    /// A quote without the contract around the router, so that the error can be seen.
    fn try_quote(&self, path: Vec<Address>, amount_in: i128) -> Result<i128, RouterError> {
        self.env.as_contract(&self.router, || {
            Router::get_amount_out_path(&mut Host::new(self.env.clone()), path, amount_in)
        })
    }
}

// ---- initialization ----

#[test]
fn test_initialize_stores_factory() {
    let env = test_env();
    let factory = Address::generate(&env);
    let router = env.register(RouterContract, ());
    call::<()>(&env, &router, "initialize", &[factory.to_val()]);
    assert_eq!(call::<Address>(&env, &router, "get_factory", &[]), factory);
}

#[test]
fn test_initialize_twice_panics() {
    let env = test_env();
    let factory = Address::generate(&env);
    let router = env.register(RouterContract, ());
    call::<()>(&env, &router, "initialize", &[factory.to_val()]);
    assert!(call_fails(&env, &router, "initialize", &[factory.to_val()]));
}

#[test]
fn second_initialize_is_refused_and_keeps_the_first_factory() {
    let env = test_env();
    let first = Address::generate(&env);
    let second = Address::generate(&env);
    let router = env.register(RouterContract, ());
    env.as_contract(&router, || {
        let mut host = Host::new(env.clone());
        assert_eq!(Router::initialize(&mut host, first.clone()), Ok(()));
        assert_eq!(
            Router::initialize(&mut host, second.clone()),
            Err(RouterError::AlreadyInitialized)
        );
        assert_eq!(Router::get_factory(&mut host), Ok(first.clone()));
    });
    assert_eq!(call::<Address>(&env, &router, "get_factory", &[]), first);
}

#[test]
fn factory_is_unknown_before_initialization() {
    let env = test_env();
    let router = env.register(RouterContract, ());
    let path = Vec::from_array(&env, [Address::generate(&env), Address::generate(&env)]);
    let trader = Address::generate(&env);
    env.as_contract(&router, || {
        let mut host = Host::new(env.clone());
        assert_eq!(Router::get_factory(&mut host), Err(RouterError::NotInitialized));
        assert_eq!(
            Router::get_amount_out_path(&mut host, path.clone(), 1),
            Err(RouterError::NotInitialized)
        );
        assert_eq!(
            Router::swap_exact_in(&mut host, trader.clone(), path.clone(), 1, 0),
            Err(RouterError::NotInitialized)
        );
    });
}

#[test]
fn factory_is_kept_under_its_data_key() {
    let env = test_env();
    let factory = Address::generate(&env);
    let router = env.register(RouterContract, ());
    call::<()>(&env, &router, "initialize", &[factory.to_val()]);
    env.as_contract(&router, || {
        let key = (Symbol::new(&env, DataKey::Factory.symbol()),);
        let stored: Option<Address> = env.storage().instance().get(&key);
        assert_eq!(stored, Some(factory.clone()));
    });
}

#[test]
fn stored_factory_of_another_type_is_refused() {
    let env = test_env();
    let router = env.register(RouterContract, ());
    env.as_contract(&router, || {
        let mut host = Host::new(env.clone());
        env.storage().instance().set(&(Symbol::new(&env, "Factory"),), &5_i128);
        assert_eq!(Router::get_factory(&mut host), Err(RouterError::FactoryUnreadable));
        assert_eq!(
            Router::initialize(&mut host, router.clone()),
            Err(RouterError::AlreadyInitialized)
        );
    });
}

// ---- swaps ----

#[test]
fn test_direct_swap_via_router() {
    let s = setup_multi_hop();
    let trader = s.trader_with(100_000_i128);
    let out = s.swap(&trader, &s.path_ab(), 100_000_i128, 0_i128);
    assert!(out > 0);
    assert!(out < 100_000);
}

#[test]
fn test_two_hop_swap_a_to_c() {
    let s = setup_multi_hop();
    let trader = s.trader_with(100_000_i128);
    let out = s.swap(&trader, &s.path_abc(), 100_000_i128, 0_i128);
    assert!(out > 0);
    // Two hops with fees each: output must be less than single hop
    assert!(out < 100_000);
}

#[test]
fn swap_moves_the_tokens_along_the_path() {
    let s = setup_multi_hop();
    let trader = s.trader_with(100_000);
    let out = s.swap(&trader, &s.path_abc(), 100_000, 0);
    assert_eq!(out, 82_896);
    assert_eq!(TokenClient::new(&s.env, &s.ta).balance(&trader), 0);
    assert_eq!(TokenClient::new(&s.env, &s.tb).balance(&trader), 0);
    assert_eq!(TokenClient::new(&s.env, &s.tc).balance(&trader), out);
    // the first pool's output is the second pool's input
    assert_eq!(call::<i128>(&s.env, &s.pool_ab, "last_amount_in", &[]), 100_000);
    assert_eq!(call::<i128>(&s.env, &s.pool_bc, "last_amount_in", &[]), 90_661);
}

#[test]
fn test_slippage_guard_on_final_hop() {
    let s = setup_multi_hop();
    let trader = s.trader_with(100_000_i128);
    // min_out set impossibly high
    let args = swap_args(&s.env, &trader, &s.path_ab(), 100_000_i128, i128::MAX);
    assert!(call_fails(&s.env, &s.router, "swap_exact_in", &args));
}

#[test]
fn slippage_guard_binds_the_last_hop_only() {
    let s = setup_multi_hop();
    let trader = s.trader_with(200_000);
    // between what the first pool and what the last pool pays
    assert_eq!(s.swap(&trader, &s.path_abc(), 100_000, 82_896), 82_896);
    assert_eq!(call::<i128>(&s.env, &s.pool_ab, "last_min_out", &[]), 0);
    assert_eq!(call::<i128>(&s.env, &s.pool_bc, "last_min_out", &[]), 82_896);
    assert_eq!(s.try_swap(s.path_abc(), 100_000, 85_000), Err(RouterError::SwapFailed { hop: 1 }));
    assert_eq!(s.try_swap(s.path_ab(), 100_000, i128::MAX), Err(RouterError::SwapFailed { hop: 0 }));
}

#[test]
fn swap_needs_the_traders_authorisation() {
    let s = setup_multi_hop();
    let trader = s.trader_with(100_000);
    let args = swap_args(&s.env, &trader, &s.path_ab(), 100_000, 0);
    s.env.set_auths(&[]);
    assert!(call_fails(&s.env, &s.router, "swap_exact_in", &args));
    s.env.mock_all_auths();
    assert!(!call_fails(&s.env, &s.router, "swap_exact_in", &args));
    // even a request that would be refused anyway is not looked at without it
    let short = Vec::from_array(&s.env, [s.ta.clone()]);
    s.env.set_auths(&[]);
    assert!(call_fails(
        &s.env,
        &s.router,
        "swap_exact_in",
        &swap_args(&s.env, &trader, &short, 1, 0)
    ));
}

#[test]
fn swap_without_pool_is_refused_and_undone() {
    let s = setup_multi_hop();
    let path = Vec::from_array(&s.env, [s.ta.clone(), s.tb.clone(), s.tc.clone(), s.ta.clone()]);
    assert_eq!(s.try_swap(path.clone(), 100_000, 0), Err(RouterError::NoPool { hop: 2 }));
    // through the contract the hops before are rolled back
    let trader = s.trader_with(100_000);
    let before = s.quote(&s.path_ab(), 100_000);
    let args = swap_args(&s.env, &trader, &path, 100_000, 0);
    assert!(call_fails(&s.env, &s.router, "swap_exact_in", &args));
    assert_eq!(TokenClient::new(&s.env, &s.ta).balance(&trader), 100_000);
    assert_eq!(s.quote(&s.path_ab(), 100_000), before);
}

// ---- quotes ----

#[test]
fn test_quote_matches_execution() {
    let s = setup_multi_hop();
    let quoted = s.quote(&s.path_abc(), 50_000_i128);
    let trader = s.trader_with(50_000_i128);
    let actual = s.swap(&trader, &s.path_abc(), 50_000_i128, 0_i128);
    assert_eq!(quoted, actual);
}

#[test]
fn test_quote_returns_zero_for_missing_pool() {
    let env = test_env();
    let factory = env.register(FactoryContract, ());
    let router = env.register(RouterContract, ());
    call::<()>(&env, &router, "initialize", &[factory.to_val()]);

    let ta = Address::generate(&env);
    let tb = Address::generate(&env);
    let path = Vec::from_array(&env, [ta, tb]);
    // No pool created — should return 0
    let args = [path.to_val(), 1_000_i128.into_val(&env)];
    let out: i128 = call(&env, &router, "get_amount_out_path", &args);
    assert_eq!(out, 0);
}

#[test]
fn quote_returns_zero_for_missing_pool_behind_others() {
    let s = setup_multi_hop();
    let path = Vec::from_array(&s.env, [s.ta.clone(), s.tb.clone(), s.tc.clone(), s.ta.clone()]);
    assert_eq!(s.try_quote(path, 1_000), Ok(0));
}

#[test]
fn test_two_hop_quote_less_than_single_hop() {
    let s = setup_multi_hop();
    let amount_in = 50_000_i128;
    let single = s.quote(&s.path_ab(), amount_in);
    let two_hop = s.quote(&s.path_abc(), amount_in);
    // Two hops accumulate fees, so output is lower
    assert!(two_hop < single);
}

#[test]
fn quote_is_the_quotes_of_its_parts() {
    let s = setup_multi_hop();
    let single = s.quote(&s.path_ab(), 50_000);
    assert_eq!(single, 47_482);
    let path_bc = Vec::from_array(&s.env, [s.tb.clone(), s.tc.clone()]);
    assert_eq!(s.quote(&s.path_abc(), 50_000), s.quote(&path_bc, single));
}

#[test]
fn quote_changes_nothing() {
    let s = setup_multi_hop();
    s.env.set_auths(&[]);
    let first = s.quote(&s.path_abc(), 50_000);
    assert_eq!(s.quote(&s.path_abc(), 50_000), first);
}

#[test]
fn requests_keep_the_factory() {
    let s = setup_multi_hop();
    let trader = s.trader_with(100_000);
    s.quote(&s.path_abc(), 1_000);
    s.swap(&trader, &s.path_abc(), 100_000, 0);
    assert_eq!(s.try_swap(s.path_ab(), 0, 0), Err(RouterError::AmountNotPositive));
    assert_eq!(call::<Address>(&s.env, &s.router, "get_factory", &[]), s.factory);
    assert!(call_fails(&s.env, &s.router, "initialize", &[s.ta.to_val()]));
    assert_eq!(call::<Address>(&s.env, &s.router, "get_factory", &[]), s.factory);
}

// ---- refusals ----

#[test]
fn short_paths_are_refused() {
    let s = setup_multi_hop();
    for path in [Vec::new(&s.env), Vec::from_array(&s.env, [s.ta.clone()])] {
        assert_eq!(s.try_swap(path.clone(), 1, 0), Err(RouterError::PathTooShort));
        assert_eq!(s.try_quote(path, -1), Err(RouterError::PathTooShort));
    }
}

#[test]
fn amounts_that_are_not_positive_are_refused() {
    let s = setup_multi_hop();
    for amount_in in [0, -1, i128::MIN] {
        assert_eq!(s.try_swap(s.path_ab(), amount_in, 0), Err(RouterError::AmountNotPositive));
        assert_eq!(s.try_quote(s.path_ab(), amount_in), Err(RouterError::AmountNotPositive));
    }
    assert_eq!(s.try_quote(s.path_ab(), 2), Ok(1));
}

#[test]
fn path_entries_that_are_no_addresses_are_refused() {
    let s = setup_multi_hop();
    let number: Val = 5_i128.into_val(&s.env);
    let entries = Vec::from_array(&s.env, [s.ta.to_val(), s.tb.to_val(), number]);
    let path: Vec<Address> = Vec::try_from_val(&s.env, &entries.to_val()).unwrap();
    assert_eq!(s.try_swap(path.clone(), 1_000, 0), Err(RouterError::TokenUnreadable { index: 2 }));
    assert_eq!(s.try_quote(path, 1_000), Err(RouterError::TokenUnreadable { index: 2 }));
    let entries = Vec::from_array(&s.env, [number, s.tb.to_val()]);
    let path: Vec<Address> = Vec::try_from_val(&s.env, &entries.to_val()).unwrap();
    assert_eq!(s.try_quote(path, 1_000), Err(RouterError::TokenUnreadable { index: 0 }));
}

#[test]
fn factory_that_cannot_be_asked_is_reported() {
    let s = setup_multi_hop();
    let router = s.env.register(RouterContract, ());
    // a contract, but not a factory
    call::<()>(&s.env, &router, "initialize", &[s.pool_ab.to_val()]);
    s.env.as_contract(&router, || {
        let mut host = Host::new(s.env.clone());
        assert_eq!(
            Router::get_amount_out_path(&mut host, s.path_ab(), 1_000),
            Err(RouterError::LookupFailed { hop: 0 })
        );
        assert_eq!(
            Router::swap_exact_in(&mut host, s.ta.clone(), s.path_ab(), 1_000, 0),
            Err(RouterError::LookupFailed { hop: 0 })
        );
    });
}

#[test]
fn pool_that_cannot_quote_is_reported() {
    let s = setup_multi_hop();
    // a pool that holds nothing
    create_pool(&s.env, &s.factory, &s.tc, &s.ta);
    let path = Vec::from_array(&s.env, [s.tb.clone(), s.tc.clone(), s.ta.clone()]);
    assert_eq!(s.try_quote(path, 1_000), Err(RouterError::QuoteFailed { hop: 1 }));
}

// ---- addresses that are no contracts ----

/// The address of an account.
fn account(env: &Env) -> Address {
    env.register_stellar_asset_contract_v2(Address::generate(env)).issuer().address()
}

#[test]
fn contracts_are_told_from_accounts() {
    let s = setup_multi_hop();
    assert!(is_contract(&s.factory));
    assert!(is_contract(&s.ta));
    // the address of a contract that was never deployed
    assert!(is_contract(&Address::generate(&s.env)));
    assert!(!is_contract(&account(&s.env)));
}

#[test]
fn factory_that_is_an_account_is_reported() {
    let s = setup_multi_hop();
    let router = s.env.register(RouterContract, ());
    call::<()>(&s.env, &router, "initialize", &[account(&s.env).to_val()]);
    s.env.as_contract(&router, || {
        let mut host = Host::new(s.env.clone());
        assert_eq!(
            Router::get_amount_out_path(&mut host, s.path_ab(), 1_000),
            Err(RouterError::LookupFailed { hop: 0 })
        );
        assert_eq!(
            Router::swap_exact_in(&mut host, s.ta.clone(), s.path_ab(), 1_000, 0),
            Err(RouterError::LookupFailed { hop: 0 })
        );
    });
    // through the contract the invocation is aborted
    let args = [s.path_ab().to_val(), 1_000_i128.into_val(&s.env)];
    assert!(call_fails(&s.env, &router, "get_amount_out_path", &args));
}

#[test]
fn factory_that_is_not_deployed_is_reported() {
    let s = setup_multi_hop();
    let router = s.env.register(RouterContract, ());
    call::<()>(&s.env, &router, "initialize", &[Address::generate(&s.env).to_val()]);
    s.env.as_contract(&router, || {
        let mut host = Host::new(s.env.clone());
        assert_eq!(
            Router::get_amount_out_path(&mut host, s.path_ab(), 1_000),
            Err(RouterError::LookupFailed { hop: 0 })
        );
    });
}

#[test]
fn pool_that_is_an_account_is_reported() {
    let s = setup_multi_hop();
    let pool = account(&s.env);
    let entry = [s.tc.to_val(), s.ta.to_val(), pool.to_val()];
    call::<()>(&s.env, &s.factory, "add_pool", &entry);
    let path = Vec::from_array(&s.env, [s.ta.clone(), s.tb.clone(), s.tc.clone(), s.ta.clone()]);
    assert_eq!(s.try_quote(path.clone(), 1_000), Err(RouterError::QuoteFailed { hop: 2 }));
    assert_eq!(s.try_swap(path, 1_000, 0), Err(RouterError::SwapFailed { hop: 2 }));
}

// ---- swaps in parts ----

#[test]
fn swap_is_the_swaps_of_its_parts() {
    let whole = setup_multi_hop();
    let trader = whole.trader_with(100_000);
    let out = whole.swap(&trader, &whole.path_abc(), 100_000, 1);

    let parts = setup_multi_hop();
    let trader = parts.trader_with(100_000);
    let path_bc = Vec::from_array(&parts.env, [parts.tb.clone(), parts.tc.clone()]);
    let reached = parts.swap(&trader, &parts.path_ab(), 100_000, 0);
    assert_eq!(parts.swap(&trader, &path_bc, reached, 1), out);
}

#[test]
fn guard_does_not_change_what_is_paid() {
    let unguarded = setup_multi_hop();
    let trader = unguarded.trader_with(100_000);
    let out = unguarded.swap(&trader, &unguarded.path_abc(), 100_000, 0);

    let guarded = setup_multi_hop();
    let trader = guarded.trader_with(100_000);
    assert_eq!(guarded.swap(&trader, &guarded.path_abc(), 100_000, out), out);
}
