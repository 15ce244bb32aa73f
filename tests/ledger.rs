use nrc404::{
    decimal_unit, entropy_bytes, mix_entropy, Contract, ContractError, HostEnv,
    NFTContractMetadata, DEFAULT_MINT_FEE, MAX_RESERVED_WRAP_GAS,
};

fn config(decimals: u8, max_level: u8, table: Option<Vec<u16>>, random: bool) -> NFTContractMetadata {
    NFTContractMetadata {
        decimals,
        max_level,
        level_probability: table,
        enable_random_level: random,
    }
}

fn host(used_gas: u64, prepaid_gas: u64) -> HostEnv {
    HostEnv {
        block_height: 100,
        block_timestamp: 1_700_000_000_000_000_000,
        account_balance: 5_000_000_000_000_000_000_000_000,
        epoch_height: 7,
        random_seed: (0u8..32).collect(),
        prepaid_gas,
        used_gas,
    }
}

fn s(x: &str) -> String {
    x.to_string()
}

fn supply_holds(c: &Contract) -> bool {
    let liquid: u128 = c.accounts.iter().map(|a| a.balance).sum();
    c.total_supply == liquid + c.tokens.len() as u128 * c.decimal_unit
}

#[test]
fn new_gives_owner_whole_supply() {
    let c = Contract::new(s("owner"), config(2, 3, None, false), 1_000).unwrap();
    assert_eq!(c.balance_of(&s("owner")), 1_000);
    assert_eq!(c.balance_of(&s("nobody")), 0);
    assert_eq!(c.decimal_unit, 100);
    assert_eq!(c.operator, "owner");
    assert_eq!(c.next_nft_id, 0);
    assert!(supply_holds(&c));
}

#[test]
fn level_table_checks() {
    assert!(Contract::internal_check_contract_meta_data(&config(0, 2, Some(vec![5000, 5000]), true)).is_ok());
    assert!(Contract::internal_check_contract_meta_data(&config(0, 2, None, false)).is_ok());
    assert_eq!(
        Contract::internal_check_contract_meta_data(&config(0, 2, None, true)),
        Err(ContractError::InvalidLevelConfiguration)
    );
    assert_eq!(
        Contract::internal_check_contract_meta_data(&config(0, 3, Some(vec![5000, 5000]), true)),
        Err(ContractError::InvalidLevelConfiguration)
    );
    assert_eq!(
        Contract::internal_check_contract_meta_data(&config(0, 2, Some(vec![5000, 4999]), true)),
        Err(ContractError::InvalidLevelConfiguration)
    );
    assert_eq!(
        Contract::new(s("o"), config(0, 2, Some(vec![9000, 9000]), true), 1).err(),
        Some(ContractError::InvalidLevelConfiguration)
    );
    assert!(Contract::new(s("o"), config(0, 0, None, false), 1).is_ok());
}

#[test]
fn decimal_unit_values() {
    assert_eq!(decimal_unit(0), Some(1));
    assert_eq!(decimal_unit(18), Some(1_000_000_000_000_000_000));
    assert_eq!(decimal_unit(38), Some(10u128.pow(38)));
    assert_eq!(decimal_unit(39), None);
    assert_eq!(
        Contract::new(s("o"), config(39, 1, None, false), 1).err(),
        Some(ContractError::InvalidDecimals)
    );
}

#[test]
fn pseudo_random_number_exact() {
    let c = Contract::new(s("o"), config(0, 1, None, false), 1).unwrap();
    let env = host(2_000_000_000_000, 300_000_000_000_000);
    assert_eq!(c.pseudo_random_number("alice.near", 10_000, &env), 7782);
    assert_eq!(c.pseudo_random_number("alice.near", u64::MAX, &env), 4272278322665877782);
    let mut other = env.clone();
    other.used_gas += 1;
    assert_ne!(c.pseudo_random_number("alice.near", u64::MAX, &other), 4272278322665877782);
}

#[test]
fn new_level_walks_cumulative_table() {
    let c = Contract::new(s("o"), config(0, 2, Some(vec![5000, 5000]), true), 1).unwrap();
    let env = host(2_000_000_000_000, 300_000_000_000_000);
    // the draw for alice.near here is 7782
    assert_eq!(c.internal_get_new_level("alice.near", &env), 2);
    let c2 = Contract::new(s("o"), config(0, 2, Some(vec![7782, 2218]), true), 1).unwrap();
    assert_eq!(c2.internal_get_new_level("alice.near", &env), 2);
    let c3 = Contract::new(s("o"), config(0, 2, Some(vec![7783, 2217]), true), 1).unwrap();
    assert_eq!(c3.internal_get_new_level("alice.near", &env), 1);
    let fixed = Contract::new(s("o"), config(0, 2, None, false), 1).unwrap();
    assert_eq!(fixed.internal_get_new_level("alice.near", &env), 1);
}

#[test]
fn level_distribution_is_about_even() {
    let c = Contract::new(s("o"), config(0, 2, Some(vec![5000, 5000]), true), 1).unwrap();
    let env = host(2_000_000_000_000, 300_000_000_000_000);
    let n = 4000;
    let mut first = 0;
    for i in 0..n {
        let name = format!("user{}.near", i);
        let level = c.internal_get_new_level(&name, &env);
        assert!(level == 1 || level == 2);
        if level == 1 {
            first += 1;
        }
    }
    let share = first as f64 / n as f64;
    assert!(share > 0.45 && share < 0.55, "share of level 1: {}", share);
}

#[test]
fn remaining_gas() {
    let c = Contract::new(s("o"), config(0, 1, None, false), 1).unwrap();
    assert_eq!(c.internal_get_remaining_gas(&host(3, 10)), 7);
    assert_eq!(c.internal_get_remaining_gas(&host(10, 3)), 0);
}

#[test]
fn mint_takes_one_unit_and_indexes() {
    let mut c = Contract::new(s("alice"), config(1, 3, None, false), 100).unwrap();
    let id = c.internal_mint(&s("alice"), 2, &s("bob"), Some(vec![(s("carol"), 500)])).unwrap();
    assert_eq!(id, 0);
    assert_eq!(c.next_nft_id, 1);
    assert_eq!(c.balance_of(&s("alice")), 90);
    assert_eq!(c.tokens_of(&s("bob")), vec![0]);
    assert_eq!(c.tokens_of_level(&s("bob"), 2), vec![0]);
    assert!(c.tokens_of_level(&s("bob"), 1).is_empty());
    assert!(c.tokens_of(&s("alice")).is_empty());
    assert_eq!(c.tokens[0].royalty.len(), 1);
    assert!(supply_holds(&c));
}

#[test]
fn failed_mint_changes_nothing() {
    let mut c = Contract::new(s("alice"), config(1, 3, None, false), 15).unwrap();
    c.internal_mint(&s("alice"), 1, &s("alice"), None).unwrap();
    let balances: Vec<u128> = c.accounts.iter().map(|a| a.balance).collect();
    let ids: Vec<u128> = c.tokens.iter().map(|t| t.token_id).collect();
    assert_eq!(c.internal_mint(&s("alice"), 0, &s("bob"), None), Err(ContractError::InvalidLevel));
    assert_eq!(c.internal_mint(&s("alice"), 4, &s("bob"), None), Err(ContractError::InvalidLevel));
    assert_eq!(c.internal_mint(&s("alice"), 1, &s("bob"), None), Err(ContractError::InsufficientBalance));
    assert_eq!(c.internal_mint(&s("bob"), 1, &s("bob"), None), Err(ContractError::InsufficientBalance));
    let royalties: Vec<(String, u32)> = (0..7).map(|i| (format!("r{}", i), 10)).collect();
    assert_eq!(
        c.internal_mint(&s("alice"), 1, &s("bob"), Some(royalties)),
        Err(ContractError::TooManyRoyaltySplits)
    );
    assert_eq!(c.total_supply, 15);
    assert_eq!(c.accounts.iter().map(|a| a.balance).collect::<Vec<u128>>(), balances);
    assert_eq!(c.tokens.iter().map(|t| t.token_id).collect::<Vec<u128>>(), ids);
    assert_eq!(c.next_nft_id, 1);
    assert!(c.tokens_of(&s("bob")).is_empty());
}

#[test]
fn unwrap_burns_lowest_level_first() {
    let mut c = Contract::new(s("alice"), config(0, 2, None, false), 10).unwrap();
    let a = c.internal_mint(&s("alice"), 1, &s("alice"), None).unwrap();
    let cc = c.internal_mint(&s("alice"), 2, &s("alice"), None).unwrap();
    let b = c.internal_mint(&s("alice"), 1, &s("alice"), None).unwrap();
    assert_eq!(c.tokens_of_level(&s("alice"), 1), vec![a, b]);
    assert_eq!(c.tokens_of_level(&s("alice"), 2), vec![cc]);
    assert_eq!(c.balance_of(&s("alice")), 7);
    let burned = c.internal_wrap_nft_to_ft(&s("alice"), 2).unwrap();
    assert_eq!(burned, vec![a, b]);
    assert_eq!(c.balance_of(&s("alice")), 9);
    assert_eq!(c.tokens_of(&s("alice")), vec![cc]);
    assert!(c.tokens_of_level(&s("alice"), 1).is_empty());
    assert!(supply_holds(&c));
}

#[test]
fn unwrap_below_one_unit_is_a_no_op() {
    let mut c = Contract::new(s("alice"), config(1, 1, None, false), 100).unwrap();
    c.internal_mint(&s("alice"), 1, &s("alice"), None).unwrap();
    assert_eq!(c.internal_wrap_nft_to_ft(&s("alice"), 9), Ok(vec![]));
    assert_eq!(c.balance_of(&s("alice")), 90);
    assert_eq!(c.tokens.len(), 1);
    assert_eq!(c.internal_wrap_nft_to_ft(&s("alice"), 10), Ok(vec![0]));
    assert_eq!(c.balance_of(&s("alice")), 100);
}

#[test]
fn unwrap_errors() {
    let mut c = Contract::new(s("alice"), config(1, 1, None, false), 100).unwrap();
    assert_eq!(c.internal_wrap_nft_to_ft(&s("alice"), 10), Err(ContractError::InsufficientBalance));
    c.internal_mint(&s("alice"), 1, &s("alice"), None).unwrap();
    assert_eq!(c.internal_wrap_nft_to_ft(&s("alice"), 11), Err(ContractError::InsufficientBalance));
    assert_eq!(c.tokens.len(), 1);
    assert_eq!(c.balance_of(&s("alice")), 90);
}

#[test]
fn wrap_stops_when_budget_runs_out() {
    let mut c = Contract::new(s("alice"), config(0, 1, None, false), 1_000).unwrap();
    let mut env = host(0, MAX_RESERVED_WRAP_GAS + 2_500_000_000_000);
    let minted = c.nft_wrap(&s("alice"), 100, &mut env, 1_000_000_000_000).unwrap();
    assert_eq!(minted, 3);
    assert_eq!(c.tokens_of(&s("alice")), vec![0, 1, 2]);
    assert_eq!(c.balance_of(&s("alice")), 997);
    assert_eq!(env.used_gas, 3_000_000_000_000);
    assert!(supply_holds(&c));
}

#[test]
fn wrap_runs_all_with_enough_budget() {
    let mut c = Contract::new(s("alice"), config(2, 2, Some(vec![5000, 5000]), true), 1_000).unwrap();
    let mut env = host(0, 300_000_000_000_000);
    assert_eq!(c.nft_wrap(&s("alice"), 11, &mut env, 1), Err(ContractError::InsufficientBalance));
    assert_eq!(c.nft_wrap(&s("alice"), 10, &mut env, 1), Ok(10));
    assert_eq!(c.balance_of(&s("alice")), 0);
    let all = c.tokens_of(&s("alice"));
    assert_eq!(all.len(), 10);
    let low = c.tokens_of_level(&s("alice"), 1).len();
    let high = c.tokens_of_level(&s("alice"), 2).len();
    assert_eq!(low + high, 10);
}

#[test]
fn wrap_whole_balance() {
    let mut c = Contract::new(s("alice"), config(1, 1, None, false), 35).unwrap();
    let mut env = host(0, 300_000_000_000_000);
    assert_eq!(c.internal_wrap_ft_to_nft(&s("alice"), &mut env, 10), Ok(3));
    assert_eq!(c.balance_of(&s("alice")), 5);
    assert_eq!(c.internal_wrap_ft_to_nft(&s("alice"), &mut env, 10), Ok(0));
    assert_eq!(c.tokens.len(), 3);
}

#[test]
fn token_ids_are_never_reused() {
    let mut c = Contract::new(s("alice"), config(0, 1, None, false), 10).unwrap();
    assert_eq!(c.internal_mint(&s("alice"), 1, &s("alice"), None), Ok(0));
    assert_eq!(c.internal_mint(&s("alice"), 1, &s("alice"), None), Ok(1));
    assert_eq!(c.internal_wrap_nft_to_ft(&s("alice"), 2), Ok(vec![0, 1]));
    assert!(c.tokens.is_empty());
    assert_eq!(c.internal_mint(&s("alice"), 1, &s("alice"), None), Ok(2));
    assert_eq!(c.next_nft_id, 3);
}

#[test]
fn free_mint_once() {
    let mut c = Contract::new(s("owner"), config(0, 1, None, false), 10).unwrap();
    let env = host(0, 300_000_000_000_000);
    assert_eq!(c.nft_mint(&s("bob"), DEFAULT_MINT_FEE - 1, &env), Err(ContractError::LessMintFee));
    assert_eq!(c.nft_mint(&s("bob"), DEFAULT_MINT_FEE, &env), Ok(0));
    assert_eq!(c.tokens_of(&s("bob")), vec![0]);
    assert_eq!(c.balance_of(&s("owner")), 9);
    assert_eq!(c.nft_mint(&s("bob"), DEFAULT_MINT_FEE, &env), Err(ContractError::AlreadyMinted));
    assert_eq!(c.mint_history, vec![s("bob")]);
}

#[test]
fn operator_wrap() {
    let mut c = Contract::new(s("owner"), config(0, 1, None, false), 5).unwrap();
    let mut env = host(0, 300_000_000_000_000);
    assert_eq!(
        c.nft_wrap_by_operator(&s("eve"), &s("bob"), None, 2, &mut env, 7),
        Err(ContractError::IllegalPermissions)
    );
    let royalties: Vec<(String, u32)> = (0..7).map(|i| (format!("r{}", i), 10)).collect();
    assert_eq!(
        c.nft_wrap_by_operator(&s("owner"), &s("bob"), Some(royalties), 2, &mut env, 7),
        Err(ContractError::TooManyRoyaltySplits)
    );
    assert_eq!(
        c.nft_wrap_by_operator(&s("owner"), &s("bob"), None, 6, &mut env, 7),
        Err(ContractError::InsufficientBalance)
    );
    assert_eq!(env.used_gas, 0);
    let ids = c.nft_wrap_by_operator(&s("owner"), &s("bob"), Some(vec![(s("carol"), 100)]), 2, &mut env, 7);
    assert_eq!(ids, Ok(vec![0, 1]));
    assert_eq!(env.used_gas, 14);
    assert_eq!(c.balance_of(&s("owner")), 3);
    assert_eq!(c.tokens_of(&s("bob")), vec![0, 1]);
    assert_eq!(c.tokens[1].royalty.len(), 1);
    assert!(supply_holds(&c));
}

#[test]
fn conservation_over_a_sequence() {
    let mut c = Contract::new(s("alice"), config(1, 2, Some(vec![3000, 7000]), true), 1_000).unwrap();
    let mut env = host(0, 300_000_000_000_000);
    c.nft_wrap(&s("alice"), 40, &mut env, 1_000).unwrap();
    assert!(supply_holds(&c));
    c.internal_wrap_nft_to_ft(&s("alice"), 155).unwrap();
    assert!(supply_holds(&c));
    c.internal_mint(&s("alice"), 2, &s("bob"), None).unwrap();
    assert!(supply_holds(&c));
    c.internal_wrap_nft_to_ft(&s("bob"), 10).unwrap();
    assert!(supply_holds(&c));
    assert_eq!(c.balance_of(&s("bob")), 10);
    for owner in [s("alice"), s("bob")] {
        let all = c.tokens_of(&owner);
        let mut by_level = c.tokens_of_level(&owner, 1);
        by_level.extend(c.tokens_of_level(&owner, 2));
        by_level.sort();
        assert_eq!(all, by_level);
    }
}

#[test]
fn error_reasons() {
    assert_eq!(ContractError::IllegalPermissions.reason(), "Illegal permissions");
    assert_eq!(ContractError::InsufficientBalance.reason(), "Insufficient balance");
    assert_eq!(ContractError::InvalidLevel.reason(), "Invalid level");
    assert_eq!(ContractError::TokenIdsExhausted.reason(), "No token id left");
}

#[test]
fn entropy_bytes_layout() {
    let env = host(2_000_000_000_000, 300_000_000_000_000);
    let m = entropy_bytes(&env, "alice.near");
    assert_eq!(m.len(), 90);
    assert_eq!(m[..8].to_vec(), vec![100, 0, 0, 0, 0, 0, 0, 0]);
    assert_eq!(m[16..32].to_vec(), vec![0, 0, 0, 37, 164, 0, 10, 139, 202, 34, 4, 0, 0, 0, 0, 0]);
    assert_eq!(m[40..72].to_vec(), (0u8..32).collect::<Vec<u8>>());
    assert_eq!(m[80..].to_vec(), b"alice.near".to_vec());
}

#[test]
fn mix_entropy_values() {
    let env = host(2_000_000_000_000, 300_000_000_000_000);
    assert_eq!(mix_entropy(&env, 0, u64::MAX), 6235741184751703971);
    assert_eq!(mix_entropy(&env, 0, 10_000), 3971);
    assert_eq!(mix_entropy(&env, 12345, 997), 947);
    assert_eq!(mix_entropy(&env, 4089992470042834363, 10_000), 7782);
    let mut rich = env.clone();
    rich.account_balance = (1u128 << 64) + 4;
    assert_eq!(mix_entropy(&rich, 0, 1000), 375);
}

#[test]
fn level_for_draw_bounds() {
    let c = Contract::new(s("o"), config(0, 2, Some(vec![5000, 5000]), true), 1).unwrap();
    assert_eq!(c.level_for_draw(0), 1);
    assert_eq!(c.level_for_draw(4999), 1);
    assert_eq!(c.level_for_draw(5000), 2);
    assert_eq!(c.level_for_draw(9999), 2);
    let skewed = Contract::new(s("o"), config(0, 3, Some(vec![0, 10000, 0]), true), 1).unwrap();
    assert_eq!(skewed.level_for_draw(0), 2);
    assert_eq!(skewed.level_for_draw(9999), 2);
}

#[test]
fn unwrap_covers_a_partial_unit() {
    let mut c = Contract::new(s("alice"), config(1, 2, None, false), 100).unwrap();
    c.internal_mint(&s("alice"), 2, &s("alice"), None).unwrap();
    c.internal_mint(&s("alice"), 1, &s("alice"), None).unwrap();
    c.internal_mint(&s("alice"), 1, &s("alice"), None).unwrap();
    assert_eq!(c.balance_of(&s("alice")), 70);
    assert_eq!(c.internal_wrap_nft_to_ft(&s("alice"), 15), Ok(vec![1, 2]));
    assert_eq!(c.balance_of(&s("alice")), 90);
    assert_eq!(c.tokens_of(&s("alice")), vec![0]);
    assert!(supply_holds(&c));
}

#[test]
fn wrap_one_respects_the_reserve() {
    let mut c = Contract::new(s("alice"), config(0, 1, None, false), 5).unwrap();
    let spent = host(1, MAX_RESERVED_WRAP_GAS);
    assert_eq!(c.wrap_one(&s("alice"), &spent), Ok(None));
    assert_eq!(c.balance_of(&s("alice")), 5);
    assert!(c.tokens.is_empty());
    let fresh = host(0, MAX_RESERVED_WRAP_GAS);
    assert_eq!(c.wrap_one(&s("alice"), &fresh), Ok(Some(0)));
    assert_eq!(c.balance_of(&s("alice")), 4);
    assert_eq!(c.tokens_of(&s("alice")), vec![0]);
}

#[test]
fn royalties_are_kept_whole() {
    let mut c = Contract::new(s("owner"), config(0, 1, None, false), 5).unwrap();
    let mut env = host(0, 300_000_000_000_000);
    let split = vec![(s("carol"), 100), (s("dave"), 250)];
    c.nft_wrap_by_operator(&s("owner"), &s("bob"), Some(split.clone()), 2, &mut env, 7).unwrap();
    assert_eq!(c.tokens[0].royalty, split);
    assert_eq!(c.tokens[1].royalty, split);
    assert_eq!(c.protocol_fee, 0);
    assert_eq!(c.protocol_fee_rate, 0);
}

#[test]
fn no_level_to_give() {
    let mut c = Contract::new(s("owner"), config(0, 0, None, false), 10).unwrap();
    assert_eq!(c.balance_of(&s("owner")), 10);
    assert!(supply_holds(&c));
    let mut env = host(0, 300_000_000_000_000);
    assert_eq!(c.internal_mint(&s("owner"), 1, &s("owner"), None), Err(ContractError::InvalidLevel));
    assert_eq!(c.wrap_one(&s("owner"), &env), Err(ContractError::InvalidLevel));
    assert_eq!(c.nft_wrap(&s("owner"), 2, &mut env, 5), Err(ContractError::InvalidLevel));
    assert_eq!(c.nft_wrap(&s("owner"), 0, &mut env, 5), Ok(0));
    assert_eq!(
        c.nft_wrap_by_operator(&s("owner"), &s("bob"), None, 1, &mut env, 5),
        Err(ContractError::InvalidLevel)
    );
    assert_eq!(c.nft_mint(&s("bob"), DEFAULT_MINT_FEE, &env), Err(ContractError::InvalidLevel));
    let mut spent = host(1, MAX_RESERVED_WRAP_GAS);
    assert_eq!(c.wrap_one(&s("owner"), &spent), Ok(None));
    assert_eq!(c.nft_wrap(&s("owner"), 2, &mut spent, 5), Ok(0));
    assert!(c.tokens.is_empty());
    assert_eq!(c.balance_of(&s("owner")), 10);
    assert_eq!(env.used_gas, 0);
}

#[test]
fn operator_wrap_check() {
    let c = Contract::new(s("owner"), config(0, 1, None, false), 3).unwrap();
    assert_eq!(c.check_wrap_by_operator(&s("owner"), &None, 3), Ok(()));
    assert_eq!(c.check_wrap_by_operator(&s("owner"), &None, 4), Err(ContractError::InsufficientBalance));
    assert_eq!(c.check_wrap_by_operator(&s("eve"), &None, 0), Err(ContractError::IllegalPermissions));
    assert_eq!(c.check_wrap_by_operator(&s("owner"), &None, 0), Ok(()));
}
