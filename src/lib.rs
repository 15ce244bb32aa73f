//! A hybrid token ledger: one fungible supply held both as divisible balances
//! and as indivisible, leveled tokens, with a fixed exchange rate between them.

mod bytes;
mod config;
mod engine;
mod error;
mod laws;
mod ledger;
mod random;
mod unwrap;

pub use bytes::{le_bytes, le_value};
pub use config::{
    decimal_unit, pow10, sum_weights, NFTContractMetadata,
    DEFAULT_LEVEL, MAX_LEVEL_PROBABILITY,
};
pub use engine::{
    gas_after, is_wrapped, level_blocked, remaining_gas, with_used_gas, wrap_steps, DEFAULT_MINT_FEE,
    MAX_RESERVED_WRAP_GAS,
};
pub use error::{reason_of, ContractError};
pub use laws::{
    lemma_conservation, lemma_ids_below_counter, lemma_index_consistency, lemma_minted_id_fresh,
};
pub use ledger::{
    accounts_unique, balance_in, ids_increasing, level_ids, owned_ids, royalty_count,
    royalty_accounts_distinct, royalty_list, copy_royalties,
    sum_balances, AccountBalance, Contract, Token, TokenId, DEFAULT_PROTOCOL_FEE,
};
pub use random::{
    entropy_bytes, entropy_message, mix, mix_entropy, new_level, pick_level, pseudo_random, sha256_of, HostEnv,
    RANDOM_MULTIPLIER,
};
pub use unwrap::{burn_count, burn_order, first_n, lemma_burn_count, without_ids};
