//! Level assignment: a pseudo-random draw from the host's entropy, then a walk
//! over the cumulative level table.

use vstd::prelude::*;
use vstd::wrapping::u64_specs::{wrapping_add, wrapping_mul};
use sha2::{Digest, Sha256};
use crate::bytes::{le_bytes, le_value, push_all, push_le_bytes, u64_from_le};
use crate::config::{sum_weights, NFTContractMetadata, DEFAULT_LEVEL, MAX_LEVEL_PROBABILITY};
use crate::ledger::Contract;

verus! {

/// What the host tells a call about the block it runs in and the compute it
/// may spend.
#[derive(Debug, Clone)]
pub struct HostEnv {
    pub block_height: u64,
    pub block_timestamp: u64,
    /// The contract account's native balance.
    pub account_balance: u128,
    pub epoch_height: u64,
    pub random_seed: Vec<u8>,
    /// Compute the call was given.
    pub prepaid_gas: u64,
    /// Compute the call has spent so far.
    pub used_gas: u64,
}

/// The odd constant that the combined entropy is multiplied by.
pub const RANDOM_MULTIPLIER: u64 = 0x4cd6944c5e2e53a9;

/// The SHA-256 digest of `data`.
pub uninterp spec fn sha256_of(data: Seq<u8>) -> Seq<u8>;

/// Relies on sha2's `Sha256::digest`: the 32-byte SHA-256 digest of the input.
#[verifier::external_body]
fn sha256(data: &Vec<u8>) -> (r: Vec<u8>)
    ensures
        r@ == sha256_of(data@),
        r@.len() == 32,
{
    Sha256::digest(data.as_slice()).to_vec()
}

/// The bytes hashed for a draw: block height, timestamp, native balance,
/// epoch, seed, spent compute and the account's name, in that order.
pub open spec fn entropy_message(env: HostEnv, account: Seq<char>) -> Seq<u8> {
    le_bytes(env.block_height as nat, 8) + le_bytes(env.block_timestamp as nat, 8) + le_bytes(
        env.account_balance as nat,
        16,
    ) + le_bytes(env.epoch_height as nat, 8) + env.random_seed@ + le_bytes(env.used_gas as nat, 8)
        + vstd::utf8::encode_utf8(account)
}

/// Folds the entropy and the hash number `h` into one 64-bit value.
pub open spec fn mix(env: HostEnv, h: u64) -> u64 {
    let combined = wrapping_add(
        wrapping_add(
            wrapping_add(wrapping_add(env.block_height, env.block_timestamp), h),
            env.epoch_height,
        ),
        env.used_gas,
    );
    let balance = (env.account_balance % 0x1_0000_0000_0000_0000) as u64;
    wrapping_mul(wrapping_add(combined, balance), RANDOM_MULTIPLIER)
}

/// The draw in `[0, n)` for `account` under `env`.
pub open spec fn pseudo_random(env: HostEnv, account: Seq<char>, n: u64) -> u64 {
    let h = le_value(sha256_of(entropy_message(env, account)).take(8)) as u64;
    (mix(env, h) % n) as u64
}

/// The first level from `i + 1` on whose cumulative weight exceeds `r`, or
/// the default level if there is none.
pub open spec fn pick_level(r: int, p: Seq<u16>, i: nat) -> u8
    decreases p.len() - i,
{
    if i >= p.len() {
        DEFAULT_LEVEL
    } else if r < sum_weights(p.take(i + 1 as int)) {
        (i + 1) as u8
    } else {
        pick_level(r, p, i + 1)
    }
}

/// The level a new token of `account` gets.
pub open spec fn new_level(m: NFTContractMetadata, env: HostEnv, account: Seq<char>) -> u8 {
    if !m.enable_random_level {
        DEFAULT_LEVEL
    } else {
        pick_level(
            pseudo_random(env, account, MAX_LEVEL_PROBABILITY as u64) as int,
            m.level_probability->0@,
            0,
        )
    }
}

/// A picked level is the default one or one of the table's levels.
pub proof fn lemma_pick_level_range(r: int, p: Seq<u16>, i: nat)
    requires
        p.len() <= 255,
    ensures
        pick_level(r, p, i) == DEFAULT_LEVEL || (i < pick_level(r, p, i) <= p.len()),
    decreases p.len() - i,
{
    if i < p.len() && r >= sum_weights(p.take(i + 1 as int)) {
        lemma_pick_level_range(r, p, i + 1);
    }
}

/// A level drawn under a valid configuration lies in `1..=max_level`.
pub proof fn lemma_new_level_range(m: NFTContractMetadata, env: HostEnv, account: Seq<char>)
    requires
        m.level_table_valid(),
        m.levels_possible(),
    ensures
        1 <= new_level(m, env, account) <= m.max_level,
{
    if m.enable_random_level {
        let p = m.level_probability->0@;
        lemma_pick_level_range(
            pseudo_random(env, account, MAX_LEVEL_PROBABILITY as u64) as int,
            p,
            0,
        );
        if p.len() == 0 {
            assert(sum_weights(p) == 0);
        }
    }
}

/// The bytes hashed for a draw of `account_id` under `env`.
pub fn entropy_bytes(env: &HostEnv, account_id: &str) -> (r: Vec<u8>)
    ensures
        r@ == entropy_message(*env, account_id@),
{
    let mut message: Vec<u8> = Vec::new();
    push_le_bytes(&mut message, env.block_height as u128, 8);
    push_le_bytes(&mut message, env.block_timestamp as u128, 8);
    push_le_bytes(&mut message, env.account_balance, 16);
    push_le_bytes(&mut message, env.epoch_height as u128, 8);
    push_all(&mut message, env.random_seed.as_slice());
    push_le_bytes(&mut message, env.used_gas as u128, 8);
    push_all(&mut message, account_id.as_bytes());
    assert(message@ =~= entropy_message(*env, account_id@));
    message
}

/// Folds the entropy and `hash_number`, the first eight digest bytes read
/// little-endian, into a draw in `[0, n)`.
pub fn mix_entropy(env: &HostEnv, hash_number: u64, n: u64) -> (r: u64)
    requires
        n > 0,
    ensures
        r == mix(*env, hash_number) % n,
{
    let combined = env.block_height.wrapping_add(env.block_timestamp).wrapping_add(hash_number).wrapping_add(
        env.epoch_height,
    ).wrapping_add(env.used_gas);
    let balance_as_u64 = (env.account_balance % 0x1_0000_0000_0000_0000u128) as u64;
    let combined_with_balance = combined.wrapping_add(balance_as_u64);
    let complex_hash = combined_with_balance.wrapping_mul(RANDOM_MULTIPLIER);
    complex_hash % n
}

impl Contract {
    /// Compute left to the call.
    pub fn internal_get_remaining_gas(&self, env: &HostEnv) -> (r: u64)
        ensures
            r == if env.used_gas <= env.prepaid_gas {
                env.prepaid_gas - env.used_gas
            } else {
                0
            },
    {
        env.prepaid_gas.saturating_sub(env.used_gas)
    }

    /// A pseudo-random number in `[0, n)` from the host's entropy and the
    /// account's name. Predictable by whoever controls the block.
    pub fn pseudo_random_number(&self, account_id: &str, n: u64, env: &HostEnv) -> (r: u64)
        requires
            n > 0,
        ensures
            r == pseudo_random(*env, account_id@, n),
            r < n,
    {
        let message = entropy_bytes(env, account_id);
        let digest = sha256(&message);
        let hash_number = u64_from_le(&digest);
        mix_entropy(env, hash_number, n)
    }

    /// The level of a new token of `account_id`: the default level unless
    /// random levels are enabled, else the level that a draw in
    /// `[0, MAX_LEVEL_PROBABILITY)` falls on in the cumulative table.
    pub fn internal_get_new_level(&self, account_id: &str, env: &HostEnv) -> (r: u8)
        requires
            self.metadata.level_table_valid(),
        ensures
            r == new_level(self.metadata, *env, account_id@),
    {
        if !self.metadata.enable_random_level {
            return DEFAULT_LEVEL;
        }
        let random = self.pseudo_random_number(account_id, MAX_LEVEL_PROBABILITY as u64, env);
        self.level_for_draw(random)
    }

    /// The first level whose cumulative weight exceeds `random`, or the
    /// default level if none does.
    pub fn level_for_draw(&self, random: u64) -> (r: u8)
        requires
            self.metadata.level_table_valid(),
            self.metadata.enable_random_level,
        ensures
            r == pick_level(random as int, self.metadata.level_probability->0@, 0),
    {
        let table = match &self.metadata.level_probability {
            Some(table) => table,
            None => {
                return DEFAULT_LEVEL;
            },
        };
        let ghost p = table@;
        let mut added: u64 = 0;
        let mut i: usize = 0;
        while i < table.len()
            invariant
                i <= p.len(),
                p.len() <= 255,
                p == table@,
                p == self.metadata.level_probability->0@,
                added as int == sum_weights(p.take(i as int)),
                added <= i * 65535,
                pick_level(random as int, p, 0) == pick_level(random as int, p, i as nat),
            decreases p.len() - i,
        {
            assert(p.take(i as int + 1).drop_last() =~= p.take(i as int));
            added = added + table[i] as u64;
            assert(added as int == sum_weights(p.take(i as int + 1)));
            if random < added {
                assert(pick_level(random as int, p, i as nat) == (i + 1) as u8);
                return (i + 1) as u8;
            }
            i = i + 1;
        }
        DEFAULT_LEVEL
    }
}

} // verus!
