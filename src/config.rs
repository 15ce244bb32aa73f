//! Contract-level configuration: the exchange rate and the level table.

use vstd::prelude::*;
use crate::error::ContractError;
use crate::ledger::Contract;

verus! {

/// The total that a level probability table sums to.
pub const MAX_LEVEL_PROBABILITY: u16 = 10000;

/// The level of a token when no random level is drawn.
pub const DEFAULT_LEVEL: u8 = 1;

/// The parts of the contract metadata that the ledger reads.
#[derive(Debug, Clone)]
pub struct NFTContractMetadata {
    /// One token is worth `10^decimals` of the smallest fungible unit.
    pub decimals: u8,
    pub max_level: u8,
    /// Weight of each level `1..=max_level`, out of `MAX_LEVEL_PROBABILITY`.
    pub level_probability: Option<Vec<u16>>,
    pub enable_random_level: bool,
}

/// The sum of the weights in `p`.
pub open spec fn sum_weights(p: Seq<u16>) -> int
    decreases p.len(),
{
    if p.len() == 0 {
        0
    } else {
        sum_weights(p.drop_last()) + p.last() as int
    }
}

/// `10^d`.
pub open spec fn pow10(d: nat) -> nat
    decreases d,
{
    if d == 0 {
        1
    } else {
        10 * pow10((d - 1) as nat)
    }
}

impl NFTContractMetadata {
    /// The level table is usable: when levels are drawn at random, it has one
    /// weight per level and the weights sum to `MAX_LEVEL_PROBABILITY`.
    pub open spec fn level_table_valid(&self) -> bool {
        self.enable_random_level ==> {
            &&& self.level_probability is Some
            &&& self.level_probability->0@.len() == self.max_level as int
            &&& sum_weights(self.level_probability->0@) == MAX_LEVEL_PROBABILITY as int
        }
    }

    /// Some level can be given to a token: levels are drawn, or the
    /// default level lies in `1..=max_level`.
    pub open spec fn levels_possible(&self) -> bool {
        self.enable_random_level || self.max_level >= 1
    }

    /// The amount of fungible balance that one token is worth.
    pub open spec fn unit(&self) -> nat {
        pow10(self.decimals as nat)
    }

    /// Both the level table and the exchange rate are usable.
    pub open spec fn valid(&self) -> bool {
        self.level_table_valid() && self.unit() <= u128::MAX
    }
}

pub proof fn lemma_pow10_grows(a: nat, b: nat)
    requires
        a <= b,
    ensures
        1 <= pow10(a) <= pow10(b),
    decreases b,
{
    if b > a {
        lemma_pow10_grows(a, (b - 1) as nat);
    } else if a > 0 {
        lemma_pow10_grows((a - 1) as nat, (a - 1) as nat);
    }
}

/// `10^decimals`, where it fits in a `u128`.
pub fn decimal_unit(decimals: u8) -> (r: Option<u128>)
    ensures
        r is Some <==> pow10(decimals as nat) <= u128::MAX,
        r is Some ==> r->0 as nat == pow10(decimals as nat),
{
    let mut unit: u128 = 1;
    let mut i: u8 = 0;
    while i < decimals
        invariant
            i <= decimals,
            unit as nat == pow10(i as nat),
        decreases decimals - i,
    {
        match unit.checked_mul(10) {
            Some(next) => {
                unit = next;
                i = i + 1;
            },
            None => {
                proof {
                    lemma_pow10_grows((i + 1) as nat, decimals as nat);
                }
                return None;
            },
        }
    }
    Some(unit)
}

impl Contract {
    /// Checks the metadata a contract is created with: `Ok` exactly when the
    /// level table is usable.
    pub fn internal_check_contract_meta_data(metadata: &NFTContractMetadata) -> (r: Result<(), ContractError>)
        ensures
            r is Ok <==> metadata.level_table_valid(),
            r is Err ==> r->Err_0 == ContractError::InvalidLevelConfiguration,
    {
        if !metadata.enable_random_level {
            return Ok(());
        }
        let table = match &metadata.level_probability {
            Some(table) => table,
            None => {
                return Err(ContractError::InvalidLevelConfiguration);
            },
        };
        if table.len() != metadata.max_level as usize {
            return Err(ContractError::InvalidLevelConfiguration);
        }
        let mut total: u64 = 0;
        let mut i: usize = 0;
        while i < table.len()
            invariant
                i <= table@.len(),
                table@.len() <= 255,
                total as int == sum_weights(table@.take(i as int)),
                total <= i * 65535,
            decreases table@.len() - i,
        {
            assert(table@.take(i as int + 1).drop_last() =~= table@.take(i as int));
            total = total + table[i] as u64;
            i = i + 1;
        }
        assert(table@.take(i as int) =~= table@);
        if total != MAX_LEVEL_PROBABILITY as u64 {
            return Err(ContractError::InvalidLevelConfiguration);
        }
        Ok(())
    }
}

} // verus!
