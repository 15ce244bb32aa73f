//! Wrapping balance into tokens under a compute budget.

use vstd::prelude::*;
use crate::config::NFTContractMetadata;
use crate::error::ContractError;
use crate::ledger::{
    copy_royalties, royalty_accounts_distinct, royalty_count, royalty_list, Contract, Token, TokenId,
};
use crate::random::{lemma_new_level_range, new_level, HostEnv};

verus! {

/// Compute that must be left before one more token is wrapped.
pub const MAX_RESERVED_WRAP_GAS: u64 = 5_000_000_000_000;

/// Compute left when `used` of `prepaid` is spent.
pub open spec fn remaining_gas(prepaid: u64, used: u64) -> u64 {
    if used <= prepaid {
        (prepaid - used) as u64
    } else {
        0
    }
}

/// Spent compute after `k` mints of `cost` each, from `used`.
pub open spec fn gas_after(used: u64, cost: u64, k: nat) -> u64
    decreases k,
{
    if k == 0 {
        used
    } else {
        let g = gas_after(used, cost, (k - 1) as nat);
        if g + cost > u64::MAX {
            u64::MAX
        } else {
            (g + cost) as u64
        }
    }
}

/// How many of `count` wraps run, counting from `k`: each needs
/// `MAX_RESERVED_WRAP_GAS` left before it starts.
pub open spec fn wrap_steps(prepaid: u64, used: u64, cost: u64, count: nat, k: nat) -> nat
    decreases count - k,
{
    if k >= count || remaining_gas(prepaid, gas_after(used, cost, k)) < MAX_RESERVED_WRAP_GAS {
        k
    } else {
        wrap_steps(prepaid, used, cost, count, k + 1)
    }
}

/// A wrap of `count` tokens would start under `env`, but `m` gives no level
/// a token could have.
pub open spec fn level_blocked(m: NFTContractMetadata, env: HostEnv, count: nat) -> bool {
    &&& !m.levels_possible()
    &&& count > 0
    &&& remaining_gas(env.prepaid_gas, env.used_gas) >= MAX_RESERVED_WRAP_GAS
}

/// `env` once `used_gas` of compute is spent.
pub open spec fn with_used_gas(env: HostEnv, used_gas: u64) -> HostEnv {
    HostEnv { used_gas, ..env }
}

/// `t` is the token with id `id` that a wrap gave `owner` at `level`.
pub open spec fn is_wrapped(t: Token, id: int, owner: Seq<char>, level: u8) -> bool {
    &&& t.token_id == id
    &&& t.owner_id@ == owner
    &&& t.level == level
    &&& t.royalty@.len() == 0
}

pub proof fn lemma_wrap_steps_bound(prepaid: u64, used: u64, cost: u64, count: nat, k: nat)
    requires
        k <= count,
    ensures
        k <= wrap_steps(prepaid, used, cost, count, k) <= count,
    decreases count - k,
{
    if k < count && remaining_gas(prepaid, gas_after(used, cost, k)) >= MAX_RESERVED_WRAP_GAS {
        lemma_wrap_steps_bound(prepaid, used, cost, count, k + 1);
    }
}

impl Contract {
    /// `self` is `prev` after `n` wraps for `owner` that began under `env`,
    /// each spending `cost` of compute: `n` new tokens of `owner` with the
    /// next ids, each at the level drawn when it was made, paid with `n`
    /// units of `owner`'s balance.
    pub open spec fn wrapped_from(
        &self,
        prev: &Contract,
        env: HostEnv,
        cost: u64,
        owner: Seq<char>,
        n: nat,
    ) -> bool {
        &&& self.same_config(prev)
        &&& self.next_nft_id == prev.next_nft_id + n
        &&& self.tokens@.len() == prev.tokens@.len() + n
        &&& self.tokens@.take(prev.tokens@.len() as int) == prev.tokens@
        &&& forall|k: int|
            0 <= k < n ==> is_wrapped(
                #[trigger] self.tokens@[prev.tokens@.len() + k],
                prev.next_nft_id + k,
                owner,
                new_level(
                    prev.metadata,
                    with_used_gas(env, gas_after(env.used_gas, cost, k as nat)),
                    owner,
                ),
            )
        &&& self.balance(owner) == prev.balance(owner) - n * prev.decimal_unit
        &&& forall|a: Seq<char>| a != owner ==> #[trigger] self.balance(a) == prev.balance(a)
    }

    /// One step of a wrap: unless less than `MAX_RESERVED_WRAP_GAS` of
    /// compute is left, turns one unit of `account_id`'s balance into a
    /// token of its own at the level drawn under `env`. Returns its id, or
    /// `None`, changing nothing, when the budget is spent. Fails with
    /// `InvalidLevel`, changing nothing, when the metadata gives no level.
    pub fn wrap_one(&mut self, account_id: &String, env: &HostEnv) -> (r: Result<
        Option<TokenId>,
        ContractError,
    >)
        requires
            old(self).wf(),
            old(self).balance(account_id@) >= old(self).decimal_unit,
            old(self).next_nft_id < u128::MAX,
        ensures
            final(self).wf(),
            r == Ok::<Option<TokenId>, ContractError>(None) <==> remaining_gas(
                env.prepaid_gas,
                env.used_gas,
            ) < MAX_RESERVED_WRAP_GAS,
            r is Err <==> level_blocked(old(self).metadata, *env, 1),
            r is Err ==> r->Err_0 == ContractError::InvalidLevel,
            !(r matches Ok(Some(_))) ==> *final(self) == *old(self),
            r matches Ok(Some(id)) ==> id == old(self).next_nft_id && final(self).minted_from(
                old(self),
                account_id@,
                account_id@,
                new_level(old(self).metadata, *env, account_id@),
                Seq::empty(),
            ),
    {
        if self.internal_get_remaining_gas(env) < MAX_RESERVED_WRAP_GAS {
            return Ok(None);
        }
        if !self.metadata.enable_random_level && self.metadata.max_level == 0 {
            return Err(ContractError::InvalidLevel);
        }
        let level = self.internal_get_new_level(account_id.as_str(), env);
        proof {
            lemma_new_level_range(self.metadata, *env, account_id@);
        }
        match self.internal_mint(account_id, level, account_id, None) {
            Ok(id) => Ok(Some(id)),
            Err(e) => Err(e),
        }
    }

    /// Wraps up to `count` units of `account_id`'s balance into tokens of
    /// its own, one at a time, each at a fresh level. Stops early, without
    /// error, once less than `MAX_RESERVED_WRAP_GAS` of compute is left; each
    /// wrap spends `mint_gas` of `env`'s compute. Returns how many ran.
    /// Fails with `InvalidLevel`, changing nothing, when a wrap would run but
    /// the metadata gives no level.
    pub fn internal_wrap_ft_to_nft_with_count(
        &mut self,
        account_id: &String,
        count: u128,
        env: &mut HostEnv,
        mint_gas: u64,
    ) -> (r: Result<u128, ContractError>)
        requires
            old(self).wf(),
            old(self).balance(account_id@) >= count * old(self).decimal_unit,
            old(self).next_nft_id + count <= u128::MAX,
        ensures
            final(self).wf(),
            r is Err <==> level_blocked(old(self).metadata, *old(env), count as nat),
            r is Err ==> r->Err_0 == ContractError::InvalidLevel && *final(self) == *old(self)
                && *final(env) == *old(env),
            r is Ok ==> r->Ok_0 == wrap_steps(
                old(env).prepaid_gas,
                old(env).used_gas,
                mint_gas,
                count as nat,
                0,
            ) && *final(env) == with_used_gas(
                *old(env),
                gas_after(old(env).used_gas, mint_gas, r->Ok_0 as nat),
            ) && final(self).wrapped_from(old(self), *old(env), mint_gas, account_id@, r->Ok_0 as nat),
    {
        if !self.metadata.enable_random_level && self.metadata.max_level == 0 {
            if count > 0 && self.internal_get_remaining_gas(env) >= MAX_RESERVED_WRAP_GAS {
                return Err(ContractError::InvalidLevel);
            }
            assert(gas_after(env.used_gas, mint_gas, 0) == env.used_gas);
            assert(with_used_gas(*env, env.used_gas) == *env);
            assert(self.tokens@.take(self.tokens@.len() as int) =~= self.tokens@);
            return Ok(0);
        }
        let ghost prev = *self;
        let ghost env0 = *env;
        let ghost n0 = self.tokens@.len();
        let unit = self.decimal_unit;
        let mut minted: u128 = 0;
        let mut go = true;
        while go && minted < count
            invariant
                prev.wf(),
                self.wf(),
                minted <= count,
                self.same_config(&prev),
                self.decimal_unit == unit,
                prev.decimal_unit == unit,
                self.next_nft_id == prev.next_nft_id + minted,
                prev.next_nft_id + count <= u128::MAX,
                self.tokens@.len() == n0 + minted,
                self.tokens@.take(n0 as int) == prev.tokens@,
                forall|k: int|
                    0 <= k < minted ==> is_wrapped(
                        #[trigger] self.tokens@[n0 + k],
                        prev.next_nft_id + k,
                        account_id@,
                        new_level(
                            prev.metadata,
                            with_used_gas(env0, gas_after(env0.used_gas, mint_gas, k as nat)),
                            account_id@,
                        ),
                    ),
                self.balance(account_id@) == prev.balance(account_id@) - minted * unit,
                prev.balance(account_id@) >= count * unit,
                self.metadata.levels_possible(),
                forall|a: Seq<char>| a != account_id@ ==> #[trigger] self.balance(a) == prev.balance(a),
                *env == with_used_gas(env0, gas_after(env0.used_gas, mint_gas, minted as nat)),
                wrap_steps(env0.prepaid_gas, env0.used_gas, mint_gas, count as nat, 0) == if go {
                    wrap_steps(env0.prepaid_gas, env0.used_gas, mint_gas, count as nat, minted as nat)
                } else {
                    minted as nat
                },
            decreases count - minted, if go { 1int } else { 0int },
        {
            proof {
                assert((count - minted) * unit >= unit) by (nonlinear_arith)
                    requires
                        minted < count,
                ;
                assert(count * unit == minted * unit + (count - minted) * unit) by (
                nonlinear_arith);
            }
            let ghost cur = *self;
            let step = self.wrap_one(account_id, env);
            if !(step matches Ok(Some(_))) {
                go = false;
            } else {
                proof {
                    assert(self.tokens@.drop_last() == cur.tokens@);
                    assert(self.tokens@.take(n0 as int) =~= cur.tokens@.take(n0 as int));
                    assert forall|k: int| 0 <= k < minted + 1 implies is_wrapped(
                        #[trigger] self.tokens@[n0 + k],
                        prev.next_nft_id + k,
                        account_id@,
                        new_level(
                            prev.metadata,
                            with_used_gas(env0, gas_after(env0.used_gas, mint_gas, k as nat)),
                            account_id@,
                        ),
                    ) by {
                        if k < minted {
                            assert(self.tokens@[n0 + k] == cur.tokens@[n0 + k]);
                        }
                    }
                    assert(self.balance(account_id@) == prev.balance(account_id@) - (minted + 1)
                        * unit) by (nonlinear_arith)
                        requires
                            self.balance(account_id@) == cur.balance(account_id@) - unit,
                            cur.balance(account_id@) == prev.balance(account_id@) - minted * unit,
                    ;
                    assert forall|a: Seq<char>| a != account_id@ implies #[trigger] self.balance(a)
                        == prev.balance(a) by {
                        assert(cur.balance(a) == prev.balance(a));
                    }
                }
                env.used_gas = env.used_gas.saturating_add(mint_gas);
                minted = minted + 1;
            }
        }
        proof {
            lemma_wrap_steps_bound(env0.prepaid_gas, env0.used_gas, mint_gas, count as nat, 0);
        }
        Ok(minted)
    }
}

/// The deposit that a free mint must carry.
pub const DEFAULT_MINT_FEE: u128 = 15_000_000_000_000_000_000_000;

impl Contract {
    /// Wraps all whole units of `account_id`'s balance, as far as the compute
    /// budget goes. Fails, changing nothing, only when the token id counter
    /// could not cover them.
    pub fn internal_wrap_ft_to_nft(&mut self, account_id: &String, env: &mut HostEnv, mint_gas: u64)
        -> (r: Result<u128, ContractError>)
        requires
            old(self).wf(),
        ensures
            final(self).wf(),
            ({
                let count = old(self).balance(account_id@) / old(self).decimal_unit as nat;
                &&& r is Err <==> old(self).next_nft_id + count > u128::MAX || level_blocked(
                    old(self).metadata,
                    *old(env),
                    count,
                )
                &&& r is Err ==> *final(self) == *old(self) && *final(env) == *old(env) && r->Err_0
                    == if old(self).next_nft_id + count > u128::MAX {
                    ContractError::TokenIdsExhausted
                } else {
                    ContractError::InvalidLevel
                }
                &&& r is Ok ==> {
                    &&& r->Ok_0 == wrap_steps(
                        old(env).prepaid_gas,
                        old(env).used_gas,
                        mint_gas,
                        count,
                        0,
                    )
                    &&& final(self).wrapped_from(
                        old(self),
                        *old(env),
                        mint_gas,
                        account_id@,
                        r->Ok_0 as nat,
                    )
                    &&& *final(env) == with_used_gas(
                        *old(env),
                        gas_after(old(env).used_gas, mint_gas, r->Ok_0 as nat),
                    )
                }
            }),
    {
        proof {
            crate::config::lemma_pow10_grows(0, self.metadata.decimals as nat);
        }
        let ft_balance = self.balance_of(account_id);
        let decimal_int = self.decimal_unit;
        let wrap_count = ft_balance / decimal_int;
        if wrap_count > u128::MAX - self.next_nft_id {
            return Err(ContractError::TokenIdsExhausted);
        }
        proof {
            assert(wrap_count * decimal_int <= ft_balance) by (nonlinear_arith)
                requires
                    wrap_count == ft_balance / decimal_int,
                    decimal_int > 0,
            ;
        }
        self.internal_wrap_ft_to_nft_with_count(account_id, wrap_count, env, mint_gas)
    }

    /// Wraps `count` units of the caller's balance into tokens, as far as the
    /// compute budget goes. Fails, changing nothing, when the caller's
    /// balance holds fewer than `count` whole units or the token id counter
    /// could not cover them.
    pub fn nft_wrap(&mut self, predecessor: &String, count: u128, env: &mut HostEnv, mint_gas: u64)
        -> (r: Result<u128, ContractError>)
        requires
            old(self).wf(),
        ensures
            final(self).wf(),
            r is Err <==> old(self).balance(predecessor@) < count * old(self).decimal_unit
                || old(self).next_nft_id + count > u128::MAX || level_blocked(
                old(self).metadata,
                *old(env),
                count as nat,
            ),
            r is Err ==> *final(self) == *old(self) && *final(env) == *old(env) && r->Err_0 == if old(
                self,
            ).balance(predecessor@) < count * old(self).decimal_unit {
                ContractError::InsufficientBalance
            } else if old(self).next_nft_id + count > u128::MAX {
                ContractError::TokenIdsExhausted
            } else {
                ContractError::InvalidLevel
            },
            r is Ok ==> {
                &&& r->Ok_0 == wrap_steps(
                    old(env).prepaid_gas,
                    old(env).used_gas,
                    mint_gas,
                    count as nat,
                    0,
                )
                &&& final(self).wrapped_from(
                    old(self),
                    *old(env),
                    mint_gas,
                    predecessor@,
                    r->Ok_0 as nat,
                )
                &&& *final(env) == with_used_gas(
                    *old(env),
                    gas_after(old(env).used_gas, mint_gas, r->Ok_0 as nat),
                )
            },
    {
        proof {
            crate::config::lemma_pow10_grows(0, self.metadata.decimals as nat);
        }
        let ft_balance = self.balance_of(predecessor);
        let decimal_int = self.decimal_unit;
        proof {
            let q = ft_balance / decimal_int;
            assert(q < count <==> ft_balance < count * decimal_int) by (nonlinear_arith)
                requires
                    q == ft_balance / decimal_int,
                    decimal_int > 0,
            ;
        }
        if ft_balance / decimal_int < count {
            return Err(ContractError::InsufficientBalance);
        }
        if count > u128::MAX - self.next_nft_id {
            return Err(ContractError::TokenIdsExhausted);
        }
        proof {
            let q = ft_balance / decimal_int;
            assert(count * decimal_int <= ft_balance) by (nonlinear_arith)
                requires
                    q == ft_balance / decimal_int,
                    count <= q,
                    decimal_int > 0,
            ;
        }
        self.internal_wrap_ft_to_nft_with_count(predecessor, count, env, mint_gas)
    }
}

impl Contract {
    /// Whether `account_id` has used its free mint.
    fn has_minted(&self, account_id: &String) -> (r: bool)
        ensures
            r == exists|i: int|
                0 <= i < self.mint_history@.len() && #[trigger] self.mint_history@[i]@
                    == account_id@,
    {
        let mut i: usize = 0;
        while i < self.mint_history.len()
            invariant
                i <= self.mint_history@.len(),
                forall|j: int| 0 <= j < i ==> #[trigger] self.mint_history@[j]@ != account_id@,
            decreases self.mint_history@.len() - i,
        {
            if self.mint_history[i] == *account_id {
                return true;
            }
            i = i + 1;
        }
        false
    }

    /// The one free mint of an account: a token at a fresh level for the
    /// caller, paid with one unit of the operator's balance. Fails, changing
    /// nothing, when the caller has minted before, the deposit is below
    /// `DEFAULT_MINT_FEE`, or the mint itself fails.
    pub fn nft_mint(&mut self, predecessor: &String, attached_deposit: u128, env: &HostEnv) -> (r:
        Result<TokenId, ContractError>)
        requires
            old(self).wf(),
        ensures
            final(self).wf(),
            ({
                let level = new_level(old(self).metadata, *env, predecessor@);
                let minted_before = exists|i: int|
                    0 <= i < old(self).mint_history@.len() && #[trigger] old(
                        self,
                    ).mint_history@[i]@ == predecessor@;
                let err = if minted_before {
                    Some(ContractError::AlreadyMinted)
                } else if attached_deposit < DEFAULT_MINT_FEE {
                    Some(ContractError::LessMintFee)
                } else {
                    old(self).mint_error(old(self).operator@, level, None)
                };
                &&& r is Err <==> err is Some
                &&& r is Err ==> r->Err_0 == err->0 && *final(self) == *old(self)
                &&& r is Ok ==> {
                    &&& r->Ok_0 == old(self).next_nft_id
                    &&& final(self).tokens@.len() == old(self).tokens@.len() + 1
                    &&& final(self).tokens@.drop_last() == old(self).tokens@
                    &&& final(self).tokens@.last().token_id == r->Ok_0
                    &&& final(self).tokens@.last().owner_id@ == predecessor@
                    &&& final(self).tokens@.last().level == level
                    &&& final(self).next_nft_id == old(self).next_nft_id + 1
                    &&& final(self).mint_history@.len() == old(self).mint_history@.len() + 1
                    &&& final(self).mint_history@.last()@ == predecessor@
                    &&& final(self).mint_history@.drop_last() == old(self).mint_history@
                    &&& final(self).tokens@.last().royalty@.len() == 0
                    &&& final(self).balance(old(self).operator@) == old(self).balance(
                        old(self).operator@,
                    ) - old(self).decimal_unit
                    &&& forall|a: Seq<char>|
                        a != old(self).operator@ ==> #[trigger] final(self).balance(a) == old(
                            self,
                        ).balance(a)
                    &&& final(self).total_supply == old(self).total_supply
                    &&& final(self).owner_id == old(self).owner_id
                    &&& final(self).operator == old(self).operator
                    &&& final(self).protocol_fee == old(self).protocol_fee
                    &&& final(self).protocol_fee_rate == old(self).protocol_fee_rate
                    &&& final(self).metadata == old(self).metadata
                    &&& final(self).decimal_unit == old(self).decimal_unit
                }
            }),
    {
        if self.has_minted(predecessor) {
            return Err(ContractError::AlreadyMinted);
        }
        if attached_deposit < DEFAULT_MINT_FEE {
            return Err(ContractError::LessMintFee);
        }
        let level = self.internal_get_new_level(predecessor.as_str(), env);
        let operator = self.operator.clone();
        let token_id = match self.internal_mint(&operator, level, predecessor, None) {
            Ok(id) => id,
            Err(e) => {
                return Err(e);
            },
        };
        let ghost minted = *self;
        self.mint_history.push(predecessor.clone());
        assert(self.mint_history@.drop_last() =~= minted.mint_history@);
        assert forall|a: Seq<char>| #[trigger] self.balance(a) == minted.balance(a) by {}
        Ok(token_id)
    }

    /// Why an operator wrap of `n` tokens by `predecessor` fails, if it does.
    pub open spec fn operator_wrap_error(
        &self,
        predecessor: Seq<char>,
        royalties: Option<nat>,
        n: int,
    ) -> Option<ContractError> {
        if predecessor != self.operator@ && predecessor != self.owner_id@ {
            Some(ContractError::IllegalPermissions)
        } else if n == 0 {
            None
        } else if !self.metadata.levels_possible() {
            Some(ContractError::InvalidLevel)
        } else if royalties is Some && royalties->0 >= 7 {
            Some(ContractError::TooManyRoyaltySplits)
        } else if self.balance(predecessor) < n * self.decimal_unit {
            Some(ContractError::InsufficientBalance)
        } else if self.next_nft_id + n > u128::MAX {
            Some(ContractError::TokenIdsExhausted)
        } else {
            None
        }
    }

    /// Whether an operator wrap of `count` tokens by `predecessor` can run
    /// in full, and if not, why.
    pub fn check_wrap_by_operator(
        &self,
        predecessor: &String,
        perpetual_royalties: &Option<Vec<(String, u32)>>,
        count: u8,
    ) -> (r: Result<(), ContractError>)
        requires
            self.wf(),
        ensures
            r is Err <==> self.operator_wrap_error(
                predecessor@,
                royalty_count(*perpetual_royalties),
                count as int,
            ) is Some,
            r is Err ==> r->Err_0 == self.operator_wrap_error(
                predecessor@,
                royalty_count(*perpetual_royalties),
                count as int,
            )->0,
    {
        if *predecessor != self.operator && *predecessor != self.owner_id {
            return Err(ContractError::IllegalPermissions);
        }
        if count == 0 {
            return Ok(());
        }
        if !self.metadata.enable_random_level && self.metadata.max_level == 0 {
            return Err(ContractError::InvalidLevel);
        }
        match perpetual_royalties {
            Some(v) => {
                if v.len() >= 7 {
                    return Err(ContractError::TooManyRoyaltySplits);
                }
            },
            None => {},
        }
        let balance = self.balance_of(predecessor);
        let cost = match (count as u128).checked_mul(self.decimal_unit) {
            Some(cost) => cost,
            None => {
                return Err(ContractError::InsufficientBalance);
            },
        };
        if balance < cost {
            return Err(ContractError::InsufficientBalance);
        }
        if count as u128 > u128::MAX - self.next_nft_id {
            return Err(ContractError::TokenIdsExhausted);
        }
        Ok(())
    }

    /// Wraps `count` units of the caller's balance into tokens for
    /// `receiver_id`, each with the given royalties; only the owner or the
    /// operator may call it. Every wrap spends `mint_gas` of `env`'s compute.
    /// Fails, changing nothing, when the caller may not, the royalties are
    /// too many, the caller's balance cannot pay for all `count`, or the
    /// token id counter could not cover them. Returns the new ids.
    pub fn nft_wrap_by_operator(
        &mut self,
        predecessor: &String,
        receiver_id: &String,
        perpetual_royalties: Option<Vec<(String, u32)>>,
        count: u8,
        env: &mut HostEnv,
        mint_gas: u64,
    ) -> (r: Result<Vec<TokenId>, ContractError>)
        requires
            old(self).wf(),
            royalty_accounts_distinct(royalty_list(perpetual_royalties)),
        ensures
            final(self).wf(),
            ({
                let n = count as int;
                let err = old(self).operator_wrap_error(
                    predecessor@,
                    royalty_count(perpetual_royalties),
                    n,
                );
                &&& r is Err <==> err is Some
                &&& r is Err ==> r->Err_0 == err->0 && *final(self) == *old(self) && *final(env)
                    == *old(env)
                &&& r is Ok ==> {
                    &&& r->Ok_0@.len() == n
                    &&& *final(env) == with_used_gas(
                        *old(env),
                        gas_after(old(env).used_gas, mint_gas, n as nat),
                    )
                    &&& final(self).same_config(old(self))
                    &&& final(self).next_nft_id == old(self).next_nft_id + n
                    &&& final(self).tokens@.len() == old(self).tokens@.len() + n
                    &&& final(self).tokens@.take(old(self).tokens@.len() as int) == old(self).tokens@
                    &&& forall|k: int|
                        0 <= k < n ==> {
                            &&& #[trigger] r->Ok_0@[k] == old(self).next_nft_id + k
                            &&& final(self).tokens@[old(self).tokens@.len() + k].token_id
                                == old(self).next_nft_id + k
                            &&& final(self).tokens@[old(self).tokens@.len() + k].owner_id@
                                == receiver_id@
                            &&& final(self).tokens@[old(self).tokens@.len() + k].royalty@
                                == royalty_list(perpetual_royalties)
                            &&& final(self).tokens@[old(self).tokens@.len() + k].level == new_level(
                                old(self).metadata,
                                with_used_gas(
                                    *old(env),
                                    gas_after(old(env).used_gas, mint_gas, k as nat),
                                ),
                                predecessor@,
                            )
                        }
                    &&& final(self).balance(predecessor@) == old(self).balance(predecessor@) - n
                        * old(self).decimal_unit
                    &&& forall|a: Seq<char>|
                        a != predecessor@ ==> #[trigger] final(self).balance(a) == old(self).balance(
                            a,
                        )
                }
            }),
    {
        match self.check_wrap_by_operator(predecessor, &perpetual_royalties, count) {
            Ok(()) => {},
            Err(e) => {
                return Err(e);
            },
        }
        let mut ids: Vec<TokenId> = Vec::new();
        if count == 0 {
            assert(gas_after(env.used_gas, mint_gas, 0) == env.used_gas);
            assert(with_used_gas(*env, env.used_gas) == *env);
            assert(self.tokens@.take(self.tokens@.len() as int) =~= self.tokens@);
            return Ok(ids);
        }
        let unit = self.decimal_unit;
        let ghost prev = *self;
        let ghost env0 = *env;
        let ghost n0 = self.tokens@.len();
        let mut minted: u8 = 0;
        while minted < count
            invariant
                prev.wf(),
                self.wf(),
                minted <= count,
                self.same_config(&prev),
                self.decimal_unit == unit,
                prev.decimal_unit == unit,
                self.next_nft_id == prev.next_nft_id + minted,
                prev.next_nft_id + count <= u128::MAX,
                self.tokens@.len() == n0 + minted,
                self.tokens@.take(n0 as int) == prev.tokens@,
                ids@.len() == minted,
                royalty_count(perpetual_royalties) is Some ==> royalty_count(perpetual_royalties)->0
                    < 7,
                self.metadata.levels_possible(),
                royalty_accounts_distinct(royalty_list(perpetual_royalties)),
                forall|k: int|
                    0 <= k < minted ==> {
                        &&& #[trigger] ids@[k] == prev.next_nft_id + k
                        &&& self.tokens@[n0 + k].token_id == prev.next_nft_id + k
                        &&& self.tokens@[n0 + k].owner_id@ == receiver_id@
                        &&& self.tokens@[n0 + k].royalty@ == royalty_list(perpetual_royalties)
                        &&& self.tokens@[n0 + k].level == new_level(
                            prev.metadata,
                            with_used_gas(env0, gas_after(env0.used_gas, mint_gas, k as nat)),
                            predecessor@,
                        )
                    },
                self.balance(predecessor@) == prev.balance(predecessor@) - minted * unit,
                prev.balance(predecessor@) >= count * unit,
                forall|a: Seq<char>|
                    a != predecessor@ ==> #[trigger] self.balance(a) == prev.balance(a),
                *env == with_used_gas(env0, gas_after(env0.used_gas, mint_gas, minted as nat)),
            decreases count - minted,
        {
            let level = self.internal_get_new_level(predecessor.as_str(), env);
            proof {
                lemma_new_level_range(self.metadata, *env, predecessor@);
                assert((count - minted) * unit >= unit) by (nonlinear_arith)
                    requires
                        minted < count,
                ;
                assert(count * unit == minted * unit + (count - minted) * unit) by (nonlinear_arith);
            }
            let royalties = match &perpetual_royalties {
                Some(v) => Some(copy_royalties(v)),
                None => None,
            };
            assert(royalty_list(royalties) == royalty_list(perpetual_royalties));
            let ghost cur = *self;
            let r = self.internal_mint(predecessor, level, receiver_id, royalties);
            let id = match r {
                Ok(id) => id,
                Err(e) => {
                    return Err(e);
                },
            };
            ids.push(id);
            proof {
                assert(self.tokens@.drop_last() == cur.tokens@);
                assert(self.tokens@.take(n0 as int) =~= cur.tokens@.take(n0 as int));
                assert forall|k: int| 0 <= k < minted + 1 implies {
                    &&& #[trigger] ids@[k] == prev.next_nft_id + k
                    &&& self.tokens@[n0 + k].token_id == prev.next_nft_id + k
                    &&& self.tokens@[n0 + k].owner_id@ == receiver_id@
                    &&& self.tokens@[n0 + k].royalty@ == royalty_list(perpetual_royalties)
                    &&& self.tokens@[n0 + k].level == new_level(
                        prev.metadata,
                        with_used_gas(env0, gas_after(env0.used_gas, mint_gas, k as nat)),
                        predecessor@,
                    )
                } by {
                    if k < minted {
                        assert(self.tokens@[n0 + k] == cur.tokens@[n0 + k]);
                    }
                }
                assert(self.balance(predecessor@) == prev.balance(predecessor@) - (minted + 1)
                    * unit) by (nonlinear_arith)
                    requires
                        self.balance(predecessor@) == cur.balance(predecessor@) - unit,
                        cur.balance(predecessor@) == prev.balance(predecessor@) - minted * unit,
                ;
                assert forall|a: Seq<char>| a != predecessor@ implies #[trigger] self.balance(a)
                    == prev.balance(a) by {
                    assert(cur.balance(a) == prev.balance(a));
                }
            }
            env.used_gas = env.used_gas.saturating_add(mint_gas);
            minted = minted + 1;
        }
        Ok(ids)
    }
}

} // verus!
