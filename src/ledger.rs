//! The dual ledger: fungible balances and leveled tokens over one supply.

use vstd::prelude::*;
use crate::config::{decimal_unit, NFTContractMetadata};
use crate::error::ContractError;

verus! {

/// The protocol fee rate a new ledger starts with.
pub const DEFAULT_PROTOCOL_FEE: u128 = 0;

/// Token ids are issued by a counter and never reused.
pub type TokenId = u128;

/// A token and what is recorded of it.
#[derive(Debug, Clone)]
pub struct Token {
    pub token_id: TokenId,
    pub owner_id: String,
    /// Fixed at mint, in `1..=max_level`.
    pub level: u8,
    /// Perpetual royalties: account and share.
    pub royalty: Vec<(String, u32)>,
}

/// The fungible balance of one registered account.
#[derive(Debug, Clone)]
pub struct AccountBalance {
    pub account_id: String,
    pub balance: u128,
}

/// The ledger: balances, tokens, and the configuration they share. `wf`
/// states its invariant, which every operation keeps.
pub struct Contract {
    pub owner_id: String,
    pub operator: String,
    pub protocol_fee: u128,
    pub protocol_fee_rate: u128,
    pub metadata: NFTContractMetadata,
    /// `10^decimals`: the fungible value of one token.
    pub decimal_unit: u128,
    /// Every outstanding token, by ascending id.
    pub tokens: Vec<Token>,
    /// Every registered account, each once.
    pub accounts: Vec<AccountBalance>,
    pub next_nft_id: u128,
    pub total_supply: u128,
    /// The accounts that have used their one free mint.
    pub mint_history: Vec<String>,
}

/// The sum of the balances in `s`.
pub open spec fn sum_balances(s: Seq<AccountBalance>) -> int
    decreases s.len(),
{
    if s.len() == 0 {
        0
    } else {
        sum_balances(s.drop_last()) + s.last().balance as int
    }
}

/// The balance recorded for account `a` in `s`, or 0 if it has none.
pub open spec fn balance_in(s: Seq<AccountBalance>, a: Seq<char>) -> nat
    decreases s.len(),
{
    if s.len() == 0 {
        0
    } else if s.last().account_id@ == a {
        s.last().balance as nat
    } else {
        balance_in(s.drop_last(), a)
    }
}

/// No account appears twice in `s`.
pub open spec fn accounts_unique(s: Seq<AccountBalance>) -> bool {
    forall|i: int, j: int|
        0 <= i < j < s.len() ==> #[trigger] s[i].account_id@ != #[trigger] s[j].account_id@
}

/// The ids of the tokens in `s` that `owner` holds, in the order of `s`.
pub open spec fn owned_ids(s: Seq<Token>, owner: Seq<char>) -> Seq<TokenId>
    decreases s.len(),
{
    if s.len() == 0 {
        Seq::empty()
    } else if s.last().owner_id@ == owner {
        owned_ids(s.drop_last(), owner).push(s.last().token_id)
    } else {
        owned_ids(s.drop_last(), owner)
    }
}

/// The ids of the tokens in `s` that `owner` holds at `level`, in the order of `s`.
pub open spec fn level_ids(s: Seq<Token>, owner: Seq<char>, level: u8) -> Seq<TokenId>
    decreases s.len(),
{
    if s.len() == 0 {
        Seq::empty()
    } else if s.last().owner_id@ == owner && s.last().level == level {
        level_ids(s.drop_last(), owner, level).push(s.last().token_id)
    } else {
        level_ids(s.drop_last(), owner, level)
    }
}

impl Contract {
    /// The fungible balance of `a`.
    pub open spec fn balance(&self, a: Seq<char>) -> nat {
        balance_in(self.accounts@, a)
    }

    /// The ids of the tokens `owner` holds.
    pub open spec fn tokens_of_spec(&self, owner: Seq<char>) -> Seq<TokenId> {
        owned_ids(self.tokens@, owner)
    }

    /// The ids of the tokens `owner` holds at `level`.
    pub open spec fn tokens_of_level_spec(&self, owner: Seq<char>, level: u8) -> Seq<TokenId> {
        level_ids(self.tokens@, owner, level)
    }

    /// The supply is the liquid balances plus one unit per outstanding token.
    pub open spec fn conserved(&self) -> bool {
        self.total_supply as int == sum_balances(self.accounts@) + self.tokens@.len()
            * self.decimal_unit as int
    }

    /// The ledger's invariant.
    pub open spec fn wf(&self) -> bool {
        &&& self.metadata.valid()
        &&& self.decimal_unit as nat == self.metadata.unit()
        &&& accounts_unique(self.accounts@)
        &&& forall|i: int, j: int|
            0 <= i < j < self.tokens@.len() ==> #[trigger] self.tokens@[i].token_id
                < #[trigger] self.tokens@[j].token_id
        &&& forall|i: int|
            0 <= i < self.tokens@.len() ==> #[trigger] self.tokens@[i].token_id < self.next_nft_id
        &&& forall|i: int|
            0 <= i < self.tokens@.len() ==> 1 <= #[trigger] self.tokens@[i].level
                <= self.metadata.max_level
        &&& self.conserved()
    }
}

pub proof fn lemma_sum_nonneg(s: Seq<AccountBalance>)
    ensures
        sum_balances(s) >= 0,
    decreases s.len(),
{
    if s.len() > 0 {
        lemma_sum_nonneg(s.drop_last());
    }
}

/// A balance is at most the sum of all of them.
pub proof fn lemma_balance_le_sum(s: Seq<AccountBalance>, a: Seq<char>)
    ensures
        balance_in(s, a) <= sum_balances(s),
    decreases s.len(),
{
    if s.len() > 0 {
        lemma_balance_le_sum(s.drop_last(), a);
        lemma_sum_nonneg(s.drop_last());
    }
}

/// The balance of the account at index `i` is the one recorded there.
pub proof fn lemma_balance_at(s: Seq<AccountBalance>, i: int)
    requires
        accounts_unique(s),
        0 <= i < s.len(),
    ensures
        balance_in(s, s[i].account_id@) == s[i].balance,
    decreases s.len(),
{
    if i < s.len() - 1 {
        assert(s[i].account_id@ != s[s.len() - 1].account_id@);
        assert(s.drop_last()[i] == s[i]);
        lemma_balance_at(s.drop_last(), i);
    }
}

/// An account with no entry has balance 0.
pub proof fn lemma_balance_absent(s: Seq<AccountBalance>, a: Seq<char>)
    requires
        forall|i: int| 0 <= i < s.len() ==> #[trigger] s[i].account_id@ != a,
    ensures
        balance_in(s, a) == 0,
    decreases s.len(),
{
    if s.len() > 0 {
        assert(s.last().account_id@ != a);
        lemma_balance_absent(s.drop_last(), a);
    }
}

/// Replacing the entry at `i` by one of the same account.
pub proof fn lemma_update_entry(s: Seq<AccountBalance>, i: int, e: AccountBalance)
    requires
        0 <= i < s.len(),
        e.account_id@ == s[i].account_id@,
    ensures
        sum_balances(s.update(i, e)) == sum_balances(s) - s[i].balance + e.balance,
        forall|a: Seq<char>|
            a != e.account_id@ ==> #[trigger] balance_in(s.update(i, e), a) == balance_in(s, a),
    decreases s.len(),
{
    let t = s.update(i, e);
    if i == s.len() - 1 {
        assert(t.drop_last() =~= s.drop_last());
    } else {
        assert(t.drop_last() =~= s.drop_last().update(i, e));
        lemma_update_entry(s.drop_last(), i, e);
    }
    assert forall|a: Seq<char>| a != e.account_id@ implies #[trigger] balance_in(t, a) == balance_in(
        s,
        a,
    ) by {
        if i != s.len() - 1 {
            assert(balance_in(t.drop_last(), a) == balance_in(s.drop_last(), a));
        }
    }
}

/// Adding the entry `e` at the end.
pub proof fn lemma_push_entry(s: Seq<AccountBalance>, e: AccountBalance)
    ensures
        sum_balances(s.push(e)) == sum_balances(s) + e.balance,
        balance_in(s.push(e), e.account_id@) == e.balance,
        forall|a: Seq<char>|
            a != e.account_id@ ==> #[trigger] balance_in(s.push(e), a) == balance_in(s, a),
{
    assert(s.push(e).drop_last() =~= s);
}

impl Contract {
    /// The index of `account_id` among the registered accounts.
    pub(crate) fn find_account(&self, account_id: &String) -> (r: Option<usize>)
        ensures
            r is Some ==> r->0 < self.accounts@.len() && self.accounts@[r->0 as int].account_id@
                == account_id@,
            r is None ==> forall|i: int|
                0 <= i < self.accounts@.len() ==> #[trigger] self.accounts@[i].account_id@
                    != account_id@,
    {
        let mut i: usize = 0;
        while i < self.accounts.len()
            invariant
                i <= self.accounts@.len(),
                forall|j: int| 0 <= j < i ==> #[trigger] self.accounts@[j].account_id@ != account_id@,
            decreases self.accounts@.len() - i,
        {
            if self.accounts[i].account_id == *account_id {
                return Some(i);
            }
            i = i + 1;
        }
        None
    }

    /// The fungible balance of `account_id`: 0 for an account that is not
    /// registered.
    pub fn balance_of(&self, account_id: &String) -> (r: u128)
        requires
            self.wf(),
        ensures
            r == self.balance(account_id@),
    {
        match self.find_account(account_id) {
            Some(i) => {
                proof {
                    lemma_balance_at(self.accounts@, i as int);
                }
                self.accounts[i].balance
            },
            None => {
                proof {
                    lemma_balance_absent(self.accounts@, account_id@);
                }
                0
            },
        }
    }
}

impl Contract {
    /// `self` and `other` differ at most in their balances.
    pub open spec fn same_but_balances(&self, other: &Contract) -> bool {
        &&& self.owner_id == other.owner_id
        &&& self.operator == other.operator
        &&& self.protocol_fee == other.protocol_fee
        &&& self.protocol_fee_rate == other.protocol_fee_rate
        &&& self.metadata == other.metadata
        &&& self.decimal_unit == other.decimal_unit
        &&& self.tokens == other.tokens
        &&& self.next_nft_id == other.next_nft_id
        &&& self.total_supply == other.total_supply
        &&& self.mint_history == other.mint_history
    }

    /// `self` and `other` differ at most in their balances and tokens, and in
    /// the token id counter.
    pub open spec fn same_config(&self, other: &Contract) -> bool {
        &&& self.owner_id == other.owner_id
        &&& self.operator == other.operator
        &&& self.protocol_fee == other.protocol_fee
        &&& self.protocol_fee_rate == other.protocol_fee_rate
        &&& self.metadata == other.metadata
        &&& self.decimal_unit == other.decimal_unit
        &&& self.total_supply == other.total_supply
        &&& self.mint_history == other.mint_history
    }

    /// Adds an entry with balance 0 for `account_id` unless it has one.
    fn internal_register_account(&mut self, account_id: &String)
        requires
            accounts_unique(old(self).accounts@),
        ensures
            accounts_unique(final(self).accounts@),
            final(self).same_but_balances(old(self)),
            sum_balances(final(self).accounts@) == sum_balances(old(self).accounts@),
            forall|a: Seq<char>| #[trigger] final(self).balance(a) == old(self).balance(a),
            exists|i: int|
                0 <= i < final(self).accounts@.len() && #[trigger] final(self).accounts@[i].account_id@
                    == account_id@,
    {
        match self.find_account(account_id) {
            Some(i) => {},
            None => {
                let e = AccountBalance { account_id: account_id.clone(), balance: 0 };
                proof {
                    lemma_push_entry(self.accounts@, e);
                    lemma_balance_absent(self.accounts@, account_id@);
                }
                self.accounts.push(e);
                assert(self.accounts@[self.accounts@.len() - 1].account_id@ == account_id@);
            },
        }
    }

    /// Adds `amount` to the balance of `account_id`, registering it first if
    /// needed.
    pub(crate) fn internal_deposit(&mut self, account_id: &String, amount: u128)
        requires
            accounts_unique(old(self).accounts@),
            old(self).balance(account_id@) + amount <= u128::MAX,
        ensures
            accounts_unique(final(self).accounts@),
            final(self).same_but_balances(old(self)),
            sum_balances(final(self).accounts@) == sum_balances(old(self).accounts@) + amount,
            final(self).balance(account_id@) == old(self).balance(account_id@) + amount,
            forall|a: Seq<char>|
                a != account_id@ ==> #[trigger] final(self).balance(a) == old(self).balance(a),
    {
        match self.find_account(account_id) {
            Some(i) => {
                proof {
                    lemma_balance_at(self.accounts@, i as int);
                }
                let e = AccountBalance {
                    account_id: account_id.clone(),
                    balance: self.accounts[i].balance + amount,
                };
                proof {
                    lemma_update_entry(self.accounts@, i as int, e);
                    lemma_balance_at(self.accounts@.update(i as int, e), i as int);
                }
                self.accounts.set(i, e);
            },
            None => {
                let e = AccountBalance { account_id: account_id.clone(), balance: amount };
                proof {
                    lemma_push_entry(self.accounts@, e);
                    lemma_balance_absent(self.accounts@, account_id@);
                }
                self.accounts.push(e);
            },
        }
    }

    /// Takes `amount` from the balance of `account_id`; fails, changing
    /// nothing, when the balance is smaller.
    pub(crate) fn internal_withdraw(&mut self, account_id: &String, amount: u128) -> (r: Result<(), ContractError>)
        requires
            accounts_unique(old(self).accounts@),
        ensures
            r is Ok <==> amount <= old(self).balance(account_id@),
            r is Err ==> r->Err_0 == ContractError::InsufficientBalance && *final(self) == *old(self),
            r is Ok ==> {
                &&& accounts_unique(final(self).accounts@)
                &&& final(self).same_but_balances(old(self))
                &&& sum_balances(final(self).accounts@) == sum_balances(old(self).accounts@) - amount
                &&& final(self).balance(account_id@) == old(self).balance(account_id@) - amount
                &&& forall|a: Seq<char>|
                    a != account_id@ ==> #[trigger] final(self).balance(a) == old(self).balance(a)
            },
    {
        match self.find_account(account_id) {
            Some(i) => {
                proof {
                    lemma_balance_at(self.accounts@, i as int);
                }
                if self.accounts[i].balance < amount {
                    return Err(ContractError::InsufficientBalance);
                }
                let e = AccountBalance {
                    account_id: account_id.clone(),
                    balance: self.accounts[i].balance - amount,
                };
                proof {
                    lemma_update_entry(self.accounts@, i as int, e);
                    lemma_balance_at(self.accounts@.update(i as int, e), i as int);
                }
                self.accounts.set(i, e);
                Ok(())
            },
            None => {
                proof {
                    lemma_balance_absent(self.accounts@, account_id@);
                }
                if amount > 0 {
                    return Err(ContractError::InsufficientBalance);
                }
                Ok(())
            },
        }
    }
}

/// The royalty entries in `p`: none when it is `None`.
pub open spec fn royalty_list(p: Option<Vec<(String, u32)>>) -> Seq<(String, u32)> {
    match p {
        Some(v) => v@,
        None => Seq::empty(),
    }
}

/// No account appears twice among the royalty entries `p`.
pub open spec fn royalty_accounts_distinct(p: Seq<(String, u32)>) -> bool {
    forall|i: int, j: int| 0 <= i < j < p.len() ==> #[trigger] p[i].0@ != #[trigger] p[j].0@
}

/// A copy of the royalty entries `v`.
pub fn copy_royalties(v: &Vec<(String, u32)>) -> (r: Vec<(String, u32)>)
    ensures
        r@ == v@,
{
    let mut r: Vec<(String, u32)> = Vec::new();
    let mut i: usize = 0;
    while i < v.len()
        invariant
            i <= v@.len(),
            r@ == v@.take(i as int),
        decreases v@.len() - i,
    {
        let entry = (v[i].0.clone(), v[i].1);
        r.push(entry);
        assert(v@.take(i as int + 1) =~= v@.take(i as int).push(v@[i as int]));
        i = i + 1;
    }
    assert(v@.take(i as int) =~= v@);
    r
}

/// How many royalty entries `p` holds, if any are given.
pub open spec fn royalty_count(p: Option<Vec<(String, u32)>>) -> Option<nat> {
    match p {
        Some(v) => Some(v@.len()),
        None => None,
    }
}

impl Contract {
    /// Why minting a token of `level` paid by `payer` fails, if it does.
    pub open spec fn mint_error(&self, payer: Seq<char>, level: u8, royalties: Option<nat>) -> Option<
        ContractError,
    > {
        if !(1 <= level <= self.metadata.max_level) {
            Some(ContractError::InvalidLevel)
        } else if royalties is Some && royalties->0 >= 7 {
            Some(ContractError::TooManyRoyaltySplits)
        } else if self.balance(payer) < self.decimal_unit {
            Some(ContractError::InsufficientBalance)
        } else if self.next_nft_id == u128::MAX {
            Some(ContractError::TokenIdsExhausted)
        } else {
            None
        }
    }

    /// `self` is `prev` after one token of `level` went to `receiver`, paid
    /// with one unit by `payer`.
    pub open spec fn minted_from(
        &self,
        prev: &Contract,
        payer: Seq<char>,
        receiver: Seq<char>,
        level: u8,
        royalties: Seq<(String, u32)>,
    ) -> bool {
        let t = self.tokens@.last();
        &&& self.same_config(prev)
        &&& self.tokens@.len() == prev.tokens@.len() + 1
        &&& self.tokens@.drop_last() == prev.tokens@
        &&& t.token_id == prev.next_nft_id
        &&& t.owner_id@ == receiver
        &&& t.level == level
        &&& t.royalty@ == royalties
        &&& self.next_nft_id == prev.next_nft_id + 1
        &&& self.balance(payer) == prev.balance(payer) - prev.decimal_unit
        &&& forall|a: Seq<char>| a != payer ==> #[trigger] self.balance(a) == prev.balance(a)
    }

    /// Hands out the next token id.
    fn internal_get_and_use_next_nft_id(&mut self) -> (r: u128)
        requires
            old(self).next_nft_id < u128::MAX,
        ensures
            r == old(self).next_nft_id,
            *final(self) == (Contract { next_nft_id: (r + 1) as u128, ..*old(self) }),
    {
        let next_nft_id = self.next_nft_id;
        self.next_nft_id = self.next_nft_id + 1;
        next_nft_id
    }

    /// Mints one token of `level` to `receiver_id`, paid with one unit of
    /// `operator`'s balance. On failure nothing changes.
    pub fn internal_mint(
        &mut self,
        operator: &String,
        level: u8,
        receiver_id: &String,
        perpetual_royalties: Option<Vec<(String, u32)>>,
    ) -> (r: Result<TokenId, ContractError>)
        requires
            old(self).wf(),
            royalty_accounts_distinct(royalty_list(perpetual_royalties)),
        ensures
            final(self).wf(),
            r is Err <==> old(self).mint_error(operator@, level, royalty_count(perpetual_royalties))
                is Some,
            r is Err ==> r->Err_0 == old(self).mint_error(
                operator@,
                level,
                royalty_count(perpetual_royalties),
            )->0 && *final(self) == *old(self),
            r is Ok ==> r->Ok_0 == old(self).next_nft_id && final(self).minted_from(
                old(self),
                operator@,
                receiver_id@,
                level,
                royalty_list(perpetual_royalties),
            ),
    {
        if level == 0 || level > self.metadata.max_level {
            return Err(ContractError::InvalidLevel);
        }
        let royalty = match perpetual_royalties {
            Some(v) => {
                if v.len() >= 7 {
                    return Err(ContractError::TooManyRoyaltySplits);
                }
                v
            },
            None => Vec::new(),
        };
        if self.balance_of(operator) < self.decimal_unit {
            return Err(ContractError::InsufficientBalance);
        }
        if self.next_nft_id == u128::MAX {
            return Err(ContractError::TokenIdsExhausted);
        }
        let ghost prev = *self;
        let unit = self.decimal_unit;
        let paid = self.internal_withdraw(operator, unit);
        let ghost after_pay = *self;
        let token_id = self.internal_get_and_use_next_nft_id();
        let token = Token { token_id, owner_id: receiver_id.clone(), level, royalty };
        self.tokens.push(token);
        assert(self.tokens@.drop_last() =~= prev.tokens@);
        assert forall|i: int, j: int|
            0 <= i < j < self.tokens@.len() implies #[trigger] self.tokens@[i].token_id
            < #[trigger] self.tokens@[j].token_id by {
            if j < prev.tokens@.len() {
                assert(prev.tokens@[i].token_id < prev.tokens@[j].token_id);
            } else {
                assert(prev.tokens@[i].token_id < prev.next_nft_id);
            }
        }
        assert forall|i: int| 0 <= i < self.tokens@.len() implies #[trigger] self.tokens@[i].token_id
            < self.next_nft_id by {
            if i < prev.tokens@.len() {
                assert(prev.tokens@[i].token_id < prev.next_nft_id);
            }
        }
        assert forall|i: int| 0 <= i < self.tokens@.len() implies 1 <= #[trigger] self.tokens@[i].level
            <= self.metadata.max_level by {
            if i < prev.tokens@.len() {
                assert(prev.tokens@[i] == self.tokens@[i]);
            }
        }
        assert(self.conserved()) by (nonlinear_arith)
            requires
                prev.conserved(),
                sum_balances(self.accounts@) == sum_balances(prev.accounts@) - unit,
                self.tokens@.len() == prev.tokens@.len() + 1,
                self.total_supply == prev.total_supply,
                self.decimal_unit == unit,
                prev.decimal_unit == unit,
        ;
        assert(self.accounts == after_pay.accounts);
        assert forall|a: Seq<char>| a != operator@ implies #[trigger] self.balance(a) == prev.balance(
            a,
        ) by {
            assert(after_pay.balance(a) == prev.balance(a));
        }
        Ok(token_id)
    }
}

/// Token ids strictly increase along `s`.
pub open spec fn ids_increasing(s: Seq<Token>) -> bool {
    forall|i: int, j: int| 0 <= i < j < s.len() ==> #[trigger] s[i].token_id < #[trigger] s[j].token_id
}

pub proof fn lemma_owned_len(s: Seq<Token>, owner: Seq<char>)
    ensures
        owned_ids(s, owner).len() <= s.len(),
    decreases s.len(),
{
    if s.len() > 0 {
        lemma_owned_len(s.drop_last(), owner);
    }
}

impl Contract {
    /// The ids of the tokens `account_id` holds, ascending.
    pub fn tokens_of(&self, account_id: &String) -> (r: Vec<TokenId>)
        ensures
            r@ == self.tokens_of_spec(account_id@),
    {
        let mut r: Vec<TokenId> = Vec::new();
        let mut i: usize = 0;
        while i < self.tokens.len()
            invariant
                i <= self.tokens@.len(),
                r@ == owned_ids(self.tokens@.take(i as int), account_id@),
            decreases self.tokens@.len() - i,
        {
            assert(self.tokens@.take(i as int + 1).drop_last() =~= self.tokens@.take(i as int));
            if self.tokens[i].owner_id == *account_id {
                r.push(self.tokens[i].token_id);
            }
            i = i + 1;
        }
        assert(self.tokens@.take(i as int) =~= self.tokens@);
        r
    }

    /// The ids of the tokens `account_id` holds at `level`, ascending.
    pub fn tokens_of_level(&self, account_id: &String, level: u8) -> (r: Vec<TokenId>)
        ensures
            r@ == self.tokens_of_level_spec(account_id@, level),
    {
        let mut r: Vec<TokenId> = Vec::new();
        let mut i: usize = 0;
        while i < self.tokens.len()
            invariant
                i <= self.tokens@.len(),
                r@ == level_ids(self.tokens@.take(i as int), account_id@, level),
            decreases self.tokens@.len() - i,
        {
            assert(self.tokens@.take(i as int + 1).drop_last() =~= self.tokens@.take(i as int));
            if self.tokens[i].owner_id == *account_id && self.tokens[i].level == level {
                r.push(self.tokens[i].token_id);
            }
            i = i + 1;
        }
        assert(self.tokens@.take(i as int) =~= self.tokens@);
        r
    }

}

impl Contract {
    /// A ledger whose whole supply `total_supply` is the balance of
    /// `owner_id`, who is also its operator, with no protocol fee. Fails when
    /// the level table is unusable, or when `10^decimals` does not fit.
    pub fn new(owner_id: String, metadata: NFTContractMetadata, total_supply: u128) -> (r: Result<
        Contract,
        ContractError,
    >)
        ensures
            r is Err <==> !metadata.valid(),
            r is Err ==> r->Err_0 == if metadata.level_table_valid() {
                ContractError::InvalidDecimals
            } else {
                ContractError::InvalidLevelConfiguration
            },
            r is Ok ==> {
                let c = r->Ok_0;
                &&& c.wf()
                &&& c.owner_id@ == owner_id@
                &&& c.operator@ == owner_id@
                &&& c.protocol_fee == 0
                &&& c.protocol_fee_rate == DEFAULT_PROTOCOL_FEE
                &&& c.metadata == metadata
                &&& c.total_supply == total_supply
                &&& c.balance(owner_id@) == total_supply
                &&& forall|a: Seq<char>| a != owner_id@ ==> #[trigger] c.balance(a) == 0
                &&& c.tokens@.len() == 0
                &&& c.next_nft_id == 0
                &&& c.mint_history@.len() == 0
            },
    {
        match Contract::internal_check_contract_meta_data(&metadata) {
            Ok(()) => {},
            Err(e) => {
                return Err(e);
            },
        }
        let unit = match decimal_unit(metadata.decimals) {
            Some(unit) => unit,
            None => {
                return Err(ContractError::InvalidDecimals);
            },
        };
        let mut contract = Contract {
            owner_id: owner_id.clone(),
            operator: owner_id.clone(),
            protocol_fee: 0,
            protocol_fee_rate: DEFAULT_PROTOCOL_FEE,
            metadata,
            decimal_unit: unit,
            tokens: Vec::new(),
            accounts: Vec::new(),
            next_nft_id: 0,
            total_supply,
            mint_history: Vec::new(),
        };
        assert(sum_balances(contract.accounts@) == 0);
        assert forall|a: Seq<char>| #[trigger] contract.balance(a) == 0 by {}
        contract.internal_deposit(&owner_id, total_supply);
        assert(contract.metadata.valid());
        assert(contract.tokens@.len() == 0);
        assert(contract.tokens@.len() * contract.decimal_unit == 0) by (nonlinear_arith)
            requires
                contract.tokens@.len() == 0,
        ;
        Ok(contract)
    }
}

pub proof fn lemma_push_contains(x: Seq<TokenId>, y: TokenId, id: TokenId)
    ensures
        x.push(y).contains(id) <==> (x.contains(id) || y == id),
{
    let z = x.push(y);
    if x.contains(id) {
        let j = choose|j: int| 0 <= j < x.len() && x[j] == id;
        assert(z[j] == id);
    }
    if y == id {
        assert(z[x.len() as int] == id);
    }
    if z.contains(id) {
        let j = choose|j: int| 0 <= j < z.len() && z[j] == id;
        if j < x.len() {
            assert(x[j] == id);
        }
    }
}

pub proof fn lemma_level_contains(s: Seq<Token>, owner: Seq<char>, level: u8, id: TokenId)
    ensures
        level_ids(s, owner, level).contains(id) <==> exists|i: int|
            0 <= i < s.len() && #[trigger] s[i].token_id == id && s[i].owner_id@ == owner
                && s[i].level == level,
    decreases s.len(),
{
    if s.len() > 0 {
        let r = s.drop_last();
        lemma_level_contains(r, owner, level, id);
        if exists|i: int|
            0 <= i < r.len() && #[trigger] r[i].token_id == id && r[i].owner_id@ == owner
                && r[i].level == level {
            let i = choose|i: int|
                0 <= i < r.len() && #[trigger] r[i].token_id == id && r[i].owner_id@ == owner
                    && r[i].level == level;
            assert(s[i] == r[i]);
        }
        if exists|i: int|
            0 <= i < s.len() && #[trigger] s[i].token_id == id && s[i].owner_id@ == owner
                && s[i].level == level {
            let i = choose|i: int|
                0 <= i < s.len() && #[trigger] s[i].token_id == id && s[i].owner_id@ == owner
                    && s[i].level == level;
            if i < r.len() {
                assert(r[i] == s[i]);
            }
        }
        if s.last().owner_id@ == owner && s.last().level == level {
            assert(level_ids(s, owner, level) == level_ids(r, owner, level).push(s.last().token_id));
            lemma_push_contains(level_ids(r, owner, level), s.last().token_id, id);
        }
        if s.last().token_id == id && s.last().owner_id@ == owner && s.last().level == level {
            assert(s[s.len() - 1].token_id == id);
        }
    }
}

} // verus!
