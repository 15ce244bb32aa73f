//! Unwrapping: burning an owner's lowest-level tokens back into balance.

use vstd::prelude::*;
use crate::error::ContractError;
use crate::ledger::{
    accounts_unique, ids_increasing, lemma_balance_le_sum,
    lemma_owned_len, lemma_push_contains, lemma_sum_nonneg, level_ids, sum_balances, Contract,
    Token, TokenId,
};

verus! {

/// The ids of the tokens of `owner` at levels `1..=top`: lowest level first,
/// ascending id within a level.
pub open spec fn burn_order(s: Seq<Token>, owner: Seq<char>, top: nat) -> Seq<TokenId>
    decreases top,
{
    if top == 0 {
        Seq::empty()
    } else {
        burn_order(s, owner, (top - 1) as nat) + level_ids(s, owner, top as u8)
    }
}

/// How many tokens an unwrap of `less` burns at `unit` a token: none below
/// one unit, else the fewest whose value covers `less`.
pub open spec fn burn_count(less: nat, unit: nat) -> nat {
    if less < unit {
        0
    } else {
        ((less + unit - 1) as nat / unit) as nat
    }
}

/// `s` without the tokens whose ids are in `ids`, in the order of `s`.
pub open spec fn without_ids(s: Seq<Token>, ids: Seq<TokenId>) -> Seq<Token>
    decreases s.len(),
{
    if s.len() == 0 {
        Seq::empty()
    } else if ids.contains(s[0].token_id) {
        without_ids(s.drop_first(), ids)
    } else {
        seq![s[0]] + without_ids(s.drop_first(), ids)
    }
}

/// The first `k` items of `s`, or all of `s` if it is shorter.
pub open spec fn first_n(s: Seq<TokenId>, k: nat) -> Seq<TokenId> {
    if k < s.len() {
        s.take(k as int)
    } else {
        s
    }
}

/// What `without_ids` keeps is taken from `s`, in order.
pub proof fn lemma_without_ids(s: Seq<Token>, ids: Seq<TokenId>)
    ensures
        without_ids(s, ids).len() <= s.len(),
        forall|k: int|
            0 <= k < without_ids(s, ids).len() ==> exists|j: int|
                0 <= j < s.len() && #[trigger] without_ids(s, ids)[k] == s[j],
        ids_increasing(s) ==> ids_increasing(without_ids(s, ids)),
        forall|k: int|
            0 <= k < without_ids(s, ids).len() ==> !ids.contains(
                #[trigger] without_ids(s, ids)[k].token_id,
            ),
    decreases s.len(),
{
    if s.len() > 0 {
        let rest = s.drop_first();
        let r = without_ids(rest, ids);
        lemma_without_ids(rest, ids);
        assert forall|k: int| 0 <= k < r.len() implies exists|j: int|
            0 <= j < s.len() && #[trigger] r[k] == s[j] by {
            let j = choose|j: int| 0 <= j < rest.len() && r[k] == rest[j];
            assert(r[k] == s[j + 1]);
        }
        if !ids.contains(s[0].token_id) {
            let w = without_ids(s, ids);
            assert(w == seq![s[0]] + r);
            assert forall|k: int| 0 <= k < w.len() implies exists|j: int|
                0 <= j < s.len() && #[trigger] w[k] == s[j] by {
                if k > 0 {
                    assert(w[k] == r[k - 1]);
                } else {
                    assert(w[k] == s[0]);
                }
            }
            if ids_increasing(s) {
                assert(ids_increasing(rest));
                assert forall|a: int, b: int| 0 <= a < b < w.len() implies #[trigger] w[a].token_id
                    < #[trigger] w[b].token_id by {
                    if a > 0 {
                        assert(w[a] == r[a - 1] && w[b] == r[b - 1]);
                    } else {
                        let j = choose|j: int| 0 <= j < rest.len() && r[b - 1] == rest[j];
                        assert(w[b] == s[j + 1]);
                    }
                }
            }
        }
    }
}

/// Whether `v` holds `x`.
fn contains_id(v: &Vec<TokenId>, x: TokenId) -> (r: bool)
    ensures
        r == v@.contains(x),
{
    let mut i: usize = 0;
    while i < v.len()
        invariant
            i <= v@.len(),
            forall|j: int| 0 <= j < i ==> v@[j] != x,
        decreases v@.len() - i,
    {
        if v[i] == x {
            return true;
        }
        i = i + 1;
    }
    false
}

impl Contract {
    /// The first `k` ids of `burn_order` for `account_id` over every level.
    fn select_for_burn(&self, account_id: &String, k: u128) -> (r: Vec<TokenId>)
        ensures
            r@ == first_n(
                burn_order(self.tokens@, account_id@, self.metadata.max_level as nat),
                k as nat,
            ),
    {
        let ghost s = self.tokens@;
        let ghost o = account_id@;
        let mut selected: Vec<TokenId> = Vec::new();
        let mut level: u16 = 1;
        while level <= self.metadata.max_level as u16
            invariant
                1 <= level <= self.metadata.max_level + 1,
                s == self.tokens@,
                o == account_id@,
                selected@ == first_n(burn_order(s, o, (level - 1) as nat), k as nat),
            decreases self.metadata.max_level + 1 - level,
        {
            let mut i: usize = 0;
            while i < self.tokens.len()
                invariant
                    1 <= level <= self.metadata.max_level,
                    i <= s.len(),
                    s == self.tokens@,
                    o == account_id@,
                    selected@ == first_n(
                        burn_order(s, o, (level - 1) as nat) + level_ids(
                            s.take(i as int),
                            o,
                            level as u8,
                        ),
                        k as nat,
                    ),
                decreases s.len() - i,
            {
                let ghost before = burn_order(s, o, (level - 1) as nat) + level_ids(
                    s.take(i as int),
                    o,
                    level as u8,
                );
                assert(s.take(i as int + 1).drop_last() =~= s.take(i as int));
                if self.tokens[i].owner_id == *account_id && self.tokens[i].level == level as u8 {
                    let ghost after = burn_order(s, o, (level - 1) as nat) + level_ids(
                        s.take(i as int + 1),
                        o,
                        level as u8,
                    );
                    assert(after =~= before.push(s[i as int].token_id));
                    if (selected.len() as u128) < k {
                        selected.push(self.tokens[i].token_id);
                        assert(selected@ =~= first_n(after, k as nat));
                    } else {
                        assert(first_n(after, k as nat) =~= first_n(before, k as nat));
                    }
                } else {
                    assert(level_ids(s.take(i as int + 1), o, level as u8) == level_ids(
                        s.take(i as int),
                        o,
                        level as u8,
                    ));
                }
                i = i + 1;
            }
            assert(s.take(i as int) =~= s);
            assert(burn_order(s, o, level as nat) == burn_order(s, o, (level - 1) as nat)
                + level_ids(s, o, level as u8));
            level = level + 1;
        }
        selected
    }
}

impl Contract {
    /// Burns tokens of `account_id` worth `less_amount` and credits their value
    /// to its balance: lowest level first, ascending id within a level, the
    /// fewest whose value covers `less_amount`, and none when `less_amount`
    /// is below one unit. Fails, changing nothing, when the
    /// account holds no token or its tokens are worth less than `less_amount`.
    /// Returns the burned ids.
    pub fn internal_wrap_nft_to_ft(&mut self, account_id: &String, less_amount: u128) -> (r: Result<
        Vec<TokenId>,
        ContractError,
    >)
        requires
            old(self).wf(),
        ensures
            final(self).wf(),
            r is Err <==> old(self).tokens_of_spec(account_id@).len() == 0 || old(
                self,
            ).tokens_of_spec(account_id@).len() * old(self).decimal_unit < less_amount,
            r is Err ==> r->Err_0 == ContractError::InsufficientBalance && *final(self) == *old(self),
            r is Ok ==> {
                let burned = first_n(
                    burn_order(old(self).tokens@, account_id@, old(self).metadata.max_level as nat),
                    burn_count(less_amount as nat, old(self).decimal_unit as nat),
                );
                &&& r->Ok_0@ == burned
                &&& final(self).tokens@ == without_ids(old(self).tokens@, burned)
                &&& final(self).same_config(old(self))
                &&& final(self).next_nft_id == old(self).next_nft_id
                &&& final(self).tokens@.len() == old(self).tokens@.len() - burned.len()
                &&& final(self).balance(account_id@) == old(self).balance(account_id@) + burned.len()
                    * old(self).decimal_unit
                &&& forall|a: Seq<char>|
                    a != account_id@ ==> #[trigger] final(self).balance(a) == old(self).balance(a)
                &&& forall|k: int|
                    0 <= k < final(self).tokens@.len() ==> !burned.contains(
                        #[trigger] final(self).tokens@[k].token_id,
                    )
            },
    {
        let owned = self.tokens_of(account_id);
        if owned.len() == 0 {
            return Err(ContractError::InsufficientBalance);
        }
        let unit = self.decimal_unit;
        proof {
            lemma_owned_len(self.tokens@, account_id@);
            lemma_sum_nonneg(self.accounts@);
            assert(owned@.len() * unit <= self.tokens@.len() * unit) by (nonlinear_arith)
                requires
                    owned@.len() <= self.tokens@.len(),
            ;
        }
        if (owned.len() as u128) * unit < less_amount {
            return Err(ContractError::InsufficientBalance);
        }
        proof {
            crate::config::lemma_pow10_grows(0, self.metadata.decimals as nat);
        }
        let count = if less_amount < unit {
            0
        } else if less_amount % unit == 0 {
            less_amount / unit
        } else {
            assert(less_amount / unit < u128::MAX) by (nonlinear_arith)
                requires
                    less_amount % unit != 0,
                    unit > 0,
                    less_amount <= u128::MAX,
            ;
            less_amount / unit + 1
        };
        proof {
            if less_amount >= unit {
                let q = less_amount / unit;
                let m = less_amount % unit;
                assert(less_amount == q * unit + m && 0 <= m < unit) by (nonlinear_arith)
                    requires
                        q == less_amount / unit,
                        m == less_amount % unit,
                        unit > 0,
                ;
                assert((less_amount + unit - 1) as nat / unit as nat == if m == 0 {
                    q as int
                } else {
                    q + 1
                }) by (nonlinear_arith)
                    requires
                        less_amount == q * unit + m,
                        0 <= m < unit,
                        unit > 0,
                ;
            }
        }
        let burned = self.select_for_burn(account_id, count);
        let ghost prev = *self;
        let ghost s = self.tokens@;
        let mut i: usize = self.tokens.len();
        while i > 0
            invariant
                i <= s.len(),
                prev.wf(),
                self.tokens@ == s.take(i as int) + without_ids(s.skip(i as int), burned@),
                self.same_config(&prev),
                self.next_nft_id == prev.next_nft_id,
                self.decimal_unit == unit,
                accounts_unique(self.accounts@),
                self.conserved(),
                self.balance(account_id@) == prev.balance(account_id@) + (s.len()
                    - self.tokens@.len()) * unit,
                forall|a: Seq<char>| a != account_id@ ==> #[trigger] self.balance(a) == prev.balance(a),
            decreases i,
        {
            let ghost rest = without_ids(s.skip(i as int), burned@);
            assert(s.skip(i as int - 1).drop_first() =~= s.skip(i as int));
            assert(s.skip(i as int - 1)[0] == s[i as int - 1]);
            let ghost cur = *self;
            if contains_id(&burned, self.tokens[i - 1].token_id) {
                proof {
                    lemma_balance_le_sum(self.accounts@, account_id@);
                    assert(self.tokens@.len() >= 1);
                    assert(self.balance(account_id@) + unit <= self.total_supply) by (nonlinear_arith)
                        requires
                            self.balance(account_id@) <= sum_balances(self.accounts@),
                            self.total_supply == sum_balances(self.accounts@)
                                + self.tokens@.len() * unit,
                            self.tokens@.len() >= 1,
                    ;
                }
                self.tokens.remove(i - 1);
                assert(self.tokens@ =~= s.take(i as int - 1) + rest);
                self.internal_deposit(account_id, unit);
                assert(self.conserved()) by (nonlinear_arith)
                    requires
                        cur.conserved(),
                        sum_balances(self.accounts@) == sum_balances(cur.accounts@) + unit,
                        self.tokens@.len() + 1 == cur.tokens@.len(),
                        self.total_supply == cur.total_supply,
                        self.decimal_unit == unit,
                        cur.decimal_unit == unit,
                ;
                assert(self.balance(account_id@) == prev.balance(account_id@) + (s.len()
                    - self.tokens@.len()) * unit) by (nonlinear_arith)
                    requires
                        cur.balance(account_id@) == prev.balance(account_id@) + (s.len()
                            - cur.tokens@.len()) * unit,
                        self.balance(account_id@) == cur.balance(account_id@) + unit,
                        self.tokens@.len() + 1 == cur.tokens@.len(),
                ;
                assert forall|a: Seq<char>| a != account_id@ implies #[trigger] self.balance(a)
                    == prev.balance(a) by {
                    assert(cur.balance(a) == prev.balance(a));
                }
            } else {
                assert(s.take(i as int) =~= s.take(i as int - 1).push(s[i as int - 1]));
                assert(self.tokens@ =~= s.take(i as int - 1) + (seq![s[i as int - 1]] + rest));
            }
            i = i - 1;
        }
        assert(s.skip(0) =~= s);
        assert(s.take(0) + without_ids(s, burned@) =~= without_ids(s, burned@));
        proof {
            lemma_burn_count(s, account_id@, prev.metadata.max_level as nat, count as nat);
            lemma_without_ids(s, burned@);
            let w = self.tokens@;
            assert forall|x: int| 0 <= x < w.len() implies #[trigger] w[x].token_id < self.next_nft_id
                && 1 <= w[x].level <= self.metadata.max_level by {
                let j = choose|j: int| 0 <= j < s.len() && w[x] == s[j];
                assert(s[j].token_id < prev.next_nft_id);
                assert(1 <= s[j].level);
            }
            assert(ids_increasing(s));
        }
        Ok(burned)
    }
}


/// How many tokens of `s` have an id in `ids`.
pub open spec fn count_in(s: Seq<Token>, ids: Seq<TokenId>) -> nat
    decreases s.len(),
{
    if s.len() == 0 {
        0
    } else {
        (if ids.contains(s[0].token_id) {
            1nat
        } else {
            0nat
        }) + count_in(s.drop_first(), ids)
    }
}

/// How many tokens of `s` have the id `id`.
pub open spec fn count_id(s: Seq<Token>, id: TokenId) -> nat
    decreases s.len(),
{
    if s.len() == 0 {
        0
    } else {
        (if s[0].token_id == id {
            1nat
        } else {
            0nat
        }) + count_id(s.drop_first(), id)
    }
}

pub proof fn lemma_without_len(s: Seq<Token>, ids: Seq<TokenId>)
    ensures
        without_ids(s, ids).len() + count_in(s, ids) == s.len(),
    decreases s.len(),
{
    if s.len() > 0 {
        lemma_without_len(s.drop_first(), ids);
    }
}

proof fn lemma_count_push(s: Seq<Token>, ids: Seq<TokenId>, id: TokenId)
    ensures
        count_in(s, ids.push(id)) == count_in(s, ids) + if ids.contains(id) {
            0
        } else {
            count_id(s, id)
        },
    decreases s.len(),
{
    if s.len() > 0 {
        lemma_count_push(s.drop_first(), ids, id);
        lemma_push_contains(ids, id, s[0].token_id);
    }
}

proof fn lemma_count_id_zero(s: Seq<Token>, id: TokenId)
    requires
        forall|j: int| 0 <= j < s.len() ==> #[trigger] s[j].token_id != id,
    ensures
        count_id(s, id) == 0,
    decreases s.len(),
{
    if s.len() > 0 {
        assert(s[0].token_id != id);
        assert forall|j: int| 0 <= j < s.drop_first().len() implies #[trigger] s.drop_first()[j].token_id
            != id by {
            assert(s.drop_first()[j] == s[j + 1]);
        }
        lemma_count_id_zero(s.drop_first(), id);
    }
}

proof fn lemma_count_id_one(s: Seq<Token>, id: TokenId, j: int)
    requires
        ids_increasing(s),
        0 <= j < s.len(),
        s[j].token_id == id,
    ensures
        count_id(s, id) == 1,
    decreases s.len(),
{
    let rest = s.drop_first();
    if j == 0 {
        assert forall|k: int| 0 <= k < rest.len() implies #[trigger] rest[k].token_id != id by {
            assert(rest[k] == s[k + 1]);
            assert(s[0].token_id < s[k + 1].token_id);
        }
        lemma_count_id_zero(rest, id);
    } else {
        assert(s[0].token_id < s[j].token_id);
        assert(rest[j - 1] == s[j]);
        assert(ids_increasing(rest)) by {
            assert forall|a: int, b: int| 0 <= a < b < rest.len() implies #[trigger] rest[a].token_id
                < #[trigger] rest[b].token_id by {
                assert(rest[a] == s[a + 1] && rest[b] == s[b + 1]);
            }
        }
        lemma_count_id_one(rest, id, j - 1);
    }
}

/// Distinct ids, each held by some token of `s`, match that many tokens.
proof fn lemma_count_all(s: Seq<Token>, ids: Seq<TokenId>)
    requires
        ids_increasing(s),
        ids.no_duplicates(),
        forall|k: int|
            0 <= k < ids.len() ==> exists|j: int| 0 <= j < s.len() && s[j].token_id == #[trigger] ids[k],
    ensures
        count_in(s, ids) == ids.len(),
    decreases ids.len(),
{
    if ids.len() == 0 {
        lemma_count_empty(s, ids);
    } else {
        let front = ids.drop_last();
        let id = ids.last();
        assert(ids =~= front.push(id));
        assert forall|k: int| 0 <= k < front.len() implies exists|j: int|
            0 <= j < s.len() && s[j].token_id == #[trigger] front[k] by {
            assert(front[k] == ids[k]);
        }
        assert(front.no_duplicates());
        lemma_count_all(s, front);
        assert(!front.contains(id)) by {
            if front.contains(id) {
                let k = choose|k: int| 0 <= k < front.len() && front[k] == id;
                assert(ids[k] == ids[ids.len() - 1]);
            }
        }
        lemma_count_push(s, front, id);
        assert(ids[ids.len() - 1] == id);
        let j = choose|j: int| 0 <= j < s.len() && s[j].token_id == ids[ids.len() - 1];
        lemma_count_id_one(s, id, j);
    }
}

proof fn lemma_count_empty(s: Seq<Token>, ids: Seq<TokenId>)
    requires
        ids.len() == 0,
    ensures
        count_in(s, ids) == 0,
    decreases s.len(),
{
    if s.len() > 0 {
        lemma_count_empty(s.drop_first(), ids);
    }
}

/// The ids at one level ascend, and each is a token of `owner` at `level`.
proof fn lemma_level_ids_shape(s: Seq<Token>, owner: Seq<char>, level: u8)
    requires
        ids_increasing(s),
    ensures
        forall|a: int, b: int|
            0 <= a < b < level_ids(s, owner, level).len() ==> #[trigger] level_ids(s, owner, level)[a]
                < #[trigger] level_ids(s, owner, level)[b],
        forall|k: int|
            0 <= k < level_ids(s, owner, level).len() ==> exists|j: int|
                0 <= j < s.len() && s[j].token_id == #[trigger] level_ids(s, owner, level)[k]
                    && s[j].owner_id@ == owner && s[j].level == level,
    decreases s.len(),
{
    if s.len() > 0 {
        let r = s.drop_last();
        assert(ids_increasing(r)) by {
            assert forall|a: int, b: int| 0 <= a < b < r.len() implies #[trigger] r[a].token_id
                < #[trigger] r[b].token_id by {
                assert(r[a] == s[a] && r[b] == s[b]);
            }
        }
        lemma_level_ids_shape(r, owner, level);
        let lr = level_ids(r, owner, level);
        let l = level_ids(s, owner, level);
        assert forall|k: int| 0 <= k < lr.len() implies exists|j: int|
            0 <= j < s.len() && s[j].token_id == #[trigger] lr[k] && s[j].owner_id@ == owner
                && s[j].level == level by {
            let j = choose|j: int|
                0 <= j < r.len() && r[j].token_id == lr[k] && r[j].owner_id@ == owner && r[j].level
                    == level;
            assert(s[j] == r[j]);
        }
        if s.last().owner_id@ == owner && s.last().level == level {
            assert(l == lr.push(s.last().token_id));
            assert forall|k: int| 0 <= k < lr.len() implies #[trigger] lr[k] < s.last().token_id by {
                let j = choose|j: int|
                    0 <= j < s.len() && s[j].token_id == lr[k] && s[j].owner_id@ == owner
                        && s[j].level == level;
                if j == s.len() - 1 {
                    let j2 = choose|j2: int|
                        0 <= j2 < r.len() && r[j2].token_id == lr[k] && r[j2].owner_id@ == owner
                            && r[j2].level == level;
                    assert(s[j2] == r[j2]);
                    assert(s[j2].token_id < s[s.len() - 1].token_id);
                } else {
                    assert(s[j].token_id < s[s.len() - 1].token_id);
                }
            }
            assert forall|a: int, b: int| 0 <= a < b < l.len() implies #[trigger] l[a] < #[trigger] l[b] by {
                if b == l.len() - 1 {
                    assert(l[a] == lr[a]);
                } else {
                    assert(l[a] == lr[a] && l[b] == lr[b]);
                }
            }
            assert forall|k: int| 0 <= k < l.len() implies exists|j: int|
                0 <= j < s.len() && s[j].token_id == #[trigger] l[k] && s[j].owner_id@ == owner
                    && s[j].level == level by {
                if k == l.len() - 1 {
                    assert(s[s.len() - 1].token_id == l[k]);
                } else {
                    assert(l[k] == lr[k]);
                }
            }
        }
    }
}

/// The burn order holds distinct ids, each a token of `owner` at a level in
/// `1..=top`.
proof fn lemma_burn_order_shape(s: Seq<Token>, owner: Seq<char>, top: nat)
    requires
        ids_increasing(s),
        top <= 255,
    ensures
        burn_order(s, owner, top).no_duplicates(),
        forall|k: int|
            0 <= k < burn_order(s, owner, top).len() ==> exists|j: int|
                0 <= j < s.len() && s[j].token_id == #[trigger] burn_order(s, owner, top)[k]
                    && s[j].owner_id@ == owner && 1 <= s[j].level <= top,
    decreases top,
{
    if top > 0 {
        let prev = burn_order(s, owner, (top - 1) as nat);
        let here = level_ids(s, owner, top as u8);
        let all = burn_order(s, owner, top);
        lemma_burn_order_shape(s, owner, (top - 1) as nat);
        lemma_level_ids_shape(s, owner, top as u8);
        assert(all == prev + here);
        assert forall|k: int| 0 <= k < all.len() implies exists|j: int|
            0 <= j < s.len() && s[j].token_id == #[trigger] all[k] && s[j].owner_id@ == owner && 1
                <= s[j].level <= top by {
            if k < prev.len() {
                assert(all[k] == prev[k]);
            } else {
                assert(all[k] == here[k - prev.len()]);
            }
        }
        assert forall|a: int, b: int| 0 <= a < all.len() && 0 <= b < all.len() && a != b implies all[a]
            != all[b] by {
            if a < prev.len() && b < prev.len() {
                assert(all[a] == prev[a] && all[b] == prev[b]);
            } else if a >= prev.len() && b >= prev.len() {
                assert(all[a] == here[a - prev.len()] && all[b] == here[b - prev.len()]);
                if a < b {
                    assert(here[a - prev.len()] < here[b - prev.len()]);
                } else {
                    assert(here[b - prev.len()] < here[a - prev.len()]);
                }
            } else {
                let (p, h) = if a < prev.len() {
                    (a, b)
                } else {
                    (b, a)
                };
                assert(all[p] == prev[p]);
                assert(all[h] == here[h - prev.len()]);
                let j1 = choose|j: int|
                    0 <= j < s.len() && s[j].token_id == prev[p] && s[j].owner_id@ == owner && 1
                        <= s[j].level <= top - 1;
                let j2 = choose|j: int|
                    0 <= j < s.len() && s[j].token_id == #[trigger] here[h - prev.len()]
                        && s[j].owner_id@ == owner && s[j].level == top as u8;
                if j1 < j2 {
                    assert(s[j1].token_id < s[j2].token_id);
                } else if j2 < j1 {
                    assert(s[j2].token_id < s[j1].token_id);
                }
            }
        }
    }
}

/// Burning the first `k` of the burn order removes exactly that many tokens.
pub proof fn lemma_burn_count(s: Seq<Token>, owner: Seq<char>, top: nat, k: nat)
    requires
        ids_increasing(s),
        top <= 255,
    ensures
        without_ids(s, first_n(burn_order(s, owner, top), k)).len() + first_n(
            burn_order(s, owner, top),
            k,
        ).len() == s.len(),
{
    let all = burn_order(s, owner, top);
    let b = first_n(all, k);
    lemma_burn_order_shape(s, owner, top);
    assert forall|x: int| 0 <= x < b.len() implies exists|j: int|
        0 <= j < s.len() && s[j].token_id == #[trigger] b[x] by {
        assert(b[x] == all[x]);
    }
    assert(b.no_duplicates()) by {
        assert forall|x: int, y: int| 0 <= x < b.len() && 0 <= y < b.len() && x != y implies b[x]
            != b[y] by {
            assert(b[x] == all[x] && b[y] == all[y]);
        }
    }
    lemma_count_all(s, b);
    lemma_without_len(s, b);
}

} // verus!
