//! Properties that hold of every well-formed ledger.

use vstd::prelude::*;
use crate::ledger::{
    lemma_level_contains, lemma_push_contains, owned_ids, sum_balances, Contract, Token, TokenId,
};

verus! {

/// Conservation: the supply is always the liquid balances plus one unit per
/// outstanding token. Every operation keeps the ledger well formed, so this
/// holds after any sequence of them.
pub proof fn lemma_conservation(c: Contract)
    requires
        c.wf(),
    ensures
        c.total_supply as int == sum_balances(c.accounts@) + c.tokens@.len() * c.decimal_unit,
{
}

proof fn lemma_owned_contains(s: Seq<Token>, owner: Seq<char>, id: TokenId)
    ensures
        owned_ids(s, owner).contains(id) <==> exists|i: int|
            0 <= i < s.len() && #[trigger] s[i].token_id == id && s[i].owner_id@ == owner,
    decreases s.len(),
{
    if s.len() > 0 {
        let r = s.drop_last();
        lemma_owned_contains(r, owner, id);
        if exists|i: int| 0 <= i < r.len() && #[trigger] r[i].token_id == id && r[i].owner_id@ == owner {
            let i = choose|i: int| 0 <= i < r.len() && #[trigger] r[i].token_id == id && r[i].owner_id@ == owner;
            assert(s[i] == r[i]);
        }
        if exists|i: int| 0 <= i < s.len() && #[trigger] s[i].token_id == id && s[i].owner_id@ == owner {
            let i = choose|i: int| 0 <= i < s.len() && #[trigger] s[i].token_id == id && s[i].owner_id@ == owner;
            if i < r.len() {
                assert(r[i] == s[i]);
            }
        }
        if s.last().owner_id@ == owner {
            assert(owned_ids(s, owner) == owned_ids(r, owner).push(s.last().token_id));
            lemma_push_contains(owned_ids(r, owner), s.last().token_id, id);
        }
        if s.last().token_id == id && s.last().owner_id@ == owner {
            assert(s[s.len() - 1].token_id == id);
        }
    }
}

/// Index consistency: an owner's tokens at a level are among its tokens;
/// its tokens are those at some level; and no token id is held by two
/// owners, or at two levels.
pub proof fn lemma_index_consistency(
    c: Contract,
    owner: Seq<char>,
    other: Seq<char>,
    level: u8,
    other_level: u8,
    id: TokenId,
)
    requires
        c.wf(),
    ensures
        c.tokens_of_level_spec(owner, level).contains(id) ==> c.tokens_of_spec(owner).contains(id),
        c.tokens_of_spec(owner).contains(id) <==> exists|l: u8|
            #[trigger] c.tokens_of_level_spec(owner, l).contains(id),
        owner != other ==> !(c.tokens_of_spec(owner).contains(id) && c.tokens_of_spec(
            other,
        ).contains(id)),
        level != other_level ==> !(c.tokens_of_level_spec(owner, level).contains(id)
            && c.tokens_of_level_spec(owner, other_level).contains(id)),
{
    let s = c.tokens@;
    lemma_owned_contains(s, owner, id);
    lemma_owned_contains(s, other, id);
    lemma_level_contains(s, owner, level, id);
    lemma_level_contains(s, owner, other_level, id);
    // ids are unique, so one index holds each id
    assert forall|i: int, j: int|
        0 <= i < s.len() && 0 <= j < s.len() && s[i].token_id == id && s[j].token_id == id implies i
        == j by {
        if i < j {
            assert(s[i].token_id < s[j].token_id);
        } else if j < i {
            assert(s[j].token_id < s[i].token_id);
        }
    }
    if c.tokens_of_spec(owner).contains(id) {
        let i = choose|i: int| 0 <= i < s.len() && #[trigger] s[i].token_id == id && s[i].owner_id@ == owner;
        lemma_level_contains(s, owner, s[i].level, id);
        assert(c.tokens_of_level_spec(owner, s[i].level).contains(id));
    }
    assert forall|l: u8| #[trigger] c.tokens_of_level_spec(owner, l).contains(id) implies c.tokens_of_spec(
        owner,
    ).contains(id) by {
        lemma_level_contains(s, owner, l, id);
    }
}

/// Token ids are never reused: every outstanding id is below the counter,
/// which the next mint hands out and then raises, and which nothing lowers.
pub proof fn lemma_ids_below_counter(c: Contract, i: int)
    requires
        c.wf(),
        0 <= i < c.tokens@.len(),
    ensures
        c.tokens@[i].token_id < c.next_nft_id,
        forall|j: int| i < j < c.tokens@.len() ==> c.tokens@[i].token_id < #[trigger] c.tokens@[j].token_id,
{
    assert forall|j: int| i < j < c.tokens@.len() implies c.tokens@[i].token_id < #[trigger] c.tokens@[j].token_id by {
        assert(c.tokens@[i].token_id < c.tokens@[j].token_id);
    }
}

/// Token ids strictly increase from mint to mint and are never reused: the
/// id a mint hands out is above every id outstanding before it, burned ones
/// included, since those were all below the counter, and the counter moves
/// past it.
pub proof fn lemma_minted_id_fresh(
    before: Contract,
    after: Contract,
    payer: Seq<char>,
    receiver: Seq<char>,
    level: u8,
    royalties: Seq<(String, u32)>,
)
    requires
        before.wf(),
        after.minted_from(&before, payer, receiver, level, royalties),
    ensures
        after.tokens@.last().token_id == before.next_nft_id,
        forall|i: int|
            0 <= i < before.tokens@.len() ==> #[trigger] before.tokens@[i].token_id
                < after.tokens@.last().token_id,
        after.tokens@.last().token_id < after.next_nft_id,
{
}

} // verus!
