//! The registry's global laws, proved from the invariant and from the
//! transition relations that the operations' contracts establish.

use vstd::prelude::*;

use crate::registry::Registry;

verus! {

/// An owner's enumeration row lists, without duplicates and without holes,
/// exactly the identifiers the ownership relation assigns to that owner, so
/// the row's size equals the number of assets the owner holds.
pub proof fn lemma_owned_row_matches_ownership(r: Registry, a: u64)
    requires
        r.wf(),
    ensures
        r.owned_seq(a).no_duplicates(),
        r.owned_seq(a).to_set() == r.owner_set(a),
        r.owner_set(a).finite(),
        r.count_of(a) == r.owner_set(a).len(),
{
    broadcast use vstd::seq_lib::seq_to_set_is_finite;

    let row = r.owned_seq(a);
    assert forall|i: int, j: int| 0 <= i < j < row.len() implies row[i] != row[j] by {
        assert(r.owned_index@[r.owned_cars@[(a, i as u64)]] == i as u64);
        assert(r.owned_index@[r.owned_cars@[(a, j as u64)]] == j as u64);
    }
    assert forall|x: u64| #[trigger] r.owner_set(a).contains(x) implies row.contains(x) by {
        assert(row[r.owned_index@[x] as int] == x);
    }
    assert forall|x: u64| #[trigger] row.contains(x) implies r.owner_set(a).contains(x) by {
        let i = choose|i: int| 0 <= i < row.len() && row[i] == x;
        assert(r.owners@[r.owned_cars@[(a, i as u64)]] == a);
    }
    assert(row.to_set() =~= r.owner_set(a));
    row.unique_seq_to_set();
}

/// The global enumeration lists, without duplicates and without holes,
/// exactly the existing identifiers, so the global counter equals the number
/// of assets that exist.
pub proof fn lemma_global_row_matches_ownership(r: Registry)
    requires
        r.wf(),
    ensures
        r.all_seq().no_duplicates(),
        r.all_seq().to_set() == r.owners@.dom(),
        r.all_count == r.owners@.dom().len(),
{
    let row = r.all_seq();
    assert forall|i: int, j: int| 0 <= i < j < row.len() implies row[i] != row[j] by {
        assert(r.all_index@[r.all_cars@[i as u64]] == i as u64);
        assert(r.all_index@[r.all_cars@[j as u64]] == j as u64);
    }
    assert forall|x: u64| #[trigger] r.owners@.dom().contains(x) implies row.contains(x) by {
        assert(row[r.all_index@[x] as int] == x);
    }
    assert forall|x: u64| #[trigger] row.contains(x) implies r.owners@.dom().contains(x) by {
        let i = choose|i: int| 0 <= i < row.len() && row[i] == x;
        assert(r.owners@.dom().contains(r.all_cars@[i as u64]));
    }
    assert(row.to_set() =~= r.owners@.dom());
    row.unique_seq_to_set();
}

/// No owner's row is larger than the global enumeration.
pub proof fn lemma_count_bounded(r: Registry, a: u64)
    requires
        r.wf(),
    ensures
        r.count_of(a) <= r.all_count,
{
    lemma_owned_row_matches_ownership(r, a);
    lemma_global_row_matches_ownership(r);
    vstd::set_lib::lemma_len_subset(r.owner_set(a), r.owners@.dom());
}

/// An account that does not own the existing asset `id` owns strictly fewer
/// assets than exist in total — so its row counter always has room for one
/// more, which is why a sale's internal transfer cannot overflow.
pub proof fn lemma_outsider_count_strict(r: Registry, a: u64, id: u64)
    requires
        r.wf(),
        r.owners@.dom().contains(id),
        r.owners@[id] != a,
    ensures
        r.count_of(a) < r.all_count,
{
    lemma_owned_row_matches_ownership(r, a);
    lemma_global_row_matches_ownership(r);
    vstd::set_lib::lemma_len_subset(r.owner_set(a), r.owners@.dom().remove(id));
    assert(r.owners@.dom().remove(id).len() == r.owners@.dom().len() - 1);
}

/// The per-owner row sizes of `r`, summed over a run of accounts.
pub open spec fn sum_of_counts(r: Registry, accounts: Seq<u64>) -> int
    decreases accounts.len(),
{
    if accounts.len() == 0 {
        0
    } else {
        r.count_of(accounts[0]) + sum_of_counts(r, accounts.drop_first())
    }
}

/// The identifiers whose owner is listed in `accounts`.
pub open spec fn owned_by_any(r: Registry, accounts: Seq<u64>) -> Set<u64> {
    Set::new(|id: u64| r.owners@.dom().contains(id) && accounts.contains(r.owners@[id]))
}

proof fn lemma_sum_counts_rec(r: Registry, accounts: Seq<u64>)
    requires
        r.wf(),
        accounts.no_duplicates(),
    ensures
        owned_by_any(r, accounts).finite(),
        sum_of_counts(r, accounts) == owned_by_any(r, accounts).len(),
    decreases accounts.len(),
{
    if accounts.len() == 0 {
        assert(owned_by_any(r, accounts) =~= Set::<u64>::empty());
    } else {
        let a0 = accounts[0];
        let rest = accounts.drop_first();
        assert forall|i: int, j: int| 0 <= i < j < rest.len() implies rest[i] != rest[j] by {
            assert(rest[i] == accounts[i + 1]);
            assert(rest[j] == accounts[j + 1]);
        }
        lemma_sum_counts_rec(r, rest);
        lemma_owned_row_matches_ownership(r, a0);
        assert forall|x: u64| #[trigger] accounts.contains(x) implies x == a0
            || rest.contains(x) by {
            let i = choose|i: int| 0 <= i < accounts.len() && accounts[i] == x;
            if i > 0 {
                assert(rest[i - 1] == x);
            }
        }
        assert forall|x: u64| rest.contains(x) implies #[trigger] accounts.contains(x) by {
            let i = choose|i: int| 0 <= i < rest.len() && rest[i] == x;
            assert(accounts[i + 1] == x);
        }
        assert(!rest.contains(a0)) by {
            if rest.contains(a0) {
                let i = choose|i: int| 0 <= i < rest.len() && rest[i] == a0;
                assert(accounts[i + 1] == a0);
            }
        }
        assert(r.owner_set(a0).disjoint(owned_by_any(r, rest)));
        assert(owned_by_any(r, accounts) =~= r.owner_set(a0) + owned_by_any(r, rest));
        vstd::set_lib::lemma_set_disjoint_lens(r.owner_set(a0), owned_by_any(r, rest));
    }
}

/// Dual-index consistency: at every well-formed state the global counter
/// equals the per-owner counters summed over any duplicate-free run of
/// accounts that covers every owner.
pub proof fn lemma_counts_sum_to_global(r: Registry, accounts: Seq<u64>)
    requires
        r.wf(),
        accounts.no_duplicates(),
        forall|id: u64| #[trigger] r.owners@.dom().contains(id) ==> accounts.contains(
            r.owners@[id],
        ),
    ensures
        sum_of_counts(r, accounts) == r.all_count,
{
    lemma_sum_counts_rec(r, accounts);
    assert(owned_by_any(r, accounts) =~= r.owners@.dom());
    lemma_global_row_matches_ownership(r);
}

/// Dual-index consistency, membership half: every existing identifier
/// appears in its owner's enumeration row and in no other account's row, and
/// each counter is the exact cardinality of what the ownership relation
/// assigns.
pub proof fn lemma_each_asset_in_exactly_one_row(r: Registry)
    requires
        r.wf(),
    ensures
        forall|a: u64, id: u64| #[trigger] r.owned_seq(a).contains(id) <==> (
        r.owners@.dom().contains(id) && r.owners@[id] == a),
        forall|a: u64| #[trigger] r.count_of(a) == r.owner_set(a).len(),
        r.all_count == r.owners@.dom().len(),
{
    assert forall|a: u64, id: u64| #[trigger] r.owned_seq(a).contains(id) <==> (
    r.owners@.dom().contains(id) && r.owners@[id] == a) by {
        lemma_owned_row_matches_ownership(r, a);
        assert(r.owned_seq(a).to_set().contains(id) == r.owned_seq(a).contains(id));
    }
    assert forall|a: u64| #[trigger] r.count_of(a) == r.owner_set(a).len() by {
        lemma_owned_row_matches_ownership(r, a);
    }
    lemma_global_row_matches_ownership(r);
}

/// Swap-and-pop preserves set membership: after a transfer away from `from`,
/// that row holds exactly the identifiers it held before minus the moved
/// one, without duplicates, dense on positions `0 .. count - 1`.
pub proof fn lemma_swap_pop_preserves_set(
    pre: Registry,
    post: Registry,
    from: u64,
    to: u64,
    id: u64,
)
    requires
        pre.wf(),
        post.wf(),
        from != to,
        pre.can_transfer(from, to, id),
        pre.transfer_post(post, from, to, id),
    ensures
        post.owned_seq(from).no_duplicates(),
        post.owned_seq(from).to_set() == pre.owned_seq(from).to_set().remove(id),
        post.owned_seq(from).len() == pre.owned_seq(from).len() - 1,
{
    lemma_owned_row_matches_ownership(pre, from);
    lemma_owned_row_matches_ownership(post, from);
    assert(post.owner_set(from) =~= pre.owner_set(from).remove(id));
}

/// A mint immediately followed by a transfer to a second account leaves the
/// asset owned by the recipient, absent from the minter's row, present in
/// the recipient's row, and the global counter larger by exactly the mint.
pub proof fn lemma_mint_then_transfer(
    r0: Registry,
    r1: Registry,
    r2: Registry,
    a: u64,
    b: u64,
    id: u64,
)
    requires
        r0.wf(),
        r1.wf(),
        r2.wf(),
        a != b,
        r0.can_mint(a, id),
        r0.mint_post(r1, a, id),
        r1.can_transfer(a, b, id),
        r1.transfer_post(r2, a, b, id),
    ensures
        r2.owners@.dom().contains(id) && r2.owners@[id] == b,
        !r2.owned_seq(a).contains(id),
        r2.owned_seq(b).contains(id),
        r2.all_count == r1.all_count,
        r2.all_count == r0.all_count + 1,
{
    lemma_owned_row_matches_ownership(r2, a);
    assert(r2.owned_seq(a).to_set().contains(id) == r2.owned_seq(a).contains(id));
    assert(!r2.owner_set(a).contains(id));
    let row_b = r2.owned_seq(b);
    assert(row_b == r1.owned_seq(b).push(id));
    assert(row_b[row_b.len() - 1] == id);
    assert(row_b.contains(id));
}

/// Two consecutive mints by one account are forced apart by the occupancy
/// check: the second identifier cannot equal the first, both end up in the
/// account's row, and the nonce has advanced twice.
pub proof fn lemma_two_mints_distinct(
    r0: Registry,
    r1: Registry,
    r2: Registry,
    a: u64,
    id1: u64,
    id2: u64,
)
    requires
        r0.wf(),
        r1.wf(),
        r2.wf(),
        r0.can_mint(a, id1),
        r0.mint_post(r1, a, id1),
        r1.can_mint(a, id2),
        r1.mint_post(r2, a, id2),
    ensures
        id1 != id2,
        r2.owned_seq(a).contains(id1),
        r2.owned_seq(a).contains(id2),
        r2.nonce == r0.nonce + 2,
{
    assert(r1.owners@.dom().contains(id1));
    let row = r2.owned_seq(a);
    assert(row == r1.owned_seq(a).push(id2));
    assert(r1.owned_seq(a) == r0.owned_seq(a).push(id1));
    assert(row[row.len() - 1] == id2);
    assert(row[row.len() - 2] == id1);
    assert(row.contains(id1));
    assert(row.contains(id2));
}

/// A committed sale leaves the asset with the buyer, off sale at price zero,
/// with its accrued fee untouched: it has left the seller's row and entered
/// the buyer's.
pub proof fn lemma_buy_outcome(pre: Registry, post: Registry, buyer: u64, id: u64)
    requires
        pre.wf(),
        post.wf(),
        pre.can_buy(buyer, id),
        pre.buy_post(post, buyer, id),
    ensures
        post.owners@.dom().contains(id) && post.owners@[id] == buyer,
        post.cars@[id].price == 0,
        post.cars@[id].stored_fee == pre.cars@[id].stored_fee,
        !post.owned_seq(pre.owners@[id]).contains(id),
        post.owned_seq(buyer).contains(id),
        post.all_count == pre.all_count,
{
    let seller = pre.owners@[id];
    lemma_owned_row_matches_ownership(post, seller);
    assert(post.owned_seq(seller).to_set().contains(id) == post.owned_seq(seller).contains(id));
    assert(!post.owner_set(seller).contains(id));
    let row_b = post.owned_seq(buyer);
    assert(row_b == pre.owned_seq(buyer).push(id));
    assert(row_b[row_b.len() - 1] == id);
    assert(row_b.contains(id));
}

/// Fee accruals accumulate: two successive payments of `x` then `y` leave
/// the stored fee exactly `x + y` above where it began.
pub proof fn lemma_fee_accumulates(
    r0: Registry,
    r1: Registry,
    r2: Registry,
    id: u64,
    x: u64,
    y: u64,
)
    requires
        r0.can_accrue_fee(id, x),
        r0.accrue_fee_post(r1, id, x),
        r1.can_accrue_fee(id, y),
        r1.accrue_fee_post(r2, id, y),
    ensures
        r2.cars@[id].stored_fee == r0.cars@[id].stored_fee + x + y,
{
    assert(r1.cars@[id].stored_fee == r0.cars@[id].stored_fee + x);
    assert(r2.cars@[id].stored_fee == r1.cars@[id].stored_fee + y);
}

} // verus!
