//! The registry engine: an indexed asset-ownership registry.
//!
//! Each asset (a car) carries a price and an accrued fee, is owned by exactly
//! one account, and is enumerable twice over: once in a global dense array and
//! once in its owner's dense array, each with a reverse index from identifier
//! to position so removal is O(1) by swap-and-pop.
//!
//! Identities and identifiers are plain `u64` values.  An identifier stands
//! for the opaque fixed-size hash that the host derives from its randomness
//! seed, the caller and the current nonce; the registry takes the derived
//! value, checks occupancy and fails rather than overwrite on a collision.
//! Authentication, currency movement and event delivery belong to external
//! collaborators: operations take the already-authenticated caller, a sale is
//! split into a read-only preparation and a commit so the host can move the
//! price between the two accounts in between, and each successful operation
//! returns the event that the host forwards to its notification sink.

use vstd::prelude::*;

use crate::table::PairTable;
use crate::table::Table;

verus! {

/// An asset: its identifier, its sale price (zero means "not for sale") and
/// the fee balance accrued by payments against it.
#[derive(Clone, Copy, PartialEq, Eq, Structural, Debug)]
pub struct Car {
    pub id: u64,
    pub price: u64,
    pub stored_fee: u64,
}

/// The notification that a successful operation hands to the host's sink.
#[derive(Clone, Copy, PartialEq, Eq, Structural, Debug)]
pub enum Event {
    /// `Created(owner, id)`: a fresh asset was minted.
    Created(u64, u64),
    /// `PriceSet(owner, id, new_price)`: the owner re-priced the asset.
    PriceSet(u64, u64, u64),
    /// `Transferred(from, to, id)`: ownership moved between accounts.
    Transferred(u64, u64, u64),
    /// `Bought(buyer, seller, id, price)`: a sale was committed.
    Bought(u64, u64, u64, u64),
    /// `FeePaid(id, amount)`: a fee payment was accrued on the asset.
    FeePaid(u64, u64),
}

/// Why an operation was rejected.  A rejected operation writes nothing.
#[derive(Clone, Copy, PartialEq, Eq, Structural, Debug)]
pub enum Error {
    /// The referenced asset does not exist.
    NotFound,
    /// The caller does not own the asset.
    NotOwner,
    /// A minted identifier is already taken.
    AlreadyExists,
    /// A counter or balance would exceed its representable range.
    Overflow,
    /// A counter would drop below zero.
    Underflow,
    /// The asset's price is zero, so it is not for sale.
    NotForSale,
    /// The buyer already owns the asset.
    SelfTrade,
    /// A collaborator failed; the host passes this through unchanged.
    ExternalFailure,
}

/// What the host owes before a prepared sale may be committed: move `price`
/// from the buyer to `seller` through the external currency collaborator.
#[derive(Clone, Copy, PartialEq, Eq, Structural, Debug)]
pub struct Payment {
    pub seller: u64,
    pub price: u64,
}

/// The registry state: the persisted tables of the asset store, the ownership
/// relation, both enumeration indices and the mint nonce.
pub struct Registry {
    /// Asset record by identifier.
    pub cars: Table<Car>,
    /// Owning account by identifier; an identifier absent here does not exist.
    pub owners: Table<u64>,
    /// Global enumeration array: position `0 .. all_count` to identifier.
    pub all_cars: Table<u64>,
    /// Number of assets ever minted; the global array is append-only.
    pub all_count: u64,
    /// Reverse of `all_cars`: identifier to its global position.
    pub all_index: Table<u64>,
    /// Per-owner enumeration arrays: `(account, position)` to identifier.
    pub owned_cars: PairTable,
    /// Size of each account's enumeration row.
    pub owned_count: Table<u64>,
    /// Reverse of `owned_cars`: identifier to its position in its owner's row.
    pub owned_index: Table<u64>,
    /// Monotonic counter the host mixes into identifier derivation; advanced
    /// by exactly one on every successful mint.
    pub nonce: u64,
}

impl Registry {
    /// Size of `a`'s enumeration row; accounts without a stored row own nothing.
    pub open spec fn count_of(self, a: u64) -> u64 {
        if self.owned_count@.dom().contains(a) {
            self.owned_count@[a]
        } else {
            0
        }
    }

    /// `a`'s enumeration row, read as a sequence of identifiers.
    pub open spec fn owned_seq(self, a: u64) -> Seq<u64> {
        Seq::new(self.count_of(a) as nat, |i: int| self.owned_cars@[(a, i as u64)])
    }

    /// The global enumeration, read as a sequence of identifiers.
    pub open spec fn all_seq(self) -> Seq<u64> {
        Seq::new(self.all_count as nat, |i: int| self.all_cars@[i as u64])
    }

    /// The identifiers the ownership relation assigns to `a`.
    pub open spec fn owner_set(self, a: u64) -> Set<u64> {
        Set::new(|id: u64| self.owners@.dom().contains(id) && self.owners@[id] == a)
    }

    /// Every backing table keeps its keys unique.
    pub open spec fn tables_wf(self) -> bool {
        &&& self.cars.wf()
        &&& self.owners.wf()
        &&& self.all_cars.wf()
        &&& self.all_index.wf()
        &&& self.owned_cars.wf()
        &&& self.owned_count.wf()
        &&& self.owned_index.wf()
    }

    /// The registry invariant: the asset store, the ownership relation and
    /// both dense enumerations agree with each other.
    ///
    /// - an asset record, a global reverse entry and an owner-row reverse
    ///   entry exist exactly for the owned identifiers;
    /// - the global array is dense on `0 .. all_count` and inverse to its
    ///   reverse index;
    /// - each owner's array is dense on `0 .. count_of(owner)`, holds only
    ///   that owner's assets, and is inverse to its reverse index;
    /// - each asset record stores its own identifier.
    pub open spec fn wf(self) -> bool {
        &&& self.tables_wf()
        &&& self.owners@.dom().finite()
        &&& self.cars@.dom() == self.owners@.dom()
        &&& self.all_index@.dom() == self.owners@.dom()
        &&& self.owned_index@.dom() == self.owners@.dom()
        &&& forall|p: u64|
            #![trigger self.all_cars@.dom().contains(p)]
            #![trigger self.all_cars@[p]]
            self.all_cars@.dom().contains(p) <==> p < self.all_count
        &&& forall|p: u64|
            p < self.all_count ==> self.owners@.dom().contains(#[trigger] self.all_cars@[p])
                && self.all_index@[self.all_cars@[p]] == p
        &&& forall|id: u64| #[trigger]
            self.owners@.dom().contains(id) ==> self.all_index@[id] < self.all_count
                && self.all_cars@[self.all_index@[id]] == id
        &&& forall|a: u64, p: u64|
            #![trigger self.owned_cars@.dom().contains((a, p))]
            #![trigger self.owned_cars@[(a, p)]]
            self.owned_cars@.dom().contains((a, p)) <==> p < self.count_of(a)
        &&& forall|a: u64, p: u64|
            p < self.count_of(a) ==> self.owners@.dom().contains(
                #[trigger] self.owned_cars@[(a, p)],
            ) && self.owners@[self.owned_cars@[(a, p)]] == a
                && self.owned_index@[self.owned_cars@[(a, p)]] == p
        &&& forall|id: u64| #[trigger]
            self.owners@.dom().contains(id) ==> self.owned_index@[id] < self.count_of(
                self.owners@[id],
            ) && self.owned_cars@[(self.owners@[id], self.owned_index@[id])] == id
        &&& forall|id: u64| #[trigger]
            self.cars@.dom().contains(id) ==> self.cars@[id].id == id
    }

    /// An empty registry: no assets, no owners, nonce at zero.
    pub fn new() -> (r: Registry)
        ensures
            r.wf(),
            r.cars@ == Map::<u64, Car>::empty(),
            r.owners@ == Map::<u64, u64>::empty(),
            r.all_count == 0,
            r.nonce == 0,
            forall|a: u64| #[trigger] r.count_of(a) == 0,
    {
        let r = Registry {
            cars: Table::new(),
            owners: Table::new(),
            all_cars: Table::new(),
            all_count: 0,
            all_index: Table::new(),
            owned_cars: PairTable::new(),
            owned_count: Table::new(),
            owned_index: Table::new(),
            nonce: 0,
        };
        r
    }

    /// The asset record stored under `id`, if the asset exists.
    pub fn car(&self, id: u64) -> (r: Option<Car>)
        requires
            self.wf(),
        ensures
            r == if self.cars@.dom().contains(id) {
                Some(self.cars@[id])
            } else {
                None::<Car>
            },
    {
        self.cars.get(id)
    }

    /// The account owning `id`, if the asset exists.
    pub fn owner_of(&self, id: u64) -> (r: Option<u64>)
        requires
            self.wf(),
        ensures
            r == if self.owners@.dom().contains(id) {
                Some(self.owners@[id])
            } else {
                None::<u64>
            },
    {
        self.owners.get(id)
    }

    /// The identifier at global position `pos`.
    pub fn car_by_index(&self, pos: u64) -> (r: Option<u64>)
        requires
            self.wf(),
        ensures
            r == if pos < self.all_count {
                Some(self.all_seq()[pos as int])
            } else {
                None::<u64>
            },
    {
        self.all_cars.get(pos)
    }

    /// How many assets exist in the global enumeration.
    pub fn all_cars_count(&self) -> (r: u64)
        ensures
            r == self.all_count,
    {
        self.all_count
    }

    /// The identifier at position `pos` of `owner`'s enumeration row.
    pub fn car_of_owner_by_index(&self, owner: u64, pos: u64) -> (r: Option<u64>)
        requires
            self.wf(),
        ensures
            r == if pos < self.count_of(owner) {
                Some(self.owned_seq(owner)[pos as int])
            } else {
                None::<u64>
            },
    {
        self.owned_cars.get(owner, pos)
    }

    /// How many assets `owner` currently owns.
    pub fn owned_car_count(&self, owner: u64) -> (r: u64)
        requires
            self.wf(),
        ensures
            r == self.count_of(owner),
    {
        match self.owned_count.get(owner) {
            Some(c) => c,
            None => 0,
        }
    }

    /// A mint of `id` for `caller` is accepted: the identifier is free and no
    /// counter is at its bound.
    pub open spec fn can_mint(self, caller: u64, id: u64) -> bool {
        &&& !self.owners@.dom().contains(id)
        &&& self.count_of(caller) < u64::MAX
        &&& self.all_count < u64::MAX
        &&& self.nonce < u64::MAX
    }

    /// The error a rejected mint reports: an occupied identifier first, a
    /// counter at its bound otherwise.
    pub open spec fn mint_denied(self, caller: u64, id: u64) -> Error {
        if self.owners@.dom().contains(id) {
            Error::AlreadyExists
        } else {
            Error::Overflow
        }
    }

    /// Exactly what a successful mint writes: a fresh zero-priced, zero-fee
    /// asset owned by `caller`, appended to the global enumeration and to
    /// `caller`'s row, with the nonce advanced by one and nothing else moved.
    pub open spec fn mint_post(self, post: Registry, caller: u64, id: u64) -> bool {
        &&& post.cars@ == self.cars@.insert(id, Car { id, price: 0, stored_fee: 0 })
        &&& post.owners@ == self.owners@.insert(id, caller)
        &&& post.all_count == self.all_count + 1
        &&& post.all_seq() == self.all_seq().push(id)
        &&& post.count_of(caller) == self.count_of(caller) + 1
        &&& forall|b: u64| b != caller ==> #[trigger] post.count_of(b) == self.count_of(b)
        &&& post.owned_seq(caller) == self.owned_seq(caller).push(id)
        &&& forall|b: u64| b != caller ==> #[trigger] post.owned_seq(b) == self.owned_seq(b)
        &&& post.nonce == self.nonce + 1
    }

    /// Mint the asset `id` for `caller`.  The identifier is the hash the host
    /// derived from its randomness seed, `caller` and `current_nonce`; if it
    /// is already occupied the mint fails rather than overwrite.  All writes
    /// land together or not at all.
    pub fn mint(&mut self, caller: u64, id: u64) -> (r: Result<Event, Error>)
        requires
            old(self).wf(),
        ensures
            final(self).wf(),
            match r {
                Ok(ev) => old(self).can_mint(caller, id) && old(self).mint_post(
                    *final(self),
                    caller,
                    id,
                ) && ev == Event::Created(caller, id),
                Err(e) => *final(self) == *old(self) && !old(self).can_mint(caller, id) && e
                    == old(self).mint_denied(caller, id),
            },
    {
        if self.owners.contains(id) {
            return Err(Error::AlreadyExists);
        }
        let owned = self.owned_car_count(caller);
        if owned == u64::MAX {
            return Err(Error::Overflow);
        }
        if self.all_count == u64::MAX {
            return Err(Error::Overflow);
        }
        if self.nonce == u64::MAX {
            return Err(Error::Overflow);
        }
        let pos = self.all_count;
        self.cars.insert(id, Car { id, price: 0, stored_fee: 0 });
        self.owners.insert(id, caller);
        self.all_cars.insert(pos, id);
        self.all_count = pos + 1;
        self.all_index.insert(id, pos);
        self.owned_cars.insert(caller, owned, id);
        self.owned_count.insert(caller, owned + 1);
        self.owned_index.insert(id, owned);
        self.nonce = self.nonce + 1;
        proof {
            let pre = *old(self);
            let post = *self;
            assert(post.cars@.dom() =~= post.owners@.dom());
            assert(post.all_index@.dom() =~= post.owners@.dom());
            assert(post.owned_index@.dom() =~= post.owners@.dom());
            assert forall|b: u64| b != caller implies #[trigger] post.count_of(b)
                == pre.count_of(b) by {}
            assert(post.count_of(caller) == pre.count_of(caller) + 1);
            assert forall|p: u64|
                post.all_cars@.dom().contains(p) <==> p < post.all_count by {}
            assert forall|p: u64| p < post.all_count implies post.owners@.dom().contains(
                #[trigger] post.all_cars@[p],
            ) && post.all_index@[post.all_cars@[p]] == p by {
                if p < pre.all_count {
                    assert(post.all_cars@[p] == pre.all_cars@[p]);
                    assert(pre.all_cars@[p] != id);
                }
            }
            assert forall|id2: u64| #[trigger] post.owners@.dom().contains(id2) implies
                post.all_index@[id2] < post.all_count && post.all_cars@[post.all_index@[id2]]
                == id2 by {
                if id2 != id {
                    assert(pre.owners@.dom().contains(id2));
                    assert(pre.all_index@[id2] < pre.all_count);
                }
            }
            assert forall|a: u64, p: u64|
                post.owned_cars@.dom().contains((a, p)) <==> p < post.count_of(a) by {
                if a != caller {
                    assert(post.count_of(a) == pre.count_of(a));
                }
            }
            assert forall|a: u64, p: u64| p < post.count_of(a) implies post.owners@.dom()
                .contains(#[trigger] post.owned_cars@[(a, p)]) && post.owners@[post.owned_cars@[(
                a,
                p,
            )]] == a && post.owned_index@[post.owned_cars@[(a, p)]] == p by {
                if a == caller && p == owned {
                    assert(post.owned_cars@[(a, p)] == id);
                } else {
                    assert(p < pre.count_of(a));
                    let e = pre.owned_cars@[(a, p)];
                    assert(pre.owners@.dom().contains(e));
                    assert(e != id);
                    assert(post.owned_cars@[(a, p)] == e);
                }
            }
            assert forall|id2: u64| #[trigger] post.owners@.dom().contains(id2) implies
                post.owned_index@[id2] < post.count_of(post.owners@[id2])
                && post.owned_cars@[(post.owners@[id2], post.owned_index@[id2])] == id2 by {
                if id2 == id {
                    assert(post.owned_cars@[(caller, owned)] == id);
                } else {
                    assert(pre.owners@.dom().contains(id2));
                    let a2 = pre.owners@[id2];
                    let p2 = pre.owned_index@[id2];
                    assert(p2 < pre.count_of(a2));
                    assert(pre.owned_cars@[(a2, p2)] == id2);
                    if a2 == caller {
                        assert(p2 < owned);
                    }
                    assert((a2, p2) != (caller, owned));
                    assert(post.owned_cars@[(a2, p2)] == id2);
                }
            }
            assert forall|id2: u64| #[trigger] post.cars@.dom().contains(id2) implies
                post.cars@[id2].id == id2 by {}
            assert(post.all_seq() =~= pre.all_seq().push(id));
            assert(post.owned_seq(caller) =~= pre.owned_seq(caller).push(id));
            assert forall|b: u64| b != caller implies #[trigger] post.owned_seq(b)
                == pre.owned_seq(b) by {
                assert(post.owned_seq(b) =~= pre.owned_seq(b));
            }
        }
        Ok(Event::Created(caller, id))
    }

    /// A re-pricing of `id` by `caller` is accepted: the asset exists and the
    /// caller owns it.
    pub open spec fn can_set_price(self, caller: u64, id: u64) -> bool {
        &&& self.owners@.dom().contains(id)
        &&& self.owners@[id] == caller
    }

    /// The error a rejected re-pricing reports: a missing asset first, a
    /// caller who is not the owner otherwise.
    pub open spec fn set_price_denied(self, caller: u64, id: u64) -> Error {
        if !self.owners@.dom().contains(id) {
            Error::NotFound
        } else {
            Error::NotOwner
        }
    }

    /// Exactly what a successful re-pricing writes: the one asset record with
    /// its price replaced, and nothing else.
    pub open spec fn set_price_post(self, post: Registry, id: u64, new_price: u64) -> bool {
        &&& post.cars@ == self.cars@.insert(
            id,
            Car { id, price: new_price, stored_fee: self.cars@[id].stored_fee },
        )
        &&& post.owners@ == self.owners@
        &&& post.all_count == self.all_count
        &&& post.all_seq() == self.all_seq()
        &&& post.nonce == self.nonce
        &&& forall|b: u64| #[trigger] post.count_of(b) == self.count_of(b)
        &&& forall|b: u64| #[trigger] post.owned_seq(b) == self.owned_seq(b)
    }

    /// Set the sale price of `id`.  Zero takes the asset off sale.  Only the
    /// current owner may re-price.
    pub fn set_price(&mut self, caller: u64, id: u64, new_price: u64) -> (r: Result<
        Event,
        Error,
    >)
        requires
            old(self).wf(),
        ensures
            final(self).wf(),
            match r {
                Ok(ev) => old(self).can_set_price(caller, id) && old(self).set_price_post(
                    *final(self),
                    id,
                    new_price,
                ) && ev == Event::PriceSet(caller, id, new_price),
                Err(e) => *final(self) == *old(self) && !old(self).can_set_price(caller, id)
                    && e == old(self).set_price_denied(caller, id),
            },
    {
        if !self.cars.contains(id) {
            return Err(Error::NotFound);
        }
        let owner = match self.owners.get(id) {
            Some(o) => o,
            None => {
                return Err(Error::NotFound);
            },
        };
        if owner != caller {
            return Err(Error::NotOwner);
        }
        let car = match self.cars.get(id) {
            Some(c) => c,
            None => {
                return Err(Error::NotFound);
            },
        };
        self.cars.insert(id, Car { id, price: new_price, stored_fee: car.stored_fee });
        proof {
            assert(self.cars@.dom() =~= old(self).owners@.dom());
            assert forall|b: u64| #[trigger] self.owned_seq(b)
                == old(self).owned_seq(b) by {
                assert(self.owned_seq(b) =~= old(self).owned_seq(b));
            }
            assert(self.all_seq() =~= old(self).all_seq());
        }
        Ok(Event::PriceSet(caller, id, new_price))
    }

    /// A fee accrual on `id` is accepted: the asset exists and its stored fee
    /// has room for `amount`.
    pub open spec fn can_accrue_fee(self, id: u64, amount: u64) -> bool {
        &&& self.cars@.dom().contains(id)
        &&& self.cars@[id].stored_fee + amount <= u64::MAX
    }

    /// The error a rejected fee accrual reports: a missing asset first, a
    /// full fee balance otherwise.
    pub open spec fn accrue_fee_denied(self, id: u64, amount: u64) -> Error {
        if !self.cars@.dom().contains(id) {
            Error::NotFound
        } else {
            Error::Overflow
        }
    }

    /// Exactly what a successful fee accrual writes: the one asset record
    /// with `amount` added to its stored fee, and nothing else.
    pub open spec fn accrue_fee_post(self, post: Registry, id: u64, amount: u64) -> bool {
        &&& post.cars@ == self.cars@.insert(
            id,
            Car {
                id,
                price: self.cars@[id].price,
                stored_fee: (self.cars@[id].stored_fee + amount) as u64,
            },
        )
        &&& post.owners@ == self.owners@
        &&& post.all_count == self.all_count
        &&& post.all_seq() == self.all_seq()
        &&& post.nonce == self.nonce
        &&& forall|b: u64| #[trigger] post.count_of(b) == self.count_of(b)
        &&& forall|b: u64| #[trigger] post.owned_seq(b) == self.owned_seq(b)
    }

    /// Accrue a fee payment of `amount` against `id`.  The addition is
    /// checked: a sum beyond the balance range rejects the whole operation
    /// and leaves the stored fee at its prior value.
    pub fn accrue_fee(&mut self, id: u64, amount: u64) -> (r: Result<Event, Error>)
        requires
            old(self).wf(),
        ensures
            final(self).wf(),
            match r {
                Ok(ev) => old(self).can_accrue_fee(id, amount) && old(self).accrue_fee_post(
                    *final(self),
                    id,
                    amount,
                ) && ev == Event::FeePaid(id, amount),
                Err(e) => *final(self) == *old(self) && !old(self).can_accrue_fee(id, amount)
                    && e == old(self).accrue_fee_denied(id, amount),
            },
    {
        let car = match self.cars.get(id) {
            Some(c) => c,
            None => {
                return Err(Error::NotFound);
            },
        };
        if amount > u64::MAX - car.stored_fee {
            return Err(Error::Overflow);
        }
        self.cars.insert(id, Car { id, price: car.price, stored_fee: car.stored_fee + amount });
        proof {
            assert(self.cars@.dom() =~= old(self).owners@.dom());
            assert forall|b: u64| #[trigger] self.owned_seq(b)
                == old(self).owned_seq(b) by {
                assert(self.owned_seq(b) =~= old(self).owned_seq(b));
            }
            assert(self.all_seq() =~= old(self).all_seq());
        }
        Ok(Event::FeePaid(id, amount))
    }

    /// A transfer of `id` from `from` to `to` is accepted: the asset exists,
    /// `from` owns it, and `to`'s row counter has room.  (The matching
    /// underflow check on `from`'s counter can never fire: an owner's row is
    /// never empty while it owns the asset.)
    pub open spec fn can_transfer(self, from: u64, to: u64, id: u64) -> bool {
        &&& self.owners@.dom().contains(id)
        &&& self.owners@[id] == from
        &&& self.count_of(to) < u64::MAX
    }

    /// The error a rejected transfer reports: a missing asset first, a wrong
    /// owner next, a full destination counter last.
    pub open spec fn transfer_denied(self, from: u64, to: u64, id: u64) -> Error {
        if !self.owners@.dom().contains(id) {
            Error::NotFound
        } else if self.owners@[id] != from {
            Error::NotOwner
        } else {
            Error::Overflow
        }
    }

    /// `from`'s row after swap-and-pop removal of `id`: the last identifier
    /// moves into `id`'s slot (a no-op when `id` already sits last) and the
    /// row shrinks by one, staying dense.
    pub open spec fn row_after_removal(self, from: u64, id: u64) -> Seq<u64> {
        let row = self.owned_seq(from);
        row.update(self.owned_index@[id] as int, row.last()).drop_last()
    }

    /// Exactly what a successful transfer writes: ownership of `id` moves to
    /// `to`, `id` leaves `from`'s row by swap-and-pop and is appended to
    /// `to`'s row; asset records, the global enumeration and the nonce do not
    /// move.  A transfer to oneself re-appends `id` at the end of the same
    /// row and leaves its size unchanged.
    pub open spec fn transfer_post(self, post: Registry, from: u64, to: u64, id: u64) -> bool {
        &&& post.owners@ == self.owners@.insert(id, to)
        &&& post.cars@ == self.cars@
        &&& post.all_count == self.all_count
        &&& post.all_seq() == self.all_seq()
        &&& post.nonce == self.nonce
        &&& if from == to {
            &&& post.count_of(from) == self.count_of(from)
            &&& post.owned_seq(from) == self.row_after_removal(from, id).push(id)
        } else {
            &&& post.count_of(from) == self.count_of(from) - 1
            &&& post.count_of(to) == self.count_of(to) + 1
            &&& post.owned_seq(from) == self.row_after_removal(from, id)
            &&& post.owned_seq(to) == self.owned_seq(to).push(id)
        }
        &&& forall|b: u64| b != from && b != to ==> #[trigger] post.count_of(b)
            == self.count_of(b)
        &&& forall|b: u64| b != from && b != to ==> #[trigger] post.owned_seq(b)
            == self.owned_seq(b)
    }

    /// Move `id` from `from`'s enumeration to `to`'s and re-point the
    /// ownership relation, as one unit: the removal keeps `from`'s row dense
    /// by swap-and-pop, the insertion appends to `to`'s row.
    fn transfer_from(&mut self, from: u64, to: u64, id: u64) -> (r: Result<Event, Error>)
        requires
            old(self).wf(),
        ensures
            final(self).wf(),
            match r {
                Ok(ev) => old(self).can_transfer(from, to, id) && old(self).transfer_post(
                    *final(self),
                    from,
                    to,
                    id,
                ) && ev == Event::Transferred(from, to, id),
                Err(e) => *final(self) == *old(self) && !old(self).can_transfer(from, to, id)
                    && e == old(self).transfer_denied(from, to, id),
            },
    {
        let owner = match self.owners.get(id) {
            Some(o) => o,
            None => {
                return Err(Error::NotFound);
            },
        };
        if owner != from {
            return Err(Error::NotOwner);
        }
        let count_to = self.owned_car_count(to);
        if count_to == u64::MAX {
            return Err(Error::Overflow);
        }
        let count_from = self.owned_car_count(from);
        if count_from == 0 {
            // Unreachable: `from` owns `id`, so its row is not empty.
            return Err(Error::Underflow);
        }
        let new_count_from = count_from - 1;
        let pos = match self.owned_index.get(id) {
            Some(p) => p,
            None => {
                return Err(Error::NotFound);
            },
        };
        let ghost pre = *old(self);
        proof {
            assert(pre.owned_cars@[(from, pos)] == id);
            assert(pos < count_from);
        }
        // Swap-and-pop: unless `id` already sits in the last slot, the last
        // identifier moves into `id`'s slot and its reverse entry follows.
        if pos != new_count_from {
            let last_id = match self.owned_cars.get(from, new_count_from) {
                Some(x) => x,
                None => {
                    return Err(Error::NotFound);
                },
            };
            self.owned_cars.insert(from, pos, last_id);
            self.owned_index.insert(last_id, pos);
        }
        self.owned_cars.remove(from, new_count_from);
        self.owned_count.insert(from, new_count_from);
        // Append `id` to the destination row, which the removal above has
        // already shrunk when `from` and `to` are the same account.
        let count_dest = match self.owned_count.get(to) {
            Some(c) => c,
            None => 0,
        };
        self.owned_cars.insert(to, count_dest, id);
        self.owned_count.insert(to, count_dest + 1);
        self.owned_index.insert(id, count_dest);
        self.owners.insert(id, to);
        proof {
            let post = *self;
            let cf = count_from as int;
            let posv = pos as u64;
            let last = pre.owned_cars@[(from, new_count_from)];
            assert(pre.owners@.dom().contains(last) && pre.owners@[last] == from
                && pre.owned_index@[last] == new_count_from);
            // Row entries of `from` are pairwise distinct via the reverse index.
            assert(pos == new_count_from ==> last == id);
            assert(pos != new_count_from ==> last != id);
            let cd = count_dest as u64;
            assert(from != to ==> cd == pre.count_of(to));
            assert(from == to ==> cd == new_count_from);
            // Domains are unchanged as sets.
            assert(post.owners@.dom() =~= pre.owners@.dom());
            assert(post.cars@.dom() == pre.owners@.dom());
            assert(post.all_index@.dom() == pre.owners@.dom());
            assert(post.owned_index@.dom() =~= pre.owners@.dom());
            // Global enumeration untouched.
            assert forall|p: u64|
                post.all_cars@.dom().contains(p) <==> p < post.all_count by {}
            assert forall|p: u64| p < post.all_count implies post.owners@.dom().contains(
                #[trigger] post.all_cars@[p],
            ) && post.all_index@[post.all_cars@[p]] == p by {
                assert(pre.owners@.dom().contains(pre.all_cars@[p]));
            }
            assert forall|id2: u64| #[trigger] post.owners@.dom().contains(id2) implies
                post.all_index@[id2] < post.all_count && post.all_cars@[post.all_index@[id2]]
                == id2 by {
                assert(pre.owners@.dom().contains(id2));
            }
            // Row sizes.
            assert forall|b: u64| b != from && b != to implies #[trigger] post.count_of(b)
                == pre.count_of(b) by {}
            // Density of the owner rows.
            assert forall|a: u64, p: u64|
                post.owned_cars@.dom().contains((a, p)) <==> p < post.count_of(a) by {
                if a != from && a != to {
                    assert(pre.owned_cars@.dom().contains((a, p)) <==> p < pre.count_of(a));
                }
            }
            // Each stored row entry is consistent with owner and reverse index.
            assert forall|a: u64, p: u64| p < post.count_of(a) implies post.owners@.dom()
                .contains(#[trigger] post.owned_cars@[(a, p)]) && post.owners@[post.owned_cars@[(
                a,
                p,
            )]] == a && post.owned_index@[post.owned_cars@[(a, p)]] == p by {
                if a == to && p == cd {
                    assert(post.owned_cars@[(a, p)] == id);
                } else {
                    if a == from && p == posv && posv != new_count_from {
                        let e = last;
                        assert(post.owned_cars@[(a, p)] == e);
                        assert(e != id);
                        assert(post.owners@[e] == from);
                        assert(post.owned_index@[e] == p);
                    } else {
                        let e = pre.owned_cars@[(a, p)];
                        assert(p < pre.count_of(a));
                        assert(pre.owners@.dom().contains(e) && pre.owners@[e] == a
                            && pre.owned_index@[e] == p);
                        assert(post.owned_cars@[(a, p)] == e);
                        // `e` is neither the moved asset nor the swapped last
                        // entry: their reverse positions differ from `p`.
                        assert(e != id);
                        if posv != new_count_from {
                            assert(e != last);
                        }
                        assert(post.owners@[e] == a);
                        assert(post.owned_index@[e] == p);
                    }
                }
            }
            // Each owned identifier is found where its reverse index points.
            assert forall|id2: u64| #[trigger] post.owners@.dom().contains(id2) implies
                post.owned_index@[id2] < post.count_of(post.owners@[id2])
                && post.owned_cars@[(post.owners@[id2], post.owned_index@[id2])] == id2 by {
                if id2 == id {
                    assert(post.owned_cars@[(to, cd)] == id);
                } else if posv != new_count_from && id2 == last {
                    assert(post.owned_cars@[(from, posv)] == last);
                    assert(post.count_of(from) > posv);
                } else {
                    assert(pre.owners@.dom().contains(id2));
                    let a2 = pre.owners@[id2];
                    let p2 = pre.owned_index@[id2];
                    assert(p2 < pre.count_of(a2));
                    assert(pre.owned_cars@[(a2, p2)] == id2);
                    assert(post.owners@[id2] == a2);
                    assert(post.owned_index@[id2] == p2);
                    if a2 == from {
                        assert(p2 != posv);
                        assert(p2 != new_count_from);
                        assert(p2 < post.count_of(a2));
                    }
                    assert(post.owned_cars@[(a2, p2)] == id2);
                    assert(p2 < post.count_of(a2));
                }
            }
            assert forall|id2: u64| #[trigger] post.cars@.dom().contains(id2) implies
                post.cars@[id2].id == id2 by {}
            // The stated row transformations.
            assert(post.all_seq() =~= pre.all_seq());
            if from == to {
                assert(post.owned_seq(from) =~= pre.row_after_removal(from, id).push(id));
            } else {
                assert(post.owned_seq(from) =~= pre.row_after_removal(from, id));
                assert(post.owned_seq(to) =~= pre.owned_seq(to).push(id));
            }
            assert forall|b: u64| b != from && b != to implies #[trigger] post.owned_seq(b)
                == pre.owned_seq(b) by {
                assert(post.owned_seq(b) =~= pre.owned_seq(b));
            }
        }
        Ok(Event::Transferred(from, to, id))
    }

    /// Transfer `id` from `caller` to `to`.  Only the current owner may
    /// transfer; the whole operation is one unit.
    pub fn transfer(&mut self, caller: u64, to: u64, id: u64) -> (r: Result<Event, Error>)
        requires
            old(self).wf(),
        ensures
            final(self).wf(),
            match r {
                Ok(ev) => old(self).can_transfer(caller, to, id) && old(self).transfer_post(
                    *final(self),
                    caller,
                    to,
                    id,
                ) && ev == Event::Transferred(caller, to, id),
                Err(e) => *final(self) == *old(self) && !old(self).can_transfer(caller, to, id)
                    && e == old(self).transfer_denied(caller, to, id),
            },
    {
        let owner = match self.owners.get(id) {
            Some(o) => o,
            None => {
                return Err(Error::NotFound);
            },
        };
        if owner != caller {
            return Err(Error::NotOwner);
        }
        self.transfer_from(caller, to, id)
    }

    /// A sale of `id` to `buyer` is accepted: the asset exists, the buyer is
    /// not its owner, and it is listed for sale at a non-zero price.
    pub open spec fn can_buy(self, buyer: u64, id: u64) -> bool {
        &&& self.owners@.dom().contains(id)
        &&& self.owners@[id] != buyer
        &&& self.cars@[id].price != 0
    }

    /// The error a rejected sale reports: a missing asset first, a buyer who
    /// already owns it next, a zero price last.
    pub open spec fn buy_denied(self, buyer: u64, id: u64) -> Error {
        if !self.owners@.dom().contains(id) {
            Error::NotFound
        } else if self.owners@[id] == buyer {
            Error::SelfTrade
        } else {
            Error::NotForSale
        }
    }

    /// Exactly what a committed sale writes: ownership of `id` moves from
    /// the seller to the buyer exactly as in a transfer, and the asset's
    /// price is reset to zero, taking it off sale.  Nothing else moves.
    pub open spec fn buy_post(self, post: Registry, buyer: u64, id: u64) -> bool {
        let seller = self.owners@[id];
        &&& post.owners@ == self.owners@.insert(id, buyer)
        &&& post.cars@ == self.cars@.insert(
            id,
            Car { id, price: 0, stored_fee: self.cars@[id].stored_fee },
        )
        &&& post.all_count == self.all_count
        &&& post.all_seq() == self.all_seq()
        &&& post.nonce == self.nonce
        &&& post.count_of(seller) == self.count_of(seller) - 1
        &&& post.count_of(buyer) == self.count_of(buyer) + 1
        &&& post.owned_seq(seller) == self.row_after_removal(seller, id)
        &&& post.owned_seq(buyer) == self.owned_seq(buyer).push(id)
        &&& forall|b: u64| b != seller && b != buyer ==> #[trigger] post.count_of(b)
            == self.count_of(b)
        &&& forall|b: u64| b != seller && b != buyer ==> #[trigger] post.owned_seq(b)
            == self.owned_seq(b)
    }

    /// First half of a sale: validate it and say what the host owes.  Nothing
    /// is written.  On success the host must move `price` from `buyer` to
    /// `seller` through its currency collaborator and, only if that transfer
    /// succeeds, call `buy_commit`; if it fails, the registry has not moved
    /// and the host simply never commits.
    pub fn buy_prepare(&self, buyer: u64, id: u64) -> (r: Result<Payment, Error>)
        requires
            self.wf(),
        ensures
            match r {
                Ok(p) => self.can_buy(buyer, id) && p.seller == self.owners@[id] && p.price
                    == self.cars@[id].price,
                Err(e) => !self.can_buy(buyer, id) && e == self.buy_denied(buyer, id),
            },
    {
        if !self.cars.contains(id) {
            return Err(Error::NotFound);
        }
        let owner = match self.owners.get(id) {
            Some(o) => o,
            None => {
                return Err(Error::NotFound);
            },
        };
        if owner == buyer {
            return Err(Error::SelfTrade);
        }
        let car = match self.cars.get(id) {
            Some(c) => c,
            None => {
                return Err(Error::NotFound);
            },
        };
        if car.price == 0 {
            return Err(Error::NotForSale);
        }
        Ok(Payment { seller: owner, price: car.price })
    }

    /// Second half of a sale, called only after the prepared currency
    /// transfer has succeeded: move ownership to the buyer and reset the
    /// price to zero, as one unit.  The same conditions are checked again,
    /// and on them the commit always succeeds: in particular the buyer's row
    /// counter cannot overflow, because an account that does not own the
    /// asset owns strictly fewer assets than the global counter holds.
    pub fn buy_commit(&mut self, buyer: u64, id: u64) -> (r: Result<Event, Error>)
        requires
            old(self).wf(),
        ensures
            final(self).wf(),
            match r {
                Ok(ev) => old(self).can_buy(buyer, id) && old(self).buy_post(
                    *final(self),
                    buyer,
                    id,
                ) && ev == Event::Bought(buyer, old(self).owners@[id], id, old(self).cars@[id].price),
                Err(e) => *final(self) == *old(self) && !old(self).can_buy(buyer, id) && e
                    == old(self).buy_denied(buyer, id),
            },
    {
        if !self.cars.contains(id) {
            return Err(Error::NotFound);
        }
        let owner = match self.owners.get(id) {
            Some(o) => o,
            None => {
                return Err(Error::NotFound);
            },
        };
        if owner == buyer {
            return Err(Error::SelfTrade);
        }
        let car = match self.cars.get(id) {
            Some(c) => c,
            None => {
                return Err(Error::NotFound);
            },
        };
        if car.price == 0 {
            return Err(Error::NotForSale);
        }
        proof {
            crate::laws::lemma_outsider_count_strict(*self, buyer, id);
        }
        let ghost pre = *old(self);
        let transferred = self.transfer_from(owner, buyer, id);
        match transferred {
            Ok(_) => {},
            Err(_) => {
                // Unreachable: the transfer's conditions were established above.
                return Err(Error::Underflow);
            },
        }
        let ghost mid = *self;
        self.cars.insert(id, Car { id, price: 0, stored_fee: car.stored_fee });
        proof {
            let post = *self;
            assert(post.cars@.dom() =~= mid.owners@.dom());
            assert forall|b: u64| #[trigger] post.owned_seq(b) == mid.owned_seq(b) by {
                assert(post.owned_seq(b) =~= mid.owned_seq(b));
            }
            assert forall|b: u64| b != owner && b != buyer implies #[trigger] post.count_of(b)
                == pre.count_of(b) by {
                assert(mid.count_of(b) == pre.count_of(b));
            }
            assert(post.all_seq() =~= mid.all_seq());
            assert(post.cars@ =~= pre.cars@.insert(
                id,
                Car { id, price: 0, stored_fee: pre.cars@[id].stored_fee },
            ));
        }
        Ok(Event::Bought(buyer, owner, id, car.price))
    }

    /// The nonce the host must mix into the next derived identifier.
    pub fn current_nonce(&self) -> (r: u64)
        ensures
            r == self.nonce,
    {
        self.nonce
    }
}

} // verus!
