use vstd::prelude::*;
use crate::assoc::{has_key, keys_distinct, lemma_to_map_keys, lemma_to_map_push, lemma_to_map_remove, lemma_to_map_update, lemma_to_map_value, to_map};
use crate::error::Error;
use crate::registry::{RegistryView, TokenRegistry};

verus! {

/// The terms on which a token is offered: who sells it, and for how much.
#[derive(Clone, Debug, PartialEq, Eq)]
pub struct Sale {
    pub seller: String,
    pub price: u128,
}

/// What a `Sale` holds.
pub struct SaleView {
    pub seller: Seq<char>,
    pub price: u128,
}

impl View for Sale {
    type V = SaleView;

    open spec fn view(&self) -> SaleView {
        SaleView { seller: self.seller@, price: self.price }
    }
}

/// What a purchase moves: the price goes to the seller, and what the buyer
/// attached beyond it goes back to the buyer.
#[derive(Clone, Debug, PartialEq, Eq)]
pub struct Purchase {
    pub seller: String,
    pub price: u128,
    pub refund: u128,
}

/// The smallest unit of the currency.  A buyer attaches the price and at least
/// this much more, and an excess of no more than this is not paid back.
pub const MINIMAL_UNIT: u128 = 1;

/// What a buyer who attached `attached` for a token listed at `price` gets back.
pub open spec fn purchase_refund(attached: u128, price: u128) -> int {
    if attached - price > MINIMAL_UNIT {
        attached - price
    } else {
        0
    }
}

/// A token on offer, with the terms of the offer.
#[derive(Clone, Debug, PartialEq, Eq)]
pub struct Listing {
    pub token_id: String,
    pub seller: String,
    pub price: u128,
}

/// The token of a listing, and its terms.
pub open spec fn listing_entry(listing: Listing) -> (Seq<char>, SaleView) {
    (listing.token_id@, SaleView { seller: listing.seller@, price: listing.price })
}

/// The tokens and terms of a list of listings, in order.
pub open spec fn listing_entries(listings: Seq<Listing>) -> Seq<(Seq<char>, SaleView)> {
    listings.map_values(|l: Listing| listing_entry(l))
}

/// Why a purchase of the token `id` by `buyer`, who attached `attached`, is
/// refused at the instant `now`, if it is.
pub open spec fn buy_refusal(
    listings: Map<Seq<char>, SaleView>,
    registry: RegistryView,
    buyer: Seq<char>,
    id: Seq<char>,
    attached: u128,
    now: u64,
) -> Option<Error> {
    if !listings.contains_key(id) {
        Some(Error::NotFound)
    } else if attached < listings[id].price + MINIMAL_UNIT {
        Some(Error::InsufficientPayment)
    } else if !registry.has_token(id) || registry.records[registry.index_of(id)].owner
        != listings[id].seller {
        Some(Error::StaleListing)
    } else {
        registry.transfer_refusal(listings[id].seller, buyer, id, None, now)
    }
}

/// Why `caller` is refused the withdrawal of the listing of the token `id`,
/// if it is.
pub open spec fn remove_refusal(
    listings: Map<Seq<char>, SaleView>,
    caller: Seq<char>,
    id: Seq<char>,
) -> Option<Error> {
    if !listings.contains_key(id) {
        Some(Error::NotFound)
    } else if caller != listings[id].seller {
        Some(Error::Unauthorized)
    } else {
        None
    }
}

/// The tokens on offer.  A listing only states terms: the token stays with its
/// owner until it is bought.
pub struct SaleBoard {
    listings: Vec<Listing>,
}

impl SaleBoard {
    closed spec fn entries(&self) -> Seq<(Seq<char>, SaleView)> {
        listing_entries(self.listings@)
    }

    /// The listings, by token identifier.
    pub closed spec fn listings(&self) -> Map<Seq<char>, SaleView> {
        to_map(self.entries())
    }

    /// No token is listed twice.
    pub closed spec fn wf(&self) -> bool {
        keys_distinct(self.entries())
    }

    /// A board with no listing.
    pub fn new() -> (board: SaleBoard)
        ensures
            board.wf(),
            board.listings() == Map::<Seq<char>, SaleView>::empty(),
    {
        let board = SaleBoard { listings: Vec::new() };
        assert(board.entries() =~= Seq::empty());
        board
    }

    /// A copy of the listings, in the order in which they are kept.
    pub fn all(&self) -> (list: Vec<Listing>)
        requires
            self.wf(),
        ensures
            keys_distinct(listing_entries(list@)),
            to_map(listing_entries(list@)) == self.listings(),
    {
        let mut list: Vec<Listing> = Vec::new();
        let mut i: usize = 0;
        while i < self.listings.len()
            invariant
                i <= self.listings.len(),
                listing_entries(list@) == self.entries().subrange(0, i as int),
            decreases self.listings.len() - i,
        {
            let ghost copied = listing_entries(list@);
            let listing = Listing {
                token_id: self.listings[i].token_id.clone(),
                seller: self.listings[i].seller.clone(),
                price: self.listings[i].price,
            };
            let ghost entry = listing_entry(listing);
            list.push(listing);
            assert(listing_entries(list@) =~= copied.push(entry));
            assert(self.entries().subrange(0, i + 1) =~= self.entries().subrange(0, i as int).push(
                entry,
            ));
            i = i + 1;
        }
        assert(self.entries().subrange(0, i as int) =~= self.entries());
        list
    }

    /// Puts a board back together from its listings, if no token is listed twice.
    pub fn restore(listings: Vec<Listing>) -> (board: Option<SaleBoard>)
        ensures
            board is Some <==> keys_distinct(listing_entries(listings@)),
            board matches Some(b) ==> b.wf() && b.listings() == to_map(listing_entries(listings@)),
    {
        let ghost all = listing_entries(listings@);
        let mut i: usize = 0;
        while i < listings.len()
            invariant
                i <= listings.len(),
                all == listing_entries(listings@),
                forall|a: int, b: int| 0 <= a < b < i ==> all[a].0 != all[b].0,
            decreases listings.len() - i,
        {
            let mut j: usize = 0;
            while j < i
                invariant
                    j <= i < listings.len(),
                    all == listing_entries(listings@),
                    forall|a: int| 0 <= a < j ==> all[a].0 != all[i as int].0,
                decreases i - j,
            {
                if listings[j].token_id == listings[i].token_id {
                    assert(all[j as int].0 == all[i as int].0);
                    return None;
                }
                j = j + 1;
            }
            i = i + 1;
        }
        Some(SaleBoard { listings })
    }

    fn find(&self, token_id: &String) -> (at: Option<usize>)
        requires
            self.wf(),
        ensures
            at is Some <==> self.listings().contains_key(token_id@),
            at matches Some(i) ==> {
                &&& i < self.entries().len()
                &&& self.entries()[i as int].0 == token_id@
                &&& self.entries()[i as int].1 == self.listings()[token_id@]
                &&& self.entries()[i as int] == listing_entry(self.listings[i as int])
            },
    {
        proof {
            lemma_to_map_keys(self.entries());
        }
        let mut i: usize = 0;
        while i < self.listings.len()
            invariant
                self.wf(),
                i <= self.listings.len(),
                self.entries().len() == self.listings.len(),
                forall|j: int| 0 <= j < i ==> (#[trigger] self.entries()[j]).0 != token_id@,
            decreases self.listings.len() - i,
        {
            if self.listings[i].token_id == *token_id {
                proof {
                    lemma_to_map_value(self.entries(), i as int);
                }
                return Some(i);
            }
            i = i + 1;
        }
        None
    }

    /// The terms on which the token `token_id` is offered, if it is.
    pub fn listing(&self, token_id: &String) -> (sale: Option<Sale>)
        requires
            self.wf(),
        ensures
            sale is Some <==> self.listings().contains_key(token_id@),
            sale matches Some(s) ==> s@ == self.listings()[token_id@],
    {
        match self.find(token_id) {
            Some(at) => Some(
                Sale { seller: self.listings[at].seller.clone(), price: self.listings[at].price },
            ),
            None => None,
        }
    }

    /// Takes the listing of the token `token_id` off the board, if there is
    /// one: the token changed hands or is gone.
    pub fn invalidate(&mut self, token_id: &String)
        requires
            old(self).wf(),
        ensures
            final(self).wf(),
            final(self).listings() == old(self).listings().remove(token_id@),
    {
        let ghost before = self.entries();
        match self.find(token_id) {
            Some(at) => {
                proof {
                    lemma_to_map_remove(before, at as int);
                }
                self.listings.remove(at);
                assert(self.entries() =~= before.remove(at as int));
            },
            None => {
                assert(self.listings() =~= self.listings().remove(token_id@));
            },
        }
    }

    /// Offers the token `token_id` at `price` on its owner's word, in place of
    /// any listing the token had.  A refused offer changes nothing.
    pub fn offer(&mut self, registry: &TokenRegistry, caller: &String, token_id: String, price: u128) -> (offered:
        Result<(), Error>)
        requires
            old(self).wf(),
            registry.wf(),
        ensures
            final(self).wf(),
            offered is Ok <==> registry@.owner_refusal(caller@, token_id@) is None,
            offered matches Err(e) ==> registry@.owner_refusal(caller@, token_id@) == Some(e)
                && final(self).listings() == old(self).listings(),
            offered is Ok ==> final(self).listings() == old(self).listings().insert(
                token_id@,
                SaleView { seller: caller@, price },
            ),
    {
        match registry.token(&token_id) {
            None => {
                return Err(Error::NotFound);
            },
            Some(token) => {
                if token.owner_id != *caller {
                    return Err(Error::Unauthorized);
                }
            },
        }
        let ghost before = self.entries();
        let ghost sale = SaleView { seller: caller@, price };
        match self.find(&token_id) {
            Some(at) => {
                proof {
                    lemma_to_map_update(before, at as int, sale);
                }
                self.listings.set(at, Listing { token_id, seller: caller.clone(), price });
                assert(self.entries() =~= before.update(at as int, (before[at as int].0, sale)));
            },
            None => {
                proof {
                    lemma_to_map_push(before, (token_id@, sale));
                    lemma_to_map_keys(before);
                }
                self.listings.push(Listing { token_id, seller: caller.clone(), price });
                assert(self.entries() =~= before.push((token_id@, sale)));
                assert(keys_distinct(self.entries())) by {
                    assert forall|i: int, j: int| 0 <= i < j < self.entries().len() implies self.entries()[i].0
                        != self.entries()[j].0 by {
                        if j == before.len() {
                            assert(has_key(before, before[i].0));
                        } else {
                            assert(before[i].0 != before[j].0);
                        }
                    }
                }
            },
        }
        Ok(())
    }

    /// Withdraws the listing of the token `token_id` on its seller's word.  A
    /// refused withdrawal changes nothing.
    pub fn remove(&mut self, caller: &String, token_id: &String) -> (removed: Result<(), Error>)
        requires
            old(self).wf(),
        ensures
            final(self).wf(),
            removed is Ok <==> remove_refusal(old(self).listings(), caller@, token_id@) is None,
            removed matches Err(e) ==> remove_refusal(old(self).listings(), caller@, token_id@)
                == Some(e) && final(self).listings() == old(self).listings(),
            removed is Ok ==> final(self).listings() == old(self).listings().remove(token_id@),
    {
        match self.find(token_id) {
            None => Err(Error::NotFound),
            Some(at) => {
                if self.listings[at].seller != *caller {
                    Err(Error::Unauthorized)
                } else {
                    self.invalidate(token_id);
                    Ok(())
                }
            },
        }
    }

    fn admit_buy(
        &self,
        registry: &TokenRegistry,
        buyer: &String,
        token_id: &String,
        attached: u128,
        now: u64,
    ) -> (admitted: Result<Sale, Error>)
        requires
            self.wf(),
            registry.wf(),
        ensures
            admitted is Ok <==> buy_refusal(
                self.listings(),
                registry@,
                buyer@,
                token_id@,
                attached,
                now,
            ) is None,
            admitted matches Err(e) ==> buy_refusal(
                self.listings(),
                registry@,
                buyer@,
                token_id@,
                attached,
                now,
            ) == Some(e),
            admitted matches Ok(sale) ==> sale@ == self.listings()[token_id@],
    {
        let sale = match self.listing(token_id) {
            Some(sale) => sale,
            None => {
                return Err(Error::NotFound);
            },
        };
        if sale.price == u128::MAX || attached < sale.price + MINIMAL_UNIT {
            return Err(Error::InsufficientPayment);
        }
        match registry.token(token_id) {
            None => {
                return Err(Error::StaleListing);
            },
            Some(token) => {
                if token.owner_id != sale.seller {
                    return Err(Error::StaleListing);
                }
            },
        }
        match registry.check_transfer(&sale.seller, buyer, token_id, None, now) {
            Ok(_) => Ok(sale),
            Err(e) => Err(e),
        }
    }

    /// Tells why a purchase of the token `token_id` by `buyer`, who attached
    /// `attached`, would be refused at the instant `now`.
    pub fn check_buy(
        &self,
        registry: &TokenRegistry,
        buyer: &String,
        token_id: &String,
        attached: u128,
        now: u64,
    ) -> (checked: Result<(), Error>)
        requires
            self.wf(),
            registry.wf(),
        ensures
            checked is Ok <==> buy_refusal(
                self.listings(),
                registry@,
                buyer@,
                token_id@,
                attached,
                now,
            ) is None,
            checked matches Err(e) ==> buy_refusal(
                self.listings(),
                registry@,
                buyer@,
                token_id@,
                attached,
                now,
            ) == Some(e),
    {
        match self.admit_buy(registry, buyer, token_id, attached, now) {
            Ok(_) => Ok(()),
            Err(e) => Err(e),
        }
    }

    /// Sells the listed token `token_id` to `buyer`, who attached `attached`:
    /// the token goes to the buyer as in a transfer by its seller, and the
    /// listing leaves the board.  Returns what is owed to the seller and back
    /// to the buyer.  A refused purchase changes nothing.
    pub fn buy(
        &mut self,
        registry: &mut TokenRegistry,
        buyer: String,
        token_id: &String,
        attached: u128,
        now: u64,
    ) -> (bought: Result<Purchase, Error>)
        requires
            old(self).wf(),
            old(registry).wf(),
        ensures
            final(self).wf(),
            final(registry).wf(),
            bought is Ok <==> buy_refusal(
                old(self).listings(),
                old(registry)@,
                buyer@,
                token_id@,
                attached,
                now,
            ) is None,
            bought matches Err(e) ==> {
                &&& buy_refusal(old(self).listings(), old(registry)@, buyer@, token_id@, attached, now)
                    == Some(e)
                &&& final(self).listings() == old(self).listings()
                &&& final(registry)@ == old(registry)@
            },
            bought matches Ok(purchase) ==> {
                &&& purchase.seller@ == old(self).listings()[token_id@].seller
                &&& purchase.price == old(self).listings()[token_id@].price
                &&& purchase.refund == purchase_refund(attached, purchase.price)
                &&& final(self).listings() == old(self).listings().remove(token_id@)
                &&& final(registry)@ == old(registry)@.handed_over(token_id@, buyer@, Map::empty())
            },
    {
        let sale = match self.admit_buy(registry, &buyer, token_id, attached, now) {
            Ok(sale) => sale,
            Err(e) => {
                return Err(e);
            },
        };
        match registry.transfer(&sale.seller, buyer, token_id, None, now) {
            Ok(_) => {},
            Err(e) => {
                return Err(e);
            },
        }
        self.invalidate(token_id);
        let excess = attached - sale.price;
        let refund = if excess > MINIMAL_UNIT {
            excess
        } else {
            0
        };
        Ok(Purchase { seller: sale.seller, price: sale.price, refund })
    }
}

} // verus!
