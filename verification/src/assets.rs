use vstd::prelude::*;

use crate::ledger::Ledger;
use crate::random;
use crate::random::derive_spec;

verus! {

/// A unique asset: a fixed 16-byte genome. The genome never changes after
/// creation; only ownership and the sale price do.
#[derive(Clone, Copy, PartialEq, Eq, Debug)]
pub struct Kitty(pub [u8; 16]);

/// The registry's configuration: the amount reserved against the creator's
/// balance for each directly created asset.
#[derive(Clone, Copy)]
pub struct Config {
    pub stake: u64,
}

/// The one event a successful operation emits.
#[derive(Clone, Copy, PartialEq, Eq, Debug)]
pub enum Event {
    /// Created(owner, asset): `create` or `breed` stored a new asset.
    Created(u64, u32),
    /// Transferred(old owner, new owner, asset).
    Transferred(u64, u64, u32),
    /// Listed(owner, asset, ask price).
    Listed(u64, u32, u64),
    /// Bought(buyer, asset, settled price).
    Bought(u64, u32, u64),
}

/// Why an operation was rejected; each variant maps to exactly one
/// condition, and a rejected call mutates nothing.
#[derive(Clone, Copy, PartialEq, Eq, Debug)]
pub enum Error {
    /// The id counter reached the largest representable index.
    CapacityExhausted,
    /// The caller cannot pay the stake, or the settlement transfer failed.
    InsufficientFunds,
    /// The caller does not own the asset.
    NotOwner,
    /// Both breeding parents are the same asset.
    SameParent,
    /// No asset exists under the given id.
    UnknownAsset,
    /// The buyer already owns the asset.
    BuyerIsOwner,
    /// The asset has no ask price on record.
    NotListed,
    /// The offered amount is below the ask price.
    InsufficientOffer,
}

/// One stored asset: its id, genome, owner, and optional ask price.
#[derive(Clone, Copy)]
struct KittyRecord {
    id: u32,
    kitty: Kitty,
    owner: u64,
    price: Option<u64>,
}

spec fn k_unique(s: Seq<KittyRecord>) -> bool {
    forall|i: int, j: int|
        0 <= i < s.len() && 0 <= j < s.len() && i != j ==> s[i].id != s[j].id
}

spec fn k_find(s: Seq<KittyRecord>, id: u32) -> Option<KittyRecord>
    decreases s.len(),
{
    if s.len() == 0 {
        None
    } else if s[0].id == id {
        Some(s[0])
    } else {
        k_find(s.drop_first(), id)
    }
}

proof fn lemma_k_find_present(s: Seq<KittyRecord>, i: int)
    requires
        k_unique(s),
        0 <= i < s.len(),
    ensures
        k_find(s, s[i].id) == Some(s[i]),
    decreases s.len(),
{
    if i > 0 {
        assert(k_unique(s.drop_first()));
        lemma_k_find_present(s.drop_first(), i - 1);
    }
}

proof fn lemma_k_find_absent(s: Seq<KittyRecord>, id: u32)
    requires
        forall|i: int| 0 <= i < s.len() ==> s[i].id != id,
    ensures
        k_find(s, id) is None,
    decreases s.len(),
{
    if s.len() > 0 {
        lemma_k_find_absent(s.drop_first(), id);
    }
}

proof fn lemma_k_find_update(s: Seq<KittyRecord>, i: int, e: KittyRecord, w: u32)
    requires
        k_unique(s),
        0 <= i < s.len(),
        e.id == s[i].id,
    ensures
        k_find(s.update(i, e), w) == (if w == e.id {
            Some(e)
        } else {
            k_find(s, w)
        }),
    decreases s.len(),
{
    let t = s.update(i, e);
    if i == 0 {
        if w != e.id {
            assert(t.drop_first() =~= s.drop_first());
        }
    } else {
        assert(t[0] == s[0]);
        assert(t.drop_first() =~= s.drop_first().update(i - 1, e));
        assert(k_unique(s.drop_first()));
        lemma_k_find_update(s.drop_first(), i - 1, e, w);
    }
}

proof fn lemma_k_unique_update(s: Seq<KittyRecord>, i: int, e: KittyRecord)
    requires
        k_unique(s),
        0 <= i < s.len(),
        e.id == s[i].id,
    ensures
        k_unique(s.update(i, e)),
{
}

proof fn lemma_k_find_push(s: Seq<KittyRecord>, e: KittyRecord, w: u32)
    requires
        forall|i: int| 0 <= i < s.len() ==> s[i].id != e.id,
    ensures
        k_find(s.push(e), w) == (if w == e.id {
            Some(e)
        } else {
            k_find(s, w)
        }),
    decreases s.len(),
{
    let t = s.push(e);
    if s.len() == 0 {
        assert(t[0] == e);
        if w != e.id {
            assert(t.drop_first() =~= s);
        }
    } else {
        assert(t[0] == s[0]);
        assert(t.drop_first() =~= s.drop_first().push(e));
        lemma_k_find_push(s.drop_first(), e, w);
    }
}

proof fn lemma_k_unique_push(s: Seq<KittyRecord>, e: KittyRecord)
    requires
        k_unique(s),
        forall|i: int| 0 <= i < s.len() ==> s[i].id != e.id,
    ensures
        k_unique(s.push(e)),
{
}

/// The byte a bred genome takes at one position: where a selector bit is
/// set the bit comes from the first parent, elsewhere from the second.
pub open spec fn mix_byte(s: u8, x: u8, y: u8) -> u8 {
    (s & x) | (!s & y)
}

/// Law: a mixed byte follows the selector bit by bit, so every bit of it
/// equals the matching bit of one of the two source bytes.
pub proof fn lemma_mix_byte_bit(s: u8, x: u8, y: u8, j: u64)
    requires
        j < 8,
    ensures
        (mix_byte(s, x, y) >> j) & 1 == (if (s >> j) & 1 == 1 {
            (x >> j) & 1
        } else {
            (y >> j) & 1
        }),
        (mix_byte(s, x, y) >> j) & 1 == (x >> j) & 1 || (mix_byte(s, x, y) >> j) & 1 == (y >> j)
            & 1,
{
    assert((((s & x) | (!s & y)) >> j) & 1 == (if (s >> j) & 1 == 1 {
        (x >> j) & 1
    } else {
        (y >> j) & 1
    })) by (bit_vector)
        requires
            j < 8,
    ;
}

/// The genome bred from two parent genomes under a 16-byte selector.
pub open spec fn mixed_genome(sel: Seq<u8>, a: Seq<u8>, b: Seq<u8>) -> Seq<u8> {
    Seq::new(16, |i: int| mix_byte(sel[i], a[i], b[i]))
}

/// Law: every bit of a bred genome equals the matching bit of one of its
/// parents — no position can hold a bit that neither parent has.
pub proof fn lemma_bred_bit_from_a_parent(
    sel: Seq<u8>,
    a: Seq<u8>,
    b: Seq<u8>,
    i: int,
    j: u64,
)
    requires
        0 <= i < 16,
        j < 8,
    ensures
        (mixed_genome(sel, a, b)[i] >> j) & 1 == (a[i] >> j) & 1 || (mixed_genome(sel, a, b)[i]
            >> j) & 1 == (b[i] >> j) & 1,
{
    lemma_mix_byte_bit(sel[i], a[i], b[i], j);
}

fn mix_genomes(sel: &[u8; 16], a: &[u8; 16], b: &[u8; 16]) -> (r: [u8; 16])
    ensures
        r@ == mixed_genome(sel@, a@, b@),
{
    let mut r: [u8; 16] = [0; 16];
    let mut i: usize = 0;
    while i < 16
        invariant
            i <= 16,
            forall|j: int| 0 <= j < i ==> r@[j] == mix_byte(sel@[j], a@[j], b@[j]),
        decreases 16 - i,
    {
        r[i] = (sel[i] & a[i]) | (!sel[i] & b[i]);
        i += 1;
    }
    proof {
        assert(r@ =~= mixed_genome(sel@, a@, b@));
    }
    r
}

/// The asset registry and marketplace: the stored assets, the id counter,
/// the balance ledger it settles against, the configured stake, the host
/// randomness inputs, and the log of emitted events.
pub struct Pallet {
    count: Option<u32>,
    kitties: Vec<KittyRecord>,
    ledger: Ledger,
    stake: u64,
    entropy: Vec<u8>,
    call_index: u64,
    events: Vec<Event>,
}

impl Pallet {
    /// The id counter: the next id to allocate, absent until first used.
    pub closed spec fn spec_count(&self) -> Option<u32> {
        self.count
    }

    /// The id the next successful creation takes: 1 where the counter is
    /// still absent.
    pub open spec fn spec_next_id(&self) -> u32 {
        match self.spec_count() {
            None => 1u32,
            Some(c) => c,
        }
    }

    /// The genome stored under an id, if the asset exists.
    pub closed spec fn spec_kitty(&self, id: u32) -> Option<Kitty> {
        match k_find(self.kitties@, id) {
            Some(r) => Some(r.kitty),
            None => None,
        }
    }

    /// The owner on record for an id; absence means the asset does not
    /// exist.
    pub closed spec fn spec_owner(&self, id: u32) -> Option<u64> {
        match k_find(self.kitties@, id) {
            Some(r) => Some(r.owner),
            None => None,
        }
    }

    /// The ask price on record for an id, present only while listed.
    pub closed spec fn spec_price(&self, id: u32) -> Option<u64> {
        match k_find(self.kitties@, id) {
            Some(r) => r.price,
            None => None,
        }
    }

    pub open spec fn spec_exists(&self, id: u32) -> bool {
        self.spec_owner(id) is Some
    }

    /// How many assets are stored.
    pub closed spec fn spec_num_assets(&self) -> nat {
        self.kitties@.len()
    }

    /// The balance ledger the registry settles against.
    pub closed spec fn spec_ledger(&self) -> Ledger {
        self.ledger
    }

    /// The configured stake reserved per directly created asset.
    pub closed spec fn spec_stake(&self) -> u64 {
        self.stake
    }

    /// The host-supplied entropy seed.
    pub closed spec fn spec_entropy(&self) -> Seq<u8> {
        self.entropy@
    }

    /// The call-sequence discriminant randomness is derived with.
    pub closed spec fn spec_call_index(&self) -> u64 {
        self.call_index
    }

    /// Every event emitted so far, oldest first.
    pub closed spec fn spec_events(&self) -> Seq<Event> {
        self.events@
    }

    /// Each asset is stored once, every stored id is below the counter (so
    /// a fresh id can never collide), the ledger is well formed, and the
    /// entropy seed fits the encoder's length prefix.
    pub closed spec fn wf(&self) -> bool {
        &&& k_unique(self.kitties@)
        &&& forall|i: int|
            0 <= i < self.kitties@.len() ==> self.kitties@[i].id < self.spec_next_id()
        &&& self.ledger.wf()
        &&& self.entropy@.len() <= u32::MAX
    }

    pub fn new(config: Config, ledger: Ledger, entropy: Vec<u8>, call_index: u64) -> (r: Pallet)
        requires
            ledger.wf(),
            entropy@.len() <= u32::MAX,
        ensures
            r.wf(),
            r.spec_count() is None,
            r.spec_num_assets() == 0,
            forall|id: u32|
                r.spec_kitty(id) is None && r.spec_owner(id) is None && r.spec_price(id) is None,
            r.spec_ledger() == ledger,
            r.spec_stake() == config.stake,
            r.spec_entropy() == entropy@,
            r.spec_call_index() == call_index,
            r.spec_events() == Seq::<Event>::empty(),
    {
        let r = Pallet {
            count: None,
            kitties: Vec::new(),
            ledger,
            stake: config.stake,
            entropy,
            call_index,
            events: Vec::new(),
        };
        proof {
            assert(forall|id: u32| k_find(r.kitties@, id) is None);
            assert(r.events@ =~= Seq::<Event>::empty());
        }
        r
    }

    fn find_kitty(&self, id: u32) -> (r: Option<usize>)
        ensures
            match r {
                Some(i) => i < self.kitties@.len() && self.kitties@[i as int].id == id,
                None => forall|i: int| 0 <= i < self.kitties@.len() ==> self.kitties@[i].id != id,
            },
    {
        let mut i: usize = 0;
        while i < self.kitties.len()
            invariant
                i <= self.kitties@.len(),
                forall|j: int| 0 <= j < i ==> self.kitties@[j].id != id,
            decreases self.kitties@.len() - i,
        {
            if self.kitties[i].id == id {
                return Some(i);
            }
            i += 1;
        }
        None
    }

    /// The stored counter: the next id to allocate, absent until first
    /// used.
    pub fn kitties_count(&self) -> (r: Option<u32>)
        ensures
            r == self.spec_count(),
    {
        self.count
    }

    /// The genome stored under `id`.
    pub fn kitties(&self, id: u32) -> (r: Option<Kitty>)
        requires
            self.wf(),
        ensures
            r == self.spec_kitty(id),
    {
        match self.find_kitty(id) {
            Some(i) => {
                proof {
                    lemma_k_find_present(self.kitties@, i as int);
                }
                Some(self.kitties[i].kitty)
            },
            None => {
                proof {
                    lemma_k_find_absent(self.kitties@, id);
                }
                None
            },
        }
    }

    /// The owner on record for `id`.
    pub fn kitty_owner(&self, id: u32) -> (r: Option<u64>)
        requires
            self.wf(),
        ensures
            r == self.spec_owner(id),
    {
        match self.find_kitty(id) {
            Some(i) => {
                proof {
                    lemma_k_find_present(self.kitties@, i as int);
                }
                Some(self.kitties[i].owner)
            },
            None => {
                proof {
                    lemma_k_find_absent(self.kitties@, id);
                }
                None
            },
        }
    }

    /// The ask price on record for `id`.
    pub fn kitties_price(&self, id: u32) -> (r: Option<u64>)
        requires
            self.wf(),
        ensures
            r == self.spec_price(id),
    {
        match self.find_kitty(id) {
            Some(i) => {
                proof {
                    lemma_k_find_present(self.kitties@, i as int);
                }
                self.kitties[i].price
            },
            None => {
                proof {
                    lemma_k_find_absent(self.kitties@, id);
                }
                None
            },
        }
    }

    /// The events emitted so far, oldest first.
    pub fn events(&self) -> (r: &Vec<Event>)
        ensures
            r@ == self.spec_events(),
    {
        &self.events
    }

    /// The balance ledger, for reading balances.
    pub fn ledger(&self) -> (r: &Ledger)
        ensures
            *r == self.spec_ledger(),
    {
        &self.ledger
    }

    /// Overwrites the id counter, as the host may between calls; the new
    /// value must stay above every stored id.
    pub fn set_kitties_count(&mut self, c: u32)
        requires
            old(self).wf(),
            forall|id: u32| old(self).spec_exists(id) ==> id < c,
        ensures
            final(self).wf(),
            final(self).spec_count() == Some(c),
            final(self).spec_num_assets() == old(self).spec_num_assets(),
            assets_unchanged(*old(self), *final(self)),
            final(self).spec_ledger() == old(self).spec_ledger(),
            final(self).spec_events() == old(self).spec_events(),
            unchanged_env(*old(self), *final(self)),
    {
        proof {
            assert forall|i: int| 0 <= i < self.kitties@.len() implies self.kitties@[i].id
                < c by {
                lemma_k_find_present(self.kitties@, i);
                assert(self.spec_exists(self.kitties@[i].id));
            }
        }
        self.count = Some(c);
    }

    /// Overwrites the call-sequence discriminant, as the host does for each
    /// new call.
    pub fn set_call_index(&mut self, index: u64)
        requires
            old(self).wf(),
        ensures
            final(self).wf(),
            final(self).spec_call_index() == index,
            final(self).spec_count() == old(self).spec_count(),
            final(self).spec_num_assets() == old(self).spec_num_assets(),
            assets_unchanged(*old(self), *final(self)),
            final(self).spec_ledger() == old(self).spec_ledger(),
            final(self).spec_events() == old(self).spec_events(),
            final(self).spec_stake() == old(self).spec_stake(),
            final(self).spec_entropy() == old(self).spec_entropy(),
    {
        self.call_index = index;
    }

    /// Stores a fresh asset under `id` for `owner` and advances the
    /// counter to `id + 1`. No event and no ledger change.
    fn insert_kitty(&mut self, owner: u64, id: u32, kitty: Kitty)
        requires
            old(self).wf(),
            id == old(self).spec_next_id(),
            id != u32::MAX,
        ensures
            final(self).wf(),
            final(self).spec_count() == Some((id + 1) as u32),
            final(self).spec_num_assets() == old(self).spec_num_assets() + 1,
            final(self).spec_kitty(id) == Some(kitty),
            final(self).spec_owner(id) == Some(owner),
            final(self).spec_price(id) is None,
            others_unchanged(*old(self), *final(self), id),
            final(self).spec_ledger() == old(self).spec_ledger(),
            final(self).spec_events() == old(self).spec_events(),
            unchanged_env(*old(self), *final(self)),
    {
        let rec = KittyRecord { id, kitty, owner, price: None };
        proof {
            lemma_k_unique_push(self.kitties@, rec);
            assert forall|w: u32|
                k_find(self.kitties@.push(rec), w) == (if w == id {
                    Some(rec)
                } else {
                    k_find(self.kitties@, w)
                }) by {
                lemma_k_find_push(self.kitties@, rec, w);
            }
        }
        self.kitties.push(rec);
        self.count = Some(id + 1);
    }

    /// Overwrites one stored record in place; the id may not change.
    fn update_record(&mut self, i: usize, rec: KittyRecord)
        requires
            old(self).wf(),
            i < old(self).kitties@.len(),
            rec.id == old(self).kitties@[i as int].id,
        ensures
            final(self).wf(),
            final(self).spec_count() == old(self).spec_count(),
            final(self).spec_num_assets() == old(self).spec_num_assets(),
            final(self).spec_kitty(rec.id) == Some(rec.kitty),
            final(self).spec_owner(rec.id) == Some(rec.owner),
            final(self).spec_price(rec.id) == rec.price,
            others_unchanged(*old(self), *final(self), rec.id),
            final(self).spec_ledger() == old(self).spec_ledger(),
            final(self).spec_events() == old(self).spec_events(),
            unchanged_env(*old(self), *final(self)),
    {
        proof {
            lemma_k_unique_update(self.kitties@, i as int, rec);
            assert forall|w: u32|
                k_find(self.kitties@.update(i as int, rec), w) == (if w == rec.id {
                    Some(rec)
                } else {
                    k_find(self.kitties@, w)
                }) by {
                lemma_k_find_update(self.kitties@, i as int, rec, w);
            }
        }
        self.kitties[i] = rec;
    }

    /// Creates a fresh asset for `who`: allocates the next id, reserves the
    /// configured stake against the caller's balance, derives a genome, and
    /// stores the asset; a rejected call mutates nothing.
    pub fn create(&mut self, who: u64) -> (result: Result<u32, Error>)
        requires
            old(self).wf(),
        ensures
            final(self).wf(),
            match result {
                Ok(id) => create_err(*old(self), who) is None && create_post(
                    *old(self),
                    *final(self),
                    who,
                    id,
                ),
                Err(e) => Some(e) == create_err(*old(self), who) && *final(self) == *old(self),
            },
    {
        let id: u32 = match self.count {
            Some(c) => {
                if c == u32::MAX {
                    return Err(Error::CapacityExhausted);
                }
                c
            },
            None => 1,
        };
        if !self.ledger.reserve(who, self.stake) {
            return Err(Error::InsufficientFunds);
        }
        let ghost mid1 = *self;
        let dna = random::derive(&self.entropy, who, self.call_index);
        self.insert_kitty(who, id, Kitty(dna));
        let ghost mid2 = *self;
        self.events.push(Event::Created(who, id));
        proof {
            assert forall|j: u32|
                j != id implies self.spec_kitty(j) == old(self).spec_kitty(j) && self.spec_owner(j)
                == old(self).spec_owner(j) && self.spec_price(j) == old(self).spec_price(j) by {
                assert(mid2.spec_kitty(j) == mid1.spec_kitty(j));
                assert(mid2.spec_owner(j) == mid1.spec_owner(j));
                assert(mid2.spec_price(j) == mid1.spec_price(j));
            }
        }
        Ok(id)
    }

    /// Hands the asset to `new_owner`; only the current owner may call
    /// this, and a missing asset is rejected the same way.
    pub fn transfer(&mut self, who: u64, new_owner: u64, kitty_id: u32) -> (result: Result<
        (),
        Error,
    >)
        requires
            old(self).wf(),
        ensures
            final(self).wf(),
            match result {
                Ok(_) => transfer_err(*old(self), who, kitty_id) is None && transfer_post(
                    *old(self),
                    *final(self),
                    who,
                    new_owner,
                    kitty_id,
                ),
                Err(e) => Some(e) == transfer_err(*old(self), who, kitty_id) && *final(self)
                    == *old(self),
            },
    {
        let i = match self.find_kitty(kitty_id) {
            Some(i) => i,
            None => {
                proof {
                    lemma_k_find_absent(self.kitties@, kitty_id);
                }
                return Err(Error::NotOwner);
            },
        };
        proof {
            lemma_k_find_present(self.kitties@, i as int);
        }
        let rec = self.kitties[i];
        if rec.owner != who {
            return Err(Error::NotOwner);
        }
        self.update_record(
            i,
            KittyRecord { id: rec.id, kitty: rec.kitty, owner: new_owner, price: rec.price },
        );
        self.events.push(Event::Transferred(who, new_owner, kitty_id));
        Ok(())
    }

    /// Lists the asset at an ask price; re-listing overwrites any earlier
    /// price.
    pub fn sell_kitty(&mut self, who: u64, kitty_id: u32, kitty_price: u64) -> (result: Result<
        (),
        Error,
    >)
        requires
            old(self).wf(),
        ensures
            final(self).wf(),
            match result {
                Ok(_) => sell_err(*old(self), who, kitty_id) is None && sell_post(
                    *old(self),
                    *final(self),
                    who,
                    kitty_id,
                    kitty_price,
                ),
                Err(e) => Some(e) == sell_err(*old(self), who, kitty_id)
                    && *final(self) == *old(self),
            },
    {
        let i = match self.find_kitty(kitty_id) {
            Some(i) => i,
            None => {
                proof {
                    lemma_k_find_absent(self.kitties@, kitty_id);
                }
                return Err(Error::UnknownAsset);
            },
        };
        proof {
            lemma_k_find_present(self.kitties@, i as int);
        }
        let rec = self.kitties[i];
        if rec.owner != who {
            return Err(Error::NotOwner);
        }
        self.update_record(
            i,
            KittyRecord { id: rec.id, kitty: rec.kitty, owner: rec.owner, price: Some(kitty_price) },
        );
        self.events.push(Event::Listed(who, kitty_id, kitty_price));
        Ok(())
    }

    /// Buys a listed asset from its owner: settles the ask price from the
    /// buyer to the seller (keeping the buyer alive), releases the seller's
    /// creation stake, clears the listing and moves ownership, all as one
    /// commit; a rejected call mutates nothing.
    pub fn buy_kitty(&mut self, who: u64, kitty_id: u32, pay_value: u64) -> (result: Result<
        (),
        Error,
    >)
        requires
            old(self).wf(),
        ensures
            final(self).wf(),
            match result {
                Ok(_) => buy_err(*old(self), who, kitty_id, pay_value) is None && buy_post(
                    *old(self),
                    *final(self),
                    who,
                    kitty_id,
                ),
                Err(e) => Some(e) == buy_err(*old(self), who, kitty_id, pay_value) && *final(self)
                    == *old(self),
            },
    {
        let i = match self.find_kitty(kitty_id) {
            Some(i) => i,
            None => {
                proof {
                    lemma_k_find_absent(self.kitties@, kitty_id);
                }
                return Err(Error::UnknownAsset);
            },
        };
        proof {
            lemma_k_find_present(self.kitties@, i as int);
        }
        let rec = self.kitties[i];
        let owner = rec.owner;
        if owner == who {
            return Err(Error::BuyerIsOwner);
        }
        let kitty_price = match rec.price {
            Some(p) => p,
            None => {
                return Err(Error::NotListed);
            },
        };
        if pay_value < kitty_price {
            return Err(Error::InsufficientOffer);
        }
        if !self.ledger.transfer(who, owner, kitty_price, true) {
            return Err(Error::InsufficientFunds);
        }
        let ghost mid_t = *self;
        self.ledger.unreserve(owner, self.stake);
        let ghost mid_u = *self;
        self.update_record(
            i,
            KittyRecord { id: rec.id, kitty: rec.kitty, owner: who, price: None },
        );
        let ghost mid_r = *self;
        self.events.push(Event::Bought(who, kitty_id, kitty_price));
        proof {
            assert forall|j: u32|
                j != kitty_id implies self.spec_kitty(j) == old(self).spec_kitty(j)
                && self.spec_owner(j) == old(self).spec_owner(j) && self.spec_price(j) == old(
                self,
            ).spec_price(j) by {
                assert(mid_r.spec_kitty(j) == mid_u.spec_kitty(j));
                assert(mid_r.spec_owner(j) == mid_u.spec_owner(j));
                assert(mid_r.spec_price(j) == mid_u.spec_price(j));
            }
            assert(mid_u.spec_ledger().spec_free(who) == mid_t.spec_ledger().spec_free(who));
            assert(mid_u.spec_ledger().spec_reserved(who) == mid_t.spec_ledger().spec_reserved(
                who,
            ));
            assert(mid_u.spec_ledger().spec_free(owner) == mid_t.spec_ledger().spec_free(owner)
                + (if self.stake <= mid_t.spec_ledger().spec_reserved(owner) {
                self.stake
            } else {
                mid_t.spec_ledger().spec_reserved(owner)
            }));
            assert forall|a: u64|
                a != who && a != owner implies self.spec_ledger().spec_free(a) == old(
                self,
            ).spec_ledger().spec_free(a) && self.spec_ledger().spec_reserved(a) == old(
                self,
            ).spec_ledger().spec_reserved(a) by {
                assert(mid_t.spec_ledger().spec_free(a) == old(self).spec_ledger().spec_free(a));
                assert(mid_t.spec_ledger().spec_reserved(a) == old(
                    self,
                ).spec_ledger().spec_reserved(a));
                assert(mid_u.spec_ledger().spec_free(a) == mid_t.spec_ledger().spec_free(a));
                assert(mid_u.spec_ledger().spec_reserved(a) == mid_t.spec_ledger().spec_reserved(
                    a,
                ));
            }
        }
        Ok(())
    }

    /// Breeds a fresh asset from two distinct existing parents: each bit of
    /// the new genome is the first parent's where the derived selector bit
    /// is set, else the second parent's. No stake is reserved.
    pub fn breed(&mut self, who: u64, kitty_id_1: u32, kitty_id_2: u32) -> (result: Result<
        u32,
        Error,
    >)
        requires
            old(self).wf(),
        ensures
            final(self).wf(),
            match result {
                Ok(id) => breed_err(*old(self), who, kitty_id_1, kitty_id_2) is None && breed_post(
                    *old(self),
                    *final(self),
                    who,
                    kitty_id_1,
                    kitty_id_2,
                    id,
                ),
                Err(e) => Some(e) == breed_err(*old(self), who, kitty_id_1, kitty_id_2)
                    && *final(self) == *old(self),
            },
    {
        if kitty_id_1 == kitty_id_2 {
            return Err(Error::SameParent);
        }
        let kitty1 = match self.kitties(kitty_id_1) {
            Some(k) => k,
            None => {
                return Err(Error::UnknownAsset);
            },
        };
        let kitty2 = match self.kitties(kitty_id_2) {
            Some(k) => k,
            None => {
                return Err(Error::UnknownAsset);
            },
        };
        let id: u32 = match self.count {
            Some(c) => {
                if c == u32::MAX {
                    return Err(Error::CapacityExhausted);
                }
                c
            },
            None => 1,
        };
        let selector = random::derive(&self.entropy, who, self.call_index);
        let new_dna = mix_genomes(&selector, &kitty1.0, &kitty2.0);
        self.insert_kitty(who, id, Kitty(new_dna));
        self.events.push(Event::Created(who, id));
        Ok(id)
    }
}

proof fn lemma_k_find_is_entry(s: Seq<KittyRecord>, id: u32)
    requires
        k_find(s, id) is Some,
    ensures
        exists|i: int| 0 <= i < s.len() && s[i].id == id,
    decreases s.len(),
{
    if s[0].id == id {
        assert(0 <= 0 < s.len() && s[0].id == id);
    } else {
        lemma_k_find_is_entry(s.drop_first(), id);
        let i = choose|i: int| 0 <= i < s.drop_first().len() && s.drop_first()[i].id == id;
        assert(s[i + 1].id == id);
    }
}

/// Law: the id a successful `create` or `breed` returns — always the
/// pre-state's next id — never names an existing asset and is strictly
/// greater than every id allocated before.
pub proof fn lemma_new_id_fresh(pre: Pallet, id: u32)
    requires
        pre.wf(),
        id == pre.spec_next_id(),
    ensures
        !pre.spec_exists(id),
        forall|j: u32| pre.spec_exists(j) ==> j < id,
{
    assert forall|j: u32| pre.spec_exists(j) implies j < id by {
        lemma_k_find_is_entry(pre.kitties@, j);
    }
}

/// The counter is absent while no asset exists and reads one more than the
/// number of stored assets afterwards.
pub open spec fn counter_tracks_assets(p: Pallet) -> bool {
    &&& p.spec_num_assets() + 1 <= u32::MAX
    &&& p.spec_count() == (if p.spec_num_assets() == 0 {
        None::<u32>
    } else {
        Some((1 + p.spec_num_assets()) as u32)
    })
}

/// Law: a fresh registry satisfies `counter_tracks_assets`, and every
/// successful `create` or `breed` preserves it while adding exactly one
/// asset — so after N of them from an untouched registry the counter
/// reads 1 + N.
pub proof fn lemma_counter_tracks_creations(pre: Pallet, post: Pallet, who: u64, id: u32)
    requires
        counter_tracks_assets(pre),
        create_post(pre, post, who, id) || (exists|id1: u32, id2: u32|
            breed_post(pre, post, who, id1, id2, id)),
    ensures
        counter_tracks_assets(post),
        post.spec_num_assets() == pre.spec_num_assets() + 1,
{
}

/// Law: after an owner lists an asset and a different, sufficiently funded
/// account buys it at the ask price, the purchase is owed (no rejection is
/// possible), ownership moves to the buyer, the listing is gone, the
/// seller's creation stake is released, and the buyer pays exactly the
/// price.
pub proof fn lemma_list_then_buy(
    p0: Pallet,
    p1: Pallet,
    p2: Pallet,
    seller: u64,
    buyer: u64,
    kitty_id: u32,
    price: u64,
)
    requires
        sell_err(p0, seller, kitty_id) is None,
        sell_post(p0, p1, seller, kitty_id, price),
        buyer != seller,
        price <= p0.spec_ledger().spec_free(buyer),
        p0.spec_ledger().spec_free(buyer) - price >= p0.spec_ledger().spec_minimum(),
        p0.spec_stake() <= p0.spec_ledger().spec_reserved(seller),
        buy_post(p1, p2, buyer, kitty_id),
    ensures
        buy_err(p1, buyer, kitty_id, price) is None,
        p2.spec_owner(kitty_id) == Some(buyer),
        p2.spec_price(kitty_id) is None,
        p2.spec_ledger().spec_free(buyer) == p0.spec_ledger().spec_free(buyer) - price,
        p2.spec_ledger().spec_free(seller) == p0.spec_ledger().spec_free(seller) + price
            + p0.spec_stake(),
        p2.spec_ledger().spec_reserved(seller) == p0.spec_ledger().spec_reserved(seller)
            - p0.spec_stake(),
{
}

/// The configuration and host inputs an operation never touches.
pub open spec fn unchanged_env(pre: Pallet, post: Pallet) -> bool {
    &&& post.spec_stake() == pre.spec_stake()
    &&& post.spec_entropy() == pre.spec_entropy()
    &&& post.spec_call_index() == pre.spec_call_index()
}

/// Every asset other than `id` keeps its genome, owner and price.
pub open spec fn others_unchanged(pre: Pallet, post: Pallet, id: u32) -> bool {
    forall|j: u32|
        j != id ==> post.spec_kitty(j) == pre.spec_kitty(j) && post.spec_owner(j)
            == pre.spec_owner(j) && post.spec_price(j) == pre.spec_price(j)
}

/// Every asset keeps its genome, owner and price.
pub open spec fn assets_unchanged(pre: Pallet, post: Pallet) -> bool {
    forall|j: u32|
        post.spec_kitty(j) == pre.spec_kitty(j) && post.spec_owner(j) == pre.spec_owner(j)
            && post.spec_price(j) == pre.spec_price(j)
}

/// Why `create` would be rejected, if at all: counter exhaustion first,
/// then the caller's free balance against the stake.
pub open spec fn create_err(pre: Pallet, who: u64) -> Option<Error> {
    if pre.spec_next_id() == u32::MAX {
        Some(Error::CapacityExhausted)
    } else if pre.spec_ledger().spec_free(who) < pre.spec_stake() {
        Some(Error::InsufficientFunds)
    } else {
        None
    }
}

/// The genome a direct creation stores: the pseudo-random value derived
/// for this call.
pub open spec fn created_genome(pre: Pallet, who: u64) -> Seq<u8> {
    derive_spec(pre.spec_entropy(), who, pre.spec_call_index())
}

/// What a successful `create` by `who` did, relating the state before to
/// the state after.
pub open spec fn create_post(pre: Pallet, post: Pallet, who: u64, id: u32) -> bool {
    &&& id == pre.spec_next_id()
    &&& id != u32::MAX
    &&& post.spec_count() == Some((id + 1) as u32)
    &&& post.spec_num_assets() == pre.spec_num_assets() + 1
    &&& (match post.spec_kitty(id) {
        Some(k) => k.0@ == created_genome(pre, who),
        None => false,
    })
    &&& post.spec_owner(id) == Some(who)
    &&& post.spec_price(id) is None
    &&& others_unchanged(pre, post, id)
    &&& post.spec_ledger().spec_free(who) == pre.spec_ledger().spec_free(who) - pre.spec_stake()
    &&& post.spec_ledger().spec_reserved(who) == pre.spec_ledger().spec_reserved(who)
        + pre.spec_stake()
    &&& (forall|a: u64|
        a != who ==> post.spec_ledger().spec_free(a) == pre.spec_ledger().spec_free(a)
            && post.spec_ledger().spec_reserved(a) == pre.spec_ledger().spec_reserved(a))
    &&& post.spec_ledger().spec_minimum() == pre.spec_ledger().spec_minimum()
    &&& post.spec_ledger().spec_total() == pre.spec_ledger().spec_total()
    &&& post.spec_events() == pre.spec_events().push(Event::Created(who, id))
    &&& unchanged_env(pre, post)
}

/// Why `transfer` would be rejected: only the current owner may move an
/// asset, and a missing asset has no owner.
pub open spec fn transfer_err(pre: Pallet, who: u64, kitty_id: u32) -> Option<Error> {
    if pre.spec_owner(kitty_id) != Some(who) {
        Some(Error::NotOwner)
    } else {
        None
    }
}

/// What a successful `transfer` did: only the owner record changes; an
/// existing listing is not cleared, so the new owner inherits it.
pub open spec fn transfer_post(
    pre: Pallet,
    post: Pallet,
    who: u64,
    new_owner: u64,
    kitty_id: u32,
) -> bool {
    &&& post.spec_owner(kitty_id) == Some(new_owner)
    &&& post.spec_kitty(kitty_id) == pre.spec_kitty(kitty_id)
    &&& post.spec_price(kitty_id) == pre.spec_price(kitty_id)
    &&& others_unchanged(pre, post, kitty_id)
    &&& post.spec_count() == pre.spec_count()
    &&& post.spec_num_assets() == pre.spec_num_assets()
    &&& post.spec_ledger() == pre.spec_ledger()
    &&& post.spec_events() == pre.spec_events().push(
        Event::Transferred(who, new_owner, kitty_id),
    )
    &&& unchanged_env(pre, post)
}

/// Why `sell_kitty` would be rejected: the asset must exist and the caller
/// must own it.
pub open spec fn sell_err(pre: Pallet, who: u64, kitty_id: u32) -> Option<Error> {
    match pre.spec_owner(kitty_id) {
        None => Some(Error::UnknownAsset),
        Some(o) => if o != who {
            Some(Error::NotOwner)
        } else {
            None
        },
    }
}

/// What a successful `sell_kitty` did: the ask price is set, overwriting
/// any earlier listing.
pub open spec fn sell_post(pre: Pallet, post: Pallet, who: u64, kitty_id: u32, price: u64) -> bool {
    &&& post.spec_price(kitty_id) == Some(price)
    &&& post.spec_owner(kitty_id) == pre.spec_owner(kitty_id)
    &&& post.spec_kitty(kitty_id) == pre.spec_kitty(kitty_id)
    &&& others_unchanged(pre, post, kitty_id)
    &&& post.spec_count() == pre.spec_count()
    &&& post.spec_num_assets() == pre.spec_num_assets()
    &&& post.spec_ledger() == pre.spec_ledger()
    &&& post.spec_events() == pre.spec_events().push(Event::Listed(who, kitty_id, price))
    &&& unchanged_env(pre, post)
}

/// Why `buy_kitty` would be rejected, in the order the checks run: unknown
/// asset, self-purchase, no listing, an offer below the ask price, then
/// the settlement transfer (which must also keep the buyer alive).
pub open spec fn buy_err(pre: Pallet, who: u64, kitty_id: u32, pay_value: u64) -> Option<Error> {
    match pre.spec_owner(kitty_id) {
        None => Some(Error::UnknownAsset),
        Some(owner) => if owner == who {
            Some(Error::BuyerIsOwner)
        } else {
            match pre.spec_price(kitty_id) {
                None => Some(Error::NotListed),
                Some(price) => if pay_value < price {
                    Some(Error::InsufficientOffer)
                } else if !(price <= pre.spec_ledger().spec_free(who) && (price > 0
                    ==> pre.spec_ledger().spec_free(who) - price >= pre.spec_ledger().spec_minimum())) {
                    Some(Error::InsufficientFunds)
                } else {
                    None
                },
            }
        },
    }
}

/// What a successful `buy_kitty` did: the buyer pays exactly the ask
/// price to the seller, the seller's creation stake is released (clamped
/// to what is actually held), the listing is cleared and ownership moves,
/// all as one commit.
pub open spec fn buy_post(pre: Pallet, post: Pallet, who: u64, kitty_id: u32) -> bool {
    let seller = pre.spec_owner(kitty_id)->Some_0;
    let price = pre.spec_price(kitty_id)->Some_0;
    let released = if pre.spec_stake() <= pre.spec_ledger().spec_reserved(seller) {
        pre.spec_stake()
    } else {
        pre.spec_ledger().spec_reserved(seller)
    };
    &&& pre.spec_owner(kitty_id) is Some
    &&& pre.spec_price(kitty_id) is Some
    &&& seller != who
    &&& post.spec_owner(kitty_id) == Some(who)
    &&& post.spec_price(kitty_id) is None
    &&& post.spec_kitty(kitty_id) == pre.spec_kitty(kitty_id)
    &&& others_unchanged(pre, post, kitty_id)
    &&& post.spec_count() == pre.spec_count()
    &&& post.spec_num_assets() == pre.spec_num_assets()
    &&& post.spec_ledger().spec_free(who) == pre.spec_ledger().spec_free(who) - price
    &&& post.spec_ledger().spec_reserved(who) == pre.spec_ledger().spec_reserved(who)
    &&& post.spec_ledger().spec_free(seller) == pre.spec_ledger().spec_free(seller) + price
        + released
    &&& post.spec_ledger().spec_reserved(seller) == pre.spec_ledger().spec_reserved(seller)
        - released
    &&& (forall|a: u64|
        a != who && a != seller ==> post.spec_ledger().spec_free(a) == pre.spec_ledger().spec_free(
            a,
        ) && post.spec_ledger().spec_reserved(a) == pre.spec_ledger().spec_reserved(a))
    &&& post.spec_ledger().spec_minimum() == pre.spec_ledger().spec_minimum()
    &&& post.spec_ledger().spec_total() == pre.spec_ledger().spec_total()
    &&& post.spec_events() == pre.spec_events().push(Event::Bought(who, kitty_id, price))
    &&& unchanged_env(pre, post)
}

/// Why `breed` would be rejected, in the order the checks run: equal
/// parents first, then each parent's existence, then counter exhaustion.
pub open spec fn breed_err(pre: Pallet, who: u64, id1: u32, id2: u32) -> Option<Error> {
    if id1 == id2 {
        Some(Error::SameParent)
    } else if pre.spec_kitty(id1) is None || pre.spec_kitty(id2) is None {
        Some(Error::UnknownAsset)
    } else if pre.spec_next_id() == u32::MAX {
        Some(Error::CapacityExhausted)
    } else {
        None
    }
}

/// The genome a breeding stores: each byte mixes the two parents' bytes
/// under the derived selector, bit by bit.
pub open spec fn bred_genome(pre: Pallet, who: u64, id1: u32, id2: u32) -> Seq<u8> {
    mixed_genome(
        created_genome(pre, who),
        (pre.spec_kitty(id1)->Some_0).0@,
        (pre.spec_kitty(id2)->Some_0).0@,
    )
}

/// What a successful `breed` did: a fresh asset owned by the caller, with
/// the mixed genome; no stake is reserved for a bred asset, so the ledger
/// is untouched.
pub open spec fn breed_post(
    pre: Pallet,
    post: Pallet,
    who: u64,
    id1: u32,
    id2: u32,
    id: u32,
) -> bool {
    &&& id == pre.spec_next_id()
    &&& id != u32::MAX
    &&& post.spec_count() == Some((id + 1) as u32)
    &&& post.spec_num_assets() == pre.spec_num_assets() + 1
    &&& (match post.spec_kitty(id) {
        Some(k) => k.0@ == bred_genome(pre, who, id1, id2),
        None => false,
    })
    &&& post.spec_owner(id) == Some(who)
    &&& post.spec_price(id) is None
    &&& others_unchanged(pre, post, id)
    &&& post.spec_ledger() == pre.spec_ledger()
    &&& post.spec_events() == pre.spec_events().push(Event::Created(who, id))
    &&& unchanged_env(pre, post)
}

} // verus!
