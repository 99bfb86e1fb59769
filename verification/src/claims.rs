use vstd::prelude::*;

verus! {

/// The claim registry's configuration: the longest key a claim may use,
/// in bytes.
#[derive(Clone, Copy)]
pub struct Config {
    pub max_claim_size: usize,
}

/// The one event a successful claim operation emits.
#[derive(Clone, PartialEq, Eq, Debug)]
pub enum Event {
    /// ClaimCreated(owner, key).
    ClaimCreated(u64, Vec<u8>),
    /// ClaimRevoked(owner, key).
    ClaimRevoked(u64, Vec<u8>),
    /// ClaimTransferred(old owner, key, new owner).
    ClaimTransferred(u64, Vec<u8>, u64),
}

/// Why a claim operation was rejected; each variant maps to exactly one
/// condition, and a rejected call mutates nothing.
#[derive(Clone, Copy, PartialEq, Eq, Debug)]
pub enum Error {
    /// The key already has an active record.
    AlreadyExists,
    /// The key has no active record.
    NotFound,
    /// The caller is not the recorded owner.
    NotOwner,
    /// The key is longer than the configured maximum.
    KeyTooLarge,
}

/// One active claim: its content key, the owner, and the block height it
/// was recorded at.
struct ClaimRecord {
    key: Vec<u8>,
    owner: u64,
    block: u64,
}

spec fn c_unique(s: Seq<ClaimRecord>) -> bool {
    forall|i: int, j: int|
        0 <= i < s.len() && 0 <= j < s.len() && i != j ==> s[i].key@ != s[j].key@
}

spec fn c_find(s: Seq<ClaimRecord>, k: Seq<u8>) -> Option<(u64, u64)>
    decreases s.len(),
{
    if s.len() == 0 {
        None
    } else if s[0].key@ == k {
        Some((s[0].owner, s[0].block))
    } else {
        c_find(s.drop_first(), k)
    }
}

proof fn lemma_c_find_present(s: Seq<ClaimRecord>, i: int)
    requires
        c_unique(s),
        0 <= i < s.len(),
    ensures
        c_find(s, s[i].key@) == Some((s[i].owner, s[i].block)),
    decreases s.len(),
{
    if i > 0 {
        assert(c_unique(s.drop_first()));
        lemma_c_find_present(s.drop_first(), i - 1);
    }
}

proof fn lemma_c_find_absent(s: Seq<ClaimRecord>, k: Seq<u8>)
    requires
        forall|i: int| 0 <= i < s.len() ==> s[i].key@ != k,
    ensures
        c_find(s, k) is None,
    decreases s.len(),
{
    if s.len() > 0 {
        lemma_c_find_absent(s.drop_first(), k);
    }
}

proof fn lemma_c_find_is_entry(s: Seq<ClaimRecord>, k: Seq<u8>)
    requires
        c_find(s, k) is Some,
    ensures
        exists|i: int| 0 <= i < s.len() && s[i].key@ == k,
    decreases s.len(),
{
    if s[0].key@ == k {
        assert(0 <= 0 < s.len() && s[0].key@ == k);
    } else {
        lemma_c_find_is_entry(s.drop_first(), k);
        let i = choose|i: int| 0 <= i < s.drop_first().len() && s.drop_first()[i].key@ == k;
        assert(s[i + 1].key@ == k);
    }
}

proof fn lemma_c_find_update(s: Seq<ClaimRecord>, i: int, e: ClaimRecord, w: Seq<u8>)
    requires
        c_unique(s),
        0 <= i < s.len(),
        e.key@ == s[i].key@,
    ensures
        c_find(s.update(i, e), w) == (if w == e.key@ {
            Some((e.owner, e.block))
        } else {
            c_find(s, w)
        }),
        c_unique(s.update(i, e)),
    decreases s.len(),
{
    let t = s.update(i, e);
    if i == 0 {
        if w != e.key@ {
            assert(t.drop_first() =~= s.drop_first());
        }
    } else {
        assert(t[0] == s[0]);
        assert(t.drop_first() =~= s.drop_first().update(i - 1, e));
        assert(c_unique(s.drop_first()));
        lemma_c_find_update(s.drop_first(), i - 1, e, w);
    }
}

proof fn lemma_c_find_push(s: Seq<ClaimRecord>, e: ClaimRecord, w: Seq<u8>)
    requires
        c_unique(s),
        forall|i: int| 0 <= i < s.len() ==> s[i].key@ != e.key@,
    ensures
        c_find(s.push(e), w) == (if w == e.key@ {
            Some((e.owner, e.block))
        } else {
            c_find(s, w)
        }),
        c_unique(s.push(e)),
    decreases s.len(),
{
    let t = s.push(e);
    if s.len() == 0 {
        assert(t[0] == e);
        if w != e.key@ {
            assert(t.drop_first() =~= s);
        }
    } else {
        assert(t[0] == s[0]);
        assert(t.drop_first() =~= s.drop_first().push(e));
        assert(c_unique(s.drop_first()));
        lemma_c_find_push(s.drop_first(), e, w);
    }
}

proof fn lemma_c_find_remove(s: Seq<ClaimRecord>, i: int, w: Seq<u8>)
    requires
        c_unique(s),
        0 <= i < s.len(),
    ensures
        c_find(s.remove(i), w) == (if w == s[i].key@ {
            None::<(u64, u64)>
        } else {
            c_find(s, w)
        }),
        c_unique(s.remove(i)),
    decreases s.len(),
{
    let t = s.remove(i);
    if i == 0 {
        assert(t =~= s.drop_first());
        if w == s[0].key@ {
            lemma_c_find_absent(s.drop_first(), w);
        }
    } else {
        assert(t[0] == s[0]);
        assert(t.drop_first() =~= s.drop_first().remove(i - 1));
        assert(c_unique(s.drop_first()));
        lemma_c_find_remove(s.drop_first(), i - 1, w);
    }
}

/// The claim registry: the active records, the configured key bound, the
/// current block height the host reports, and the log of emitted events.
pub struct Pallet {
    claims: Vec<ClaimRecord>,
    max_claim_size: usize,
    block_number: u64,
    events: Vec<Event>,
}

impl Pallet {
    /// The record under a key: the owner and the block height it was
    /// stored at. Absence means no active claim.
    pub closed spec fn spec_claim(&self, k: Seq<u8>) -> Option<(u64, u64)> {
        c_find(self.claims@, k)
    }

    /// The configured bound on key length.
    pub closed spec fn spec_max_claim_size(&self) -> usize {
        self.max_claim_size
    }

    /// The block height stamped into new records.
    pub closed spec fn spec_block_number(&self) -> u64 {
        self.block_number
    }

    /// Every event emitted so far, oldest first.
    pub closed spec fn spec_events(&self) -> Seq<Event> {
        self.events@
    }

    /// How many claims are active.
    pub closed spec fn spec_num_claims(&self) -> nat {
        self.claims@.len()
    }

    /// Each key maps to at most one record, and no stored key exceeds the
    /// configured bound.
    pub closed spec fn wf(&self) -> bool {
        &&& c_unique(self.claims@)
        &&& forall|i: int|
            0 <= i < self.claims@.len() ==> self.claims@[i].key@.len() <= self.max_claim_size
    }

    pub fn new(config: Config, block_number: u64) -> (r: Pallet)
        ensures
            r.wf(),
            forall|k: Seq<u8>| r.spec_claim(k) is None,
            r.spec_max_claim_size() == config.max_claim_size,
            r.spec_block_number() == block_number,
            r.spec_events() == Seq::<Event>::empty(),
            r.spec_num_claims() == 0,
    {
        let r = Pallet {
            claims: Vec::new(),
            max_claim_size: config.max_claim_size,
            block_number,
            events: Vec::new(),
        };
        proof {
            assert(forall|k: Seq<u8>| c_find(r.claims@, k) is None);
            assert(r.events@ =~= Seq::<Event>::empty());
        }
        r
    }

    fn find_claim(&self, key: &Vec<u8>) -> (r: Option<usize>)
        ensures
            match r {
                Some(i) => i < self.claims@.len() && self.claims@[i as int].key@ == key@,
                None => forall|i: int| 0 <= i < self.claims@.len() ==> self.claims@[i].key@ != key@,
            },
    {
        let mut i: usize = 0;
        while i < self.claims.len()
            invariant
                i <= self.claims@.len(),
                forall|j: int| 0 <= j < i ==> self.claims@[j].key@ != key@,
            decreases self.claims@.len() - i,
        {
            if keys_equal(&self.claims[i].key, key) {
                return Some(i);
            }
            i += 1;
        }
        None
    }

    /// The record under `key`: the owner and the block height it was
    /// stored at.
    pub fn proofs(&self, key: &Vec<u8>) -> (r: Option<(u64, u64)>)
        requires
            self.wf(),
        ensures
            r == self.spec_claim(key@),
    {
        match self.find_claim(key) {
            Some(i) => {
                proof {
                    lemma_c_find_present(self.claims@, i as int);
                }
                Some((self.claims[i].owner, self.claims[i].block))
            },
            None => {
                proof {
                    lemma_c_find_absent(self.claims@, key@);
                }
                None
            },
        }
    }

    /// The events emitted so far, oldest first.
    pub fn events(&self) -> (r: &Vec<Event>)
        ensures
            r@ == self.spec_events(),
    {
        &self.events
    }

    /// Overwrites the block height, as the host does when a block begins.
    pub fn set_block_number(&mut self, block_number: u64)
        requires
            old(self).wf(),
        ensures
            final(self).wf(),
            final(self).spec_block_number() == block_number,
            forall|k: Seq<u8>| final(self).spec_claim(k) == old(self).spec_claim(k),
            final(self).spec_events() == old(self).spec_events(),
            final(self).spec_max_claim_size() == old(self).spec_max_claim_size(),
            final(self).spec_num_claims() == old(self).spec_num_claims(),
    {
        self.block_number = block_number;
    }
}

fn keys_equal(a: &Vec<u8>, b: &Vec<u8>) -> (r: bool)
    ensures
        r <==> a@ == b@,
{
    let r = *a == *b;
    proof {
        if r {
            assert(a@ =~= b@);
        }
    }
    r
}

fn copy_bytes(src: &Vec<u8>) -> (r: Vec<u8>)
    ensures
        r@ == src@,
{
    let mut r: Vec<u8> = Vec::new();
    let mut i: usize = 0;
    while i < src.len()
        invariant
            i <= src@.len(),
            r@ == src@.subrange(0, i as int),
        decreases src@.len() - i,
    {
        r.push(src[i]);
        proof {
            assert(r@ =~= src@.subrange(0, i + 1));
        }
        i += 1;
    }
    proof {
        assert(r@ =~= src@);
    }
    r
}

/// Why `create_claim` would be rejected, in the order the checks run: an
/// existing record first, then the key bound.
pub open spec fn create_claim_err(pre: Pallet, key: Seq<u8>) -> Option<Error> {
    if pre.spec_claim(key) is Some {
        Some(Error::AlreadyExists)
    } else if key.len() > pre.spec_max_claim_size() {
        Some(Error::KeyTooLarge)
    } else {
        None
    }
}

/// Every claim under another key keeps its record.
pub open spec fn other_claims_unchanged(pre: Pallet, post: Pallet, key: Seq<u8>) -> bool {
    forall|k: Seq<u8>| k != key ==> post.spec_claim(k) == pre.spec_claim(k)
}

/// The configuration and block height an operation never touches.
pub open spec fn unchanged_claim_env(pre: Pallet, post: Pallet) -> bool {
    &&& post.spec_max_claim_size() == pre.spec_max_claim_size()
    &&& post.spec_block_number() == pre.spec_block_number()
}

/// What a successful `create_claim` did: the key now maps to the caller
/// and the current block height.
pub open spec fn create_claim_post(pre: Pallet, post: Pallet, who: u64, key: Vec<u8>) -> bool {
    &&& post.spec_claim(key@) == Some((who, pre.spec_block_number()))
    &&& other_claims_unchanged(pre, post, key@)
    &&& post.spec_num_claims() == pre.spec_num_claims() + 1
    &&& post.spec_events() == pre.spec_events().push(Event::ClaimCreated(who, key))
    &&& unchanged_claim_env(pre, post)
}

/// Why `revoke_claim` or `transfer_claim` would be rejected: the record
/// must exist and the caller must be its owner.
pub open spec fn claim_owner_err(pre: Pallet, who: u64, key: Seq<u8>) -> Option<Error> {
    match pre.spec_claim(key) {
        None => Some(Error::NotFound),
        Some((owner, _)) => if owner != who {
            Some(Error::NotOwner)
        } else {
            None
        },
    }
}

/// What a successful `revoke_claim` did: no record is left under the key.
pub open spec fn revoke_claim_post(pre: Pallet, post: Pallet, who: u64, key: Vec<u8>) -> bool {
    &&& post.spec_claim(key@) is None
    &&& other_claims_unchanged(pre, post, key@)
    &&& post.spec_num_claims() + 1 == pre.spec_num_claims()
    &&& post.spec_events() == pre.spec_events().push(Event::ClaimRevoked(who, key))
    &&& unchanged_claim_env(pre, post)
}

/// What a successful `transfer_claim` did: the record is overwritten with
/// the receiver and the current block height.
pub open spec fn transfer_claim_post(
    pre: Pallet,
    post: Pallet,
    who: u64,
    key: Vec<u8>,
    receiver: u64,
) -> bool {
    &&& post.spec_claim(key@) == Some((receiver, pre.spec_block_number()))
    &&& other_claims_unchanged(pre, post, key@)
    &&& post.spec_num_claims() == pre.spec_num_claims()
    &&& post.spec_events() == pre.spec_events().push(Event::ClaimTransferred(who, key, receiver))
    &&& unchanged_claim_env(pre, post)
}

impl Pallet {
    /// Records `key` for `who` at the current block height; rejected where
    /// the key already has a record or exceeds the configured bound, and a
    /// rejected call mutates nothing.
    pub fn create_claim(&mut self, who: u64, key: Vec<u8>) -> (result: Result<(), Error>)
        requires
            old(self).wf(),
        ensures
            final(self).wf(),
            match result {
                Ok(_) => create_claim_err(*old(self), key@) is None && create_claim_post(
                    *old(self),
                    *final(self),
                    who,
                    key,
                ),
                Err(e) => Some(e) == create_claim_err(*old(self), key@) && *final(self) == *old(
                    self,
                ),
            },
    {
        match self.find_claim(&key) {
            Some(i) => {
                proof {
                    lemma_c_find_present(self.claims@, i as int);
                }
                return Err(Error::AlreadyExists);
            },
            None => {
                proof {
                    lemma_c_find_absent(self.claims@, key@);
                }
            },
        }
        if key.len() > self.max_claim_size {
            return Err(Error::KeyTooLarge);
        }
        let rec = ClaimRecord { key: copy_bytes(&key), owner: who, block: self.block_number };
        proof {
            assert forall|w: Seq<u8>|
                c_find(self.claims@.push(rec), w) == (if w == key@ {
                    Some((who, self.block_number))
                } else {
                    c_find(self.claims@, w)
                }) by {
                lemma_c_find_push(self.claims@, rec, w);
            }
        }
        self.claims.push(rec);
        self.events.push(Event::ClaimCreated(who, key));
        Ok(())
    }

    /// Removes the record under `key`; only its owner may, and a missing
    /// record is `NotFound`.
    pub fn revoke_claim(&mut self, who: u64, key: Vec<u8>) -> (result: Result<(), Error>)
        requires
            old(self).wf(),
        ensures
            final(self).wf(),
            match result {
                Ok(_) => claim_owner_err(*old(self), who, key@) is None && revoke_claim_post(
                    *old(self),
                    *final(self),
                    who,
                    key,
                ),
                Err(e) => Some(e) == claim_owner_err(*old(self), who, key@) && *final(self)
                    == *old(self),
            },
    {
        let i = match self.find_claim(&key) {
            Some(i) => i,
            None => {
                proof {
                    lemma_c_find_absent(self.claims@, key@);
                }
                return Err(Error::NotFound);
            },
        };
        proof {
            lemma_c_find_present(self.claims@, i as int);
        }
        if self.claims[i].owner != who {
            return Err(Error::NotOwner);
        }
        proof {
            assert forall|w: Seq<u8>|
                c_find(self.claims@.remove(i as int), w) == (if w == key@ {
                    None::<(u64, u64)>
                } else {
                    c_find(self.claims@, w)
                }) by {
                lemma_c_find_remove(self.claims@, i as int, w);
            }
        }
        let _ = self.claims.remove(i);
        self.events.push(Event::ClaimRevoked(who, key));
        Ok(())
    }

    /// Reassigns the record under `key` to `receiver`, stamped with the
    /// current block height; only the owner may, as in `revoke_claim`.
    pub fn transfer_claim(&mut self, who: u64, key: Vec<u8>, receiver: u64) -> (result: Result<
        (),
        Error,
    >)
        requires
            old(self).wf(),
        ensures
            final(self).wf(),
            match result {
                Ok(_) => claim_owner_err(*old(self), who, key@) is None && transfer_claim_post(
                    *old(self),
                    *final(self),
                    who,
                    key,
                    receiver,
                ),
                Err(e) => Some(e) == claim_owner_err(*old(self), who, key@) && *final(self)
                    == *old(self),
            },
    {
        let i = match self.find_claim(&key) {
            Some(i) => i,
            None => {
                proof {
                    lemma_c_find_absent(self.claims@, key@);
                }
                return Err(Error::NotFound);
            },
        };
        proof {
            lemma_c_find_present(self.claims@, i as int);
        }
        if self.claims[i].owner != who {
            return Err(Error::NotOwner);
        }
        let rec = ClaimRecord { key: copy_bytes(&key), owner: receiver, block: self.block_number };
        proof {
            assert forall|w: Seq<u8>|
                c_find(self.claims@.update(i as int, rec), w) == (if w == key@ {
                    Some((receiver, self.block_number))
                } else {
                    c_find(self.claims@, w)
                }) by {
                lemma_c_find_update(self.claims@, i as int, rec, w);
            }
        }
        self.claims[i] = rec;
        self.events.push(Event::ClaimTransferred(who, key, receiver));
        Ok(())
    }
}

/// Law: creating a claim and then revoking it leaves no record under the
/// key; the revocation is owed to the creator, and afterwards an identical
/// creation is owed again — the key is reusable.
pub proof fn lemma_claim_round_trip(p0: Pallet, p1: Pallet, p2: Pallet, who: u64, key: Vec<u8>)
    requires
        create_claim_err(p0, key@) is None,
        create_claim_post(p0, p1, who, key),
        revoke_claim_post(p1, p2, who, key),
    ensures
        claim_owner_err(p1, who, key@) is None,
        p2.spec_claim(key@) is None,
        create_claim_err(p2, key@) is None,
{
}

/// Law: a key longer than the configured bound is always rejected as too
/// large — a well-formed registry holds no record under such a key, so no
/// other rejection can come first — and nothing is stored.
pub proof fn lemma_large_key_always_rejected(p: Pallet, key: Seq<u8>)
    requires
        p.wf(),
        key.len() > p.spec_max_claim_size(),
    ensures
        create_claim_err(p, key) == Some(Error::KeyTooLarge),
{
    if p.spec_claim(key) is Some {
        lemma_c_find_is_entry(p.claims@, key);
    }
}

} // verus!
