use vstd::prelude::*;

verus! {

/// One account's balances: the spendable (free) part and the part held in
/// escrow (reserved) against created assets.
#[derive(Clone, Copy)]
pub struct AccountRecord {
    pub id: u64,
    pub free: u64,
    pub reserved: u64,
}

/// The balance ledger that the registry settles against. It keeps each
/// account's free and reserved amounts, the minimum balance that a
/// keep-alive transfer may not cross, and the ledger-wide total. The total
/// bounds every balance, so no settlement can overflow.
pub struct Ledger {
    accounts: Vec<AccountRecord>,
    minimum: u64,
    total: u64,
}

pub open spec fn unique_ids(s: Seq<AccountRecord>) -> bool {
    forall|i: int, j: int|
        0 <= i < s.len() && 0 <= j < s.len() && i != j ==> s[i].id != s[j].id
}

pub open spec fn seq_find(s: Seq<AccountRecord>, who: u64) -> Option<AccountRecord>
    decreases s.len(),
{
    if s.len() == 0 {
        None
    } else if s[0].id == who {
        Some(s[0])
    } else {
        seq_find(s.drop_first(), who)
    }
}

pub open spec fn seq_total(s: Seq<AccountRecord>) -> int
    decreases s.len(),
{
    if s.len() == 0 {
        0
    } else {
        s[0].free + s[0].reserved + seq_total(s.drop_first())
    }
}

proof fn lemma_total_nonneg(s: Seq<AccountRecord>)
    ensures
        seq_total(s) >= 0,
    decreases s.len(),
{
    if s.len() > 0 {
        lemma_total_nonneg(s.drop_first());
    }
}

proof fn lemma_entry_le_total(s: Seq<AccountRecord>, i: int)
    requires
        0 <= i < s.len(),
    ensures
        s[i].free + s[i].reserved <= seq_total(s),
    decreases s.len(),
{
    if i == 0 {
        lemma_total_nonneg(s.drop_first());
    } else {
        lemma_entry_le_total(s.drop_first(), i - 1);
        lemma_total_nonneg(s.drop_first());
    }
}

proof fn lemma_two_free_le_total(s: Seq<AccountRecord>, i: int, j: int)
    requires
        0 <= i < s.len(),
        0 <= j < s.len(),
        i != j,
    ensures
        s[i].free + s[j].free <= seq_total(s),
    decreases s.len(),
{
    if i == 0 {
        lemma_entry_le_total(s.drop_first(), j - 1);
    } else if j == 0 {
        lemma_entry_le_total(s.drop_first(), i - 1);
    } else {
        lemma_two_free_le_total(s.drop_first(), i - 1, j - 1);
    }
}

proof fn lemma_find_present(s: Seq<AccountRecord>, i: int)
    requires
        unique_ids(s),
        0 <= i < s.len(),
    ensures
        seq_find(s, s[i].id) == Some(s[i]),
    decreases s.len(),
{
    if i > 0 {
        assert(unique_ids(s.drop_first()));
        lemma_find_present(s.drop_first(), i - 1);
    }
}

proof fn lemma_find_absent(s: Seq<AccountRecord>, who: u64)
    requires
        forall|i: int| 0 <= i < s.len() ==> s[i].id != who,
    ensures
        seq_find(s, who) is None,
    decreases s.len(),
{
    if s.len() > 0 {
        lemma_find_absent(s.drop_first(), who);
    }
}

proof fn lemma_find_update(s: Seq<AccountRecord>, i: int, e: AccountRecord, w: u64)
    requires
        unique_ids(s),
        0 <= i < s.len(),
        e.id == s[i].id,
    ensures
        seq_find(s.update(i, e), w) == (if w == e.id {
            Some(e)
        } else {
            seq_find(s, w)
        }),
    decreases s.len(),
{
    let t = s.update(i, e);
    if i == 0 {
        if w != e.id {
            assert(t.drop_first() =~= s.drop_first());
        }
    } else {
        assert(t[0] == s[0]);
        assert(t.drop_first() =~= s.drop_first().update(i - 1, e));
        assert(unique_ids(s.drop_first()));
        lemma_find_update(s.drop_first(), i - 1, e, w);
    }
}

proof fn lemma_unique_update(s: Seq<AccountRecord>, i: int, e: AccountRecord)
    requires
        unique_ids(s),
        0 <= i < s.len(),
        e.id == s[i].id,
    ensures
        unique_ids(s.update(i, e)),
{
}

proof fn lemma_find_push(s: Seq<AccountRecord>, e: AccountRecord, w: u64)
    requires
        forall|i: int| 0 <= i < s.len() ==> s[i].id != e.id,
    ensures
        seq_find(s.push(e), w) == (if w == e.id {
            Some(e)
        } else {
            seq_find(s, w)
        }),
    decreases s.len(),
{
    let t = s.push(e);
    if s.len() == 0 {
        if w != e.id {
            assert(t.drop_first() =~= Seq::<AccountRecord>::empty());
        }
    } else {
        assert(t[0] == s[0]);
        assert(t.drop_first() =~= s.drop_first().push(e));
        lemma_find_push(s.drop_first(), e, w);
    }
}

proof fn lemma_unique_push(s: Seq<AccountRecord>, e: AccountRecord)
    requires
        unique_ids(s),
        forall|i: int| 0 <= i < s.len() ==> s[i].id != e.id,
    ensures
        unique_ids(s.push(e)),
{
}

proof fn lemma_total_update(s: Seq<AccountRecord>, i: int, e: AccountRecord)
    requires
        0 <= i < s.len(),
    ensures
        seq_total(s.update(i, e)) == seq_total(s) - s[i].free - s[i].reserved + e.free
            + e.reserved,
    decreases s.len(),
{
    let t = s.update(i, e);
    if i == 0 {
        assert(t.drop_first() =~= s.drop_first());
    } else {
        assert(t[0] == s[0]);
        assert(t.drop_first() =~= s.drop_first().update(i - 1, e));
        lemma_total_update(s.drop_first(), i - 1, e);
    }
}

proof fn lemma_total_push(s: Seq<AccountRecord>, e: AccountRecord)
    ensures
        seq_total(s.push(e)) == seq_total(s) + e.free + e.reserved,
    decreases s.len(),
{
    let t = s.push(e);
    if s.len() == 0 {
        assert(t[0] == e);
        assert(t.drop_first() =~= s);
    } else {
        assert(t[0] == s[0]);
        assert(t.drop_first() =~= s.drop_first().push(e));
        lemma_total_push(s.drop_first(), e);
    }
}

impl Ledger {
    /// The minimum balance a keep-alive transfer must leave behind.
    pub closed spec fn spec_minimum(&self) -> u64 {
        self.minimum
    }

    /// The sum of every account's free and reserved amounts.
    pub closed spec fn spec_total(&self) -> u64 {
        self.total
    }

    /// The spendable balance of `who`; zero for an unknown account.
    pub closed spec fn spec_free(&self, who: u64) -> u64 {
        match seq_find(self.accounts@, who) {
            Some(a) => a.free,
            None => 0,
        }
    }

    /// The escrowed balance of `who`; zero for an unknown account.
    pub closed spec fn spec_reserved(&self, who: u64) -> u64 {
        match seq_find(self.accounts@, who) {
            Some(a) => a.reserved,
            None => 0,
        }
    }

    /// Each account appears once, and the recorded total is the sum of all
    /// balances, so every balance fits in the total.
    pub closed spec fn wf(&self) -> bool {
        &&& unique_ids(self.accounts@)
        &&& seq_total(self.accounts@) == self.total as int
    }

    pub fn new(minimum: u64) -> (r: Ledger)
        ensures
            r.wf(),
            r.spec_minimum() == minimum,
            r.spec_total() == 0,
            forall|a: u64| r.spec_free(a) == 0 && r.spec_reserved(a) == 0,
    {
        let l = Ledger { accounts: Vec::new(), minimum, total: 0 };
        proof {
            assert(forall|a: u64| seq_find(l.accounts@, a) is None);
        }
        l
    }

    fn find(&self, who: u64) -> (r: Option<usize>)
        ensures
            match r {
                Some(i) => i < self.accounts@.len() && self.accounts@[i as int].id == who,
                None => forall|i: int| 0 <= i < self.accounts@.len() ==> self.accounts@[i].id != who,
            },
    {
        let mut i: usize = 0;
        while i < self.accounts.len()
            invariant
                i <= self.accounts@.len(),
                forall|j: int| 0 <= j < i ==> self.accounts@[j].id != who,
            decreases self.accounts@.len() - i,
        {
            if self.accounts[i].id == who {
                return Some(i);
            }
            i += 1;
        }
        None
    }

    pub fn free_balance(&self, who: u64) -> (r: u64)
        requires
            self.wf(),
        ensures
            r == self.spec_free(who),
    {
        match self.find(who) {
            Some(i) => {
                proof {
                    lemma_find_present(self.accounts@, i as int);
                }
                self.accounts[i].free
            },
            None => {
                proof {
                    lemma_find_absent(self.accounts@, who);
                }
                0
            },
        }
    }

    pub fn reserved_balance(&self, who: u64) -> (r: u64)
        requires
            self.wf(),
        ensures
            r == self.spec_reserved(who),
    {
        match self.find(who) {
            Some(i) => {
                proof {
                    lemma_find_present(self.accounts@, i as int);
                }
                self.accounts[i].reserved
            },
            None => {
                proof {
                    lemma_find_absent(self.accounts@, who);
                }
                0
            },
        }
    }

    /// Adds `amount` of new free balance to `who`; refused only where the
    /// ledger-wide total would no longer fit.
    pub fn deposit(&mut self, who: u64, amount: u64) -> (ok: bool)
        requires
            old(self).wf(),
        ensures
            final(self).wf(),
            final(self).spec_minimum() == old(self).spec_minimum(),
            ok <==> old(self).spec_total() + amount <= u64::MAX,
            ok ==> {
                &&& final(self).spec_total() == old(self).spec_total() + amount
                &&& final(self).spec_free(who) == old(self).spec_free(who) + amount
                &&& final(self).spec_reserved(who) == old(self).spec_reserved(who)
            },
            forall|a: u64|
                a != who ==> final(self).spec_free(a) == old(self).spec_free(a)
                    && final(self).spec_reserved(a) == old(self).spec_reserved(a),
            !ok ==> *final(self) == *old(self),
    {
        if amount > u64::MAX - self.total {
            return false;
        }
        match self.find(who) {
            Some(i) => {
                proof {
                    lemma_find_present(self.accounts@, i as int);
                    lemma_entry_le_total(self.accounts@, i as int);
                }
                let a = self.accounts[i];
                let e = AccountRecord { id: a.id, free: a.free + amount, reserved: a.reserved };
                proof {
                    lemma_unique_update(self.accounts@, i as int, e);
                    lemma_total_update(self.accounts@, i as int, e);
                    assert forall|w: u64|
                        seq_find(self.accounts@.update(i as int, e), w) == (if w == e.id {
                            Some(e)
                        } else {
                            seq_find(self.accounts@, w)
                        }) by {
                        lemma_find_update(self.accounts@, i as int, e, w);
                    }
                }
                self.accounts[i] = e;
                self.total = self.total + amount;
            },
            None => {
                proof {
                    lemma_find_absent(self.accounts@, who);
                }
                let e = AccountRecord { id: who, free: amount, reserved: 0 };
                proof {
                    lemma_unique_push(self.accounts@, e);
                    lemma_total_push(self.accounts@, e);
                    assert forall|w: u64|
                        seq_find(self.accounts@.push(e), w) == (if w == who {
                            Some(e)
                        } else {
                            seq_find(self.accounts@, w)
                        }) by {
                        lemma_find_push(self.accounts@, e, w);
                    }
                }
                self.accounts.push(e);
                self.total = self.total + amount;
            },
        }
        true
    }

    /// Moves `amount` of `who`'s free balance into escrow; fails exactly
    /// where the free balance is short.
    pub fn reserve(&mut self, who: u64, amount: u64) -> (ok: bool)
        requires
            old(self).wf(),
        ensures
            final(self).wf(),
            final(self).spec_minimum() == old(self).spec_minimum(),
            final(self).spec_total() == old(self).spec_total(),
            ok <==> amount <= old(self).spec_free(who),
            ok ==> {
                &&& final(self).spec_free(who) == old(self).spec_free(who) - amount
                &&& final(self).spec_reserved(who) == old(self).spec_reserved(who) + amount
            },
            forall|a: u64|
                a != who ==> final(self).spec_free(a) == old(self).spec_free(a)
                    && final(self).spec_reserved(a) == old(self).spec_reserved(a),
            !ok ==> *final(self) == *old(self),
    {
        match self.find(who) {
            Some(i) => {
                proof {
                    lemma_find_present(self.accounts@, i as int);
                    lemma_entry_le_total(self.accounts@, i as int);
                }
                let a = self.accounts[i];
                if amount > a.free {
                    return false;
                }
                let e = AccountRecord {
                    id: a.id,
                    free: a.free - amount,
                    reserved: a.reserved + amount,
                };
                proof {
                    lemma_unique_update(self.accounts@, i as int, e);
                    lemma_total_update(self.accounts@, i as int, e);
                    assert forall|w: u64|
                        seq_find(self.accounts@.update(i as int, e), w) == (if w == e.id {
                            Some(e)
                        } else {
                            seq_find(self.accounts@, w)
                        }) by {
                        lemma_find_update(self.accounts@, i as int, e, w);
                    }
                }
                self.accounts[i] = e;
                true
            },
            None => {
                proof {
                    lemma_find_absent(self.accounts@, who);
                }
                amount == 0
            },
        }
    }

    /// Releases up to `amount` from `who`'s escrow back into the free
    /// balance; releasing more than is held is clamped, never an error.
    pub fn unreserve(&mut self, who: u64, amount: u64)
        requires
            old(self).wf(),
        ensures
            final(self).wf(),
            final(self).spec_minimum() == old(self).spec_minimum(),
            final(self).spec_total() == old(self).spec_total(),
            final(self).spec_free(who) == old(self).spec_free(who) + (if amount
                <= old(self).spec_reserved(who) {
                amount
            } else {
                old(self).spec_reserved(who)
            }),
            final(self).spec_reserved(who) == old(self).spec_reserved(who) - (if amount
                <= old(self).spec_reserved(who) {
                amount
            } else {
                old(self).spec_reserved(who)
            }),
            forall|a: u64|
                a != who ==> final(self).spec_free(a) == old(self).spec_free(a)
                    && final(self).spec_reserved(a) == old(self).spec_reserved(a),
    {
        match self.find(who) {
            Some(i) => {
                proof {
                    lemma_find_present(self.accounts@, i as int);
                    lemma_entry_le_total(self.accounts@, i as int);
                }
                let a = self.accounts[i];
                let moved = if amount <= a.reserved {
                    amount
                } else {
                    a.reserved
                };
                let e = AccountRecord {
                    id: a.id,
                    free: a.free + moved,
                    reserved: a.reserved - moved,
                };
                proof {
                    lemma_unique_update(self.accounts@, i as int, e);
                    lemma_total_update(self.accounts@, i as int, e);
                    assert forall|w: u64|
                        seq_find(self.accounts@.update(i as int, e), w) == (if w == e.id {
                            Some(e)
                        } else {
                            seq_find(self.accounts@, w)
                        }) by {
                        lemma_find_update(self.accounts@, i as int, e, w);
                    }
                }
                self.accounts[i] = e;
            },
            None => {
                proof {
                    lemma_find_absent(self.accounts@, who);
                }
            },
        }
    }

    /// Moves `amount` of free balance from `from` to `to`; fails exactly
    /// where `from`'s free balance is short, or where `keep_alive` is set
    /// and taking the amount would sink the remainder below the minimum
    /// balance — moving nothing reduces nothing, so it cannot kill.
    pub fn transfer(&mut self, from: u64, to: u64, amount: u64, keep_alive: bool) -> (ok: bool)
        requires
            old(self).wf(),
        ensures
            final(self).wf(),
            final(self).spec_minimum() == old(self).spec_minimum(),
            final(self).spec_total() == old(self).spec_total(),
            ok <==> amount <= old(self).spec_free(from) && (keep_alive && amount > 0 ==> old(
                self,
            ).spec_free(from) - amount >= old(self).spec_minimum()),
            !ok ==> *final(self) == *old(self),
            ok && from == to ==> *final(self) == *old(self),
            ok && from != to ==> {
                &&& final(self).spec_free(from) == old(self).spec_free(from) - amount
                &&& final(self).spec_free(to) == old(self).spec_free(to) + amount
                &&& final(self).spec_reserved(from) == old(self).spec_reserved(from)
                &&& final(self).spec_reserved(to) == old(self).spec_reserved(to)
            },
            forall|a: u64|
                a != from && a != to ==> final(self).spec_free(a) == old(self).spec_free(a)
                    && final(self).spec_reserved(a) == old(self).spec_reserved(a),
    {
        let free_from = self.free_balance(from);
        let ok = amount <= free_from && (!keep_alive || amount == 0 || free_from - amount
            >= self.minimum);
        if !ok {
            return false;
        }
        if from == to || amount == 0 {
            return true;
        }
        let i = match self.find(from) {
            Some(i) => i,
            None => {
                // free(from) is zero, yet 0 < amount <= free(from)
                proof {
                    lemma_find_absent(self.accounts@, from);
                    assert(false);
                }
                return false;
            },
        };
        proof {
            lemma_find_present(self.accounts@, i as int);
        }
        let a = self.accounts[i];
        let e = AccountRecord { id: a.id, free: a.free - amount, reserved: a.reserved };
        proof {
            lemma_unique_update(self.accounts@, i as int, e);
            lemma_total_update(self.accounts@, i as int, e);
            assert forall|w: u64|
                seq_find(self.accounts@.update(i as int, e), w) == (if w == e.id {
                    Some(e)
                } else {
                    seq_find(self.accounts@, w)
                }) by {
                lemma_find_update(self.accounts@, i as int, e, w);
            }
        }
        let ghost mid = self.accounts@.update(i as int, e);
        self.accounts[i] = e;
        match self.find(to) {
            Some(j) => {
                proof {
                    lemma_find_present(self.accounts@, j as int);
                    // the recipient's new balance fits: both old balances
                    // together are bounded by the ledger total
                    lemma_two_free_le_total(old(self).accounts@, i as int, j as int);
                    assert(old(self).accounts@[j as int].free + amount <= u64::MAX);
                }
                let b = self.accounts[j];
                let f = AccountRecord { id: b.id, free: b.free + amount, reserved: b.reserved };
                proof {
                    lemma_unique_update(self.accounts@, j as int, f);
                    lemma_total_update(self.accounts@, j as int, f);
                    assert forall|w: u64|
                        seq_find(self.accounts@.update(j as int, f), w) == (if w == f.id {
                            Some(f)
                        } else {
                            seq_find(self.accounts@, w)
                        }) by {
                        lemma_find_update(self.accounts@, j as int, f, w);
                    }
                }
                self.accounts[j] = f;
            },
            None => {
                proof {
                    lemma_find_absent(self.accounts@, to);
                }
                let f = AccountRecord { id: to, free: amount, reserved: 0 };
                proof {
                    lemma_unique_push(self.accounts@, f);
                    lemma_total_push(self.accounts@, f);
                    assert forall|w: u64|
                        seq_find(self.accounts@.push(f), w) == (if w == to {
                            Some(f)
                        } else {
                            seq_find(self.accounts@, w)
                        }) by {
                        lemma_find_push(self.accounts@, f, w);
                    }
                }
                self.accounts.push(f);
            },
        }
        true
    }
}

} // verus!
