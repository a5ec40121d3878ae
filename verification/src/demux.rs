//! Message demultiplexer: routes each message of a polled batch to the
//! sink of a registered client or to that client's holding queue, keeps the
//! resume nonce up to date, and drains holding queues once their client
//! registers. Delivery itself happens outside this crate; the functions here
//! return the deliveries to perform, in order.

use vstd::prelude::*;

use crate::poller::{IcWsConnectionUpdate, IcWsConnectionUpdateV};
use crate::types::{
    CanisterToClientMessage, CanisterToClientMessageV, ClientPrincipal, clone_bytes,
};

verus! {

/// The set of clients whose sinks the poller holds, as the sequence of their
/// principals in registration order.
pub struct ClientRegistry {
    items: Vec<ClientPrincipal>,
}

/// The per-client holding queues: one entry per principal the poller has
/// messages for but no sink yet.
pub struct HoldingQueues {
    items: Vec<(ClientPrincipal, Vec<CanisterToClientMessage>)>,
}

/// One queue entry at the specification level.
pub type QueueEntryV = (Seq<u8>, Seq<CanisterToClientMessageV>);

impl View for ClientRegistry {
    type V = Seq<Seq<u8>>;

    closed spec fn view(&self) -> Seq<Seq<u8>> {
        self.items@.map_values(|p: ClientPrincipal| p@)
    }
}

/// The view of a list of queue entries.
spec fn entries_view(items: Seq<(ClientPrincipal, Vec<CanisterToClientMessage>)>) -> Seq<
    QueueEntryV,
> {
    items.map_values(
        |e: (ClientPrincipal, Vec<CanisterToClientMessage>)|
            (e.0@, e.1@.map_values(|m: CanisterToClientMessage| m@)),
    )
}

impl View for HoldingQueues {
    type V = Seq<QueueEntryV>;

    closed spec fn view(&self) -> Seq<QueueEntryV> {
        entries_view(self.items@)
    }
}

/// No principal occurs twice.
pub open spec fn reg_wf(r: Seq<Seq<u8>>) -> bool {
    forall|i: int, j: int| 0 <= i < j < r.len() ==> r[i] != r[j]
}

/// No queue key occurs twice.
pub open spec fn q_wf(qs: Seq<QueueEntryV>) -> bool {
    forall|i: int, j: int| 0 <= i < j < qs.len() ==> qs[i].0 != qs[j].0
}

/// Registration: appends the principal unless it is already present.
pub open spec fn r_insert(r: Seq<Seq<u8>>, p: Seq<u8>) -> Seq<Seq<u8>> {
    if r.contains(p) {
        r
    } else {
        r.push(p)
    }
}

/// Removal of the first occurrence of a principal.
pub open spec fn r_remove(r: Seq<Seq<u8>>, p: Seq<u8>) -> Seq<Seq<u8>>
    decreases r.len(),
{
    if r.len() == 0 {
        r
    } else if r.first() == p {
        r.drop_first()
    } else {
        seq![r.first()] + r_remove(r.drop_first(), p)
    }
}

/// The queue stored for a principal, if any.
pub open spec fn q_get(qs: Seq<QueueEntryV>, p: Seq<u8>) -> Option<Seq<CanisterToClientMessageV>>
    decreases qs.len(),
{
    if qs.len() == 0 {
        None
    } else if qs.first().0 == p {
        Some(qs.first().1)
    } else {
        q_get(qs.drop_first(), p)
    }
}

/// Appends a message to a principal's queue, creating the queue on its
/// first message.
pub open spec fn q_append(qs: Seq<QueueEntryV>, p: Seq<u8>, m: CanisterToClientMessageV) -> Seq<
    QueueEntryV,
>
    decreases qs.len(),
{
    if qs.len() == 0 {
        seq![(p, seq![m])]
    } else if qs.first().0 == p {
        seq![(p, qs.first().1.push(m))] + qs.drop_first()
    } else {
        seq![qs.first()] + q_append(qs.drop_first(), p, m)
    }
}

/// Removal of a principal's queue entry, if any.
pub open spec fn q_remove(qs: Seq<QueueEntryV>, p: Seq<u8>) -> Seq<QueueEntryV>
    decreases qs.len(),
{
    if qs.len() == 0 {
        qs
    } else if qs.first().0 == p {
        qs.drop_first()
    } else {
        seq![qs.first()] + q_remove(qs.drop_first(), p)
    }
}

impl ClientRegistry {
    pub fn new() -> (r: Self)
        ensures
            r@ == Seq::<Seq<u8>>::empty(),
    {
        let r = ClientRegistry { items: Vec::new() };
        proof {
            assert(r@ =~~= Seq::<Seq<u8>>::empty());
        }
        r
    }

    pub fn len(&self) -> (n: usize)
        ensures
            n == self@.len(),
    {
        self.items.len()
    }

    pub fn is_empty(&self) -> (r: bool)
        ensures
            r == (self@.len() == 0),
    {
        self.items.len() == 0
    }

    /// The principal registered at position `i`.
    pub fn get(&self, i: usize) -> (p: &ClientPrincipal)
        requires
            i < self@.len(),
        ensures
            p@ == self@[i as int],
    {
        &self.items[i]
    }

    pub fn contains(&self, p: &ClientPrincipal) -> (r: bool)
        ensures
            r == self@.contains(p@),
    {
        let mut i: usize = 0;
        while i < self.items.len()
            invariant
                i <= self@.len(),
                self@.len() == self.items@.len(),
                forall|j: int| 0 <= j < i ==> self@[j] != p@,
            decreases self@.len() - i,
        {
            if self.items[i].eq(p) {
                proof {
                    assert(self@[i as int] == p@);
                }
                return true;
            }
            i += 1;
        }
        proof {
            assert(forall|j: int| 0 <= j < self@.len() ==> self@[j] != p@);
        }
        false
    }

    /// Registers a principal; present principals are left as they are.
    pub fn insert(&mut self, p: ClientPrincipal)
        ensures
            final(self)@ == r_insert(old(self)@, p@),
    {
        if !self.contains(&p) {
            let ghost prev = self@;
            self.items.push(p);
            proof {
                assert(self@ =~~= prev.push(p@));
            }
        }
    }

    /// Removes the first occurrence of a principal, if any.
    pub fn remove(&mut self, p: &ClientPrincipal)
        ensures
            final(self)@ == r_remove(old(self)@, p@),
    {
        let mut i: usize = 0;
        while i < self.items.len()
            invariant
                i <= self@.len(),
                self@.len() == self.items@.len(),
                self.items@ == old(self).items@,
                forall|j: int| 0 <= j < i ==> self@[j] != p@,
            decreases self@.len() - i,
        {
            if self.items[i].eq(p) {
                let ghost prev = self@;
                proof {
                    assert(prev[i as int] == p@);
                }
                self.items.remove(i);
                proof {
                    assert(self@ =~~= prev.subrange(0, i as int) + prev.subrange(
                        i + 1,
                        prev.len() as int,
                    ));
                    lemma_r_remove_at(prev, p@, i as int);
                }
                return ;
            }
            i += 1;
        }
        proof {
            lemma_r_remove_absent(self@, p@);
        }
    }
}

/// Where the first occurrence of `p` in `r` stands at `i`, removal drops
/// exactly that position.
proof fn lemma_r_remove_at(r: Seq<Seq<u8>>, p: Seq<u8>, i: int)
    requires
        0 <= i < r.len(),
        r[i] == p,
        forall|j: int| 0 <= j < i ==> r[j] != p,
    ensures
        r_remove(r, p) == r.subrange(0, i) + r.subrange(i + 1, r.len() as int),
    decreases i,
{
    if i == 0 {
        assert(r_remove(r, p) =~~= r.subrange(0, 0) + r.subrange(1, r.len() as int));
    } else {
        lemma_r_remove_at(r.drop_first(), p, i - 1);
        assert(r.drop_first().subrange(0, i - 1) =~~= r.subrange(1, i));
        assert(r.drop_first().subrange(i, r.len() - 1) =~~= r.subrange(i + 1, r.len() as int));
        assert(r_remove(r, p) =~~= r.subrange(0, i) + r.subrange(i + 1, r.len() as int));
    }
}

/// Removing an absent principal changes nothing.
proof fn lemma_r_remove_absent(r: Seq<Seq<u8>>, p: Seq<u8>)
    requires
        forall|j: int| 0 <= j < r.len() ==> r[j] != p,
    ensures
        r_remove(r, p) == r,
    decreases r.len(),
{
    if r.len() > 0 {
        lemma_r_remove_absent(r.drop_first(), p);
        assert(r_remove(r, p) =~~= r);
    }
}

/// After a removal the principal is gone, and every other principal stays.
pub proof fn lemma_r_remove_spec(r: Seq<Seq<u8>>, p: Seq<u8>)
    requires
        reg_wf(r),
    ensures
        reg_wf(r_remove(r, p)),
        !r_remove(r, p).contains(p),
        forall|q: Seq<u8>| q != p ==> (r_remove(r, p).contains(q) == r.contains(q)),
        r.contains(p) ==> r_remove(r, p).len() == r.len() - 1,
        !r.contains(p) ==> r_remove(r, p) == r,
    decreases r.len(),
{
    if r.len() == 0 {
    } else if r.first() == p {
        assert(r_remove(r, p) == r.drop_first());
        assert forall|j: int| 0 <= j < r.drop_first().len() implies r.drop_first()[j] != p by {
            assert(r.drop_first()[j] == r[j + 1]);
        }
        assert forall|q: Seq<u8>| q != p && r.contains(q) implies r.drop_first().contains(q) by {
            let k = choose|k: int| 0 <= k < r.len() && r[k] == q;
            assert(r.drop_first()[k - 1] == q);
        }
        assert forall|q: Seq<u8>| r.drop_first().contains(q) implies r.contains(q) by {
            let k = choose|k: int| 0 <= k < r.drop_first().len() && r.drop_first()[k] == q;
            assert(r[k + 1] == q);
        }
        assert(r.contains(p)) by {
            assert(r[0] == p);
        }
    } else {
        assert(reg_wf(r.drop_first())) by {
            assert(forall|i: int, j: int|
                0 <= i < j < r.drop_first().len() ==> r.drop_first()[i] == r[i + 1]
                    && r.drop_first()[j] == r[j + 1]);
        }
        lemma_r_remove_spec(r.drop_first(), p);
        let rest = r_remove(r.drop_first(), p);
        let whole = seq![r.first()] + rest;
        assert(r_remove(r, p) == whole);
        assert forall|i: int, j: int| 0 <= i < j < whole.len() implies whole[i] != whole[j] by {
            if i == 0 {
                assert(rest.contains(whole[j])) by {
                    assert(rest[j - 1] == whole[j]);
                }
                if whole[j] == r.first() {
                    assert(r.drop_first().contains(r.first()));
                    let k = choose|k: int|
                        0 <= k < r.drop_first().len() && r.drop_first()[k] == r.first();
                    assert(r[k + 1] == r[0]);
                    assert(false);
                }
            } else {
                assert(whole[i] == rest[i - 1] && whole[j] == rest[j - 1]);
            }
        }
        assert(!whole.contains(p)) by {
            if whole.contains(p) {
                let k = choose|k: int| 0 <= k < whole.len() && whole[k] == p;
                assert(k > 0);
                assert(rest[k - 1] == p);
                assert(rest.contains(p));
            }
        }
        assert forall|q: Seq<u8>| q != p implies (whole.contains(q) == r.contains(q)) by {
            if whole.contains(q) {
                let k = choose|k: int| 0 <= k < whole.len() && whole[k] == q;
                if k == 0 {
                    assert(r[0] == q);
                } else {
                    assert(rest[k - 1] == q);
                    assert(rest.contains(q));
                    assert(r.drop_first().contains(q));
                    let t = choose|t: int|
                        0 <= t < r.drop_first().len() && r.drop_first()[t] == q;
                    assert(r[t + 1] == q);
                }
            }
            if r.contains(q) {
                let k = choose|k: int| 0 <= k < r.len() && r[k] == q;
                if k == 0 {
                    assert(whole[0] == q);
                } else {
                    assert(r.drop_first()[k - 1] == q);
                    assert(r.drop_first().contains(q));
                    assert(rest.contains(q));
                    let t = choose|t: int| 0 <= t < rest.len() && rest[t] == q;
                    assert(whole[t + 1] == q);
                }
            }
        }
        if r.contains(p) {
            let k = choose|k: int| 0 <= k < r.len() && r[k] == p;
            assert(k > 0);
            assert(r.drop_first()[k - 1] == p);
            assert(r.drop_first().contains(p));
        }
        if !r.contains(p) {
            assert(!r.drop_first().contains(p)) by {
                if r.drop_first().contains(p) {
                    let k = choose|k: int|
                        0 <= k < r.drop_first().len() && r.drop_first()[k] == p;
                    assert(r[k + 1] == p);
                }
            }
            assert(r_remove(r, p) =~~= r);
        }
    }
}

/// Registration keeps well-formedness and adds exactly the new principal.
pub proof fn lemma_r_insert_spec(r: Seq<Seq<u8>>, p: Seq<u8>)
    requires
        reg_wf(r),
    ensures
        reg_wf(r_insert(r, p)),
        r_insert(r, p).contains(p),
        forall|q: Seq<u8>| q != p ==> (r_insert(r, p).contains(q) == r.contains(q)),
{
    if !r.contains(p) {
        let r2 = r.push(p);
        assert forall|i: int, j: int| 0 <= i < j < r2.len() implies r2[i] != r2[j] by {
            if j == r2.len() - 1 {
                assert(r2[i] == r[i]);
                if r2[i] == p {
                    assert(r.contains(p));
                }
            }
        }
        assert(r2[r2.len() - 1] == p);
        assert forall|q: Seq<u8>| q != p implies (r2.contains(q) == r.contains(q)) by {
            if r2.contains(q) {
                let k = choose|k: int| 0 <= k < r2.len() && r2[k] == q;
                assert(k < r.len());
                assert(r[k] == q);
            }
            if r.contains(q) {
                let k = choose|k: int| 0 <= k < r.len() && r[k] == q;
                assert(r2[k] == q);
            }
        }
    }
}

impl HoldingQueues {
    pub fn new() -> (r: Self)
        ensures
            r@ == Seq::<QueueEntryV>::empty(),
    {
        let r = HoldingQueues { items: Vec::new() };
        proof {
            assert(r@ =~~= Seq::<QueueEntryV>::empty());
        }
        r
    }

    pub fn len(&self) -> (n: usize)
        ensures
            n == self@.len(),
    {
        self.items.len()
    }

    /// The index of the entry for `p`, if any, with no earlier entry for it.
    fn find(&self, p: &ClientPrincipal) -> (r: Option<usize>)
        ensures
            match r {
                Some(i) => i < self@.len() && self@[i as int].0 == p@ && forall|j: int|
                    0 <= j < i ==> self@[j].0 != p@,
                None => forall|j: int| 0 <= j < self@.len() ==> self@[j].0 != p@,
            },
    {
        let mut i: usize = 0;
        while i < self.items.len()
            invariant
                i <= self@.len(),
                self@.len() == self.items@.len(),
                forall|j: int| 0 <= j < i ==> self@[j].0 != p@,
            decreases self@.len() - i,
        {
            if self.items[i].0.eq(p) {
                proof {
                    assert(self@[i as int].0 == p@);
                }
                return Some(i);
            }
            i += 1;
        }
        None
    }

    /// Appends a message to `p`'s queue, creating the queue on the first
    /// message for `p`.
    pub fn push_msg(&mut self, p: &ClientPrincipal, m: CanisterToClientMessage)
        ensures
            final(self)@ == q_append(old(self)@, p@, m@),
    {
        let ghost prev = self@;
        match self.find(p) {
            Some(i) => {
                let mut entry = self.items.remove(i);
                entry.1.push(m);
                self.items.insert(i, entry);
                proof {
                    assert(self@ =~~= prev.update(
                        i as int,
                        (prev[i as int].0, prev[i as int].1.push(m@)),
                    ));
                    lemma_q_append_at(prev, p@, m@, i as int);
                }
            },
            None => {
                let mut q: Vec<CanisterToClientMessage> = Vec::new();
                q.push(m);
                self.items.push((p.clone(), q));
                proof {
                    assert(self@ =~~= prev.push((p@, seq![m@])));
                    lemma_q_append_absent(prev, p@, m@);
                }
            },
        }
    }

    /// Removes `p`'s queue entry, if any.
    pub fn remove_entry(&mut self, p: &ClientPrincipal)
        ensures
            final(self)@ == q_remove(old(self)@, p@),
    {
        let ghost prev = self@;
        match self.find(p) {
            Some(i) => {
                self.items.remove(i);
                proof {
                    assert(self@ =~~= prev.subrange(0, i as int) + prev.subrange(
                        i + 1,
                        prev.len() as int,
                    ));
                    lemma_q_remove_at(prev, p@, i as int);
                }
            },
            None => {
                proof {
                    lemma_q_remove_absent(prev, p@);
                }
            },
        }
    }
}

/// Where the first entry for `p` stands at `i`, appending updates exactly
/// that entry.
proof fn lemma_q_append_at(qs: Seq<QueueEntryV>, p: Seq<u8>, m: CanisterToClientMessageV, i: int)
    requires
        0 <= i < qs.len(),
        qs[i].0 == p,
        forall|j: int| 0 <= j < i ==> qs[j].0 != p,
    ensures
        q_append(qs, p, m) == qs.update(i, (qs[i].0, qs[i].1.push(m))),
    decreases i,
{
    if i == 0 {
        assert(q_append(qs, p, m) =~~= qs.update(0, (qs[0].0, qs[0].1.push(m))));
    } else {
        lemma_q_append_at(qs.drop_first(), p, m, i - 1);
        assert(q_append(qs, p, m) =~~= qs.update(i, (qs[i].0, qs[i].1.push(m))));
    }
}

/// With no entry for `p`, appending adds a fresh singleton entry at the end.
proof fn lemma_q_append_absent(qs: Seq<QueueEntryV>, p: Seq<u8>, m: CanisterToClientMessageV)
    requires
        forall|j: int| 0 <= j < qs.len() ==> qs[j].0 != p,
    ensures
        q_append(qs, p, m) == qs.push((p, seq![m])),
    decreases qs.len(),
{
    if qs.len() == 0 {
        assert(q_append(qs, p, m) =~~= qs.push((p, seq![m])));
    } else {
        lemma_q_append_absent(qs.drop_first(), p, m);
        assert(q_append(qs, p, m) =~~= qs.push((p, seq![m])));
    }
}

/// Where the first entry for `p` stands at `i`, removal drops exactly that
/// position.
proof fn lemma_q_remove_at(qs: Seq<QueueEntryV>, p: Seq<u8>, i: int)
    requires
        0 <= i < qs.len(),
        qs[i].0 == p,
        forall|j: int| 0 <= j < i ==> qs[j].0 != p,
    ensures
        q_remove(qs, p) == qs.subrange(0, i) + qs.subrange(i + 1, qs.len() as int),
    decreases i,
{
    if i == 0 {
        assert(q_remove(qs, p) =~~= qs.subrange(0, 0) + qs.subrange(1, qs.len() as int));
    } else {
        lemma_q_remove_at(qs.drop_first(), p, i - 1);
        assert(qs.drop_first().subrange(0, i - 1) =~~= qs.subrange(1, i));
        assert(qs.drop_first().subrange(i, qs.len() - 1) =~~= qs.subrange(i + 1, qs.len() as int));
        assert(q_remove(qs, p) =~~= qs.subrange(0, i) + qs.subrange(i + 1, qs.len() as int));
    }
}

/// Removing an absent entry changes nothing.
proof fn lemma_q_remove_absent(qs: Seq<QueueEntryV>, p: Seq<u8>)
    requires
        forall|j: int| 0 <= j < qs.len() ==> qs[j].0 != p,
    ensures
        q_remove(qs, p) == qs,
    decreases qs.len(),
{
    if qs.len() > 0 {
        lemma_q_remove_absent(qs.drop_first(), p);
        assert(q_remove(qs, p) =~~= qs);
    }
}

// --- The resume nonce carried in a message key ---

/// The position of the last underscore in `key`, if any.
pub open spec fn rfind_underscore(key: Seq<u8>) -> Option<int>
    decreases key.len(),
{
    if key.len() == 0 {
        None
    } else if key.last() == 0x5f {
        Some(key.len() - 1)
    } else {
        rfind_underscore(key.drop_last())
    }
}

pub open spec fn all_digits(s: Seq<u8>) -> bool {
    forall|i: int| 0 <= i < s.len() ==> 0x30 <= #[trigger] s[i] <= 0x39
}

/// The value of a decimal digit string.
pub open spec fn dec_val(s: Seq<u8>) -> int
    decreases s.len(),
{
    if s.len() == 0 {
        0
    } else {
        dec_val(s.drop_last()) * 10 + (s.last() - 0x30)
    }
}

/// The nonce a message key carries: the decimal digits after its last
/// underscore. Absent, empty, non-decimal, or too large to step past — the
/// poller resumes at nonce plus one, so the value must leave room for that —
/// means the key carries none, which the demultiplexer treats as fatal.
pub open spec fn key_nonce(key: Seq<u8>) -> Option<u64> {
    match rfind_underscore(key) {
        None => None,
        Some(i) => {
            let suf = key.subrange(i + 1, key.len() as int);
            if suf.len() > 0 && all_digits(suf) && dec_val(suf) < 0xffffffffffffffff {
                Some(dec_val(suf) as u64)
            } else {
                None
            }
        },
    }
}

proof fn lemma_dec_val_nonneg(s: Seq<u8>)
    requires
        all_digits(s),
    ensures
        dec_val(s) >= 0,
    decreases s.len(),
{
    if s.len() > 0 {
        assert(all_digits(s.drop_last())) by {
            assert(forall|i: int| 0 <= i < s.len() - 1 ==> s.drop_last()[i] == s[i]);
        }
        lemma_dec_val_nonneg(s.drop_last());
    }
}

/// Extracts the nonce from a message key, or reports that it carries none.
pub fn get_nonce_from_message(key: &Vec<u8>) -> (r: Result<u64, String>)
    ensures
        match r {
            Ok(n) => key_nonce(key@) == Some(n),
            Err(_) => key_nonce(key@) is None,
        },
{
    let klen: usize = key.len();
    let mut i: usize = klen;
    proof {
        assert(key@.subrange(0, klen as int) =~= key@);
    }
    while i > 0
        invariant
            i <= klen,
            klen == key@.len(),
            rfind_underscore(key@) == rfind_underscore(key@.subrange(0, i as int)),
            forall|j: int| i <= j < klen ==> key@[j] != 0x5f,
        decreases i,
    {
        if key[i - 1] == 0x5f {
            proof {
                let pre = key@.subrange(0, i as int);
                assert(pre.last() == key@[i - 1]);
                assert(rfind_underscore(key@) == Some(i - 1));
            }
            return parse_key_suffix(key, i);
        }
        proof {
            let pre = key@.subrange(0, i as int);
            assert(pre.last() == key@[i - 1]);
            assert(pre.drop_last() =~= key@.subrange(0, i - 1));
        }
        i -= 1;
    }
    proof {
        assert(key@.subrange(0, 0) =~= Seq::<u8>::empty());
    }
    Err(String::from_str("message key carries no nonce"))
}

/// Parses the decimal digits of `key` from `start` to the end.
fn parse_key_suffix(key: &Vec<u8>, start: usize) -> (r: Result<u64, String>)
    requires
        1 <= start <= key@.len(),
        rfind_underscore(key@) == Some(start - 1),
    ensures
        match r {
            Ok(n) => key_nonce(key@) == Some(n),
            Err(_) => key_nonce(key@) is None,
        },
{
    let ghost suf = key@.subrange(start as int, key@.len() as int);
    let klen: usize = key.len();
    if start == klen {
        return Err(String::from_str("message key ends at its underscore"));
    }
    let mut v: u64 = 0;
    let mut j: usize = start;
    while j < klen
        invariant
            1 <= start <= j <= klen,
            klen == key@.len(),
            rfind_underscore(key@) == Some(start - 1),
            suf == key@.subrange(start as int, klen as int),
            all_digits(key@.subrange(start as int, j as int)),
            v == dec_val(key@.subrange(start as int, j as int)),
            v < 0xffffffffffffffff,
        decreases klen - j,
    {
        let b = key[j];
        if b < 0x30 || b > 0x39 {
            proof {
                assert(suf[j - start] == b);
                assert(!all_digits(suf));
                assert(key_nonce(key@) is None);
            }
            return Err(String::from_str("message key nonce is not decimal"));
        }
        let d = (b - 0x30) as u64;
        let w: u128 = v as u128 * 10 + d as u128;
        proof {
            let pre = key@.subrange(start as int, j as int);
            let pre2 = key@.subrange(start as int, j + 1);
            assert(pre2.drop_last() =~= pre);
            assert(pre2.last() == b);
            assert(dec_val(pre2) == dec_val(pre) * 10 + (b - 0x30));
            assert forall|k: int| 0 <= k < pre2.len() implies 0x30 <= #[trigger] pre2[k]
                <= 0x39 by {
                if k < pre2.len() - 1 {
                    assert(pre2[k] == pre[k]);
                } else {
                    assert(pre2[k] == b);
                }
            }
        }
        if w >= 0xffffffffffffffff {
            proof {
                let pre2 = key@.subrange(start as int, j + 1);
                if all_digits(suf) {
                    assert(suf.subrange(0, j + 1 - start) =~= pre2);
                    lemma_dec_val_mono(suf, j + 1 - start);
                }
            }
            return Err(String::from_str("message key nonce is too large"));
        }
        v = w as u64;
        j += 1;
    }
    proof {
        assert(key@.subrange(start as int, j as int) == suf);
    }
    Ok(v)
}

/// A prefix of a digit string carries at most the whole string's value.
proof fn lemma_dec_val_mono(s: Seq<u8>, k: int)
    requires
        0 <= k <= s.len(),
        all_digits(s),
    ensures
        dec_val(s.subrange(0, k)) <= dec_val(s),
    decreases s.len(),
{
    if k == s.len() {
        assert(s.subrange(0, k) =~= s);
    } else {
        let t = s.drop_last();
        assert forall|i: int| 0 <= i < t.len() implies 0x30 <= #[trigger] t[i] <= 0x39 by {
            assert(t[i] == s[i]);
        }
        assert(t.subrange(0, k) =~= s.subrange(0, k));
        lemma_dec_val_mono(t, k);
        lemma_dec_val_nonneg(t);
        assert(dec_val(s) == dec_val(t) * 10 + (s.last() - 0x30));
        assert(dec_val(t) * 10 >= dec_val(t)) by (nonlinear_arith)
            requires
                dec_val(t) >= 0,
        ;
    }
}

// --- Relaying one message ---

/// One delivery the caller must perform: the principal whose sink it goes
/// to, and the update to send.
pub type DeliveryV = (Seq<u8>, IcWsConnectionUpdateV);

/// What relaying one message does: `None` when the key carries no nonce
/// (fatal); otherwise the optional delivery, the queues after, and the
/// resume nonce stepped past the message.
pub open spec fn relay_message_spec(
    p: Seq<u8>,
    m: CanisterToClientMessageV,
    reg: Seq<Seq<u8>>,
    qs: Seq<QueueEntryV>,
    nonce: u64,
) -> Option<(Option<CanisterToClientMessageV>, Seq<QueueEntryV>, u64)> {
    match key_nonce(m.key) {
        None => None,
        Some(n) => {
            let nonce2 = if n + 1 > nonce {
                (n + 1) as u64
            } else {
                nonce
            };
            if reg.contains(p) {
                Some((Some(m), qs, nonce2))
            } else {
                Some((None, q_append(qs, p, m), nonce2))
            }
        },
    }
}

/// Relays one message: to the client's sink when it is registered, else to
/// its holding queue — exactly one of the two — and advances the resume
/// nonce to the maximum of its value and the message's nonce plus one. A key
/// that carries no nonce is a fatal error and changes nothing.
pub fn relay_message(
    client_principal: &ClientPrincipal,
    m: CanisterToClientMessage,
    registry: &ClientRegistry,
    queues: &mut HoldingQueues,
    message_nonce: &mut u64,
) -> (r: Result<Option<IcWsConnectionUpdate>, String>)
    ensures
        (r is Ok) == (relay_message_spec(
            client_principal@,
            m@,
            registry@,
            old(queues)@,
            *old(message_nonce),
        ) is Some),
        relay_message_spec(
            client_principal@,
            m@,
            registry@,
            old(queues)@,
            *old(message_nonce),
        ) matches Some((d, qs2, n2)) ==> {
            &&& final(queues)@ == qs2
            &&& *final(message_nonce) == n2
            &&& match d {
                Some(dm) => r matches Ok(Some(u)) && u@ == IcWsConnectionUpdateV::Message(dm),
                None => r matches Ok(None),
            }
        },
        r is Err ==> final(queues)@ == old(queues)@ && *final(message_nonce) == *old(
            message_nonce,
        ),
{
    let n = match get_nonce_from_message(&m.key) {
        Err(e) => {
            return Err(e);
        },
        Ok(n) => n,
    };
    proof {
        assert(n < 0xffffffffffffffff) by {
            match rfind_underscore(m@.key) {
                Some(ix) => {
                    let suf = m@.key.subrange(ix + 1, m@.key.len() as int);
                    if all_digits(suf) {
                        lemma_dec_val_nonneg(suf);
                    }
                },
                None => {},
            }
        }
    }
    if n + 1 > *message_nonce {
        *message_nonce = n + 1;
    }
    if registry.contains(client_principal) {
        Ok(Some(IcWsConnectionUpdate::Message(m)))
    } else {
        queues.push_msg(client_principal, m);
        Ok(None)
    }
}

// --- Relaying a whole batch ---

/// What relaying a batch does, message by message, oldest first: the
/// deliveries to perform in order, the queues and nonce after, and whether a
/// fatal key error stopped the batch early (everything before it stands).
pub open spec fn relay_batch_spec(
    msgs: Seq<crate::types::CanisterOutputMessageV>,
    cert: Seq<u8>,
    tree: Seq<u8>,
    reg: Seq<Seq<u8>>,
    qs: Seq<QueueEntryV>,
    nonce: u64,
) -> (Seq<DeliveryV>, Seq<QueueEntryV>, u64, bool)
    decreases msgs.len(),
{
    if msgs.len() == 0 {
        (Seq::empty(), qs, nonce, false)
    } else {
        let (ds, qs1, n1, failed) = relay_batch_spec(msgs.drop_last(), cert, tree, reg, qs, nonce);
        if failed {
            (ds, qs1, n1, true)
        } else {
            let m = msgs.last();
            let c2c = CanisterToClientMessageV { key: m.key, content: m.content, cert, tree };
            match relay_message_spec(m.client_principal, c2c, reg, qs1, n1) {
                None => (ds, qs1, n1, true),
                Some((d, qs2, n2)) => (
                    match d {
                        Some(dm) => ds.push(
                            (m.client_principal, IcWsConnectionUpdateV::Message(dm)),
                        ),
                        None => ds,
                    },
                    qs2,
                    n2,
                    false,
                ),
            }
        }
    }
}

/// The view of a list of deliveries.
pub open spec fn deliveries_view(v: Seq<(ClientPrincipal, IcWsConnectionUpdate)>) -> Seq<
    DeliveryV,
> {
    v.map_values(|e: (ClientPrincipal, IcWsConnectionUpdate)| (e.0@, e.1@))
}

/// A batch once failed stays failed, with nothing further relayed.
proof fn lemma_relay_batch_fail_persists(
    msgs: Seq<crate::types::CanisterOutputMessageV>,
    cert: Seq<u8>,
    tree: Seq<u8>,
    reg: Seq<Seq<u8>>,
    qs: Seq<QueueEntryV>,
    nonce: u64,
    k: int,
)
    requires
        0 <= k <= msgs.len(),
        relay_batch_spec(msgs.subrange(0, k), cert, tree, reg, qs, nonce).3 == true,
    ensures
        relay_batch_spec(msgs, cert, tree, reg, qs, nonce) == relay_batch_spec(
            msgs.subrange(0, k),
            cert,
            tree,
            reg,
            qs,
            nonce,
        ),
    decreases msgs.len() - k,
{
    if k == msgs.len() {
        assert(msgs.subrange(0, k) =~~= msgs);
    } else {
        assert(msgs.subrange(0, k + 1).drop_last() =~~= msgs.subrange(0, k));
        lemma_relay_batch_fail_persists(msgs, cert, tree, reg, qs, nonce, k + 1);
    }
}

/// Relays every message of a polled batch in order. On a fatal key error
/// the deliveries and state changes made so far stand, and the error is
/// reported beside them.
pub fn relay_messages(
    msgs: &crate::types::CanisterOutputCertifiedMessages,
    registry: &ClientRegistry,
    queues: &mut HoldingQueues,
    message_nonce: &mut u64,
) -> (r: (Vec<(ClientPrincipal, IcWsConnectionUpdate)>, Option<String>))
    ensures
        ({
            let (ds, qs2, n2, failed) = relay_batch_spec(
                msgs@.messages,
                msgs@.cert,
                msgs@.tree,
                registry@,
                old(queues)@,
                *old(message_nonce),
            );
            &&& deliveries_view(r.0@) == ds
            &&& final(queues)@ == qs2
            &&& *final(message_nonce) == n2
            &&& (r.1 is Some) == failed
        }),
{
    let mut deliveries: Vec<(ClientPrincipal, IcWsConnectionUpdate)> = Vec::new();
    let mut i: usize = 0;
    let mlen: usize = msgs.messages.len();
    proof {
        assert(deliveries_view(deliveries@) =~~= relay_batch_spec(
            msgs@.messages.subrange(0, 0),
            msgs@.cert,
            msgs@.tree,
            registry@,
            queues@,
            *message_nonce,
        ).0);
    }
    while i < mlen
        invariant
            i <= mlen,
            mlen == msgs@.messages.len(),
            ({
                let (ds, qs1, n1, failed) = relay_batch_spec(
                    msgs@.messages.subrange(0, i as int),
                    msgs@.cert,
                    msgs@.tree,
                    registry@,
                    old(queues)@,
                    *old(message_nonce),
                );
                &&& deliveries_view(deliveries@) == ds
                &&& queues@ == qs1
                &&& *message_nonce == n1
                &&& !failed
            }),
        decreases mlen - i,
    {
        let ghost prefix = msgs@.messages.subrange(0, i as int);
        let entry = &msgs.messages[i];
        let c2c = CanisterToClientMessage {
            key: clone_bytes(&entry.key),
            content: clone_bytes(&entry.content),
            cert: clone_bytes(&msgs.cert),
            tree: clone_bytes(&msgs.tree),
        };
        let ghost ds_before = deliveries_view(deliveries@);
        let res = relay_message(
            &entry.client_principal,
            c2c,
            registry,
            queues,
            message_nonce,
        );
        proof {
            assert(msgs@.messages.subrange(0, i + 1).drop_last() =~~= prefix);
            assert(msgs@.messages.subrange(0, i + 1).last() == msgs@.messages[i as int]);
        }
        match res {
            Err(e) => {
                proof {
                    assert(relay_batch_spec(
                        msgs@.messages.subrange(0, i + 1),
                        msgs@.cert,
                        msgs@.tree,
                        registry@,
                        old(queues)@,
                        *old(message_nonce),
                    ).3 == true);
                    lemma_relay_batch_fail_persists(
                        msgs@.messages,
                        msgs@.cert,
                        msgs@.tree,
                        registry@,
                        old(queues)@,
                        *old(message_nonce),
                        i + 1,
                    );
                }
                return (deliveries, Some(e));
            },
            Ok(Some(u)) => {
                deliveries.push((entry.client_principal.clone(), u));
                proof {
                    assert(deliveries_view(deliveries@) =~~= ds_before.push(
                        (msgs@.messages[i as int].client_principal, deliveries@.last().1@),
                    ));
                }
            },
            Ok(None) => {},
        }
        i += 1;
    }
    proof {
        assert(msgs@.messages.subrange(0, mlen as int) =~~= msgs@.messages);
    }
    (deliveries, None)
}

// --- Draining the holding queues ---

/// The deliveries one queue entry unwinds to, in queue order.
pub open spec fn entry_deliveries(e: QueueEntryV) -> Seq<DeliveryV> {
    e.1.map_values(|m: CanisterToClientMessageV| (e.0, IcWsConnectionUpdateV::Message(m)))
}

/// What a drain pass does: every entry whose principal is registered is
/// delivered in queue order and dropped; the rest stay, in order.
pub open spec fn drain_spec(qs: Seq<QueueEntryV>, reg: Seq<Seq<u8>>) -> (Seq<DeliveryV>, Seq<
    QueueEntryV,
>)
    decreases qs.len(),
{
    if qs.len() == 0 {
        (Seq::empty(), Seq::empty())
    } else {
        let (ds, kept) = drain_spec(qs.drop_last(), reg);
        let e = qs.last();
        if reg.contains(e.0) {
            (ds + entry_deliveries(e), kept)
        } else {
            (ds, kept.push(e))
        }
    }
}

/// Drains every holding queue whose client has registered, in FIFO order
/// per client, and removes the drained entries. Must run before each fresh
/// batch is demultiplexed so that old queued messages precede newly polled
/// ones.
pub fn process_queues(queues: &mut HoldingQueues, registry: &ClientRegistry) -> (ds: Vec<
    (ClientPrincipal, IcWsConnectionUpdate),
>)
    ensures
        deliveries_view(ds@) == drain_spec(old(queues)@, registry@).0,
        final(queues)@ == drain_spec(old(queues)@, registry@).1,
{
    let mut deliveries: Vec<(ClientPrincipal, IcWsConnectionUpdate)> = Vec::new();
    let mut kept: Vec<(ClientPrincipal, Vec<CanisterToClientMessage>)> = Vec::new();
    let qlen: usize = queues.items.len();
    let mut i: usize = 0;
    proof {
        assert(deliveries_view(deliveries@) =~~= drain_spec(queues@.subrange(0, 0), registry@).0);
        assert(entries_view(kept@) =~~= drain_spec(queues@.subrange(0, 0), registry@).1);
    }
    while i < qlen
        invariant
            i <= qlen,
            qlen == queues@.len(),
            queues@ == old(queues)@,
            deliveries_view(deliveries@) == drain_spec(
                queues@.subrange(0, i as int),
                registry@,
            ).0,
            entries_view(kept@) == drain_spec(queues@.subrange(0, i as int), registry@).1,
        decreases qlen - i,
    {
        let ghost prefix = queues@.subrange(0, i as int);
        let ghost ds_before = deliveries_view(deliveries@);
        let entry = &queues.items[i];
        if registry.contains(&entry.0) {
            let mut j: usize = 0;
            let qn: usize = entry.1.len();
            while j < qn
                invariant
                    j <= qn,
                    i < qlen,
                    qlen == queues@.len(),
                    queues@ == old(queues)@,
                    qn == queues@[i as int].1.len(),
                    deliveries_view(deliveries@) == ds_before + entry_deliveries(
                        queues@[i as int],
                    ).subrange(0, j as int),
                decreases qn - j,
            {
                let ghost dv_old = deliveries@;
                let entry = &queues.items[i];
                deliveries.push(
                    (entry.0.clone(), IcWsConnectionUpdate::Message(entry.1[j].clone())),
                );
                proof {
                    let e = queues@[i as int];
                    let pair = deliveries@.last();
                    assert(e == (
                        queues.items@[i as int].0@,
                        queues.items@[i as int].1@.map_values(|m: CanisterToClientMessage| m@),
                    ));
                    assert(pair.0@ == e.0);
                    assert(pair.1@ == IcWsConnectionUpdateV::Message(e.1[j as int]));
                    let lhs = deliveries_view(deliveries@);
                    let rhs = ds_before + entry_deliveries(e).subrange(0, j + 1);
                    assert(entry_deliveries(e).len() == e.1.len());
                    assert(j + 1 <= e.1.len());
                    assert(deliveries@.len() == dv_old.len() + 1);
                    assert(deliveries_view(dv_old).len() == dv_old.len());
                    assert(deliveries_view(dv_old) == ds_before + entry_deliveries(e).subrange(0, j as int));
                    assert(dv_old.len() == ds_before.len() + j);
                    assert(lhs.len() == rhs.len());
                    assert forall|k: int| 0 <= k < lhs.len() implies lhs[k] == rhs[k] by {
                        if k < lhs.len() - 1 {
                            assert(deliveries@[k] == dv_old[k]);
                            assert(lhs[k] == deliveries_view(dv_old)[k]);
                            assert(deliveries_view(dv_old)[k] == (ds_before + entry_deliveries(
                                e,
                            ).subrange(0, j as int))[k]);
                        } else {
                            assert(lhs[k] == (pair.0@, pair.1@));
                            assert(rhs[k] == entry_deliveries(e).subrange(0, j + 1)[j as int]);
                            assert(entry_deliveries(e)[j as int] == (
                                e.0,
                                IcWsConnectionUpdateV::Message(e.1[j as int]),
                            ));
                        }
                    }
                    assert(lhs =~~= rhs);
                }
                j += 1;
            }
            proof {
                assert(entry_deliveries(queues@[i as int]).subrange(
                    0,
                    queues@[i as int].1.len() as int,
                ) =~~= entry_deliveries(queues@[i as int]));
            }
        } else {
            let entry = &queues.items[i];
            kept.push((entry.0.clone(), clone_messages(&entry.1)));
            proof {
                assert(entries_view(kept@) =~~= drain_spec(prefix, registry@).1.push(
                    queues@[i as int],
                ));
            }
        }
        proof {
            assert(queues@.subrange(0, i + 1).drop_last() =~~= prefix);
            assert(queues@.subrange(0, i + 1).last() == queues@[i as int]);
        }
        i += 1;
    }
    proof {
        assert(queues@.subrange(0, qlen as int) =~~= queues@);
    }
    queues.items = kept;
    deliveries
}

/// A field-for-field copy of a message list.
fn clone_messages(v: &Vec<CanisterToClientMessage>) -> (r: Vec<CanisterToClientMessage>)
    ensures
        r@.len() == v@.len(),
        forall|i: int| 0 <= i < v@.len() ==> #[trigger] r@[i]@ == v@[i]@,
{
    let mut r: Vec<CanisterToClientMessage> = Vec::new();
    let mut i: usize = 0;
    while i < v.len()
        invariant
            i <= v@.len(),
            r@.len() == i,
            forall|j: int| 0 <= j < i ==> #[trigger] r@[j]@ == v@[j]@,
        decreases v@.len() - i,
    {
        r.push(v[i].clone());
        i += 1;
    }
    r
}

// --- Routing laws ---

/// The canister-to-client message a batch entry unwinds to.
pub open spec fn c2c_of(
    m: crate::types::CanisterOutputMessageV,
    cert: Seq<u8>,
    tree: Seq<u8>,
) -> CanisterToClientMessageV {
    CanisterToClientMessageV { key: m.key, content: m.content, cert, tree }
}

/// The messages of a batch addressed to one principal, oldest first.
pub open spec fn batch_for(
    msgs: Seq<crate::types::CanisterOutputMessageV>,
    cert: Seq<u8>,
    tree: Seq<u8>,
    p: Seq<u8>,
) -> Seq<CanisterToClientMessageV>
    decreases msgs.len(),
{
    if msgs.len() == 0 {
        Seq::empty()
    } else {
        batch_for(msgs.drop_last(), cert, tree, p) + (
        if msgs.last().client_principal == p {
            seq![c2c_of(msgs.last(), cert, tree)]
        } else {
            Seq::empty()
        })
    }
}

/// The updates of a delivery list addressed to one principal, in order.
pub open spec fn deliveries_for(ds: Seq<DeliveryV>, p: Seq<u8>) -> Seq<IcWsConnectionUpdateV>
    decreases ds.len(),
{
    if ds.len() == 0 {
        Seq::empty()
    } else {
        deliveries_for(ds.drop_last(), p) + (
        if ds.last().0 == p {
            seq![ds.last().1]
        } else {
            Seq::empty()
        })
    }
}

/// A queue after appending a run of messages for its principal.
pub open spec fn queued_after(
    before: Option<Seq<CanisterToClientMessageV>>,
    add: Seq<CanisterToClientMessageV>,
) -> Option<Seq<CanisterToClientMessageV>> {
    match before {
        Some(q) => Some(q + add),
        None => if add.len() == 0 {
            None
        } else {
            Some(add)
        },
    }
}

/// How one append changes what each principal has queued.
proof fn lemma_q_get_append(
    qs: Seq<QueueEntryV>,
    p2: Seq<u8>,
    m: CanisterToClientMessageV,
    p: Seq<u8>,
)
    ensures
        q_get(q_append(qs, p2, m), p) == (if p == p2 {
            match q_get(qs, p) {
                Some(q) => Some(q.push(m)),
                None => Some(seq![m]),
            }
        } else {
            q_get(qs, p)
        }),
    decreases qs.len(),
{
    let r = q_append(qs, p2, m);
    if qs.len() == 0 {
        assert(r =~~= seq![(p2, seq![m])]);
        assert(r.first() == (p2, seq![m]));
        assert(r.drop_first() =~~= Seq::<QueueEntryV>::empty());
        if p == p2 {
            assert(q_get(r, p) == Some(seq![m]));
        } else {
            assert(q_get(r, p) == q_get(r.drop_first(), p));
            assert(q_get(r, p) is None);
        }
    } else if qs.first().0 == p2 {
        assert(r.first() == (p2, qs.first().1.push(m)));
        assert(r.drop_first() =~~= qs.drop_first());
        if p == p2 {
            assert(q_get(r, p) == Some(qs.first().1.push(m)));
            assert(q_get(qs, p) == Some(qs.first().1));
        } else {
            assert(q_get(r, p) == q_get(qs.drop_first(), p));
            assert(q_get(qs, p) == q_get(qs.drop_first(), p));
        }
    } else {
        assert(r.first() == qs.first());
        assert(r.drop_first() =~~= q_append(qs.drop_first(), p2, m));
        lemma_q_get_append(qs.drop_first(), p2, m, p);
        if qs.first().0 == p {
            assert(p != p2);
            assert(q_get(r, p) == Some(qs.first().1));
            assert(q_get(qs, p) == Some(qs.first().1));
        } else {
            assert(q_get(r, p) == q_get(q_append(qs.drop_first(), p2, m), p));
            assert(q_get(qs, p) == q_get(qs.drop_first(), p));
        }
    }
}

/// Appending keeps the queue keys unique.
pub proof fn lemma_q_append_wf_pub(qs: Seq<QueueEntryV>, p: Seq<u8>, m: CanisterToClientMessageV)
    requires
        q_wf(qs),
    ensures
        q_wf(q_append(qs, p, m)),
{
    lemma_q_append_wf(qs, p, m);
}

proof fn lemma_q_append_wf(qs: Seq<QueueEntryV>, p: Seq<u8>, m: CanisterToClientMessageV)
    requires
        q_wf(qs),
    ensures
        q_wf(q_append(qs, p, m)),
    decreases qs.len(),
{
    let r = q_append(qs, p, m);
    if qs.len() == 0 {
    } else if qs.first().0 == p {
        assert forall|i: int, j: int| 0 <= i < j < r.len() implies r[i].0 != r[j].0 by {
            assert(r[i].0 == qs[i].0 && r[j].0 == qs[j].0);
        }
    } else {
        assert(q_wf(qs.drop_first())) by {
            assert(forall|i: int, j: int|
                0 <= i < j < qs.drop_first().len() ==> qs.drop_first()[i] == qs[i + 1]
                    && qs.drop_first()[j] == qs[j + 1]);
        }
        lemma_q_append_wf(qs.drop_first(), p, m);
        let rest = q_append(qs.drop_first(), p, m);
        lemma_q_get_append(qs.drop_first(), p, m, qs.first().0);
        lemma_q_get_keys(qs.drop_first(), qs.first().0);
        lemma_q_get_keys(rest, qs.first().0);
        assert forall|i: int, j: int| 0 <= i < j < r.len() implies r[i].0 != r[j].0 by {
            if i > 0 {
                assert(r[i] == rest[i - 1] && r[j] == rest[j - 1]);
            } else {
                assert(r[j] == rest[j - 1]);
                if rest[j - 1].0 == qs.first().0 {
                    assert(q_get(rest, qs.first().0) is Some) by {
                        lemma_q_get_at(rest, j - 1);
                    }
                }
            }
        }
    }
}

/// A principal with an entry has a queue; one without has none.
proof fn lemma_q_get_keys(qs: Seq<QueueEntryV>, p: Seq<u8>)
    ensures
        (q_get(qs, p) is Some) == (exists|k: int| 0 <= k < qs.len() && qs[k].0 == p),
    decreases qs.len(),
{
    if qs.len() > 0 {
        lemma_q_get_keys(qs.drop_first(), p);
        if qs.first().0 == p {
            assert(qs[0].0 == p);
        } else {
            if exists|k: int| 0 <= k < qs.drop_first().len() && qs.drop_first()[k].0 == p {
                let k = choose|k: int|
                    0 <= k < qs.drop_first().len() && qs.drop_first()[k].0 == p;
                assert(qs[k + 1].0 == p);
            }
            if exists|k: int| 0 <= k < qs.len() && qs[k].0 == p {
                let k = choose|k: int| 0 <= k < qs.len() && qs[k].0 == p;
                assert(k > 0);
                assert(qs.drop_first()[k - 1].0 == p);
            }
        }
    }
}

/// An entry at a position yields a queue for its key.
proof fn lemma_q_get_at(qs: Seq<QueueEntryV>, k: int)
    requires
        0 <= k < qs.len(),
    ensures
        q_get(qs, qs[k].0) is Some,
    decreases k,
{
    if qs.first().0 != qs[k].0 {
        assert(k > 0);
        assert(qs.drop_first()[k - 1] == qs[k]);
        lemma_q_get_at(qs.drop_first(), k - 1);
    }
}

/// Removing an entry keeps the keys unique, empties exactly that
/// principal's queue, and leaves every other queue as it was.
pub proof fn lemma_q_remove_spec(qs: Seq<QueueEntryV>, p: Seq<u8>)
    requires
        q_wf(qs),
    ensures
        q_wf(q_remove(qs, p)),
        q_get(q_remove(qs, p), p) is None,
        forall|q: Seq<u8>| q != p ==> q_get(q_remove(qs, p), q) == q_get(qs, q),
    decreases qs.len(),
{
    if qs.len() == 0 {
    } else if qs.first().0 == p {
        let rest = qs.drop_first();
        assert(q_remove(qs, p) == rest);
        assert(q_wf(rest)) by {
            assert(forall|i: int, j: int|
                0 <= i < j < rest.len() ==> rest[i] == qs[i + 1] && rest[j] == qs[j + 1]);
        }
        lemma_q_get_keys(rest, p);
        if exists|k: int| 0 <= k < rest.len() && rest[k].0 == p {
            let k = choose|k: int| 0 <= k < rest.len() && rest[k].0 == p;
            assert(qs[k + 1].0 == qs[0].0);
            assert(false);
        }
        assert forall|q: Seq<u8>| q != p implies q_get(q_remove(qs, p), q) == q_get(qs, q) by {
            assert(q_get(qs, q) == q_get(rest, q));
        }
    } else {
        let rest = qs.drop_first();
        assert(q_wf(rest)) by {
            assert(forall|i: int, j: int|
                0 <= i < j < rest.len() ==> rest[i] == qs[i + 1] && rest[j] == qs[j + 1]);
        }
        lemma_q_remove_spec(rest, p);
        let rr = q_remove(rest, p);
        let whole = seq![qs.first()] + rr;
        assert(q_remove(qs, p) == whole);
        assert(whole.first() == qs.first());
        assert(whole.drop_first() =~~= rr);
        assert forall|i: int, j: int| 0 <= i < j < whole.len() implies whole[i].0
            != whole[j].0 by {
            if i == 0 {
                assert(whole[j] == rr[j - 1]);
                if whole[j].0 == qs.first().0 {
                    lemma_q_get_at(rr, j - 1);
                    assert(q_get(rr, qs.first().0) is Some);
                    assert(q_get(rest, qs.first().0) is Some);
                    lemma_q_get_keys(rest, qs.first().0);
                    let k = choose|k: int| 0 <= k < rest.len() && rest[k].0 == qs.first().0;
                    assert(qs[k + 1].0 == qs[0].0);
                    assert(false);
                }
            } else {
                assert(whole[i] == rr[i - 1] && whole[j] == rr[j - 1]);
            }
        }
        assert(q_get(whole, p) == q_get(rr, p));
        assert forall|q: Seq<u8>| q != p implies q_get(q_remove(qs, p), q) == q_get(qs, q) by {
            if qs.first().0 == q {
                assert(q_get(whole, q) == Some(whole.first().1));
                assert(q_get(qs, q) == Some(qs.first().1));
            } else {
                assert(q_get(whole, q) == q_get(rr, q));
                assert(q_get(qs, q) == q_get(rest, q));
            }
        }
    }
}

/// Relaying a whole batch routes, for every principal, exactly its own
/// messages to exactly one destination: a registered principal's messages
/// are all delivered to it in batch order and its queue is untouched; an
/// unregistered principal gets nothing delivered and its queue grows by
/// exactly its messages, in batch order.
pub proof fn lemma_relay_batch_routes(
    msgs: Seq<crate::types::CanisterOutputMessageV>,
    cert: Seq<u8>,
    tree: Seq<u8>,
    reg: Seq<Seq<u8>>,
    qs: Seq<QueueEntryV>,
    nonce: u64,
    p: Seq<u8>,
)
    requires
        relay_batch_spec(msgs, cert, tree, reg, qs, nonce).3 == false,
    ensures
        ({
            let (ds, qs2, n2, _) = relay_batch_spec(msgs, cert, tree, reg, qs, nonce);
            &&& reg.contains(p) ==> deliveries_for(ds, p) == batch_for(
                msgs,
                cert,
                tree,
                p,
            ).map_values(|m: CanisterToClientMessageV| IcWsConnectionUpdateV::Message(m))
                && q_get(qs2, p) == q_get(qs, p)
            &&& !reg.contains(p) ==> deliveries_for(ds, p) == Seq::<
                IcWsConnectionUpdateV,
            >::empty() && q_get(qs2, p) == queued_after(q_get(qs, p), batch_for(msgs, cert, tree, p))
        }),
    decreases msgs.len(),
{
    if msgs.len() == 0 {
        assert(batch_for(msgs, cert, tree, p).map_values(
            |m: CanisterToClientMessageV| IcWsConnectionUpdateV::Message(m),
        ) =~~= Seq::<IcWsConnectionUpdateV>::empty());
    } else {
        let pre = msgs.drop_last();
        let (ds1, qs1, n1, f1) = relay_batch_spec(pre, cert, tree, reg, qs, nonce);
        assert(!f1);
        lemma_relay_batch_routes(pre, cert, tree, reg, qs, nonce, p);
        let m = msgs.last();
        let c2c = c2c_of(m, cert, tree);
        let step = relay_message_spec(m.client_principal, c2c, reg, qs1, n1);
        assert(step is Some);
        let (d, qs2, n2) = step.unwrap();
        let bm = batch_for(msgs, cert, tree, p).map_values(
            |x: CanisterToClientMessageV| IcWsConnectionUpdateV::Message(x),
        );
        let bm1 = batch_for(pre, cert, tree, p).map_values(
            |x: CanisterToClientMessageV| IcWsConnectionUpdateV::Message(x),
        );
        if reg.contains(m.client_principal) {
            let ds = ds1.push((m.client_principal, IcWsConnectionUpdateV::Message(c2c)));
            assert(ds.drop_last() =~~= ds1);
            if reg.contains(p) {
                if m.client_principal == p {
                    assert(bm =~~= bm1 + seq![IcWsConnectionUpdateV::Message(c2c)]);
                    assert(deliveries_for(ds, p) == deliveries_for(ds1, p) + seq![
                        IcWsConnectionUpdateV::Message(c2c),
                    ]);
                } else {
                    assert(bm =~~= bm1);
                    assert(deliveries_for(ds, p) == deliveries_for(ds1, p));
                }
            } else {
                assert(m.client_principal != p);
                assert(batch_for(msgs, cert, tree, p) =~~= batch_for(pre, cert, tree, p));
            }
        } else {
            lemma_q_get_append(qs1, m.client_principal, c2c, p);
            if reg.contains(p) {
                assert(m.client_principal != p);
                assert(bm =~~= bm1);
            } else {
                if m.client_principal == p {
                    assert(batch_for(msgs, cert, tree, p) =~~= batch_for(pre, cert, tree, p).push(
                        c2c,
                    ));
                    assert(q_get(qs2, p) =~~= queued_after(
                        q_get(qs, p),
                        batch_for(msgs, cert, tree, p),
                    )) by {
                        match q_get(qs, p) {
                            Some(q0) => {
                                assert(q0 + batch_for(pre, cert, tree, p).push(c2c) =~~= (q0
                                    + batch_for(pre, cert, tree, p)).push(c2c));
                            },
                            None => {
                                if batch_for(pre, cert, tree, p).len() == 0 {
                                    assert(batch_for(pre, cert, tree, p).push(c2c) =~~= seq![c2c]);
                                }
                            },
                        }
                    }
                } else {
                    assert(batch_for(msgs, cert, tree, p) =~~= batch_for(pre, cert, tree, p));
                }
            }
        }
    }
}

/// Every delivery a successful or failed batch produces goes to a
/// registered principal.
pub proof fn lemma_relay_batch_targets_registered(
    msgs: Seq<crate::types::CanisterOutputMessageV>,
    cert: Seq<u8>,
    tree: Seq<u8>,
    reg: Seq<Seq<u8>>,
    qs: Seq<QueueEntryV>,
    nonce: u64,
)
    ensures
        forall|k: int|
            0 <= k < relay_batch_spec(msgs, cert, tree, reg, qs, nonce).0.len() ==> reg.contains(
                #[trigger] relay_batch_spec(msgs, cert, tree, reg, qs, nonce).0[k].0,
            ),
    decreases msgs.len(),
{
    if msgs.len() > 0 {
        lemma_relay_batch_targets_registered(msgs.drop_last(), cert, tree, reg, qs, nonce);
        let (ds1, qs1, n1, f1) = relay_batch_spec(msgs.drop_last(), cert, tree, reg, qs, nonce);
        let (ds, _, _, _) = relay_batch_spec(msgs, cert, tree, reg, qs, nonce);
        assert forall|k: int| 0 <= k < ds.len() implies reg.contains(#[trigger] ds[k].0) by {
            if k < ds1.len() {
                assert(ds[k] == ds1[k]);
            } else {
                assert(ds[k].0 == msgs.last().client_principal);
            }
        }
    }
}

/// After a drain pass every registered principal's queue is gone, the kept
/// entries are exactly those of unregistered principals in their old order,
/// each registered principal receives exactly its old queue in order, and
/// every delivery goes to a registered principal.
pub proof fn lemma_drain_spec(qs: Seq<QueueEntryV>, reg: Seq<Seq<u8>>, p: Seq<u8>)
    requires
        q_wf(qs),
    ensures
        ({
            let (ds, kept) = drain_spec(qs, reg);
            &&& q_wf(kept)
            &&& reg.contains(p) ==> q_get(kept, p) is None
            &&& reg.contains(p) ==> deliveries_for(ds, p) == (match q_get(qs, p) {
                Some(q) => q.map_values(
                    |m: CanisterToClientMessageV| IcWsConnectionUpdateV::Message(m),
                ),
                None => Seq::<IcWsConnectionUpdateV>::empty(),
            })
            &&& !reg.contains(p) ==> q_get(kept, p) == q_get(qs, p) && deliveries_for(ds, p)
                == Seq::<IcWsConnectionUpdateV>::empty()
            &&& forall|k: int| 0 <= k < ds.len() ==> reg.contains(#[trigger] ds[k].0)
        }),
    decreases qs.len(),
{
    if qs.len() == 0 {
    } else {
        let pre = qs.drop_last();
        assert(q_wf(pre)) by {
            assert(forall|i: int, j: int|
                0 <= i < j < pre.len() ==> pre[i] == qs[i] && pre[j] == qs[j]);
        }
        lemma_drain_spec(pre, reg, p);
        let (ds1, kept1) = drain_spec(pre, reg);
        let e = qs.last();
        assert(pre.push(e) =~~= qs);
        lemma_q_get_push(pre, e, p);
        lemma_q_get_last(qs, p);
        if e.0 == p {
            assert(q_get(pre, p) is None) by {
                lemma_q_get_keys(pre, p);
                if exists|k: int| 0 <= k < pre.len() && pre[k].0 == p {
                    let k = choose|k: int| 0 <= k < pre.len() && pre[k].0 == p;
                    assert(qs[k].0 == qs[qs.len() - 1].0);
                    assert(false);
                }
            }
            assert(q_get(qs, p) == Some(e.1));
        } else {
            assert(q_get(qs, p) == q_get(pre, p));
        }
        if reg.contains(e.0) {
            let ds = ds1 + entry_deliveries(e);
            lemma_deliveries_for_concat(ds1, entry_deliveries(e), p);
            lemma_entry_deliveries_for(e, p);
            if reg.contains(p) {
                if e.0 == p {
                    assert(deliveries_for(ds1, p) =~~= Seq::<IcWsConnectionUpdateV>::empty());
                    assert(deliveries_for(ds, p) =~~= e.1.map_values(
                        |m: CanisterToClientMessageV| IcWsConnectionUpdateV::Message(m),
                    ));
                } else {
                    assert(deliveries_for(ds, p) =~~= deliveries_for(ds1, p));
                }
            } else {
                assert(e.0 != p);
                assert(deliveries_for(ds, p) =~~= deliveries_for(ds1, p));
            }
            assert forall|k: int| 0 <= k < ds.len() implies reg.contains(#[trigger] ds[k].0) by {
                if k < ds1.len() {
                    assert(ds[k] == ds1[k]);
                } else {
                    assert(ds[k] == entry_deliveries(e)[k - ds1.len()]);
                    assert(entry_deliveries(e)[k - ds1.len()].0 == e.0);
                }
            }
        } else {
            let kept = kept1.push(e);
            assert(kept.drop_last() =~~= kept1);
            lemma_q_get_push(kept1, e, p);
            assert(q_wf(kept)) by {
                lemma_drain_kept_keys(pre, reg);
                assert forall|i: int, j: int| 0 <= i < j < kept.len() implies kept[i].0
                    != kept[j].0 by {
                    if j == kept.len() - 1 {
                        assert(kept[i] == kept1[i]);
                        let (_, k1) = drain_spec(pre, reg);
                        assert(exists|t: int| 0 <= t < pre.len() && pre[t] == kept1[i]);
                        let t = choose|t: int| 0 <= t < pre.len() && pre[t] == kept1[i];
                        assert(qs[t] == pre[t]);
                        if kept1[i].0 == e.0 {
                            assert(qs[t].0 == qs[qs.len() - 1].0);
                            assert(false);
                        }
                    } else {
                        assert(kept[i] == kept1[i] && kept[j] == kept1[j]);
                    }
                }
            }
            if reg.contains(p) {
                assert(e.0 != p);
                assert(q_get(kept, p) == q_get(kept1, p));
            } else {
                if e.0 == p {
                    assert(q_get(kept1, p) == q_get(pre, p));
                    assert(q_get(kept1, p) is None);
                    assert(q_get(kept, p) == Some(e.1));
                } else {
                    match q_get(kept1, p) {
                        Some(_) => {
                            assert(q_get(kept, p) == q_get(kept1, p));
                        },
                        None => {
                            assert(q_get(kept, p) is None);
                            assert(q_get(qs, p) == q_get(pre, p));
                        },
                    }
                }
            }
        }
    }
}

/// Every kept entry of a drain pass stood in the queues before it.
proof fn lemma_drain_kept_keys(qs: Seq<QueueEntryV>, reg: Seq<Seq<u8>>)
    ensures
        forall|i: int|
            0 <= i < drain_spec(qs, reg).1.len() ==> exists|t: int|
                0 <= t < qs.len() && qs[t] == #[trigger] drain_spec(qs, reg).1[i],
    decreases qs.len(),
{
    if qs.len() > 0 {
        let pre = qs.drop_last();
        lemma_drain_kept_keys(pre, reg);
        let (ds1, kept1) = drain_spec(pre, reg);
        assert forall|i: int| 0 <= i < drain_spec(qs, reg).1.len() implies exists|t: int|
            0 <= t < qs.len() && qs[t] == #[trigger] drain_spec(qs, reg).1[i] by {
            let kept = drain_spec(qs, reg).1;
            if reg.contains(qs.last().0) {
                assert(kept == kept1);
                let t = choose|t: int| 0 <= t < pre.len() && pre[t] == kept1[i];
                assert(qs[t] == kept[i]);
            } else {
                if i < kept1.len() {
                    assert(kept[i] == kept1[i]);
                    let t = choose|t: int| 0 <= t < pre.len() && pre[t] == kept1[i];
                    assert(qs[t] == kept[i]);
                } else {
                    assert(kept[i] == qs.last());
                    assert(qs[qs.len() - 1] == kept[i]);
                }
            }
        }
    }
}

/// What one queue entry delivers to one principal: everything for its own
/// principal, nothing for another.
proof fn lemma_entry_deliveries_for(e: QueueEntryV, p: Seq<u8>)
    ensures
        e.0 == p ==> deliveries_for(entry_deliveries(e), p) == e.1.map_values(
            |m: CanisterToClientMessageV| IcWsConnectionUpdateV::Message(m),
        ),
        e.0 != p ==> deliveries_for(entry_deliveries(e), p) == Seq::<
            IcWsConnectionUpdateV,
        >::empty(),
{
    lemma_entry_deliveries_for_rec(e, p, e.1.len() as int);
    assert(entry_deliveries(e).subrange(0, e.1.len() as int) =~~= entry_deliveries(e));
    if e.0 == p {
        assert(e.1.subrange(0, e.1.len() as int) =~~= e.1);
        assert(e.1.subrange(0, e.1.len() as int).map_values(
            |m: CanisterToClientMessageV| IcWsConnectionUpdateV::Message(m),
        ) =~~= e.1.map_values(|m: CanisterToClientMessageV| IcWsConnectionUpdateV::Message(m)));
    }
}

proof fn lemma_entry_deliveries_for_rec(e: QueueEntryV, p: Seq<u8>, k: int)
    requires
        0 <= k <= e.1.len(),
    ensures
        e.0 == p ==> deliveries_for(entry_deliveries(e).subrange(0, k), p) == e.1.subrange(
            0,
            k,
        ).map_values(|m: CanisterToClientMessageV| IcWsConnectionUpdateV::Message(m)),
        e.0 != p ==> deliveries_for(entry_deliveries(e).subrange(0, k), p) == Seq::<
            IcWsConnectionUpdateV,
        >::empty(),
    decreases k,
{
    if k == 0 {
        assert(entry_deliveries(e).subrange(0, 0) =~~= Seq::<DeliveryV>::empty());
        if e.0 == p {
            assert(e.1.subrange(0, 0).map_values(
                |m: CanisterToClientMessageV| IcWsConnectionUpdateV::Message(m),
            ) =~~= Seq::<IcWsConnectionUpdateV>::empty());
        }
    } else {
        lemma_entry_deliveries_for_rec(e, p, k - 1);
        let s = entry_deliveries(e).subrange(0, k);
        assert(s.drop_last() =~~= entry_deliveries(e).subrange(0, k - 1));
        assert(s.last() == entry_deliveries(e)[k - 1]);
        assert(s.last() == (e.0, IcWsConnectionUpdateV::Message(e.1[k - 1])));
        if e.0 == p {
            assert(e.1.subrange(0, k).map_values(
                |m: CanisterToClientMessageV| IcWsConnectionUpdateV::Message(m),
            ) =~~= e.1.subrange(0, k - 1).map_values(
                |m: CanisterToClientMessageV| IcWsConnectionUpdateV::Message(m),
            ).push(IcWsConnectionUpdateV::Message(e.1[k - 1])));
        }
    }
}

/// Per-principal deliveries distribute over concatenation.
pub proof fn lemma_deliveries_for_concat(a: Seq<DeliveryV>, b: Seq<DeliveryV>, p: Seq<u8>)
    ensures
        deliveries_for(a + b, p) == deliveries_for(a, p) + deliveries_for(b, p),
    decreases b.len(),
{
    if b.len() == 0 {
        assert(a + b =~~= a);
        assert(deliveries_for(a, p) + deliveries_for(b, p) =~~= deliveries_for(a, p));
    } else {
        lemma_deliveries_for_concat(a, b.drop_last(), p);
        assert((a + b).drop_last() =~~= a + b.drop_last());
        assert((a + b).last() == b.last());
        if b.last().0 == p {
            assert(deliveries_for(a, p) + deliveries_for(b, p) =~~= (deliveries_for(a, p)
                + deliveries_for(b.drop_last(), p)) + seq![b.last().1]);
        } else {
            assert(deliveries_for(a, p) + deliveries_for(b, p) =~~= deliveries_for(a, p)
                + deliveries_for(b.drop_last(), p));
        }
    }
}

/// The last entry's key never repeats earlier under unique keys.
proof fn lemma_q_get_last(qs: Seq<QueueEntryV>, p: Seq<u8>)
    requires
        q_wf(qs),
        qs.len() > 0,
    ensures
        qs.last().0 == p ==> q_get(qs, p) == Some(qs.last().1),
    decreases qs.len(),
{
    if qs.last().0 == p {
        lemma_q_get_at_value(qs, qs.len() - 1);
    }
}

/// Under unique keys, the queue for an entry's key is that entry's queue.
proof fn lemma_q_get_at_value(qs: Seq<QueueEntryV>, k: int)
    requires
        0 <= k < qs.len(),
        forall|i: int| 0 <= i < k ==> qs[i].0 != qs[k].0,
    ensures
        q_get(qs, qs[k].0) == Some(qs[k].1),
    decreases k,
{
    if k == 0 {
    } else {
        assert(qs.first().0 != qs[k].0);
        assert(qs.drop_first()[k - 1] == qs[k]);
        assert forall|i: int| 0 <= i < k - 1 implies (#[trigger] qs.drop_first()[i]).0
            != qs.drop_first()[k - 1].0 by {
            assert(qs.drop_first()[i] == qs[i + 1]);
        }
        lemma_q_get_at_value(qs.drop_first(), k - 1);
    }
}

/// How a pushed entry changes what each principal has queued.
proof fn lemma_q_get_push(qs: Seq<QueueEntryV>, e: QueueEntryV, p: Seq<u8>)
    ensures
        q_get(qs, p) is Some ==> q_get(qs.push(e), p) == q_get(qs, p),
        q_get(qs, p) is None && e.0 == p ==> q_get(qs.push(e), p) == Some(e.1),
        q_get(qs, p) is None && e.0 != p ==> q_get(qs.push(e), p) is None,
    decreases qs.len(),
{
    if qs.len() == 0 {
        assert(qs.push(e).first() == e);
        assert(qs.push(e).drop_first() =~~= Seq::<QueueEntryV>::empty());
    } else {
        assert(qs.push(e).first() == qs.first());
        assert(qs.push(e).drop_first() =~~= qs.drop_first().push(e));
        lemma_q_get_push(qs.drop_first(), e, p);
    }
}

} // verus!
