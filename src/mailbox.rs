//! Per-actor mailboxes: for each handler name, a first-in first-out queue of
//! argument tuples, and a global count of pending deliveries.
use vstd::prelude::*;
use crate::error::Error;
use crate::value::Value;

verus! {

/// The arguments of one pending handler invocation.
pub type Call = Vec<Value>;

/// One handler name of a mailbox and its queue of argument tuples, oldest first.
pub type Entry = (Seq<char>, Seq<Seq<Value>>);

/// No handler name occurs twice in `m`.
pub open spec fn names_unique(m: Seq<Entry>) -> bool {
    forall|i: int, j: int| 0 <= i < j < m.len() ==> m[i].0 != m[j].0
}

/// The queue of `m` under handler name `name` (empty if it has none).
pub open spec fn queue_in(m: Seq<Entry>, name: Seq<char>) -> Seq<Seq<Value>>
    decreases m.len(),
{
    if m.len() == 0 {
        Seq::empty()
    } else if m.last().0 == name {
        m.last().1
    } else {
        queue_in(m.drop_last(), name)
    }
}

/// Number of argument tuples queued in `m` over all handler names.
pub open spec fn count_in(m: Seq<Entry>) -> nat
    decreases m.len(),
{
    if m.len() == 0 {
        0
    } else {
        count_in(m.drop_last()) + m.last().1.len()
    }
}

/// Number of argument tuples queued over all mailboxes `bs`.
pub open spec fn total_in(bs: Seq<Seq<Entry>>) -> nat
    decreases bs.len(),
{
    if bs.len() == 0 {
        0
    } else {
        total_in(bs.drop_last()) + count_in(bs.last())
    }
}

/// `m` after appending `call` to the queue of handler `name`: the queue is
/// extended in place if the name is known, and added at the end otherwise.
pub open spec fn enqueue(m: Seq<Entry>, name: Seq<char>, call: Seq<Value>) -> Seq<Entry> {
    if exists|i: int| 0 <= i < m.len() && m[i].0 == name {
        let i = choose|i: int| 0 <= i < m.len() && m[i].0 == name;
        m.update(i, (name, m[i].1.push(call)))
    } else {
        m.push((name, seq![call]))
    }
}

proof fn lemma_queue_in_at(m: Seq<Entry>, i: int)
    requires
        names_unique(m),
        0 <= i < m.len(),
    ensures
        queue_in(m, m[i].0) == m[i].1,
    decreases m.len(),
{
    if i < m.len() - 1 {
        lemma_queue_in_at(m.drop_last(), i);
    }
}

proof fn lemma_queue_in_absent(m: Seq<Entry>, name: Seq<char>)
    requires
        forall|i: int| 0 <= i < m.len() ==> m[i].0 != name,
    ensures
        queue_in(m, name) == Seq::<Seq<Value>>::empty(),
    decreases m.len(),
{
    if m.len() > 0 {
        lemma_queue_in_absent(m.drop_last(), name);
    }
}

/// The queue under any name is the entry of that name, or empty.
pub proof fn lemma_queue_in(m: Seq<Entry>, name: Seq<char>)
    requires
        names_unique(m),
    ensures
        (exists|i: int| 0 <= i < m.len() && m[i].0 == name) ==> (forall|i: int|
            0 <= i < m.len() && m[i].0 == name ==> queue_in(m, name) == m[i].1),
        !(exists|i: int| 0 <= i < m.len() && m[i].0 == name) ==> queue_in(m, name)
            == Seq::<Seq<Value>>::empty(),
{
    assert forall|i: int| 0 <= i < m.len() && m[i].0 == name implies queue_in(m, name)
        == m[i].1 by {
        lemma_queue_in_at(m, i);
    }
    if !(exists|i: int| 0 <= i < m.len() && m[i].0 == name) {
        lemma_queue_in_absent(m, name);
    }
}

proof fn lemma_count_update(m: Seq<Entry>, i: int, e: Entry)
    requires
        0 <= i < m.len(),
    ensures
        count_in(m.update(i, e)) == count_in(m) - m[i].1.len() + e.1.len(),
    decreases m.len(),
{
    let u = m.update(i, e);
    if i < m.len() - 1 {
        assert(u.drop_last() =~= m.drop_last().update(i, e));
        lemma_count_update(m.drop_last(), i, e);
    } else {
        assert(u.drop_last() =~= m.drop_last());
    }
}

proof fn lemma_count_push(m: Seq<Entry>, e: Entry)
    ensures
        count_in(m.push(e)) == count_in(m) + e.1.len(),
{
    assert(m.push(e).drop_last() =~= m);
}

proof fn lemma_total_update(bs: Seq<Seq<Entry>>, i: int, m: Seq<Entry>)
    requires
        0 <= i < bs.len(),
    ensures
        total_in(bs.update(i, m)) == total_in(bs) - count_in(bs[i]) + count_in(m),
    decreases bs.len(),
{
    let u = bs.update(i, m);
    if i < bs.len() - 1 {
        assert(u.drop_last() =~= bs.drop_last().update(i, m));
        lemma_total_update(bs.drop_last(), i, m);
    } else {
        assert(u.drop_last() =~= bs.drop_last());
    }
}

proof fn lemma_total_empty(bs: Seq<Seq<Entry>>)
    requires
        forall|i: int| 0 <= i < bs.len() ==> bs[i].len() == 0,
    ensures
        total_in(bs) == 0,
    decreases bs.len(),
{
    if bs.len() > 0 {
        lemma_total_empty(bs.drop_last());
    }
}

/// Enqueueing appends to the queue of that name, leaves every other queue as
/// it was, keeps names unique and adds one to the count.
pub proof fn lemma_enqueue(m: Seq<Entry>, name: Seq<char>, call: Seq<Value>)
    requires
        names_unique(m),
    ensures
        names_unique(enqueue(m, name, call)),
        queue_in(enqueue(m, name, call), name) == queue_in(m, name).push(call),
        forall|n: Seq<char>| n != name ==> queue_in(enqueue(m, name, call), n) == queue_in(m, n),
        count_in(enqueue(m, name, call)) == count_in(m) + 1,
{
    let r = enqueue(m, name, call);
    lemma_queue_in(m, name);
    if exists|i: int| 0 <= i < m.len() && m[i].0 == name {
        let i = choose|i: int| 0 <= i < m.len() && m[i].0 == name;
        lemma_count_update(m, i, (name, m[i].1.push(call)));
        assert(names_unique(r));
        lemma_queue_in_at(r, i);
        assert forall|n: Seq<char>| n != name implies queue_in(r, n) == queue_in(m, n) by {
            lemma_queue_in(m, n);
            lemma_queue_in(r, n);
            if exists|j: int| 0 <= j < m.len() && m[j].0 == n {
                let j = choose|j: int| 0 <= j < m.len() && m[j].0 == n;
                assert(r[j].0 == n);
            } else {
                assert forall|j: int| 0 <= j < r.len() implies r[j].0 != n by {
                    if j != i {
                        assert(r[j] == m[j]);
                    }
                }
            }
        }
    } else {
        lemma_count_push(m, (name, seq![call]));
        assert(names_unique(r));
        lemma_queue_in_at(r, m.len() as int);
        assert(seq![call] =~= Seq::<Seq<Value>>::empty().push(call));
        assert forall|n: Seq<char>| n != name implies queue_in(r, n) == queue_in(m, n) by {
            assert(r.drop_last() =~= m);
        }
    }
}

proof fn lemma_count_take(m: Seq<Entry>, j: int)
    requires
        0 <= j < m.len(),
    ensures
        count_in(m.take(j + 1)) == count_in(m.take(j)) + m[j].1.len(),
{
    assert(m.take(j + 1).drop_last() =~= m.take(j));
}

proof fn lemma_count_prefix_le(m: Seq<Entry>, j: int)
    requires
        0 <= j <= m.len(),
    ensures
        count_in(m.take(j)) <= count_in(m),
    decreases m.len() - j,
{
    if j < m.len() {
        lemma_count_take(m, j);
        lemma_count_prefix_le(m, j + 1);
    } else {
        assert(m.take(j) =~= m);
    }
}

/// No mailbox holds more than all mailboxes together.
pub proof fn lemma_count_le_total(bs: Seq<Seq<Entry>>, i: int)
    requires
        0 <= i < bs.len(),
    ensures
        count_in(bs[i]) <= total_in(bs),
{
    lemma_total_update(bs, i, Seq::<Entry>::empty());
}

/// The pending deliveries of one actor, grouped by handler name.
pub struct Mailbox {
    names: Vec<String>,
    queues: Vec<Vec<Call>>,
}

impl View for Mailbox {
    type V = Seq<Entry>;

    closed spec fn view(&self) -> Seq<Entry> {
        Seq::new(
            self.names@.len(),
            |i: int| (self.names@[i]@, self.queues@[i]@.map_values(|c: Call| c@)),
        )
    }
}

impl Mailbox {
    /// The mailbox is well formed: one queue per name, and no name twice.
    pub closed spec fn wf(&self) -> bool {
        &&& self.names@.len() == self.queues@.len()
        &&& names_unique(self@)
    }

    /// An empty mailbox.
    pub fn new() -> (r: Mailbox)
        ensures
            r.wf(),
            r@ == Seq::<Entry>::empty(),
    {
        let r = Mailbox { names: Vec::new(), queues: Vec::new() };
        assert(r@ =~= Seq::<Entry>::empty());
        r
    }

    /// The handler names and their queues, in the mailbox's order.
    pub fn into_parts(self) -> (r: (Vec<String>, Vec<Vec<Call>>))
        requires
            self.wf(),
        ensures
            r.0@.len() == self@.len(),
            r.1@.len() == self@.len(),
            forall|i: int|
                0 <= i < self@.len() ==> (#[trigger] r.0@[i])@ == self@[i].0 && r.1@[i]@.map_values(
                    |c: Call| c@,
                ) == self@[i].1,
    {
        (self.names, self.queues)
    }

    /// Number of argument tuples queued over all handler names.
    pub fn count(&self) -> (r: usize)
        requires
            self.wf(),
            count_in(self@) <= usize::MAX,
        ensures
            r == count_in(self@),
    {
        let mut acc: usize = 0;
        let mut j: usize = 0;
        proof {
            assert(self@.take(0) =~= Seq::<Entry>::empty());
        }
        while j < self.queues.len()
            invariant
                self.wf(),
                count_in(self@) <= usize::MAX,
                j <= self@.len(),
                acc == count_in(self@.take(j as int)),
            decreases self@.len() - j,
        {
            proof {
                lemma_count_take(self@, j as int);
                lemma_count_prefix_le(self@, j + 1);
            }
            acc = acc + self.queues[j].len();
            j = j + 1;
        }
        proof {
            assert(self@.take(j as int) =~= self@);
        }
        acc
    }

    /// Appends `call` to the queue of handler `name`.
    pub fn push(&mut self, name: String, call: Call)
        requires
            old(self).wf(),
        ensures
            final(self).wf(),
            final(self)@ == enqueue(old(self)@, name@, call@),
    {
        let ghost m = self@;
        let mut i: usize = 0;
        let mut found = false;
        while !found && i < self.names.len()
            invariant
                self.wf(),
                self@ == m,
                i <= self@.len(),
                forall|j: int| 0 <= j < i ==> m[j].0 != name@,
                found ==> i < self@.len() && m[i as int].0 == name@,
            decreases self@.len() - i + (if found { 0int } else { 1int }),
        {
            if self.names[i] == name {
                found = true;
            } else {
                i = i + 1;
            }
        }
        if found {
            let ghost q = self.queues@[i as int];
            self.queues[i].push(call);
            proof {
                assert(exists|k: int| 0 <= k < m.len() && m[k].0 == name@);
                let k = choose|k: int| 0 <= k < m.len() && m[k].0 == name@;
                assert(k == i);
                assert(q@.push(call).map_values(|c: Call| c@) =~= q@.map_values(|c: Call| c@).push(
                    call@,
                ));
                assert(self@ =~= enqueue(m, name@, call@));
            }
            return;
        }
        let ghost n = name@;
        self.names.push(name);
        let mut q: Vec<Call> = Vec::new();
        q.push(call);
        self.queues.push(q);
        proof {
            assert(!(exists|k: int| 0 <= k < m.len() && m[k].0 == n));
            assert(q@.map_values(|c: Call| c@) =~= seq![call@]);
            assert(self@ =~= m.push((n, seq![call@])));
        }
    }
}

/// The mailboxes of all actors, indexed by address, with the number of
/// deliveries pending over all of them.
pub struct Usps {
    boxes: Vec<Mailbox>,
    n_queued: usize,
}

impl View for Usps {
    type V = Seq<Seq<Entry>>;

    closed spec fn view(&self) -> Seq<Seq<Entry>> {
        self.boxes@.map_values(|b: Mailbox| b@)
    }
}

impl Usps {
    /// Every mailbox is well formed and the pending count is the number of
    /// argument tuples queued over all mailboxes.
    pub closed spec fn wf(&self) -> bool {
        &&& forall|i: int| 0 <= i < self.boxes@.len() ==> #[trigger] self.boxes@[i].wf()
        &&& self.n_queued == total_in(self@)
    }

    /// Number of deliveries pending over all mailboxes.
    pub closed spec fn pending(&self) -> nat {
        self.n_queued as nat
    }

    /// The pending count of a well-formed set is the number of argument tuples
    /// queued over all of its mailboxes.
    pub proof fn lemma_pending_total(&self)
        requires
            self.wf(),
        ensures
            self.pending() == total_in(self@),
    {
    }

    /// A set holding the single mailbox of the host address.
    pub fn new() -> (r: Usps)
        ensures
            r.wf(),
            r@ == seq![Seq::<Entry>::empty()],
            r.pending() == 0,
    {
        let mut boxes: Vec<Mailbox> = Vec::new();
        boxes.push(Mailbox::new());
        let r = Usps { boxes, n_queued: 0 };
        proof {
            assert(r.boxes@[0].wf());
            assert(r@ =~= seq![Seq::<Entry>::empty()]);
            assert(r@.drop_last() =~= Seq::<Seq<Entry>>::empty());
            assert(total_in(r@.drop_last()) == 0);
            assert(count_in(r@.last()) == 0);
        }
        r
    }

    /// Number of deliveries pending over all mailboxes.
    pub fn n_queued(&self) -> (r: usize)
        ensures
            r == self.pending(),
    {
        self.n_queued
    }

    /// Adds an empty mailbox for a new address.
    pub fn push(&mut self)
        requires
            old(self).wf(),
        ensures
            final(self).wf(),
            final(self)@ == old(self)@.push(Seq::<Entry>::empty()),
            final(self).pending() == old(self).pending(),
    {
        let ghost bs = self@;
        self.boxes.push(Mailbox::new());
        proof {
            assert(self@ =~= bs.push(Seq::<Entry>::empty()));
            assert(self@.drop_last() =~= bs);
        }
    }

    /// Appends `args` to the queue of handler `msg_name` in the mailbox of
    /// `to`, and counts it as pending; `InvalidAddressError` if there is no
    /// mailbox at `to`.
    pub fn send_to(&mut self, to: u32, msg_name: String, args: Call) -> (r: Result<(), Error>)
        requires
            old(self).wf(),
            old(self).pending() < usize::MAX,
        ensures
            final(self).wf(),
            r is Ok <==> (to as int) < old(self)@.len(),
            r is Err ==> r == Err::<(), Error>(Error::InvalidAddressError) && *final(self) == *old(
                self,
            ),
            r is Ok ==> final(self)@ == old(self)@.update(
                to as int,
                enqueue(old(self)@[to as int], msg_name@, args@),
            ),
            r is Ok ==> final(self).pending() == old(self).pending() + 1,
    {
        if to as usize >= self.boxes.len() {
            return Err(Error::InvalidAddressError);
        }
        let ghost bs = self@;
        let ghost m = self@[to as int];
        proof {
            assert(self.boxes@[to as int].wf());
            lemma_enqueue(m, msg_name@, args@);
            lemma_total_update(bs, to as int, enqueue(m, msg_name@, args@));
        }
        self.boxes[to as usize].push(msg_name, args);
        self.n_queued = self.n_queued + 1;
        proof {
            assert(self@ =~= bs.update(to as int, enqueue(m, msg_name@, args@)));
        }
        Ok(())
    }

    /// Discards every delivery queued in the mailbox of `a`.
    pub fn clear(&mut self, a: usize)
        requires
            old(self).wf(),
            a < old(self)@.len(),
        ensures
            final(self).wf(),
            final(self)@ == old(self)@.update(a as int, Seq::<Entry>::empty()),
            final(self).pending() == old(self).pending() - count_in(old(self)@[a as int]),
    {
        let ghost bs = self@;
        proof {
            assert(self.boxes@[a as int].wf());
            lemma_count_le_total(bs, a as int);
            lemma_total_update(bs, a as int, Seq::<Entry>::empty());
        }
        let n = self.boxes[a].count();
        self.boxes.set(a, Mailbox::new());
        self.n_queued = self.n_queued - n;
        proof {
            assert(self@ =~= bs.update(a as int, Seq::<Entry>::empty()));
            assert(forall|i: int| 0 <= i < self.boxes@.len() && i != a ==> self.boxes@[i] == old(
                self,
            ).boxes@[i]);
        }
    }

    /// Empties every mailbox and the pending count, and returns the previous
    /// contents, indexed by address.
    pub fn drain(&mut self) -> (r: Vec<Mailbox>)
        requires
            old(self).wf(),
        ensures
            final(self).wf(),
            final(self).pending() == 0,
            final(self)@.len() == old(self)@.len(),
            forall|i: int| 0 <= i < final(self)@.len() ==> final(self)@[i] == Seq::<Entry>::empty(),
            r@.len() == old(self)@.len(),
            forall|i: int| 0 <= i < r@.len() ==> (#[trigger] r@[i]).wf() && r@[i]@ == old(self)@[i],
    {
        let mut fresh: Vec<Mailbox> = Vec::new();
        let mut i: usize = 0;
        while i < self.boxes.len()
            invariant
                i <= self.boxes@.len(),
                fresh@.len() == i,
                forall|j: int| 0 <= j < i ==> (#[trigger] fresh@[j]).wf() && fresh@[j]@
                    == Seq::<Entry>::empty(),
            decreases self.boxes@.len() - i,
        {
            fresh.push(Mailbox::new());
            i = i + 1;
        }
        let ghost bs = self@;
        let mut old_boxes = fresh;
        std::mem::swap(&mut self.boxes, &mut old_boxes);
        self.n_queued = 0;
        proof {
            lemma_total_empty(self@);
        }
        old_boxes
    }
}

} // verus!
