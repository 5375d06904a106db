//! The scheduler: the address table of actors, the free list of recycled
//! addresses, the mailboxes, and the decisions of every runtime operation.
//!
//! The WebAssembly engine itself (compiling, instantiating, and running guest
//! code, which calls back into the runtime) is driven by the embedding: each
//! actor carries the engine's handle for it as an opaque `H`.
use vstd::prelude::*;
use crate::error::{Error, WasmError};
use crate::mailbox::{
    count_in, enqueue, lemma_enqueue, names_unique, queue_in, total_in, Call, Entry, Mailbox, Usps,
};
use crate::memory::{c_string_at, get_utf8_string_with_nul, handler_name, handler_prefix};
use crate::value::{call_args, marshal_args, ValType, Value};

verus! {

/// The address of an actor. Zero is the host.
pub type Address = u32;

/// A function exported by an actor's module, with its signature.
pub struct Export {
    pub name: String,
    pub params: Vec<ValType>,
    pub results: Vec<ValType>,
}

/// An export as a name, parameter types and result types.
pub type ExportSpec = (Seq<char>, Seq<ValType>, Seq<ValType>);

impl View for Export {
    type V = ExportSpec;

    open spec fn view(&self) -> ExportSpec {
        (self.name@, self.params@, self.results@)
    }
}

/// An actor: the module bytes it was spawned from, the exports captured at
/// instantiation, and the engine's handle on its instance and store.
pub struct Actor<H> {
    pub src: Vec<u8>,
    pub abi: Vec<Export>,
    pub engine: H,
}

/// What the runtime knows of an actor: its source and its exports.
pub struct ActorSpec {
    pub src: Seq<u8>,
    pub abi: Seq<ExportSpec>,
}

impl<H> Actor<H> {
    /// The actor's source and exports, as the contracts see them.
    pub open spec fn model(&self) -> ActorSpec {
        ActorSpec { src: self.src@, abi: self.abi@.map_values(|e: Export| e@) }
    }
}

/// The first export of `abi` named `name`.
pub open spec fn sig_in(abi: Seq<ExportSpec>, name: Seq<char>) -> Option<ExportSpec>
    decreases abi.len(),
{
    if abi.len() == 0 {
        None
    } else if abi[0].0 == name {
        Some(abi[0])
    } else {
        sig_in(abi.drop_first(), name)
    }
}

/// Finds the first export of `abi` named `name`.
pub fn find_export(abi: &Vec<Export>, name: &String) -> (r: Option<usize>)
    ensures
        r is None <==> sig_in(abi@.map_values(|e: Export| e@), name@) is None,
        r is Some ==> r->0 < abi@.len() && sig_in(abi@.map_values(|e: Export| e@), name@) == Some(
            abi@[r->0 as int]@,
        ),
{
    let ghost s = abi@.map_values(|e: Export| e@);
    let mut i: usize = 0;
    proof {
        assert(s.skip(0) =~= s);
    }
    while i < abi.len()
        invariant
            i <= abi@.len(),
            s == abi@.map_values(|e: Export| e@),
            sig_in(s, name@) == sig_in(s.skip(i as int), name@),
        decreases abi@.len() - i,
    {
        proof {
            assert(s.skip(i as int)[0] == abi@[i as int]@);
            assert(s.skip(i as int).drop_first() =~= s.skip(i + 1));
        }
        if abi[i].name == *name {
            return Some(i);
        }
        i = i + 1;
    }
    proof {
        assert(s.skip(i as int).len() == 0);
    }
    None
}

/// The runtime as the contracts see it.
pub struct RtView {
    /// The address table: an actor, or nothing, at each address.
    pub slots: Seq<Option<ActorSpec>>,
    /// Addresses freed for reuse; the last one is reused first.
    pub free: Seq<Address>,
    /// The mailbox of each address.
    pub boxes: Seq<Seq<Entry>>,
    /// Number of deliveries pending over all mailboxes.
    pub pending: nat,
    /// The largest address the table may grow to.
    pub max_addr: nat,
}

impl RtView {
    /// An actor is installed at `a`.
    pub open spec fn installed(self, a: int) -> bool {
        0 <= a < self.slots.len() && self.slots[a] is Some
    }

    /// The exports of the actor at `a`.
    pub open spec fn abi(self, a: int) -> Seq<ExportSpec> {
        self.slots[a]->0.abi
    }

    /// The queue of handler `name` in the mailbox of `a`.
    pub open spec fn queue(self, a: int, name: Seq<char>) -> Seq<Seq<Value>> {
        queue_in(self.boxes[a], name)
    }

    /// `a` was handed out by slot allocation and awaits its actor: it is in
    /// the table, empty, not the host, and not on the free list.
    pub open spec fn reserved(self, a: int) -> bool {
        &&& 0 < a < self.slots.len()
        &&& self.slots[a] is None
        &&& !self.free.contains(a as Address)
    }

    /// The runtime after `call` is queued for handler `name` of `to`.
    pub open spec fn with_message(self, to: int, name: Seq<char>, call: Seq<Value>) -> RtView {
        RtView {
            boxes: self.boxes.update(to, enqueue(self.boxes[to], name, call)),
            pending: self.pending + 1,
            ..self
        }
    }

    /// Slot allocation: the address handed out and the runtime after it, or
    /// `None` when no address is left.
    pub open spec fn alloc_step(self) -> Option<(Address, RtView)> {
        if self.free.len() > 0 {
            Some((self.free.last(), RtView { free: self.free.drop_last(), ..self }))
        } else if self.slots.len() <= self.max_addr {
            Some(
                (
                    self.slots.len() as Address,
                    RtView {
                        slots: self.slots.push(None),
                        boxes: self.boxes.push(Seq::<Entry>::empty()),
                        ..self
                    },
                ),
            )
        } else {
            None
        }
    }

    /// The message a `send_message` host call queues: the handler name and
    /// the argument tuple, or `None` when the call is dropped. `mem` is the
    /// linear memory of the sender `from`.
    pub open spec fn message_of(
        self,
        from: Address,
        to: Address,
        name_ptr: i32,
        arg_ptr: i32,
        mem: Seq<u8>,
    ) -> Option<(Seq<char>, Seq<Value>)> {
        if from == 0 || to == 0 || !self.installed(from as int) || !self.installed(to as int) {
            None
        } else {
            match c_string_at(mem, name_ptr as u32 as int) {
                None => None,
                Some(n) => {
                    let h = handler_prefix() + n;
                    match sig_in(self.abi(to as int), h) {
                        None => None,
                        Some(e) => match call_args(from, e.1, mem, arg_ptr as u32 as int) {
                            None => None,
                            Some(args) => Some((h, args)),
                        },
                    }
                },
            }
        }
    }

    /// The batches a drain pass dispatches, in dispatch order.
    pub open spec fn dispatch_plan(self) -> Seq<BatchSpec> {
        pass_batches(self.slots, self.boxes, self.slots.len())
    }

    /// The runtime after a drain pass has emptied every mailbox.
    pub open spec fn drained(self) -> RtView {
        RtView {
            boxes: Seq::new(self.boxes.len(), |i: int| Seq::<Entry>::empty()),
            pending: 0,
            ..self
        }
    }

    /// The invariants that hold of the runtime after every operation.
    pub open spec fn inv(self) -> bool {
        &&& self.slots.len() >= 1
        &&& self.slots[0] is None
        &&& self.slots.len() <= self.max_addr + 1
        &&& self.max_addr <= u32::MAX
        &&& self.boxes.len() == self.slots.len()
        &&& self.pending == total_in(self.boxes)
        &&& forall|i: int| 0 <= i < self.boxes.len() ==> names_unique(#[trigger] self.boxes[i])
        &&& forall|k: int|
            0 <= k < self.free.len() ==> 0 < #[trigger] self.free[k] < self.slots.len()
                && self.slots[self.free[k] as int] is None
        &&& forall|k: int, l: int| 0 <= k < l < self.free.len() ==> self.free[k] != self.free[l]
    }
}

/// A pass's deliveries to one handler of one actor: its address, the
/// handler's name, and the argument tuples in the order they were queued.
pub struct Batch {
    pub to: Address,
    pub handler: String,
    pub calls: Vec<Call>,
}

/// A batch as an address, a handler name and a sequence of argument tuples.
pub type BatchSpec = (nat, Seq<char>, Seq<Seq<Value>>);

impl View for Batch {
    type V = BatchSpec;

    open spec fn view(&self) -> BatchSpec {
        (self.to as nat, self.handler@, self.calls@.map_values(|c: Call| c@))
    }
}

/// The batches of mailbox `m` of the actor at `to` with exports `abi`: one
/// per handler name the actor exports, in the mailbox's order; queues for
/// names it does not export are dropped.
pub open spec fn box_batches(to: nat, m: Seq<Entry>, abi: Seq<ExportSpec>) -> Seq<BatchSpec>
    decreases m.len(),
{
    if m.len() == 0 {
        Seq::empty()
    } else {
        box_batches(to, m.drop_last(), abi) + if sig_in(abi, m.last().0) is Some {
            seq![(to, m.last().0, m.last().1)]
        } else {
            Seq::empty()
        }
    }
}

/// The batches of a drain pass over addresses `1 .. n`, in increasing order
/// of address; mailboxes of empty addresses are dropped.
pub open spec fn pass_batches(slots: Seq<Option<ActorSpec>>, boxes: Seq<Seq<Entry>>, n: nat) -> Seq<
    BatchSpec,
>
    decreases n,
{
    if n <= 1 {
        Seq::empty()
    } else {
        pass_batches(slots, boxes, (n - 1) as nat) + match slots[n - 1] {
            Some(a) => box_batches((n - 1) as nat, boxes[n - 1], a.abi),
            None => Seq::empty(),
        }
    }
}

proof fn lemma_box_batches(to: nat, m: Seq<Entry>, abi: Seq<ExportSpec>, name: Seq<char>)
    requires
        names_unique(m),
    ensures
        forall|k: int|
            0 <= k < box_batches(to, m, abi).len() ==> (#[trigger] box_batches(to, m, abi)[k]).0
                == to && exists|i: int| 0 <= i < m.len() && m[i].0 == box_batches(to, m, abi)[k].1,
        forall|k: int|
            0 <= k < box_batches(to, m, abi).len() && (#[trigger] box_batches(to, m, abi)[k]).1
                == name ==> box_batches(to, m, abi)[k].2 == queue_in(m, name),
        sig_in(abi, name) is Some && (exists|i: int| 0 <= i < m.len() && m[i].0 == name) ==> exists|
            k: int,
        |
            0 <= k < box_batches(to, m, abi).len() && #[trigger] box_batches(to, m, abi)[k] == (
                to,
                name,
                queue_in(m, name),
            ),
    decreases m.len(),
{
    if m.len() > 0 {
        let p = m.drop_last();
        assert(names_unique(p));
        lemma_box_batches(to, p, abi, name);
        let bp = box_batches(to, p, abi);
        let b = box_batches(to, m, abi);
        let last = m.last();
        assert forall|k: int| 0 <= k < b.len() implies (#[trigger] b[k]).0 == to && exists|i: int|
            0 <= i < m.len() && m[i].0 == b[k].1 by {
            if k < bp.len() {
                assert(b[k] == bp[k]);
                let i = choose|i: int| 0 <= i < p.len() && p[i].0 == bp[k].1;
                assert(m[i] == p[i]);
            } else {
                assert(b[k] == (to, last.0, last.1));
                assert(m[m.len() - 1] == last);
            }
        }
        assert forall|k: int| 0 <= k < b.len() && (#[trigger] b[k]).1 == name implies b[k].2
            == queue_in(m, name) by {
            if k < bp.len() {
                assert(b[k] == bp[k]);
                let i = choose|i: int| 0 <= i < p.len() && p[i].0 == bp[k].1;
                assert(m[i] == p[i]);
                assert(m[i].0 != m[m.len() - 1].0);
            } else {
                assert(b[k] == (to, last.0, last.1));
            }
        }
        if sig_in(abi, name) is Some && (exists|i: int| 0 <= i < m.len() && m[i].0 == name) {
            if last.0 == name {
                assert(b[bp.len() as int] == (to, name, queue_in(m, name)));
            } else {
                let i = choose|i: int| 0 <= i < m.len() && m[i].0 == name;
                assert(i < p.len() && p[i] == m[i]);
                let k = choose|k: int| 0 <= k < bp.len() && bp[k] == (to, name, queue_in(p, name));
                assert(b[k] == bp[k]);
            }
        }
    }
}

proof fn lemma_pass_batches(
    slots: Seq<Option<ActorSpec>>,
    boxes: Seq<Seq<Entry>>,
    n: nat,
    to: int,
    name: Seq<char>,
)
    requires
        n <= slots.len(),
        boxes.len() == slots.len(),
        0 < to < slots.len(),
        slots[to] is Some,
        names_unique(boxes[to]),
    ensures
        forall|k: int|
            0 <= k < pass_batches(slots, boxes, n).len() ==> 1 <= (#[trigger] pass_batches(
                slots,
                boxes,
                n,
            )[k]).0 < n,
        forall|k: int|
            0 <= k < pass_batches(slots, boxes, n).len() && (#[trigger] pass_batches(
                slots,
                boxes,
                n,
            )[k]).0 == to && pass_batches(slots, boxes, n)[k].1 == name ==> pass_batches(
                slots,
                boxes,
                n,
            )[k].2 == queue_in(boxes[to], name),
        to < n && sig_in(slots[to]->0.abi, name) is Some && queue_in(boxes[to], name).len() > 0
            ==> exists|k: int|
            0 <= k < pass_batches(slots, boxes, n).len() && #[trigger] pass_batches(
                slots,
                boxes,
                n,
            )[k] == (to as nat, name, queue_in(boxes[to], name)),
    decreases n,
{
    if n > 1 {
        let a = (n - 1) as nat;
        lemma_pass_batches(slots, boxes, a, to, name);
        let bp = pass_batches(slots, boxes, a);
        let b = pass_batches(slots, boxes, n);
        let part = match slots[a as int] {
            Some(x) => box_batches(a, boxes[a as int], x.abi),
            None => Seq::empty(),
        };
        assert(b == bp + part);
        if slots[a as int] is Some {
            if a == to {
                lemma_box_batches(a, boxes[a as int], slots[a as int]->0.abi, name);
            } else {
                assert(names_unique(boxes[to]));
                lemma_box_batches_addr(a, boxes[a as int], slots[a as int]->0.abi);
            }
        }
        assert forall|k: int| 0 <= k < b.len() implies 1 <= (#[trigger] b[k]).0 < n by {
            if k < bp.len() {
                assert(b[k] == bp[k]);
            } else {
                assert(b[k] == part[k - bp.len()]);
            }
        }
        assert forall|k: int| 0 <= k < b.len() && (#[trigger] b[k]).0 == to && b[k].1 == name implies b[k].2
            == queue_in(boxes[to], name) by {
            if k < bp.len() {
                assert(b[k] == bp[k]);
            } else {
                assert(b[k] == part[k - bp.len()]);
            }
        }
        if to < n && sig_in(slots[to]->0.abi, name) is Some && queue_in(boxes[to], name).len() > 0 {
            if a == to {
                crate::mailbox::lemma_queue_in(boxes[to], name);
                let k = choose|k: int|
                    0 <= k < part.len() && part[k] == (to as nat, name, queue_in(boxes[to], name));
                assert(b[bp.len() + k] == part[k]);
            } else {
                let k = choose|k: int|
                    0 <= k < bp.len() && bp[k] == (to as nat, name, queue_in(boxes[to], name));
                assert(b[k] == bp[k]);
            }
        }
    }
}

proof fn lemma_box_batches_addr(to: nat, m: Seq<Entry>, abi: Seq<ExportSpec>)
    ensures
        forall|k: int|
            0 <= k < box_batches(to, m, abi).len() ==> (#[trigger] box_batches(to, m, abi)[k]).0
                == to,
    decreases m.len(),
{
    if m.len() > 0 {
        lemma_box_batches_addr(to, m.drop_last(), abi);
        let bp = box_batches(to, m.drop_last(), abi);
        let b = box_batches(to, m, abi);
        assert forall|k: int| 0 <= k < b.len() implies (#[trigger] b[k]).0 == to by {
            if k < bp.len() {
                assert(b[k] == bp[k]);
            }
        }
    }
}

/// A drain pass hands each installed actor the queue of every handler it
/// exports exactly as it was queued: there is one batch for the handler, and
/// every batch for it carries that queue, oldest first.
pub proof fn lemma_dispatch_fifo(v: RtView, to: int, name: Seq<char>)
    requires
        v.inv(),
        v.installed(to),
        sig_in(v.abi(to), name) is Some,
        v.queue(to, name).len() > 0,
    ensures
        exists|k: int|
            0 <= k < v.dispatch_plan().len() && #[trigger] v.dispatch_plan()[k] == (
                to as nat,
                name,
                v.queue(to, name),
            ),
        forall|k: int|
            0 <= k < v.dispatch_plan().len() && (#[trigger] v.dispatch_plan()[k]).0 == to
                && v.dispatch_plan()[k].1 == name ==> v.dispatch_plan()[k].2 == v.queue(to, name),
{
    assert(names_unique(v.boxes[to]));
    lemma_pass_batches(v.slots, v.boxes, v.slots.len(), to, name);
    let p = v.dispatch_plan();
    let k = choose|k: int|
        0 <= k < p.len() && #[trigger] pass_batches(v.slots, v.boxes, v.slots.len())[k] == (
            to as nat,
            name,
            queue_in(v.boxes[to], name),
        );
    assert(p[k] == (to as nat, name, v.queue(to, name)));
}

/// Two messages queued in turn for the same handler of the same actor, with
/// no drain between them, are dispatched in that order: the next pass hands
/// the handler a single batch that ends with the first and then the second.
pub proof fn lemma_send_order(v: RtView, to: int, name: Seq<char>, m1: Seq<Value>, m2: Seq<Value>)
    requires
        v.inv(),
        v.installed(to),
        sig_in(v.abi(to), name) is Some,
    ensures
        ({
            let w = v.with_message(to, name, m1).with_message(to, name, m2);
            &&& w.queue(to, name) == v.queue(to, name) + seq![m1, m2]
            &&& exists|k: int|
                0 <= k < w.dispatch_plan().len() && #[trigger] w.dispatch_plan()[k] == (
                    to as nat,
                    name,
                    v.queue(to, name) + seq![m1, m2],
                )
            &&& forall|k: int|
                0 <= k < w.dispatch_plan().len() && (#[trigger] w.dispatch_plan()[k]).0 == to
                    && w.dispatch_plan()[k].1 == name ==> w.dispatch_plan()[k].2 == v.queue(to, name)
                    + seq![m1, m2]
        }),
{
    let v1 = v.with_message(to, name, m1);
    let w = v1.with_message(to, name, m2);
    assert(names_unique(v.boxes[to]));
    lemma_enqueue(v.boxes[to], name, m1);
    assert(v1.boxes[to] == enqueue(v.boxes[to], name, m1));
    lemma_enqueue(v1.boxes[to], name, m2);
    assert(w.boxes[to] == enqueue(v1.boxes[to], name, m2));
    assert(w.queue(to, name) =~= v.queue(to, name) + seq![m1, m2]);
    lemma_pass_batches(w.slots, w.boxes, w.slots.len(), to, name);
}

/// The address a message from `from` carries: the sender, or zero for the host.
pub open spec fn sender_of(from: Option<Address>) -> Address {
    match from {
        Some(a) => a,
        None => 0,
    }
}

/// Name of the handler scheduled on every actor right after it is installed.
pub open spec fn init_async_name() -> Seq<char> {
    seq!['i', 'n', 'i', 't', '_', 'a', 's', 'y', 'n', 'c']
}

/// Name of the export called while an actor is spawned, before it is installed.
pub open spec fn init_name() -> Seq<char> {
    seq!['i', 'n', 'i', 't']
}

/// The argument tuple of a host impulse from `from`: the sender's address,
/// then `params`.
pub open spec fn impulse_args(from: Option<Address>, params: Seq<Value>) -> Seq<Value> {
    seq![Value::I32(sender_of(from) as i32)] + params
}

proof fn lemma_names_unique_empty()
    ensures
        names_unique(Seq::<Entry>::empty()),
{
}

/// The runtime: a table of actors indexed by address, the addresses freed
/// for reuse, and a mailbox per address.
pub struct Rt<H> {
    children: Vec<Option<Actor<H>>>,
    free_slots: Vec<Address>,
    mailboxes: Usps,
    max_addr: u32,
}

impl<H> View for Rt<H> {
    type V = RtView;

    closed spec fn view(&self) -> RtView {
        RtView {
            slots: self.children@.map_values(
                |c: Option<Actor<H>>|
                    match c {
                        Some(a) => Some(a.model()),
                        None => None,
                    },
            ),
            free: self.free_slots@,
            boxes: self.mailboxes@,
            pending: self.mailboxes.pending(),
            max_addr: self.max_addr as nat,
        }
    }
}

/// A well-formed runtime keeps one mailbox per address, counts as pending
/// exactly the argument tuples queued over all mailboxes, and lists on its
/// free list only empty addresses.
pub proof fn lemma_runtime_invariants<H>(rt: &Rt<H>)
    requires
        rt.wf(),
    ensures
        rt@.boxes.len() == rt@.slots.len(),
        rt@.pending == total_in(rt@.boxes),
        forall|k: int|
            0 <= k < rt@.free.len() ==> 0 < #[trigger] rt@.free[k] < rt@.slots.len() && rt@.slots[rt@.free[k] as int] is None,
{
}

impl<H> Rt<H> {
    /// The runtime is well formed.
    pub closed spec fn wf(&self) -> bool {
        &&& self.mailboxes.wf()
        &&& self@.inv()
    }

    /// A runtime with no actors whose table may grow up to address `max_addr`.
    pub fn with_max_address(max_addr: u32) -> (r: Rt<H>)
        ensures
            r.wf(),
            r@.slots == seq![Option::<ActorSpec>::None],
            r@.free == Seq::<Address>::empty(),
            r@.boxes == seq![Seq::<Entry>::empty()],
            r@.pending == 0,
            r@.max_addr == max_addr,
    {
        let mut children: Vec<Option<Actor<H>>> = Vec::new();
        children.push(None);
        let r = Rt { children, free_slots: Vec::new(), mailboxes: Usps::new(), max_addr };
        proof {
            r.mailboxes.lemma_pending_total();
            assert(r@.slots =~= seq![Option::<ActorSpec>::None]);
            assert(names_unique(r@.boxes[0]));
        }
        r
    }

    /// A runtime with no actors, whose table may use every 32-bit address.
    pub fn new() -> (r: Rt<H>)
        ensures
            r.wf(),
            r@.slots == seq![Option::<ActorSpec>::None],
            r@.free == Seq::<Address>::empty(),
            r@.boxes == seq![Seq::<Entry>::empty()],
            r@.pending == 0,
            r@.max_addr == u32::MAX,
    {
        Self::with_max_address(u32::MAX)
    }

    /// Length of the address table.
    pub fn table_len(&self) -> (r: usize)
        requires
            self.wf(),
        ensures
            r == self@.slots.len(),
    {
        self.children.len()
    }

    /// Number of deliveries pending over all mailboxes.
    pub fn pending(&self) -> (r: usize)
        requires
            self.wf(),
        ensures
            r == self@.pending,
    {
        self.mailboxes.n_queued()
    }

    /// The free list, oldest first.
    pub fn free_slots(&self) -> (r: &Vec<Address>)
        ensures
            r@ == self@.free,
    {
        &self.free_slots
    }

    /// Whether `addr` is on the free list.
    fn is_free(&self, addr: Address) -> (r: bool)
        ensures
            r == self@.free.contains(addr),
    {
        let mut k: usize = 0;
        while k < self.free_slots.len()
            invariant
                k <= self.free_slots@.len(),
                forall|j: int| 0 <= j < k ==> self.free_slots@[j] != addr,
            decreases self.free_slots@.len() - k,
        {
            if self.free_slots[k] == addr {
                proof {
                    assert(self@.free[k as int] == addr);
                }
                return true;
            }
            k = k + 1;
        }
        false
    }

    /// Whether an actor is installed at `addr`.
    pub fn is_installed(&self, addr: Address) -> (r: bool)
        requires
            self.wf(),
        ensures
            r == self@.installed(addr as int),
    {
        (addr as usize) < self.children.len() && self.children[addr as usize].is_some()
    }

    /// The actor installed at `addr`.
    pub fn actor(&self, addr: Address) -> (r: Option<&Actor<H>>)
        requires
            self.wf(),
        ensures
            r is Some <==> self@.installed(addr as int),
            r is Some ==> self@.slots[addr as int] == Some(r->0.model()),
    {
        if (addr as usize) < self.children.len() {
            match &self.children[addr as usize] {
                Some(a) => Some(a),
                None => None,
            }
        } else {
            None
        }
    }

    /// Hands out an address for a new actor: the most recently freed one if
    /// any, else a fresh slot at the end of the table with its own mailbox.
    /// `NoFreeAddrs` when nothing is free and the table has reached its
    /// largest address.
    pub fn allocate_slot(&mut self) -> (r: Result<Address, Error>)
        requires
            old(self).wf(),
        ensures
            final(self).wf(),
            old(self)@.alloc_step() is None ==> r == Err::<Address, Error>(Error::NoFreeAddrs)
                && final(self)@ == old(self)@,
            old(self)@.alloc_step() matches Some((a, w)) ==> r == Ok::<Address, Error>(a)
                && final(self)@ == w,
            old(self)@.free.len() == 0 && old(self)@.slots.len() > old(self)@.max_addr ==> r
                == Err::<Address, Error>(Error::NoFreeAddrs),
            r is Ok ==> final(self)@.reserved(r->Ok_0 as int),
    {
        let ghost v = self@;
        proof {
            self.mailboxes.lemma_pending_total();
        }
        if let Some(slot) = self.free_slots.pop() {
            proof {
                assert(self@.free =~= v.free.drop_last());
                assert(self@ =~= (RtView { free: v.free.drop_last(), ..v }));
                assert(v.free.last() == v.free[v.free.len() - 1]);
                assert forall|k: int| 0 <= k < self@.free.len() implies self@.free[k] != slot by {
                    assert(v.free[k] != v.free[v.free.len() - 1]);
                }
            }
            return Ok(slot);
        }
        if self.children.len() > self.max_addr as usize {
            return Err(Error::NoFreeAddrs);
        }
        let slot = self.children.len() as u32;
        self.children.push(None);
        self.mailboxes.push();
        proof {
            self.mailboxes.lemma_pending_total();
            let w = RtView {
                slots: v.slots.push(None),
                boxes: v.boxes.push(Seq::<Entry>::empty()),
                ..v
            };
            assert(self@.slots =~= w.slots);
            assert(self@ =~= w);
            assert(self@.boxes.drop_last() =~= v.boxes);
            assert(count_in(Seq::<Entry>::empty()) == 0);
            assert(names_unique(self@.boxes[v.boxes.len() as int]));
            assert(!self@.free.contains(slot));
        }
        Ok(slot)
    }

    /// Installs `actor` at the reserved address `slot`;
    /// `InvalidAddressError` if `slot` is not reserved.
    pub fn install(&mut self, slot: Address, actor: Actor<H>) -> (r: Result<(), Error>)
        requires
            old(self).wf(),
        ensures
            final(self).wf(),
            r is Ok <==> old(self)@.reserved(slot as int),
            r is Ok ==> final(self)@ == (RtView {
                slots: old(self)@.slots.update(slot as int, Some(actor.model())),
                ..old(self)@
            }),
            r is Err ==> r == Err::<(), Error>(Error::InvalidAddressError) && final(self)@ == old(
                self,
            )@,
    {
        if slot == 0 || slot as usize >= self.children.len() || self.children[slot as usize].is_some() {
            return Err(Error::InvalidAddressError);
        }
        if self.is_free(slot) {
            return Err(Error::InvalidAddressError);
        }
        let ghost v = self@;
        let ghost m = actor.model();
        self.children.set(slot as usize, Some(actor));
        proof {
            assert(self@.slots =~= v.slots.update(slot as int, Some(m)));
            assert(self@ =~= (RtView { slots: v.slots.update(slot as int, Some(m)), ..v }));
            assert forall|j: int| 0 <= j < self@.free.len() implies self@.free[j] != slot by {}
        }
        Ok(())
    }

    /// Removes the actor at `addr` and puts `addr` on the free list, dropping
    /// the deliveries queued for it; `InvalidAddressError` if no actor is
    /// installed there.
    pub fn destroy(&mut self, addr: Address) -> (r: Result<Actor<H>, Error>)
        requires
            old(self).wf(),
        ensures
            final(self).wf(),
            r is Ok <==> old(self)@.installed(addr as int),
            r is Ok ==> old(self)@.slots[addr as int] == Some(r->Ok_0.model()) && final(self)@ == (
            RtView {
                slots: old(self)@.slots.update(addr as int, None),
                free: old(self)@.free.push(addr),
                boxes: old(self)@.boxes.update(addr as int, Seq::<Entry>::empty()),
                pending: (old(self)@.pending - count_in(old(self)@.boxes[addr as int])) as nat,
                ..old(self)@
            }),
            r is Err ==> (r matches Err(Error::InvalidAddressError)) && final(self)@ == old(self)@,
    {
        if addr as usize >= self.children.len() || self.children[addr as usize].is_none() {
            return Err(Error::InvalidAddressError);
        }
        let ghost v = self@;
        proof {
            self.mailboxes.lemma_pending_total();
            assert(!v.free.contains(addr)) by {
                if v.free.contains(addr) {
                    let k = choose|k: int| 0 <= k < v.free.len() && v.free[k] == addr;
                    assert(v.slots[v.free[k] as int] is None);
                }
            }
        }
        let mut taken: Option<Actor<H>> = None;
        self.children.set_and_swap(addr as usize, &mut taken);
        self.free_slots.push(addr);
        self.mailboxes.clear(addr as usize);
        proof {
            self.mailboxes.lemma_pending_total();
            lemma_names_unique_empty();
            assert(self@.slots =~= v.slots.update(addr as int, None));
            assert(self@ =~= (RtView {
                slots: v.slots.update(addr as int, None),
                free: v.free.push(addr),
                boxes: v.boxes.update(addr as int, Seq::<Entry>::empty()),
                pending: (v.pending - count_in(v.boxes[addr as int])) as nat,
                ..v
            }));
            assert forall|k: int, l: int| 0 <= k < l < self@.free.len() implies self@.free[k]
                != self@.free[l] by {
                if l == self@.free.len() - 1 {
                    assert(v.free.contains(v.free[k]));
                }
            }
        }
        match taken {
            Some(a) => Ok(a),
            None => Err(Error::InvalidAddressError),
        }
    }

    /// Queues a delivery from the host, or from `from`, to handler
    /// `handle_<msg_name>` of `to`, with `params` after the sender's address;
    /// `InvalidAddressError` if `to` is outside the table.
    pub fn impulse(&mut self, from: Option<Address>, to: Address, msg_name: &str, params: &[Value]) -> (r:
        Result<(), Error>)
        requires
            old(self).wf(),
            old(self)@.pending < usize::MAX,
        ensures
            final(self).wf(),
            r is Ok <==> (to as int) < old(self)@.slots.len(),
            r is Ok ==> final(self)@ == old(self)@.with_message(
                to as int,
                handler_prefix() + msg_name@,
                impulse_args(from, params@),
            ),
            r is Err ==> r == Err::<(), Error>(Error::InvalidAddressError) && final(self)@ == old(self)@,
    {
        let sender: Address = match from {
            Some(a) => a,
            None => 0,
        };
        let mut args: Vec<Value> = Vec::new();
        args.push(Value::I32(sender as i32));
        let mut i: usize = 0;
        while i < params.len()
            invariant
                i <= params@.len(),
                args@ == seq![Value::I32(sender as i32)] + params@.take(i as int),
            decreases params@.len() - i,
        {
            args.push(params[i]);
            i = i + 1;
            proof {
                assert(args@ =~= seq![Value::I32(sender as i32)] + params@.take(i as int));
            }
        }
        proof {
            assert(params@.take(i as int) =~= params@);
            self.mailboxes.lemma_pending_total();
        }
        let name = handler_name(msg_name);
        let ghost v = self@;
        let r = self.mailboxes.send_to(to, name, args);
        proof {
            self.mailboxes.lemma_pending_total();
            if r is Ok {
                lemma_enqueue(v.boxes[to as int], handler_prefix() + msg_name@, impulse_args(from, params@));
                assert(self@ =~= v.with_message(
                    to as int,
                    handler_prefix() + msg_name@,
                    impulse_args(from, params@),
                ));
                assert forall|i: int| 0 <= i < self@.boxes.len() implies names_unique(
                    #[trigger] self@.boxes[i],
                ) by {
                    if i != to {
                        assert(self@.boxes[i] == v.boxes[i]);
                    }
                }
            }
        }
        r
    }

    /// Queues one delivery from the host, or from `from`, to handler
    /// `handle_<msg_name>` of every address in the table, the host's included.
    pub fn impulse_all(&mut self, from: Option<Address>, msg_name: &str, params: &[Value])
        requires
            old(self).wf(),
            old(self)@.pending + old(self)@.slots.len() <= usize::MAX,
        ensures
            final(self).wf(),
            final(self)@ == (RtView {
                boxes: Seq::new(
                    old(self)@.boxes.len(),
                    |i: int|
                        enqueue(
                            old(self)@.boxes[i],
                            handler_prefix() + msg_name@,
                            impulse_args(from, params@),
                        ),
                ),
                pending: (old(self)@.pending + old(self)@.slots.len()) as nat,
                ..old(self)@
            }),
    {
        let ghost v = self@;
        let ghost h = handler_prefix() + msg_name@;
        let ghost args = impulse_args(from, params@);
        let n = self.children.len();
        let mut i: usize = 0;
        proof {
            assert(v.boxes =~= Seq::new(
                v.boxes.len(),
                |j: int|
                    if j < 0 {
                        enqueue(v.boxes[j], h, args)
                    } else {
                        v.boxes[j]
                    },
            ));
        }
        while i < n
            invariant
                self.wf(),
                n == v.slots.len(),
                i <= n,
                v.inv(),
                h == handler_prefix() + msg_name@,
                args == impulse_args(from, params@),
                v.pending + v.slots.len() <= usize::MAX,
                self@ == (RtView {
                    boxes: Seq::new(
                        v.boxes.len(),
                        |j: int|
                            if j < i {
                                enqueue(v.boxes[j], h, args)
                            } else {
                                v.boxes[j]
                            },
                    ),
                    pending: (v.pending + i) as nat,
                    ..v
                }),
            decreases n - i,
        {
            let ghost before = self@;
            proof {
                assert(before.boxes[i as int] == v.boxes[i as int]);
                assert((i as u32) as int == i as int);
                assert(before.pending < usize::MAX);
            }
            let r = self.impulse(from, i as u32, msg_name, params);
            proof {
                assert(r is Ok);
                assert(self@ == before.with_message(i as int, h, args));
                assert(self@.boxes =~= Seq::new(
                    v.boxes.len(),
                    |j: int|
                        if j < i + 1 {
                            enqueue(v.boxes[j], h, args)
                        } else {
                            v.boxes[j]
                        },
                ));
                assert(self@ =~= (RtView {
                    boxes: Seq::new(
                        v.boxes.len(),
                        |j: int|
                            if j < i + 1 {
                                enqueue(v.boxes[j], h, args)
                            } else {
                                v.boxes[j]
                            },
                    ),
                    pending: (v.pending + i + 1) as nat,
                    ..v
                }));
            }
            i = i + 1;
        }
        proof {
            assert(self@.boxes =~= Seq::new(
                v.boxes.len(),
                |j: int| enqueue(v.boxes[j], h, args),
            ));
        }
    }

    /// Handles a `send_message` host call made by the actor at `from`, whose
    /// linear memory is `mem`: reads the handler name at `name_ptr` and the
    /// packed arguments at `arg_ptr`, and queues the message for
    /// `handle_<name>` of `to`. Returns whether the message was queued; it is
    /// dropped silently when either address is zero, either actor is missing,
    /// the name cannot be read, `to` has no such handler, the arguments cannot
    /// be read, or the pending count is at its limit.
    pub fn send_message(
        &mut self,
        from: Address,
        to: Address,
        name_ptr: i32,
        arg_ptr: i32,
        mem: &[u8],
    ) -> (r: bool)
        requires
            old(self).wf(),
        ensures
            final(self).wf(),
            r == (old(self)@.message_of(from, to, name_ptr, arg_ptr, mem@) is Some
                && old(self)@.pending < usize::MAX),
            r ==> final(self)@ == old(self)@.with_message(
                to as int,
                old(self)@.message_of(from, to, name_ptr, arg_ptr, mem@).unwrap().0,
                old(self)@.message_of(from, to, name_ptr, arg_ptr, mem@).unwrap().1,
            ),
            !r ==> final(self)@ == old(self)@,
            from == 0 || to == 0 ==> !r,
            old(self)@.installed(to as int) && c_string_at(mem@, name_ptr as u32 as int) is Some
                && sig_in(
                old(self)@.abi(to as int),
                handler_prefix() + c_string_at(mem@, name_ptr as u32 as int)->0,
            ) is None ==> !r,
    {
        if from == 0 || to == 0 || !self.is_installed(from) || !self.is_installed(to) {
            return false;
        }
        let name = match get_utf8_string_with_nul(mem, name_ptr as u32) {
            Some(n) => n,
            None => {
                return false;
            },
        };
        let handler = handler_name(name.as_str());
        let ghost v = self@;
        let args = match &self.children[to as usize] {
            Some(actor) => match find_export(&actor.abi, &handler) {
                Some(k) => match marshal_args(from, &actor.abi[k].params, mem, arg_ptr as u32) {
                    Some(args) => args,
                    None => {
                        return false;
                    },
                },
                None => {
                    return false;
                },
            },
            None => {
                return false;
            },
        };
        if self.mailboxes.n_queued() == usize::MAX {
            return false;
        }
        proof {
            self.mailboxes.lemma_pending_total();
        }
        let ghost msg = v.message_of(from, to, name_ptr, arg_ptr, mem@);
        let r = self.mailboxes.send_to(to, handler, args);
        proof {
            self.mailboxes.lemma_pending_total();
            lemma_enqueue(v.boxes[to as int], msg.unwrap().0, msg.unwrap().1);
            assert(self@ =~= v.with_message(to as int, msg.unwrap().0, msg.unwrap().1));
            assert forall|i: int| 0 <= i < self@.boxes.len() implies names_unique(
                #[trigger] self@.boxes[i],
            ) by {
                if i != to {
                    assert(self@.boxes[i] == v.boxes[i]);
                }
            }
        }
        true
    }

    /// One step of the dispatch loop. With nothing pending, returns `None`
    /// and changes nothing: the runtime is quiescent. Otherwise empties every
    /// mailbox and returns the batches to run, in order: for each address
    /// from 1 up that holds an actor, one batch per handler name of its
    /// mailbox that the actor exports, in the mailbox's order. Deliveries for
    /// the host address, for empty addresses, and for handlers an actor does
    /// not export are dropped. Messages sent while the batches run wait for
    /// the next step.
    pub fn poll(&mut self) -> (r: Option<Vec<Batch>>)
        requires
            old(self).wf(),
        ensures
            final(self).wf(),
            r is None <==> old(self)@.pending == 0,
            r is None ==> final(self)@ == old(self)@,
            r is Some ==> r->0@.map_values(|b: Batch| b@) == old(self)@.dispatch_plan(),
            r is Some ==> final(self)@ == old(self)@.drained(),
            final(self)@.pending == 0,
    {
        if self.mailboxes.n_queued() == 0 {
            return None;
        }
        let ghost v = self@;
        let mut snapshot = self.mailboxes.drain();
        proof {
            self.mailboxes.lemma_pending_total();
            assert(self@.boxes =~= v.drained().boxes);
            assert(self@ == v.drained());
            assert(forall|i: int| 0 <= i < self@.boxes.len() ==> names_unique(#[trigger] self@.boxes[i])) by {
                lemma_names_unique_empty();
            }
        }
        let mut out: Vec<Batch> = Vec::new();
        let mut a: usize = 1;
        while a < snapshot.len()
            invariant
                self.wf(),
                self@ == v.drained(),
                v.inv(),
                snapshot@.len() == v.slots.len(),
                1 <= a <= snapshot@.len(),
                forall|i: int| a <= i < snapshot@.len() ==> (#[trigger] snapshot@[i]).wf() && snapshot@[i]@ == v.boxes[i],
                out@.map_values(|b: Batch| b@) == pass_batches(v.slots, v.boxes, a as nat),
            decreases snapshot@.len() - a,
        {
            let mut mb = Mailbox::new();
            snapshot.set_and_swap(a, &mut mb);
            let ghost before = out@.map_values(|b: Batch| b@);
            match &self.children[a] {
                None => {
                    proof {
                        assert(v.slots[a as int] is None);
                        assert(pass_batches(v.slots, v.boxes, (a + 1) as nat) =~= before);
                    }
                },
                Some(actor) => {
                    let ghost abi = actor.abi@.map_values(|e: Export| e@);
                    let ghost m = v.boxes[a as int];
                    let (names, mut queues) = mb.into_parts();
                    let mut j: usize = 0;
                    proof {
                        assert forall|i: int| 0 <= i < m.len() implies (#[trigger] queues@[i])@.map_values(
                            |c: Call| c@,
                        ) == m[i].1 && names@[i]@ == m[i].0 by {
                            assert(names@[i]@ == m[i].0);
                        }
                        assert(m.take(0) =~= Seq::<Entry>::empty());
                        assert(before + box_batches(a as nat, m.take(0), abi) =~= before);
                    }
                    while j < names.len()
                        invariant
                            names@.len() == m.len(),
                            queues@.len() == m.len(),
                            j <= m.len(),
                            forall|i: int| 0 <= i < m.len() ==> (#[trigger] names@[i])@ == m[i].0,
                            forall|i: int|
                                j <= i < m.len() ==> (#[trigger] queues@[i])@.map_values(|c: Call| c@) == m[i].1,
                            abi == actor.abi@.map_values(|e: Export| e@),
                            out@.map_values(|b: Batch| b@) == before + box_batches(a as nat, m.take(j as int), abi),
                            a < snapshot@.len(),
                            snapshot@.len() <= u32::MAX + 1,
                        decreases m.len() - j,
                    {
                        let ghost o = out@.map_values(|b: Batch| b@);
                        proof {
                            assert(m.take(j + 1).drop_last() =~= m.take(j as int));
                            assert(m.take(j + 1).last() == m[j as int]);
                        }
                        if find_export(&actor.abi, &names[j]).is_some() {
                            let mut q: Vec<Call> = Vec::new();
                            queues.set_and_swap(j, &mut q);
                            let b = Batch { to: a as u32, handler: names[j].clone(), calls: q };
                            out.push(b);
                            proof {
                                assert(b@ == (a as nat, m[j as int].0, m[j as int].1));
                                assert(out@.map_values(|b: Batch| b@) =~= o.push(b@));
                                assert(out@.map_values(|b: Batch| b@) =~= before + box_batches(
                                    a as nat,
                                    m.take(j + 1),
                                    abi,
                                ));
                            }
                        } else {
                            proof {
                                assert(box_batches(a as nat, m.take(j + 1), abi) =~= box_batches(
                                    a as nat,
                                    m.take(j as int),
                                    abi,
                                ));
                            }
                        }
                        j = j + 1;
                    }
                    proof {
                        assert(m.take(j as int) =~= m);
                        assert(v.slots[a as int] == Some(actor.model()));
                        assert(pass_batches(v.slots, v.boxes, (a + 1) as nat) =~= before
                            + box_batches(a as nat, m, abi));
                    }
                },
            }
            a = a + 1;
        }
        Some(out)
    }

    /// Checks that an actor is installed at `addr` and exports a function
    /// named `name`: `InvalidAddressError` if there is no actor, and a compile
    /// error if it lacks the export.
    pub fn require_export(&self, addr: Address, name: &String) -> (r: Result<(), Error>)
        requires
            self.wf(),
        ensures
            !self@.installed(addr as int) ==> r == Err::<(), Error>(Error::InvalidAddressError),
            self@.installed(addr as int) && sig_in(self@.abi(addr as int), name@) is None ==> r
                == Err::<(), Error>(Error::ModuleError { source: WasmError::CompileError }),
            self@.installed(addr as int) && sig_in(self@.abi(addr as int), name@) is Some ==> r
                == Ok::<(), Error>(()),
    {
        match self.actor(addr) {
            None => Err(Error::InvalidAddressError),
            Some(actor) => match find_export(&actor.abi, name) {
                Some(_) => Ok(()),
                None => Err(Error::ModuleError { source: WasmError::CompileError }),
            },
        }
    }

    /// The module bytes the actor at `addr` was spawned from, to spawn a
    /// copy of it; `InvalidAddressError` if no actor is installed there.
    pub fn spawn_source(&self, addr: Address) -> (r: Result<&Vec<u8>, Error>)
        requires
            self.wf(),
        ensures
            r is Ok <==> self@.installed(addr as int),
            r is Ok ==> r->Ok_0@ == self@.slots[addr as int]->0.src,
            r is Err ==> r == Err::<&Vec<u8>, Error>(Error::InvalidAddressError),
    {
        match self.actor(addr) {
            None => Err(Error::InvalidAddressError),
            Some(actor) => Ok(&actor.src),
        }
    }

    /// First step of spawning an actor from the module bytes `src`: reserves
    /// its address. An empty `src` is no module, and fails to compile once
    /// the address is taken, as any module that does not compile would.
    pub fn begin_spawn(&mut self, src: &[u8]) -> (r: Result<Address, Error>)
        requires
            old(self).wf(),
        ensures
            final(self).wf(),
            old(self)@.alloc_step() is None ==> r == Err::<Address, Error>(Error::NoFreeAddrs)
                && final(self)@ == old(self)@,
            old(self)@.alloc_step() matches Some((a, w)) ==> final(self)@ == w && r == if src@.len()
                == 0 {
                Err::<Address, Error>(Error::ModuleError { source: WasmError::CompileError })
            } else {
                Ok::<Address, Error>(a)
            },
            r is Ok ==> final(self)@.reserved(r->Ok_0 as int),
    {
        let slot = self.allocate_slot()?;
        if src.len() == 0 {
            return Err(Error::ModuleError { source: WasmError::CompileError });
        }
        Ok(slot)
    }

    /// Last step of spawning: installs `actor` at the reserved address `slot`
    /// and schedules its `init_async` handler, from `spawner` or the host.
    /// `InvalidAddressError` if `slot` is not reserved.
    pub fn complete_spawn(&mut self, spawner: Option<Address>, slot: Address, actor: Actor<H>) -> (r:
        Result<Address, Error>)
        requires
            old(self).wf(),
            old(self)@.pending < usize::MAX,
        ensures
            final(self).wf(),
            r is Ok <==> old(self)@.reserved(slot as int),
            r is Ok ==> r == Ok::<Address, Error>(slot) && final(self)@ == (RtView {
                slots: old(self)@.slots.update(slot as int, Some(actor.model())),
                ..old(self)@
            }).with_message(
                slot as int,
                handler_prefix() + init_async_name(),
                impulse_args(spawner, Seq::<Value>::empty()),
            ),
            r is Err ==> r == Err::<Address, Error>(Error::InvalidAddressError) && final(self)@
                == old(self)@,
    {
        let ghost m = actor.model();
        match self.install(slot, actor) {
            Err(e) => {
                return Err(e);
            },
            Ok(()) => {},
        }
        let no_params: Vec<Value> = Vec::new();
        let ghost v = self@;
        proof {
            reveal_strlit("init_async");
            assert("init_async"@ =~= init_async_name());
            assert(no_params@ =~= Seq::<Value>::empty());
        }
        let r = self.impulse(spawner, slot, "init_async", no_params.as_slice());
        proof {
            assert(r is Ok);
        }
        Ok(slot)
    }
}

impl<H> Default for Rt<H> {
    /// A runtime with no actors, whose table may use every 32-bit address.
    fn default() -> (r: Rt<H>)
        ensures
            r.wf(),
            r@.slots == seq![Option::<ActorSpec>::None],
            r@.free == Seq::<Address>::empty(),
            r@.boxes == seq![Seq::<Entry>::empty()],
            r@.pending == 0,
            r@.max_addr == u32::MAX,
    {
        Rt::new()
    }
}

/// The argument tuple of an actor's `init` export while it is spawned by
/// `spawner`, or by the host: the spawner's address alone, or `None` if the
/// module exports no `init`.
pub fn init_args(abi: &Vec<Export>, spawner: Option<Address>) -> (r: Option<Vec<Value>>)
    ensures
        r is Some <==> sig_in(abi@.map_values(|e: Export| e@), init_name()) is Some,
        r is Some ==> r->0@ == seq![Value::I32(sender_of(spawner) as i32)],
{
    let name = "init".to_string();
    proof {
        reveal_strlit("init");
        assert(name@ =~= init_name());
    }
    match find_export(abi, &name) {
        None => None,
        Some(_) => {
            let sender: Address = match spawner {
                Some(a) => a,
                None => 0,
            };
            let mut args: Vec<Value> = Vec::new();
            args.push(Value::I32(sender as i32));
            proof {
                assert(args@ =~= seq![Value::I32(sender_of(spawner) as i32)]);
            }
            Some(args)
        },
    }
}

} // verus!
