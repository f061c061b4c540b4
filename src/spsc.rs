//! A single-producer single-consumer channel over a chain of nodes.
//!
//! The nodes live in a [`Chain`]; the [`Sender`] keeps the index of the last
//! node it appended, the [`Receiver`] the index of the oldest node whose value
//! may be unread. A node's link is empty (nothing sent after it yet), names
//! its successor, or is closed (one side has gone).
use vstd::prelude::*;

verus! {

/// Error of [`Sender::send`]: the receiver has gone. Holds the value that was
/// to be sent.
#[derive(Debug, Clone, Copy)]
pub struct NoRecv<T> {
    /// The value that was to be sent.
    pub message: T,
}

/// Error of [`Receiver::recv`].
#[derive(Debug, Clone, Copy, PartialEq, Eq, Structural)]
pub enum RecvErr {
    /// Nothing to read yet; the sender is still there.
    NoMessage,
    /// Nothing to read, and the sender has gone.
    NoSender,
}

/// The link of a node to what comes after it.
#[derive(Clone, Copy, PartialEq, Eq, Structural)]
enum Link {
    Empty,
    Linked(usize),
    Closed,
}

struct Node<T> {
    val: Option<T>,
    next: Link,
}

/// The nodes of one channel. Freed slots are kept for reuse.
pub struct Chain<T> {
    nodes: Vec<Option<Node<T>>>,
    free: Vec<usize>,
    /// The nodes from the receiver's cursor to the sender's, in link order.
    path: Ghost<Seq<usize>>,
    tx_open: Ghost<bool>,
    rx_open: Ghost<bool>,
}

/// The sending end of a channel made by [`channel`].
pub struct Sender {
    back: usize,
}

/// The receiving end of a channel made by [`channel`].
pub struct Receiver {
    front: usize,
}

impl Sender {
    /// The node this end appends after.
    pub closed spec fn cursor(&self) -> usize {
        self.back
    }
}

impl Receiver {
    /// The node this end reads from.
    pub closed spec fn cursor(&self) -> usize {
        self.front
    }
}

impl<T> Chain<T> {
    spec fn holds(&self, i: int) -> bool {
        0 <= i < self.nodes@.len() && self.nodes@[i] is Some
    }

    spec fn at(&self, i: int) -> Node<T> {
        self.nodes@[i]->Some_0
    }

    spec fn slots_ok(&self) -> bool {
        &&& self.free@.no_duplicates()
        &&& forall|k: int|
            0 <= k < self.free@.len() ==> #[trigger] self.free@[k] < self.nodes@.len()
                && self.nodes@[self.free@[k] as int] is None
    }

    /// The chain is well formed: the path runs over distinct live nodes
    /// joined by their links; every node after the first holds a value; the
    /// last link is empty while both ends are there and closed after.
    pub closed spec fn wf(&self) -> bool {
        let p = self.path@;
        &&& p.len() >= 1
        &&& forall|k: int| 0 <= k < p.len() ==> self.holds(#[trigger] p[k] as int)
        &&& forall|j: int, k: int| 0 <= j < k < p.len() ==> p[j] != p[k]
        &&& forall|k: int|
            0 <= k < p.len() - 1 ==> self.at(#[trigger] p[k] as int).next == Link::Linked(
                p[k + 1],
            )
        &&& self.at(p.last() as int).next == if self.tx_open@ && self.rx_open@ {
            Link::Empty
        } else {
            Link::Closed
        }
        &&& forall|k: int| 1 <= k < p.len() ==> (#[trigger] self.at(p[k] as int)).val is Some
        &&& !self.rx_open@ ==> p.len() == 1
        &&& self.slots_ok()
    }

    /// The values sent and not yet received, oldest first.
    pub closed spec fn messages(&self) -> Seq<T> {
        let p = self.path@;
        let rest = Seq::new(
            (p.len() - 1) as nat,
            |k: int| self.at(p[k + 1] as int).val->Some_0,
        );
        match self.at(p[0] as int).val {
            Some(v) => seq![v] + rest,
            None => rest,
        }
    }

    /// Whether the sender is still there.
    pub closed spec fn sender_open(&self) -> bool {
        self.tx_open@
    }

    /// Whether the receiver is still there.
    pub closed spec fn receiver_open(&self) -> bool {
        self.rx_open@
    }

    /// The node the receiver reads from.
    pub closed spec fn head(&self) -> usize {
        self.path@[0]
    }

    /// The node the sender appends after.
    pub closed spec fn tail(&self) -> usize {
        self.path@.last()
    }

    /// `tx` is this chain's sender, and it is still there.
    pub open spec fn serves_sender(&self, tx: &Sender) -> bool {
        self.sender_open() && tx.cursor() == self.tail()
    }

    /// `rx` is this chain's receiver, and it is still there.
    pub open spec fn serves_receiver(&self, rx: &Receiver) -> bool {
        self.receiver_open() && rx.cursor() == self.head()
    }

    fn next_of(&self, i: usize) -> (r: Link)
        requires
            self.holds(i as int),
        ensures
            r == self.at(i as int).next,
    {
        match &self.nodes[i] {
            Some(n) => n.next,
            None => Link::Empty,
        }
    }

    fn take_node(&mut self, i: usize) -> (r: Node<T>)
        requires
            old(self).holds(i as int),
        ensures
            r == old(self).at(i as int),
            final(self).nodes@ == old(self).nodes@.update(i as int, None),
            final(self).free == old(self).free,
            final(self).path == old(self).path,
            final(self).tx_open == old(self).tx_open,
            final(self).rx_open == old(self).rx_open,
    {
        let mut slot: Option<Node<T>> = None;
        self.nodes.set_and_swap(i, &mut slot);
        slot.unwrap()
    }

    fn put_node(&mut self, i: usize, n: Node<T>)
        requires
            i < old(self).nodes@.len(),
        ensures
            final(self).nodes@ == old(self).nodes@.update(i as int, Some(n)),
            final(self).free == old(self).free,
            final(self).path == old(self).path,
            final(self).tx_open == old(self).tx_open,
            final(self).rx_open == old(self).rx_open,
    {
        self.nodes.set(i, Some(n));
    }

    /// Stores `n` in a free slot, or in a new one.
    fn allocate(&mut self, n: Node<T>) -> (i: usize)
        requires
            old(self).slots_ok(),
        ensures
            final(self).slots_ok(),
            !old(self).holds(i as int),
            i <= old(self).nodes@.len(),
            final(self).nodes@.len() == if i < old(self).nodes@.len() {
                old(self).nodes@.len()
            } else {
                old(self).nodes@.len() + 1
            },
            final(self).nodes@[i as int] == Some(n),
            forall|j: int|
                0 <= j < old(self).nodes@.len() && j != i ==> final(self).nodes@[j]
                    == old(self).nodes@[j],
            final(self).path == old(self).path,
            final(self).tx_open == old(self).tx_open,
            final(self).rx_open == old(self).rx_open,
    {
        match self.free.pop() {
            Some(i) => {
                proof {
                    let f = old(self).free@;
                    assert(f.last() == i);
                    assert(forall|k: int| 0 <= k < f.len() - 1 ==> #[trigger] f[k] != f[f.len() - 1]);
                    assert(self.free@ =~= f.drop_last());
                }
                self.nodes.set(i, Some(n));
                i
            },
            None => {
                let i = self.nodes.len();
                self.nodes.push(Some(n));
                i
            },
        }
    }

    /// Empties slot `i` for reuse; what the node held is dropped.
    fn release(&mut self, i: usize)
        requires
            old(self).slots_ok(),
            old(self).holds(i as int),
        ensures
            final(self).slots_ok(),
            final(self).nodes@ == old(self).nodes@.update(i as int, None),
            final(self).path == old(self).path,
            final(self).tx_open == old(self).tx_open,
            final(self).rx_open == old(self).rx_open,
    {
        let _ = self.take_node(i);
        proof {
            assert(forall|k: int| 0 <= k < self.free@.len() ==> self.free@[k] != i);
        }
        self.free.push(i);
    }
}

/// Makes a channel: a chain holding one empty node, and the two ends, both at
/// that node.
pub fn channel<T>() -> (r: (Chain<T>, Sender, Receiver))
    ensures
        r.0.wf(),
        r.0.serves_sender(&r.1),
        r.0.serves_receiver(&r.2),
        r.0.messages() == Seq::<T>::empty(),
{
    let mut nodes: Vec<Option<Node<T>>> = Vec::new();
    nodes.push(Some(Node { val: None, next: Link::Empty }));
    let ghost start: Seq<usize> = seq![0usize];
    let chain = Chain {
        nodes,
        free: Vec::new(),
        path: Ghost(start),
        tx_open: Ghost(true),
        rx_open: Ghost(true),
    };
    proof {
        assert(chain.messages() =~= Seq::<T>::empty());
    }
    (chain, Sender { back: 0 }, Receiver { front: 0 })
}

impl Sender {
    /// Sends `val`. While the receiver is there the value joins the back of
    /// the channel; once it has gone, the value comes back in the error.
    pub fn send<T>(&mut self, chain: &mut Chain<T>, val: T) -> (r: Result<(), NoRecv<T>>)
        requires
            old(chain).wf(),
            old(chain).serves_sender(old(self)),
        ensures
            final(chain).wf(),
            final(chain).serves_sender(final(self)),
            final(chain).receiver_open() == old(chain).receiver_open(),
            final(chain).head() == old(chain).head(),
            old(chain).receiver_open() ==> r is Ok && final(chain).messages() == old(
                chain,
            ).messages().push(val),
            !old(chain).receiver_open() ==> r == Err::<(), NoRecv<T>>(NoRecv { message: val })
                && final(chain).messages() == old(chain).messages(),
    {
        let b = self.back;
        match chain.next_of(b) {
            Link::Empty => {
                let ghost c0 = *chain;
                let i = chain.allocate(Node { val: Some(val), next: Link::Empty });
                let mut n = chain.take_node(b);
                n.next = Link::Linked(i);
                chain.put_node(b, n);
                chain.path = Ghost(chain.path@.push(i));
                self.back = i;
                proof {
                    let p0 = c0.path@;
                    let p = chain.path@;
                    assert(forall|k: int| 0 <= k < p0.len() ==> #[trigger] p0[k] != i);
                    assert(forall|k: int| 0 <= k < p0.len() ==> p[k] == p0[k]);
                    assert(forall|k: int|
                        0 <= k < p0.len() && p0[k] != b ==> chain.at(#[trigger] p0[k] as int)
                            == c0.at(p0[k] as int));
                    assert(chain.messages() =~= c0.messages().push(val));
                }
                Ok(())
            },
            _ => Err(NoRecv { message: val }),
        }
    }

    /// Leaves the channel: the receiver will find it closed once it has read
    /// what was sent. No node is freed here.
    pub fn close<T>(self, chain: &mut Chain<T>)
        requires
            old(chain).wf(),
            old(chain).serves_sender(&self),
        ensures
            final(chain).wf(),
            !final(chain).sender_open(),
            final(chain).receiver_open() == old(chain).receiver_open(),
            final(chain).head() == old(chain).head(),
            final(chain).messages() == old(chain).messages(),
    {
        let b = self.back;
        if chain.next_of(b) == Link::Empty {
            let mut n = chain.take_node(b);
            n.next = Link::Closed;
            chain.put_node(b, n);
        }
        chain.tx_open = Ghost(false);
    }
}

impl<T> Chain<T> {
    /// Frees the receiver's node, which links on to `nx`, and moves the
    /// path's start to `nx`.
    fn drop_head(&mut self, f: usize, nx: usize)
        requires
            old(self).wf(),
            old(self).path@[0] == f,
            old(self).at(f as int).next == Link::Linked(nx),
        ensures
            final(self).wf(),
            final(self).path@ == old(self).path@.drop_first(),
            final(self).path@[0] == nx,
            final(self).tx_open == old(self).tx_open,
            final(self).rx_open == old(self).rx_open,
            final(self).tail() == old(self).tail(),
            forall|k: int|
                0 <= k < final(self).path@.len() ==> final(self).at(
                    #[trigger] final(self).path@[k] as int,
                ) == old(self).at(final(self).path@[k] as int),
    {
        let ghost c0 = *self;
        proof {
            let p0 = c0.path@;
            if p0.len() == 1 {
                assert(c0.at(p0.last() as int).next == Link::Linked(nx));
            }
            assert(p0.len() >= 2);
        }
        self.release(f);
        self.path = Ghost(self.path@.drop_first());
        proof {
            let p0 = c0.path@;
            let p = self.path@;
            assert(forall|k: int| 1 <= k < p0.len() ==> #[trigger] p0[k] != f);
            assert(forall|k: int| 0 <= k < p.len() ==> p[k] == p0[k + 1]);
            assert(forall|k: int|
                0 <= k < p.len() ==> self.at(#[trigger] p[k] as int) == c0.at(p[k] as int));
        }
    }
}

impl Receiver {
    /// Takes the oldest value sent and not yet received. With none, reports
    /// whether the sender is still there. Never waits.
    pub fn recv<T>(&mut self, chain: &mut Chain<T>) -> (r: Result<T, RecvErr>)
        requires
            old(chain).wf(),
            old(chain).serves_receiver(old(self)),
        ensures
            final(chain).wf(),
            final(chain).serves_receiver(final(self)),
            final(chain).sender_open() == old(chain).sender_open(),
            final(chain).tail() == old(chain).tail(),
            r == take_outcome(old(chain).messages(), old(chain).sender_open()),
            final(chain).messages() == after_take(old(chain).messages()),
    {
        let ghost m0 = chain.messages();
        loop
            invariant
                chain.wf(),
                chain.serves_receiver(self),
                chain.sender_open() == old(chain).sender_open(),
                chain.tail() == old(chain).tail(),
                chain.messages() == m0,
                m0 == old(chain).messages(),
            decreases chain.path@.len(),
        {
            let f = self.front;
            let ghost c0 = *chain;
            let mut n = chain.take_node(f);
            let v = n.val.take();
            let next = n.next;
            chain.put_node(f, n);
            proof {
                let p = c0.path@;
                assert(forall|k: int| 1 <= k < p.len() ==> #[trigger] p[k] != f);
                assert(forall|k: int|
                    1 <= k < p.len() ==> chain.at(#[trigger] p[k] as int) == c0.at(p[k] as int));
                assert(chain.wf());
            }
            match v {
                Some(x) => {
                    proof {
                        assert(m0 =~= seq![x] + chain.messages());
                    }
                    match next {
                        Link::Linked(nx) => {
                            let ghost c1 = *chain;
                            chain.drop_head(f, nx);
                            self.front = nx;
                            proof {
                                assert(chain.messages() =~= c1.messages());
                            }
                        },
                        _ => {},
                    }
                    return Ok(x);
                },
                None => match next {
                    Link::Linked(nx) => {
                        chain.drop_head(f, nx);
                        self.front = nx;
                        proof {
                            assert(chain.messages() =~= m0);
                        }
                    },
                    Link::Empty => {
                        return Err(RecvErr::NoMessage);
                    },
                    Link::Closed => {
                        return Err(RecvErr::NoSender);
                    },
                },
            }
        }
    }

    /// Leaves the channel: every node before the sender's is freed, and the
    /// sender's is closed, so that a later send hands its value back. That
    /// last node stays in the chain, which reclaims it when dropped.
    pub fn close<T>(self, chain: &mut Chain<T>)
        requires
            old(chain).wf(),
            old(chain).serves_receiver(&self),
        ensures
            final(chain).wf(),
            !final(chain).receiver_open(),
            final(chain).sender_open() == old(chain).sender_open(),
            final(chain).tail() == old(chain).tail(),
    {
        let mut f = self.front;
        loop
            invariant
                chain.wf(),
                chain.receiver_open(),
                chain.head() == f,
                chain.sender_open() == old(chain).sender_open(),
                chain.tail() == old(chain).tail(),
            ensures
                chain.wf(),
                chain.receiver_open(),
                chain.head() == f,
                chain.sender_open() == old(chain).sender_open(),
                chain.tail() == old(chain).tail(),
                chain.path@.len() == 1,
            decreases chain.path@.len(),
        {
            match chain.next_of(f) {
                Link::Linked(nx) => {
                    chain.drop_head(f, nx);
                    f = nx;
                },
                _ => {
                    proof {
                        let p = chain.path@;
                        if p.len() > 1 {
                            assert(chain.at(p[0] as int).next == Link::Linked(p[1]));
                        }
                    }
                    break;
                },
            }
        }
        let mut n = chain.take_node(f);
        n.next = Link::Closed;
        chain.put_node(f, n);
        chain.rx_open = Ghost(false);
    }
}

/// What a receive returns on a channel holding `in_flight`: the oldest value;
/// with none, whether the sender is still there.
pub open spec fn take_outcome<T>(in_flight: Seq<T>, sender_open: bool) -> Result<T, RecvErr> {
    if in_flight.len() > 0 {
        Ok(in_flight[0])
    } else if sender_open {
        Err(RecvErr::NoMessage)
    } else {
        Err(RecvErr::NoSender)
    }
}

/// What a receive leaves in a channel that held `in_flight`.
pub open spec fn after_take<T>(in_flight: Seq<T>) -> Seq<T> {
    if in_flight.len() > 0 {
        in_flight.drop_first()
    } else {
        in_flight
    }
}

/// What `n` receives in a row return, with no send in between.
pub open spec fn take_outcomes<T>(in_flight: Seq<T>, sender_open: bool, n: nat) -> Seq<
    Result<T, RecvErr>,
>
    decreases n,
{
    if n == 0 {
        Seq::empty()
    } else {
        seq![take_outcome(in_flight, sender_open)] + take_outcomes(
            after_take(in_flight),
            sender_open,
            (n - 1) as nat,
        )
    }
}

/// Once the sender has gone, receives in a row hand out the values still in
/// the channel, oldest first, and every receive after those reports that the
/// sender has gone.
pub proof fn lemma_sender_gone_after_drain<T>(in_flight: Seq<T>, n: nat)
    ensures
        take_outcomes(in_flight, false, n).len() == n,
        forall|i: int|
            0 <= i < n ==> #[trigger] take_outcomes(in_flight, false, n)[i] == if i
                < in_flight.len() {
                Ok::<T, RecvErr>(in_flight[i])
            } else {
                Err::<T, RecvErr>(RecvErr::NoSender)
            },
    decreases n,
{
    if n > 0 {
        let rest = after_take(in_flight);
        lemma_sender_gone_after_drain(rest, (n - 1) as nat);
        let o = take_outcomes(in_flight, false, n);
        let t = take_outcomes(rest, false, (n - 1) as nat);
        assert forall|i: int| 0 <= i < n implies #[trigger] o[i] == if i < in_flight.len() {
            Ok::<T, RecvErr>(in_flight[i])
        } else {
            Err::<T, RecvErr>(RecvErr::NoSender)
        } by {
            if i > 0 {
                assert(o[i] == t[i - 1]);
                if i < in_flight.len() {
                    assert(rest[i - 1] == in_flight[i]);
                }
            }
        }
    }
}

/// One operation on a channel whose receiver is there: a value is sent, or a
/// receive is attempted.
pub enum Traffic<T> {
    Put(T),
    Take,
}

/// The values in the channel and those received so far, both oldest first.
pub type Flow<T> = (Seq<T>, Seq<T>);

/// The effect of one operation, as `send` and `recv` have it.
pub open spec fn deliver<T>(s: Flow<T>, e: Traffic<T>) -> Flow<T> {
    match e {
        Traffic::Put(v) => (s.0.push(v), s.1),
        Traffic::Take => if s.0.len() > 0 {
            (s.0.drop_first(), s.1.push(s.0[0]))
        } else {
            s
        },
    }
}

/// The effect of a sequence of operations, in order.
pub open spec fn deliver_all<T>(s: Flow<T>, ops: Seq<Traffic<T>>) -> Flow<T>
    decreases ops.len(),
{
    if ops.len() == 0 {
        s
    } else {
        deliver(deliver_all(s, ops.drop_last()), ops.last())
    }
}

/// The values that `ops` sends, in order.
pub open spec fn sent<T>(ops: Seq<Traffic<T>>) -> Seq<T>
    decreases ops.len(),
{
    if ops.len() == 0 {
        Seq::empty()
    } else {
        match ops.last() {
            Traffic::Put(v) => sent(ops.drop_last()).push(v),
            Traffic::Take => sent(ops.drop_last()),
        }
    }
}

/// First in, first out: however sends and receives interleave on a fresh
/// channel, the values received followed by those still in the channel are
/// exactly the values sent, in the order sent. So nothing is lost or
/// duplicated, and once the channel is drained the receiver has had every
/// value in order.
pub proof fn lemma_fifo<T>(ops: Seq<Traffic<T>>)
    ensures
        deliver_all((Seq::empty(), Seq::empty()), ops).1 + deliver_all(
            (Seq::empty(), Seq::empty()),
            ops,
        ).0 == sent(ops),
    decreases ops.len(),
{
    if ops.len() > 0 {
        lemma_fifo(ops.drop_last());
        let r = deliver_all((Seq::<T>::empty(), Seq::<T>::empty()), ops.drop_last());
        let t = deliver_all((Seq::<T>::empty(), Seq::<T>::empty()), ops);
        match ops.last() {
            Traffic::Put(v) => {
                assert(t.1 + t.0 =~= (r.1 + r.0).push(v));
            },
            Traffic::Take => {
                if r.0.len() > 0 {
                    assert(t.1 + t.0 =~= r.1 + r.0);
                }
            },
        }
    }
}

} // verus!
