use tokio::sync::mpsc::UnboundedSender;
use vstd::prelude::*;

verus! {

#[verifier::external_type_specification]
#[verifier::external_body]
#[verifier::reject_recursive_types(T)]
pub struct ExUnboundedSender<T>(tokio::sync::mpsc::UnboundedSender<T>);

/// What a peer asks the world to do.
#[derive(Clone, Copy, Debug, PartialEq, Eq, Structural)]
pub enum UserInput {
    MoveUp,
    MoveDown,
    MoveLeft,
    MoveRight,
    Quit,
}

/// Where a peer is in its lifecycle.
#[derive(Clone, Copy, Debug, PartialEq, Eq, Structural)]
pub enum PeerState {
    Login,
    Playing,
}

/// A change of the shared world, sent to every peer.
#[derive(Clone, Debug)]
pub enum RoomEvent {
    /// The positions of all peers now.
    PeerMoved(Vec<(usize, usize)>),
}

impl RoomEvent {
    pub open spec fn positions(&self) -> Seq<(usize, usize)> {
        match self {
            RoomEvent::PeerMoved(v) => v@,
        }
    }

    /// An equal event, for handing to one more channel.
    pub fn duplicate(&self) -> (r: RoomEvent)
        ensures
            r.positions() == self.positions(),
    {
        match self {
            RoomEvent::PeerMoved(v) => {
                let mut out: Vec<(usize, usize)> = Vec::new();
                let mut i: usize = 0;
                while i < v.len()
                    invariant
                        i <= v@.len(),
                        out@ == v@.take(i as int),
                    decreases v@.len() - i,
                {
                    out.push(v[i]);
                    assert(v@.take(i + 1) =~= v@.take(i as int).push(v@[i as int]));
                    i = i + 1;
                }
                assert(v@.take(v@.len() as int) =~= v@);
                RoomEvent::PeerMoved(out)
            },
        }
    }
}

/// The sending half of a peer's event channel, with a record of the position
/// lists of the events handed to it.
pub struct Outbox {
    tx: UnboundedSender<RoomEvent>,
    sent: Ghost<Seq<Seq<(usize, usize)>>>,
}

impl Outbox {
    pub closed spec fn sender(&self) -> UnboundedSender<RoomEvent> {
        self.tx
    }

    /// The position lists of the events handed to the channel, oldest first.
    pub closed spec fn log(&self) -> Seq<Seq<(usize, usize)>> {
        self.sent@
    }

    pub fn new(tx: UnboundedSender<RoomEvent>) -> (r: Outbox)
        ensures
            r.sender() == tx,
            r.log() == Seq::<Seq<(usize, usize)>>::empty(),
    {
        Outbox { tx, sent: Ghost(Seq::empty()) }
    }

    /// Hands `ev` to the channel. A closed channel drops it; the sender
    /// never waits.
    pub fn deliver(&mut self, ev: RoomEvent)
        ensures
            final(self).sender() == old(self).sender(),
            final(self).log() == old(self).log().push(ev.positions()),
    {
        send_event(self, ev);
    }
}

/// Relies on tokio's `UnboundedSender::send`: it hands `ev` to the channel of
/// `out.sender()` without waiting, which queues it unless the receiving half
/// is gone. The log records every event so handed over.
#[verifier::external_body]
fn send_event(out: &mut Outbox, ev: RoomEvent)
    ensures
        final(out).sender() == old(out).sender(),
        final(out).log() == old(out).log().push(ev.positions()),
{
    let _ = out.tx.send(ev);
}

/// One connected peer as the world sees it.
pub struct PeerData {
    addr: u64,
    tx: Outbox,
    state: PeerState,
    position: (usize, usize),
}

impl PeerData {
    pub closed spec fn id(&self) -> u64 {
        self.addr
    }

    pub closed spec fn outbox(&self) -> Outbox {
        self.tx
    }

    pub closed spec fn stage(&self) -> PeerState {
        self.state
    }

    pub closed spec fn pos(&self) -> (usize, usize) {
        self.position
    }

    pub open spec fn log(&self) -> Seq<Seq<(usize, usize)>> {
        self.outbox().log()
    }

    pub fn position(&self) -> (r: (usize, usize))
        ensures
            r == self.pos(),
    {
        self.position
    }

    pub fn state(&self) -> (r: PeerState)
        ensures
            r == self.stage(),
    {
        self.state
    }

    pub fn addr(&self) -> (r: u64)
        ensures
            r == self.id(),
    {
        self.addr
    }
}

/// The position after `input`: up and left stop at 0, down and right do not stop.
pub open spec fn step(p: (usize, usize), input: UserInput) -> (usize, usize) {
    match input {
        UserInput::MoveUp => if p.1 == 0 { p } else { (p.0, (p.1 - 1) as usize) },
        UserInput::MoveDown => (p.0, (p.1 + 1) as usize),
        UserInput::MoveLeft => if p.0 == 0 { p } else { ((p.0 - 1) as usize, p.1) },
        UserInput::MoveRight => ((p.0 + 1) as usize, p.1),
        UserInput::Quit => p,
    }
}

/// The step stays within the machine's integers.
pub open spec fn can_step(p: (usize, usize), input: UserInput) -> bool {
    &&& input == UserInput::MoveDown ==> p.1 < usize::MAX
    &&& input == UserInput::MoveRight ==> p.0 < usize::MAX
}

/// The positions of `peers`, in order.
pub open spec fn positions_of(peers: Seq<PeerData>) -> Seq<(usize, usize)> {
    Seq::new(peers.len(), |i: int| peers[i].pos())
}

/// The shared world: every connected peer, keyed by a unique id.
pub struct Shared {
    peers: Vec<PeerData>,
}

impl Shared {
    /// The peers in the order of registration.
    pub closed spec fn entries(&self) -> Seq<PeerData> {
        self.peers@
    }

    /// No id occurs twice.
    pub open spec fn wf(&self) -> bool {
        forall|i: int, j: int|
            0 <= i < self.entries().len() && 0 <= j < self.entries().len() && i != j
                ==> #[trigger] self.entries()[i].id() != #[trigger] self.entries()[j].id()
    }

    pub open spec fn slot(&self, id: u64, i: int) -> bool {
        0 <= i < self.entries().len() && self.entries()[i].id() == id
    }

    pub open spec fn contains(&self, id: u64) -> bool {
        exists|i: int| self.slot(id, i)
    }

    /// `after` is `before` once the peer at slot `i` has moved by `input` and
    /// every peer has been handed the resulting positions.
    pub open spec fn moved(before: Shared, after: Shared, i: int, input: UserInput) -> bool {
        &&& after.entries().len() == before.entries().len()
        &&& forall|j: int|
            0 <= j < after.entries().len() ==> {
                let b = #[trigger] before.entries()[j];
                let a = after.entries()[j];
                &&& a.id() == b.id()
                &&& a.stage() == b.stage()
                &&& a.outbox().sender() == b.outbox().sender()
                &&& a.pos() == if j == i {
                    step(b.pos(), input)
                } else {
                    b.pos()
                }
                &&& a.log() == b.log().push(positions_of(after.entries()))
            }
    }

    pub fn new() -> (r: Shared)
        ensures
            r.wf(),
            r.entries() == Seq::<PeerData>::empty(),
    {
        Shared { peers: Vec::new() }
    }

    fn find(&self, id: u64) -> (r: Option<usize>)
        requires
            self.wf(),
        ensures
            match r {
                Some(i) => self.slot(id, i as int),
                None => !self.contains(id),
            },
    {
        let mut i: usize = 0;
        while i < self.peers.len()
            invariant
                i <= self.entries().len(),
                forall|k: int| 0 <= k < i ==> self.entries()[k].id() != id,
            decreases self.entries().len() - i,
        {
            if self.peers[i].addr == id {
                return Some(i);
            }
            i = i + 1;
        }
        None
    }

    /// Registers a peer at `(0, 0)`, playing, with `tx` as its channel. An
    /// entry with the same id is replaced in place.
    pub fn add_peer(&mut self, id: u64, tx: UnboundedSender<RoomEvent>)
        requires
            old(self).wf(),
        ensures
            final(self).wf(),
            final(self).contains(id),
            old(self).contains(id) ==> final(self).entries().len() == old(self).entries().len(),
            !old(self).contains(id) ==> final(self).entries().len() == old(self).entries().len()
                + 1 && final(self).slot(id, old(self).entries().len() as int),
            forall|i: int|
                0 <= i < final(self).entries().len() ==> {
                    let e = #[trigger] final(self).entries()[i];
                    if e.id() == id {
                        &&& e.stage() == PeerState::Playing
                        &&& e.pos() == (0usize, 0usize)
                        &&& e.outbox().sender() == tx
                        &&& e.log() == Seq::<Seq<(usize, usize)>>::empty()
                    } else {
                        e == old(self).entries()[i]
                    }
                },
    {
        let data = PeerData { addr: id, tx: Outbox::new(tx), state: PeerState::Playing, position: (0, 0) };
        match self.find(id) {
            Some(i) => {
                self.peers.set(i, data);
                assert(self.slot(id, i as int));
                assert forall|k: int| 0 <= k < self.entries().len() && k != i implies #[trigger] self.entries()[k].id() != id by {
                    assert(old(self).entries()[k].id() != old(self).entries()[i as int].id());
                }
                assert forall|a: int, b: int|
                    0 <= a < self.entries().len() && 0 <= b < self.entries().len() && a != b
                    implies #[trigger] self.entries()[a].id() != #[trigger] self.entries()[b].id() by {
                    if a != i && b != i {
                        assert(old(self).entries()[a].id() != old(self).entries()[b].id());
                    }
                }
            },
            None => {
                self.peers.push(data);
                let ghost n = old(self).entries().len() as int;
                assert(self.slot(id, n));
                assert forall|k: int| 0 <= k < n implies #[trigger] self.entries()[k].id() != id by {
                    assert(!old(self).slot(id, k));
                }
                assert forall|a: int, b: int|
                    0 <= a < self.entries().len() && 0 <= b < self.entries().len() && a != b
                    implies #[trigger] self.entries()[a].id() != #[trigger] self.entries()[b].id() by {
                    if a != n && b != n {
                        assert(old(self).entries()[a].id() != old(self).entries()[b].id());
                    }
                }
            },
        }
    }

    /// Moves the peer `id` by `input`, then hands every peer, the mover
    /// included, an event with the positions of all peers.
    pub fn move_peer(&mut self, id: u64, input: UserInput)
        requires
            old(self).wf(),
            old(self).contains(id),
            forall|i: int| old(self).slot(id, i) ==> can_step(old(self).entries()[i].pos(), input),
        ensures
            final(self).wf(),
            exists|i: int| old(self).slot(id, i) && Self::moved(*old(self), *final(self), i, input),
    {
        let i = match self.find(id) {
            Some(i) => i,
            None => {
                proof {
                    assert(false);
                }
                0
            },
        };
        let (old_x, old_y) = self.peers[i].position;
        let new_pos = match input {
            UserInput::MoveUp => if old_y == 0 { (old_x, 0) } else { (old_x, old_y - 1) },
            UserInput::MoveDown => (old_x, old_y + 1),
            UserInput::MoveLeft => if old_x == 0 { (0, old_y) } else { (old_x - 1, old_y) },
            UserInput::MoveRight => (old_x + 1, old_y),
            UserInput::Quit => (old_x, old_y),
        };
        self.peers[i].position = new_pos;
        let ghost placed = *self;
        assert(placed.entries()[i as int].pos() == step(old(self).entries()[i as int].pos(), input));
        let ev = self.positions();
        self.broadcast(&ev);
        proof {
            assert(positions_of(self.entries()) =~= positions_of(placed.entries()));
            assert(old(self).slot(id, i as int));
            assert forall|j: int| 0 <= j < self.entries().len() implies #[trigger] self.entries()[j].id() == old(self).entries()[j].id() by {
                assert(self.entries()[j].id() == placed.entries()[j].id());
            }
            assert forall|a: int, b: int|
                0 <= a < self.entries().len() && 0 <= b < self.entries().len() && a != b
                implies #[trigger] self.entries()[a].id() != #[trigger] self.entries()[b].id() by {
                assert(old(self).entries()[a].id() != old(self).entries()[b].id());
            }
            assert forall|j: int| 0 <= j < self.entries().len() implies {
                let b = #[trigger] old(self).entries()[j];
                let a = self.entries()[j];
                &&& a.id() == b.id()
                &&& a.stage() == b.stage()
                &&& a.outbox().sender() == b.outbox().sender()
                &&& a.pos() == if j == i { step(b.pos(), input) } else { b.pos() }
                &&& a.log() == b.log().push(positions_of(self.entries()))
            } by {
                let p = placed.entries()[j];
                assert(self.entries()[j].pos() == p.pos());
            }
            assert(Self::moved(*old(self), *self, i as int, input));
        }
    }

    /// The positions of all peers, in order.
    fn positions(&self) -> (r: RoomEvent)
        ensures
            r.positions() == positions_of(self.entries()),
    {
        let mut out: Vec<(usize, usize)> = Vec::new();
        let mut i: usize = 0;
        while i < self.peers.len()
            invariant
                i <= self.entries().len(),
                out@ == positions_of(self.entries()).take(i as int),
            decreases self.entries().len() - i,
        {
            out.push(self.peers[i].position);
            assert(positions_of(self.entries()).take(i + 1) =~= positions_of(self.entries()).take(i as int).push(self.entries()[i as int].pos()));
            i = i + 1;
        }
        assert(positions_of(self.entries()).take(self.entries().len() as int) =~= positions_of(self.entries()));
        RoomEvent::PeerMoved(out)
    }

    /// Hands a copy of `ev` to every peer's channel.
    fn broadcast(&mut self, ev: &RoomEvent)
        ensures
            final(self).entries().len() == old(self).entries().len(),
            forall|j: int|
                0 <= j < final(self).entries().len() ==> {
                    let b = #[trigger] old(self).entries()[j];
                    let a = final(self).entries()[j];
                    &&& a.id() == b.id()
                    &&& a.stage() == b.stage()
                    &&& a.pos() == b.pos()
                    &&& a.outbox().sender() == b.outbox().sender()
                    &&& a.log() == b.log().push(ev.positions())
                },
    {
        let mut j: usize = 0;
        while j < self.peers.len()
            invariant
                j <= self.entries().len(),
                self.entries().len() == old(self).entries().len(),
                forall|k: int|
                    0 <= k < self.entries().len() ==> {
                        let b = #[trigger] old(self).entries()[k];
                        let a = self.entries()[k];
                        &&& a.id() == b.id()
                        &&& a.stage() == b.stage()
                        &&& a.pos() == b.pos()
                        &&& a.outbox().sender() == b.outbox().sender()
                        &&& a.log() == if k < j {
                            b.log().push(ev.positions())
                        } else {
                            b.log()
                        }
                    },
            decreases self.entries().len() - j,
        {
            let copy = ev.duplicate();
            self.peers[j].tx.deliver(copy);
            j = j + 1;
        }
    }

    /// The peer `id`; it must be registered.
    pub fn get_peer_data_mut(&mut self, id: u64) -> (r: &mut PeerData)
        requires
            old(self).wf(),
            old(self).contains(id),
        ensures
            exists|i: int|
                old(self).slot(id, i) && *r == old(self).entries()[i] && final(self).entries()
                    == old(self).entries().update(i, *final(r)),
    {
        let i = match self.find(id) {
            Some(i) => i,
            None => {
                proof {
                    assert(false);
                }
                0
            },
        };
        &mut self.peers[i]
    }

    /// The peer `id`, if it is registered.
    pub fn get_peer_data(&self, id: u64) -> (r: Option<&PeerData>)
        requires
            self.wf(),
        ensures
            match r {
                Some(p) => exists|i: int| self.slot(id, i) && *p == self.entries()[i],
                None => !self.contains(id),
            },
    {
        match self.find(id) {
            Some(i) => Some(&self.peers[i]),
            None => None,
        }
    }

    /// Removes the peer `id`; it must be registered.
    pub fn remove_peer(&mut self, id: u64)
        requires
            old(self).wf(),
            old(self).contains(id),
        ensures
            final(self).wf(),
            !final(self).contains(id),
            exists|i: int| old(self).slot(id, i) && final(self).entries() == old(self).entries().remove(i),
    {
        let i = match self.find(id) {
            Some(i) => i,
            None => {
                proof {
                    assert(false);
                }
                0
            },
        };
        let _ = self.peers.remove(i);
    }
}

/// An action by peer `a` reaches every registered peer, `a` included: each
/// channel is handed the positions of all peers, where `a` stands at its new
/// position and every other peer `b` at its old one.
pub proof fn lemma_fan_out(before: Shared, after: Shared, a: u64, b: u64, input: UserInput)
    requires
        before.wf(),
        before.contains(a),
        before.contains(b),
        exists|i: int| before.slot(a, i) && Shared::moved(before, after, i, input),
    ensures
        forall|ia: int, ib: int|
            before.slot(a, ia) && before.slot(b, ib) ==> {
                let event = positions_of(after.entries());
                &&& after.entries()[ia].log() == before.entries()[ia].log().push(event)
                &&& after.entries()[ib].log() == before.entries()[ib].log().push(event)
                &&& event[ia] == step(before.entries()[ia].pos(), input)
                &&& a != b ==> event[ib] == before.entries()[ib].pos()
            },
{
    let i = choose|i: int| before.slot(a, i) && Shared::moved(before, after, i, input);
    assert forall|ia: int, ib: int| before.slot(a, ia) && before.slot(b, ib) implies {
        let event = positions_of(after.entries());
        &&& after.entries()[ia].log() == before.entries()[ia].log().push(event)
        &&& after.entries()[ib].log() == before.entries()[ib].log().push(event)
        &&& event[ia] == step(before.entries()[ia].pos(), input)
        &&& a != b ==> event[ib] == before.entries()[ib].pos()
    } by {
        if ia != i {
            assert(before.entries()[ia].id() != before.entries()[i].id());
        }
        if a != b {
            assert(ib != i);
        }
        let e0 = before.entries()[ia];
        let e1 = before.entries()[ib];
    }
}

/// Once peer `gone` has been removed, a later move by another peer hands
/// every remaining peer one position per remaining peer, and `gone` is no
/// longer among the peers or the recipients.
pub proof fn lemma_removed_peer_absent(
    s0: Shared,
    s1: Shared,
    s2: Shared,
    gone: u64,
    mover: u64,
    input: UserInput,
)
    requires
        s0.wf(),
        s0.contains(gone),
        exists|i: int| s0.slot(gone, i) && s1.entries() == s0.entries().remove(i),
        s1.contains(mover),
        exists|i: int| s1.slot(mover, i) && Shared::moved(s1, s2, i, input),
    ensures
        !s2.contains(gone),
        s2.entries().len() == s0.entries().len() - 1,
        positions_of(s2.entries()).len() == s0.entries().len() - 1,
        forall|j: int|
            0 <= j < s2.entries().len() ==> #[trigger] s2.entries()[j].log().last()
                == positions_of(s2.entries()),
{
    let g = choose|i: int| s0.slot(gone, i) && s1.entries() == s0.entries().remove(i);
    let m = choose|i: int| s1.slot(mover, i) && Shared::moved(s1, s2, i, input);
    assert forall|j: int| 0 <= j < s2.entries().len() implies #[trigger] s2.entries()[j].id() != gone by {
        let src = if j < g { j } else { j + 1 };
        assert(s1.entries()[j] == s0.entries()[src]);
        assert(s0.entries()[src].id() != s0.entries()[g].id());
        assert(s2.entries()[j].id() == s1.entries()[j].id());
    }
    assert forall|j: int| 0 <= j < s2.entries().len() implies #[trigger] s2.entries()[j].log().last()
        == positions_of(s2.entries()) by {
        let e = s1.entries()[j];
    }
}

} // verus!
