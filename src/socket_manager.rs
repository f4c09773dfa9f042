use vstd::prelude::*;

verus! {

/// How a failed buffer operation should be handled by the manager.
#[derive(Clone, Copy, Debug, PartialEq, Eq)]
pub enum ErrorAction {
    /// The failure is transient; the socket is kept.
    Retry,
    /// The failure is terminal; the socket is detached from its entry.
    Drop,
}

impl ErrorAction {
    /// Whether the socket is to be dropped.
    pub fn is_drop(&self) -> (r: bool)
        ensures
            r == (*self is Drop),
    {
        match self {
            ErrorAction::Retry => false,
            ErrorAction::Drop => true,
        }
    }
}

/// The outcome of one buffer operation.
pub type UpdateResult = Result<(), ErrorAction>;

pub open spec fn is_drop_result(r: UpdateResult) -> bool {
    match r {
        Err(ErrorAction::Drop) => true,
        _ => false,
    }
}

/// What the three buffer operations of one cycle reported for one socket.
#[derive(Clone, Copy, Debug)]
pub struct BufferUpdateResult {
    pub write_result: UpdateResult,
    pub read_result: UpdateResult,
    pub additional_result: UpdateResult,
}

impl BufferUpdateResult {
    /// Whether any of the three operations asked for the socket to be dropped.
    pub open spec fn demands_drop(self) -> bool {
        is_drop_result(self.write_result) || is_drop_result(self.read_result)
            || is_drop_result(self.additional_result)
    }

    /// Whether the entry's socket is to be detached.
    pub fn should_drop_socket(&self) -> (r: bool)
        ensures
            r == self.demands_drop(),
    {
        let w = match self.write_result {
            Err(action) => action.is_drop(),
            Ok(()) => false,
        };
        let rd = match self.read_result {
            Err(action) => action.is_drop(),
            Ok(()) => false,
        };
        let a = match self.additional_result {
            Err(action) => action.is_drop(),
            Ok(()) => false,
        };
        w || rd || a
    }
}

/// The manager's non-owning link to a registered buffer.
pub struct BufferLink {
    id: u64,
}

impl BufferLink {
    pub closed spec fn key(&self) -> u64 {
        self.id
    }
}

/// The unique owning handle of a registered buffer.
///
/// It can be neither cloned nor copied: the owner gives it back through
/// `SocketManger::release`, after which the next update cycle retires the entry.
pub struct OwnedBuffer {
    id: u64,
}

impl OwnedBuffer {
    /// Creates an owning handle for the key `id`, together with the manager's link to it.
    /// Only registration calls this, once per fresh key, so no second handle
    /// for a key can exist.
    fn new_with_weak(id: u64) -> (r: (BufferLink, OwnedBuffer))
        ensures
            r.0.key() == id,
            r.1.key() == id,
    {
        (BufferLink { id }, OwnedBuffer { id })
    }

    pub closed spec fn key(&self) -> u64 {
        self.id
    }

    /// The registry key of this handle.
    pub fn id(&self) -> (r: u64)
        ensures
            r == self.key(),
    {
        self.id
    }
}

/// One registered socket: its buffer, the socket while it is alive, and diagnostics.
pub struct SocketEntry<B, S, D> {
    link: BufferLink,
    owner_alive: bool,
    pub buffer: B,
    pub socket: Option<S>,
    pub data: D,
    drop_flag: bool,
}

/// The entry after the owner gave back the handle with key `id`.
pub closed spec fn released<B, S, D>(e: SocketEntry<B, S, D>, id: u64) -> SocketEntry<B, S, D> {
    if e.link.id == id {
        SocketEntry { owner_alive: false, ..e }
    } else {
        e
    }
}

/// The entries after the owner gave back the handle with key `id`.
pub open spec fn released_all<B, S, D>(es: Seq<SocketEntry<B, S, D>>, id: u64) -> Seq<SocketEntry<B, S, D>> {
    es.map_values(|e: SocketEntry<B, S, D>| released(e, id))
}

/// The entry after one cycle, given what its buffer operations reported
/// (`None` where no operation ran).
pub closed spec fn settled<B, S, D>(
    e: SocketEntry<B, S, D>,
    r: Option<BufferUpdateResult>,
) -> SocketEntry<B, S, D> {
    if !e.owner_alive {
        SocketEntry { drop_flag: true, ..e }
    } else {
        match r {
            Some(res) => if res.demands_drop() {
                SocketEntry { socket: None, ..e }
            } else {
                e
            },
            None => e,
        }
    }
}

impl<B, S, D> SocketEntry<B, S, D> {
    pub closed spec fn key(&self) -> u64 {
        self.link.id
    }

    pub closed spec fn spec_buffer(&self) -> B {
        self.buffer
    }

    pub closed spec fn spec_socket(&self) -> Option<S> {
        self.socket
    }

    pub closed spec fn spec_data(&self) -> D {
        self.data
    }

    pub closed spec fn is_owned(&self) -> bool {
        self.owner_alive
    }

    pub closed spec fn is_flagged(&self) -> bool {
        self.drop_flag
    }

    /// Whether the owner still holds the handle.
    pub fn owner_alive(&self) -> (r: bool)
        ensures
            r == self.is_owned(),
    {
        self.owner_alive
    }

    /// Whether the entry is to be discarded at the end of the cycle.
    pub fn drop_flag(&self) -> (r: bool)
        ensures
            r == self.is_flagged(),
    {
        self.drop_flag
    }

    pub open spec fn needs_io_spec(&self) -> bool {
        self.is_owned() && self.spec_socket() is Some
    }

    /// Whether this cycle should run the buffer operations: the owner still
    /// holds the buffer and a socket is attached.
    pub fn needs_io(&self) -> (r: bool)
        ensures
            r == self.needs_io_spec(),
    {
        self.owner_alive && self.socket.is_some()
    }

    /// Applies what this cycle's buffer operations reported.
    ///
    /// An abandoned buffer flags the entry for removal. Otherwise a `Drop`
    /// from any operation detaches the socket, while the entry stays so that
    /// the owner can still read the buffer's terminal error.
    pub fn update(&mut self, results: Option<BufferUpdateResult>)
        ensures
            *final(self) == settled(*old(self), results),
            final(self).key() == old(self).key(),
            final(self).is_owned() == old(self).is_owned(),
            final(self).spec_buffer() == old(self).spec_buffer(),
            final(self).spec_data() == old(self).spec_data(),
            final(self).is_flagged() == (old(self).is_flagged() || !old(self).is_owned()),
            final(self).spec_socket() == (if old(self).is_owned() && results is Some
                && results->Some_0.demands_drop() {
                None
            } else {
                old(self).spec_socket()
            }),
    {
        if !self.owner_alive {
            self.drop_flag = true;
        } else {
            match results {
                Some(res) => {
                    if res.should_drop_socket() {
                        self.socket = None;
                    }
                },
                None => {},
            }
        }
    }
}

/// The entry with its buffer replaced by `b`.
pub closed spec fn with_buffer<B, S, D>(e: SocketEntry<B, S, D>, b: B) -> SocketEntry<B, S, D> {
    SocketEntry { buffer: b, ..e }
}

/// The entries that survive one cycle among the first `k` of `es`, in order.
pub closed spec fn cycle_prefix<B, S, D>(
    es: Seq<SocketEntry<B, S, D>>,
    rs: Seq<Option<BufferUpdateResult>>,
    k: nat,
) -> Seq<SocketEntry<B, S, D>>
    decreases k,
{
    if k == 0 {
        Seq::empty()
    } else {
        let prev = cycle_prefix(es, rs, (k - 1) as nat);
        let e = es[k - 1];
        if e.owner_alive {
            prev.push(settled(e, rs[k - 1]))
        } else {
            prev
        }
    }
}

/// The entries after one update cycle over `es`, where `rs[i]` is what the
/// buffer operations of entry `i` reported.
pub open spec fn after_cycle<B, S, D>(
    es: Seq<SocketEntry<B, S, D>>,
    rs: Seq<Option<BufferUpdateResult>>,
) -> Seq<SocketEntry<B, S, D>> {
    cycle_prefix(es, rs, es.len())
}

/// What one cycle does to an entry: only the drop flag and the socket can
/// change. An entry whose owner gave back the handle is flagged for removal;
/// an owned one loses its socket exactly when an operation asked for a drop.
pub proof fn lemma_settled_fields<B, S, D>(e: SocketEntry<B, S, D>, r: Option<BufferUpdateResult>)
    ensures
        settled(e, r).key() == e.key(),
        settled(e, r).is_owned() == e.is_owned(),
        settled(e, r).spec_buffer() == e.spec_buffer(),
        settled(e, r).spec_data() == e.spec_data(),
        settled(e, r).is_flagged() == (e.is_flagged() || !e.is_owned()),
        settled(e, r).spec_socket() == (if e.is_owned() && r is Some && r->Some_0.demands_drop() {
            None
        } else {
            e.spec_socket()
        }),
        e.is_owned() && (r is None || !r->Some_0.demands_drop()) ==> settled(e, r) == e,
{
}

/// Giving back the handle with key `id` only clears the owner mark of the
/// entries with that key.
pub proof fn lemma_released_fields<B, S, D>(e: SocketEntry<B, S, D>, id: u64)
    ensures
        released(e, id).key() == e.key(),
        released(e, id).is_owned() == (e.is_owned() && e.key() != id),
        released(e, id).is_flagged() == e.is_flagged(),
        released(e, id).spec_buffer() == e.spec_buffer(),
        released(e, id).spec_socket() == e.spec_socket(),
        released(e, id).spec_data() == e.spec_data(),
        !released(e, id).is_owned() ==> !released(e, id).needs_io_spec(),
        e.key() != id ==> released(e, id) == e,
{
}

/// `acc` after `SocketManger::readmit` of `e`.
pub open spec fn readmitted<B, S, D>(acc: Seq<SocketEntry<B, S, D>>, e: SocketEntry<B, S, D>) -> Seq<
    SocketEntry<B, S, D>,
> {
    if e.is_flagged() {
        acc
    } else {
        acc.push(e)
    }
}

/// The entries after the first `k` of `es` were each updated with their
/// result and readmitted, in order, into an emptied manager.
pub open spec fn readmit_prefix<B, S, D>(
    es: Seq<SocketEntry<B, S, D>>,
    rs: Seq<Option<BufferUpdateResult>>,
    k: nat,
) -> Seq<SocketEntry<B, S, D>>
    decreases k,
{
    if k == 0 {
        Seq::empty()
    } else {
        readmitted(readmit_prefix(es, rs, (k - 1) as nat), settled(es[k - 1], rs[k - 1]))
    }
}

/// Running a cycle entry by entry (`take_entries`, then `SocketEntry::update`
/// and `readmit` on each entry in order) ends where `SocketManger::update`
/// ends, for entries that are not flagged, as no held entry is.
pub proof fn lemma_entrywise_cycle<B, S, D>(
    es: Seq<SocketEntry<B, S, D>>,
    rs: Seq<Option<BufferUpdateResult>>,
)
    requires
        rs.len() == es.len(),
        forall|i: int| 0 <= i < es.len() ==> !(#[trigger] es[i]).is_flagged(),
    ensures
        readmit_prefix(es, rs, es.len()) == after_cycle(es, rs),
{
    lemma_readmit_prefix(es, rs, es.len());
}

proof fn lemma_readmit_prefix<B, S, D>(
    es: Seq<SocketEntry<B, S, D>>,
    rs: Seq<Option<BufferUpdateResult>>,
    k: nat,
)
    requires
        k <= es.len(),
        forall|i: int| 0 <= i < es.len() ==> !(#[trigger] es[i]).drop_flag,
    ensures
        readmit_prefix(es, rs, k) == cycle_prefix(es, rs, k),
    decreases k,
{
    if k > 0 {
        lemma_readmit_prefix(es, rs, (k - 1) as nat);
        assert(!es[k - 1].drop_flag);
    }
}

/// The invariant of a manager's entries: every key was handed out before
/// `next`, no two entries share a key, and no entry is flagged for removal.
pub open spec fn entries_wf<B, S, D>(es: Seq<SocketEntry<B, S, D>>, next: u64) -> bool {
    &&& forall|i: int| 0 <= i < es.len() ==> (#[trigger] es[i]).key() < next
    &&& forall|i: int| 0 <= i < es.len() ==> !(#[trigger] es[i]).is_flagged()
    &&& forall|i: int, j: int|
        0 <= i < j < es.len() ==> (#[trigger] es[i]).key() != (#[trigger] es[j]).key()
}

proof fn lemma_cycle_prefix_wf<B, S, D>(
    es: Seq<SocketEntry<B, S, D>>,
    rs: Seq<Option<BufferUpdateResult>>,
    k: nat,
    next: u64,
)
    requires
        k <= es.len(),
        entries_wf(es, next),
    ensures
        entries_wf(cycle_prefix(es, rs, k), next),
        forall|j: int|
            0 <= j < cycle_prefix(es, rs, k).len() ==> exists|i: int|
                0 <= i < k && (#[trigger] cycle_prefix(es, rs, k)[j]).key() == es[i].key(),
    decreases k,
{
    if k > 0 {
        let prev = cycle_prefix(es, rs, (k - 1) as nat);
        lemma_cycle_prefix_wf(es, rs, (k - 1) as nat, next);
        let cur = cycle_prefix(es, rs, k);
        let e = es[k - 1];
        if e.owner_alive {
            let last = settled(e, rs[k - 1]);
            assert(last.key() == e.key());
            assert forall|j: int| 0 <= j < prev.len() implies (#[trigger] prev[j]).key() != e.key() by {
                let i = choose|i: int| 0 <= i < k - 1 && prev[j].key() == es[i].key();
                assert(es[i].key() != es[k - 1].key());
            }
            assert forall|j: int| 0 <= j < cur.len() implies exists|i: int|
                0 <= i < k && (#[trigger] cur[j]).key() == es[i].key() by {
                if j == cur.len() - 1 {
                    assert(cur[j].key() == es[k - 1].key());
                } else {
                    assert(cur[j] == prev[j]);
                    let i = choose|i: int| 0 <= i < k - 1 && prev[j].key() == es[i].key();
                    assert(cur[j].key() == es[i].key());
                }
            }
            assert forall|i: int, j: int| 0 <= i < j < cur.len() implies (#[trigger] cur[i]).key()
                != (#[trigger] cur[j]).key() by {
                if j == cur.len() - 1 {
                    assert(cur[i] == prev[i]);
                } else {
                    assert(cur[i] == prev[i]);
                    assert(cur[j] == prev[j]);
                }
            }
            assert forall|j: int| 0 <= j < cur.len() implies !(#[trigger] cur[j]).is_flagged()
                && cur[j].key() < next by {
                if j < cur.len() - 1 {
                    assert(cur[j] == prev[j]);
                }
            }
        }
    }
}

/// All registered sockets of one kind.
pub struct SocketManger<B, S, D> {
    sockets: Vec<SocketEntry<B, S, D>>,
    next_id: u64,
}

impl<B, S, D> SocketManger<B, S, D> {
    pub closed spec fn entries(&self) -> Seq<SocketEntry<B, S, D>> {
        self.sockets@
    }

    pub closed spec fn next_key(&self) -> u64 {
        self.next_id
    }

    /// Keys of held entries are distinct and were handed out; no held entry
    /// is flagged for removal. Every method keeps this.
    pub open spec fn wf(&self) -> bool {
        entries_wf(self.entries(), self.next_key())
    }

    pub fn new() -> (r: Self)
        ensures
            r.wf(),
            r.entries().len() == 0,
            r.next_key() == 0,
    {
        SocketManger { sockets: Vec::new(), next_id: 0 }
    }

    /// The number of entries.
    pub fn len(&self) -> (r: usize)
        ensures
            r == self.entries().len(),
    {
        self.sockets.len()
    }

    /// Whether every registry key has been handed out.
    pub fn is_exhausted(&self) -> (r: bool)
        ensures
            r == (self.next_key() == u64::MAX),
    {
        self.next_id == u64::MAX
    }

    /// Whether an entry for the handle `handle` is held.
    pub fn contains(&self, handle: &OwnedBuffer) -> (r: bool)
        ensures
            r == exists|i: int| 0 <= i < self.entries().len() && self.entries()[i].key() == handle.key(),
    {
        let mut i: usize = 0;
        while i < self.sockets.len()
            invariant
                0 <= i <= self.sockets@.len(),
                forall|j: int| 0 <= j < i ==> self.sockets@[j].link.id != handle.id,
            decreases self.sockets@.len() - i,
        {
            if self.sockets[i].link.id == handle.id {
                assert(self.entries()[i as int].key() == handle.key());
                return true;
            }
            i = i + 1;
        }
        false
    }

    /// The position of the entry for `handle`, if it is held.
    pub fn position(&self, handle: &OwnedBuffer) -> (r: Option<usize>)
        ensures
            match r {
                Some(i) => {
                    &&& i < self.entries().len()
                    &&& self.entries()[i as int].key() == handle.key()
                    &&& forall|j: int| 0 <= j < i ==> (#[trigger] self.entries()[j]).key() != handle.key()
                },
                None => forall|j: int|
                    0 <= j < self.entries().len() ==> (#[trigger] self.entries()[j]).key() != handle.key(),
            },
    {
        let mut i: usize = 0;
        while i < self.sockets.len()
            invariant
                0 <= i <= self.sockets@.len(),
                forall|j: int| 0 <= j < i ==> (#[trigger] self.sockets@[j]).link.id != handle.id,
            decreases self.sockets@.len() - i,
        {
            if self.sockets[i].link.id == handle.id {
                return Some(i);
            }
            i = i + 1;
        }
        None
    }

    /// The `i`-th entry.
    pub fn entry(&self, i: usize) -> (r: &SocketEntry<B, S, D>)
        requires
            i < self.entries().len(),
        ensures
            *r == self.entries()[i as int],
    {
        &self.sockets[i]
    }

    /// The buffer of the `i`-th entry.
    pub fn buffer(&self, i: usize) -> (r: &B)
        requires
            i < self.entries().len(),
        ensures
            *r == self.entries()[i as int].spec_buffer(),
    {
        &self.sockets[i].buffer
    }

    /// Mutable access to the buffer of the `i`-th entry; nothing else changes.
    pub fn buffer_mut(&mut self, i: usize) -> (r: &mut B)
        requires
            i < old(self).entries().len(),
        ensures
            *r == old(self).entries()[i as int].spec_buffer(),
            final(self).next_key() == old(self).next_key(),
            final(self).entries() == old(self).entries().update(
                i as int,
                with_buffer(old(self).entries()[i as int], *final(r)),
            ),
            final(self).entries()[i as int].spec_buffer() == *final(r),
            old(self).wf() ==> final(self).wf(),
    {
        &mut self.sockets[i].buffer
    }

    /// Registers `socket` with the buffer that was built for it.
    ///
    /// On success a new entry holds the buffer and the socket, and the caller
    /// receives the sole owning handle. If building failed, the socket comes
    /// back untouched with the error and nothing is registered.
    pub fn register<E>(&mut self, socket: S, built: Result<B, E>, data: D) -> (r: Result<
        OwnedBuffer,
        (S, E),
    >)
        requires
            built is Ok ==> old(self).next_key() < u64::MAX,
        ensures
            old(self).wf() ==> final(self).wf(),
            match built {
                Ok(b) => {
                    &&& r is Ok
                    &&& r->Ok_0.key() == old(self).next_key()
                    &&& final(self).next_key() == old(self).next_key() + 1
                    &&& final(self).entries().len() == old(self).entries().len() + 1
                    &&& final(self).entries().drop_last() == old(self).entries()
                    &&& final(self).entries().last().key() == old(self).next_key()
                    &&& final(self).entries().last().is_owned()
                    &&& !final(self).entries().last().is_flagged()
                    &&& final(self).entries().last().spec_buffer() == b
                    &&& final(self).entries().last().spec_socket() == Some(socket)
                    &&& final(self).entries().last().spec_data() == data
                },
                Err(e) => {
                    &&& r == Err::<OwnedBuffer, (S, E)>((socket, e))
                    &&& final(self).entries() == old(self).entries()
                    &&& final(self).next_key() == old(self).next_key()
                },
            },
    {
        match built {
            Ok(buffer) => {
                let (weak, owned) = OwnedBuffer::new_with_weak(self.next_id);
                let entry = SocketEntry {
                    link: weak,
                    owner_alive: true,
                    buffer,
                    socket: Some(socket),
                    data,
                    drop_flag: false,
                };
                self.sockets.push(entry);
                self.next_id = self.next_id + 1;
                proof {
                    assert(self.sockets@.drop_last() =~= old(self).sockets@);
                    let es = self.entries();
                    let last = es.len() - 1;
                    if old(self).wf() {
                        assert forall|i: int| 0 <= i < es.len() implies (#[trigger] es[i]).key()
                            < self.next_key() && !es[i].is_flagged() by {
                            if i < last {
                                assert(es[i] == old(self).entries()[i]);
                            }
                        }
                        assert forall|i: int, j: int| 0 <= i < j < es.len() implies (
                        #[trigger] es[i]).key() != (#[trigger] es[j]).key() by {
                            assert(es[i] == old(self).entries()[i]);
                            if j < last {
                                assert(es[j] == old(self).entries()[j]);
                            }
                        }
                    }
                }
                Ok(owned)
            },
            Err(error) => Err((socket, error)),
        }
    }

    /// The owner gives back its handle: the entry stays until the next cycle,
    /// which retires it.
    pub fn release(&mut self, handle: OwnedBuffer)
        ensures
            final(self).next_key() == old(self).next_key(),
            final(self).entries() == released_all(old(self).entries(), handle.key()),
            old(self).wf() ==> final(self).wf(),
    {
        let n = self.sockets.len();
        let ghost start = self.sockets@;
        let mut i: usize = 0;
        while i < n
            invariant
                n == start.len(),
                0 <= i <= n,
                self.next_id == old(self).next_id,
                start == old(self).sockets@,
                self.sockets@ == start.subrange(i as int, n as int) + start.subrange(
                    0,
                    i as int,
                ).map_values(|e: SocketEntry<B, S, D>| released(e, handle.id)),
            decreases n - i,
        {
            let mut e = self.sockets.remove(0);
            if e.link.id == handle.id {
                e.owner_alive = false;
            }
            self.sockets.push(e);
            proof {
                assert(start.subrange(0, i + 1) =~= start.subrange(0, i as int).push(start[i as int]));
                assert(start.subrange(i + 1, n as int) =~= start.subrange(i as int, n as int).drop_first());
            }
            i = i + 1;
            proof {
                assert(self.sockets@ =~= start.subrange(i as int, n as int) + start.subrange(
                    0,
                    i as int,
                ).map_values(|e: SocketEntry<B, S, D>| released(e, handle.id)));
            }
        }
        proof {
            assert(start.subrange(0, n as int) =~= start);
            assert(self.sockets@ =~= start.map_values(|e: SocketEntry<B, S, D>| released(e, handle.id)));
            let es = self.entries();
            if old(self).wf() {
                assert forall|i: int| 0 <= i < es.len() implies (#[trigger] es[i]).key()
                    == start[i].key() && es[i].is_flagged() == start[i].is_flagged() by {
                    assert(es[i] == released(start[i], handle.id));
                }
                assert forall|i: int, j: int| 0 <= i < j < es.len() implies (
                #[trigger] es[i]).key() != (#[trigger] es[j]).key() by {
                    assert(es[i] == released(start[i], handle.id));
                    assert(es[j] == released(start[j], handle.id));
                    assert(start[i].key() != start[j].key());
                }
            }
        }
    }
    /// One update cycle, given what the buffer operations of each entry
    /// reported (`results[i]` for the `i`-th entry; `None` where none ran).
    ///
    /// Entries whose owner gave back its handle are retired; the others stay,
    /// in order, with their socket detached where an operation asked for it.
    pub fn update(&mut self, results: &Vec<Option<BufferUpdateResult>>)
        requires
            results@.len() == old(self).entries().len(),
        ensures
            final(self).next_key() == old(self).next_key(),
            final(self).entries() == after_cycle(old(self).entries(), results@),
            old(self).wf() ==> final(self).wf(),
    {
        let n = self.sockets.len();
        let ghost start = self.sockets@;
        let mut i: usize = 0;
        while i < n
            invariant
                n == start.len(),
                results@.len() == n,
                0 <= i <= n,
                self.next_id == old(self).next_id,
                start == old(self).sockets@,
                self.sockets@ == start.subrange(i as int, n as int) + cycle_prefix(
                    start,
                    results@,
                    i as nat,
                ),
            decreases n - i,
        {
            let mut e = self.sockets.remove(0);
            e.update(results[i]);
            if e.owner_alive {
                self.sockets.push(e);
            }
            proof {
                assert(start.subrange(i + 1, n as int) =~= start.subrange(i as int, n as int).drop_first());
            }
            i = i + 1;
            proof {
                assert(self.sockets@ =~= start.subrange(i as int, n as int) + cycle_prefix(
                    start,
                    results@,
                    i as nat,
                ));
            }
        }
        proof {
            assert(self.sockets@ =~= cycle_prefix(start, results@, n as nat));
            if old(self).wf() {
                lemma_cycle_prefix_wf(start, results@, n as nat, self.next_id);
            }
        }
    }

    /// Hands every entry out, leaving the manager empty, so that their buffer
    /// operations can run concurrently.
    pub fn take_entries(&mut self) -> (r: Vec<SocketEntry<B, S, D>>)
        ensures
            r@ == old(self).entries(),
            final(self).entries().len() == 0,
            final(self).next_key() == old(self).next_key(),
            final(self).wf(),
    {
        let mut taken = Vec::new();
        std::mem::swap(&mut taken, &mut self.sockets);
        taken
    }

    /// Takes an entry back after its cycle, unless it was flagged for removal.
    pub fn readmit(&mut self, entry: SocketEntry<B, S, D>)
        ensures
            final(self).next_key() == old(self).next_key(),
            final(self).entries() == readmitted(old(self).entries(), entry),
            old(self).wf() && entry.key() < old(self).next_key() && (forall|i: int|
                0 <= i < old(self).entries().len() ==> (#[trigger] old(self).entries()[i]).key()
                    != entry.key()) ==> final(self).wf(),
    {
        if !entry.drop_flag {
            self.sockets.push(entry);
            proof {
                let es = self.entries();
                let last = es.len() - 1;
                assert forall|i: int| 0 <= i < last implies #[trigger] es[i] == old(self).entries()[i] by {}
            }
        }
    }
}

/// Once the owner has given back the handle with key `id`, the next update
/// cycle leaves no entry with that key, whatever the buffer operations reported.
pub proof fn lemma_released_entry_retired<B, S, D>(
    es: Seq<SocketEntry<B, S, D>>,
    id: u64,
    rs: Seq<Option<BufferUpdateResult>>,
)
    requires
        rs.len() == es.len(),
    ensures
        forall|j: int|
            0 <= j < after_cycle(released_all(es, id), rs).len()
                ==> (#[trigger] after_cycle(released_all(es, id), rs)[j]).key() != id,
{
    let rel = released_all(es, id);
    lemma_cycle_prefix_excludes(rel, rs, rel.len(), id);
}

proof fn lemma_cycle_prefix_excludes<B, S, D>(
    es: Seq<SocketEntry<B, S, D>>,
    rs: Seq<Option<BufferUpdateResult>>,
    k: nat,
    id: u64,
)
    requires
        k <= es.len(),
        forall|j: int| 0 <= j < es.len() && es[j].link.id == id ==> !es[j].owner_alive,
    ensures
        forall|j: int|
            0 <= j < cycle_prefix(es, rs, k).len() ==> (#[trigger] cycle_prefix(es, rs, k)[j]).link.id != id,
    decreases k,
{
    if k > 0 {
        lemma_cycle_prefix_excludes(es, rs, (k - 1) as nat, id);
    }
}

/// When any operation of a cycle asks for a drop, the entry of a buffer that
/// is still owned loses its socket and keeps its key, buffer and diagnostics.
pub proof fn lemma_drop_detaches_socket<B, S, D>(e: SocketEntry<B, S, D>, r: BufferUpdateResult)
    requires
        e.is_owned(),
        r.demands_drop(),
    ensures
        settled(e, Some(r)).spec_socket() is None,
        settled(e, Some(r)).key() == e.key(),
        settled(e, Some(r)).is_owned(),
        settled(e, Some(r)).spec_buffer() == e.spec_buffer(),
        settled(e, Some(r)).spec_data() == e.spec_data(),
{
}

/// When no operation of a cycle asks for a drop, the entry of a buffer that
/// is still owned comes out of the cycle unchanged, socket included.
pub proof fn lemma_no_drop_keeps_socket<B, S, D>(e: SocketEntry<B, S, D>, r: BufferUpdateResult)
    requires
        e.is_owned(),
        !r.demands_drop(),
    ensures
        settled(e, Some(r)) == e,
{
}

/// An update cycle keeps exactly the entries whose owner still holds the
/// handle: every survivor is owned, and every owned entry survives, settled by
/// what its buffer operations reported.
pub proof fn lemma_cycle_keeps_owned<B, S, D>(
    es: Seq<SocketEntry<B, S, D>>,
    rs: Seq<Option<BufferUpdateResult>>,
)
    requires
        rs.len() == es.len(),
    ensures
        forall|j: int|
            0 <= j < after_cycle(es, rs).len() ==> (#[trigger] after_cycle(es, rs)[j]).is_owned(),
        forall|i: int|
            0 <= i < es.len() && (#[trigger] es[i]).is_owned() ==> exists|j: int|
                0 <= j < after_cycle(es, rs).len() && after_cycle(es, rs)[j] == settled(es[i], rs[i]),
{
    lemma_cycle_prefix_owned(es, rs, es.len());
    let out = after_cycle(es, rs);
    assert forall|i: int| 0 <= i < es.len() && (#[trigger] es[i]).is_owned() implies exists|j: int|
        0 <= j < out.len() && out[j] == settled(es[i], rs[i]) by {
        assert(es[i].owner_alive);
    }
}

proof fn lemma_cycle_prefix_owned<B, S, D>(
    es: Seq<SocketEntry<B, S, D>>,
    rs: Seq<Option<BufferUpdateResult>>,
    k: nat,
)
    requires
        k <= es.len(),
    ensures
        forall|j: int|
            0 <= j < cycle_prefix(es, rs, k).len() ==> (#[trigger] cycle_prefix(es, rs, k)[j]).owner_alive,
        forall|i: int|
            0 <= i < k && (#[trigger] es[i]).owner_alive ==> exists|j: int|
                0 <= j < cycle_prefix(es, rs, k).len() && cycle_prefix(es, rs, k)[j] == settled(es[i], rs[i]),
    decreases k,
{
    if k > 0 {
        let prev = cycle_prefix(es, rs, (k - 1) as nat);
        lemma_cycle_prefix_owned(es, rs, (k - 1) as nat);
        let cur = cycle_prefix(es, rs, k);
        assert forall|i: int| 0 <= i < k && (#[trigger] es[i]).owner_alive implies exists|j: int|
            0 <= j < cur.len() && cur[j] == settled(es[i], rs[i]) by {
            if i == k - 1 {
                assert(cur[cur.len() - 1] == settled(es[i], rs[i]));
            } else {
                let j = choose|j: int| 0 <= j < prev.len() && prev[j] == settled(es[i], rs[i]);
                assert(cur[j] == prev[j]);
            }
        }
    }
}

/// While every owner still holds its handle, an update cycle removes no
/// entry: each stays in place, settled by what its buffer operations reported.
pub proof fn lemma_owned_entries_kept<B, S, D>(
    es: Seq<SocketEntry<B, S, D>>,
    rs: Seq<Option<BufferUpdateResult>>,
)
    requires
        rs.len() == es.len(),
        forall|j: int| 0 <= j < es.len() ==> es[j].is_owned(),
    ensures
        after_cycle(es, rs).len() == es.len(),
        forall|j: int|
            0 <= j < es.len() ==> #[trigger] after_cycle(es, rs)[j] == settled(es[j], rs[j]),
{
    lemma_cycle_prefix_kept(es, rs, es.len());
}

proof fn lemma_cycle_prefix_kept<B, S, D>(
    es: Seq<SocketEntry<B, S, D>>,
    rs: Seq<Option<BufferUpdateResult>>,
    k: nat,
)
    requires
        k <= es.len(),
        forall|j: int| 0 <= j < es.len() ==> es[j].owner_alive,
    ensures
        cycle_prefix(es, rs, k).len() == k,
        forall|j: int| 0 <= j < k ==> #[trigger] cycle_prefix(es, rs, k)[j] == settled(es[j], rs[j]),
    decreases k,
{
    if k > 0 {
        lemma_cycle_prefix_kept(es, rs, (k - 1) as nat);
    }
}

} // verus!
