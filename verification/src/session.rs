//! The session core: the facade commands (spawn, write, resize, kill) for
//! local and remote sessions, and the per-session worker state machines.
//!
//! The core owns the registries and every lifecycle decision. The runtime
//! around it performs the actual terminal, process and network calls: it
//! opens a transport before asking the core to register it, performs the
//! writes and resizes the core approves, runs one worker loop per session,
//! and feeds each read outcome back in as a plain value. Events for a
//! session are emitted in the order its own worker produces them; `ended`
//! is terminal.

use vstd::prelude::*;
use crate::errors::SessionError;
use crate::registry::Registry;
use crate::registry::copy_id;
use crate::text::lossy_decode;
use crate::text::lossy_text_of;

verus! {

/// A notification pushed to the UI layer, addressed by session id:
/// `data` carries a best-effort text decoding of freshly read output,
/// `ended` says the session's stream is over.
pub enum SessionEvent {
    Data { id: Vec<u8>, text: String },
    Ended { id: Vec<u8> },
}

pub open spec fn event_id(e: SessionEvent) -> Seq<u8> {
    match e {
        SessionEvent::Data { id, text } => id@,
        SessionEvent::Ended { id } => id@,
    }
}

pub open spec fn all_for_id(events: Seq<SessionEvent>, id: Seq<u8>) -> bool {
    forall|i: int| 0 <= i < events.len() ==> event_id(#[trigger] events[i]) == id
}

pub open spec fn has_ended(events: Seq<SessionEvent>) -> bool {
    exists|i: int| 0 <= i < events.len() && #[trigger] events[i] is Ended
}

/// An `ended` event can only stand last in a batch.
pub open spec fn ended_only_terminal(events: Seq<SessionEvent>) -> bool {
    forall|i: int| 0 <= i < events.len() && #[trigger] events[i] is Ended ==> i == events.len() - 1
}

/// No `data` event ever follows an `ended` event.
pub open spec fn no_data_after_ended(events: Seq<SessionEvent>) -> bool {
    forall|i: int, j: int|
        0 <= i < j < events.len() && #[trigger] events[i] is Ended ==> !(#[trigger] events[j] is Data)
}

/// A local session record: the pseudo-terminal's current geometry. The OS
/// handles (writer, master, child) are owned by the runtime alongside it.
#[derive(Clone, Copy, PartialEq, Eq, Structural, Debug)]
pub struct LocalSession {
    pub rows: u16,
    pub cols: u16,
}

/// A remote session record: the shell channel's current geometry. The
/// channel itself is owned by the session's worker.
#[derive(Clone, Copy, PartialEq, Eq, Structural, Debug)]
pub struct RemoteSession {
    pub rows: u32,
    pub cols: u32,
}

/// The pending-write queue of a remote session: bytes enqueued by the
/// facade, drained in order by the worker.
pub struct WriteQueue {
    pub items: Vec<Vec<u8>>,
}

impl WriteQueue {
    pub open spec fn pending(self) -> Seq<Seq<u8>> {
        Seq::new(self.items@.len(), |i: int| self.items@[i]@)
    }
}

/// What one blocking read on a local transport produced: a non-empty chunk,
/// end-of-stream, or a read error.
pub enum ReadOutcome {
    Chunk(Vec<u8>),
    Eof,
    Failed,
}

/// What one non-blocking read on a remote channel produced.
pub enum ChannelRead {
    Data(Vec<u8>),
    WouldBlock,
    Eof,
    Failed,
}

/// What a local worker must do after one read.
pub struct StepResult {
    pub events: Vec<SessionEvent>,
    pub exit_loop: bool,
}

/// What the draining-writes phase of a remote worker iteration decided:
/// the queue is gone (the session was killed, exit silently), nothing is
/// pending, or the head of the queue is to be written now.
pub enum DrainOutcome {
    Disconnected,
    Empty,
    Write(Vec<u8>),
}

/// What a remote worker must do after the reading phase of one iteration:
/// emit the events, sleep briefly if the channel was idle, and exit the
/// loop if the session is over.
pub struct RemoteStep {
    pub events: Vec<SessionEvent>,
    pub sleep: bool,
    pub exit_loop: bool,
}

/// The registries of all live sessions. Local sessions have a direct write
/// path, so only a record is kept; remote sessions write through a pending
/// queue, kept in lockstep with the record.
pub struct SessionCore {
    pub locals: Registry<LocalSession>,
    pub remotes: Registry<RemoteSession>,
    pub queues: Registry<WriteQueue>,
}

/// Default geometry of a freshly spawned session: 80 columns by 24 rows.
pub open spec fn initial_local() -> LocalSession {
    LocalSession { rows: 24, cols: 80 }
}

pub open spec fn initial_remote() -> RemoteSession {
    RemoteSession { rows: 24, cols: 80 }
}

impl SessionCore {
    /// Well-formed: each registry maps an id to at most one record, and
    /// every remote record has exactly one pending-write queue.
    pub open spec fn wf(self) -> bool {
        &&& self.locals.wf()
        &&& self.remotes.wf()
        &&& self.queues.wf()
        &&& self.remotes@.dom() == self.queues@.dom()
    }

    pub fn new() -> (r: SessionCore)
        ensures
            r.wf(),
            r.locals@ == Map::<Seq<u8>, LocalSession>::empty(),
            r.remotes@ == Map::<Seq<u8>, RemoteSession>::empty(),
            r.queues@ == Map::<Seq<u8>, WriteQueue>::empty(),
    {
        let r = SessionCore {
            locals: Registry::new(),
            remotes: Registry::new(),
            queues: Registry::new(),
        };
        proof {
            assert(r.remotes@.dom() =~= r.queues@.dom());
        }
        r
    }

    /// Register a freshly opened local transport under an id. If the id is
    /// already live, nothing changes and the caller discards its fresh
    /// resources without error: a duplicate spawn is an idempotent no-op.
    pub fn spawn_local(&mut self, id: Vec<u8>) -> (inserted: bool)
        requires
            old(self).wf(),
        ensures
            final(self).wf(),
            inserted == !old(self).locals@.dom().contains(id@),
            inserted ==> final(self).locals@ == old(self).locals@.insert(id@, initial_local()),
            !inserted ==> final(self).locals@ == old(self).locals@,
            final(self).remotes@ == old(self).remotes@,
            final(self).queues@ == old(self).queues@,
    {
        self.locals.insert_if_absent(id, LocalSession { rows: 24, cols: 80 })
    }

    /// The direct write path of a local session: look the record up and, if
    /// it is live, hand the caller's bytes back unmodified for the runtime
    /// to write-then-flush on the transport's writer.
    pub fn write_local(&self, id: &Vec<u8>, data: Vec<u8>) -> (r: Result<Vec<u8>, SessionError>)
        requires
            self.wf(),
        ensures
            match r {
                Ok(b) => self.locals@.dom().contains(id@) && b@ == data@,
                Err(e) => !self.locals@.dom().contains(id@) && e is NotFound,
            },
    {
        if self.locals.contains(id) {
            Ok(data)
        } else {
            Err(SessionError::NotFound)
        }
    }

    /// Record a new geometry for a live local session; the runtime then
    /// applies it to the master control handle. An unknown id is refused.
    pub fn resize_local(&mut self, id: &Vec<u8>, rows: u16, cols: u16) -> (r: Result<
        (),
        SessionError,
    >)
        requires
            old(self).wf(),
        ensures
            final(self).wf(),
            final(self).remotes@ == old(self).remotes@,
            final(self).queues@ == old(self).queues@,
            match r {
                Ok(_) => old(self).locals@.dom().contains(id@) && final(self).locals@
                    == old(self).locals@.insert(id@, (LocalSession { rows, cols })),
                Err(e) => !old(self).locals@.dom().contains(id@) && e is NotFound
                    && final(self).locals@ == old(self).locals@,
            },
    {
        let ghost pre = old(self).locals@;
        match self.locals.remove(id) {
            Some(_) => {
                let inserted = self.locals.insert_if_absent(
                    copy_id(id),
                    LocalSession { rows, cols },
                );
                proof {
                    assert(inserted);
                    assert(pre.remove(id@).insert(id@, LocalSession { rows, cols }) =~= pre.insert(
                        id@,
                        LocalSession { rows, cols },
                    ));
                }
                Ok(())
            },
            None => Err(SessionError::NotFound),
        }
    }

    /// Forced termination of a local session: the record leaves the
    /// registry, and on success the runtime must explicitly signal the
    /// owned child process — dropping the handle alone may orphan it.
    pub fn kill_local(&mut self, id: &Vec<u8>) -> (r: Result<(), SessionError>)
        requires
            old(self).wf(),
        ensures
            final(self).wf(),
            final(self).remotes@ == old(self).remotes@,
            final(self).queues@ == old(self).queues@,
            final(self).locals@ == old(self).locals@.remove(id@),
            r is Ok <==> old(self).locals@.dom().contains(id@),
            r matches Err(e) ==> e is NotFound,
    {
        match self.locals.remove(id) {
            Some(_) => Ok(()),
            None => Err(SessionError::NotFound),
        }
    }

    /// Is a local session live under this id?
    pub fn contains_local(&self, id: &Vec<u8>) -> (r: bool)
        requires
            self.wf(),
        ensures
            r == self.locals@.dom().contains(id@),
    {
        self.locals.contains(id)
    }

    /// How many local sessions are live.
    pub fn local_count(&self) -> (r: usize)
        ensures
            r == self.locals.spec_len(),
    {
        self.locals.count()
    }

    /// Register a freshly opened remote shell channel under an id, with an
    /// empty pending-write queue. Unlike a local spawn, an explicit remote
    /// creation of a live id is reported as an error.
    pub fn spawn_remote(&mut self, id: Vec<u8>) -> (r: Result<(), SessionError>)
        requires
            old(self).wf(),
        ensures
            final(self).wf(),
            final(self).locals@ == old(self).locals@,
            match r {
                Ok(_) => {
                    &&& !old(self).remotes@.dom().contains(id@)
                    &&& final(self).remotes@ == old(self).remotes@.insert(id@, initial_remote())
                    &&& final(self).queues@.dom() == old(self).queues@.dom().insert(id@)
                    &&& final(self).queues@[id@].pending() == Seq::<Seq<u8>>::empty()
                    &&& forall|k: Seq<u8>|
                        k != id@ && old(self).queues@.dom().contains(k)
                            ==> final(self).queues@[k] == old(self).queues@[k]
                },
                Err(e) => {
                    &&& old(self).remotes@.dom().contains(id@)
                    &&& e is AlreadyExists
                    &&& final(self).remotes@ == old(self).remotes@
                    &&& final(self).queues@ == old(self).queues@
                },
            },
    {
        if self.remotes.contains(&id) {
            return Err(SessionError::AlreadyExists);
        }
        let id2 = copy_id(&id);
        let ghost pre = *self;
        let ins_q = self.queues.insert_if_absent(id2, WriteQueue { items: Vec::new() });
        let ins_r = self.remotes.insert_if_absent(id, RemoteSession { rows: 24, cols: 80 });
        proof {
            assert(ins_q && ins_r);
            assert(final(self).queues@.dom() =~= pre.queues@.dom().insert(id@));
            assert(final(self).queues@[id@].pending() =~= Seq::<Seq<u8>>::empty());
            assert(final(self).remotes@.dom() =~= final(self).queues@.dom());
        }
        Ok(())
    }

    /// Enqueue bytes for a live remote session's worker to write. The queue
    /// holds exactly the caller's bytes, appended in order; a dead or
    /// unknown id (including one just killed) is `NotFound`.
    pub fn write_remote(&mut self, id: &Vec<u8>, data: Vec<u8>) -> (r: Result<(), SessionError>)
        requires
            old(self).wf(),
        ensures
            final(self).wf(),
            final(self).locals@ == old(self).locals@,
            final(self).remotes@ == old(self).remotes@,
            match r {
                Ok(_) => {
                    &&& old(self).queues@.dom().contains(id@)
                    &&& final(self).queues@.dom() == old(self).queues@.dom()
                    &&& final(self).queues@[id@].pending() == old(self).queues@[id@].pending().push(
                        data@,
                    )
                    &&& forall|k: Seq<u8>|
                        k != id@ && old(self).queues@.dom().contains(k)
                            ==> final(self).queues@[k] == old(self).queues@[k]
                },
                Err(e) => {
                    &&& !old(self).queues@.dom().contains(id@)
                    &&& e is NotFound
                    &&& final(self).queues@ == old(self).queues@
                },
            },
    {
        let ghost pre = *self;
        match self.queues.remove(id) {
            Some(mut q) => {
                let ghost qpre = q;
                q.items.push(data);
                proof {
                    assert(q.pending() =~= qpre.pending().push(data@));
                }
                let inserted = self.queues.insert_if_absent(copy_id(id), q);
                proof {
                    assert(inserted);
                    assert(final(self).queues@.dom() =~= pre.queues@.dom());
                    assert(final(self).remotes@.dom() == final(self).queues@.dom());
                }
                Ok(())
            },
            None => Err(SessionError::NotFound),
        }
    }

    /// Record a new geometry for a live remote session; the runtime then
    /// sends the in-band pseudo-terminal resize request on the channel,
    /// under the same lock that guards the registry.
    pub fn resize_remote(&mut self, id: &Vec<u8>, rows: u32, cols: u32) -> (r: Result<
        (),
        SessionError,
    >)
        requires
            old(self).wf(),
        ensures
            final(self).wf(),
            final(self).locals@ == old(self).locals@,
            final(self).queues@ == old(self).queues@,
            match r {
                Ok(_) => old(self).remotes@.dom().contains(id@) && final(self).remotes@
                    == old(self).remotes@.insert(id@, (RemoteSession { rows, cols })),
                Err(e) => !old(self).remotes@.dom().contains(id@) && e is NotFound
                    && final(self).remotes@ == old(self).remotes@,
            },
    {
        let ghost pre = old(self).remotes@;
        match self.remotes.remove(id) {
            Some(_) => {
                let inserted = self.remotes.insert_if_absent(
                    copy_id(id),
                    RemoteSession { rows, cols },
                );
                proof {
                    assert(inserted);
                    assert(pre.remove(id@).insert(id@, RemoteSession { rows, cols }) =~= pre.insert(
                        id@,
                        RemoteSession { rows, cols },
                    ));
                    assert(final(self).remotes@.dom() =~= pre.dom());
                }
                Ok(())
            },
            None => Err(SessionError::NotFound),
        }
    }

    /// Forced termination of a remote session: the pending-write queue is
    /// removed first (the worker's next queue check observes the
    /// disconnection and exits), then the record. Killing an absent id is
    /// not an error — the worker may have reaped it already.
    pub fn kill_remote(&mut self, id: &Vec<u8>) -> (r: Result<(), SessionError>)
        requires
            old(self).wf(),
        ensures
            final(self).wf(),
            final(self).locals@ == old(self).locals@,
            final(self).queues@ == old(self).queues@.remove(id@),
            final(self).remotes@ == old(self).remotes@.remove(id@),
            r is Ok,
    {
        let _ = self.queues.remove(id);
        let _ = self.remotes.remove(id);
        proof {
            assert(final(self).remotes@.dom() =~= final(self).queues@.dom());
        }
        Ok(())
    }

    /// Is a remote session live under this id?
    pub fn contains_remote(&self, id: &Vec<u8>) -> (r: bool)
        requires
            self.wf(),
        ensures
            r == self.remotes@.dom().contains(id@),
    {
        self.remotes.contains(id)
    }

    /// How many remote sessions are live.
    pub fn remote_count(&self) -> (r: usize)
        ensures
            r == self.remotes.spec_len(),
    {
        self.remotes.count()
    }

    /// One step of a local session's worker: it made one blocking read and
    /// hands in the outcome. A non-empty chunk becomes one `data` event
    /// with the chunk's best-effort text decoding; end-of-stream or a read
    /// error becomes one `ended` event, the worker removes its own registry
    /// entry and exits its loop.
    pub fn local_worker_step(&mut self, id: &Vec<u8>, outcome: ReadOutcome) -> (r: StepResult)
        requires
            old(self).wf(),
        ensures
            final(self).wf(),
            final(self).remotes@ == old(self).remotes@,
            final(self).queues@ == old(self).queues@,
            all_for_id(r.events@, id@),
            ended_only_terminal(r.events@),
            has_ended(r.events@) ==> r.exit_loop,
            match outcome {
                ReadOutcome::Chunk(bytes) => {
                    &&& !r.exit_loop
                    &&& r.events@.len() == 1
                    &&& (r.events@[0] matches SessionEvent::Data { id: eid, text } && eid@ == id@
                        && text@ == lossy_text_of(bytes@))
                    &&& final(self).locals@ == old(self).locals@
                },
                _ => {
                    &&& r.exit_loop
                    &&& r.events@.len() == 1
                    &&& (r.events@[0] matches SessionEvent::Ended { id: eid } && eid@ == id@)
                    &&& final(self).locals@ == old(self).locals@.remove(id@)
                },
            },
    {
        match outcome {
            ReadOutcome::Chunk(bytes) => {
                let text = lossy_decode(&bytes);
                let mut events: Vec<SessionEvent> = Vec::new();
                events.push(SessionEvent::Data { id: copy_id(id), text });
                StepResult { events, exit_loop: false }
            },
            _ => {
                let _ = self.locals.remove(id);
                let mut events: Vec<SessionEvent> = Vec::new();
                events.push(SessionEvent::Ended { id: copy_id(id) });
                StepResult { events, exit_loop: true }
            },
        }
    }

    /// The draining-writes phase of one remote worker iteration. It runs
    /// before the read attempt, so a write enqueued by the facade is
    /// attempted before any subsequently read output is emitted. A removed
    /// queue (kill) makes the worker exit silently, removing its own
    /// record; otherwise the head of the queue, if any, leaves it and is
    /// handed out to be written, byte for byte.
    pub fn remote_drain_step(&mut self, id: &Vec<u8>) -> (r: DrainOutcome)
        requires
            old(self).wf(),
        ensures
            final(self).wf(),
            final(self).locals@ == old(self).locals@,
            !old(self).queues@.dom().contains(id@) ==> r is Disconnected && final(self).remotes@
                == old(self).remotes@.remove(id@) && final(self).queues@
                == old(self).queues@.remove(id@),
            old(self).queues@.dom().contains(id@) ==> {
                let q = old(self).queues@[id@].pending();
                &&& final(self).remotes@ == old(self).remotes@
                &&& final(self).queues@.dom() == old(self).queues@.dom()
                &&& forall|k: Seq<u8>|
                    k != id@ && old(self).queues@.dom().contains(k)
                        ==> final(self).queues@[k] == old(self).queues@[k]
                &&& (q.len() == 0 ==> r is Empty && final(self).queues@[id@].pending() == q)
                &&& (q.len() > 0 ==> (r matches DrainOutcome::Write(b) && b@ == q[0])
                    && final(self).queues@[id@].pending() == q.drop_first())
            },
    {
        let ghost pre = *self;
        match self.queues.remove(id) {
            None => {
                let _ = self.remotes.remove(id);
                proof {
                    assert(final(self).remotes@.dom() =~= final(self).queues@.dom());
                }
                DrainOutcome::Disconnected
            },
            Some(mut q) => {
                let ghost qpre = q;
                let out: DrainOutcome = if q.items.len() > 0 {
                    let b = q.items.remove(0);
                    proof {
                        assert(q.pending() =~= qpre.pending().drop_first());
                    }
                    DrainOutcome::Write(b)
                } else {
                    DrainOutcome::Empty
                };
                let inserted = self.queues.insert_if_absent(copy_id(id), q);
                proof {
                    assert(inserted);
                    assert(final(self).queues@.dom() =~= pre.queues@.dom());
                    assert(final(self).remotes@.dom() == final(self).queues@.dom());
                }
                out
            },
        }
    }

    /// The reading phase of one remote worker iteration: act on the
    /// attempted non-blocking read, then honour the channel's own
    /// end-of-stream flag, which can be set even when no read failed. Fresh
    /// output becomes a `data` event; end-of-stream or a failure becomes
    /// `ended`, and the worker removes its queue and its record and exits;
    /// an idle iteration sleeps briefly rather than busy-loop.
    pub fn remote_read_step(&mut self, id: &Vec<u8>, read: ChannelRead, channel_eof: bool) -> (r:
        RemoteStep)
        requires
            old(self).wf(),
        ensures
            final(self).wf(),
            final(self).locals@ == old(self).locals@,
            all_for_id(r.events@, id@),
            ended_only_terminal(r.events@),
            has_ended(r.events@) ==> r.exit_loop,
            r.exit_loop ==> final(self).remotes@ == old(self).remotes@.remove(id@)
                && final(self).queues@ == old(self).queues@.remove(id@),
            !r.exit_loop ==> final(self).remotes@ == old(self).remotes@ && final(self).queues@
                == old(self).queues@,
            match read {
                ChannelRead::Data(bytes) => {
                    &&& !r.sleep
                    &&& (r.events@[0] matches SessionEvent::Data { id: eid, text } && eid@ == id@
                        && text@ == lossy_text_of(bytes@))
                    &&& if channel_eof {
                        &&& r.exit_loop
                        &&& r.events@.len() == 2
                        &&& (r.events@[1] matches SessionEvent::Ended { id: eid } && eid@ == id@)
                    } else {
                        &&& !r.exit_loop
                        &&& r.events@.len() == 1
                    }
                },
                ChannelRead::WouldBlock => {
                    if channel_eof {
                        &&& r.exit_loop
                        &&& !r.sleep
                        &&& r.events@.len() == 1
                        &&& (r.events@[0] matches SessionEvent::Ended { id: eid } && eid@ == id@)
                    } else {
                        &&& !r.exit_loop
                        &&& r.sleep
                        &&& r.events@.len() == 0
                    }
                },
                _ => {
                    &&& r.exit_loop
                    &&& !r.sleep
                    &&& r.events@.len() == 1
                    &&& (r.events@[0] matches SessionEvent::Ended { id: eid } && eid@ == id@)
                },
            },
    {
        let mut events: Vec<SessionEvent> = Vec::new();
        let mut exit_loop = false;
        let mut sleep = false;
        match read {
            ChannelRead::Data(bytes) => {
                let text = lossy_decode(&bytes);
                events.push(SessionEvent::Data { id: copy_id(id), text });
                if channel_eof {
                    events.push(SessionEvent::Ended { id: copy_id(id) });
                    exit_loop = true;
                }
            },
            ChannelRead::WouldBlock => {
                if channel_eof {
                    events.push(SessionEvent::Ended { id: copy_id(id) });
                    exit_loop = true;
                } else {
                    sleep = true;
                }
            },
            _ => {
                events.push(SessionEvent::Ended { id: copy_id(id) });
                exit_loop = true;
            },
        }
        if exit_loop {
            let _ = self.queues.remove(id);
            let _ = self.remotes.remove(id);
            proof {
                assert(final(self).remotes@.dom() =~= final(self).queues@.dom());
            }
        }
        RemoteStep { events, sleep, exit_loop }
    }
}

/// Concurrent spawns with one id admit exactly one record: the first
/// check-and-insert stores its record; any later spawn of the same id finds
/// the table occupied, changes nothing, and is reported not-inserted
/// (`spawn_local` / `spawn_remote` ensure this), so its caller releases the
/// transport it freshly built. Together with `Registry::lemma_at_most_one_entry`
/// this pins down that one transport per id survives in the registry.
pub proof fn lemma_duplicate_spawn<R>(m0: Map<Seq<u8>, R>, id: Seq<u8>, first: R)
    ensures
        m0.insert(id, first).dom().contains(id),
        m0.insert(id, first)[id] == first,
{
}

/// `kill` removes the entry (`kill_local`) or the pending-write queue
/// (`kill_remote`, which removes the queue first), so a `write` that
/// follows within the grace period finds nothing: by `write_local` /
/// `write_remote`'s contracts the write returns `NotFound` exactly then.
pub proof fn lemma_kill_then_write_not_found<R>(m: Map<Seq<u8>, R>, id: Seq<u8>)
    ensures
        !m.remove(id).dom().contains(id),
{
}

/// Bytes enqueued by `write_remote` reach the transport unmodified and in
/// order: enqueueing appends exactly the caller's bytes and disturbs no
/// earlier entry, and `remote_drain_step` hands out exactly the head of
/// the queue. With `write_local` returning the caller's bytes unchanged,
/// this is the round-trip guarantee on the library's side of the transport.
pub proof fn lemma_enqueue_preserves_bytes(q: Seq<Seq<u8>>, data: Seq<u8>)
    ensures
        q.push(data).last() == data,
        q.push(data).len() == q.len() + 1,
        forall|i: int| 0 <= i < q.len() ==> q.push(data)[i] == q[i],
{
}

/// Resize is idempotent under repetition: `resize_local` / `resize_remote`
/// leave the registry as `old.insert(id, record-with-geometry)`, and
/// inserting the same record twice is the same as inserting it once.
pub proof fn lemma_resize_idempotent<R>(m: Map<Seq<u8>, R>, id: Seq<u8>, rec: R)
    ensures
        m.insert(id, rec).insert(id, rec) == m.insert(id, rec),
{
    assert(m.insert(id, rec).insert(id, rec) =~= m.insert(id, rec));
}

/// After `ended` is emitted for a session id, no further `data` event for
/// that id is ever emitted: over any run of worker steps — each batch the
/// events of one step, every batch keeping `ended` terminal, a batch with
/// `ended` demanding exit, and the loop stopping at the first exit — the
/// concatenated event stream has no `data` after an `ended`.
pub proof fn lemma_no_data_after_ended(batches: Seq<Seq<SessionEvent>>, exits: Seq<bool>)
    requires
        batches.len() == exits.len(),
        forall|k: int| 0 <= k < batches.len() ==> ended_only_terminal(#[trigger] batches[k]),
        forall|k: int| 0 <= k < batches.len() && has_ended(#[trigger] batches[k]) ==> exits[k],
        forall|k: int| 0 <= k < batches.len() - 1 ==> !exits[k],
    ensures
        no_data_after_ended(batches.flatten()),
    decreases batches.len(),
{
    if batches.len() == 0 {
    } else {
        let b0 = batches.first();
        let rest = batches.drop_first();
        assert(batches.flatten() == b0 + rest.flatten());
        lemma_no_data_after_ended(rest, exits.drop_first());
        if batches.len() == 1 {
            assert(rest.flatten() =~= Seq::<SessionEvent>::empty());
            assert forall|i: int, j: int|
                0 <= i < j < batches.flatten().len() && #[trigger] batches.flatten()[i] is Ended
                    implies !(#[trigger] batches.flatten()[j] is Data) by {
                assert(batches.flatten() =~= b0);
                assert(b0[i] is Ended);
                assert(i == b0.len() - 1);
            }
        } else {
            assert(!exits[0]);
            assert(!has_ended(b0));
            assert forall|i: int, j: int|
                0 <= i < j < batches.flatten().len() && #[trigger] batches.flatten()[i] is Ended
                    implies !(#[trigger] batches.flatten()[j] is Data) by {
                let s = batches.flatten();
                if i < b0.len() {
                    assert(s[i] == b0[i]);
                    assert(has_ended(b0));
                } else {
                    assert(s[i] == rest.flatten()[i - b0.len()]);
                    assert(s[j] == rest.flatten()[j - b0.len()]);
                    assert(no_data_after_ended(rest.flatten()));
                }
            }
        }
    }
}

} // verus!
