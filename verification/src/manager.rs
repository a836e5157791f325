//! The server lifecycle manager: a serialized control loop over the live
//! state table.
//!
//! All spec mutations (add/remove) and all supervisor events (spawn
//! confirmed, spawn failed, process exited, stop finished) funnel through
//! one `ServerManager` value, one at a time, so no two operations for
//! overlapping ids ever interleave. The table never holds two rows with the
//! same id, rows in `Error` are retained until explicitly removed, and
//! every mutation moves the broadcast version so readers notice.
//!
//! Everything that touches the outside world — persisting specs, spawning
//! and killing child processes, piping their output — happens in the
//! caller, which reports back through these methods with plain values.

use vstd::prelude::*;

use crate::broadcast::{next_version, StateBroadcaster};
use crate::common::{
    is_event, is_process_output, now_ms, str_eq, LogLine, LogLineContent, ServerId, ServerSpec,
    ServerState, ServerStatus,
};
use crate::logsink::IncrementalVec;

verus! {

/// Whether some row of the table carries the instance id `id`.
pub open spec fn has_row(t: Seq<ServerState>, id: Seq<char>) -> bool {
    exists|i: int| 0 <= i < t.len() && #[trigger] t[i].spec.id@ == id
}

/// Whether the row at `i` carries the instance id `id`.
pub open spec fn is_row_at(t: Seq<ServerState>, id: Seq<char>, i: int) -> bool {
    0 <= i < t.len() && t[i].spec.id@ == id
}

/// No two rows carry the same instance id.
pub open spec fn distinct_ids(t: Seq<ServerState>) -> bool {
    forall|i: int, j: int|
        0 <= i < t.len() && 0 <= j < t.len() && i != j ==> (#[trigger] t[i].spec.id@)
            != (#[trigger] t[j].spec.id@)
}

/// Whether a stop handle for `id` is still unconsumed.
pub open spec fn has_handle(h: Seq<ServerId>, id: Seq<char>) -> bool {
    exists|i: int| 0 <= i < h.len() && (#[trigger] h[i])@ == id
}

/// No two unconsumed stop handles belong to the same instance.
pub open spec fn distinct_handles(h: Seq<ServerId>) -> bool {
    forall|i: int, j: int|
        0 <= i < h.len() && 0 <= j < h.len() && i != j ==> (#[trigger] h[i])@ != (#[trigger] h[j])@
}

/// Whether some row carries `id` and is `Running` — what every unconsumed
/// stop handle points at.
pub open spec fn handle_is_backed(t: Seq<ServerState>, id: Seq<char>) -> bool {
    exists|j: int| is_row_at(t, id, j) && (#[trigger] t[j]).status is Running
}

/// Whether the log registry has an entry under `lid`.
pub open spec fn has_log(logs: Seq<Logs>, lid: Seq<char>) -> bool {
    exists|k: int| 0 <= k < logs.len() && #[trigger] logs[k].logs_id@ == lid
}

/// Whether the handle at `h` belongs to instance `id`.
pub open spec fn is_handle_at(hs: Seq<ServerId>, id: Seq<char>, h: int) -> bool {
    0 <= h < hs.len() && hs[h]@ == id
}

/// What accepting a persisted spec guarantees: one new row and one new
/// registry entry at the end, everything already there untouched, and the
/// row's status and the sink's event lines matching the action.
pub open spec fn started_post(
    pre: ServerManager,
    post: ServerManager,
    spec: ServerSpec,
    logs_id: Seq<char>,
    action: StartAction,
) -> bool {
    &&& post.spec_handles() == pre.spec_handles()
    &&& post.spec_logs().len() == pre.spec_logs().len() + 1
    &&& (forall|k: int|
        0 <= k < pre.spec_logs().len() ==> post.spec_logs()[k] == pre.spec_logs()[k])
    &&& post.spec_logs().last().logs_id@ == logs_id
    &&& post.spec_logs().last().server_spec == spec
    &&& post.spec_table().len() == pre.spec_table().len() + 1
    &&& (forall|i: int|
        0 <= i < pre.spec_table().len() ==> post.spec_table()[i] == pre.spec_table()[i])
    &&& post.spec_table().last().spec == spec
    &&& post.spec_table().last().logs_id@ == logs_id
    &&& match action {
        StartAction::Spawn { port: _ } => {
            &&& post.spec_table().last().status == ServerStatus::Starting
            &&& post.spec_version() == next_version(pre.spec_version())
            &&& post.spec_logs().last().sink.spec_all().len() == 1
            &&& is_event(post.spec_logs().last().sink.spec_all()[0], "Starting server..."@)
        },
        StartAction::Failed => {
            &&& post.spec_table().last().status == ServerStatus::Error
            &&& post.spec_version() == next_version(next_version(pre.spec_version()))
            &&& post.spec_logs().last().sink.spec_all().len() == 2
            &&& is_event(post.spec_logs().last().sink.spec_all()[0], "Starting server..."@)
            &&& is_event(
                post.spec_logs().last().sink.spec_all()[1],
                "Failed to find free local port"@,
            )
        },
    }
}

/// Holds when an operation left the manager exactly as it found it.
pub open spec fn unchanged(pre: ServerManager, post: ServerManager) -> bool {
    &&& post.spec_table() == pre.spec_table()
    &&& post.spec_logs() == pre.spec_logs()
    &&& post.spec_handles() == pre.spec_handles()
    &&& post.spec_version() == pre.spec_version()
}

/// Whether `k` is the first registry entry under `lid`.
pub open spec fn is_first_log_at(logs: Seq<Logs>, lid: Seq<char>, k: int) -> bool {
    &&& 0 <= k < logs.len()
    &&& logs[k].logs_id@ == lid
    &&& forall|j: int| 0 <= j < k ==> (#[trigger] logs[j].logs_id@) != lid
}

/// Holds when `post` is `pre` with one manager event line carrying `msg`
/// appended.
pub open spec fn event_pushed(pre: Seq<LogLine>, post: Seq<LogLine>, msg: Seq<char>) -> bool {
    exists|line: LogLine| #[trigger] is_event(line, msg) && post == pre.push(line)
}

/// Holds when `post` is `pre` with one event line carrying `msg` pushed
/// into its sink, everything else unchanged.
pub open spec fn sink_event_appended(pre: IncrementalVec, post: IncrementalVec, msg: Seq<char>) -> bool {
    &&& post.spec_capacity() == pre.spec_capacity()
    &&& post.sub_count() == pre.sub_count()
    &&& event_pushed(pre.spec_all(), post.spec_all(), msg)
}

/// Holds when the registries agree except that the entry under `lid` got
/// one event line carrying `msg`.
pub open spec fn logs_event_appended(
    pre: Seq<Logs>,
    post: Seq<Logs>,
    lid: Seq<char>,
    msg: Seq<char>,
) -> bool {
    &&& post.len() == pre.len()
    &&& exists|k: int|
        {
            &&& 0 <= k < pre.len()
            &&& (#[trigger] pre[k].logs_id@) == lid
            &&& (forall|j: int| 0 <= j < pre.len() && j != k ==> post[j] == pre[j])
            &&& post[k].logs_id == pre[k].logs_id
            &&& post[k].server_spec == pre[k].server_spec
            &&& sink_event_appended(pre[k].sink, post[k].sink, msg)
        }
}

/// One entry of the log registry: the sink of one instance, kept even
/// after its row leaves the table so its last lines stay readable.
pub struct Logs {
    pub logs_id: String,
    pub server_spec: ServerSpec,
    pub sink: IncrementalVec,
}

/// A request accepted by the control loop.
pub enum ServerSpecUpdate {
    /// Declare and start a new instance.
    Add(ServerSpec),
    /// Stop and forget the instance with this id.
    Remove(ServerId),
}

/// What the caller must do next after an instance was accepted.
#[derive(Clone, Copy, PartialEq, Eq, Structural, Debug)]
pub enum StartAction {
    /// A free local port was found: spawn the child process bound to it,
    /// then report back through `confirm_running` or `fail_instance`.
    Spawn { port: u16 },
    /// Port allocation failed; the row is already in `Error` and retained.
    Failed,
}

/// What became of an add request.
pub enum AddOutcome {
    /// The spec could not be persisted; nothing was started.
    Rejected,
    /// A live row with this id already exists; nothing was started.
    Duplicate,
    /// A row was created; `action` says whether a process must be spawned.
    Started { logs_id: String, action: StartAction },
}

/// What became of a remove request.
#[derive(Clone, Copy, PartialEq, Eq, Structural, Debug)]
pub enum RemoveAction {
    /// No live row carries this id; the request is dropped, nothing
    /// crashes, and later requests are processed as usual.
    NotFound,
    /// The stop handle was consumed: delete the spec from the store and
    /// send the stop signal; the supervisor will report `finish_stop`.
    SignalStop,
    /// No supervisor holds this row (it failed or never spawned): the row
    /// was removed directly; delete the spec from the store.
    Dropped,
}

/// Relies on `port_check::free_local_ipv4_port`: binds an ephemeral local
/// IPv4 TCP socket to learn a currently free port, `None` when the bind
/// fails. Which port comes back depends on the machine at that moment.
#[verifier::external_body]
fn allocate_port() -> (r: Option<u16>) {
    port_check::free_local_ipv4_port()
}

/// Relies on `uuid::Uuid::new_v4` and its `Display` impl: a fresh random
/// suffix that makes a log registry id practically unique.
#[verifier::external_body]
fn fresh_suffix() -> (r: String) {
    uuid::Uuid::new_v4().to_string()
}

/// Appends one manager event line carrying `msg` to a sink, stamped with
/// the current time.
fn push_event_line(sink: &mut IncrementalVec, msg: &str)
    requires
        old(sink).inv(),
    ensures
        final(sink).inv(),
        sink_event_appended(*old(sink), *final(sink), msg@),
{
    let line = LogLine { timestamp_ms: now_ms(), content: LogLineContent::Event(msg.to_owned()) };
    proof {
        assert(is_event(line, msg@));
    }
    sink.push(line);
}

/// Appends one event line carrying `msg` to the first registry entry under
/// `logs_id`, leaving every other entry untouched.
fn append_event_to_logs(logs: &mut Vec<Logs>, logs_id: &str, msg: &str)
    requires
        forall|k: int| 0 <= k < old(logs)@.len() ==> (#[trigger] old(logs)@[k]).sink.inv(),
        has_log(old(logs)@, logs_id@),
    ensures
        forall|k: int| 0 <= k < final(logs)@.len() ==> (#[trigger] final(logs)@[k]).sink.inv(),
        final(logs)@.len() == old(logs)@.len(),
        forall|k: int|
            0 <= k < final(logs)@.len() ==> (#[trigger] final(logs)@[k]).logs_id == old(
                logs,
            )@[k].logs_id && final(logs)@[k].server_spec == old(logs)@[k].server_spec,
        logs_event_appended(old(logs)@, final(logs)@, logs_id@, msg@),
{
    let ghost pre = logs@;
    let mut k: usize = 0;
    let n = logs.len();
    while k < n
        invariant
            k <= n,
            n == logs@.len(),
            pre == old(logs)@,
            logs@ == pre,
            has_log(pre, logs_id@),
            forall|j: int| 0 <= j < k ==> (#[trigger] pre[j].logs_id@) != logs_id@,
            forall|j: int| 0 <= j < pre.len() ==> (#[trigger] pre[j]).sink.inv(),
        decreases n - k,
    {
        if str_eq(logs[k].logs_id.as_str(), logs_id) {
            let mut entry = logs.remove(k);
            push_event_line(&mut entry.sink, msg);
            logs.insert(k, entry);
            proof {
                assert(logs@ =~= pre.update(k as int, entry));
                assert(logs_event_appended(pre, logs@, logs_id@, msg@));
            }
            return ;
        }
        k = k + 1;
    }
    proof {
        let w = choose|w: int| 0 <= w < pre.len() && #[trigger] pre[w].logs_id@ == logs_id@;
        assert(false);
    }
}

/// The authoritative owner of the live state table, the stop handles and
/// the log registry.
pub struct ServerManager {
    states: StateBroadcaster,
    logs: Vec<Logs>,
    stop_handles: Vec<ServerId>,
}

impl ServerManager {
    /// The live state table, in insertion order.
    pub closed spec fn spec_table(&self) -> Seq<ServerState> {
        self.states.spec_table()
    }

    /// The broadcast change counter.
    pub closed spec fn spec_version(&self) -> u64 {
        self.states.spec_version()
    }

    /// The log registry, in registration order.
    pub closed spec fn spec_logs(&self) -> Seq<Logs> {
        self.logs@
    }

    /// The instances whose supervisor still holds an unconsumed stop
    /// handle.
    pub closed spec fn spec_handles(&self) -> Seq<ServerId> {
        self.stop_handles@
    }

    /// Well-formedness: no duplicate ids in the table, no duplicate stop
    /// handles, every handle points at a `Running` row, every sink is
    /// well-formed, and every row's logs id is registered.
    pub closed spec fn inv(&self) -> bool {
        &&& distinct_ids(self.spec_table())
        &&& distinct_handles(self.stop_handles@)
        &&& forall|i: int|
            0 <= i < self.stop_handles@.len() ==> handle_is_backed(
                self.spec_table(),
                (#[trigger] self.stop_handles@[i])@,
            )
        &&& forall|k: int| 0 <= k < self.logs@.len() ==> (#[trigger] self.logs@[k]).sink.inv()
        &&& forall|i: int|
            0 <= i < self.spec_table().len() ==> has_log(
                self.logs@,
                (#[trigger] self.spec_table()[i]).logs_id@,
            )
    }

    /// A manager with an empty table.
    pub fn new() -> (r: ServerManager)
        ensures
            r.inv(),
            r.spec_table() == Seq::<ServerState>::empty(),
            r.spec_logs() == Seq::<Logs>::empty(),
            r.spec_handles() == Seq::<ServerId>::empty(),
            r.spec_version() == 0,
    {
        ServerManager {
            states: StateBroadcaster::new(),
            logs: Vec::new(),
            stop_handles: Vec::new(),
        }
    }

    /// The index of the row carrying `id`, if any.
    fn find_row(&self, id: &ServerId) -> (r: Option<usize>)
        ensures
            match r {
                Some(i) => is_row_at(self.spec_table(), id@, i as int),
                None => !has_row(self.spec_table(), id@),
            },
    {
        let table = self.states.latest();
        let mut i: usize = 0;
        while i < table.len()
            invariant
                i <= table@.len(),
                table@ == self.spec_table(),
                forall|j: int| 0 <= j < i ==> (#[trigger] table@[j].spec.id@) != id@,
            decreases table@.len() - i,
        {
            if table[i].spec.id.same_as(id) {
                return Some(i);
            }
            i = i + 1;
        }
        None
    }

    /// The index of the unconsumed stop handle for `id`, if any.
    fn find_handle(&self, id: &ServerId) -> (r: Option<usize>)
        ensures
            match r {
                Some(i) => 0 <= i < self.spec_handles().len() && self.spec_handles()[i as int]@
                    == id@,
                None => !has_handle(self.spec_handles(), id@),
            },
    {
        let mut i: usize = 0;
        while i < self.stop_handles.len()
            invariant
                i <= self.stop_handles@.len(),
                forall|j: int| 0 <= j < i ==> (#[trigger] self.stop_handles@[j])@ != id@,
            decreases self.stop_handles@.len() - i,
        {
            if self.stop_handles[i].same_as(id) {
                return Some(i);
            }
            i = i + 1;
        }
        None
    }

    /// The index of the first log registry entry under `logs_id`, if any.
    pub fn find_logs(&self, logs_id: &str) -> (r: Option<usize>)
        ensures
            match r {
                Some(k) => is_first_log_at(self.spec_logs(), logs_id@, k as int),
                None => !has_log(self.spec_logs(), logs_id@),
            },
    {
        let mut k: usize = 0;
        while k < self.logs.len()
            invariant
                k <= self.logs@.len(),
                forall|j: int| 0 <= j < k ==> (#[trigger] self.logs@[j].logs_id@) != logs_id@,
            decreases self.logs@.len() - k,
        {
            if str_eq(self.logs[k].logs_id.as_str(), logs_id) {
                return Some(k);
            }
            k = k + 1;
        }
        None
    }

    /// Read-only access to a log registry entry.
    pub fn logs_at(&self, k: usize) -> (r: &Logs)
        requires
            k < self.spec_logs().len(),
        ensures
            *r == self.spec_logs()[k as int],
    {
        &self.logs[k]
    }

    /// How many registry entries exist.
    pub fn logs_len(&self) -> (r: usize)
        ensures
            r as nat == self.spec_logs().len(),
    {
        self.logs.len()
    }

    /// A point-in-time, internally consistent copy of the live table.
    pub fn get_state_snapshot(&self) -> (r: Vec<ServerState>)
        ensures
            r@ == self.spec_table(),
    {
        self.states.snapshot()
    }

    /// The current snapshot plus the version to poll with: the version
    /// moves after every table mutation, and readers may coalesce bursts.
    pub fn subscribe_state_changes(&self) -> (r: (Vec<ServerState>, u64))
        ensures
            r.0@ == self.spec_table(),
            r.1 == self.spec_version(),
    {
        (self.states.snapshot(), self.states.version())
    }

    /// Whether the table has changed since a reader last saw `since`.
    pub fn state_changed(&self, since: u64) -> (r: bool)
        ensures
            r == (self.spec_version() != since),
    {
        self.states.changed(since)
    }

    /// Accepts a persisted spec: registers a fresh log sink, pushes a
    /// `Starting` row, allocates a free local port and tells the caller
    /// whether to spawn the child process. A port-allocation failure moves
    /// the row straight to `Error` — retained and visible — with an event
    /// line giving the cause, and no handle is held for it.
    pub fn start_instance(&mut self, spec: ServerSpec) -> (r: (String, StartAction))
        requires
            old(self).inv(),
            !has_row(old(self).spec_table(), spec.id@),
        ensures
            final(self).inv(),
            started_post(*old(self), *final(self), spec, r.0@, r.1),
    {
        let ghost t0 = self.spec_table();
        let ghost logs0 = self.logs@;
        let ghost handles0 = self.stop_handles@;

        let logs_id = {
            let mut s = "logs_".to_owned();
            let short = spec.id.short();
            s.append(short.as_str());
            s.append("_");
            let sfx = fresh_suffix();
            s.append(sfx.as_str());
            s
        };

        let mut sink = IncrementalVec::new(crate::LOG_CAPACITY);
        push_event_line(&mut sink, "Starting server...");
        let ghost started_all = sink.spec_all();
        proof {
            assert(started_all.len() == 1 && is_event(started_all[0], "Starting server..."@));
        }

        let entry = Logs {
            logs_id: logs_id.clone(),
            server_spec: spec.duplicate(),
            sink,
        };
        self.logs.push(entry);

        let row = ServerState {
            spec: spec.duplicate(),
            logs_id: logs_id.clone(),
            status: ServerStatus::Starting,
        };
        self.states.push_row(row);

        proof {
            let t1 = self.spec_table();
            assert(t1 == t0.push(row));
            assert forall|i: int, j: int|
                0 <= i < t1.len() && 0 <= j < t1.len() && i != j implies t1[i].spec.id@
                != t1[j].spec.id@ by {
                if i < t0.len() && j < t0.len() {
                    assert(t0[i].spec.id@ != t0[j].spec.id@);
                } else if i < t0.len() {
                    assert(t1[j] == row);
                    assert(t0[i].spec.id@ != spec.id@);
                } else {
                    assert(t1[i] == row);
                    assert(t0[j].spec.id@ != spec.id@);
                }
            }
            assert forall|i: int| 0 <= i < self.stop_handles@.len() implies handle_is_backed(
                self.spec_table(),
                (#[trigger] self.stop_handles@[i])@,
            ) by {
                let j = choose|j: int|
                    is_row_at(t0, self.stop_handles@[i]@, j) && (#[trigger] t0[j]).status
                        is Running;
                assert(is_row_at(self.spec_table(), self.stop_handles@[i]@, j));
                assert(self.spec_table()[j].status is Running);
            }
            assert forall|i: int| 0 <= i < t1.len() implies has_log(
                self.logs@,
                (#[trigger] t1[i]).logs_id@,
            ) by {
                if i < t0.len() {
                    let k = choose|k: int|
                        0 <= k < logs0.len() && #[trigger] logs0[k].logs_id@ == t0[i].logs_id@;
                    assert(self.logs@[k].logs_id@ == t1[i].logs_id@);
                } else {
                    assert(self.logs@[logs0.len() as int].logs_id@ == t1[i].logs_id@);
                }
            }
            assert(self.inv());
        }

        match allocate_port() {
            Some(port) => (logs_id, StartAction::Spawn { port }),
            None => {
                let ghost t1 = self.spec_table();
                let last = self.states.latest().len() - 1;
                self.states.set_status(last, ServerStatus::Error);

                let k = self.logs.len() - 1;
                let ghost logs1 = self.logs@;
                let mut entry = self.logs.remove(k);
                push_event_line(&mut entry.sink, "Failed to find free local port");
                self.logs.insert(k, entry);

                proof {
                    assert(self.logs@ =~= logs1.update(k as int, entry));
                    let t2 = self.spec_table();
                    assert(t2 == t1.update(
                        last as int,
                        ServerState { status: ServerStatus::Error, ..t1[last as int] },
                    ));
                    assert forall|i: int, j: int|
                        0 <= i < t2.len() && 0 <= j < t2.len() && i != j implies t2[i].spec.id@
                        != t2[j].spec.id@ by {
                        assert(t2[i].spec.id@ == t1[i].spec.id@);
                        assert(t2[j].spec.id@ == t1[j].spec.id@);
                    }
                    assert forall|i: int| 0 <= i < self.stop_handles@.len() implies
                        handle_is_backed(
                        self.spec_table(),
                        (#[trigger] self.stop_handles@[i])@,
                    ) by {
                        let j = choose|j: int|
                            is_row_at(t1, self.stop_handles@[i]@, j) && (#[trigger] t1[j]).status
                                is Running;
                        assert(j < t0.len() && t1[j] == t0[j]);
                        assert(is_row_at(self.spec_table(), self.stop_handles@[i]@, j));
                        assert(self.spec_table()[j].status is Running);
                    }
                    assert forall|i: int| 0 <= i < t2.len() implies has_log(
                        self.logs@,
                        (#[trigger] t2[i]).logs_id@,
                    ) by {
                        let k0 = choose|k0: int|
                            0 <= k0 < logs1.len() && #[trigger] logs1[k0].logs_id@
                                == t1[i].logs_id@;
                        assert(self.logs@[k0].logs_id@ == t2[i].logs_id@);
                    }
                    assert(self.inv());
                    assert(self.spec_logs().last().sink.spec_all().len() == 2);
                    assert(is_event(
                        self.spec_logs().last().sink.spec_all()[0],
                        "Starting server..."@,
                    ));
                }
                (logs_id, StartAction::Failed)
            },
        }
    }

    /// The caller confirmed the child process spawned on `port`: the
    /// `Starting` row moves to `Running`, a stop handle is registered for
    /// its supervisor and an event line records the start. A missing row or
    /// one no longer `Starting` makes this a benign no-op.
    pub fn confirm_running(&mut self, id: &ServerId, port: u16)
        requires
            old(self).inv(),
        ensures
            final(self).inv(),
            !has_row(old(self).spec_table(), id@) ==> unchanged(*old(self), *final(self)),
            forall|i: int|
                is_row_at(old(self).spec_table(), id@, i) && !((#[trigger] old(
                    self,
                ).spec_table()[i]).status is Starting) ==> unchanged(*old(self), *final(self)),
            forall|i: int|
                is_row_at(old(self).spec_table(), id@, i) && (#[trigger] old(
                    self,
                ).spec_table()[i]).status is Starting ==> {
                    &&& final(self).spec_table() == old(self).spec_table().update(
                        i,
                        ServerState {
                            status: ServerStatus::Running { port },
                            ..old(self).spec_table()[i]
                        },
                    )
                    &&& final(self).spec_handles().len() == old(self).spec_handles().len() + 1
                    &&& final(self).spec_handles()[old(self).spec_handles().len() as int]@ == id@
                    &&& forall|h: int|
                        0 <= h < old(self).spec_handles().len() ==> final(self).spec_handles()[h]
                            == old(self).spec_handles()[h]
                    &&& final(self).spec_version() == next_version(old(self).spec_version())
                    &&& logs_event_appended(
                        old(self).spec_logs(),
                        final(self).spec_logs(),
                        old(self).spec_table()[i].logs_id@,
                        "Server started successfully."@,
                    )
                },
    {
        let ghost t0 = self.spec_table();
        let ghost handles0 = self.stop_handles@;
        let ghost logs0 = self.logs@;
        match self.find_row(id) {
            None => {},
            Some(i) => {
                let (is_starting, logs_id) = {
                    let table = self.states.latest();
                    let st = &table[i];
                    let is_starting = match st.status {
                        ServerStatus::Starting => true,
                        _ => false,
                    };
                    (is_starting, st.logs_id.clone())
                };
                if is_starting {
                    proof {
                        assert forall|h: int| 0 <= h < handles0.len() implies (#[trigger]
                        handles0[h])@ != id@ by {
                            if handles0[h]@ == id@ {
                                assert(handle_is_backed(t0, handles0[h]@));
                                let j = choose|j: int|
                                    is_row_at(t0, id@, j) && (#[trigger] t0[j]).status is Running;
                                assert(t0[j].spec.id@ == t0[i as int].spec.id@);
                                assert(j == i as int);
                                assert(false);
                            }
                        }
                    }
                    self.states.set_status(i, ServerStatus::Running { port });
                    self.stop_handles.push(id.duplicate());
                    append_event_to_logs(
                        &mut self.logs,
                        logs_id.as_str(),
                        "Server started successfully.",
                    );
                    proof {
                        let t2 = self.spec_table();
                        let row = ServerState {
                            status: ServerStatus::Running { port },
                            ..t0[i as int]
                        };
                        assert(t2 == t0.update(i as int, row));
                        assert forall|a: int, b: int|
                            0 <= a < t2.len() && 0 <= b < t2.len() && a != b implies t2[a].spec.id@
                            != t2[b].spec.id@ by {
                            assert(t2[a].spec.id@ == t0[a].spec.id@);
                            assert(t2[b].spec.id@ == t0[b].spec.id@);
                        }
                        assert forall|a: int, b: int|
                            0 <= a < self.stop_handles@.len() && 0 <= b
                                < self.stop_handles@.len() && a != b implies (#[trigger]
                        self.stop_handles@[a])@ != (#[trigger] self.stop_handles@[b])@ by {
                            if a < handles0.len() && b < handles0.len() {
                                assert(handles0[a]@ != handles0[b]@);
                            }
                        }
                        assert forall|h: int|
                            0 <= h < self.stop_handles@.len() implies handle_is_backed(
                            self.spec_table(),
                            (#[trigger] self.stop_handles@[h])@,
                        ) by {
                            if h < handles0.len() {
                                assert(handle_is_backed(t0, handles0[h]@));
                                let j = choose|j: int|
                                    is_row_at(t0, handles0[h]@, j) && (#[trigger] t0[j]).status
                                        is Running;
                                assert(j != i as int);
                                assert(is_row_at(t2, self.stop_handles@[h]@, j));
                                assert(t2[j].status is Running);
                            } else {
                                assert(self.stop_handles@[h]@ == id@);
                                assert(is_row_at(t2, id@, i as int));
                                assert(t2[i as int].status is Running);
                            }
                        }
                        assert forall|a: int| 0 <= a < t2.len() implies has_log(
                            self.logs@,
                            (#[trigger] t2[a]).logs_id@,
                        ) by {
                            assert(t2[a].logs_id@ == t0[a].logs_id@);
                            assert(has_log(logs0, t0[a].logs_id@));
                            let k = choose|k: int|
                                0 <= k < logs0.len() && #[trigger] logs0[k].logs_id@
                                    == t0[a].logs_id@;
                            assert(self.logs@[k].logs_id@ == t2[a].logs_id@);
                        }
                        assert(self.inv());
                        assert forall|i2: int|
                            is_row_at(t0, id@, i2) && (#[trigger] t0[i2]).status
                                is Starting implies i2 == i as int by {
                            assert(t0[i2].spec.id@ == t0[i as int].spec.id@);
                        }
                    }
                }
            },
        }
    }

    /// The caller could not bring the instance up (authentication, spawn or
    /// any other pre-run failure): its `Starting` row moves to `Error` with
    /// an event line giving the cause, and the row is retained so the
    /// failure stays visible. No stop handle is held before or after. A
    /// missing row or one no longer `Starting` makes this a benign no-op.
    pub fn fail_instance(&mut self, id: &ServerId, message: &str)
        requires
            old(self).inv(),
        ensures
            final(self).inv(),
            final(self).spec_handles() == old(self).spec_handles(),
            !has_row(old(self).spec_table(), id@) ==> unchanged(*old(self), *final(self)),
            forall|i: int|
                is_row_at(old(self).spec_table(), id@, i) && !((#[trigger] old(
                    self,
                ).spec_table()[i]).status is Starting) ==> unchanged(*old(self), *final(self)),
            forall|i: int|
                is_row_at(old(self).spec_table(), id@, i) && (#[trigger] old(
                    self,
                ).spec_table()[i]).status is Starting ==> {
                    &&& final(self).spec_table() == old(self).spec_table().update(
                        i,
                        ServerState {
                            status: ServerStatus::Error,
                            ..old(self).spec_table()[i]
                        },
                    )
                    &&& final(self).spec_version() == next_version(old(self).spec_version())
                    &&& logs_event_appended(
                        old(self).spec_logs(),
                        final(self).spec_logs(),
                        old(self).spec_table()[i].logs_id@,
                        message@,
                    )
                },
    {
        let ghost t0 = self.spec_table();
        let ghost handles0 = self.stop_handles@;
        let ghost logs0 = self.logs@;
        match self.find_row(id) {
            None => {},
            Some(i) => {
                let (is_starting, logs_id) = {
                    let table = self.states.latest();
                    let st = &table[i];
                    let is_starting = match st.status {
                        ServerStatus::Starting => true,
                        _ => false,
                    };
                    (is_starting, st.logs_id.clone())
                };
                if is_starting {
                    self.states.set_status(i, ServerStatus::Error);
                    append_event_to_logs(&mut self.logs, logs_id.as_str(), message);
                    proof {
                        let t2 = self.spec_table();
                        assert(t2 == t0.update(
                            i as int,
                            ServerState { status: ServerStatus::Error, ..t0[i as int] },
                        ));
                        assert forall|a: int, b: int|
                            0 <= a < t2.len() && 0 <= b < t2.len() && a != b implies t2[a].spec.id@
                            != t2[b].spec.id@ by {
                            assert(t2[a].spec.id@ == t0[a].spec.id@);
                            assert(t2[b].spec.id@ == t0[b].spec.id@);
                        }
                        assert forall|h: int|
                            0 <= h < self.stop_handles@.len() implies handle_is_backed(
                            self.spec_table(),
                            (#[trigger] self.stop_handles@[h])@,
                        ) by {
                            assert(handle_is_backed(t0, handles0[h]@));
                            let j = choose|j: int|
                                is_row_at(t0, handles0[h]@, j) && (#[trigger] t0[j]).status
                                    is Running;
                            assert(j != i as int);
                            assert(is_row_at(t2, self.stop_handles@[h]@, j));
                            assert(t2[j].status is Running);
                        }
                        assert forall|a: int| 0 <= a < t2.len() implies has_log(
                            self.logs@,
                            (#[trigger] t2[a]).logs_id@,
                        ) by {
                            assert(t2[a].logs_id@ == t0[a].logs_id@);
                            assert(has_log(logs0, t0[a].logs_id@));
                            let k = choose|k: int|
                                0 <= k < logs0.len() && #[trigger] logs0[k].logs_id@
                                    == t0[a].logs_id@;
                            assert(self.logs@[k].logs_id@ == t2[a].logs_id@);
                        }
                        assert(self.inv());
                        assert forall|i2: int|
                            is_row_at(t0, id@, i2) && (#[trigger] t0[i2]).status
                                is Starting implies i2 == i as int by {
                            assert(t0[i2].spec.id@ == t0[i as int].spec.id@);
                        }
                    }
                }
            },
        }
    }

    /// Consumes the one-shot stop handle for `id`, telling the caller to
    /// send the stop signal; `false` when no unconsumed handle exists —
    /// sending stop to an instance that already finished is a no-op, not an
    /// error. Nothing else changes.
    pub fn signal_stop(&mut self, id: &ServerId) -> (r: bool)
        requires
            old(self).inv(),
        ensures
            final(self).inv(),
            signal_stop_rel(*old(self), *final(self), id@, r),
    {
        let ghost handles0 = self.stop_handles@;
        match self.find_handle(id) {
            None => false,
            Some(h) => {
                self.stop_handles.remove(h);
                proof {
                    assert forall|a: int, b: int|
                        0 <= a < self.stop_handles@.len() && 0 <= b < self.stop_handles@.len()
                            && a != b implies (#[trigger] self.stop_handles@[a])@ != (#[trigger]
                    self.stop_handles@[b])@ by {
                        let a0: int = if a < h { a } else { a + 1 };
                        let b0: int = if b < h { b } else { b + 1 };
                        assert(self.stop_handles@[a] == handles0[a0]);
                        assert(self.stop_handles@[b] == handles0[b0]);
                    }
                    assert forall|a: int|
                        0 <= a < self.stop_handles@.len() implies handle_is_backed(
                        self.spec_table(),
                        (#[trigger] self.stop_handles@[a])@,
                    ) by {
                        let a0: int = if a < h { a } else { a + 1 };
                        assert(self.stop_handles@[a] == handles0[a0]);
                        assert(handle_is_backed(self.spec_table(), handles0[a0]@));
                    }
                    assert forall|a: int|
                        0 <= a < self.stop_handles@.len() implies (#[trigger]
                    self.stop_handles@[a])@ != id@ by {
                        let a0: int = if a < h { a } else { a + 1 };
                        assert(self.stop_handles@[a] == handles0[a0]);
                        assert(handles0[a0]@ != handles0[h as int]@);
                    }
                    assert(!has_handle(self.stop_handles@, id@));
                    assert forall|h2: int| is_handle_at(handles0, id@, h2) implies h2
                        == h as int by {
                        assert(handles0[h2]@ == handles0[h as int]@);
                    }
                }
                true
            },
        }
    }

    /// The child process of `id` ended on its own, or waiting on it failed
    /// (`success` is `false` then too). An event line carrying `detail`
    /// records it; the stale stop handle is forgotten. A clean exit removes
    /// the row — no explicit remove is needed; any other ending moves the
    /// row to `Error` and retains it until an explicit remove. A missing
    /// row makes this a benign no-op.
    pub fn process_exited(&mut self, id: &ServerId, success: bool, detail: &str)
        requires
            old(self).inv(),
        ensures
            final(self).inv(),
            !has_row(old(self).spec_table(), id@) ==> unchanged(*old(self), *final(self)),
            forall|i: int|
                #![trigger old(self).spec_table()[i]]
                is_row_at(old(self).spec_table(), id@, i) ==> {
                    &&& logs_event_appended(
                        old(self).spec_logs(),
                        final(self).spec_logs(),
                        old(self).spec_table()[i].logs_id@,
                        detail@,
                    )
                    &&& (!has_handle(old(self).spec_handles(), id@) ==> final(self).spec_handles()
                        == old(self).spec_handles())
                    &&& (forall|h: int|
                        is_handle_at(old(self).spec_handles(), id@, h)
                            ==> final(self).spec_handles() == old(self).spec_handles().remove(h))
                    &&& !has_handle(final(self).spec_handles(), id@)
                    &&& (success ==> final(self).spec_table() == old(self).spec_table().remove(i))
                    &&& (!success ==> final(self).spec_table() == old(self).spec_table().update(
                        i,
                        ServerState {
                            status: ServerStatus::Error,
                            ..old(self).spec_table()[i]
                        },
                    ))
                    &&& final(self).spec_version() == next_version(old(self).spec_version())
                },
    {
        let ghost t0 = self.spec_table();
        let ghost handles0 = self.stop_handles@;
        let ghost logs0 = self.logs@;
        match self.find_row(id) {
            None => {},
            Some(i) => {
                let logs_id = {
                    let table = self.states.latest();
                    table[i].logs_id.clone()
                };
                append_event_to_logs(&mut self.logs, logs_id.as_str(), detail);
                match self.find_handle(id) {
                    None => {},
                    Some(h) => {
                        self.stop_handles.remove(h);
                        proof {
                            assert forall|h2: int| is_handle_at(handles0, id@, h2) implies h2
                                == h as int by {
                                assert(handles0[h2]@ == handles0[h as int]@);
                            }
                        }
                    },
                }
                let ghost handles1 = self.stop_handles@;
                proof {
                    assert forall|a: int, b: int|
                        0 <= a < handles1.len() && 0 <= b < handles1.len() && a != b implies (
                    #[trigger] handles1[a])@ != (#[trigger] handles1[b])@ by {
                        if handles1.len() == handles0.len() {
                            assert(handles1[a] == handles0[a] && handles1[b] == handles0[b]);
                        } else {
                            let h = choose|h: int| is_handle_at(handles0, id@, h) && handles1
                                == handles0.remove(h);
                            let a0: int = if a < h { a } else { a + 1 };
                            let b0: int = if b < h { b } else { b + 1 };
                            assert(handles1[a] == handles0[a0]);
                            assert(handles1[b] == handles0[b0]);
                        }
                    }
                    assert forall|a: int| 0 <= a < handles1.len() implies (#[trigger]
                    handles1[a])@ != id@ && handle_is_backed(t0, handles1[a]@) by {
                        if handles1.len() == handles0.len() {
                            assert(handles1[a] == handles0[a]);
                            assert(!has_handle(handles0, id@));
                        } else {
                            let h = choose|h: int| is_handle_at(handles0, id@, h) && handles1
                                == handles0.remove(h);
                            let a0: int = if a < h { a } else { a + 1 };
                            assert(handles1[a] == handles0[a0]);
                            assert(handles0[a0]@ != handles0[h]@);
                        }
                    }
                }
                if success {
                    self.states.remove_row(i);
                    proof {
                        let t2 = self.spec_table();
                        assert(t2 == t0.remove(i as int));
                        assert forall|a: int, b: int|
                            0 <= a < t2.len() && 0 <= b < t2.len() && a != b implies t2[a].spec.id@
                            != t2[b].spec.id@ by {
                            let a0: int = if a < i as int { a } else { a + 1 };
                            let b0: int = if b < i as int { b } else { b + 1 };
                            assert(t2[a] == t0[a0] && t2[b] == t0[b0]);
                        }
                        assert forall|a: int|
                            0 <= a < self.stop_handles@.len() implies handle_is_backed(
                            self.spec_table(),
                            (#[trigger] self.stop_handles@[a])@,
                        ) by {
                            let j = choose|j: int|
                                is_row_at(t0, handles1[a]@, j) && (#[trigger] t0[j]).status
                                    is Running;
                            assert(t0[j].spec.id@ != id@);
                            assert(j != i as int);
                            let j2: int = if j < i as int { j } else { j - 1 };
                            assert(t2[j2] == t0[j]);
                            assert(is_row_at(t2, self.stop_handles@[a]@, j2));
                            assert(t2[j2].status is Running);
                        }
                        assert forall|a: int| 0 <= a < t2.len() implies has_log(
                            self.logs@,
                            (#[trigger] t2[a]).logs_id@,
                        ) by {
                            let a0: int = if a < i as int { a } else { a + 1 };
                            assert(t2[a] == t0[a0]);
                            assert(has_log(logs0, t0[a0].logs_id@));
                            let k = choose|k: int|
                                0 <= k < logs0.len() && #[trigger] logs0[k].logs_id@
                                    == t0[a0].logs_id@;
                            assert(self.logs@[k].logs_id@ == t2[a].logs_id@);
                        }
                        assert(self.inv());
                        assert forall|i2: int| is_row_at(t0, id@, i2) implies i2 == i as int by {
                            assert(t0[i2].spec.id@ == t0[i as int].spec.id@);
                        }
                    }
                } else {
                    self.states.set_status(i, ServerStatus::Error);
                    proof {
                        let t2 = self.spec_table();
                        assert(t2 == t0.update(
                            i as int,
                            ServerState { status: ServerStatus::Error, ..t0[i as int] },
                        ));
                        assert forall|a: int, b: int|
                            0 <= a < t2.len() && 0 <= b < t2.len() && a != b implies t2[a].spec.id@
                            != t2[b].spec.id@ by {
                            assert(t2[a].spec.id@ == t0[a].spec.id@);
                            assert(t2[b].spec.id@ == t0[b].spec.id@);
                        }
                        assert forall|a: int|
                            0 <= a < self.stop_handles@.len() implies handle_is_backed(
                            self.spec_table(),
                            (#[trigger] self.stop_handles@[a])@,
                        ) by {
                            let j = choose|j: int|
                                is_row_at(t0, handles1[a]@, j) && (#[trigger] t0[j]).status
                                    is Running;
                            assert(t0[j].spec.id@ != id@);
                            assert(j != i as int);
                            assert(is_row_at(t2, self.stop_handles@[a]@, j));
                            assert(t2[j].status is Running);
                        }
                        assert forall|a: int| 0 <= a < t2.len() implies has_log(
                            self.logs@,
                            (#[trigger] t2[a]).logs_id@,
                        ) by {
                            assert(t2[a].logs_id@ == t0[a].logs_id@);
                            assert(has_log(logs0, t0[a].logs_id@));
                            let k = choose|k: int|
                                0 <= k < logs0.len() && #[trigger] logs0[k].logs_id@
                                    == t0[a].logs_id@;
                            assert(self.logs@[k].logs_id@ == t2[a].logs_id@);
                        }
                        assert(self.inv());
                        assert forall|i2: int| is_row_at(t0, id@, i2) implies i2 == i as int by {
                            assert(t0[i2].spec.id@ == t0[i as int].spec.id@);
                        }
                    }
                }
            },
        }
    }
}

impl ServerManager {
    /// The supervisor acknowledged a stop: the kill was attempted
    /// (`kill_ok` says whether it succeeded), an event line records it, and
    /// the row is removed either way — there is no way to recover ownership
    /// of a process that could not be killed, so the instance is forgotten
    /// best-effort. A missing row makes this a benign no-op.
    pub fn finish_stop(&mut self, id: &ServerId, kill_ok: bool)
        requires
            old(self).inv(),
        ensures
            final(self).inv(),
            !has_row(old(self).spec_table(), id@) ==> unchanged(*old(self), *final(self)),
            forall|i: int|
                #![trigger old(self).spec_table()[i]]
                is_row_at(old(self).spec_table(), id@, i) ==> {
                    &&& logs_event_appended(
                        old(self).spec_logs(),
                        final(self).spec_logs(),
                        old(self).spec_table()[i].logs_id@,
                        if kill_ok {
                            "Server stopped."@
                        } else {
                            "Failed to stop server"@
                        },
                    )
                    &&& (!has_handle(old(self).spec_handles(), id@) ==> final(self).spec_handles()
                        == old(self).spec_handles())
                    &&& (forall|h: int|
                        is_handle_at(old(self).spec_handles(), id@, h)
                            ==> final(self).spec_handles() == old(self).spec_handles().remove(h))
                    &&& !has_handle(final(self).spec_handles(), id@)
                    &&& final(self).spec_table() == old(self).spec_table().remove(i)
                    &&& final(self).spec_version() == next_version(old(self).spec_version())
                },
    {
        let ghost t0 = self.spec_table();
        let ghost handles0 = self.stop_handles@;
        let ghost logs0 = self.logs@;
        match self.find_row(id) {
            None => {},
            Some(i) => {
                let logs_id = {
                    let table = self.states.latest();
                    table[i].logs_id.clone()
                };
                if kill_ok {
                    append_event_to_logs(&mut self.logs, logs_id.as_str(), "Server stopped.");
                } else {
                    append_event_to_logs(
                        &mut self.logs,
                        logs_id.as_str(),
                        "Failed to stop server",
                    );
                }
                match self.find_handle(id) {
                    None => {},
                    Some(h) => {
                        self.stop_handles.remove(h);
                        proof {
                            assert forall|h2: int| is_handle_at(handles0, id@, h2) implies h2
                                == h as int by {
                                assert(handles0[h2]@ == handles0[h as int]@);
                            }
                        }
                    },
                }
                let ghost handles1 = self.stop_handles@;
                proof {
                    assert forall|a: int, b: int|
                        0 <= a < handles1.len() && 0 <= b < handles1.len() && a != b implies (
                    #[trigger] handles1[a])@ != (#[trigger] handles1[b])@ by {
                        if handles1.len() == handles0.len() {
                            assert(handles1[a] == handles0[a] && handles1[b] == handles0[b]);
                        } else {
                            let h = choose|h: int| is_handle_at(handles0, id@, h) && handles1
                                == handles0.remove(h);
                            let a0: int = if a < h { a } else { a + 1 };
                            let b0: int = if b < h { b } else { b + 1 };
                            assert(handles1[a] == handles0[a0]);
                            assert(handles1[b] == handles0[b0]);
                        }
                    }
                    assert forall|a: int| 0 <= a < handles1.len() implies (#[trigger]
                    handles1[a])@ != id@ && handle_is_backed(t0, handles1[a]@) by {
                        if handles1.len() == handles0.len() {
                            assert(handles1[a] == handles0[a]);
                            assert(!has_handle(handles0, id@));
                        } else {
                            let h = choose|h: int| is_handle_at(handles0, id@, h) && handles1
                                == handles0.remove(h);
                            let a0: int = if a < h { a } else { a + 1 };
                            assert(handles1[a] == handles0[a0]);
                            assert(handles0[a0]@ != handles0[h]@);
                        }
                    }
                }
                self.states.remove_row(i);
                proof {
                    let t2 = self.spec_table();
                    assert(t2 == t0.remove(i as int));
                    assert forall|a: int, b: int|
                        0 <= a < t2.len() && 0 <= b < t2.len() && a != b implies t2[a].spec.id@
                        != t2[b].spec.id@ by {
                        let a0: int = if a < i as int { a } else { a + 1 };
                        let b0: int = if b < i as int { b } else { b + 1 };
                        assert(t2[a] == t0[a0] && t2[b] == t0[b0]);
                    }
                    assert forall|a: int|
                        0 <= a < self.stop_handles@.len() implies handle_is_backed(
                        self.spec_table(),
                        (#[trigger] self.stop_handles@[a])@,
                    ) by {
                        let j = choose|j: int|
                            is_row_at(t0, handles1[a]@, j) && (#[trigger] t0[j]).status
                                is Running;
                        assert(t0[j].spec.id@ != id@);
                        assert(j != i as int);
                        let j2: int = if j < i as int { j } else { j - 1 };
                        assert(t2[j2] == t0[j]);
                        assert(is_row_at(t2, self.stop_handles@[a]@, j2));
                        assert(t2[j2].status is Running);
                    }
                    assert forall|a: int| 0 <= a < t2.len() implies has_log(
                        self.logs@,
                        (#[trigger] t2[a]).logs_id@,
                    ) by {
                        let a0: int = if a < i as int { a } else { a + 1 };
                        assert(t2[a] == t0[a0]);
                        assert(has_log(logs0, t0[a0].logs_id@));
                        let k = choose|k: int|
                            0 <= k < logs0.len() && #[trigger] logs0[k].logs_id@
                                == t0[a0].logs_id@;
                        assert(self.logs@[k].logs_id@ == t2[a].logs_id@);
                    }
                    assert(self.inv());
                    assert forall|i2: int| is_row_at(t0, id@, i2) implies i2 == i as int by {
                        assert(t0[i2].spec.id@ == t0[i as int].spec.id@);
                    }
                }
            },
        }
    }

    /// One remove request, processed serially by the control loop. A
    /// missing id is logged and dropped — it never crashes or blocks the
    /// loop, since a remove can race with self-termination of the same
    /// instance — and the manager is left exactly as it was, so later
    /// requests are handled as usual. Otherwise the caller is told to
    /// delete the spec from the store and, if a supervisor still holds the
    /// instance, to send the stop signal; a row without a live supervisor
    /// (`Error`, or one that never spawned) is removed directly.
    pub fn handle_remove(&mut self, id: &ServerId) -> (r: RemoveAction)
        requires
            old(self).inv(),
        ensures
            final(self).inv(),
            r == RemoveAction::NotFound <==> !has_row(old(self).spec_table(), id@),
            r == RemoveAction::NotFound ==> unchanged(*old(self), *final(self)),
            r == RemoveAction::SignalStop ==> {
                &&& has_handle(old(self).spec_handles(), id@)
                &&& final(self).spec_table() == old(self).spec_table()
                &&& final(self).spec_logs() == old(self).spec_logs()
                &&& final(self).spec_version() == old(self).spec_version()
                &&& !has_handle(final(self).spec_handles(), id@)
                &&& (forall|h: int|
                    is_handle_at(old(self).spec_handles(), id@, h)
                        ==> final(self).spec_handles() == old(self).spec_handles().remove(h))
            },
            r == RemoveAction::Dropped ==> {
                &&& !has_handle(old(self).spec_handles(), id@)
                &&& final(self).spec_handles() == old(self).spec_handles()
                &&& final(self).spec_logs() == old(self).spec_logs()
                &&& (forall|i: int|
                    is_row_at(old(self).spec_table(), id@, i) ==> final(self).spec_table() == old(
                        self,
                    ).spec_table().remove(i))
                &&& final(self).spec_version() == next_version(old(self).spec_version())
            },
    {
        let ghost t0 = self.spec_table();
        let ghost handles0 = self.stop_handles@;
        let ghost logs0 = self.logs@;
        match self.find_row(id) {
            None => RemoveAction::NotFound,
            Some(i) => {
                if self.signal_stop(id) {
                    RemoveAction::SignalStop
                } else {
                    self.states.remove_row(i);
                    proof {
                        let t2 = self.spec_table();
                        assert(t2 == t0.remove(i as int));
                        assert forall|a: int, b: int|
                            0 <= a < t2.len() && 0 <= b < t2.len() && a != b implies t2[a].spec.id@
                            != t2[b].spec.id@ by {
                            let a0: int = if a < i as int { a } else { a + 1 };
                            let b0: int = if b < i as int { b } else { b + 1 };
                            assert(t2[a] == t0[a0] && t2[b] == t0[b0]);
                        }
                        assert forall|a: int|
                            0 <= a < self.stop_handles@.len() implies handle_is_backed(
                            self.spec_table(),
                            (#[trigger] self.stop_handles@[a])@,
                        ) by {
                            assert(self.stop_handles@[a] == handles0[a]);
                            assert(handle_is_backed(t0, handles0[a]@));
                            let j = choose|j: int|
                                is_row_at(t0, handles0[a]@, j) && (#[trigger] t0[j]).status
                                    is Running;
                            assert(handles0[a]@ != id@);
                            assert(t0[j].spec.id@ != id@);
                            assert(j != i as int);
                            let j2: int = if j < i as int { j } else { j - 1 };
                            assert(t2[j2] == t0[j]);
                            assert(is_row_at(t2, self.stop_handles@[a]@, j2));
                            assert(t2[j2].status is Running);
                        }
                        assert forall|a: int| 0 <= a < t2.len() implies has_log(
                            self.logs@,
                            (#[trigger] t2[a]).logs_id@,
                        ) by {
                            let a0: int = if a < i as int { a } else { a + 1 };
                            assert(t2[a] == t0[a0]);
                            assert(has_log(logs0, t0[a0].logs_id@));
                            let k = choose|k: int|
                                0 <= k < logs0.len() && #[trigger] logs0[k].logs_id@
                                    == t0[a0].logs_id@;
                            assert(self.logs@[k].logs_id@ == t2[a].logs_id@);
                        }
                        assert(self.inv());
                        assert forall|i2: int| is_row_at(t0, id@, i2) implies i2 == i as int by {
                            assert(t0[i2].spec.id@ == t0[i as int].spec.id@);
                        }
                    }
                    RemoveAction::Dropped
                }
            },
        }
    }

    /// One add request, processed serially by the control loop. The spec
    /// must have been persisted to the store first — `persist_ok` reports
    /// that outcome — and is never started unpersisted. A duplicate id is
    /// dropped so the table never holds two rows with one id. Otherwise the
    /// instance is accepted as in `start_instance`.
    pub fn handle_add(&mut self, spec: ServerSpec, persist_ok: bool) -> (r: AddOutcome)
        requires
            old(self).inv(),
        ensures
            final(self).inv(),
            r is Rejected <==> !persist_ok,
            r is Duplicate <==> (persist_ok && has_row(old(self).spec_table(), spec.id@)),
            (r is Rejected || r is Duplicate) ==> unchanged(*old(self), *final(self)),
            (r matches AddOutcome::Started { logs_id, action } ==> started_post(
                *old(self),
                *final(self),
                spec,
                logs_id@,
                action,
            )),
    {
        if !persist_ok {
            return AddOutcome::Rejected;
        }
        match self.find_row(&spec.id) {
            Some(_) => AddOutcome::Duplicate,
            None => {
                let (logs_id, action) = self.start_instance(spec);
                AddOutcome::Started { logs_id, action }
            },
        }
    }
}

/// Holds when the registries agree everywhere but entry `k`, whose name
/// and spec are kept and only its sink replaced.
pub open spec fn logs_sink_swapped(pre: Seq<Logs>, post: Seq<Logs>, k: int) -> bool {
    &&& post.len() == pre.len()
    &&& (forall|j: int| 0 <= j < pre.len() && j != k ==> post[j] == pre[j])
    &&& 0 <= k < pre.len()
    &&& post[k].logs_id == pre[k].logs_id
    &&& post[k].server_spec == pre[k].server_spec
}

impl ServerManager {
    /// Subscribes to the sink of registry entry `k`: atomically returns the
    /// history snapshot and the subscriber handle, exactly as
    /// [`IncrementalVec::subscribe`] promises of the sink.
    pub fn subscribe_logs(&mut self, k: usize) -> (r: (Vec<LogLine>, usize))
        requires
            old(self).inv(),
            k < old(self).spec_logs().len(),
        ensures
            final(self).inv(),
            final(self).spec_table() == old(self).spec_table(),
            final(self).spec_handles() == old(self).spec_handles(),
            final(self).spec_version() == old(self).spec_version(),
            logs_sink_swapped(old(self).spec_logs(), final(self).spec_logs(), k as int),
            r.0@ == old(self).spec_logs()[k as int].sink.spec_history(),
            r.1 as int == old(self).spec_logs()[k as int].sink.sub_count(),
            final(self).spec_logs()[k as int].sink.spec_all() == old(
                self,
            ).spec_logs()[k as int].sink.spec_all(),
            final(self).spec_logs()[k as int].sink.spec_history() == old(
                self,
            ).spec_logs()[k as int].sink.spec_history(),
            final(self).spec_logs()[k as int].sink.spec_capacity() == old(
                self,
            ).spec_logs()[k as int].sink.spec_capacity(),
            final(self).spec_logs()[k as int].sink.sub_count() == old(
                self,
            ).spec_logs()[k as int].sink.sub_count() + 1,
            final(self).spec_logs()[k as int].sink.sub_live(r.1 as int),
            final(self).spec_logs()[k as int].sink.sub_seen(r.1 as int) == old(
                self,
            ).spec_logs()[k as int].sink.spec_history(),
            final(self).spec_logs()[k as int].sink.sub_joined(r.1 as int) == old(
                self,
            ).spec_logs()[k as int].sink.spec_all().len(),
            final(self).spec_logs()[k as int].sink.sub_delivered(r.1 as int) == Seq::<
                LogLine,
            >::empty(),
            final(self).spec_logs()[k as int].sink.sub_pending(r.1 as int) == Seq::<
                LogLine,
            >::empty(),
    {
        let ghost logs0 = self.logs@;
        let mut entry = self.logs.remove(k);
        let r = entry.sink.subscribe();
        self.logs.insert(k, entry);
        proof {
            assert(self.logs@ =~= logs0.update(k as int, entry));
            self.reprove_logs_inv(logs0, k as int);
        }
        r
    }

    /// Takes the oldest line queued for subscriber `sub` of registry entry
    /// `k`, if any, exactly as [`IncrementalVec::recv`] promises.
    pub fn recv_logs(&mut self, k: usize, sub: usize) -> (r: Option<LogLine>)
        requires
            old(self).inv(),
            k < old(self).spec_logs().len(),
            0 <= sub < old(self).spec_logs()[k as int].sink.sub_count(),
        ensures
            final(self).inv(),
            final(self).spec_table() == old(self).spec_table(),
            final(self).spec_handles() == old(self).spec_handles(),
            final(self).spec_version() == old(self).spec_version(),
            logs_sink_swapped(old(self).spec_logs(), final(self).spec_logs(), k as int),
            final(self).spec_logs()[k as int].sink.spec_all() == old(
                self,
            ).spec_logs()[k as int].sink.spec_all(),
            final(self).spec_logs()[k as int].sink.sub_count() == old(
                self,
            ).spec_logs()[k as int].sink.sub_count(),
            old(self).spec_logs()[k as int].sink.sub_pending(sub as int).len() == 0 ==> r is None
                && final(self).spec_logs()[k as int].sink.sub_pending(sub as int) == old(
                self,
            ).spec_logs()[k as int].sink.sub_pending(sub as int),
            old(self).spec_logs()[k as int].sink.sub_pending(sub as int).len() > 0 ==> {
                &&& r == Some(old(self).spec_logs()[k as int].sink.sub_pending(sub as int)[0])
                &&& final(self).spec_logs()[k as int].sink.sub_pending(sub as int) == old(
                    self,
                ).spec_logs()[k as int].sink.sub_pending(sub as int).skip(1)
                &&& final(self).spec_logs()[k as int].sink.sub_delivered(sub as int) == old(
                    self,
                ).spec_logs()[k as int].sink.sub_delivered(sub as int).push(
                    old(self).spec_logs()[k as int].sink.sub_pending(sub as int)[0],
                )
            },
    {
        let ghost logs0 = self.logs@;
        let mut entry = self.logs.remove(k);
        let r = entry.sink.recv(sub);
        self.logs.insert(k, entry);
        proof {
            assert(self.logs@ =~= logs0.update(k as int, entry));
            self.reprove_logs_inv(logs0, k as int);
        }
        r
    }

    /// Drops subscriber `sub` of registry entry `k` — a slow or
    /// disconnected consumer never blocks the rest.
    pub fn unsubscribe_logs(&mut self, k: usize, sub: usize)
        requires
            old(self).inv(),
            k < old(self).spec_logs().len(),
            0 <= sub < old(self).spec_logs()[k as int].sink.sub_count(),
        ensures
            final(self).inv(),
            final(self).spec_table() == old(self).spec_table(),
            final(self).spec_handles() == old(self).spec_handles(),
            final(self).spec_version() == old(self).spec_version(),
            logs_sink_swapped(old(self).spec_logs(), final(self).spec_logs(), k as int),
            final(self).spec_logs()[k as int].sink.spec_all() == old(
                self,
            ).spec_logs()[k as int].sink.spec_all(),
            !final(self).spec_logs()[k as int].sink.sub_live(sub as int),
    {
        let ghost logs0 = self.logs@;
        let mut entry = self.logs.remove(k);
        entry.sink.unsubscribe(sub);
        self.logs.insert(k, entry);
        proof {
            assert(self.logs@ =~= logs0.update(k as int, entry));
            self.reprove_logs_inv(logs0, k as int);
        }
    }

    /// Records one captured stdout/stderr line of the child process into
    /// the sink of registry entry `k`, stamped with the current time.
    pub fn record_output(&mut self, k: usize, message: &str)
        requires
            old(self).inv(),
            k < old(self).spec_logs().len(),
        ensures
            final(self).inv(),
            final(self).spec_table() == old(self).spec_table(),
            final(self).spec_handles() == old(self).spec_handles(),
            final(self).spec_version() == old(self).spec_version(),
            logs_sink_swapped(old(self).spec_logs(), final(self).spec_logs(), k as int),
            final(self).spec_logs()[k as int].sink.spec_capacity() == old(
                self,
            ).spec_logs()[k as int].sink.spec_capacity(),
            final(self).spec_logs()[k as int].sink.sub_count() == old(
                self,
            ).spec_logs()[k as int].sink.sub_count(),
            exists|line: LogLine|
                #[trigger] is_process_output(line, message@)
                    && final(self).spec_logs()[k as int].sink.spec_all() == old(
                    self,
                ).spec_logs()[k as int].sink.spec_all().push(line),
    {
        let ghost logs0 = self.logs@;
        let mut entry = self.logs.remove(k);
        let line = LogLine {
            timestamp_ms: now_ms(),
            content: LogLineContent::ServerProcess(message.to_owned()),
        };
        proof {
            assert(is_process_output(line, message@));
        }
        entry.sink.push(line);
        self.logs.insert(k, entry);
        proof {
            assert(self.logs@ =~= logs0.update(k as int, entry));
            self.reprove_logs_inv(logs0, k as int);
        }
    }

    /// Re-establishes the registry-related invariant conjuncts after one
    /// entry's sink was replaced by a well-formed one.
    proof fn reprove_logs_inv(&self, logs0: Seq<Logs>, k: int)
        requires
            distinct_ids(self.spec_table()),
            distinct_handles(self.spec_handles()),
            forall|i: int|
                0 <= i < self.spec_handles().len() ==> handle_is_backed(
                    self.spec_table(),
                    (#[trigger] self.spec_handles()[i])@,
                ),
            forall|j: int| 0 <= j < logs0.len() ==> (#[trigger] logs0[j]).sink.inv(),
            forall|i: int|
                0 <= i < self.spec_table().len() ==> has_log(
                    logs0,
                    (#[trigger] self.spec_table()[i]).logs_id@,
                ),
            logs_sink_swapped(logs0, self.spec_logs(), k),
            self.spec_logs()[k].sink.inv(),
        ensures
            self.inv(),
    {
        assert forall|j: int| 0 <= j < self.spec_logs().len() implies (#[trigger]
        self.spec_logs()[j]).sink.inv() by {
            if j != k {
                assert(self.spec_logs()[j] == logs0[j]);
            }
        }
        assert forall|i: int| 0 <= i < self.spec_table().len() implies has_log(
            self.spec_logs(),
            (#[trigger] self.spec_table()[i]).logs_id@,
        ) by {
            let k0 = choose|k0: int|
                0 <= k0 < logs0.len() && #[trigger] logs0[k0].logs_id@
                    == self.spec_table()[i].logs_id@;
            assert(self.spec_logs()[k0].logs_id@ == self.spec_table()[i].logs_id@);
        }
    }
}

/// LAW: however it was reached, a well-formed manager's live table never
/// holds two rows with the same instance id.
pub proof fn lemma_no_duplicate_ids(m: &ServerManager, i: int, j: int)
    requires
        m.inv(),
        0 <= i < m.spec_table().len(),
        0 <= j < m.spec_table().len(),
        i != j,
    ensures
        m.spec_table()[i].spec.id@ != m.spec_table()[j].spec.id@,
{
}

/// The exact effect of `signal_stop`: the result says whether a handle was
/// consumed, no handle for `id` survives, nothing else moves, and when no
/// handle existed the manager is untouched.
pub open spec fn signal_stop_rel(
    pre: ServerManager,
    post: ServerManager,
    id: Seq<char>,
    r: bool,
) -> bool {
    &&& r == has_handle(pre.spec_handles(), id)
    &&& !has_handle(post.spec_handles(), id)
    &&& post.spec_table() == pre.spec_table()
    &&& post.spec_logs() == pre.spec_logs()
    &&& post.spec_version() == pre.spec_version()
    &&& (!has_handle(pre.spec_handles(), id) ==> post.spec_handles() == pre.spec_handles())
    &&& forall|h: int|
        is_handle_at(pre.spec_handles(), id, h) ==> post.spec_handles() == pre.spec_handles(
        ).remove(h)
}

/// LAW: sending a stop signal twice to the same instance is a no-op the
/// second time and does not error: after any `signal_stop`, a second
/// `signal_stop` for the same id reports `false` and leaves the manager
/// exactly as the first call left it.
pub proof fn lemma_second_stop_is_noop(
    m0: ServerManager,
    m1: ServerManager,
    m2: ServerManager,
    id: Seq<char>,
    r1: bool,
    r2: bool,
)
    requires
        signal_stop_rel(m0, m1, id, r1),
        signal_stop_rel(m1, m2, id, r2),
    ensures
        r2 == false,
        unchanged(m1, m2),
{
}

} // verus!
