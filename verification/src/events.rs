//! The job/event plane: the worker's status transitions with bounded write
//! retries, the lossy in-process event channel, and the heartbeat counter.
//!
//! The worker loop itself — doing the work, sleeping between retries — runs
//! outside the library and asks `job_worker_step` what to do next; the
//! channel is a bounded ring whose lagging readers are told how much they
//! missed rather than blocking publishers.

use crate::types::JobStatus;
use vstd::prelude::*;
use vstd::string::StringExecFns;

verus! {

// ─── the worker's transitions ────────────────────────────────────────────

/// What the worker just saw.
#[derive(Debug, Clone)]
pub enum WorkerEvent {
    /// The job is about to run.
    Started,
    /// The work finished cleanly.
    WorkSucceeded,
    /// The work failed; carries the message to record.
    WorkFailed(String),
    /// The last status write failed and may be retried.
    StatusWriteFailed,
}

/// What the worker must do next.
#[derive(Debug, Clone)]
pub enum WorkerAction {
    /// Write this status, progress (in thousandths) and error text.
    WriteStatus { status: JobStatus, progress_milli: u32, error: Option<String> },
    /// Wait this many milliseconds, then retry the failed write.
    RetryAfterMs(u64),
    /// Stop: the write budget is spent or nothing is left to do.
    GiveUp,
}

/// Decide the worker's next move: five write attempts at most; `queued`
/// becomes `running` at progress 0 when work starts; `running` becomes
/// `completed` at progress 1 on success or `failed` at progress 0 carrying
/// the message; a failed write inside the budget is retried after 120 ms;
/// anything else means there is nothing left to do.
pub fn job_worker_step(phase: JobStatus, event: &WorkerEvent, attempt: u32) -> (r: WorkerAction)
    ensures
        attempt >= 5 ==> r is GiveUp,
        attempt < 5 ==> match event {
            WorkerEvent::StatusWriteFailed => r == WorkerAction::RetryAfterMs(120u64),
            WorkerEvent::Started => if phase is Queued {
                r == (WorkerAction::WriteStatus {
                    status: JobStatus::Running,
                    progress_milli: 0u32,
                    error: None,
                })
            } else {
                r is GiveUp
            },
            WorkerEvent::WorkSucceeded => if phase is Running {
                r == (WorkerAction::WriteStatus {
                    status: JobStatus::Completed,
                    progress_milli: 1000u32,
                    error: None,
                })
            } else {
                r is GiveUp
            },
            WorkerEvent::WorkFailed(msg) => if phase is Running {
                &&& r matches WorkerAction::WriteStatus { status, progress_milli, error }
                &&& status == JobStatus::Failed
                &&& progress_milli == 0
                &&& error matches Some(e) && e@ == msg@
            } else {
                r is GiveUp
            },
        },
{
    if attempt >= 5 {
        return WorkerAction::GiveUp;
    }
    match event {
        WorkerEvent::StatusWriteFailed => WorkerAction::RetryAfterMs(120),
        WorkerEvent::Started => match phase {
            JobStatus::Queued => WorkerAction::WriteStatus {
                status: JobStatus::Running,
                progress_milli: 0,
                error: None,
            },
            _ => WorkerAction::GiveUp,
        },
        WorkerEvent::WorkSucceeded => match phase {
            JobStatus::Running => WorkerAction::WriteStatus {
                status: JobStatus::Completed,
                progress_milli: 1000,
                error: None,
            },
            _ => WorkerAction::GiveUp,
        },
        WorkerEvent::WorkFailed(msg) => match phase {
            JobStatus::Running => WorkerAction::WriteStatus {
                status: JobStatus::Failed,
                progress_milli: 0,
                error: Some(msg.clone()),
            },
            _ => WorkerAction::GiveUp,
        },
    }
}

// ─── events and their mathematical form ──────────────────────────────────

/// What the server broadcasts to listeners.
#[derive(Debug, Clone)]
pub enum ServerEvent {
    ScanProgress { library_id: String, job_id: String },
    ScanComplete { library_id: String, job_id: String, items_added: u64 },
    MetadataRefresh { item_id: String },
    JobUpdate { job_id: String, status: JobStatus, progress_milli: u32 },
    Heartbeat { seq: u64 },
}

pub enum EventView {
    ScanProgress { library_id: Seq<char>, job_id: Seq<char> },
    ScanComplete { library_id: Seq<char>, job_id: Seq<char>, items_added: u64 },
    MetadataRefresh { item_id: Seq<char> },
    JobUpdate { job_id: Seq<char>, status: JobStatus, progress_milli: u32 },
    Heartbeat { seq: u64 },
}

impl View for ServerEvent {
    type V = EventView;

    open spec fn view(&self) -> EventView {
        match self {
            ServerEvent::ScanProgress { library_id, job_id } => EventView::ScanProgress {
                library_id: library_id@,
                job_id: job_id@,
            },
            ServerEvent::ScanComplete { library_id, job_id, items_added } => EventView::ScanComplete {
                library_id: library_id@,
                job_id: job_id@,
                items_added: *items_added,
            },
            ServerEvent::MetadataRefresh { item_id } => EventView::MetadataRefresh {
                item_id: item_id@,
            },
            ServerEvent::JobUpdate { job_id, status, progress_milli } => EventView::JobUpdate {
                job_id: job_id@,
                status: *status,
                progress_milli: *progress_milli,
            },
            ServerEvent::Heartbeat { seq } => EventView::Heartbeat { seq: *seq },
        }
    }
}

fn dup_event(e: &ServerEvent) -> (r: ServerEvent)
    ensures
        r@ == e@,
{
    match e {
        ServerEvent::ScanProgress { library_id, job_id } => ServerEvent::ScanProgress {
            library_id: library_id.clone(),
            job_id: job_id.clone(),
        },
        ServerEvent::ScanComplete { library_id, job_id, items_added } => ServerEvent::ScanComplete {
            library_id: library_id.clone(),
            job_id: job_id.clone(),
            items_added: *items_added,
        },
        ServerEvent::MetadataRefresh { item_id } => ServerEvent::MetadataRefresh {
            item_id: item_id.clone(),
        },
        ServerEvent::JobUpdate { job_id, status, progress_milli } => ServerEvent::JobUpdate {
            job_id: job_id.clone(),
            status: *status,
            progress_milli: *progress_milli,
        },
        ServerEvent::Heartbeat { seq } => ServerEvent::Heartbeat { seq: *seq },
    }
}

// ─── the lossy broadcast ring ────────────────────────────────────────────

/// A bounded ring of events. The oldest retained event has sequence number
/// `start_seq`; publishing past the capacity evicts from the front, and a
/// reader that fell behind is told how many events it lost.
pub struct EventBus {
    buffer: Vec<ServerEvent>,
    start_seq: u64,
    capacity: usize,
}

/// A reader's position: the sequence number it wants next.
#[derive(Debug, Clone, Copy, PartialEq, Eq, Structural)]
pub struct EventCursor {
    pub next_seq: u64,
}

/// What one poll yields.
#[derive(Debug)]
pub enum Polled {
    /// The reader fell behind; this many events are gone for good.
    Lagged(u64),
    /// The next event, in order.
    Event(ServerEvent),
    /// Nothing new.
    Empty,
}

impl EventBus {
    pub closed spec fn spec_events(self) -> Seq<EventView> {
        self.buffer@.map_values(|e: ServerEvent| e@)
    }

    pub closed spec fn spec_start_seq(self) -> u64 {
        self.start_seq
    }

    pub closed spec fn spec_capacity(self) -> usize {
        self.capacity
    }

    /// The ring never outgrows its capacity and its sequence space.
    pub closed spec fn inv(self) -> bool {
        &&& self.buffer@.len() <= self.capacity
        &&& self.start_seq + self.buffer@.len() <= u64::MAX
    }

    /// The sequence number the next published event will get.
    pub open spec fn spec_next_seq(self) -> int {
        self.spec_start_seq() + self.spec_events().len()
    }

    pub fn new(capacity: usize) -> (r: EventBus)
        requires
            capacity >= 1,
        ensures
            r.inv(),
            r.spec_events().len() == 0,
            r.spec_start_seq() == 0,
            r.spec_capacity() == capacity,
    {
        EventBus { buffer: Vec::new(), start_seq: 0, capacity }
    }

    /// Publish an event: appended at the back; when the ring is full the
    /// oldest event is dropped and the start sequence moves up. Refused
    /// only when the sequence space is spent.
    pub fn publish(&mut self, event: ServerEvent) -> (r: bool)
        requires
            old(self).inv(),
            old(self).spec_capacity() >= 1,
        ensures
            final(self).inv(),
            final(self).spec_capacity() == old(self).spec_capacity(),
            !r ==> old(self).spec_next_seq() == u64::MAX && *final(self) == *old(self),
            r ==> old(self).spec_next_seq() < u64::MAX && (if old(self).spec_events().len()
                < old(self).spec_capacity() {
                final(self).spec_events() == old(self).spec_events().push(event@)
                    && final(self).spec_start_seq() == old(self).spec_start_seq()
            } else {
                final(self).spec_events() == old(self).spec_events().drop_first().push(event@)
                    && final(self).spec_start_seq() == old(self).spec_start_seq() + 1
            }),
    {
        let len: usize = self.buffer.len();
        if self.start_seq == u64::MAX - (len as u64) {
            return false;
        }
        let ghost before = self.buffer@.map_values(|e: ServerEvent| e@);
        if len >= self.capacity {
            self.buffer.remove(0);
            self.start_seq = self.start_seq + 1;
            proof {
                assert(self.buffer@.map_values(|e: ServerEvent| e@) =~= before.drop_first());
            }
        }
        let ghost mid = self.buffer@.map_values(|e: ServerEvent| e@);
        self.buffer.push(event);
        proof {
            assert(self.buffer@.map_values(|e: ServerEvent| e@) =~= mid.push(event@));
        }
        true
    }

    /// Read the next event for a cursor. A cursor behind the ring learns
    /// how many events it lost and jumps to the oldest retained one; a
    /// cursor inside the ring gets its event and advances; a cursor at the
    /// head sees nothing.
    pub fn poll(&self, cursor: &mut EventCursor) -> (r: Polled)
        requires
            self.inv(),
        ensures
            ({
                let start = self.spec_start_seq();
                let len = self.spec_events().len();
                if old(cursor).next_seq < start {
                    r matches Polled::Lagged(missed) && missed == start - old(cursor).next_seq
                        && final(cursor).next_seq == start
                } else if old(cursor).next_seq < start + len {
                    (r matches Polled::Event(e) && e@ == self.spec_events()[old(cursor).next_seq
                        - start]) && final(cursor).next_seq == old(cursor).next_seq + 1
                } else {
                    r is Empty && *final(cursor) == *old(cursor)
                }
            }),
    {
        let len: usize = self.buffer.len();
        if cursor.next_seq < self.start_seq {
            let missed = self.start_seq - cursor.next_seq;
            cursor.next_seq = self.start_seq;
            Polled::Lagged(missed)
        } else if cursor.next_seq - self.start_seq < len as u64 {
            let offset = (cursor.next_seq - self.start_seq) as usize;
            proof {
                assert(self.spec_events()[offset as int] == self.buffer@[offset as int]@);
            }
            let e = dup_event(&self.buffer[offset]);
            cursor.next_seq = cursor.next_seq + 1;
            Polled::Event(e)
        } else {
            Polled::Empty
        }
    }
}

/// The heartbeat counter: each beat carries the next sequence number, which
/// only ever grows.
pub fn next_heartbeat(seq: u64) -> (r: (ServerEvent, u64))
    requires
        seq < u64::MAX,
    ensures
        r.0@ == (EventView::Heartbeat { seq }),
        r.1 == seq + 1,
{
    (ServerEvent::Heartbeat { seq }, seq + 1)
}

} // verus!
