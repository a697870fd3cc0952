//! The session supervisor: the one active-session slot and every decision
//! around the lifecycle of the supervised subprocess.
//!
//! The surrounding process performs the operations that suspend — spawn,
//! bounded wait, kill — and feeds what happened back in; every state
//! transition, and the broadcast each one owes, is decided here. The
//! transitions follow `crate::status::is_transition`: `Starting` becomes
//! `Running` when the subprocess prints its readiness marker, an operator
//! stop drives `Starting` or `Running` through `Stopping` to `Stopped`,
//! and an exit that no stop asked for becomes `Crashed`.

use vstd::prelude::*;
use vstd::string::StrSliceExecFns;
use vstd::string::StringSliceAdditionalSpecFns;
use crate::codec;
use crate::config::ConfigEntry;
use crate::status::SessionStatus;
use crate::status::is_transition;
use crate::status::spec_label;

verus! {

/// The line content with which the subprocess signals that its
/// initialization is complete.
pub open spec fn marker_bytes() -> Seq<u8> {
    "Initialization Sequence Completed".spec_bytes()
}

/// `ndl` occurs contiguously somewhere in `h`.
pub open spec fn contains_seq(h: Seq<u8>, ndl: Seq<u8>) -> bool {
    exists|i: int| 0 <= i <= h.len() - ndl.len() && #[trigger] h.subrange(i, i + ndl.len()) == ndl
}

/// Whether `ndl` occurs contiguously in `h`.
fn contains_subslice(h: &[u8], ndl: &[u8]) -> (r: bool)
    ensures
        r == contains_seq(h@, ndl@),
{
    if ndl.len() == 0 {
        proof {
            assert(h@.subrange(0, 0 + ndl@.len() as int) =~= ndl@);
            assert(contains_seq(h@, ndl@));
        }
        return true;
    }
    if ndl.len() > h.len() {
        return false;
    }
    let last = h.len() - ndl.len();
    let mut i: usize = 0;
    while i <= last
        invariant
            ndl@.len() >= 1,
            h@.len() >= ndl@.len(),
            h@.len() <= usize::MAX,
            last == h@.len() - ndl@.len(),
            i <= last + 1,
            forall|k: int|
                0 <= k < i ==> #[trigger] h@.subrange(k, k + ndl@.len()) != ndl@,
        decreases last + 1 - i,
    {
        let mut j: usize = 0;
        let mut all_equal = true;
        while j < ndl.len()
            invariant
                ndl@.len() >= 1,
                i + ndl@.len() <= h@.len(),
                h@.len() <= usize::MAX,
                j <= ndl@.len(),
                all_equal ==> forall|k: int| 0 <= k < j ==> h@[i + k] == ndl@[k],
                !all_equal ==> h@.subrange(i as int, i + ndl@.len()) != ndl@,
            decreases ndl@.len() - j,
        {
            if all_equal && h[i + j] != ndl[j] {
                proof {
                    assert(h@.subrange(i as int, i + ndl@.len())[j as int] == h@[i + j]);
                }
                all_equal = false;
            }
            j = j + 1;
        }
        if all_equal {
            proof {
                assert(h@.subrange(i as int, i + ndl@.len()) =~= ndl@);
            }
            return true;
        }
        i = i + 1;
    }
    false
}

/// Relies on chrono's `Utc::now`: the current time, so nothing is
/// promised of the value.
#[verifier::external_body]
fn now_timestamp() -> i64 {
    chrono::Utc::now().timestamp()
}

/// Relies on nix's `signal::kill`: delivers SIGINT to the process or — for
/// a negative `pid`, per the convention of kill(2) — to the process group
/// it names. Whether delivery succeeds depends on what is alive at the
/// moment of the call, so nothing is promised beyond the shape of the
/// result; an error is passed back as its raw errno value.
#[verifier::external_body]
fn send_interrupt(pid: i32) -> Result<(), i32> {
    match nix::sys::signal::kill(
        nix::unistd::Pid::from_raw(pid),
        nix::sys::signal::Signal::SIGINT,
    ) {
        Ok(()) => Ok(()),
        Err(e) => Err(e as i32),
    }
}

/// One supervised subprocess and its lifecycle metadata. Exists from a
/// successful spawn until a terminal state clears the slot; never reused.
#[derive(Debug)]
pub struct Session {
    pub config: ConfigEntry,
    pub status: SessionStatus,
    pub started: i64,
    pub pid: u32,
}

/// A point-in-time copy of the active session: every mutable field is
/// read out before any response is built from it.
#[derive(Debug)]
pub struct SerializableSession {
    pub config: ConfigEntry,
    pub started: i64,
    pub status: SessionStatus,
}

/// One lifecycle notification, broadcast to every connected client
/// whenever the status changes, whoever triggered the change.
#[derive(Debug)]
pub struct StatusEvent {
    pub guid: String,
    pub name: String,
    pub status: SessionStatus,
}

impl StatusEvent {
    /// The frame this event occupies on the wire:
    /// `!<total-length>:<guid>:<name>:<statusLabel>` and a newline, the
    /// length counting the bytes after its colon.
    pub fn encode(&self) -> (r: Vec<u8>)
        requires
            vstd::utf8::encode_utf8(self.guid@).len() + vstd::utf8::encode_utf8(self.name@).len()
                + vstd::utf8::encode_utf8(spec_label(self.status)).len() + 2 <= usize::MAX,
        ensures
            r@ == codec::event_frame(
                vstd::utf8::encode_utf8(self.guid@),
                vstd::utf8::encode_utf8(self.name@),
                vstd::utf8::encode_utf8(spec_label(self.status)),
            ),
            r@.len() > 0 && r@[0] == 33u8,
    {
        let g = self.guid.as_str().as_bytes_vec();
        let n = self.name.as_str().as_bytes_vec();
        let l = self.status.label().as_bytes_vec();
        codec::encode_event(g.as_slice(), n.as_slice(), l.as_slice())
    }
}

/// `ev` announces `status` for the session of `config`.
pub open spec fn event_for(config: ConfigEntry, status: SessionStatus, ev: StatusEvent) -> bool {
    ev.guid@ == config.guid@ && ev.name@ == config.name@ && ev.status == status
}

/// The owner of the active-session slot. The slot holds at most one
/// session; only the methods here ever change a status, and each change
/// hands back the event the caller must broadcast at once.
#[derive(Debug)]
pub struct SessionManager {
    pub active: Option<Session>,
}

/// The slot never retains a terminal session: the transition to `Stopped`
/// or `Crashed` clears it in the same step.
pub open spec fn wf(m: SessionManager) -> bool {
    match m.active {
        Some(s) => !s.status.is_terminal(),
        None => true,
    }
}

/// Effect of one subprocess output line on the supervisor state: the
/// first marker line while still `Starting` makes the session `Running`;
/// everything else changes nothing.
pub open spec fn output_line_step(m: SessionManager, line: Seq<u8>) -> SessionManager {
    match m.active {
        Some(s) => {
            if s.status == SessionStatus::Starting && contains_seq(line, marker_bytes()) {
                SessionManager {
                    active: Some(
                        Session {
                            config: s.config,
                            status: SessionStatus::Running,
                            started: s.started,
                            pid: s.pid,
                        },
                    ),
                }
            } else {
                m
            }
        },
        None => m,
    }
}

/// The supervisor state after a whole sequence of output lines.
pub open spec fn run_output(m: SessionManager, lines: Seq<Seq<u8>>) -> SessionManager
    decreases lines.len(),
{
    if lines.len() == 0 {
        m
    } else {
        run_output(output_line_step(m, lines[0]), lines.drop_first())
    }
}

/// A session whose subprocess never prints the marker stays exactly as it
/// is — in particular it remains `Starting` — however many output lines
/// arrive, until an operator stop or an exit of its own moves it on.
pub proof fn lemma_no_marker_keeps_state(m: SessionManager, lines: Seq<Seq<u8>>)
    requires
        forall|i: int|
            0 <= i < lines.len() ==> !contains_seq(#[trigger] lines[i], marker_bytes()),
    ensures
        run_output(m, lines) == m,
    decreases lines.len(),
{
    if lines.len() > 0 {
        assert(!contains_seq(lines[0], marker_bytes()));
        assert(output_line_step(m, lines[0]) == m);
        assert forall|i: int|
            0 <= i < lines.drop_first().len() implies !contains_seq(
            #[trigger] lines.drop_first()[i],
            marker_bytes(),
        ) by {
            assert(lines.drop_first()[i] == lines[i + 1]);
        }
        lemma_no_marker_keeps_state(m, lines.drop_first());
    }
}

impl SessionManager {
    /// A supervisor with an empty slot.
    pub fn new() -> (r: SessionManager)
        ensures
            r.active is None,
            wf(r),
    {
        SessionManager { active: None }
    }

    /// Whether the slot currently holds a session.
    pub fn has_active_session(&self) -> (r: bool)
        ensures
            r == (self.active is Some),
    {
        self.active.is_some()
    }

    /// A copy of the active session's mutable fields, taken in one step.
    pub fn snapshot(&self) -> (r: Option<SerializableSession>)
        ensures
            match r {
                Some(s) => self.active matches Some(a) && s.config.name@ == a.config.name@
                    && s.config.guid@ == a.config.guid@ && s.started == a.started && s.status
                    == a.status,
                None => self.active is None,
            },
    {
        match &self.active {
            Some(s) => Some(
                SerializableSession {
                    config: s.config.clone(),
                    started: s.started,
                    status: s.status,
                },
            ),
            None => None,
        }
    }

    /// Installs the freshly spawned subprocess as the active session, in
    /// state `Starting`, and hands back the `Starting` event to broadcast.
    /// The caller has already ruled out an occupied slot.
    pub fn on_spawned(&mut self, config: ConfigEntry, pid: u32) -> (ev: StatusEvent)
        requires
            old(self).active is None,
        ensures
            wf(*final(self)),
            final(self).active matches Some(s) && s.config == config && s.status
                == SessionStatus::Starting && s.pid == pid,
            event_for(config, SessionStatus::Starting, ev),
    {
        let ev = StatusEvent {
            guid: config.guid.clone(),
            name: config.name.clone(),
            status: SessionStatus::Starting,
        };
        let started = now_timestamp();
        self.active = Some(Session { config, status: SessionStatus::Starting, started, pid });
        ev
    }

    /// Reacts to one line of subprocess output: the first line containing
    /// the readiness marker while the session is still `Starting` makes it
    /// `Running` and yields the event to broadcast; any other line leaves
    /// everything unchanged.
    pub fn on_output_line(&mut self, line: &[u8]) -> (ev: Option<StatusEvent>)
        requires
            wf(*old(self)),
        ensures
            wf(*final(self)),
            *final(self) == output_line_step(*old(self), line@),
            match ev {
                Some(e) => old(self).active matches Some(s) && s.status
                    == SessionStatus::Starting && contains_seq(line@, marker_bytes())
                    && event_for(s.config, SessionStatus::Running, e) && is_transition(
                    s.status,
                    SessionStatus::Running,
                ),
                None => *final(self) == *old(self),
            },
    {
        let fire = match &self.active {
            Some(s) => s.status == SessionStatus::Starting && contains_subslice(
                line,
                "Initialization Sequence Completed".as_bytes(),
            ),
            None => false,
        };
        if fire {
            let s = self.active.take().unwrap();
            let ev = StatusEvent {
                guid: s.config.guid.clone(),
                name: s.config.name.clone(),
                status: SessionStatus::Running,
            };
            self.active = Some(
                Session {
                    config: s.config,
                    status: SessionStatus::Running,
                    started: s.started,
                    pid: s.pid,
                },
            );
            Some(ev)
        } else {
            None
        }
    }

    /// Begins an operator stop: the session becomes `Stopping` — so that
    /// the exit watcher sees the exit as expected even if the process dies
    /// the moment the signal lands — and the caller gets the `Stopping`
    /// event to broadcast, plus the recorded process id to signal. The
    /// caller has already ruled out an empty slot; at most one stop is in
    /// flight at a time.
    pub fn begin_stop(&mut self) -> (r: (u32, StatusEvent))
        requires
            wf(*old(self)),
            old(self).active matches Some(s) && (s.status == SessionStatus::Starting || s.status
                == SessionStatus::Running),
        ensures
            wf(*final(self)),
            old(self).active matches Some(s) && {
                &&& final(self).active matches Some(t)
                &&& t.config == s.config
                &&& t.started == s.started
                &&& t.pid == s.pid
                &&& t.status == SessionStatus::Stopping
                &&& r.0 == s.pid
                &&& event_for(s.config, SessionStatus::Stopping, r.1)
                &&& is_transition(s.status, SessionStatus::Stopping)
            },
    {
        let s = self.active.take().unwrap();
        let ev = StatusEvent {
            guid: s.config.guid.clone(),
            name: s.config.name.clone(),
            status: SessionStatus::Stopping,
        };
        let pid = s.pid;
        self.active = Some(
            Session {
                config: s.config,
                status: SessionStatus::Stopping,
                started: s.started,
                pid: s.pid,
            },
        );
        (pid, ev)
    }

    /// Completes an operator stop once the exit — graceful or forced — has
    /// resolved: the session becomes `Stopped`, the slot is cleared, and
    /// the caller gets the `Stopped` event to broadcast.
    pub fn finish_stop(&mut self) -> (ev: StatusEvent)
        requires
            wf(*old(self)),
            old(self).active matches Some(s) && s.status == SessionStatus::Stopping,
        ensures
            wf(*final(self)),
            final(self).active is None,
            old(self).active matches Some(s) && event_for(s.config, SessionStatus::Stopped, ev)
                && is_transition(s.status, SessionStatus::Stopped),
    {
        let s = self.active.take().unwrap();
        StatusEvent {
            guid: s.config.guid.clone(),
            name: s.config.name.clone(),
            status: SessionStatus::Stopped,
        }
    }

    /// Reacts to the subprocess exiting of its own accord. When a stop
    /// owns the exit — the status is `Stopping` — nothing happens here:
    /// the stop path finalizes, and a double finalize is avoided. Any
    /// other status makes this an unexpected exit: the session becomes
    /// `Crashed`, the slot is cleared, and the caller gets the `Crashed`
    /// event to broadcast.
    pub fn on_process_exit(&mut self) -> (ev: Option<StatusEvent>)
        requires
            wf(*old(self)),
        ensures
            wf(*final(self)),
            match ev {
                Some(e) => {
                    &&& old(self).active matches Some(s) && s.status != SessionStatus::Stopping
                        && event_for(s.config, SessionStatus::Crashed, e) && is_transition(
                        s.status,
                        SessionStatus::Crashed,
                    )
                    &&& final(self).active is None
                },
                None => {
                    &&& *final(self) == *old(self)
                    &&& (old(self).active is None || (old(self).active matches Some(s)
                        && s.status == SessionStatus::Stopping))
                },
            },
    {
        let fire = match &self.active {
            Some(s) => !(s.status == SessionStatus::Stopping),
            None => false,
        };
        if fire {
            let s = self.active.take().unwrap();
            Some(
                StatusEvent {
                    guid: s.config.guid.clone(),
                    name: s.config.name.clone(),
                    status: SessionStatus::Crashed,
                },
            )
        } else {
            None
        }
    }
}

/// Delivers the interrupt that asks the whole process group of `pid` to
/// terminate, per the group-signal convention of a negated process-group
/// id. Whether delivery succeeds depends on what is alive at the call;
/// on failure the raw errno value is handed back for the caller's error
/// report.
pub fn deliver_stop_signal(pid: u32) -> (r: Result<(), i32>)
    requires
        pid <= i32::MAX as u32,
{
    let raw: i32 = pid as i32;
    send_interrupt(-raw)
}

} // verus!
