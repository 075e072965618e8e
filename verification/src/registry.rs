//! The process-wide session registry: the mapping from agent name to its
//! live session.  It guards uniqueness (exactly one session per name) and
//! the lifecycle transitions: idempotent start, stop, and the
//! ensure-on-demand path used by the attach broker.

use vstd::prelude::*;
use crate::builder::initial_builder_view;
use crate::session::{AttachReply, PtySize, Session, session_wf};
use crate::snapshot::default_snapshot_view;

verus! {

/// The byte limit of each session's history ring.
pub const HISTORY_LIMIT_BYTES: usize = 2 * 1024 * 1024;

/// Why a registry operation could not proceed.
#[derive(Debug, Clone, Copy, PartialEq, Eq, Structural)]
pub enum RegistryError {
    /// The agent name was empty.
    EmptyName,
    /// The agent is not in the metadata store.
    UnknownAgent,
    /// No further subscriber id is available.
    IdsExhausted,
    /// A resize asked for zero columns or rows.
    InvalidSize,
}

/// What the metadata store records for an agent: the tool command and the
/// worktree the tool runs in.
#[derive(Debug, Clone)]
pub struct AgentMeta {
    pub tool: String,
    pub worktree_path: String,
}

/// The process-wide registry of live sessions.
pub struct SessionRegistry {
    pub sessions: Vec<Session>,
    pub history_limit: usize,
}

/// The first index of a session for `name`, or -1 when none exists.
pub open spec fn spec_find_session(sessions: Seq<Session>, name: Seq<char>) -> int
    decreases sessions.len(),
{
    if sessions.len() == 0 {
        -1
    } else if sessions[0].agent_name@ == name {
        0
    } else {
        let r = spec_find_session(sessions.drop_first(), name);
        if r < 0 {
            -1
        } else {
            r + 1
        }
    }
}

/// Whether a session exists for `name`.
pub open spec fn has_session(r: SessionRegistry, name: Seq<char>) -> bool {
    spec_find_session(r.sessions@, name) >= 0
}

/// Sessions with the entry for `name` removed (unchanged when absent).
pub open spec fn spec_remove_session(sessions: Seq<Session>, name: Seq<char>) -> Seq<Session> {
    let i = spec_find_session(sessions, name);
    if i < 0 {
        sessions
    } else {
        sessions.remove(i)
    }
}

/// A session just installed for `name` with the given tool and worktree:
/// empty history under `limit`, default parser, no subscribers, empty
/// stream.
pub open spec fn fresh_session(
    s: Session,
    name: Seq<char>,
    tool: Seq<char>,
    worktree: Seq<char>,
    size: PtySize,
    limit: usize,
) -> bool {
    &&& s.agent_name@ == name
    &&& s.tool@ == tool
    &&& s.worktree_path@ == worktree
    &&& s.size == size
    &&& s.history.contents() == Seq::<u8>::empty()
    &&& s.history.limit == limit
    &&& s.builder@ == initial_builder_view(size.rows)
    &&& s.next_subscriber_id == 0
    &&& s.subscribers@.len() == 0
    &&& s.stream@ == Seq::<u8>::empty()
    &&& session_wf(s)
}

/// Registry well-formedness: names are unique, and every session is
/// well-formed with the registry's history limit.
pub open spec fn registry_wf(r: SessionRegistry) -> bool {
    &&& forall|i: int, j: int|
        0 <= i < j < r.sessions@.len() ==> (#[trigger] r.sessions@[i]).agent_name@ != (
        #[trigger] r.sessions@[j]).agent_name@
    &&& forall|i: int| 0 <= i < r.sessions@.len() ==> session_wf(#[trigger] r.sessions@[i])
}

pub proof fn lemma_find_session_props(sessions: Seq<Session>, name: Seq<char>)
    ensures
        spec_find_session(sessions, name) >= 0 ==> {
            &&& spec_find_session(sessions, name) < sessions.len()
            &&& sessions[spec_find_session(sessions, name)].agent_name@ == name
            &&& forall|k: int|
                0 <= k < spec_find_session(sessions, name) ==> (
                #[trigger] sessions[k]).agent_name@ != name
        },
        spec_find_session(sessions, name) < 0 ==> spec_find_session(sessions, name) == -1 && (
        forall|k: int| 0 <= k < sessions.len() ==> (#[trigger] sessions[k]).agent_name@ != name),
    decreases sessions.len(),
{
    if sessions.len() > 0 && sessions[0].agent_name@ != name {
        let rest = sessions.drop_first();
        lemma_find_session_props(rest, name);
        let r = spec_find_session(rest, name);
        if r >= 0 {
            assert(sessions[r + 1] == rest[r]);
            assert forall|k: int| 0 <= k < r + 1 implies (#[trigger] sessions[k]).agent_name@
                != name by {
                if k > 0 {
                    assert(rest[k - 1] == sessions[k]);
                }
            }
        } else {
            assert forall|k: int| 0 <= k < sessions.len() implies (
            #[trigger] sessions[k]).agent_name@ != name by {
                if k > 0 {
                    assert(rest[k - 1] == sessions[k]);
                }
            }
        }
    }
}

pub proof fn lemma_find_session_unique(sessions: Seq<Session>, name: Seq<char>, i: int)
    requires
        0 <= i <= sessions.len(),
        forall|k: int| 0 <= k < i ==> (#[trigger] sessions[k]).agent_name@ != name,
        i < sessions.len() ==> sessions[i].agent_name@ == name,
    ensures
        i < sessions.len() ==> spec_find_session(sessions, name) == i,
        i == sessions.len() ==> spec_find_session(sessions, name) == -1,
    decreases sessions.len(),
{
    if sessions.len() > 0 {
        if sessions[0].agent_name@ == name {
        } else {
            let rest = sessions.drop_first();
            assert(forall|k: int| 0 <= k < rest.len() ==> rest[k] == sessions[k + 1]);
            lemma_find_session_unique(rest, name, i - 1);
        }
    }
}

/// At most one session exists per agent name: two sessions with the same
/// name are the same entry.
pub proof fn lemma_unique_session_per_name(r: SessionRegistry, i: int, j: int)
    requires
        registry_wf(r),
        0 <= i < r.sessions@.len(),
        0 <= j < r.sessions@.len(),
        r.sessions@[i].agent_name@ == r.sessions@[j].agent_name@,
    ensures
        i == j,
{
}

/// After removing a name from a registry with unique names, the name is
/// absent; every other entry is untouched.
pub proof fn lemma_remove_session_absent(sessions: Seq<Session>, name: Seq<char>)
    requires
        forall|i: int, j: int|
            0 <= i < j < sessions.len() ==> (#[trigger] sessions[i]).agent_name@ != (
            #[trigger] sessions[j]).agent_name@,
    ensures
        spec_find_session(spec_remove_session(sessions, name), name) == -1,
{
    let i = spec_find_session(sessions, name);
    lemma_find_session_props(sessions, name);
    if i < 0 {
    } else {
        let removed = sessions.remove(i);
        assert forall|k: int| 0 <= k < removed.len() implies (#[trigger] removed[k]).agent_name@
            != name by {
            if k < i {
                assert(removed[k] == sessions[k]);
                if sessions[k].agent_name@ == name {
                    assert(sessions[k].agent_name@ == sessions[i].agent_name@);
                    assert(false);
                }
            } else {
                assert(removed[k] == sessions[k + 1]);
                if sessions[k + 1].agent_name@ == name {
                    assert(sessions[i].agent_name@ == sessions[k + 1].agent_name@);
                    assert(false);
                }
            }
        }
        lemma_find_session_unique(removed, name, removed.len() as int);
    }
}

/// Stopping a session and ensuring the same name again installs a fresh
/// session that carries exactly the tool and worktree the metadata store
/// records: same `(tool, worktree)`, empty history, default snapshot.
pub proof fn lemma_stop_then_ensure_fresh(
    sessions: Seq<Session>,
    name: Seq<char>,
    meta_tool: Seq<char>,
    meta_worktree: Seq<char>,
    installed: Session,
    size: PtySize,
    limit: usize,
)
    requires
        forall|i: int, j: int|
            0 <= i < j < sessions.len() ==> (#[trigger] sessions[i]).agent_name@ != (
            #[trigger] sessions[j]).agent_name@,
        fresh_session(installed, name, meta_tool, meta_worktree, size, limit),
    ensures
        ({
            let after = spec_remove_session(sessions, name).push(installed);
            &&& spec_find_session(after, name) == after.len() - 1
            &&& after[after.len() - 1].tool@ == meta_tool
            &&& after[after.len() - 1].worktree_path@ == meta_worktree
            &&& after[after.len() - 1].history.contents() == Seq::<u8>::empty()
            &&& after[after.len() - 1].builder@.snapshot == default_snapshot_view()
        }),
{
    let mid = spec_remove_session(sessions, name);
    lemma_remove_session_absent(sessions, name);
    lemma_find_session_props(mid, name);
    let after = mid.push(installed);
    assert forall|k: int| 0 <= k < after.len() - 1 implies (#[trigger] after[k]).agent_name@
        != name by {
        assert(after[k] == mid[k]);
    }
    lemma_find_session_unique(after, name, after.len() - 1);
}

impl SessionRegistry {
    /// An empty registry whose sessions will keep `history_limit` bytes
    /// of history.
    pub fn new(history_limit: usize) -> (r: SessionRegistry)
        ensures
            registry_wf(r),
            r.sessions@.len() == 0,
            r.history_limit == history_limit,
    {
        SessionRegistry { sessions: Vec::new(), history_limit }
    }

    /// The index of the session for `name`, if one exists.
    pub fn find_session(&self, name: &String) -> (r: Option<usize>)
        ensures
            (match r {
                Some(i) => spec_find_session(self.sessions@, name@) == i,
                None => spec_find_session(self.sessions@, name@) == -1,
            }),
    {
        let n: usize = self.sessions.len();
        let mut i: usize = 0;
        while i < n
            invariant
                i <= n,
                n == self.sessions@.len(),
                forall|k: int| 0 <= k < i ==> (#[trigger] self.sessions@[k]).agent_name@ != name@,
            decreases n - i,
        {
            if self.sessions[i].agent_name == *name {
                proof {
                    lemma_find_session_unique(self.sessions@, name@, i as int);
                }
                return Some(i);
            }
            i = i + 1;
        }
        proof {
            lemma_find_session_unique(self.sessions@, name@, n as int);
        }
        None
    }

    /// Whether a session for `name` is live.
    pub fn contains_session(&self, name: &String) -> (r: bool)
        ensures
            r == has_session(*self, name@),
    {
        match self.find_session(name) {
            Some(_) => true,
            None => false,
        }
    }

    /// Start a session for `name` if none is live.  Idempotent: when a
    /// session already exists the registry is unchanged, and the call
    /// reports that nothing was started.
    pub fn start_session(
        &mut self,
        name: &String,
        tool: &String,
        worktree: &String,
        size: PtySize,
    ) -> (started: bool)
        requires
            registry_wf(*old(self)),
        ensures
            registry_wf(*final(self)),
            final(self).history_limit == old(self).history_limit,
            has_session(*old(self), name@) ==> !started && *final(self) == *old(self),
            !has_session(*old(self), name@) ==> started && {
                &&& final(self).sessions@.len() == old(self).sessions@.len() + 1
                &&& final(self).sessions@.drop_last() == old(self).sessions@
                &&& fresh_session(final(self).sessions@.last(), name@, tool@, worktree@, size, old(
                    self,
                ).history_limit)
                &&& spec_find_session(final(self).sessions@, name@) == old(self).sessions@.len()
            },
    {
        if self.contains_session(name) {
            return false;
        }
        let session = Session::new(
            name.clone(),
            tool.clone(),
            worktree.clone(),
            size,
            self.history_limit,
        );
        self.sessions.push(session);
        proof {
            lemma_find_session_props(old(self).sessions@, name@);
            assert(final(self).sessions@.drop_last() =~= old(self).sessions@);
            assert forall|k: int| 0 <= k < final(self).sessions@.len() - 1 implies (
            #[trigger] final(self).sessions@[k]).agent_name@ != name@ by {
                assert(final(self).sessions@[k] == old(self).sessions@[k]);
            }
            lemma_find_session_unique(
                final(self).sessions@,
                name@,
                final(self).sessions@.len() - 1,
            );
            assert forall|i: int, j: int|
                0 <= i < j < final(self).sessions@.len() implies (
            #[trigger] final(self).sessions@[i]).agent_name@ != (
            #[trigger] final(self).sessions@[j]).agent_name@ by {
                if j < final(self).sessions@.len() - 1 {
                    assert(final(self).sessions@[i] == old(self).sessions@[i]);
                    assert(final(self).sessions@[j] == old(self).sessions@[j]);
                } else {
                    assert(final(self).sessions@[i] == old(self).sessions@[i]);
                }
            }
        }
        true
    }

    /// Remove the session for `name`, if any; the caller kills the child
    /// process.  Afterwards no session for `name` is live.
    pub fn stop_session(&mut self, name: &String) -> (existed: bool)
        requires
            registry_wf(*old(self)),
        ensures
            registry_wf(*final(self)),
            final(self).history_limit == old(self).history_limit,
            existed == has_session(*old(self), name@),
            final(self).sessions@ == spec_remove_session(old(self).sessions@, name@),
            !has_session(*final(self), name@),
    {
        proof {
            lemma_remove_session_absent(old(self).sessions@, name@);
            lemma_find_session_props(old(self).sessions@, name@);
        }
        match self.find_session(name) {
            None => false,
            Some(i) => {
                self.sessions.remove(i);
                proof {
                    old(self).sessions@.remove_ensures(i as int);
                    assert forall|a: int, b: int|
                        0 <= a < b < final(self).sessions@.len() implies (
                    #[trigger] final(self).sessions@[a]).agent_name@ != (
                    #[trigger] final(self).sessions@[b]).agent_name@ by {
                        let sa = final(self).sessions@[a];
                        let sb = final(self).sessions@[b];
                        if a < i as int {
                            assert(sa == old(self).sessions@[a]);
                        } else {
                            assert(sa == old(self).sessions@[a + 1]);
                        }
                        if b < i as int {
                            assert(sb == old(self).sessions@[b]);
                        } else {
                            assert(sb == old(self).sessions@[b + 1]);
                        }
                    }
                    assert forall|k: int| 0 <= k < final(self).sessions@.len() implies session_wf(
                        #[trigger] final(self).sessions@[k],
                    ) by {
                        if k < i as int {
                            assert(final(self).sessions@[k] == old(self).sessions@[k]);
                        } else {
                            assert(final(self).sessions@[k] == old(self).sessions@[k + 1]);
                        }
                    }
                }
                true
            },
        }
    }

    /// Ensure a session for `name` is live: nothing happens when one
    /// exists; otherwise a fresh session is installed from what the
    /// metadata store records, and an unknown agent is an error.
    pub fn ensure_session(&mut self, name: &String, meta: &Option<AgentMeta>, size: PtySize) -> (r:
        Result<bool, RegistryError>)
        requires
            registry_wf(*old(self)),
        ensures
            registry_wf(*final(self)),
            final(self).history_limit == old(self).history_limit,
            has_session(*old(self), name@) ==> r == Ok::<bool, RegistryError>(false)
                && *final(self) == *old(self),
            !has_session(*old(self), name@) && meta is None ==> r == Err::<bool, RegistryError>(
                RegistryError::UnknownAgent,
            ) && *final(self) == *old(self),
            !has_session(*old(self), name@) ==> (meta matches Some(m) ==> r == Ok::<
                bool,
                RegistryError,
            >(true) && {
                &&& final(self).sessions@.len() == old(self).sessions@.len() + 1
                &&& final(self).sessions@.drop_last() == old(self).sessions@
                &&& fresh_session(final(self).sessions@.last(), name@, m.tool@, m.worktree_path@,
                    size, old(self).history_limit)
                &&& spec_find_session(final(self).sessions@, name@) == old(self).sessions@.len()
            }),
            r is Ok ==> has_session(*final(self), name@),
    {
        proof {
            lemma_find_session_props(old(self).sessions@, name@);
        }
        if self.contains_session(name) {
            return Ok(false);
        }
        match meta {
            None => Err(RegistryError::UnknownAgent),
            Some(m) => {
                let started = self.start_session(name, &m.tool, &m.worktree_path, size);
                proof {
                    lemma_find_session_props(final(self).sessions@, name@);
                }
                Ok(true)
            },
        }
    }

    /// Attach to the session for `name`: reply with its history and
    /// snapshot cut at one point, and register a new subscriber, keeping
    /// the existing subscribers in order.  Fails only when no session is
    /// live for `name` or its subscriber ids are exhausted; the registry
    /// is then unchanged.
    pub fn attach_session(&mut self, name: &String) -> (r: Result<AttachReply, RegistryError>)
        requires
            registry_wf(*old(self)),
        ensures
            registry_wf(*final(self)),
            final(self).history_limit == old(self).history_limit,
            !has_session(*old(self), name@) ==> r == Err::<AttachReply, RegistryError>(
                RegistryError::UnknownAgent,
            ) && *final(self) == *old(self),
            r matches Ok(reply) ==> {
                let i = spec_find_session(old(self).sessions@, name@);
                &&& 0 <= i < old(self).sessions@.len()
                &&& spec_find_session(final(self).sessions@, name@) == i
                &&& reply.history@ == old(self).sessions@[i].history.contents()
                &&& reply.snapshot@ == old(self).sessions@[i].builder@.snapshot
                &&& reply.subscriber_id == old(self).sessions@[i].next_subscriber_id
                &&& final(self).sessions@.len() == old(self).sessions@.len()
                &&& forall|k: int|
                    0 <= k < old(self).sessions@.len() && k != i ==> final(self).sessions@[k]
                        == old(self).sessions@[k]
                &&& final(self).sessions@[i].subscribers@.len() == old(
                    self,
                ).sessions@[i].subscribers@.len() + 1
                &&& final(self).sessions@[i].subscribers@.drop_last() == old(
                    self,
                ).sessions@[i].subscribers@
                &&& final(self).sessions@[i].subscribers@.last()@.id == reply.subscriber_id
                &&& final(self).sessions@[i].subscribers@.last()@.attach_offset == old(
                    self,
                ).sessions@[i].stream@.len()
                &&& final(self).sessions@[i].next_subscriber_id == old(
                    self,
                ).sessions@[i].next_subscriber_id + 1
                &&& final(self).sessions@[i].stream == old(self).sessions@[i].stream
                &&& final(self).sessions@[i].history == old(self).sessions@[i].history
                &&& final(self).sessions@[i].builder == old(self).sessions@[i].builder
                &&& final(self).sessions@[i].agent_name == old(self).sessions@[i].agent_name
                &&& final(self).sessions@[i].tool == old(self).sessions@[i].tool
                &&& final(self).sessions@[i].worktree_path == old(self).sessions@[i].worktree_path
                &&& final(self).sessions@[i].size == old(self).sessions@[i].size
            },
            r is Ok ==> has_session(*final(self), name@),
            has_session(*old(self), name@) ==> (r is Ok || r == Err::<AttachReply, RegistryError>(
                RegistryError::IdsExhausted,
            )),
            has_session(*old(self), name@) && old(self).sessions@[spec_find_session(
                old(self).sessions@,
                name@,
            )].next_subscriber_id < u64::MAX ==> r is Ok,
            r == Err::<AttachReply, RegistryError>(RegistryError::IdsExhausted) ==> has_session(
                *old(self),
                name@,
            ) && old(self).sessions@[spec_find_session(old(self).sessions@, name@)].next_subscriber_id
                == u64::MAX,
    {
        proof {
            lemma_find_session_props(old(self).sessions@, name@);
        }
        match self.find_session(name) {
            None => Err(RegistryError::UnknownAgent),
            Some(i) => {
                let ghost old_sessions = self.sessions@;
                let mut session = self.sessions.remove(i);
                if session.next_subscriber_id == u64::MAX {
                    self.sessions.insert(i, session);
                    proof {
                        assert(final(self).sessions@ =~= old(self).sessions@);
                    }
                    return Err(RegistryError::IdsExhausted);
                }
                let reply = session.attach();
                self.sessions.insert(i, session);
                proof {
                    assert(final(self).sessions@ =~= old(self).sessions@.update(
                        i as int,
                        final(self).sessions@[i as int],
                    ));
                    assert(final(self).sessions@[i as int].agent_name@ == old(
                        self,
                    ).sessions@[i as int].agent_name@);
                    assert forall|a: int, b: int|
                        0 <= a < b < final(self).sessions@.len() implies (
                    #[trigger] final(self).sessions@[a]).agent_name@ != (
                    #[trigger] final(self).sessions@[b]).agent_name@ by {
                        assert(final(self).sessions@[a].agent_name@ == old(
                            self,
                        ).sessions@[a].agent_name@);
                        assert(final(self).sessions@[b].agent_name@ == old(
                            self,
                        ).sessions@[b].agent_name@);
                    }
                    assert forall|k: int|
                        0 <= k < final(self).sessions@.len() implies session_wf(
                        #[trigger] final(self).sessions@[k],
                    ) by {
                        if k != i as int {
                            assert(final(self).sessions@[k] == old(self).sessions@[k]);
                        }
                    }
                    assert forall|k: int| 0 <= k < i as int implies (
                    #[trigger] final(self).sessions@[k]).agent_name@ != name@ by {
                        assert(final(self).sessions@[k] == old(self).sessions@[k]);
                    }
                    lemma_find_session_unique(final(self).sessions@, name@, i as int);
                }
                Ok(reply)
            },
        }
    }

    /// The broker's RESIZE path: reject zero dimensions outright;
    /// otherwise record the new size and clear the session's scroll
    /// region.  The caller performs the PTY ioctl; its failure surfaces
    /// as a RESIZE error but does not destroy the session.
    pub fn handle_resize(&mut self, name: &String, cols: u16, rows: u16) -> (r: Result<
        (),
        RegistryError,
    >)
        requires
            registry_wf(*old(self)),
        ensures
            registry_wf(*final(self)),
            final(self).history_limit == old(self).history_limit,
            cols == 0 || rows == 0 ==> r == Err::<(), RegistryError>(RegistryError::InvalidSize)
                && *final(self) == *old(self),
            cols > 0 && rows > 0 && !has_session(*old(self), name@) ==> r == Err::<
                (),
                RegistryError,
            >(RegistryError::UnknownAgent) && *final(self) == *old(self),
            cols > 0 && rows > 0 && has_session(*old(self), name@) ==> r == Ok::<
                (),
                RegistryError,
            >(()) && {
                let i = spec_find_session(old(self).sessions@, name@);
                &&& final(self).sessions@.len() == old(self).sessions@.len()
                &&& forall|k: int|
                    0 <= k < old(self).sessions@.len() && k != i ==> final(self).sessions@[k]
                        == old(self).sessions@[k]
                &&& final(self).sessions@[i].size == (PtySize { rows, cols })
                &&& final(self).sessions@[i].builder@.snapshot.scroll_region is None
                &&& final(self).sessions@[i].history == old(self).sessions@[i].history
                &&& final(self).sessions@[i].stream == old(self).sessions@[i].stream
                &&& final(self).sessions@[i].subscribers == old(self).sessions@[i].subscribers
            },
    {
        if cols == 0 || rows == 0 {
            return Err(RegistryError::InvalidSize);
        }
        proof {
            lemma_find_session_props(old(self).sessions@, name@);
        }
        match self.find_session(name) {
            None => Err(RegistryError::UnknownAgent),
            Some(i) => {
                let mut session = self.sessions.remove(i);
                session.resize(cols, rows);
                self.sessions.insert(i, session);
                proof {
                    assert(final(self).sessions@ =~= old(self).sessions@.update(
                        i as int,
                        final(self).sessions@[i as int],
                    ));
                    assert forall|a: int, b: int|
                        0 <= a < b < final(self).sessions@.len() implies (
                    #[trigger] final(self).sessions@[a]).agent_name@ != (
                    #[trigger] final(self).sessions@[b]).agent_name@ by {
                        assert(final(self).sessions@[a].agent_name@ == old(
                            self,
                        ).sessions@[a].agent_name@);
                        assert(final(self).sessions@[b].agent_name@ == old(
                            self,
                        ).sessions@[b].agent_name@);
                    }
                    assert forall|k: int|
                        0 <= k < final(self).sessions@.len() implies session_wf(
                        #[trigger] final(self).sessions@[k],
                    ) by {
                        if k != i as int {
                            assert(final(self).sessions@[k] == old(self).sessions@[k]);
                        }
                    }
                }
                Ok(())
            },
        }
    }

    /// The broker's INPUT path: ensure the session is live (auto-starting
    /// it from what the metadata store records), then say whether a write
    /// must be performed.  Zero-length input succeeds and asks for no
    /// write.
    pub fn handle_input(&mut self, name: &String, meta: &Option<AgentMeta>, size: PtySize,
        payload: &[u8]) -> (r: Result<bool, RegistryError>)
        requires
            registry_wf(*old(self)),
        ensures
            registry_wf(*final(self)),
            final(self).history_limit == old(self).history_limit,
            r is Ok ==> has_session(*final(self), name@),
            has_session(*old(self), name@) || meta is Some ==> r is Ok,
            r matches Ok(do_write) ==> (do_write <==> payload@.len() > 0),
            !has_session(*old(self), name@) && meta is None ==> r == Err::<bool, RegistryError>(
                RegistryError::UnknownAgent,
            ) && *final(self) == *old(self),
            has_session(*old(self), name@) ==> r is Ok && *final(self) == *old(self),
            !has_session(*old(self), name@) ==> (meta matches Some(m) ==> {
                &&& final(self).sessions@.len() == old(self).sessions@.len() + 1
                &&& final(self).sessions@.drop_last() == old(self).sessions@
                &&& fresh_session(final(self).sessions@.last(), name@, m.tool@, m.worktree_path@,
                    size, old(self).history_limit)
                &&& spec_find_session(final(self).sessions@, name@) == old(self).sessions@.len()
            }),
    {
        let ensured = self.ensure_session(name, meta, size);
        match ensured {
            Err(e) => Err(e),
            Ok(_) => Ok(payload.len() > 0),
        }
    }

    /// The broker's ATTACH path: ensure the session (auto-starting an
    /// absent one from what the metadata store records), then attach to
    /// it.  When the store knows the agent, or a session is already live
    /// with subscriber ids to spare, the attach succeeds, and an
    /// auto-started session carries exactly the store's tool and
    /// worktree.
    pub fn handle_attach(
        &mut self,
        name: &String,
        meta: &Option<AgentMeta>,
        size: PtySize,
    ) -> (r: Result<AttachReply, RegistryError>)
        requires
            registry_wf(*old(self)),
        ensures
            registry_wf(*final(self)),
            r is Ok ==> has_session(*final(self), name@),
            name@.len() == 0 ==> r == Err::<AttachReply, RegistryError>(RegistryError::EmptyName)
                && *final(self) == *old(self),
            name@.len() > 0 && (has_session(*old(self), name@) || meta is Some) ==> (r is Ok || r
                == Err::<AttachReply, RegistryError>(RegistryError::IdsExhausted)),
            name@.len() > 0 && has_session(*old(self), name@) && old(self).sessions@[
                spec_find_session(old(self).sessions@, name@)].next_subscriber_id < u64::MAX ==> r
                is Ok,
            has_session(*old(self), name@) ==> (r matches Ok(reply) ==> ({
                let i = spec_find_session(old(self).sessions@, name@);
                &&& 0 <= i < old(self).sessions@.len()
                &&& reply.history@ == old(self).sessions@[i].history.contents()
                &&& reply.snapshot@ == old(self).sessions@[i].builder@.snapshot
                &&& reply.subscriber_id == old(self).sessions@[i].next_subscriber_id
                &&& final(self).sessions@.len() == old(self).sessions@.len()
                &&& forall|k: int|
                    0 <= k < old(self).sessions@.len() && k != i ==> final(self).sessions@[k]
                        == old(self).sessions@[k]
                &&& final(self).sessions@[i].subscribers@.drop_last() == old(
                    self,
                ).sessions@[i].subscribers@
                &&& final(self).sessions@[i].subscribers@.last()@.id == reply.subscriber_id
                &&& final(self).sessions@[i].subscribers@.last()@.attach_offset == old(
                    self,
                ).sessions@[i].stream@.len()
                &&& final(self).sessions@[i].next_subscriber_id == old(
                    self,
                ).sessions@[i].next_subscriber_id + 1
                &&& final(self).sessions@[i].stream == old(self).sessions@[i].stream
                &&& final(self).sessions@[i].history == old(self).sessions@[i].history
                &&& final(self).sessions@[i].builder == old(self).sessions@[i].builder
            })),
            name@.len() > 0 && !has_session(*old(self), name@) && meta is None ==> r == Err::<
                AttachReply,
                RegistryError,
            >(RegistryError::UnknownAgent),
            name@.len() > 0 && !has_session(*old(self), name@) ==> (meta matches Some(m) ==> r
                is Ok && ({
                let i = spec_find_session(final(self).sessions@, name@);
                &&& 0 <= i < final(self).sessions@.len()
                &&& final(self).sessions@[i].tool@ == m.tool@
                &&& final(self).sessions@[i].worktree_path@ == m.worktree_path@
            })),
            !has_session(*old(self), name@) && meta is Some ==> (r matches Ok(reply) ==> {
                &&& reply.history@ == Seq::<u8>::empty()
                &&& reply.snapshot@ == default_snapshot_view()
            }),
    {
        if name.as_str().is_empty() {
            return Err(RegistryError::EmptyName);
        }
        let ensured = self.ensure_session(name, meta, size);
        match ensured {
            Err(e) => Err(e),
            Ok(_) => {
                proof {
                    lemma_find_session_props(self.sessions@, name@);
                }
                self.attach_session(name)
            },
        }
    }
}

} // verus!
