//! A live session: the per-agent PTY state the reader thread maintains
//! (history, snapshot, subscribers) together with its metadata.
//!
//! The byte stream ever read from the PTY is carried as a ghost sequence,
//! so that the contracts can say exactly which bytes each subscriber has
//! observed and how history and snapshot relate to the same stream.

use vstd::prelude::*;
use crate::builder::{initial_builder_view, spec_builder_feed, BuilderView, SnapshotBuilder};
use crate::history::{ring_append, HistoryRing};
use crate::snapshot::{SnapshotView, TerminalSnapshot};

verus! {

/// PTY dimensions in cells.
#[derive(Debug, Clone, Copy, PartialEq, Eq, Structural)]
pub struct PtySize {
    pub rows: u16,
    pub cols: u16,
}

/// One attached subscriber: the server half of its socket pair is keyed
/// by `id`; the bytes delivered to it so far are ghost.
#[derive(Clone, Copy)]
pub struct Subscriber {
    pub id: u64,
    pub attach_offset: Ghost<int>,
    pub delivered: Ghost<Seq<u8>>,
}

/// The mathematical model of one subscriber.
#[verifier::ext_equal]
pub struct SubscriberView {
    pub id: u64,
    pub attach_offset: int,
    pub delivered: Seq<u8>,
}

impl View for Subscriber {
    type V = SubscriberView;

    open spec fn view(&self) -> SubscriberView {
        SubscriberView { id: self.id, attach_offset: self.attach_offset@, delivered: self.delivered@ }
    }
}

/// The models of a whole subscriber list.
pub open spec fn subscriber_views(subs: Seq<Subscriber>) -> Seq<SubscriberView> {
    Seq::new(subs.len(), |i: int| subs[i]@)
}

/// One event in a session's life that the parser state depends on.
pub enum SessionEvent {
    /// A chunk of PTY output fed to the parser.
    Bytes(Seq<u8>),
    /// A resize to the given height: it clears the scroll region and
    /// sets the height later margins validate against.
    Resized(u16),
}

/// The parser state after a resize: the scroll region is cleared and the
/// height later margins validate against becomes `rows`.
pub open spec fn resized_builder(b: BuilderView, rows: u16) -> BuilderView {
    BuilderView { snapshot: SnapshotView { scroll_region: None, ..b.snapshot }, rows, ..b }
}

/// The parser state after a trace of events.
pub open spec fn fold_events(b: BuilderView, events: Seq<SessionEvent>) -> BuilderView
    decreases events.len(),
{
    if events.len() == 0 {
        b
    } else {
        let next = match events[0] {
            SessionEvent::Bytes(chunk) => spec_builder_feed(b, chunk),
            SessionEvent::Resized(rows) => resized_builder(b, rows),
        };
        fold_events(next, events.drop_first())
    }
}

/// The PTY bytes a trace carries, in order.
pub open spec fn event_bytes(events: Seq<SessionEvent>) -> Seq<u8>
    decreases events.len(),
{
    if events.len() == 0 {
        Seq::empty()
    } else {
        (match events[0] {
            SessionEvent::Bytes(chunk) => chunk,
            SessionEvent::Resized(_) => Seq::empty(),
        }) + event_bytes(events.drop_first())
    }
}

#[verifier::rlimit(100)]
proof fn lemma_fold_events_snoc_bytes(b: BuilderView, events: Seq<SessionEvent>, chunk: Seq<u8>)
    ensures
        fold_events(b, events.push(SessionEvent::Bytes(chunk))) == spec_builder_feed(
            fold_events(b, events),
            chunk,
        ),
    decreases events.len(),
{
    let ev = SessionEvent::Bytes(chunk);
    if events.len() == 0 {
        assert(events.push(ev)[0] == ev);
        assert(events.push(ev).drop_first() =~= Seq::<SessionEvent>::empty());
        assert(fold_events(b, events) == b);
        assert(fold_events(spec_builder_feed(b, chunk), events.push(ev).drop_first())
            == spec_builder_feed(b, chunk));
        assert(fold_events(b, events.push(ev)) == spec_builder_feed(b, chunk));
    } else {
        assert(events.push(ev)[0] == events[0]);
        assert(events.push(ev).drop_first() =~= events.drop_first().push(ev));
        let next = match events[0] {
            SessionEvent::Bytes(head) => spec_builder_feed(b, head),
            SessionEvent::Resized(rows) => resized_builder(b, rows),
        };
        assert(fold_events(b, events.push(ev)) == fold_events(next, events.drop_first().push(ev)));
        assert(fold_events(b, events) == fold_events(next, events.drop_first()));
        lemma_fold_events_snoc_bytes(next, events.drop_first(), chunk);
    }
}

#[verifier::rlimit(100)]
proof fn lemma_fold_events_snoc_resized(b: BuilderView, events: Seq<SessionEvent>, rows: u16)
    ensures
        fold_events(b, events.push(SessionEvent::Resized(rows))) == resized_builder(
            fold_events(b, events),
            rows,
        ),
    decreases events.len(),
{
    let ev = SessionEvent::Resized(rows);
    if events.len() == 0 {
        assert(events.push(ev)[0] == ev);
        assert(events.push(ev).drop_first() =~= Seq::<SessionEvent>::empty());
        assert(fold_events(b, events) == b);
        assert(fold_events(resized_builder(b, rows), events.push(ev).drop_first())
            == resized_builder(b, rows));
        assert(fold_events(b, events.push(ev)) == resized_builder(b, rows));
    } else {
        assert(events.push(ev)[0] == events[0]);
        assert(events.push(ev).drop_first() =~= events.drop_first().push(ev));
        let next = match events[0] {
            SessionEvent::Bytes(head) => spec_builder_feed(b, head),
            SessionEvent::Resized(r) => resized_builder(b, r),
        };
        assert(fold_events(b, events.push(ev)) == fold_events(next, events.drop_first().push(ev)));
        assert(fold_events(b, events) == fold_events(next, events.drop_first()));
        lemma_fold_events_snoc_resized(next, events.drop_first(), rows);
    }
}

proof fn lemma_event_bytes_snoc_bytes(events: Seq<SessionEvent>, chunk: Seq<u8>)
    ensures
        event_bytes(events.push(SessionEvent::Bytes(chunk))) == event_bytes(events) + chunk,
    decreases events.len(),
{
    let ev = SessionEvent::Bytes(chunk);
    if events.len() == 0 {
        assert(events.push(ev)[0] == ev);
        assert(events.push(ev).drop_first() =~= Seq::<SessionEvent>::empty());
        assert(event_bytes(events) =~= Seq::<u8>::empty());
        assert(event_bytes(events.push(ev).drop_first()) =~= Seq::<u8>::empty());
        assert(event_bytes(events.push(ev)) =~= event_bytes(events) + chunk);
    } else {
        assert(events.push(ev)[0] == events[0]);
        assert(events.push(ev).drop_first() =~= events.drop_first().push(ev));
        lemma_event_bytes_snoc_bytes(events.drop_first(), chunk);
        assert(event_bytes(events.push(ev)) =~= event_bytes(events) + chunk);
    }
}

proof fn lemma_event_bytes_snoc_resized(events: Seq<SessionEvent>, rows: u16)
    ensures
        event_bytes(events.push(SessionEvent::Resized(rows))) == event_bytes(events),
    decreases events.len(),
{
    let ev = SessionEvent::Resized(rows);
    if events.len() == 0 {
        assert(events.push(ev)[0] == ev);
        assert(events.push(ev).drop_first() =~= Seq::<SessionEvent>::empty());
        assert(event_bytes(events) =~= Seq::<u8>::empty());
        assert(event_bytes(events.push(ev).drop_first()) =~= Seq::<u8>::empty());
        assert(event_bytes(events.push(ev)) =~= event_bytes(events));
    } else {
        assert(events.push(ev)[0] == events[0]);
        assert(events.push(ev).drop_first() =~= events.drop_first().push(ev));
        lemma_event_bytes_snoc_resized(events.drop_first(), rows);
        assert(event_bytes(events.push(ev)) =~= event_bytes(events));
    }
}

/// One agent's live session.
pub struct Session {
    pub agent_name: String,
    pub tool: String,
    pub worktree_path: String,
    pub size: PtySize,
    pub history: HistoryRing,
    pub builder: SnapshotBuilder,
    pub subscribers: Vec<Subscriber>,
    pub next_subscriber_id: u64,
    pub stream: Ghost<Seq<u8>>,
    pub init_rows: Ghost<u16>,
    pub events: Ghost<Seq<SessionEvent>>,
}

/// Everything an ATTACH response carries besides the passed descriptor:
/// the snapshot and the history bytes, cut at one linearization point,
/// and the id under which the new subscriber was registered.
pub struct AttachReply {
    pub snapshot: TerminalSnapshot,
    pub history: Vec<u8>,
    pub subscriber_id: u64,
}

/// Well-formedness of a session: the parser state is exactly the fold of
/// the session's events (its chunks and resizes, whose byte parts
/// concatenate to the stream — so history, snapshot and subscribers all
/// speak of one and the same stream), the history is a suffix of that
/// stream, and every subscriber has been delivered exactly the stream
/// since its attach.
pub open spec fn session_wf(s: Session) -> bool {
    &&& s.builder@ == fold_events(initial_builder_view(s.init_rows@), s.events@)
    &&& event_bytes(s.events@) == s.stream@
    &&& s.history.contents().len() <= s.stream@.len()
    &&& s.history.contents() == s.stream@.skip(s.stream@.len() - s.history.contents().len())
    &&& forall|i: int|
        0 <= i < s.subscribers@.len() ==> {
            &&& 0 <= (#[trigger] s.subscribers@[i])@.attach_offset <= s.stream@.len()
            &&& s.subscribers@[i]@.delivered == s.stream@.skip(s.subscribers@[i]@.attach_offset)
        }
}

/// The subscriber list after one fanout of `chunk` with the given write
/// results: subscribers written successfully are kept with the chunk
/// appended to what they observed; the others are removed.
pub open spec fn spec_fanout(
    subs: Seq<SubscriberView>,
    ok: Seq<bool>,
    chunk: Seq<u8>,
) -> Seq<SubscriberView>
    decreases subs.len(),
{
    if subs.len() == 0 {
        Seq::empty()
    } else {
        let rest = spec_fanout(subs.drop_first(), ok.drop_first(), chunk);
        if ok.len() > 0 && ok[0] {
            seq![
                SubscriberView {
                    id: subs[0].id,
                    attach_offset: subs[0].attach_offset,
                    delivered: subs[0].delivered + chunk,
                },
            ] + rest
        } else {
            rest
        }
    }
}

impl Session {
    /// A fresh session: empty history with the given limit, default
    /// snapshot, no subscribers, empty stream.
    pub fn new(
        agent_name: String,
        tool: String,
        worktree_path: String,
        size: PtySize,
        history_limit: usize,
    ) -> (r: Session)
        ensures
            session_wf(r),
            r.agent_name@ == agent_name@,
            r.tool@ == tool@,
            r.worktree_path@ == worktree_path@,
            r.size == size,
            r.history.contents() == Seq::<u8>::empty(),
            r.history.limit == history_limit,
            r.builder@ == initial_builder_view(size.rows),
            r.next_subscriber_id == 0,
            r.subscribers@.len() == 0,
            r.stream@ == Seq::<u8>::empty(),
            r.events@ == Seq::<SessionEvent>::empty(),
            r.init_rows@ == size.rows,
    {
        let r = Session {
            agent_name,
            tool,
            worktree_path,
            size,
            history: HistoryRing::new(history_limit),
            builder: SnapshotBuilder::new(size.rows),
            subscribers: Vec::new(),
            next_subscriber_id: 0,
            stream: Ghost(Seq::empty()),
            init_rows: Ghost(size.rows),
            events: Ghost(Seq::empty()),
        };
        proof {
            assert(r.stream@.skip(0) =~= Seq::<u8>::empty());
            assert(event_bytes(r.events@) =~= Seq::<u8>::empty());
        }
        r
    }

    /// One reader iteration: append the chunk to history (trimming at a
    /// safe boundary), feed it to the snapshot parser, and record the
    /// fanout outcome, removing every subscriber whose write failed.
    /// `write_ok[i]` reports whether the write of the whole chunk to
    /// subscriber `i` succeeded.
    #[verifier::rlimit(100)]
    pub fn apply_chunk(&mut self, chunk: &[u8], write_ok: &Vec<bool>)
        requires
            session_wf(*old(self)),
            write_ok@.len() == old(self).subscribers@.len(),
        ensures
            session_wf(*final(self)),
            final(self).stream@ == old(self).stream@ + chunk@,
            final(self).history.contents() == ring_append(old(self).history.contents(), chunk@,
                old(self).history.limit as int),
            final(self).history.limit == old(self).history.limit,
            final(self).builder@ == spec_builder_feed(old(self).builder@, chunk@),
            subscriber_views(final(self).subscribers@) == spec_fanout(subscriber_views(old(
                self,
            ).subscribers@), write_ok@, chunk@),
            final(self).agent_name == old(self).agent_name,
            final(self).tool == old(self).tool,
            final(self).worktree_path == old(self).worktree_path,
            final(self).size == old(self).size,
            final(self).next_subscriber_id == old(self).next_subscriber_id,
            final(self).events@ == old(self).events@.push(SessionEvent::Bytes(chunk@)),
            final(self).init_rows == old(self).init_rows,
    {
        let ghost old_stream = self.stream@;
        self.stream = Ghost(self.stream@ + chunk@);
        self.events = Ghost(self.events@.push(SessionEvent::Bytes(chunk@)));
        self.history.append(chunk);
        self.builder.feed_bytes(chunk);
        proof {
            lemma_fold_events_snoc_bytes(
                initial_builder_view(old(self).init_rows@),
                old(self).events@,
                chunk@,
            );
            lemma_event_bytes_snoc_bytes(old(self).events@, chunk@);
            assert(self.builder@ == fold_events(
                initial_builder_view(self.init_rows@),
                self.events@,
            ));
            assert(event_bytes(self.events@) == self.stream@);
            let old_hist = old(self).history.contents();
            let drop = old_stream.len() - old_hist.len();
            assert(old_stream.skip(drop) + chunk@ =~= (old_stream + chunk@).skip(drop));
            let all = old_hist + chunk@;
            let new_hist = self.history.contents();
            if all.len() > self.history.limit {
                let p = crate::history::safe_start(all, all.len() - self.history.limit);
                crate::history::lemma_safe_start_is_cut(all, all.len() - self.history.limit);
                assert(new_hist == all.skip(p));
                assert(all.skip(p) =~= (old_stream + chunk@).skip(drop + p));
            } else {
                assert(new_hist == all);
                assert(all =~= (old_stream + chunk@).skip(drop));
            }
            assert(new_hist == self.stream@.skip(self.stream@.len() - new_hist.len()));
        }
        let n: usize = self.subscribers.len();
        let mut kept: Vec<Subscriber> = Vec::new();
        let ghost old_subs = subscriber_views(self.subscribers@);
        let ghost oks = write_ok@;
        let mut i: usize = 0;
        proof {
            lemma_fanout_skip_base(old_subs, oks, chunk@);
        }
        while i < n
            invariant
                i <= n,
                n == self.subscribers@.len(),
                n == write_ok@.len(),
                old_subs == subscriber_views(self.subscribers@),
                oks == write_ok@,
                spec_fanout(old_subs, oks, chunk@) == subscriber_views(kept@) + spec_fanout(
                    old_subs.skip(i as int),
                    oks.skip(i as int),
                    chunk@,
                ),
            decreases n - i,
        {
            if write_ok[i] {
                let sub = self.subscribers[i];
                let updated = Subscriber {
                    id: sub.id,
                    attach_offset: sub.attach_offset,
                    delivered: Ghost(sub.delivered@ + chunk@),
                };
                kept.push(updated);
                proof {
                    assert(subscriber_views(kept@) =~= subscriber_views(kept@.drop_last()).push(
                        updated@,
                    ));
                }
            }
            proof {
                assert(old_subs.skip(i as int)[0] == old_subs[i as int]);
                assert(old_subs.skip(i as int).drop_first() =~= old_subs.skip(i as int + 1));
                assert(oks.skip(i as int).drop_first() =~= oks.skip(i as int + 1));
                assert(oks.skip(i as int)[0] == oks[i as int]);
                assert(spec_fanout(old_subs, oks, chunk@) =~= subscriber_views(kept@)
                    + spec_fanout(old_subs.skip(i as int + 1), oks.skip(i as int + 1), chunk@));
            }
            i = i + 1;
        }
        proof {
            assert(old_subs.skip(n as int) =~= Seq::<SubscriberView>::empty());
            assert(oks.skip(n as int) =~= Seq::<bool>::empty());
        }
        self.subscribers = kept;
        proof {
            assert(subscriber_views(self.subscribers@) =~= spec_fanout(old_subs, oks, chunk@));
            lemma_fanout_wf(old_subs, oks, chunk@, old_stream);
            assert forall|k: int| 0 <= k < self.subscribers@.len() implies {
                &&& 0 <= (#[trigger] self.subscribers@[k])@.attach_offset <= self.stream@.len()
                &&& self.subscribers@[k]@.delivered == self.stream@.skip(
                    self.subscribers@[k]@.attach_offset,
                )
            } by {
                assert(subscriber_views(self.subscribers@)[k] == self.subscribers@[k]@);
            }
        }
    }

    /// Become a subscriber at the current linearization point: the reply
    /// carries the history bytes and the snapshot cut at the same instant,
    /// and the new subscriber observes exactly the bytes from here on.
    pub fn attach(&mut self) -> (reply: AttachReply)
        requires
            session_wf(*old(self)),
            old(self).next_subscriber_id < u64::MAX,
        ensures
            session_wf(*final(self)),
            reply.history@ == old(self).history.contents(),
            reply.snapshot@ == old(self).builder@.snapshot,
            reply.subscriber_id == old(self).next_subscriber_id,
            final(self).subscribers@.len() == old(self).subscribers@.len() + 1,
            final(self).subscribers@.drop_last() == old(self).subscribers@,
            final(self).subscribers@.last()@.id == reply.subscriber_id,
            final(self).subscribers@.last()@.attach_offset == old(self).stream@.len(),
            final(self).subscribers@.last()@.delivered == Seq::<u8>::empty(),
            final(self).next_subscriber_id == old(self).next_subscriber_id + 1,
            final(self).stream == old(self).stream,
            final(self).events == old(self).events,
            final(self).init_rows == old(self).init_rows,
            final(self).history == old(self).history,
            final(self).builder == old(self).builder,
            final(self).agent_name == old(self).agent_name,
            final(self).tool == old(self).tool,
            final(self).worktree_path == old(self).worktree_path,
            final(self).size == old(self).size,
    {
        let history = self.history.snapshot_bytes();
        let snapshot = clone_snapshot(&self.builder.snapshot);
        let id = self.next_subscriber_id;
        let sub = Subscriber {
            id,
            attach_offset: Ghost(self.stream@.len() as int),
            delivered: Ghost(Seq::empty()),
        };
        self.subscribers.push(sub);
        self.next_subscriber_id = id + 1;
        proof {
            assert(final(self).subscribers@.drop_last() =~= old(self).subscribers@);
            assert(self.stream@.skip(self.stream@.len() as int) =~= Seq::<u8>::empty());
        }
        AttachReply { snapshot, history, subscriber_id: id }
    }

    /// Record new PTY dimensions and clear the snapshot's scroll region,
    /// as a resize invalidates any margins latched for the old height;
    /// later set-margin sequences validate against the new height.
    pub fn resize(&mut self, cols: u16, rows: u16)
        requires
            session_wf(*old(self)),
        ensures
            session_wf(*final(self)),
            final(self).size == (PtySize { rows, cols }),
            final(self).builder@ == (crate::builder::BuilderView {
                snapshot: SnapshotView { scroll_region: None, ..old(self).builder@.snapshot },
                rows,
                ..old(self).builder@
            }),
            final(self).history == old(self).history,
            final(self).stream == old(self).stream,
            final(self).subscribers == old(self).subscribers,
            final(self).agent_name == old(self).agent_name,
            final(self).tool == old(self).tool,
            final(self).worktree_path == old(self).worktree_path,
            final(self).next_subscriber_id == old(self).next_subscriber_id,
            final(self).events@ == old(self).events@.push(SessionEvent::Resized(rows)),
            final(self).init_rows == old(self).init_rows,
    {
        self.builder.snapshot.scroll_region = None;
        self.builder.rows = rows;
        self.size = PtySize { rows, cols };
        proof {
            self.events@ = self.events@.push(SessionEvent::Resized(rows));
            lemma_fold_events_snoc_resized(
                initial_builder_view(old(self).init_rows@),
                old(self).events@,
                rows,
            );
            lemma_event_bytes_snoc_resized(old(self).events@, rows);
            assert(final(self).builder@ =~= (crate::builder::BuilderView {
                snapshot: SnapshotView { scroll_region: None, ..old(self).builder@.snapshot },
                rows,
                ..old(self).builder@
            }));
            assert(final(self).builder@ =~= resized_builder(old(self).builder@, rows));
            assert(final(self).builder@ =~= fold_events(
                initial_builder_view(final(self).init_rows@),
                final(self).events@,
            ));
            assert(event_bytes(final(self).events@) =~= event_bytes(old(self).events@));
        }
    }
}

/// An exact copy of a snapshot.
pub fn clone_snapshot(s: &TerminalSnapshot) -> (r: TerminalSnapshot)
    ensures
        r@ == s@,
{
    let mut dec_private_modes: Vec<crate::snapshot::ModeEntry> = Vec::new();
    let mut i: usize = 0;
    let n: usize = s.dec_private_modes.len();
    while i < n
        invariant
            i <= n,
            n == s.dec_private_modes@.len(),
            dec_private_modes@ == s.dec_private_modes@.subrange(0, i as int),
        decreases n - i,
    {
        dec_private_modes.push(s.dec_private_modes[i]);
        i = i + 1;
        proof {
            assert(s.dec_private_modes@.subrange(0, i as int) =~= s.dec_private_modes@.subrange(
                0,
                i as int - 1,
            ).push(s.dec_private_modes@[i as int - 1]));
        }
    }
    let mut terminal_modes: Vec<crate::snapshot::ModeEntry> = Vec::new();
    let m: usize = s.terminal_modes.len();
    let mut j: usize = 0;
    while j < m
        invariant
            j <= m,
            m == s.terminal_modes@.len(),
            terminal_modes@ == s.terminal_modes@.subrange(0, j as int),
        decreases m - j,
    {
        terminal_modes.push(s.terminal_modes[j]);
        j = j + 1;
        proof {
            assert(s.terminal_modes@.subrange(0, j as int) =~= s.terminal_modes@.subrange(
                0,
                j as int - 1,
            ).push(s.terminal_modes@[j as int - 1]));
        }
    }
    let r = TerminalSnapshot {
        alt_screen: s.alt_screen,
        mouse_tracking: s.mouse_tracking,
        mouse_button_tracking: s.mouse_button_tracking,
        mouse_any_event: s.mouse_any_event,
        mouse_sgr: s.mouse_sgr,
        cursor_visible: s.cursor_visible,
        cursor_shape: s.cursor_shape,
        origin_mode: s.origin_mode,
        wrap_mode: s.wrap_mode,
        insert_mode: s.insert_mode,
        scroll_region: s.scroll_region,
        attributes: s.attributes,
        saved_cursor_main: s.saved_cursor_main,
        saved_cursor_alt: s.saved_cursor_alt,
        dec_private_modes,
        terminal_modes,
    };
    proof {
        assert(s.dec_private_modes@.subrange(0, n as int) =~= s.dec_private_modes@);
        assert(s.terminal_modes@.subrange(0, m as int) =~= s.terminal_modes@);
        assert(r@ =~= s@);
    }
    r
}

proof fn lemma_fanout_skip_base(subs: Seq<SubscriberView>, ok: Seq<bool>, chunk: Seq<u8>)
    ensures
        spec_fanout(subs, ok, chunk) == Seq::<SubscriberView>::empty() + spec_fanout(subs.skip(0),
            ok.skip(0), chunk),
{
    assert(subs.skip(0) =~= subs);
    assert(ok.skip(0) =~= ok);
    assert(Seq::<SubscriberView>::empty() + spec_fanout(subs, ok, chunk) =~= spec_fanout(subs, ok,
        chunk));
}

proof fn lemma_fanout_wf(subs: Seq<SubscriberView>, ok: Seq<bool>, chunk: Seq<u8>, stream: Seq<u8>)
    requires
        ok.len() == subs.len(),
        forall|i: int|
            0 <= i < subs.len() ==> {
                &&& 0 <= (#[trigger] subs[i]).attach_offset <= stream.len()
                &&& subs[i].delivered == stream.skip(subs[i].attach_offset)
            },
    ensures
        forall|k: int|
            0 <= k < spec_fanout(subs, ok, chunk).len() ==> {
                &&& 0 <= (#[trigger] spec_fanout(subs, ok, chunk)[k]).attach_offset <= (stream
                    + chunk).len()
                &&& spec_fanout(subs, ok, chunk)[k].delivered == (stream + chunk).skip(
                    spec_fanout(subs, ok, chunk)[k].attach_offset,
                )
            },
    decreases subs.len(),
{
    if subs.len() > 0 {
        let rest = spec_fanout(subs.drop_first(), ok.drop_first(), chunk);
        assert(forall|i: int|
            0 <= i < subs.drop_first().len() ==> subs.drop_first()[i] == subs[i + 1]);
        lemma_fanout_wf(subs.drop_first(), ok.drop_first(), chunk, stream);
        if ok[0] {
            let off = subs[0].attach_offset;
            assert(stream.skip(off) + chunk =~= (stream + chunk).skip(off));
            let full = spec_fanout(subs, ok, chunk);
            assert(full[0].delivered == subs[0].delivered + chunk);
            assert(forall|k: int| 1 <= k < full.len() ==> full[k] == rest[k - 1]);
        }
    }
}

/// The fanout law: a subscriber whose write succeeded stays and has then
/// observed exactly every byte of the stream since its attach, the new
/// chunk included; a subscriber whose write failed is removed, and what
/// it observed is a prefix of the stream since its attach.
pub proof fn lemma_fanout_observation(
    subs: Seq<SubscriberView>,
    ok: Seq<bool>,
    chunk: Seq<u8>,
    stream: Seq<u8>,
)
    requires
        ok.len() == subs.len(),
        forall|i: int|
            0 <= i < subs.len() ==> {
                &&& 0 <= (#[trigger] subs[i]).attach_offset <= stream.len()
                &&& subs[i].delivered == stream.skip(subs[i].attach_offset)
            },
    ensures
        forall|i: int|
            0 <= i < subs.len() && ok[i] ==> spec_fanout(subs, ok, chunk).contains(
                SubscriberView {
                    id: (#[trigger] subs[i]).id,
                    attach_offset: subs[i].attach_offset,
                    delivered: (stream + chunk).skip(subs[i].attach_offset),
                },
            ),
        forall|i: int|
            0 <= i < subs.len() && !ok[i] ==> (#[trigger] subs[i]).delivered.is_prefix_of(
                (stream + chunk).skip(subs[i].attach_offset),
            ),
    decreases subs.len(),
{
    if subs.len() > 0 {
        assert(forall|i: int|
            0 <= i < subs.drop_first().len() ==> subs.drop_first()[i] == subs[i + 1]);
        lemma_fanout_observation(subs.drop_first(), ok.drop_first(), chunk, stream);
        let full = spec_fanout(subs, ok, chunk);
        let rest = spec_fanout(subs.drop_first(), ok.drop_first(), chunk);
        assert forall|i: int| 0 <= i < subs.len() && ok[i] implies full.contains(
            SubscriberView {
                id: subs[i].id,
                attach_offset: subs[i].attach_offset,
                delivered: (stream + chunk).skip(subs[i].attach_offset),
            },
        ) by {
            let target = SubscriberView {
                id: subs[i].id,
                attach_offset: subs[i].attach_offset,
                delivered: (stream + chunk).skip(subs[i].attach_offset),
            };
            if i == 0 {
                assert(stream.skip(subs[0].attach_offset) + chunk =~= (stream + chunk).skip(
                    subs[0].attach_offset,
                ));
                assert(full[0] =~= target);
                assert(full.contains(target));
            } else {
                assert(subs.drop_first()[i - 1] == subs[i]);
                assert(ok.drop_first()[i - 1] == ok[i]);
                assert(rest.contains(
                    SubscriberView {
                        id: subs.drop_first()[i - 1].id,
                        attach_offset: subs.drop_first()[i - 1].attach_offset,
                        delivered: (stream + chunk).skip(subs.drop_first()[i - 1].attach_offset),
                    },
                ));
                let j = choose|j: int| 0 <= j < rest.len() && rest[j] == target;
                if ok[0] {
                    assert(full[j + 1] == rest[j]);
                } else {
                    assert(full[j] == rest[j]);
                }
                assert(full.contains(target));
            }
        }
        assert forall|i: int| 0 <= i < subs.len() && !ok[i] implies subs[i].delivered.is_prefix_of(
            (stream + chunk).skip(subs[i].attach_offset),
        ) by {
            let off = subs[i].attach_offset;
            assert(stream.skip(off) + chunk =~= (stream + chunk).skip(off));
            assert(subs[i].delivered.is_prefix_of(subs[i].delivered + chunk));
        }
    } else {
        assert forall|i: int| 0 <= i < subs.len() && !ok[i] implies subs[i].delivered.is_prefix_of(
            (stream + chunk).skip(subs[i].attach_offset),
        ) by {}
    }
}

} // verus!
