//! The table of sessions with peers: who is dialed, how a session gets its number and its
//! writer, and where a command goes.
use std::collections::HashMap;
use vstd::prelude::*;

use crate::data::{Interval, VerifiedPeerMessage, VerifiedPeerMessageView};

verus! {

broadcast use vstd::std_specs::hash::group_hash_axioms;

/// Names one connection to a peer.
pub type SessionId = u64;

/// Something that happened on a session.
#[derive(Debug, PartialEq, Eq)]
pub struct PeerEvent {
    pub session_id: SessionId,
    pub event_kind: PeerEventKind,
}

#[derive(Debug, PartialEq, Eq)]
pub enum PeerEventKind {
    Connected,
    Disconnected,
    NewMessage(VerifiedPeerMessage),
}

impl Clone for PeerEventKind {
    fn clone(&self) -> (r: Self)
        ensures
            match (*self, r) {
                (PeerEventKind::Connected, PeerEventKind::Connected) => true,
                (PeerEventKind::Disconnected, PeerEventKind::Disconnected) => true,
                (PeerEventKind::NewMessage(a), PeerEventKind::NewMessage(b)) => a@ == b@,
                _ => false,
            },
    {
        match self {
            PeerEventKind::Connected => PeerEventKind::Connected,
            PeerEventKind::Disconnected => PeerEventKind::Disconnected,
            PeerEventKind::NewMessage(message) => PeerEventKind::NewMessage(message.clone()),
        }
    }
}

impl Clone for PeerEvent {
    fn clone(&self) -> (r: Self)
        ensures
            r.session_id == self.session_id,
            match (self.event_kind, r.event_kind) {
                (PeerEventKind::Connected, PeerEventKind::Connected) => true,
                (PeerEventKind::Disconnected, PeerEventKind::Disconnected) => true,
                (PeerEventKind::NewMessage(a), PeerEventKind::NewMessage(b)) => a@ == b@,
                _ => false,
            },
    {
        PeerEvent { session_id: self.session_id, event_kind: self.event_kind.clone() }
    }
}

/// Something to be done on a session.
#[derive(Debug, PartialEq, Eq)]
pub struct PeerCommand {
    pub session_id: SessionId,
    pub command_kind: PeerCommandKind,
}

#[derive(Debug, PartialEq, Eq)]
pub enum PeerCommandKind {
    SendMessage(VerifiedPeerMessage),
    Drop,
}

pub struct PeerCommandView {
    pub session_id: SessionId,
    pub command_kind: PeerCommandKindView,
}

pub enum PeerCommandKindView {
    SendMessage(VerifiedPeerMessageView),
    Drop,
}

impl View for PeerCommandKind {
    type V = PeerCommandKindView;

    open spec fn view(&self) -> PeerCommandKindView {
        match self {
            PeerCommandKind::SendMessage(message) => PeerCommandKindView::SendMessage(message@),
            PeerCommandKind::Drop => PeerCommandKindView::Drop,
        }
    }
}

impl View for PeerCommand {
    type V = PeerCommandView;

    open spec fn view(&self) -> PeerCommandView {
        PeerCommandView { session_id: self.session_id, command_kind: self.command_kind@ }
    }
}

/// The view of a command shows all of it: the session that it is for, whether that is to be
/// dropped, and the message that is to be sent if not.
pub proof fn law_command_view_shows_everything(command: PeerCommand)
    ensures
        command@.session_id == command.session_id,
        command@.command_kind is Drop <==> command.command_kind is Drop,
        command@.command_kind is SendMessage <==> command.command_kind is SendMessage,
        command.command_kind is SendMessage ==> command@.command_kind->SendMessage_0
            == command.command_kind->SendMessage_0@,
{
}

impl Clone for PeerCommandKind {
    fn clone(&self) -> (r: Self)
        ensures
            r@ == self@,
            r is Drop <==> self is Drop,
            self is SendMessage ==> r is SendMessage && r->SendMessage_0@ == self->SendMessage_0@,
    {
        match self {
            PeerCommandKind::SendMessage(message) => PeerCommandKind::SendMessage(message.clone()),
            PeerCommandKind::Drop => PeerCommandKind::Drop,
        }
    }
}

impl Clone for PeerCommand {
    fn clone(&self) -> (r: Self)
        ensures
            r@ == self@,
            r.session_id == self.session_id,
            r.command_kind is Drop <==> self.command_kind is Drop,
            self.command_kind is SendMessage ==> r.command_kind is SendMessage
                && r.command_kind->SendMessage_0@ == self.command_kind->SendMessage_0@,
    {
        PeerCommand { session_id: self.session_id, command_kind: self.command_kind.clone() }
    }
}

#[derive(Debug, PartialEq, Eq)]
pub struct PeerServiceConfig {
    /// How long to wait after a failed attempt to connect before the next one.
    pub dial_cooldown: Interval,
    /// The peers to connect to.
    pub dial_addresses: Vec<String>,
    /// Where to listen for peers.
    pub listen_address: Option<String>,
}

impl Default for PeerServiceConfig {
    fn default() -> (r: Self)
        ensures
            r.dial_cooldown.total_nanos() == 0,
            r.dial_cooldown == (Interval { secs: 0, nanos: 0 }),
            r.dial_addresses@.len() == 0,
            r.listen_address is None,
    {
        PeerServiceConfig {
            dial_cooldown: Interval::default(),
            dial_addresses: Vec::new(),
            listen_address: None,
        }
    }
}

/// The sessions that have a writer, and the number of the next session.
#[verifier::reject_recursive_types(W)]
pub struct SessionTable<W> {
    pub writers: Map<SessionId, W>,
    pub next_session: SessionId,
}

/// The session number after `session_id`. Past the largest one they start over.
pub open spec fn session_after(session_id: SessionId) -> SessionId {
    if session_id == u64::MAX {
        0
    } else {
        (session_id + 1) as u64
    }
}

impl<W> SessionTable<W> {
    /// No session yet.
    pub open spec fn empty() -> Self {
        SessionTable { writers: Map::empty(), next_session: 0 }
    }

    /// The next session has `writer`.
    pub open spec fn open(self, writer: W) -> Self {
        SessionTable {
            writers: self.writers.insert(self.next_session, writer),
            next_session: session_after(self.next_session),
        }
    }

    /// Session `session_id` has no writer any more.
    pub open spec fn drop_writer(self, session_id: SessionId) -> Self {
        SessionTable { writers: self.writers.remove(session_id), next_session: self.next_session }
    }
}

/// What follows an attempt to connect to a peer.
#[derive(Debug, PartialEq, Eq)]
pub enum DialOutcome {
    /// A session was opened; this is the event to announce.
    Opened(PeerEvent),
    /// Wait so long, then try the same peer again.
    RetryAfter(Interval),
}

/// The sessions of a node, each with the handle `W` by which messages reach its writer.
#[verifier::reject_recursive_types(W)]
pub struct PeerService<W> {
    config: PeerServiceConfig,
    session_writers: HashMap<SessionId, W>,
    next_session: SessionId,
    dialed: usize,
}

impl<W> View for PeerService<W> {
    type V = SessionTable<W>;

    closed spec fn view(&self) -> SessionTable<W> {
        SessionTable { writers: self.session_writers@, next_session: self.next_session }
    }
}

impl<W> PeerService<W> {
    pub closed spec fn config(&self) -> PeerServiceConfig {
        self.config
    }

    /// How many of the peers to connect to have been reached.
    pub closed spec fn dialed(&self) -> nat {
        self.dialed as nat
    }

    /// A service without sessions, which has dialed nobody.
    pub fn new(config: PeerServiceConfig) -> (r: Self)
        ensures
            r.config() == config,
            r@ == SessionTable::<W>::empty(),
            r@.writers == Map::<SessionId, W>::empty(),
            r@.next_session == 0,
            r.dialed() == 0,
    {
        PeerService { config, session_writers: HashMap::new(), next_session: 0, dialed: 0 }
    }

    /// Where to listen for peers.
    pub fn listen_address(&self) -> (r: &Option<String>)
        ensures
            *r == self.config().listen_address,
    {
        &self.config.listen_address
    }

    /// Enters a new connection with the handle of its writer. The event announces the session.
    pub fn open_session(&mut self, writer: W) -> (event: PeerEvent)
        ensures
            final(self)@ == old(self)@.open(writer),
            final(self)@.writers == old(self)@.writers.insert(old(self)@.next_session, writer),
            old(self)@.next_session < u64::MAX ==> final(self)@.next_session
                == old(self)@.next_session + 1,
            old(self)@.next_session == u64::MAX ==> final(self)@.next_session == 0,
            final(self).config() == old(self).config(),
            final(self).dialed() == old(self).dialed(),
            event == (PeerEvent {
                session_id: old(self)@.next_session,
                event_kind: PeerEventKind::Connected,
            }),
    {
        let session_id: SessionId = self.next_session;
        self.next_session = session_id.wrapping_add(1);
        self.session_writers.insert(session_id, writer);
        PeerEvent { session_id, event_kind: PeerEventKind::Connected }
    }

    /// The peer to connect to next, if there is one left.
    pub fn dial_target(&self) -> (r: Option<&String>)
        ensures
            r == if self.dialed() < self.config().dial_addresses@.len() {
                Some(&self.config().dial_addresses@[self.dialed() as int])
            } else {
                None::<&String>
            },
    {
        if self.dialed < self.config.dial_addresses.len() {
            Some(&self.config.dial_addresses[self.dialed])
        } else {
            None
        }
    }

    /// Takes the outcome of an attempt to connect to [`Self::dial_target`]: the handle of the
    /// new connection's writer, or none if the attempt failed.
    pub fn connect_to_peer(&mut self, connection: Option<W>) -> (r: DialOutcome)
        requires
            old(self).dialed() < old(self).config().dial_addresses@.len(),
        ensures
            final(self).config() == old(self).config(),
            match connection {
                Some(writer) => {
                    &&& final(self)@ == old(self)@.open(writer)
                    &&& final(self)@.writers == old(self)@.writers.insert(
                        old(self)@.next_session,
                        writer,
                    )
                    &&& old(self)@.next_session < u64::MAX ==> final(self)@.next_session
                        == old(self)@.next_session + 1
                    &&& old(self)@.next_session == u64::MAX ==> final(self)@.next_session == 0
                    &&& final(self).dialed() == old(self).dialed() + 1
                    &&& r == DialOutcome::Opened(
                        PeerEvent {
                            session_id: old(self)@.next_session,
                            event_kind: PeerEventKind::Connected,
                        },
                    )
                },
                None => {
                    &&& final(self)@ == old(self)@
                    &&& final(self).dialed() == old(self).dialed()
                    &&& r == DialOutcome::RetryAfter(old(self).config().dial_cooldown)
                },
            },
    {
        match connection {
            Some(writer) => {
                assert(self.config.dial_addresses.len() <= usize::MAX);
                self.dialed = self.dialed + 1;
                DialOutcome::Opened(self.open_session(writer))
            },
            None => DialOutcome::RetryAfter(self.config.dial_cooldown),
        }
    }

    /// Carries a command out on the table. A message is returned with the handle it has to be
    /// put into; it goes nowhere if its session has no writer.
    pub fn handle_command(&mut self, command: PeerCommand) -> (r: Option<(&W, VerifiedPeerMessage)>)
        ensures
            final(self).config() == old(self).config(),
            final(self).dialed() == old(self).dialed(),
            match command.command_kind {
                PeerCommandKind::SendMessage(message) => {
                    &&& final(self)@ == old(self)@
                    &&& r == if old(self)@.writers.contains_key(command.session_id) {
                        Some((&old(self)@.writers[command.session_id], message))
                    } else {
                        None
                    }
                },
                PeerCommandKind::Drop => {
                    &&& final(self)@ == old(self)@.drop_writer(command.session_id)
                    &&& final(self)@.writers == old(self)@.writers.remove(command.session_id)
                    &&& final(self)@.next_session == old(self)@.next_session
                    &&& r is None
                },
            },
    {
        match command.command_kind {
            PeerCommandKind::SendMessage(message) => {
                match self.session_writers.get(&command.session_id) {
                    Some(writer) => Some((writer, message)),
                    None => None,
                }
            },
            PeerCommandKind::Drop => {
                self.session_writers.remove(&command.session_id);
                None
            },
        }
    }
}

/// To open a session gives its writer to the number that is next, and to no other, and moves on
/// to the number behind it. To drop a writer takes it from its session, and from no other, and
/// gives out no number.
pub proof fn law_table_changes_in_one_place<W>(
    table: SessionTable<W>,
    writer: W,
    session_id: SessionId,
    other: SessionId,
)
    ensures
        SessionTable::<W>::empty().writers == Map::<SessionId, W>::empty(),
        SessionTable::<W>::empty().next_session == 0,
        table.open(writer).writers.contains_key(other) <==> other == table.next_session
            || table.writers.contains_key(other),
        table.open(writer).writers[table.next_session] == writer,
        other != table.next_session && table.writers.contains_key(other) ==> table.open(
            writer,
        ).writers[other] == table.writers[other],
        table.open(writer).next_session == (table.next_session + 1) % 0x1_0000_0000_0000_0000,
        table.drop_writer(session_id).writers.contains_key(other) <==> other != session_id
            && table.writers.contains_key(other),
        other != session_id && table.writers.contains_key(other) ==> table.drop_writer(
            session_id,
        ).writers[other] == table.writers[other],
        table.drop_writer(session_id).next_session == table.next_session,
{
}

/// A change of the table of sessions.
#[verifier::reject_recursive_types(W)]
pub enum TableChange<W> {
    /// A session was opened with this writer.
    Open(W),
    /// The writer of this session was dropped.
    Drop(SessionId),
}

/// The table after `changes`, from the start on.
pub open spec fn table_after<W>(changes: Seq<TableChange<W>>) -> SessionTable<W>
    decreases changes.len(),
{
    if changes.len() == 0 {
        SessionTable::empty()
    } else {
        let table = table_after(changes.drop_last());
        match changes.last() {
            TableChange::Open(writer) => table.open(writer),
            TableChange::Drop(session_id) => table.drop_writer(session_id),
        }
    }
}

/// How many sessions were opened.
pub open spec fn opened<W>(changes: Seq<TableChange<W>>) -> nat
    decreases changes.len(),
{
    if changes.len() == 0 {
        0
    } else {
        opened(changes.drop_last()) + if changes.last() is Open {
            1nat
        } else {
            0nat
        }
    }
}

/// How many sessions can be told apart.
pub open spec fn session_count() -> nat {
    0x1_0000_0000_0000_0000
}

/// Sessions are numbered in the order in which they are opened.
pub proof fn law_sessions_are_counted<W>(changes: Seq<TableChange<W>>)
    ensures
        table_after(changes).next_session == opened(changes) % session_count(),
    decreases changes.len(),
{
    if changes.len() > 0 {
        law_sessions_are_counted(changes.drop_last());
        let n = opened(changes.drop_last());
        assert((n + 1) % session_count() == if n % session_count() == u64::MAX {
            0
        } else {
            n % session_count() + 1
        });
    }
}

proof fn lemma_opened_grows<W>(changes: Seq<TableChange<W>>, i: int)
    requires
        0 <= i <= changes.len(),
    ensures
        opened(changes.take(i)) <= opened(changes),
    decreases changes.len(),
{
    if i == changes.len() {
        assert(changes.take(i) =~= changes);
    } else {
        lemma_opened_grows(changes.drop_last(), i);
        assert(changes.drop_last().take(i) =~= changes.take(i));
    }
}

/// A session keeps the writer it was opened with until that is dropped, whatever other
/// sessions do, as long as numbers do not start over.
pub proof fn law_session_keeps_its_writer<W>(
    changes: Seq<TableChange<W>>,
    i: int,
    session_id: SessionId,
    writer: W,
)
    requires
        0 <= i < changes.len(),
        changes[i] == TableChange::Open(writer),
        session_id == opened(changes.take(i)),
        forall|j: int| i < j < changes.len() ==> #[trigger] changes[j] != TableChange::<W>::Drop(session_id),
        opened(changes) <= session_count(),
    ensures
        table_after(changes).writers.contains_key(session_id),
        table_after(changes).writers[session_id] == writer,
    decreases changes.len(),
{
    let before = changes.drop_last();
    law_sessions_are_counted(before);
    if i == changes.len() - 1 {
        assert(changes.take(i) =~= before);
    } else {
        assert(before.take(i) =~= changes.take(i));
        law_session_keeps_its_writer(before, i, session_id, writer);
        lemma_opened_grows(before, i + 1);
        assert(before.take(i + 1).drop_last() =~= before.take(i));
        assert(before.take(i + 1).last() == changes[i]);
        assert(opened(before) > session_id);
        assert(changes[changes.len() - 1] == changes.last());
    }
}

/// Once its writer is dropped, a session has none, as long as its number is not given out
/// again.
pub proof fn law_dropped_session_has_no_writer<W>(
    changes: Seq<TableChange<W>>,
    i: int,
    session_id: SessionId,
)
    requires
        0 <= i < changes.len(),
        changes[i] == TableChange::<W>::Drop(session_id),
        forall|j: int|
            i < j < changes.len() && #[trigger] changes[j] is Open ==> opened(changes.take(j))
                % session_count() != session_id,
    ensures
        !table_after(changes).writers.contains_key(session_id),
    decreases changes.len(),
{
    let before = changes.drop_last();
    law_sessions_are_counted(before);
    if i < changes.len() - 1 {
        assert forall|j: int|
            i < j < before.len() && #[trigger] before[j] is Open implies opened(before.take(j))
            % session_count() != session_id by {
            assert(changes[j] is Open);
            assert(before.take(j) =~= changes.take(j));
        }
        law_dropped_session_has_no_writer(before, i, session_id);
        assert(changes.take(changes.len() - 1) =~= before);
        assert(changes[changes.len() - 1] == changes.last());
    }
}

} // verus!
