//! The private stream of an account: fills, position reports and heartbeats, under a key the venue
//! issues and lets expire. A dropped stream or an expired key is answered by a fresh key, a fresh
//! socket and a fresh position snapshot, so that what is known of the positions survives the outage.

use vstd::prelude::*;

use crate::decimal::Dec;
use crate::domain::{Direction, InstrumentId, Price, Qty, Side};

verus! {

/// The key that names a private stream.
#[derive(Debug, PartialEq, Eq, Hash)]
pub struct ListenKey {
    key: String,
}

impl View for ListenKey {
    type V = Seq<char>;

    closed spec fn view(&self) -> Seq<char> {
        self.key@
    }
}

impl ListenKey {
    /// The key `key`.
    pub fn new(key: String) -> (r: ListenKey)
        ensures
            r@ == key@,
    {
        ListenKey { key }
    }

    /// The key as text.
    pub fn as_str(&self) -> (r: &str)
        ensures
            r@ == self@,
    {
        self.key.as_str()
    }
}

impl Clone for ListenKey {
    fn clone(&self) -> (r: ListenKey)
        ensures
            r@ == self@,
    {
        ListenKey { key: self.key.clone() }
    }
}

/// Why the private stream failed.
#[derive(Debug, PartialEq, Eq)]
pub enum UserDataError {
    /// The key could not be made or kept alive.
    ListenKey(String),
    /// The socket could not be opened.
    Connect(String),
    /// The positions could not be read.
    Snapshot(String),
}

/// A fill of an order.
#[derive(Debug, Clone, PartialEq, Eq)]
pub struct Fill {
    /// The instrument.
    pub instrument: InstrumentId,
    /// Bought or sold.
    pub side: Side,
    /// At what price.
    pub price: Price,
    /// How much.
    pub qty: Qty,
    /// The venue's number of the order.
    pub order_id: u64,
    /// The venue's number of the trade.
    pub trade_id: u64,
    /// When, in milliseconds since the epoch.
    pub event_time_ms: i64,
}

/// The position in one instrument.
#[derive(Debug, PartialEq, Eq)]
pub struct PositionReport {
    /// The instrument.
    pub instrument: InstrumentId,
    /// Which way; `None` when flat.
    pub direction: Option<Direction>,
    /// How much; zero when flat.
    pub qty: Qty,
    /// The average entry price; zero when flat.
    pub entry_price: Price,
    /// When, in milliseconds since the epoch.
    pub event_time_ms: i64,
}

/// A [`PositionReport`] with its values taken apart.
pub struct ReportModel {
    /// The instrument.
    pub instrument: Seq<char>,
    /// Which way.
    pub direction: Option<Direction>,
    /// How much.
    pub qty: Dec,
    /// The average entry price.
    pub entry_price: Dec,
    /// When.
    pub event_time_ms: i64,
}

impl View for PositionReport {
    type V = ReportModel;

    open spec fn view(&self) -> ReportModel {
        ReportModel {
            instrument: self.instrument@,
            direction: self.direction,
            qty: self.qty@,
            entry_price: self.entry_price@,
            event_time_ms: self.event_time_ms,
        }
    }
}

impl Clone for PositionReport {
    fn clone(&self) -> (r: PositionReport)
        ensures
            r@ == self@,
    {
        PositionReport {
            instrument: self.instrument.clone(),
            direction: self.direction,
            qty: self.qty,
            entry_price: self.entry_price,
            event_time_ms: self.event_time_ms,
        }
    }
}

/// Every position of an account at one instant.
#[derive(Debug, PartialEq, Eq)]
pub struct PositionSnapshot {
    /// One report for each instrument in which there is a position.
    pub positions: Vec<PositionReport>,
    /// When, in milliseconds since the epoch.
    pub event_time_ms: i64,
}

/// The reports of a snapshot and when it was taken.
pub type SnapshotModel = (Seq<ReportModel>, i64);

/// Reports with their values taken apart.
pub open spec fn report_models(reports: Seq<PositionReport>) -> Seq<ReportModel> {
    Seq::new(reports.len(), |i: int| reports[i]@)
}

impl View for PositionSnapshot {
    type V = SnapshotModel;

    open spec fn view(&self) -> SnapshotModel {
        (report_models(self.positions@), self.event_time_ms)
    }
}

impl Clone for PositionSnapshot {
    fn clone(&self) -> (r: PositionSnapshot)
        ensures
            r@ == self@,
    {
        let mut positions: Vec<PositionReport> = Vec::new();
        let ghost all = report_models(self.positions@);
        let mut i: usize = 0;
        while i < self.positions.len()
            invariant
                i <= self.positions.len(),
                all == report_models(self.positions@),
                report_models(positions@) =~= all.take(i as int),
            decreases self.positions.len() - i,
        {
            let ghost so_far = report_models(positions@);
            positions.push(self.positions[i].clone());
            assert(report_models(positions@) =~= so_far.push(self.positions@[i as int]@));
            i = i + 1;
        }
        assert(report_models(positions@) =~= all);
        PositionSnapshot { positions, event_time_ms: self.event_time_ms }
    }
}

/// An event of the private stream.
#[derive(Debug, Clone, PartialEq, Eq)]
pub enum UserDataEvent {
    /// A fill.
    Fill(Fill),
    /// The position in one instrument.
    Position(PositionReport),
    /// A sign of life.
    Heartbeat {
        /// When, in milliseconds since the epoch.
        event_time_ms: i64,
    },
    /// The key has expired.
    ListenKeyExpired {
        /// When, in milliseconds since the epoch.
        event_time_ms: i64,
    },
    /// Every position, read anew.
    Snapshot(PositionSnapshot),
}

/// What asking the socket for its next event gives.
#[derive(Debug, Clone, PartialEq, Eq)]
pub enum UserDataPoll {
    /// An event.
    Event(UserDataEvent),
    /// The socket has dropped.
    Disconnected,
    /// Nothing right now.
    Idle,
}

/// Makes keys and keeps them alive.
pub trait ListenKeyProvider {
    /// A fresh key.
    fn create(&self) -> Result<ListenKey, UserDataError>;

    /// Keeps `key` from expiring.
    fn keepalive(&self, key: &ListenKey) -> Result<(), UserDataError>;
}

/// Opens sockets for keys.
pub trait UserDataConnector {
    /// A fresh socket for `key`.
    fn connect(&self, key: &ListenKey) -> Result<Box<dyn UserDataConnection>, UserDataError>;
}

/// The socket of a private stream. What it gives is the venue's to say; `may_give` names it. An
/// implementation may narrow it to what it knows of its socket, and says nothing otherwise.
pub trait UserDataConnection {
    /// Which socket this is. Using a socket does not make it another one.
    open spec fn id(&self) -> int {
        0
    }

    /// Whether `event` is one that the socket may give when it is asked now.
    open spec fn may_give(&self, event: UserDataPoll) -> bool {
        true
    }

    /// The next event.
    fn poll(&mut self) -> (r: UserDataPoll)
        ensures
            old(self).may_give(r),
            final(self).id() == old(self).id(),
    ;
}

/// Reads the positions of the account.
pub trait PositionSnapshotSource {
    /// Every position, now.
    fn snapshot(&self) -> Result<PositionSnapshot, UserDataError>;
}

/// What one call of [`UserDataSession::pump`] produced.
#[derive(Debug)]
pub struct UserDataOutcome {
    /// The event, if there was one.
    pub event: Option<UserDataEvent>,
    /// Whether the stream was established anew; the event then is the fresh snapshot.
    pub reconnected: bool,
}

impl Default for UserDataOutcome {
    fn default() -> (r: UserDataOutcome)
        ensures
            r == (UserDataOutcome { event: None, reconnected: false }),
    {
        UserDataOutcome { event: None, reconnected: false }
    }
}

/// What an event of the socket calls for.
pub enum Reaction {
    /// Nothing.
    Wait,
    /// Handing the event on.
    Deliver(UserDataEvent),
    /// A fresh key, socket and snapshot.
    Renew,
}

/// What an event of the socket calls for: a drop and an expired key call for a renewal, every other
/// event is handed on as it is.
pub open spec fn reaction_to(poll: UserDataPoll) -> Reaction {
    match poll {
        UserDataPoll::Idle => Reaction::Wait,
        UserDataPoll::Disconnected => Reaction::Renew,
        UserDataPoll::Event(UserDataEvent::ListenKeyExpired { .. }) => Reaction::Renew,
        UserDataPoll::Event(event) => Reaction::Deliver(event),
    }
}

/// Computes [`reaction_to`].
pub fn react(poll: UserDataPoll) -> (r: Reaction)
    ensures
        r == reaction_to(poll),
{
    match poll {
        UserDataPoll::Idle => Reaction::Wait,
        UserDataPoll::Disconnected => Reaction::Renew,
        UserDataPoll::Event(event) => match event {
            UserDataEvent::ListenKeyExpired { .. } => Reaction::Renew,
            other => Reaction::Deliver(other),
        },
    }
}

/// An established stream. Its socket's type is a parameter, so that a socket is moved in as it is and not
/// coerced to a trait object anew.
struct Live<T> {
    key: ListenKey,
    conn: T,
}

/// A socket of whatever kind.
type Socket = Box<dyn UserDataConnection>;

/// An established stream: its key, and which socket it comes in on.
pub struct StreamModel {
    /// The key.
    pub key: Seq<char>,
    /// The socket.
    pub socket: int,
}

/// A private stream: its key, its socket, and what it takes to establish it anew.
pub struct UserDataSession<
    P: ListenKeyProvider,
    K: UserDataConnector,
    S: PositionSnapshotSource,
> {
    provider: P,
    connector: K,
    snapshots: S,
    live: Option<Live<Socket>>,
}

impl<P: ListenKeyProvider, K: UserDataConnector, S: PositionSnapshotSource> View
    for UserDataSession<P, K, S> {
    type V = Option<StreamModel>;

    /// The stream; `None` before it is first established.
    closed spec fn view(&self) -> Option<StreamModel> {
        match self.live {
            Some(live) => Some(StreamModel { key: live.key@, socket: live.conn.id() }),
            None => None,
        }
    }
}

/// What a renewal that came to `r` is reported as: the fresh snapshot, or what failed.
pub open spec fn renewed(r: Result<PositionSnapshot, UserDataError>) -> Result<
    UserDataOutcome,
    UserDataError,
> {
    match r {
        Ok(snapshot) => Ok(
            UserDataOutcome { event: Some(UserDataEvent::Snapshot(snapshot)), reconnected: true },
        ),
        Err(e) => Err(e),
    }
}

/// Computes [`renewed`].
pub fn report_renewal(r: Result<PositionSnapshot, UserDataError>) -> (outcome: Result<
    UserDataOutcome,
    UserDataError,
>)
    ensures
        outcome == renewed(r),
{
    match r {
        Ok(snapshot) => Ok(
            UserDataOutcome { event: Some(UserDataEvent::Snapshot(snapshot)), reconnected: true },
        ),
        Err(e) => Err(e),
    }
}

/// Whether the stream afterwards and the result are what establishing a stream comes to: the provider
/// makes a key, the connector is handed that key, and the source reads the positions. The first of them
/// that fails says what failed, and leaves the stream as it was; the fresh key and the fresh socket are
/// taken, and the snapshot handed back, when all three have succeeded.
pub open spec fn is_established<
    P: ListenKeyProvider,
    K: UserDataConnector,
    S: PositionSnapshotSource,
>(
    provider: P,
    connector: K,
    snapshots: S,
    before: Option<StreamModel>,
    after: Option<StreamModel>,
    r: Result<PositionSnapshot, UserDataError>,
) -> bool {
    exists|made: Result<ListenKey, UserDataError>| #[trigger]
        call_ensures(P::create, (&provider,), made) && match made {
            Err(e) => after == before && r == Err::<PositionSnapshot, UserDataError>(e),
            Ok(key) => exists|opened: Result<Box<dyn UserDataConnection>, UserDataError>|
                #[trigger] call_ensures(K::connect, (&connector, &key), opened) && match opened {
                    Err(e) => after == before && r == Err::<PositionSnapshot, UserDataError>(e),
                    Ok(conn) => call_ensures(S::snapshot, (&snapshots,), r) && after == (if r is Ok {
                        Some(StreamModel { key: key@, socket: conn.id() })
                    } else {
                        before
                    }),
                },
        }
}

/// Whether the stream afterwards and the result are what an event of the socket leads to: a drop and an
/// expired key to a renewal, every other event to nothing that shows on the stream.
pub open spec fn is_answer<
    P: ListenKeyProvider,
    K: UserDataConnector,
    S: PositionSnapshotSource,
>(
    provider: P,
    connector: K,
    snapshots: S,
    poll: UserDataPoll,
    before: Option<StreamModel>,
    after: Option<StreamModel>,
    r: Result<UserDataOutcome, UserDataError>,
) -> bool {
    match reaction_to(poll) {
        Reaction::Wait => after == before && r == Ok::<UserDataOutcome, UserDataError>(
            UserDataOutcome { event: None, reconnected: false },
        ),
        Reaction::Deliver(event) => after == before && r == Ok::<UserDataOutcome, UserDataError>(
            UserDataOutcome { event: Some(event), reconnected: false },
        ),
        Reaction::Renew => exists|fresh: Result<PositionSnapshot, UserDataError>|
            r == renewed(fresh) && #[trigger] is_established(
                provider,
                connector,
                snapshots,
                before,
                after,
                fresh,
            ),
    }
}

impl<P: ListenKeyProvider, K: UserDataConnector, S: PositionSnapshotSource> UserDataSession<
    P,
    K,
    S,
> {
    /// What makes the keys.
    pub closed spec fn provider(self) -> P {
        self.provider
    }

    /// What opens the sockets.
    pub closed spec fn connector(self) -> K {
        self.connector
    }

    /// What reads the positions.
    pub closed spec fn snapshots(self) -> S {
        self.snapshots
    }

    /// Whether the stream is established, and `event` one that its socket may give when it is asked now.
    pub closed spec fn may_give(self, event: UserDataPoll) -> bool {
        self.live matches Some(live) && live.conn.may_give(event)
    }

    /// Whether the socket of two sessions is in the same state, as far as it can be told.
    pub open spec fn same_socket(self, other: UserDataSession<P, K, S>) -> bool {
        forall|event: UserDataPoll| #[trigger] self.may_give(event) == other.may_give(event)
    }

    /// Whether two sessions are the same but for the stream.
    pub open spec fn same_sources(self, other: UserDataSession<P, K, S>) -> bool {
        &&& self.provider() == other.provider()
        &&& self.connector() == other.connector()
        &&& self.snapshots() == other.snapshots()
    }

    /// A stream that is not established yet.
    pub fn new(provider: P, connector: K, snapshots: S) -> (r: UserDataSession<P, K, S>)
        ensures
            r@ is None,
            r.provider() == provider,
            r.connector() == connector,
            r.snapshots() == snapshots,
    {
        UserDataSession { provider, connector, snapshots, live: None }
    }

    /// Makes a fresh key, opens a socket for it and reads the positions, in this order. Where one of
    /// the three fails, the key and the socket stay as they were.
    fn establish(&mut self) -> (r: Result<PositionSnapshot, UserDataError>)
        ensures
            final(self).same_sources(*old(self)),
            r is Err ==> final(self).same_socket(*old(self)),
            is_established(
                old(self).provider(),
                old(self).connector(),
                old(self).snapshots(),
                old(self)@,
                final(self)@,
                r,
            ),
    {
        let key: ListenKey = match self.provider.create() {
            Ok(key) => key,
            Err(e) => {
                return Err(e);
            },
        };
        let opened: Result<Socket, UserDataError> = self.connector.connect(&key);
        let ghost offered = opened;
        assert(call_ensures(K::connect, (&self.connector, &key), offered));
        let conn = match opened {
            Ok(conn) => conn,
            Err(e) => {
                return Err(e);
            },
        };
        let snapshot: PositionSnapshot = match self.snapshots.snapshot() {
            Ok(snapshot) => snapshot,
            Err(e) => {
                return Err(e);
            },
        };
        let live = Live { key, conn };
        self.live = Some(live);
        Ok(snapshot)
    }

    /// Establishes the stream and hands back the positions.
    ///
    /// What the provider, the connector and the snapshot source answer is theirs to say; the stream
    /// takes the fresh key and socket only when all three have succeeded.
    pub fn connect(&mut self) -> (r: Result<PositionSnapshot, UserDataError>)
        ensures
            final(self).same_sources(*old(self)),
            r is Err ==> final(self).same_socket(*old(self)),
            is_established(
                old(self).provider(),
                old(self).connector(),
                old(self).snapshots(),
                old(self)@,
                final(self)@,
                r,
            ),
    {
        self.establish()
    }

    /// The key of the stream, if it is established.
    pub fn listen_key(&self) -> (r: Option<&ListenKey>)
        ensures
            match r {
                Some(key) => self@ matches Some(stream) && stream.key == key@,
                None => self@ is None,
            },
    {
        match &self.live {
            Some(live) => Some(&live.key),
            None => None,
        }
    }

    /// Keeps the key alive; does nothing where there is none yet.
    pub fn keepalive(&mut self) -> (r: Result<(), UserDataError>)
        ensures
            final(self).same_sources(*old(self)),
            final(self).same_socket(*old(self)),
            final(self)@ == old(self)@,
            match old(self)@ {
                None => r == Ok::<(), UserDataError>(()),
                Some(stream) => exists|key: ListenKey|
                    key@ == stream.key && #[trigger] call_ensures(
                        P::keepalive,
                        (&old(self).provider(), &key),
                        r,
                    ),
            },
    {
        match &self.live {
            Some(live) => {
                let ghost key = live.key;
                let r: Result<(), UserDataError> = self.provider.keepalive(&live.key);
                assert(call_ensures(P::keepalive, (&old(self).provider(), &key), r));
                r
            },
            None => Ok(()),
        }
    }

    /// Asks the socket for its next event and hands it on; a drop and an expired key have the stream
    /// established anew, and the fresh snapshot is handed on in their place. A stream that is not
    /// established gives nothing.
    ///
    /// Which event comes is the socket's to say; [`react`] says what each calls for. A renewal that fails
    /// leaves the stream on the socket it was on.
    pub fn pump(&mut self) -> (r: Result<UserDataOutcome, UserDataError>)
        ensures
            final(self).same_sources(*old(self)),
            old(self)@ is None ==> final(self)@ is None && r == Ok::<UserDataOutcome, UserDataError>(
                UserDataOutcome { event: None, reconnected: false },
            ),
            old(self)@ is Some ==> exists|poll: UserDataPoll| #[trigger]
                old(self).may_give(poll) && is_answer(
                    old(self).provider(),
                    old(self).connector(),
                    old(self).snapshots(),
                    poll,
                    old(self)@,
                    final(self)@,
                    r,
                ),
    {
        let mut live: Live<Socket> = match self.live.take() {
            Some(live) => live,
            None => {
                return Ok(UserDataOutcome::default());
            },
        };
        let poll: UserDataPoll = live.conn.poll();
        let ghost seen = poll;
        assert(old(self).may_give(seen));
        self.live = Some(live);
        assert(self@ == old(self)@);
        let r: Result<UserDataOutcome, UserDataError> = match react(poll) {
            Reaction::Wait => Ok(UserDataOutcome::default()),
            Reaction::Deliver(event) => Ok(
                UserDataOutcome { event: Some(event), reconnected: false },
            ),
            Reaction::Renew => report_renewal(self.establish()),
        };
        assert(is_answer(
            old(self).provider(),
            old(self).connector(),
            old(self).snapshots(),
            seen,
            old(self)@,
            self@,
            r,
        ));
        r
    }
}

/// A drop and an expired key are answered alike, by a renewal, and by nothing less: what comes of it is
/// a fresh snapshot, or the failure to get one.
pub proof fn law_expiry_is_answered_like_a_drop<
    P: ListenKeyProvider,
    K: UserDataConnector,
    S: PositionSnapshotSource,
>(
    provider: P,
    connector: K,
    snapshots: S,
    event_time_ms: i64,
    before: Option<StreamModel>,
    after: Option<StreamModel>,
    r: Result<UserDataOutcome, UserDataError>,
)
    ensures
        is_answer(provider, connector, snapshots, UserDataPoll::Disconnected, before, after, r)
            <==> is_answer(
            provider,
            connector,
            snapshots,
            UserDataPoll::Event(UserDataEvent::ListenKeyExpired { event_time_ms }),
            before,
            after,
            r,
        ),
        is_answer(provider, connector, snapshots, UserDataPoll::Disconnected, before, after, r)
            && r is Ok ==> (r->Ok_0.event matches Some(UserDataEvent::Snapshot(_)))
            && r->Ok_0.reconnected && after is Some,
{
}

/// A renewal that fails leaves the stream as it was, with its key and its socket, so that the next event
/// starts another.
pub proof fn law_failed_renewal_keeps_the_stream<
    P: ListenKeyProvider,
    K: UserDataConnector,
    S: PositionSnapshotSource,
>(
    provider: P,
    connector: K,
    snapshots: S,
    poll: UserDataPoll,
    before: Option<StreamModel>,
    after: Option<StreamModel>,
    r: Result<UserDataOutcome, UserDataError>,
)
    requires
        is_answer(provider, connector, snapshots, poll, before, after, r),
        r is Err,
    ensures
        after == before,
{
}

/// Every other event is handed on as it came, and the stream keeps its key and its socket.
pub proof fn law_events_are_handed_on<
    P: ListenKeyProvider,
    K: UserDataConnector,
    S: PositionSnapshotSource,
>(
    provider: P,
    connector: K,
    snapshots: S,
    event: UserDataEvent,
    before: Option<StreamModel>,
    after: Option<StreamModel>,
    r: Result<UserDataOutcome, UserDataError>,
)
    requires
        !(event is ListenKeyExpired),
        is_answer(
            provider,
            connector,
            snapshots,
            UserDataPoll::Event(event),
            before,
            after,
            r,
        ),
    ensures
        r matches Ok(outcome) && outcome.event == Some(event) && !outcome.reconnected,
        after == before,
{
}

} // verus!
