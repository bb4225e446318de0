//! The sockets of the tiers, one each. A dropped socket is opened again and its recorded streams are
//! subscribed again; what was last heard on each stream is kept across the outage, so that the first
//! message after it shows the hole.

use vstd::hash_map::StringHashMap;
use vstd::prelude::*;

use crate::venue::stream::{
    is_hole, stream_text, Gap, StreamChannel, StreamMessage, StreamTier, Subscription,
};
use crate::venue::ws::{WsConnection, WsConnector, WsError, WsPoll};

verus! {

/// A stream: its instrument and channel.
pub type StreamId = (Seq<char>, StreamChannel);

/// What one call of [`ConnectionRegistry::pump`] produced.
#[derive(Debug)]
pub struct PumpOutcome {
    /// The message, if there was one.
    pub message: Option<StreamMessage>,
    /// The hole in front of the message, if there is one.
    pub gap: Option<Gap>,
    /// Whether the tier's socket was opened again.
    pub reconnected: bool,
}

/// A message with its texts as sequences.
pub struct MessageModel {
    /// The stream it came on.
    pub stream: StreamId,
    /// When the venue sent it.
    pub event_time_ms: i64,
    /// What it says.
    pub payload: Seq<char>,
}

impl View for StreamMessage {
    type V = MessageModel;

    open spec fn view(&self) -> MessageModel {
        MessageModel {
            stream: self.subscription@,
            event_time_ms: self.event_time_ms,
            payload: self.payload@,
        }
    }
}

/// A hole with its text as a sequence.
pub struct GapModel {
    /// The name of the stream.
    pub stream: Seq<char>,
    /// The time of the last message before it.
    pub from_ms: i64,
    /// The time of the first message after it.
    pub to_ms: i64,
}

impl View for Gap {
    type V = GapModel;

    open spec fn view(&self) -> GapModel {
        GapModel { stream: self.stream@, from_ms: self.from_ms, to_ms: self.to_ms }
    }
}

/// A [`PumpOutcome`] with its texts as sequences.
pub struct OutcomeModel {
    /// The message.
    pub message: Option<MessageModel>,
    /// The hole.
    pub gap: Option<GapModel>,
    /// Whether the socket was opened again.
    pub reconnected: bool,
}

impl View for PumpOutcome {
    type V = OutcomeModel;

    open spec fn view(&self) -> OutcomeModel {
        OutcomeModel {
            message: match self.message {
                Some(m) => Some(m@),
                None => None,
            },
            gap: match self.gap {
                Some(g) => Some(g@),
                None => None,
            },
            reconnected: self.reconnected,
        }
    }
}

/// The outcome that nothing happened.
pub open spec fn quiet() -> OutcomeModel {
    OutcomeModel { message: None, gap: None, reconnected: false }
}

/// The outcome that the socket was opened again.
pub open spec fn reopened() -> OutcomeModel {
    OutcomeModel { message: None, gap: None, reconnected: true }
}

impl Default for PumpOutcome {
    fn default() -> (r: PumpOutcome)
        ensures
            r@ == quiet(),
    {
        PumpOutcome { message: None, gap: None, reconnected: false }
    }
}

/// What is kept of a tier whatever becomes of its socket.
pub struct TierModel {
    /// The recorded streams, in the order in which they were first asked for.
    pub subs: Seq<StreamId>,
    /// When each stream was last heard, by its name.
    pub last_event_ms: Map<Seq<char>, i64>,
}

/// A tier on which nothing was asked for yet.
pub open spec fn empty_tier() -> TierModel {
    TierModel { subs: Seq::empty(), last_event_ms: Map::empty() }
}

/// The recorded streams with `more` added, each once.
pub open spec fn recorded(subs: Seq<StreamId>, more: Seq<StreamId>) -> Seq<StreamId>
    decreases more.len(),
{
    if more.len() == 0 {
        subs
    } else {
        let before = recorded(subs, more.drop_last());
        if before.contains(more.last()) {
            before
        } else {
            before.push(more.last())
        }
    }
}

/// The hole a message shows, if it shows one.
pub open spec fn hole_before(t: TierModel, m: MessageModel) -> Option<GapModel> {
    let name = stream_text(m.stream);
    if t.last_event_ms.contains_key(name) && is_hole(
        m.stream.1.cadence(),
        t.last_event_ms[name] as int,
        m.event_time_ms as int,
    ) {
        Some(
            GapModel { stream: name, from_ms: t.last_event_ms[name], to_ms: m.event_time_ms },
        )
    } else {
        None
    }
}

/// What a message does to the tier, and the outcome it gives.
pub open spec fn received(t: TierModel, m: MessageModel) -> (TierModel, OutcomeModel) {
    (
        TierModel {
            last_event_ms: t.last_event_ms.insert(stream_text(m.stream), m.event_time_ms),
            ..t
        },
        OutcomeModel { message: Some(m), gap: hole_before(t, m), reconnected: false },
    )
}

/// The streams of some subscriptions.
pub open spec fn stream_ids(subs: Seq<Subscription>) -> Seq<StreamId> {
    Seq::new(subs.len(), |i: int| subs[i]@)
}

/// The records of one tier.
pub struct TierBook {
    subs: Vec<Subscription>,
    last_event_ms: StringHashMap<i64>,
}

impl View for TierBook {
    type V = TierModel;

    closed spec fn view(&self) -> TierModel {
        TierModel { subs: stream_ids(self.subs@), last_event_ms: self.last_event_ms@ }
    }
}

impl TierBook {
    /// The records of a tier on which nothing was asked for yet.
    pub fn new() -> (r: TierBook)
        ensures
            r@ == empty_tier(),
    {
        let r = TierBook { subs: Vec::new(), last_event_ms: StringHashMap::new() };
        assert(r@.subs =~= Seq::empty());
        r
    }

    /// The recorded streams.
    pub fn subs(&self) -> (r: &[Subscription])
        ensures
            stream_ids(r@) == self@.subs,
    {
        self.subs.as_slice()
    }

    /// Whether a stream is recorded.
    fn holds(&self, sub: &Subscription) -> (r: bool)
        ensures
            r == self@.subs.contains(sub@),
    {
        let mut i: usize = 0;
        while i < self.subs.len()
            invariant
                i <= self.subs.len(),
                forall|j: int| 0 <= j < i ==> #[trigger] self@.subs[j] != sub@,
            decreases self.subs.len() - i,
        {
            if self.subs[i].same(sub) {
                assert(self@.subs[i as int] == sub@);
                return true;
            }
            i = i + 1;
        }
        false
    }

    /// Records streams, each once.
    pub fn record(&mut self, subs: &[Subscription])
        ensures
            final(self)@.subs == recorded(old(self)@.subs, stream_ids(subs@)),
            final(self)@.last_event_ms == old(self)@.last_event_ms,
    {
        let ghost all = stream_ids(subs@);
        let ghost before = self@;
        let mut i: usize = 0;
        assert(all.take(0) =~= Seq::empty());
        while i < subs.len()
            invariant
                i <= subs.len(),
                all == stream_ids(subs@),
                self@.subs == recorded(before.subs, all.take(i as int)),
                self@.last_event_ms == before.last_event_ms,
            decreases subs.len() - i,
        {
            let ghost so_far = self@;
            assert(all.take(i + 1).drop_last() =~= all.take(i as int));
            assert(all.take(i + 1).last() == subs@[i as int]@);
            if !self.holds(&subs[i]) {
                self.subs.push(subs[i].clone());
                assert(self@.subs =~= so_far.subs.push(subs@[i as int]@));
            }
            i = i + 1;
        }
        assert(all.take(i as int) =~= all);
    }

    /// Takes a message: remembers when it came, and reports it with the hole it shows.
    pub fn receive(&mut self, message: StreamMessage) -> (r: PumpOutcome)
        ensures
            (final(self)@, r@) == received(old(self)@, message@),
    {
        let stream: String = message.subscription.stream_name();
        let gap: Option<Gap> = match self.last_event_ms.get(stream.as_str()) {
            Some(last) => match message.subscription.channel.cadence_ms() {
                Some(cadence) => {
                    if message.event_time_ms as i128 - *last as i128 > cadence as i128 {
                        Some(
                            Gap {
                                stream: stream.clone(),
                                from_ms: *last,
                                to_ms: message.event_time_ms,
                            },
                        )
                    } else {
                        None
                    }
                },
                None => None,
            },
            None => None,
        };
        self.last_event_ms.insert(stream, message.event_time_ms);
        PumpOutcome { message: Some(message), gap, reconnected: false }
    }
}

/// An open tier. Its socket's type is a parameter, so that a socket is moved in as it is and not coerced
/// to a trait object anew.
struct TierConn<T> {
    conn: T,
    book: TierBook,
}

/// A socket of whatever kind.
type Socket = Box<dyn WsConnection>;

/// The sockets of the tiers.
pub struct ConnectionRegistry<C: WsConnector> {
    connector: C,
    market: Option<TierConn<Socket>>,
    realtime: Option<TierConn<Socket>>,
}

/// What is kept of each tier; `None` for one that is not open.
pub struct RegistryModel {
    /// The market tier.
    pub market: Option<TierModel>,
    /// The realtime tier.
    pub realtime: Option<TierModel>,
}

impl RegistryModel {
    /// What is kept of a tier.
    pub open spec fn at(self, tier: StreamTier) -> Option<TierModel> {
        match tier {
            StreamTier::Market => self.market,
            StreamTier::Realtime => self.realtime,
        }
    }

    /// The registry with one tier replaced.
    pub open spec fn with(self, tier: StreamTier, t: Option<TierModel>) -> RegistryModel {
        match tier {
            StreamTier::Market => RegistryModel { market: t, ..self },
            StreamTier::Realtime => RegistryModel { realtime: t, ..self },
        }
    }
}

spec fn slot_model(slot: Option<TierConn<Socket>>) -> Option<TierModel> {
    match slot {
        Some(conn) => Some(conn.book@),
        None => None,
    }
}

impl<C: WsConnector> View for ConnectionRegistry<C> {
    type V = RegistryModel;

    closed spec fn view(&self) -> RegistryModel {
        RegistryModel { market: slot_model(self.market), realtime: slot_model(self.realtime) }
    }
}

/// What a drop is reported as when the socket was opened again and answered the streams with `answer`.
pub open spec fn resumed(answer: Result<(), WsError>) -> Result<OutcomeModel, WsError> {
    match answer {
        Ok(_) => Ok(reopened()),
        Err(e) => Err(e),
    }
}

/// Computes [`resumed`].
pub fn report_reopening(answer: Result<(), WsError>) -> (r: Result<PumpOutcome, WsError>)
    ensures
        pump_result(r) == resumed(answer),
{
    match answer {
        Ok(_) => Ok(PumpOutcome { message: None, gap: None, reconnected: true }),
        Err(e) => Err(e),
    }
}

/// Whether `after`, the socket `kept` and the result are what an event of the socket `held` of an open
/// tier leads to: nothing, a message, or a drop, after which the connector is asked for another socket,
/// and that for the recorded streams. What is kept of the tier outlasts a drop, whether it was mended or
/// not; a fresh socket takes the place of the dropped one as soon as it is open.
pub open spec fn is_pumped<C: WsConnector>(
    connector: C,
    tier: StreamTier,
    before: TierModel,
    held: int,
    event: WsPoll,
    after: TierModel,
    kept: int,
    r: Result<OutcomeModel, WsError>,
) -> bool {
    match event {
        WsPoll::Idle => r == Ok::<OutcomeModel, WsError>(quiet()) && after == before && kept == held,
        WsPoll::Message(m) => r == Ok::<OutcomeModel, WsError>(received(before, m@).1) && after
            == received(before, m@).0 && kept == held,
        WsPoll::Disconnected => after == before && exists|
            opened: Result<Box<dyn WsConnection>, WsError>,
        | #[trigger]
            call_ensures(C::connect, (&connector, tier), opened) && match opened {
                Ok(conn) => kept == conn.id() && exists|answer: Result<(), WsError>| #[trigger]
                    conn.may_answer(before.subs, answer) && r == resumed(answer),
                Err(e) => kept == held && r == Err::<OutcomeModel, WsError>(e),
            },
    }
}

/// A result with its outcome's texts as sequences.
pub open spec fn pump_result(r: Result<PumpOutcome, WsError>) -> Result<OutcomeModel, WsError> {
    match r {
        Ok(outcome) => Ok(outcome@),
        Err(e) => Err(e),
    }
}

/// What is kept of a tier after its socket has taken some streams.
pub open spec fn taken_by(t: Option<TierModel>, streams: Seq<StreamId>) -> TierModel {
    match t {
        Some(open) => TierModel { subs: recorded(open.subs, streams), ..open },
        None => TierModel { subs: recorded(Seq::empty(), streams), ..empty_tier() },
    }
}

impl<C: WsConnector> ConnectionRegistry<C> {
    /// What opens the sockets.
    pub closed spec fn connector(self) -> C {
        self.connector
    }

    /// Whether a tier is open, and `event` one that its socket may give when it is asked now.
    pub closed spec fn may_give(self, tier: StreamTier, event: WsPoll) -> bool {
        self.slot(tier) matches Some(open) && open.conn.may_give(event)
    }

    /// Whether a tier is open, and `answer` one that its socket may give when it is asked for these
    /// streams now.
    pub closed spec fn may_answer(
        self,
        tier: StreamTier,
        streams: Seq<StreamId>,
        answer: Result<(), WsError>,
    ) -> bool {
        self.slot(tier) matches Some(open) && open.conn.may_answer(streams, answer)
    }

    /// Which socket a tier has; `None` for one that is not open.
    pub closed spec fn socket(self, tier: StreamTier) -> Option<int> {
        match self.slot(tier) {
            Some(open) => Some(open.conn.id()),
            None => None,
        }
    }

    /// Whether a tier has the same socket in another registry, in the same state as far as it can be
    /// told.
    pub open spec fn same_socket(self, other: ConnectionRegistry<C>, tier: StreamTier) -> bool {
        &&& self.socket(tier) == other.socket(tier)
        &&& forall|event: WsPoll| #[trigger]
            self.may_give(tier, event) == other.may_give(tier, event)
        &&& forall|streams: Seq<StreamId>, answer: Result<(), WsError>| #[trigger]
            self.may_answer(tier, streams, answer) == other.may_answer(tier, streams, answer)
    }

    /// A registry with no tier open.
    pub fn new(connector: C) -> (r: ConnectionRegistry<C>)
        ensures
            r@ == (RegistryModel { market: None, realtime: None }),
            forall|tier: StreamTier| #[trigger] r.socket(tier) is None,
            r.connector() == connector,
    {
        ConnectionRegistry { connector, market: None, realtime: None }
    }

    spec fn slot(self, tier: StreamTier) -> Option<TierConn<Socket>> {
        match tier {
            StreamTier::Market => self.market,
            StreamTier::Realtime => self.realtime,
        }
    }

    fn take_slot(&mut self, tier: StreamTier) -> (r: Option<TierConn<Socket>>)
        ensures
            slot_model(r) == old(self)@.at(tier),
            r == old(self).slot(tier),
            forall|other: StreamTier|
                other != tier ==> #[trigger] final(self).slot(other) == old(self).slot(other),
            final(self)@ == old(self)@.with(tier, None),
            final(self).connector() == old(self).connector(),
    {
        match tier {
            StreamTier::Market => self.market.take(),
            StreamTier::Realtime => self.realtime.take(),
        }
    }

    fn put_slot(&mut self, tier: StreamTier, conn: TierConn<Socket>)
        ensures
            final(self)@ == old(self)@.with(tier, Some(conn.book@)),
            final(self).slot(tier) == Some(conn),
            forall|other: StreamTier|
                other != tier ==> #[trigger] final(self).slot(other) == old(self).slot(other),
            final(self).connector() == old(self).connector(),
    {
        match tier {
            StreamTier::Market => {
                self.market = Some(conn);
            },
            StreamTier::Realtime => {
                self.realtime = Some(conn);
            },
        }
    }

    /// Subscribes to streams on a tier, whose socket is opened where it is not. The streams are
    /// recorded when the socket has taken them; the other tier is left alone.
    ///
    /// What the connector and the socket answer is theirs to say, and what the socket answers to these
    /// streams is returned. Where the socket cannot be opened the registry is unchanged; where it is
    /// open and refuses, it stays open and records nothing.
    pub fn subscribe(&mut self, tier: StreamTier, subs: &[Subscription]) -> (r: Result<(), WsError>)
        ensures
            final(self).connector() == old(self).connector(),
            forall|other: StreamTier|
                other != tier ==> #[trigger] final(self).same_socket(*old(self), other),
            old(self)@.at(tier) is Some ==> old(self).may_answer(tier, stream_ids(subs@), r),
            r is Ok ==> final(self)@ == old(self)@.with(
                tier,
                Some(taken_by(old(self)@.at(tier), stream_ids(subs@))),
            ),
            r is Err && old(self)@.at(tier) is Some ==> final(self)@ == old(self)@,
            old(self)@.at(tier) is Some ==> final(self).socket(tier) is Some
                && final(self).socket(tier) == old(self).socket(tier),
            old(self)@.at(tier) is None ==> exists|opened: Result<Box<dyn WsConnection>, WsError>|
                #[trigger] call_ensures(C::connect, (&old(self).connector(), tier), opened)
                    && match opened {
                    Err(e) => r == Err::<(), WsError>(e) && final(self)@ == old(self)@
                        && final(self).socket(tier) is None,
                    Ok(conn) => conn.may_answer(stream_ids(subs@), r) && final(self).socket(tier)
                        == Some(conn.id()) && (r is Err ==> final(self)@ == old(self)@.with(
                        tier,
                        Some(empty_tier()),
                    )),
                },
    {
        let mut entry: TierConn<Socket> = match self.take_slot(tier) {
            Some(open) => open,
            None => {
                let opened: Result<Socket, WsError> = self.connector.connect(tier);
                let ghost offered = opened;
                assert(call_ensures(C::connect, (&self.connector, tier), offered));
                match opened {
                    Ok(conn) => {
                        let entry = TierConn { conn, book: TierBook::new() };
                        entry
                    },
                    Err(e) => {
                        return Err(e);
                    },
                }
            },
        };
        let answer: Result<(), WsError> = entry.conn.subscribe(subs);
        if answer.is_ok() {
            entry.book.record(subs);
        }
        self.put_slot(tier, entry);
        answer
    }

    /// Asks a tier's socket for its next event. A message is handed on with the hole it shows; a drop
    /// has the socket opened again and the recorded streams subscribed again. A tier that is not open
    /// gives nothing.
    ///
    /// Which event comes is the socket's to say, and so is what a fresh one answers when it is asked for
    /// the recorded streams; the other tier and its socket are left alone.
    pub fn pump(&mut self, tier: StreamTier) -> (r: Result<PumpOutcome, WsError>)
        ensures
            final(self).connector() == old(self).connector(),
            forall|other: StreamTier|
                other != tier ==> #[trigger] final(self).same_socket(*old(self), other),
            old(self)@.at(tier) is None ==> pump_result(r) == Ok::<OutcomeModel, WsError>(quiet())
                && final(self)@ == old(self)@ && final(self).socket(tier) is None,
            old(self)@.at(tier) matches Some(before) ==> (old(self).socket(tier) matches Some(held)
                && final(self)@.at(tier) matches Some(after)
                && final(self).socket(tier) matches Some(kept)
                && final(self)@ == old(self)@.with(tier, Some(after)) && exists|event: WsPoll|
                #[trigger] old(self).may_give(tier, event) && is_pumped(
                    old(self).connector(),
                    tier,
                    before,
                    held,
                    event,
                    after,
                    kept,
                    pump_result(r),
                )),
    {
        let mut entry: TierConn<Socket> = match self.take_slot(tier) {
            Some(open) => open,
            None => {
                return Ok(PumpOutcome::default());
            },
        };
        let ghost before = entry.book@;
        let ghost held = entry.conn.id();
        let event: WsPoll = entry.conn.poll();
        let ghost given = event;
        assert(old(self).may_give(tier, given));
        match event {
            WsPoll::Idle => {
                self.put_slot(tier, entry);
                let r: Result<PumpOutcome, WsError> = Ok(PumpOutcome::default());
                assert(is_pumped(self.connector, tier, before, held, given, before, held, pump_result(r)));
                r
            },
            WsPoll::Message(message) => {
                let r: Result<PumpOutcome, WsError> = Ok(entry.book.receive(message));
                let ghost after = entry.book@;
                self.put_slot(tier, entry);
                assert(is_pumped(self.connector, tier, before, held, given, after, held, pump_result(r)));
                r
            },
            WsPoll::Disconnected => {
                let opened: Result<Socket, WsError> = self.connector.connect(tier);
                let ghost offered = opened;
                assert(call_ensures(C::connect, (&self.connector, tier), offered));
                match opened {
                    Err(e) => {
                        self.put_slot(tier, entry);
                        let r: Result<PumpOutcome, WsError> = Err(e);
                        assert(is_pumped(
                            self.connector,
                            tier,
                            before,
                            held,
                            given,
                            before,
                            held,
                            pump_result(r),
                        ));
                        r
                    },
                    Ok(fresh) => {
                        let TierConn { conn: _, book } = entry;
                        let mut entry = TierConn { conn: fresh, book };
                        let answer: Result<(), WsError> = entry.conn.subscribe(entry.book.subs());
                        let ghost reply = answer;
                        assert(offered->Ok_0.may_answer(before.subs, reply));
                        self.put_slot(tier, entry);
                        let r: Result<PumpOutcome, WsError> = report_reopening(answer);
                        assert(is_pumped(
                            self.connector,
                            tier,
                            before,
                            held,
                            given,
                            before,
                            offered->Ok_0.id(),
                            pump_result(r),
                        ));
                        r
                    },
                }
            },
        }
    }

    /// The open tiers, the market tier first.
    pub fn active_tiers(&self) -> (r: Vec<StreamTier>)
        ensures
            r@ == (if self@.market is Some {
                seq![StreamTier::Market]
            } else {
                Seq::empty()
            }) + (if self@.realtime is Some {
                seq![StreamTier::Realtime]
            } else {
                Seq::empty()
            }),
    {
        let mut out: Vec<StreamTier> = Vec::new();
        if self.market.is_some() {
            out.push(StreamTier::Market);
        }
        if self.realtime.is_some() {
            out.push(StreamTier::Realtime);
        }
        out
    }

    /// The recorded streams of a tier; none for one that is not open.
    pub fn subscriptions(&self, tier: StreamTier) -> (r: Vec<Subscription>)
        ensures
            stream_ids(r@) == (match self@.at(tier) {
                Some(t) => t.subs,
                None => Seq::empty(),
            }),
    {
        let slot = match tier {
            StreamTier::Market => &self.market,
            StreamTier::Realtime => &self.realtime,
        };
        let mut out: Vec<Subscription> = Vec::new();
        match slot {
            Some(open) => {
                let subs = open.book.subs();
                let ghost all = stream_ids(subs@);
                let mut i: usize = 0;
                while i < subs.len()
                    invariant
                        i <= subs.len(),
                        all == stream_ids(subs@),
                        stream_ids(out@) =~= all.take(i as int),
                    decreases subs.len() - i,
                {
                    let ghost so_far = stream_ids(out@);
                    out.push(subs[i].clone());
                    assert(stream_ids(out@) =~= so_far.push(subs@[i as int]@));
                    i = i + 1;
                }
                assert(stream_ids(out@) =~= all);
            },
            None => {
                assert(stream_ids(out@) =~= Seq::empty());
            },
        }
        out
    }
}

/// Recording streams keeps those recorded before, at their places, adds the others, and keeps each
/// once.
pub proof fn law_streams_are_recorded_once(subs: Seq<StreamId>, more: Seq<StreamId>)
    requires
        subs.no_duplicates(),
    ensures
        recorded(subs, more).no_duplicates(),
        subs.is_prefix_of(recorded(subs, more)),
        forall|s: StreamId|
            recorded(subs, more).contains(s) <==> subs.contains(s) || more.contains(s),
    decreases more.len(),
{
    let all = recorded(subs, more);
    if more.len() == 0 {
        assert(all == subs);
    } else {
        let before = recorded(subs, more.drop_last());
        let x = more.last();
        law_streams_are_recorded_once(subs, more.drop_last());
        assert forall|s: StreamId| all.contains(s) <==> subs.contains(s) || more.contains(s) by {
            assert(more =~= more.drop_last().push(x));
            assert(more.contains(s) <==> more.drop_last().contains(s) || s == x) by {
                if more.contains(s) {
                    let i = choose|i: int| 0 <= i < more.len() && more[i] == s;
                    if i < more.len() - 1 {
                        assert(more.drop_last()[i] == s);
                    }
                }
                if more.drop_last().contains(s) {
                    let i = choose|i: int|
                        0 <= i < more.drop_last().len() && more.drop_last()[i] == s;
                    assert(more[i] == s);
                }
                assert(more[more.len() - 1] == x);
            }
            if !before.contains(x) {
                if before.contains(s) {
                    let i = choose|i: int| 0 <= i < before.len() && before[i] == s;
                    assert(all[i] == s);
                }
                assert(all[all.len() - 1] == x);
                if all.contains(s) {
                    let i = choose|i: int| 0 <= i < all.len() && all[i] == s;
                    if i < before.len() {
                        assert(before[i] == s);
                    }
                }
            }
        }
    }
}

/// What is asked of one tier never shows on the other.
pub proof fn law_tiers_are_apart(r: RegistryModel, tier: StreamTier, t: Option<TierModel>)
    ensures
        r.with(tier, t).at(tier) == t,
        r.with(tier, t).at(
            match tier {
                StreamTier::Market => StreamTier::Realtime,
                StreamTier::Realtime => StreamTier::Market,
            },
        ) == r.at(
            match tier {
                StreamTier::Market => StreamTier::Realtime,
                StreamTier::Realtime => StreamTier::Market,
            },
        ),
{
}

/// An outage shows: where a stream with a spacing was heard at `last.event_time_ms`, and the next
/// message on it, whatever happened to the socket in between, comes more than one spacing later, that
/// message reports the hole between the two.
pub proof fn law_outage_is_reported(t: TierModel, last: MessageModel, next: MessageModel)
    requires
        last.stream == next.stream,
        next.stream.1.cadence() matches Some(ms) && next.event_time_ms - last.event_time_ms > ms,
    ensures
        received(received(t, last).0, next).1.gap == Some(
            GapModel {
                stream: stream_text(next.stream),
                from_ms: last.event_time_ms,
                to_ms: next.event_time_ms,
            },
        ),
{
}

/// A message on another stream hides no hole.
pub proof fn law_streams_are_watched_apart(t: TierModel, m: MessageModel, other: MessageModel)
    requires
        stream_text(m.stream) != stream_text(other.stream),
    ensures
        hole_before(received(t, other).0, m) == hole_before(t, m),
{
}

/// An event shows for what it was: nothing while the socket is idle; a message as it came, which moves its own
/// stream's clock and no record; and a drop that was mended as a reopening without a message, after which
/// the tier's records are what they were.
pub proof fn law_events_show_for_what_they_were<C: WsConnector>(
    connector: C,
    tier: StreamTier,
    before: TierModel,
    held: int,
    event: WsPoll,
    after: TierModel,
    kept: int,
    r: Result<OutcomeModel, WsError>,
)
    requires
        is_pumped(connector, tier, before, held, event, after, kept, r),
    ensures
        after.subs == before.subs,
        event is Idle ==> r is Ok && r->Ok_0.message is None && r->Ok_0.gap is None
            && !r->Ok_0.reconnected && after == before && kept == held,
        event matches WsPoll::Message(m) ==> r is Ok && r->Ok_0.message == Some(m@)
            && !r->Ok_0.reconnected && kept == held && after.last_event_ms.contains_key(
            stream_text(m@.stream),
        ) && after.last_event_ms[stream_text(m@.stream)] == m@.event_time_ms,
        event is Disconnected ==> after == before && (r is Ok ==> r->Ok_0.message is None
            && r->Ok_0.gap is None && r->Ok_0.reconnected),
{
}

/// A tier that takes more streams keeps those it has, at their places, and their clocks, and holds every
/// stream that it took; one that was not open starts without a clock.
pub proof fn law_taking_streams_keeps_the_tier(
    t: Option<TierModel>,
    streams: Seq<StreamId>,
    stream: StreamId,
)
    requires
        t matches Some(open) ==> open.subs.no_duplicates(),
    ensures
        t matches Some(open) ==> taken_by(t, streams).last_event_ms == open.last_event_ms
            && open.subs.is_prefix_of(taken_by(t, streams).subs),
        t is None ==> taken_by(t, streams).last_event_ms =~= Map::empty(),
        streams.contains(stream) ==> taken_by(t, streams).subs.contains(stream),
        taken_by(t, streams).subs.no_duplicates(),
{
    match t {
        Some(open) => law_streams_are_recorded_once(open.subs, streams),
        None => law_streams_are_recorded_once(Seq::empty(), streams),
    }
}

} // verus!
