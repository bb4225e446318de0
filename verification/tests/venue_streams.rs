//! The streams of the venue: names, gaps, reconnects, and the private stream.

use std::cell::RefCell;
use std::collections::HashMap;
use std::rc::Rc;

use quant_engine::decimal::Dec;
use quant_engine::domain::{Direction, InstrumentId, Price, Qty, Resolution, Side};
use quant_engine::venue::registry::{ConnectionRegistry, TierBook};
use quant_engine::venue::sim::Script;
use quant_engine::venue::stream::{
    Gap, StreamChannel, StreamMessage, StreamTier, Subscription, DEPTH20_CADENCE_MS,
};
use quant_engine::venue::userdata::{
    react, Fill, ListenKey, ListenKeyProvider, PositionReport, PositionSnapshot,
    PositionSnapshotSource, Reaction, UserDataConnection, UserDataConnector, UserDataError,
    UserDataEvent, UserDataPoll, UserDataSession,
};
use quant_engine::venue::ws::{WsConnection, WsConnector, WsError, WsPoll};

fn inst() -> InstrumentId {
    InstrumentId::new("BTCUSDT").unwrap()
}

// ---- streams -------------------------------------------------------------------------------------

#[test]
fn cadence_and_stream_names_match_the_venue_forms() {
    assert_eq!(
        StreamChannel::Kline(Resolution::M5).cadence_ms(),
        Some(300_000)
    );
    assert_eq!(
        StreamChannel::Kline(Resolution::H4).cadence_ms(),
        Some(14_400_000)
    );
    assert_eq!(StreamChannel::MarkPrice.cadence_ms(), Some(1_000));

    assert_eq!(
        Subscription::kline(inst(), Resolution::M5).stream_name(),
        "btcusdt@kline_5m"
    );
    assert_eq!(
        Subscription::mark_price(inst()).stream_name(),
        "btcusdt@markPrice@1s"
    );
}

#[test]
fn kline_and_mark_price_are_market_tier() {
    assert_eq!(
        Subscription::kline(inst(), Resolution::M30).tier(),
        StreamTier::Market
    );
    assert_eq!(Subscription::mark_price(inst()).tier(), StreamTier::Market);
}

#[test]
fn realtime_channels_have_venue_correct_stream_names() {
    assert_eq!(
        Subscription::book_ticker(inst()).stream_name(),
        "btcusdt@bookTicker"
    );
    assert_eq!(
        Subscription::depth20(inst()).stream_name(),
        "btcusdt@depth20@100ms"
    );
    assert_eq!(
        Subscription::agg_trade(inst()).stream_name(),
        "btcusdt@aggTrade"
    );
}

#[test]
fn realtime_channels_are_realtime_tier() {
    assert_eq!(
        Subscription::book_ticker(inst()).tier(),
        StreamTier::Realtime
    );
    assert_eq!(Subscription::depth20(inst()).tier(), StreamTier::Realtime);
    assert_eq!(Subscription::agg_trade(inst()).tier(), StreamTier::Realtime);
    assert_eq!(
        Subscription::kline(inst(), Resolution::M5).tier(),
        StreamTier::Market
    );
    assert_eq!(Subscription::mark_price(inst()).tier(), StreamTier::Market);
}

#[test]
fn event_driven_channels_have_no_cadence_but_depth_does() {
    assert_eq!(StreamChannel::BookTicker.cadence_ms(), None);
    assert_eq!(StreamChannel::AggTrade.cadence_ms(), None);
    assert_eq!(
        StreamChannel::Depth20.cadence_ms(),
        Some(DEPTH20_CADENCE_MS)
    );
    assert_eq!(StreamChannel::Depth20.cadence_ms(), Some(100));
}

#[test]
fn suffixes_name_every_resolution() {
    assert_eq!(StreamTier::ALL, [StreamTier::Market, StreamTier::Realtime]);
    assert_eq!(StreamChannel::Kline(Resolution::M15).suffix(), "kline_15m");
    assert_eq!(StreamChannel::Kline(Resolution::D1).suffix(), "kline_1d");
    assert_eq!(StreamChannel::MarkPrice.suffix(), "markPrice@1s");
}

// ---- registry ------------------------------------------------------------------------------------

struct FakeConnection {
    script: RefCell<Vec<WsPoll>>,
    subscribe_calls: Rc<RefCell<usize>>,
    refuse: bool,
}

impl WsConnection for FakeConnection {
    fn subscribe(&mut self, _subs: &[Subscription]) -> Result<(), WsError> {
        *self.subscribe_calls.borrow_mut() += 1;
        if self.refuse {
            Err(WsError::Subscribe("refused".to_owned()))
        } else {
            Ok(())
        }
    }
    fn poll(&mut self) -> WsPoll {
        let mut s = self.script.borrow_mut();
        if s.is_empty() {
            WsPoll::Idle
        } else {
            s.remove(0)
        }
    }
}

struct FakeConnector {
    scripts: RefCell<HashMap<StreamTier, Vec<Vec<WsPoll>>>>,
    connects: Rc<RefCell<HashMap<StreamTier, usize>>>,
    subscribe_calls: Rc<RefCell<usize>>,
    down: Rc<RefCell<bool>>,
    refuse: Rc<RefCell<bool>>,
}

impl FakeConnector {
    fn new() -> Self {
        Self {
            scripts: RefCell::new(HashMap::new()),
            connects: Rc::new(RefCell::new(HashMap::new())),
            subscribe_calls: Rc::new(RefCell::new(0)),
            down: Rc::new(RefCell::new(false)),
            refuse: Rc::new(RefCell::new(false)),
        }
    }

    fn script(&self, tier: StreamTier, polls: Vec<Vec<WsPoll>>) {
        self.scripts.borrow_mut().insert(tier, polls);
    }
}

impl WsConnector for FakeConnector {
    fn connect(&self, tier: StreamTier) -> Result<Box<dyn WsConnection>, WsError> {
        if *self.down.borrow() {
            return Err(WsError::Closed);
        }
        *self.connects.borrow_mut().entry(tier).or_insert(0) += 1;
        let script = self
            .scripts
            .borrow_mut()
            .get_mut(&tier)
            .and_then(|q| if q.is_empty() { None } else { Some(q.remove(0)) })
            .unwrap_or_default();
        Ok(Box::new(FakeConnection {
            script: RefCell::new(script),
            subscribe_calls: Rc::clone(&self.subscribe_calls),
            refuse: *self.refuse.borrow(),
        }))
    }
}

fn msg(sub: &Subscription, t: i64) -> WsPoll {
    WsPoll::Message(StreamMessage {
        subscription: sub.clone(),
        event_time_ms: t,
        payload: format!("p{t}"),
    })
}

#[test]
fn market_and_realtime_tiers_are_partitioned() {
    let connector = FakeConnector::new();
    let connects = Rc::clone(&connector.connects);
    let mut reg = ConnectionRegistry::new(connector);

    let kline = Subscription::kline(inst(), Resolution::M5);
    let mark = Subscription::mark_price(inst());
    reg.subscribe(StreamTier::Market, &[kline.clone(), mark.clone()])
        .unwrap();
    let rt = Subscription::new(
        InstrumentId::new("ETHUSDT").unwrap(),
        StreamChannel::MarkPrice,
    );
    reg.subscribe(StreamTier::Realtime, std::slice::from_ref(&rt))
        .unwrap();

    assert_eq!(
        reg.active_tiers(),
        vec![StreamTier::Market, StreamTier::Realtime]
    );
    assert_eq!(connects.borrow().get(&StreamTier::Market), Some(&1));
    assert_eq!(connects.borrow().get(&StreamTier::Realtime), Some(&1));
    let market_subs = reg.subscriptions(StreamTier::Market);
    assert!(market_subs.contains(&kline) && market_subs.contains(&mark));
    assert!(!market_subs.contains(&rt));
    assert_eq!(reg.subscriptions(StreamTier::Realtime), vec![rt]);
}

#[test]
fn disconnect_reconnects_resubscribes_and_reports_the_gap() {
    let kline = Subscription::kline(inst(), Resolution::M5);
    let connector = FakeConnector::new();
    connector.script(
        StreamTier::Market,
        vec![
            vec![
                msg(&kline, 300_000),
                msg(&kline, 600_000),
                WsPoll::Disconnected,
            ],
            vec![msg(&kline, 1_500_000)],
        ],
    );
    let connects = Rc::clone(&connector.connects);
    let subscribe_calls = Rc::clone(&connector.subscribe_calls);
    let mut reg = ConnectionRegistry::new(connector);
    reg.subscribe(StreamTier::Market, std::slice::from_ref(&kline))
        .unwrap();
    assert_eq!(*subscribe_calls.borrow(), 1);

    let a = reg.pump(StreamTier::Market).unwrap();
    assert_eq!(a.message.unwrap().event_time_ms, 300_000);
    assert!(a.gap.is_none());
    let b = reg.pump(StreamTier::Market).unwrap();
    assert_eq!(b.message.unwrap().event_time_ms, 600_000);
    assert!(b.gap.is_none());

    let r = reg.pump(StreamTier::Market).unwrap();
    assert!(r.reconnected && r.message.is_none() && r.gap.is_none());
    assert_eq!(connects.borrow()[&StreamTier::Market], 2);
    assert_eq!(*subscribe_calls.borrow(), 2);

    let c = reg.pump(StreamTier::Market).unwrap();
    assert_eq!(c.message.unwrap().event_time_ms, 1_500_000);
    let gap = c.gap.expect("a gap across the outage must be reported");
    assert_eq!(gap.from_ms, 600_000);
    assert_eq!(gap.to_ms, 1_500_000);
    assert_eq!(gap.missed_ms(), 900_000);
    assert_eq!(gap.stream, "btcusdt@kline_5m");
}

#[test]
fn contiguous_resume_reports_no_gap() {
    let kline = Subscription::kline(inst(), Resolution::M5);
    let connector = FakeConnector::new();
    connector.script(
        StreamTier::Market,
        vec![
            vec![msg(&kline, 300_000), WsPoll::Disconnected],
            vec![msg(&kline, 600_000)],
        ],
    );
    let mut reg = ConnectionRegistry::new(connector);
    reg.subscribe(StreamTier::Market, &[kline]).unwrap();
    reg.pump(StreamTier::Market).unwrap();
    reg.pump(StreamTier::Market).unwrap();
    let c = reg.pump(StreamTier::Market).unwrap();
    assert_eq!(c.message.unwrap().event_time_ms, 600_000);
    assert!(c.gap.is_none());
}

#[test]
fn in_stream_skip_is_reported_without_a_disconnect() {
    let mark = Subscription::mark_price(inst());
    let connector = FakeConnector::new();
    connector.script(
        StreamTier::Market,
        vec![vec![msg(&mark, 1_000), msg(&mark, 5_000)]],
    );
    let mut reg = ConnectionRegistry::new(connector);
    reg.subscribe(StreamTier::Market, &[mark]).unwrap();
    reg.pump(StreamTier::Market).unwrap();
    let skip = reg.pump(StreamTier::Market).unwrap();
    let gap = skip.gap.expect("an in-stream skip is a gap");
    assert_eq!((gap.from_ms, gap.to_ms), (1_000, 5_000));
    assert!(!skip.reconnected);
}

#[test]
fn pump_on_an_unopened_tier_is_a_noop() {
    let mut reg = ConnectionRegistry::new(FakeConnector::new());
    let out = reg.pump(StreamTier::Realtime).unwrap();
    assert!(out.message.is_none() && out.gap.is_none() && !out.reconnected);
    assert!(reg.active_tiers().is_empty());
    assert!(reg.subscriptions(StreamTier::Market).is_empty());
}

#[test]
fn streams_without_a_cadence_never_show_a_gap() {
    let mut book = TierBook::new();
    let ticker = Subscription::book_ticker(inst());
    let at = |t: i64| StreamMessage {
        subscription: Subscription::book_ticker(inst()),
        event_time_ms: t,
        payload: String::new(),
    };
    assert!(book.receive(at(0)).gap.is_none());
    assert!(book.receive(at(i64::MAX)).gap.is_none());
    book.record(&[ticker.clone(), ticker.clone()]);
    assert_eq!(book.subs().to_vec(), vec![ticker]);
}

#[test]
fn gaps_are_told_apart_by_stream_and_survive_extreme_times() {
    let mut book = TierBook::new();
    let depth = |t: i64| StreamMessage {
        subscription: Subscription::depth20(inst()),
        event_time_ms: t,
        payload: "d".to_owned(),
    };
    let mark = |t: i64| StreamMessage {
        subscription: Subscription::mark_price(inst()),
        event_time_ms: t,
        payload: "m".to_owned(),
    };
    assert!(book.receive(depth(0)).gap.is_none());
    assert!(book.receive(mark(50)).gap.is_none());
    assert!(book.receive(depth(100)).gap.is_none());
    assert_eq!(
        book.receive(depth(201)).gap,
        Some(Gap { stream: "btcusdt@depth20@100ms".to_owned(), from_ms: 100, to_ms: 201 })
    );
    assert!(book.receive(mark(1_050)).gap.is_none());
    assert!(book.receive(mark(i64::MIN)).gap.is_none());
    let wide = book.receive(mark(i64::MAX));
    assert_eq!(wide.gap.map(|g| (g.from_ms, g.to_ms)), Some((i64::MIN, i64::MAX)));
    assert_eq!(wide.message.map(|m| m.payload), Some("m".to_owned()));
}

#[test]
fn subscriptions_are_recorded_once_and_only_when_taken() {
    let kline = Subscription::kline(inst(), Resolution::M5);
    let mark = Subscription::mark_price(inst());
    let connector = FakeConnector::new();
    let down = Rc::clone(&connector.down);
    let refuse = Rc::clone(&connector.refuse);
    let mut reg = ConnectionRegistry::new(connector);

    *down.borrow_mut() = true;
    assert!(matches!(
        reg.subscribe(StreamTier::Market, &[kline.clone()]),
        Err(WsError::Closed)
    ));
    assert!(reg.active_tiers().is_empty());

    *down.borrow_mut() = false;
    *refuse.borrow_mut() = true;
    assert!(matches!(
        reg.subscribe(StreamTier::Realtime, &[kline.clone()]),
        Err(WsError::Subscribe(_))
    ));
    assert_eq!(reg.active_tiers(), vec![StreamTier::Realtime]);
    assert!(reg.subscriptions(StreamTier::Realtime).is_empty());

    *refuse.borrow_mut() = false;
    reg.subscribe(StreamTier::Market, &[kline.clone(), kline.clone()]).unwrap();
    reg.subscribe(StreamTier::Market, &[mark.clone(), kline.clone()]).unwrap();
    assert_eq!(reg.subscriptions(StreamTier::Market), vec![kline, mark]);
}

#[test]
fn a_failed_reconnect_keeps_the_records() {
    let mark = Subscription::mark_price(inst());
    let connector = FakeConnector::new();
    connector.script(
        StreamTier::Market,
        vec![vec![
            msg(&mark, 1_000),
            WsPoll::Disconnected,
            WsPoll::Disconnected,
            msg(&mark, 9_000),
        ]],
    );
    let down = Rc::clone(&connector.down);
    let mut reg = ConnectionRegistry::new(connector);
    reg.subscribe(StreamTier::Market, &[mark.clone()]).unwrap();
    reg.pump(StreamTier::Market).unwrap();
    *down.borrow_mut() = true;
    assert!(reg.pump(StreamTier::Market).is_err());
    assert_eq!(reg.subscriptions(StreamTier::Market), vec![mark]);
    assert!(reg.pump(StreamTier::Market).is_err());
    let late = reg.pump(StreamTier::Market).unwrap();
    assert_eq!(late.gap.unwrap().missed_ms(), 8_000);
}

// ---- private stream ------------------------------------------------------------------------------

/// One script behind the three ways to the venue.
#[derive(Clone)]
struct ScriptedUserData {
    inner: Rc<RefCell<Script>>,
}

impl ScriptedUserData {
    fn new() -> Self {
        Self { inner: Rc::new(RefCell::new(Script::new())) }
    }

    fn with_connection(self, polls: Vec<UserDataPoll>) -> Self {
        self.inner.borrow_mut().queue_connection(polls);
        self
    }

    fn with_snapshot(self, snapshot: PositionSnapshot) -> Self {
        self.inner.borrow_mut().queue_snapshot(snapshot);
        self
    }

    fn keys_created(&self) -> u64 {
        self.inner.borrow().keys_created()
    }

    fn keepalives(&self) -> u64 {
        self.inner.borrow().keepalives()
    }
}

impl ListenKeyProvider for ScriptedUserData {
    fn create(&self) -> Result<ListenKey, UserDataError> {
        Ok(self.inner.borrow_mut().create_key())
    }

    fn keepalive(&self, _key: &ListenKey) -> Result<(), UserDataError> {
        self.inner.borrow_mut().keep_key();
        Ok(())
    }
}

impl UserDataConnector for ScriptedUserData {
    fn connect(&self, _key: &ListenKey) -> Result<Box<dyn UserDataConnection>, UserDataError> {
        Ok(Box::new(self.inner.borrow_mut().open_connection()))
    }
}

impl PositionSnapshotSource for ScriptedUserData {
    fn snapshot(&self) -> Result<PositionSnapshot, UserDataError> {
        self.inner.borrow_mut().take_snapshot()
    }
}

fn price(v: i64) -> Price {
    Price::new(Dec::from_int(v)).unwrap()
}

fn qty(v: i64) -> Qty {
    Qty::new(Dec::from_int(v)).unwrap()
}

fn fill(trade_id: u64, t: i64) -> Fill {
    Fill {
        instrument: inst(),
        side: Side::Buy,
        price: price(30_000),
        qty: qty(1),
        order_id: 100,
        trade_id,
        event_time_ms: t,
    }
}

fn long_position(size: i64, t: i64) -> PositionReport {
    PositionReport {
        instrument: inst(),
        direction: Some(Direction::Long),
        qty: qty(size),
        entry_price: price(30_000),
        event_time_ms: t,
    }
}

fn snapshot(size: i64, t: i64) -> PositionSnapshot {
    PositionSnapshot {
        positions: vec![long_position(size, t)],
        event_time_ms: t,
    }
}

#[test]
fn events_are_delivered_in_order() {
    let position = long_position(2, 1_002);
    let sim = ScriptedUserData::new()
        .with_snapshot(snapshot(0, 1_000))
        .with_connection(vec![
            UserDataPoll::Event(UserDataEvent::Fill(fill(1, 1_001))),
            UserDataPoll::Event(UserDataEvent::Position(position.clone())),
            UserDataPoll::Event(UserDataEvent::Heartbeat { event_time_ms: 1_003 }),
        ]);
    let mut session = UserDataSession::new(sim.clone(), sim.clone(), sim);
    session.connect().unwrap();

    let a = session.pump().unwrap();
    assert_eq!(a.event, Some(UserDataEvent::Fill(fill(1, 1_001))));
    assert!(!a.reconnected);
    let b = session.pump().unwrap();
    assert_eq!(b.event, Some(UserDataEvent::Position(position)));
    let c = session.pump().unwrap();
    assert_eq!(
        c.event,
        Some(UserDataEvent::Heartbeat { event_time_ms: 1_003 })
    );
    let d = session.pump().unwrap();
    assert!(d.event.is_none() && !d.reconnected);
}

#[test]
fn reconnect_renews_key_and_resnapshots_without_losing_position_truth() {
    let sim = ScriptedUserData::new()
        .with_snapshot(snapshot(0, 1_000))
        .with_snapshot(snapshot(5, 2_000))
        .with_connection(vec![
            UserDataPoll::Event(UserDataEvent::Fill(fill(1, 1_001))),
            UserDataPoll::Disconnected,
        ])
        .with_connection(vec![]);
    let mut session = UserDataSession::new(sim.clone(), sim.clone(), sim.clone());

    let initial = session.connect().unwrap();
    assert_eq!(initial, snapshot(0, 1_000));
    let key1 = session.listen_key().unwrap().clone();
    assert_eq!(sim.keys_created(), 1);

    let a = session.pump().unwrap();
    assert_eq!(a.event, Some(UserDataEvent::Fill(fill(1, 1_001))));

    let b = session.pump().unwrap();
    assert!(b.reconnected);
    assert_eq!(
        b.event,
        Some(UserDataEvent::Snapshot(snapshot(5, 2_000)))
    );
    let key2 = session.listen_key().unwrap().clone();
    assert_ne!(key1, key2);
    assert_eq!(sim.keys_created(), 2);
    assert_eq!(key1.as_str(), "sim-key-1");
    assert_eq!(key2.as_str(), "sim-key-2");
}

#[test]
fn listen_key_expiry_triggers_renew_and_resnapshot() {
    let sim = ScriptedUserData::new()
        .with_snapshot(snapshot(0, 1_000))
        .with_snapshot(snapshot(3, 2_000))
        .with_connection(vec![UserDataPoll::Event(UserDataEvent::ListenKeyExpired {
            event_time_ms: 1_500,
        })])
        .with_connection(vec![]);
    let mut session = UserDataSession::new(sim.clone(), sim.clone(), sim.clone());
    session.connect().unwrap();
    assert_eq!(sim.keys_created(), 1);

    let out = session.pump().unwrap();
    assert!(out.reconnected);
    assert_eq!(out.event, Some(UserDataEvent::Snapshot(snapshot(3, 2_000))));
    assert_eq!(sim.keys_created(), 2);
}

#[test]
fn keepalive_holds_the_current_key() {
    let sim = ScriptedUserData::new()
        .with_snapshot(snapshot(0, 1_000))
        .with_connection(vec![]);
    let mut session = UserDataSession::new(sim.clone(), sim.clone(), sim.clone());
    session.keepalive().unwrap();
    assert_eq!(sim.keepalives(), 0);

    session.connect().unwrap();
    session.keepalive().unwrap();
    session.keepalive().unwrap();
    assert_eq!(sim.keepalives(), 2);
    assert_eq!(sim.keys_created(), 1);
}

#[test]
fn pump_before_connect_is_a_noop() {
    let sim = ScriptedUserData::new().with_snapshot(snapshot(0, 0));
    let mut session = UserDataSession::new(sim.clone(), sim.clone(), sim);
    let out = session.pump().unwrap();
    assert!(out.event.is_none() && !out.reconnected);
    assert!(session.listen_key().is_none());
}

#[test]
fn sim_scripted_user_data_drives_a_full_session() {
    let sim = ScriptedUserData::new()
        .with_snapshot(snapshot(0, 1_000))
        .with_snapshot(snapshot(1, 2_000))
        .with_connection(vec![
            UserDataPoll::Event(UserDataEvent::Fill(fill(7, 1_100))),
            UserDataPoll::Event(UserDataEvent::Heartbeat { event_time_ms: 1_200 }),
            UserDataPoll::Disconnected,
        ])
        .with_connection(vec![UserDataPoll::Event(UserDataEvent::Position(
            long_position(1, 2_100),
        ))]);
    let mut session = UserDataSession::new(sim.clone(), sim.clone(), sim.clone());

    assert_eq!(session.connect().unwrap(), snapshot(0, 1_000));
    assert_eq!(
        session.pump().unwrap().event,
        Some(UserDataEvent::Fill(fill(7, 1_100)))
    );
    assert_eq!(
        session.pump().unwrap().event,
        Some(UserDataEvent::Heartbeat { event_time_ms: 1_200 })
    );
    let reconnected = session.pump().unwrap();
    assert!(reconnected.reconnected);
    assert_eq!(
        reconnected.event,
        Some(UserDataEvent::Snapshot(snapshot(1, 2_000)))
    );
    assert_eq!(
        session.pump().unwrap().event,
        Some(UserDataEvent::Position(long_position(1, 2_100)))
    );
    assert_eq!(sim.keys_created(), 2);
}

#[test]
fn a_failed_renewal_keeps_the_key() {
    let sim = ScriptedUserData::new();
    let mut session = UserDataSession::new(sim.clone(), sim.clone(), sim.clone());
    match session.connect() {
        Err(UserDataError::Snapshot(text)) => assert_eq!(text, "no scripted snapshot"),
        other => panic!("expected a failed snapshot, got {other:?}"),
    }
    assert!(session.listen_key().is_none());
    assert_eq!(sim.keys_created(), 1);
}

/// A source of snapshots that can be switched off.
struct FlakySnapshots {
    inner: ScriptedUserData,
    down: Rc<RefCell<bool>>,
}

impl PositionSnapshotSource for FlakySnapshots {
    fn snapshot(&self) -> Result<PositionSnapshot, UserDataError> {
        if *self.down.borrow() {
            Err(UserDataError::Snapshot("down".to_owned()))
        } else {
            self.inner.snapshot()
        }
    }
}

#[test]
fn after_a_failed_renewal_the_old_socket_is_read_and_after_a_renewal_the_fresh_one() {
    let sim = ScriptedUserData::new();
    sim.inner.borrow_mut().queue_connection(vec![
        UserDataPoll::Disconnected,
        UserDataPoll::Event(UserDataEvent::Fill(fill(7, 1_000))),
        UserDataPoll::Disconnected,
    ]);
    sim.inner.borrow_mut().queue_connection(vec![UserDataPoll::Event(UserDataEvent::Fill(fill(
        8, 2_000,
    )))]);
    sim.inner.borrow_mut().queue_connection(vec![UserDataPoll::Event(UserDataEvent::Fill(fill(
        9, 3_000,
    )))]);
    sim.inner.borrow_mut().queue_snapshot(snapshot(1, 10));
    let down = Rc::new(RefCell::new(false));
    let source = FlakySnapshots { inner: sim.clone(), down: Rc::clone(&down) };
    let mut session = UserDataSession::new(sim.clone(), sim.clone(), source);
    session.connect().unwrap();
    let key = session.listen_key().unwrap().as_str().to_owned();

    *down.borrow_mut() = true;
    assert!(matches!(session.pump(), Err(UserDataError::Snapshot(_))));
    assert_eq!(session.listen_key().unwrap().as_str(), key);
    assert_eq!(
        session.pump().unwrap().event,
        Some(UserDataEvent::Fill(fill(7, 1_000)))
    );

    *down.borrow_mut() = false;
    let renewed = session.pump().unwrap();
    assert!(renewed.reconnected);
    assert_ne!(session.listen_key().unwrap().as_str(), key);
    assert_eq!(
        session.pump().unwrap().event,
        Some(UserDataEvent::Fill(fill(9, 3_000)))
    );
}

#[test]
fn after_a_failed_reopening_the_old_socket_is_read() {
    let kline = Subscription::kline(inst(), Resolution::M5);
    let connector = FakeConnector::new();
    connector.script(
        StreamTier::Market,
        vec![vec![WsPoll::Disconnected, msg(&kline, 300_000)]],
    );
    let down = Rc::clone(&connector.down);
    let mut reg = ConnectionRegistry::new(connector);
    reg.subscribe(StreamTier::Market, std::slice::from_ref(&kline))
        .unwrap();
    *down.borrow_mut() = true;
    assert!(matches!(reg.pump(StreamTier::Market), Err(WsError::Closed)));
    let next = reg.pump(StreamTier::Market).unwrap();
    assert_eq!(next.message.unwrap().event_time_ms, 300_000);
}

#[test]
fn the_last_snapshot_is_given_again() {
    let mut script = Script::default();
    script.queue_snapshot(snapshot(1, 10));
    script.queue_snapshot(snapshot(2, 20));
    assert_eq!(script.take_snapshot(), Ok(snapshot(1, 10)));
    assert_eq!(script.take_snapshot(), Ok(snapshot(2, 20)));
    assert_eq!(script.take_snapshot(), Ok(snapshot(2, 20)));
}

#[test]
fn only_drops_and_expiry_call_for_a_renewal() {
    assert!(matches!(react(UserDataPoll::Idle), Reaction::Wait));
    assert!(matches!(react(UserDataPoll::Disconnected), Reaction::Renew));
    assert!(matches!(
        react(UserDataPoll::Event(UserDataEvent::ListenKeyExpired { event_time_ms: 0 })),
        Reaction::Renew
    ));
    match react(UserDataPoll::Event(UserDataEvent::Heartbeat { event_time_ms: 4 })) {
        Reaction::Deliver(event) => {
            assert_eq!(event, UserDataEvent::Heartbeat { event_time_ms: 4 })
        }
        _ => panic!("a heartbeat is handed on"),
    }
}
