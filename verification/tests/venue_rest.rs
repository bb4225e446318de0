//! The request side of the venue: cache, rate limiter, retries.

use std::cell::RefCell;

use quant_engine::domain::{InstrumentId, TimeInterval, Timestamp};
use quant_engine::venue::cache::RestCache;
use quant_engine::venue::classify::{Classified, Disposition, ErrorClass};
use quant_engine::venue::clock::{instant_of, later, wait_ms, Clock};
use quant_engine::venue::ratelimit::{Acquire, RateLimiter, DEFAULT_WEIGHT_BUDGET, DEFAULT_WINDOW_MS};
use quant_engine::venue::request::VenueRequest;
use quant_engine::venue::rest::{
    status_error, Admission, RestError, RestResponse, RestTransport, Settlement, Start,
    VenueRestClient,
};
use quant_engine::venue::userdata::UserDataError;
use quant_engine::venue::ws::WsError;

// ---- cache ---------------------------------------------------------------------------------------

#[test]
fn get_put_round_trips_and_overwrites() {
    let mut cache = RestCache::new();
    assert!(cache.is_empty());
    assert_eq!(cache.get("k"), None);

    cache.put("k".to_owned(), b"v1".to_vec());
    assert_eq!(cache.get("k").as_deref(), Some(&b"v1"[..]));
    assert_eq!(cache.len(), 1);

    cache.put("k".to_owned(), b"v2".to_vec());
    assert_eq!(cache.get("k").as_deref(), Some(&b"v2"[..]));
    assert_eq!(cache.len(), 1);
}

#[test]
fn cache_keys_do_not_disturb_each_other() {
    let mut cache = RestCache::default();
    cache.put("a".to_owned(), vec![1]);
    cache.put("b".to_owned(), vec![2, 3]);
    assert_eq!(cache.len(), 2);
    assert!(!cache.is_empty());
    cache.put("a".to_owned(), vec![]);
    assert_eq!(cache.get("a"), Some(vec![]));
    assert_eq!(cache.get("b"), Some(vec![2, 3]));
    assert_eq!(cache.get("c"), None);
}

// ---- rate limiter --------------------------------------------------------------------------------

#[test]
fn charges_until_budget_then_waits_for_the_window_roll() {
    let mut rl = RateLimiter::new(10, 1_000);
    assert_eq!(rl.acquire(6, 0), Acquire::Ready);
    assert_eq!(rl.acquire(4, 100), Acquire::Ready);
    assert_eq!(rl.acquire(1, 200), Acquire::WaitUntil(1_000));
    assert_eq!(rl.acquire(7, 1_000), Acquire::Ready);
}

#[test]
fn window_rolls_only_after_full_window_elapses() {
    let mut rl = RateLimiter::new(5, 1_000);
    assert_eq!(rl.acquire(5, 0), Acquire::Ready);
    assert_eq!(rl.acquire(1, 999), Acquire::WaitUntil(1_000));
    assert_eq!(rl.acquire(1, 1_000), Acquire::Ready);
}

#[test]
fn retry_after_floors_the_next_allowed_instant() {
    let mut rl = RateLimiter::new(100, 1_000);
    rl.note_retry_after(5_000);
    assert_eq!(rl.acquire(1, 200), Acquire::WaitUntil(5_000));
    assert_eq!(rl.acquire(1, 5_000), Acquire::Ready);
    rl.note_retry_after(4_000);
    assert_eq!(rl.acquire(1, 5_500), Acquire::Ready);
}

#[test]
fn default_limiter_grants_the_default_budget() {
    let mut rl = RateLimiter::with_defaults();
    assert_eq!(rl.budget(), 1_200);
    assert_eq!(DEFAULT_WEIGHT_BUDGET, 1_200);
    assert_eq!(DEFAULT_WINDOW_MS, 60_000);
    assert_eq!(rl.acquire(1_200, 10), Acquire::Ready);
    assert_eq!(rl.acquire(1, 11), Acquire::WaitUntil(60_010));
    let mut copy = rl.clone();
    assert_eq!(copy.acquire(1, 60_010), Acquire::Ready);
    assert_eq!(rl.acquire(1, 60_009), Acquire::WaitUntil(60_010));
}

#[test]
fn a_waiting_request_is_granted_when_it_comes_back() {
    let mut rl = RateLimiter::new(4, 1_000);
    assert_eq!(rl.acquire(4, 0), Acquire::Ready);
    rl.note_retry_after(300);
    // First the venue holds it back, then the full window; the third time it is granted.
    assert_eq!(rl.acquire(4, 100), Acquire::WaitUntil(300));
    assert_eq!(rl.acquire(4, 300), Acquire::WaitUntil(1_000));
    assert_eq!(rl.acquire(4, 1_000), Acquire::Ready);
}

#[test]
fn charges_never_exceed_even_the_largest_budget() {
    let mut rl = RateLimiter::new(u32::MAX, i64::MAX);
    assert_eq!(rl.acquire(u32::MAX - 1, 0), Acquire::Ready);
    assert_eq!(rl.acquire(2, 1), Acquire::WaitUntil(i64::MAX));
    assert_eq!(rl.acquire(1, 1), Acquire::Ready);
}

// ---- clock ---------------------------------------------------------------------------------------

/// A logical clock: waiting records the deadline and moves the time there.
struct ManualClock {
    now: RefCell<i64>,
    waits: RefCell<Vec<i64>>,
}

impl ManualClock {
    fn new(start_ms: i64) -> Self {
        Self { now: RefCell::new(start_ms), waits: RefCell::new(Vec::new()) }
    }

    fn wait_count(&self) -> usize {
        self.waits.borrow().len()
    }
}

impl Clock for ManualClock {
    fn now_ms(&self) -> i64 {
        *self.now.borrow()
    }

    fn sleep_until(&self, deadline_ms: i64) {
        let mut now = self.now.borrow_mut();
        if deadline_ms > *now {
            self.waits.borrow_mut().push(deadline_ms);
            *now = deadline_ms;
        }
    }
}

#[test]
fn manual_clock_advances_only_forward_and_records_waits() {
    let c = ManualClock::new(100);
    assert_eq!(c.now_ms(), 100);
    c.sleep_until(50);
    assert_eq!(c.now_ms(), 100);
    assert_eq!(c.wait_count(), 0);
    c.sleep_until(500);
    assert_eq!(c.now_ms(), 500);
    assert_eq!(c.wait_count(), 1);
}

#[test]
fn instants_stay_in_range() {
    assert_eq!(later(10, 5), 15);
    assert_eq!(later(10, -15), -5);
    assert_eq!(later(i64::MAX, 1), i64::MAX);
    assert_eq!(later(i64::MIN, -1), i64::MIN);
    assert_eq!(instant_of(1_700_000_000_000), 1_700_000_000_000);
    assert_eq!(instant_of(u128::MAX), i64::MAX);
    assert_eq!(wait_ms(500, 100), 400);
    assert_eq!(wait_ms(100, 500), 0);
    assert_eq!(wait_ms(i64::MAX, i64::MIN), u64::MAX);
}

// ---- requests ------------------------------------------------------------------------------------

fn inst() -> InstrumentId {
    InstrumentId::new("BTCUSDT").unwrap()
}

fn req_window(weight: u32, start_ms: i64, end_ms: i64) -> VenueRequest {
    VenueRequest {
        endpoint: "/fapi/v1/klines".to_owned(),
        instrument: inst(),
        params: vec![("interval".to_owned(), "5m".to_owned())],
        window: TimeInterval::new(
            Timestamp::from_millis(start_ms),
            Timestamp::from_millis(end_ms),
        )
        .unwrap(),
        weight,
    }
}

#[test]
fn cache_key_lists_parameters_in_order() {
    let mut a = req_window(1, -5, 1_000);
    a.params = vec![
        ("limit".to_owned(), "500".to_owned()),
        ("interval".to_owned(), "5m".to_owned()),
        ("interval".to_owned(), "1h".to_owned()),
    ];
    assert_eq!(
        a.cache_key(),
        "/fapi/v1/klines|BTCUSDT|interval=1h&interval=5m&limit=500|-5-1000"
    );
    let mut b = a.clone();
    b.params.reverse();
    assert_eq!(a.cache_key(), b.cache_key());
    b.params.pop();
    assert_ne!(a.cache_key(), b.cache_key());
    b.params.clear();
    assert_eq!(b.cache_key(), "/fapi/v1/klines|BTCUSDT||-5-1000");
}

#[test]
fn url_keeps_parameters_as_they_stand() {
    let mut a = req_window(1, 0, 1_000);
    assert_eq!(
        a.url("https://fapi.example.com"),
        "https://fapi.example.com/fapi/v1/klines?interval=5m"
    );
    a.params.push(("limit".to_owned(), "2".to_owned()));
    a.params.push(("a".to_owned(), "b".to_owned()));
    assert_eq!(a.url(""), "/fapi/v1/klines?interval=5m&limit=2&a=b");
    a.params.clear();
    assert_eq!(a.url("x"), "x/fapi/v1/klines");
}

#[test]
fn a_window_is_closed_from_its_end_on() {
    let r = req_window(1, 0, 1_000);
    assert!(!r.is_closed_window(999));
    assert!(r.is_closed_window(1_000));
    assert!(r.is_closed_window(1_001));
}

#[test]
fn statuses_are_told_apart() {
    let shown = |e: RestError| format!("{e:?}");
    assert_eq!(shown(status_error(429, Some(2))), "RateLimited { retry_after_ms: 2000 }");
    assert_eq!(shown(status_error(418, None)), "RateLimited { retry_after_ms: 1000 }");
    assert_eq!(shown(status_error(503, Some(2))), "Transient(\"http 503\")");
    assert_eq!(shown(status_error(500, None)), "Transient(\"http 500\")");
    assert_eq!(shown(status_error(404, None)), "Fatal(\"http 404\")");
    assert_eq!(shown(status_error(499, None)), "Fatal(\"http 499\")");
}

// ---- client --------------------------------------------------------------------------------------

#[derive(Clone)]
enum Outcome {
    Body(Vec<u8>),
    RateLimited(u64),
    Transient,
    Fatal,
}

/// Serves outcomes in order, the last one again and again, and counts the requests.
struct FakeTransport {
    script: RefCell<Vec<Outcome>>,
    hits: RefCell<usize>,
}

impl FakeTransport {
    fn new(script: Vec<Outcome>) -> Self {
        Self { script: RefCell::new(script), hits: RefCell::new(0) }
    }

    fn hits(&self) -> usize {
        *self.hits.borrow()
    }
}

impl RestTransport for FakeTransport {
    fn send(&self, _req: &VenueRequest) -> Result<RestResponse, RestError> {
        *self.hits.borrow_mut() += 1;
        let mut script = self.script.borrow_mut();
        let outcome = if script.len() > 1 {
            script.remove(0)
        } else {
            script.first().cloned().unwrap_or(Outcome::Body(b"".to_vec()))
        };
        match outcome {
            Outcome::Body(b) => Ok(RestResponse { bytes: b }),
            Outcome::RateLimited(ms) => Err(RestError::RateLimited { retry_after_ms: ms }),
            Outcome::Transient => Err(RestError::Transient("boom".to_owned())),
            Outcome::Fatal => Err(RestError::Fatal("nope".to_owned())),
        }
    }
}

/// A client with its transport and clock: runs the conversation of a fetch to its end.
struct Driver {
    client: VenueRestClient,
    transport: FakeTransport,
    clock: ManualClock,
}

impl Driver {
    fn new(transport: FakeTransport, clock: ManualClock) -> Self {
        Self { client: VenueRestClient::new(), transport, clock }
    }

    fn fetch(&mut self, req: &VenueRequest) -> Result<RestResponse, RestError> {
        let mut fetch = match self.client.begin(req, self.clock.now_ms()) {
            Start::Served(response) => return Ok(response),
            Start::Pending(fetch) => fetch,
        };
        loop {
            match self.client.clear_to_send(&mut fetch, req.weight, self.clock.now_ms()) {
                Admission::Failed(e) => return Err(e),
                Admission::WaitUntil(at) => self.clock.sleep_until(at),
                Admission::Send => {
                    let reply = self.transport.send(req);
                    match self.client.settle(&mut fetch, req, self.clock.now_ms(), reply) {
                        Settlement::Done(r) => return r,
                        Settlement::RetryAt(at) => self.clock.sleep_until(at),
                    }
                }
            }
        }
    }
}

#[test]
fn rate_limit_pressure_backs_off_without_dropping() {
    let transport = FakeTransport::new(vec![Outcome::Body(b"ok".to_vec())]);
    let mut d = Driver::new(transport, ManualClock::new(0));
    d.client = d.client.with_limiter(RateLimiter::new(2, 1_000));
    for i in 0..5 {
        let r = req_window(1, i, i64::MAX);
        assert!(d.fetch(&r).is_ok(), "request {i} must complete");
    }
    assert_eq!(d.transport.hits(), 5);
    assert!(d.clock.wait_count() >= 2);
}

#[test]
fn rate_limited_response_is_honoured_and_retried_not_dropped() {
    let transport = FakeTransport::new(vec![
        Outcome::RateLimited(2_000),
        Outcome::RateLimited(2_000),
        Outcome::Body(b"done".to_vec()),
    ]);
    let mut d = Driver::new(transport, ManualClock::new(0));
    let r = req_window(1, 0, i64::MAX);
    assert_eq!(d.fetch(&r).unwrap().bytes, b"done");
    assert_eq!(d.transport.hits(), 3);
    assert!(d.clock.wait_count() >= 2);
    assert_eq!(*d.clock.waits.borrow(), vec![2_000, 4_000]);
}

#[test]
fn closed_window_is_served_from_cache_on_repeat() {
    let transport = FakeTransport::new(vec![Outcome::Body(b"hist".to_vec())]);
    let mut d = Driver::new(transport, ManualClock::new(5_000));
    let r = req_window(1, 0, 1_000);
    assert_eq!(d.fetch(&r).unwrap().bytes, b"hist");
    assert_eq!(d.transport.hits(), 1);
    assert_eq!(d.fetch(&r).unwrap().bytes, b"hist");
    assert_eq!(d.transport.hits(), 1);
    assert_eq!(d.client.cache().len(), 1);
}

#[test]
fn open_window_is_not_cached() {
    let transport = FakeTransport::new(vec![Outcome::Body(b"live".to_vec())]);
    let mut d = Driver::new(transport, ManualClock::new(5_000));
    let r = req_window(1, 0, 10_000);
    d.fetch(&r).unwrap();
    d.fetch(&r).unwrap();
    assert_eq!(d.transport.hits(), 2);
    assert!(d.client.cache().is_empty());
}

#[test]
fn transient_retries_then_succeeds_and_fatal_stops() {
    let transport = FakeTransport::new(vec![Outcome::Transient, Outcome::Body(b"ok".to_vec())]);
    let mut d = Driver::new(transport, ManualClock::new(0));
    assert_eq!(d.fetch(&req_window(1, 0, i64::MAX)).unwrap().bytes, b"ok");

    let fatal = FakeTransport::new(vec![Outcome::Fatal]);
    let mut d2 = Driver::new(fatal, ManualClock::new(0));
    assert!(matches!(
        d2.fetch(&req_window(1, 0, i64::MAX)),
        Err(RestError::Fatal(_))
    ));
    assert_eq!(d2.transport.hits(), 1);
}

#[test]
fn exhausts_retry_budget_without_silent_drop() {
    let transport = FakeTransport::new(vec![Outcome::RateLimited(100)]);
    let mut d = Driver::new(transport, ManualClock::new(0));
    d.client = d.client.with_max_attempts(3);
    let err = d.fetch(&req_window(1, 0, i64::MAX)).unwrap_err();
    assert!(matches!(err, RestError::Exhausted { attempts: 3, .. }));
    match err {
        RestError::Exhausted { last, .. } => assert_eq!(last, "rate limited (100ms)"),
        other => panic!("expected an exhausted fetch, got {other:?}"),
    }
    assert_eq!(d.transport.hits(), 3);
}

#[test]
fn paginate_drives_pages_each_rate_limited() {
    let transport = FakeTransport::new(vec![Outcome::Body(b"p".to_vec())]);
    let mut d = Driver::new(transport, ManualClock::new(0));
    let mut req = req_window(1, 0, i64::MAX);
    let mut pages = Vec::new();
    loop {
        pages.push(d.fetch(&req).unwrap());
        let next_start = req.window.start().millis() + 1;
        if next_start >= 3 {
            break;
        }
        req = req_window(1, next_start, i64::MAX);
    }
    assert_eq!(pages.len(), 3);
    assert_eq!(d.transport.hits(), 3);
}

#[test]
fn passing_failures_back_off_twice_as_long_each_time() {
    let transport = FakeTransport::new(vec![Outcome::Transient]);
    let mut d = Driver::new(transport, ManualClock::new(0));
    match d.fetch(&req_window(1, 0, i64::MAX)) {
        Err(RestError::Exhausted { attempts, last }) => {
            assert_eq!(attempts, 8);
            assert_eq!(last, "transient: boom");
        }
        other => panic!("expected an exhausted fetch, got {other:?}"),
    }
    assert_eq!(
        *d.clock.waits.borrow(),
        vec![500, 1_500, 3_500, 7_500, 15_500, 31_500, 63_500, 127_500]
    );
}

#[test]
fn back_off_stops_doubling() {
    let mut client = VenueRestClient::new().with_max_attempts(30);
    let req = req_window(0, 0, i64::MAX);
    let mut fetch = match client.begin(&req, 0) {
        Start::Pending(fetch) => fetch,
        Start::Served(_) => panic!("an open window is never served from the cache"),
    };
    let mut last = 0;
    for attempt in 0..20u32 {
        assert!(matches!(client.clear_to_send(&mut fetch, 0, 0), Admission::Send));
        let reply = Err(RestError::Transient("x".to_owned()));
        match client.settle(&mut fetch, &req, 0, reply) {
            Settlement::RetryAt(at) => {
                assert_eq!(at, 500 * (1i64 << attempt.min(16)));
                last = at;
            }
            Settlement::Done(r) => panic!("a passing failure is retried, got {r:?}"),
        }
    }
    assert_eq!(last, 32_768_000);
}

#[test]
fn no_attempts_means_an_exhausted_fetch() {
    let transport = FakeTransport::new(vec![Outcome::Body(vec![])]);
    let mut d = Driver::new(transport, ManualClock::new(0));
    d.client = d.client.with_max_attempts(0);
    match d.fetch(&req_window(1, 0, i64::MAX)) {
        Err(RestError::Exhausted { attempts: 0, last }) => assert_eq!(last, ""),
        other => panic!("expected an exhausted fetch, got {other:?}"),
    }
    assert_eq!(d.transport.hits(), 0);
}

#[test]
fn a_request_heavier_than_the_budget_is_refused() {
    let transport = FakeTransport::new(vec![Outcome::Body(vec![])]);
    let mut d = Driver::new(transport, ManualClock::new(0));
    d.client = d.client.with_limiter(RateLimiter::new(10, 1_000));
    match d.fetch(&req_window(11, 0, i64::MAX)) {
        Err(RestError::Fatal(text)) => {
            assert_eq!(text, "request weight 11 exceeds the window budget 10")
        }
        other => panic!("expected a refusal, got {other:?}"),
    }
    assert!(d.fetch(&req_window(10, 0, i64::MAX)).is_ok());
}

#[test]
fn a_rate_limit_reply_holds_back_other_requests() {
    let mut client = VenueRestClient::default();
    let req = req_window(1, 0, i64::MAX);
    let open = |client: &VenueRestClient| match client.begin(&req, 0) {
        Start::Pending(fetch) => fetch,
        Start::Served(_) => panic!("an open window is never served from the cache"),
    };
    let mut first = open(&client);
    let mut second = open(&client);
    assert!(matches!(client.clear_to_send(&mut first, 1, 0), Admission::Send));
    let reply = Err(RestError::RateLimited { retry_after_ms: 700 });
    assert!(matches!(client.settle(&mut first, &req, 50, reply), Settlement::RetryAt(750)));
    assert!(matches!(client.clear_to_send(&mut second, 1, 749), Admission::WaitUntil(750)));
    assert!(matches!(client.clear_to_send(&mut second, 1, 750), Admission::Send));
}

// ---- classification ------------------------------------------------------------------------------

#[test]
fn rest_error_dispositions() {
    assert_eq!(
        RestError::RateLimited { retry_after_ms: 10 }.disposition(),
        Disposition::Retry
    );
    assert_eq!(
        RestError::Transient("5xx".into()).disposition(),
        Disposition::Retry
    );
    assert_eq!(
        RestError::Fatal("400".into()).disposition(),
        Disposition::Halt
    );
    assert_eq!(
        RestError::Exhausted { attempts: 5, last: "timeout".into() }.disposition(),
        Disposition::Halt
    );
    assert_eq!(RestError::Fatal("400".into()).class(), ErrorClass::Fatal);
}

#[test]
fn ws_error_dispositions() {
    for e in [
        WsError::Connect("x".into()),
        WsError::Subscribe("x".into()),
        WsError::Closed,
    ] {
        assert_eq!(e.disposition(), Disposition::Retry);
        assert_eq!(e.class(), ErrorClass::Transient);
    }
}

#[test]
fn userdata_error_dispositions() {
    for e in [
        UserDataError::ListenKey("x".into()),
        UserDataError::Connect("x".into()),
        UserDataError::Snapshot("x".into()),
    ] {
        assert_eq!(e.disposition(), Disposition::Retry);
        assert_eq!(e.class(), ErrorClass::Transient);
    }
}
