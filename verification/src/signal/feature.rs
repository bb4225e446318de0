//! Feature vectors: the quantised state of every catalogue indicator at one bar.

use vstd::prelude::*;
use vstd::utf8::encode_utf8;

use crate::bytes::{
    be_bytes, be_value, from_twos_complement, lemma_be_len, lemma_be_round_trip,
    lemma_be_value_round_trip, lemma_pow256_values, push_be, push_text, read_be, sha256, sha256_of,
    signed_of, to_twos_complement, twos_complement,
};
use crate::signal::bars::{Sample, Window};
use crate::signal::catalogue::{
    catalogue, catalogue_in_order, fixed_indicators, is_catalogue, models, pool_ids,
    CatalogueConfig,
};
use crate::signal::indicator::{
    flow_indicator, price_indicator, ArithmeticFault, FlowSource, Indicator, IndicatorModel,
    IndicatorSpec, KernelModel, CATALOGUE_VERSION,
};
use crate::signal::parity::{
    is_dense, law_flow_ignores_older_samples, law_flow_reset, law_flow_window_is_last_scalars,
    law_formula_ignores_older_bars, law_formula_output, law_formula_reset,
    law_price_ignores_older_bars, law_price_reset, present_scalars, typical_in_range,
};
use crate::signal::quant::QState;
use crate::signal::reference::{in_range, law_no_value_before_lookback, windows_read_bars};
use crate::signal::roll::last_n;
use crate::text::{
    hex, hex_text, is_hex_digit, is_sorted_listing, is_stable_order, law_stable_order_is_unique,
    lemma_hex_digits, lemma_hex_len, listed, sorted_texts, views,
};

verus! {

// ---- schema --------------------------------------------------------------------------------------

/// The contract that a [`FeatureVector`] is interpreted against: the indicators' identifiers and
/// lookbacks in catalogue order, the catalogue's version and its number of states.
#[derive(Debug, PartialEq, Eq)]
pub struct FeatureSchema {
    ids: Vec<String>,
    lookbacks: Vec<usize>,
    version: u32,
    num_states: u16,
}

/// What a [`FeatureSchema`] holds.
#[verifier::ext_equal]
pub struct SchemaModel {
    /// The identifiers.
    pub ids: Seq<Seq<char>>,
    /// The lookbacks.
    pub lookbacks: Seq<int>,
    /// The catalogue's version.
    pub version: u32,
    /// The number of states of the built-in indicators.
    pub num_states: u16,
}

/// The identifiers of some indicators.
pub open spec fn ids_of(m: Seq<IndicatorModel>) -> Seq<Seq<char>> {
    Seq::new(m.len(), |i: int| m[i].id)
}

/// The schema of some indicators.
pub open spec fn schema_of(m: Seq<IndicatorModel>, num_states: u16) -> SchemaModel {
    SchemaModel {
        ids: ids_of(m),
        lookbacks: Seq::new(m.len(), |i: int| m[i].kernel.lookback()),
        version: CATALOGUE_VERSION,
        num_states,
    }
}

/// The largest of some lookbacks; 0 if there are none.
pub open spec fn largest(lookbacks: Seq<int>) -> int
    decreases lookbacks.len(),
{
    if lookbacks.len() == 0 {
        0
    } else {
        let before = largest(lookbacks.drop_last());
        if lookbacks.last() >= before {
            lookbacks.last()
        } else {
            before
        }
    }
}

impl View for FeatureSchema {
    type V = SchemaModel;

    closed spec fn view(&self) -> SchemaModel {
        SchemaModel {
            ids: views(self.ids@),
            lookbacks: Seq::new(self.lookbacks@.len(), |i: int| self.lookbacks@[i] as int),
            version: self.version,
            num_states: self.num_states,
        }
    }
}

/// Builds the schema of some indicators.
fn schema_from(cat: &Vec<Indicator>, num_states: u16) -> (r: FeatureSchema)
    requires
        num_states >= 2,
    ensures
        r@ == schema_of(models(cat@), num_states),
{
    let ghost want = schema_of(models(cat@), num_states);
    let mut ids: Vec<String> = Vec::new();
    let mut lookbacks: Vec<usize> = Vec::new();
    let mut i: usize = 0;
    while i < cat.len()
        invariant
            i <= cat.len(),
            num_states >= 2,
            want == schema_of(models(cat@), num_states),
            ids.len() == i,
            lookbacks.len() == i,
            forall|j: int| 0 <= j < i ==> (#[trigger] ids[j])@ == want.ids[j],
            forall|j: int| 0 <= j < i ==> #[trigger] lookbacks[j] == want.lookbacks[j],
        decreases cat.len() - i,
    {
        let spec: IndicatorSpec = cat[i].spec();
        ids.push(spec.id);
        lookbacks.push(spec.lookback);
        i = i + 1;
    }
    let schema = FeatureSchema { ids, lookbacks, version: CATALOGUE_VERSION, num_states };
    assert(schema@.ids =~= want.ids);
    assert(schema@.lookbacks =~= want.lookbacks);
    schema
}

impl FeatureSchema {
    /// What holds of every schema that exists at run time.
    #[verifier::type_invariant]
    pub closed spec fn valid(self) -> bool {
        self.num_states >= 2
    }

    /// The schema of the catalogue that `cfg` describes.
    pub fn from_catalogue(cfg: &CatalogueConfig) -> (r: FeatureSchema)
        requires
            cfg.compilable(),
        ensures
            exists|m: Seq<IndicatorModel>| #[trigger]
                is_catalogue(*cfg, m) && r@ == schema_of(m, cfg.effective_states()),
    {
        let cat: Vec<Indicator> = catalogue(cfg);
        schema_from(&cat, cfg.states())
    }

    /// The number of features.
    pub fn len(&self) -> (r: usize)
        ensures
            r == self@.ids.len(),
    {
        self.ids.len()
    }

    /// Whether there are no features.
    pub fn is_empty(&self) -> (r: bool)
        ensures
            r == (self@.ids.len() == 0),
    {
        self.ids.len() == 0
    }

    /// The indicators' identifiers, in order.
    pub fn ids(&self) -> (r: &[String])
        ensures
            views(r@) == self@.ids,
    {
        self.ids.as_slice()
    }

    /// The version of the catalogue that the schema was built from.
    pub fn version(&self) -> (r: u32)
        ensures
            r == self@.version,
    {
        self.version
    }

    /// The number of states of the built-in indicators, at least two.
    pub fn num_states(&self) -> (r: u16)
        ensures
            r == self@.num_states,
            r >= 2,
    {
        proof {
            use_type_invariant(self);
        }
        self.num_states
    }

    /// The largest lookback: the warm-up before a vector can be complete.
    pub fn max_lookback(&self) -> (r: usize)
        ensures
            r == largest(self@.lookbacks),
    {
        let ghost all = self@.lookbacks;
        let mut best: usize = 0;
        let mut i: usize = 0;
        while i < self.lookbacks.len()
            invariant
                i <= self.lookbacks.len(),
                all == self@.lookbacks,
                best == largest(all.take(i as int)),
            decreases self.lookbacks.len() - i,
        {
            assert(all.take(i + 1).drop_last() =~= all.take(i as int));
            if self.lookbacks[i] >= best {
                best = self.lookbacks[i];
            }
            i = i + 1;
        }
        assert(all.take(i as int) =~= all);
        best
    }
}

/// The largest lookback is no less than any, and one of them.
pub proof fn law_largest_is_largest(lookbacks: Seq<int>, i: int)
    requires
        0 <= i < lookbacks.len(),
        forall|j: int| 0 <= j < lookbacks.len() ==> 0 <= #[trigger] lookbacks[j],
    ensures
        lookbacks[i] <= largest(lookbacks),
        lookbacks.contains(largest(lookbacks)),
    decreases lookbacks.len(),
{
    reveal_with_fuel(largest, 2);
    let rest = lookbacks.drop_last();
    if rest.len() > 0 {
        law_largest_is_largest(
            rest,
            if i < rest.len() {
                i
            } else {
                0
            },
        );
        let k = choose|k: int| 0 <= k < rest.len() && rest[k] == largest(rest);
        assert(lookbacks[k] == largest(rest));
    }
    assert(lookbacks[lookbacks.len() - 1] == lookbacks.last());
}

/// A configuration has one catalogue only.
pub proof fn law_catalogue_is_determined(
    cfg: CatalogueConfig,
    x: Seq<IndicatorModel>,
    y: Seq<IndicatorModel>,
)
    requires
        is_catalogue(cfg, x),
        is_catalogue(cfg, y),
    ensures
        x == y,
{
    let keys = pool_ids(cfg.formula_pool@);
    let a = choose|order: Seq<int>|
        is_stable_order(keys, order) && x == #[trigger] catalogue_in_order(cfg, order);
    let b = choose|order: Seq<int>|
        is_stable_order(keys, order) && y == #[trigger] catalogue_in_order(cfg, order);
    law_stable_order_is_unique(keys, a, b);
}

// ---- vectors -------------------------------------------------------------------------------------

/// One bar's feature vector: the state of every indicator in schema order, `None` for one that is not
/// warm yet.
#[derive(Debug, Clone, PartialEq, Eq)]
pub struct FeatureVector {
    /// The bar's open time, in milliseconds.
    pub time_ms: i64,
    /// One slot per indicator.
    pub states: Vec<Option<QState>>,
}

/// What a [`FeatureVector`] holds.
#[verifier::ext_equal]
pub struct VectorModel {
    /// The bar's open time, in milliseconds.
    pub time_ms: int,
    /// One slot per indicator.
    pub states: Seq<Option<QState>>,
}

impl View for FeatureVector {
    type V = VectorModel;

    open spec fn view(&self) -> VectorModel {
        VectorModel { time_ms: self.time_ms as int, states: self.states@ }
    }
}

/// The code of an empty slot.
pub const NONE_SENTINEL: u16 = 0xFFFF;

/// The code of a slot.
pub open spec fn slot_code(slot: Option<QState>) -> u16 {
    match slot {
        Some(state) => state.bucket(),
        None => NONE_SENTINEL,
    }
}

/// The slot with a given code.
pub open spec fn slot_of(code: u16) -> Option<QState> {
    if code == NONE_SENTINEL {
        None
    } else {
        Some(QState::of(code))
    }
}

/// The slots, two bytes each.
pub open spec fn encoded_slots(states: Seq<Option<QState>>) -> Seq<u8>
    decreases states.len(),
{
    if states.len() == 0 {
        Seq::empty()
    } else {
        encoded_slots(states.drop_last()) + be_bytes(slot_code(states.last()) as int, 2)
    }
}

/// A vector as bytes: the time in eight bytes, two's complement, then two bytes per slot. All numbers
/// are big-endian.
pub open spec fn encoded(v: VectorModel) -> Seq<u8> {
    be_bytes(twos_complement(v.time_ms), 8) + encoded_slots(v.states)
}

/// The vector of `width` slots that some bytes hold; none if they are too many or too few.
pub open spec fn decoded(bytes: Seq<u8>, width: int) -> Option<VectorModel> {
    if bytes.len() == 8 + 2 * width {
        Some(
            VectorModel {
                time_ms: signed_of(be_value(bytes.subrange(0, 8))),
                states: Seq::new(
                    width as nat,
                    |i: int| slot_of(be_value(bytes.subrange(8 + 2 * i, 10 + 2 * i)) as u16),
                ),
            },
        )
    } else {
        None
    }
}

proof fn lemma_encoded_slots(states: Seq<Option<QState>>)
    ensures
        encoded_slots(states).len() == 2 * states.len(),
        forall|i: int|
            0 <= i < states.len() ==> encoded_slots(states).subrange(2 * i, 2 * i + 2) == be_bytes(
                slot_code(#[trigger] states[i]) as int,
                2,
            ),
    decreases states.len(),
{
    if states.len() > 0 {
        let rest = states.drop_last();
        lemma_encoded_slots(rest);
        let last = be_bytes(slot_code(states.last()) as int, 2);
        lemma_be_len(slot_code(states.last()) as int, 2);
        let all = encoded_slots(states);
        assert forall|i: int| 0 <= i < states.len() implies all.subrange(2 * i, 2 * i + 2)
            == be_bytes(slot_code(#[trigger] states[i]) as int, 2) by {
            if i < rest.len() {
                assert(rest[i] == states[i]);
                assert(all.subrange(2 * i, 2 * i + 2) =~= encoded_slots(rest).subrange(
                    2 * i,
                    2 * i + 2,
                ));
            } else {
                assert(all.subrange(2 * i, 2 * i + 2) =~= last);
            }
        }
    }
}

/// A vector reads back from its bytes as itself, provided that no slot holds the state whose index is
/// the code of an empty slot.
pub proof fn law_vector_codec_round_trips(v: VectorModel)
    requires
        i64::MIN <= v.time_ms <= i64::MAX,
        forall|i: int|
            0 <= i < v.states.len() ==> (#[trigger] v.states[i] matches Some(s)
                ==> s.bucket() != NONE_SENTINEL),
    ensures
        decoded(encoded(v), v.states.len() as int) == Some(v),
{
    let bytes = encoded(v);
    let head = be_bytes(twos_complement(v.time_ms), 8);
    lemma_pow256_values();
    lemma_be_round_trip(twos_complement(v.time_ms), 8);
    lemma_encoded_slots(v.states);
    assert(bytes.subrange(0, 8) =~= head);
    let back = decoded(bytes, v.states.len() as int)->0;
    assert forall|i: int| 0 <= i < v.states.len() implies back.states[i] == v.states[i] by {
        let code = slot_code(v.states[i]);
        assert(bytes.subrange(8 + 2 * i, 10 + 2 * i) =~= encoded_slots(v.states).subrange(
            2 * i,
            2 * i + 2,
        ));
        lemma_be_round_trip(code as int, 2);
        if let Some(state) = v.states[i] {
            crate::signal::quant::law_state_is_its_index(state, code);
        }
    }
    assert(back =~= v);
}

impl FeatureVector {
    /// Whether every indicator has a state.
    pub fn is_complete(&self) -> (r: bool)
        ensures
            r == (forall|i: int| 0 <= i < self.states.len() ==> #[trigger] self.states[i] is Some),
    {
        let mut i: usize = 0;
        while i < self.states.len()
            invariant
                i <= self.states.len(),
                forall|j: int| 0 <= j < i ==> #[trigger] self.states[j] is Some,
            decreases self.states.len() - i,
        {
            if self.states[i].is_none() {
                assert(!(self.states[i as int] is Some));
                return false;
            }
            i = i + 1;
        }
        true
    }

    /// The vector as bytes: the time (big-endian `i64`), then one big-endian `u16` per slot, where
    /// `0xFFFF` stands for `None`.
    pub fn to_bytes(&self) -> (r: Vec<u8>)
        ensures
            r@ == encoded(self@),
    {
        let mut out: Vec<u8> = Vec::new();
        push_be(&mut out, to_twos_complement(self.time_ms), 8);
        let ghost head = out@;
        let mut i: usize = 0;
        assert(out@ =~= head + encoded_slots(self.states@.take(0)));
        while i < self.states.len()
            invariant
                i <= self.states.len(),
                out@ == head + encoded_slots(self.states@.take(i as int)),
            decreases self.states.len() - i,
        {
            let ghost before = out@;
            let code: u16 = match self.states[i] {
                Some(state) => state.index(),
                None => NONE_SENTINEL,
            };
            push_be(&mut out, code as u64, 2);
            proof {
                let next = self.states@.take(i + 1);
                assert(next.drop_last() =~= self.states@.take(i as int));
                assert(next.last() == self.states@[i as int]);
                assert(out@ =~= head + encoded_slots(next));
            }
            i = i + 1;
        }
        assert(self.states@.take(i as int) =~= self.states@);
        assert(head =~= be_bytes(twos_complement(self.time_ms as int), 8));
        out
    }

    /// Reads `width` slots from bytes that [`FeatureVector::to_bytes`] wrote. `None` if the bytes are
    /// not of that length.
    pub fn from_bytes(bytes: &[u8], width: usize) -> (r: Option<FeatureVector>)
        ensures
            match r {
                Some(v) => decoded(bytes@, width as int) == Some(v@),
                None => decoded(bytes@, width as int) is None,
            },
    {
        if bytes.len() < 8 || (bytes.len() - 8) % 2 != 0 || (bytes.len() - 8) / 2 != width {
            return None;
        }
        let time_ms: i64 = from_twos_complement(read_be(bytes, 0, 8));
        let mut states: Vec<Option<QState>> = Vec::new();
        let ghost want = decoded(bytes@, width as int)->0;
        let mut i: usize = 0;
        while i < width
            invariant
                i <= width,
                bytes.len() == 8 + 2 * width,
                decoded(bytes@, width as int) == Some(want),
                states.len() == i,
                forall|j: int| 0 <= j < i ==> #[trigger] states[j] == want.states[j],
            decreases width - i,
        {
            let ghost slot = bytes@.subrange(8 + 2 * i, 10 + 2 * i);
            proof {
                lemma_be_value_round_trip(slot);
                lemma_pow256_values();
            }
            let code: u16 = read_be(bytes, 8 + 2 * i, 10 + 2 * i) as u16;
            states.push(
                if code == NONE_SENTINEL {
                    None
                } else {
                    Some(QState::from_index(code))
                },
            );
            i = i + 1;
        }
        let v = FeatureVector { time_ms, states };
        assert(v@ =~= want);
        Some(v)
    }
}

// ---- assembling ----------------------------------------------------------------------------------

/// The indicators after one more sample.
pub open spec fn stepped(m: Seq<IndicatorModel>, sample: Sample) -> Seq<IndicatorModel> {
    Seq::new(m.len(), |i: int| m[i].updated(sample).0)
}

/// The vector of what every indicator says; a fault if any of them faults.
pub open spec fn assembled(
    outputs: Seq<Result<Option<QState>, ArithmeticFault>>,
    time_ms: int,
) -> Result<VectorModel, ArithmeticFault> {
    if exists|i: int| 0 <= i < outputs.len() && #[trigger] outputs[i] is Err {
        Err(ArithmeticFault)
    } else {
        Ok(
            VectorModel {
                time_ms,
                states: Seq::new(outputs.len(), |i: int| outputs[i]->Ok_0),
            },
        )
    }
}

/// The vector that the indicators give to one more sample.
pub open spec fn next_vector(m: Seq<IndicatorModel>, sample: Sample) -> Result<
    VectorModel,
    ArithmeticFault,
> {
    assembled(
        Seq::new(m.len(), |i: int| m[i].updated(sample).1),
        sample.bar@.open_time as int,
    )
}

/// A vector has the open time of its bar and one slot per indicator, each holding what that indicator says;
/// it is a fault exactly if one of them faults.
pub proof fn law_vector_holds_what_each_says(m: Seq<IndicatorModel>, sample: Sample)
    ensures
        next_vector(m, sample) is Err <==> exists|i: int|
            0 <= i < m.len() && (#[trigger] m[i]).updated(sample).1 is Err,
        next_vector(m, sample) matches Ok(v) ==> v.time_ms == sample.bar@.open_time && v.states.len()
            == m.len() && forall|i: int|
            0 <= i < m.len() ==> Ok::<Option<QState>, ArithmeticFault>(#[trigger] v.states[i])
                == m[i].updated(sample).1,
{
    let outputs = Seq::new(m.len(), |i: int| m[i].updated(sample).1);
    if exists|i: int| 0 <= i < m.len() && (#[trigger] m[i]).updated(sample).1 is Err {
        let i = choose|i: int| 0 <= i < m.len() && (#[trigger] m[i]).updated(sample).1 is Err;
        assert(outputs[i] is Err);
    }
    if exists|i: int| 0 <= i < outputs.len() && #[trigger] outputs[i] is Err {
        let i = choose|i: int| 0 <= i < outputs.len() && #[trigger] outputs[i] is Err;
        assert(m[i].updated(sample).1 is Err);
    } else if let Ok(v) = next_vector(m, sample) {
        assert forall|i: int| 0 <= i < m.len() implies Ok::<Option<QState>, ArithmeticFault>(
            #[trigger] v.states[i],
        ) == m[i].updated(sample).1 by {
            assert(outputs[i] is Ok);
        }
    }
}

/// The indicators after a series of samples.
pub open spec fn all_after(m: Seq<IndicatorModel>, samples: Seq<Sample>) -> Seq<IndicatorModel> {
    Seq::new(m.len(), |i: int| m[i].after(samples))
}

/// What a call that may fault returned, seen through the views.
pub open spec fn vector_result(r: Result<FeatureVector, ArithmeticFault>) -> Result<
    VectorModel,
    ArithmeticFault,
> {
    match r {
        Ok(v) => Ok(v@),
        Err(e) => Err(e),
    }
}

/// Assembles feature vectors by driving the whole catalogue, one sample at a time.
#[derive(Debug)]
pub struct FeatureAssembler {
    catalogue: Vec<Indicator>,
    num_states: u16,
}

impl View for FeatureAssembler {
    type V = Seq<IndicatorModel>;

    closed spec fn view(&self) -> Seq<IndicatorModel> {
        models(self.catalogue@)
    }
}

impl FeatureAssembler {
    /// What holds of every assembler that exists at run time.
    #[verifier::type_invariant]
    pub closed spec fn valid(self) -> bool {
        self.num_states >= 2
    }

    /// The number of states of the built-in indicators.
    pub closed spec fn states(self) -> u16 {
        self.num_states
    }

    /// An assembler over the catalogue that `cfg` describes.
    pub fn new(cfg: &CatalogueConfig) -> (r: FeatureAssembler)
        requires
            cfg.compilable(),
        ensures
            is_catalogue(*cfg, r@),
            r.states() == cfg.effective_states(),
    {
        FeatureAssembler { catalogue: catalogue(cfg), num_states: cfg.states() }
    }

    /// The schema that the vectors are to be read against.
    pub fn schema(&self) -> (r: FeatureSchema)
        ensures
            r@ == schema_of(self@, self.states()),
    {
        proof {
            use_type_invariant(self);
        }
        schema_from(&self.catalogue, self.num_states)
    }

    /// Feeds one sample, in time order, and assembles its vector. Every indicator sees the sample,
    /// also where one of them faults.
    pub fn push(&mut self, sample: &Sample) -> (r: Result<FeatureVector, ArithmeticFault>)
        ensures
            final(self)@ == stepped(old(self)@, *sample),
            final(self).states() == old(self).states(),
            vector_result(r) == next_vector(old(self)@, *sample),
    {
        proof {
            use_type_invariant(&*self);
        }
        let ghost start = self@;
        let ghost outputs = Seq::new(start.len(), |i: int| start[i].updated(*sample).1);
        let mut states: Vec<Option<QState>> = Vec::new();
        let mut faulted: bool = false;
        let mut i: usize = 0;
        while i < self.catalogue.len()
            invariant
                i <= self.catalogue.len() == start.len(),
                self.num_states == old(self).num_states,
                self.num_states >= 2,
                outputs == Seq::new(start.len(), |k: int| start[k].updated(*sample).1),
                forall|j: int| i <= j < start.len() ==> (#[trigger] self.catalogue@[j])@ == start[j],
                forall|j: int|
                    0 <= j < i ==> (#[trigger] self.catalogue@[j])@ == start[j].updated(*sample).0,
                states.len() == i,
                faulted == (exists|j: int| 0 <= j < i && #[trigger] outputs[j] is Err),
                forall|j: int|
                    0 <= j < i && outputs[j] is Ok ==> #[trigger] states[j] == outputs[j]->Ok_0,
            decreases self.catalogue.len() - i,
        {
            let output: Result<Option<QState>, ArithmeticFault> = self.catalogue[i].update(sample);
            assert(output == outputs[i as int]);
            match output {
                Ok(state) => {
                    states.push(state);
                },
                Err(_) => {
                    states.push(None);
                    faulted = true;
                },
            }
            i = i + 1;
        }
        assert(self@ =~= stepped(start, *sample));
        if faulted {
            Err(ArithmeticFault)
        } else {
            let v = FeatureVector { time_ms: sample.bar.open_time().millis(), states };
            assert(v@ =~= next_vector(start, *sample)->Ok_0);
            Ok(v)
        }
    }

    /// Brings every indicator back to its state before the first sample.
    pub fn reset(&mut self)
        ensures
            final(self)@ == Seq::new(old(self)@.len(), |i: int| old(self)@[i].reset()),
            final(self).states() == old(self).states(),
    {
        proof {
            use_type_invariant(&*self);
        }
        let ghost start = self@;
        let mut i: usize = 0;
        while i < self.catalogue.len()
            invariant
                i <= self.catalogue.len() == start.len(),
                self.num_states == old(self).num_states,
                self.num_states >= 2,
                forall|j: int| i <= j < start.len() ==> (#[trigger] self.catalogue@[j])@ == start[j],
                forall|j: int|
                    0 <= j < i ==> (#[trigger] self.catalogue@[j])@ == start[j].reset(),
            decreases self.catalogue.len() - i,
        {
            self.catalogue[i].reset();
            i = i + 1;
        }
        assert(self@ =~= Seq::new(start.len(), |i: int| start[i].reset()));
    }
}

/// Assembles the vector of every sample. This is the `push` of every sample in turn, so it cannot
/// differ from streaming.
pub fn assemble_batch(cfg: &CatalogueConfig, samples: &[Sample]) -> (r: Vec<
    Result<FeatureVector, ArithmeticFault>,
>)
    requires
        cfg.compilable(),
    ensures
        r.len() == samples.len(),
        exists|m: Seq<IndicatorModel>| #[trigger]
            is_catalogue(*cfg, m) && (forall|i: int|
                0 <= i < samples.len() ==> vector_result(#[trigger] r[i]) == next_vector(
                    all_after(m, samples@.take(i)),
                    samples[i],
                )),
{
    let mut assembler: FeatureAssembler = FeatureAssembler::new(cfg);
    let ghost m = assembler@;
    let mut out: Vec<Result<FeatureVector, ArithmeticFault>> = Vec::new();
    let mut i: usize = 0;
    assert(m =~= all_after(m, samples@.take(0)));
    while i < samples.len()
        invariant
            i <= samples.len(),
            out.len() == i,
            assembler@ == all_after(m, samples@.take(i as int)),
            forall|j: int|
                0 <= j < i ==> vector_result(#[trigger] out[j]) == next_vector(
                    all_after(m, samples@.take(j)),
                    samples[j],
                ),
        decreases samples.len() - i,
    {
        proof {
            let next = samples@.take(i + 1);
            assert(next.drop_last() =~= samples@.take(i as int));
            assert(next.last() == samples@[i as int]);
            assert(stepped(all_after(m, samples@.take(i as int)), samples@[i as int]) =~= all_after(
                m,
                next,
            ));
        }
        out.push(assembler.push(&samples[i]));
        i = i + 1;
    }
    out
}

/// Resetting the indicators of a catalogue brings every one of them back to its fresh state, whatever
/// they were fed.
pub proof fn law_reset_catalogue_is_fresh(
    cfg: CatalogueConfig,
    m: Seq<IndicatorModel>,
    samples: Seq<Sample>,
)
    requires
        is_catalogue(cfg, m),
    ensures
        Seq::new(m.len(), |i: int| all_after(m, samples)[i].reset()) == m,
{
    let order = choose|order: Seq<int>|
        is_stable_order(pool_ids(cfg.formula_pool@), order) && m == #[trigger] catalogue_in_order(
            cfg,
            order,
        );
    let pool = cfg.formula_pool@;
    let back = Seq::new(m.len(), |i: int| all_after(m, samples)[i].reset());
    assert forall|i: int| 0 <= i < m.len() implies back[i] == m[i] by {
        if i < 22 {
            match m[i].kernel {
                KernelModel::Price(kind, _, cap) => {
                    law_price_reset(m[i].id, cap, m[i].quantiser, kind, samples);
                    assert(m[i] == price_indicator(m[i].id, cap, m[i].quantiser, kind));
                },
                KernelModel::Flow(source, kind, _, cap) => {
                    law_flow_reset(m[i].id, cap, m[i].quantiser, source, kind, samples);
                    assert(m[i] == flow_indicator(m[i].id, cap, m[i].quantiser, source, kind));
                },
                KernelModel::Formula(_, _) => {},
            }
        } else {
            let f = pool[order[i - 22]];
            law_formula_reset(f.id@, f.expr, f.quantiser@, samples);
        }
    }
    assert(back =~= m);
}

/// Whether a history can be read by a catalogue without a fault or a missing scalar: every typical
/// price and every formula is in range, and every sample carries its scalars.
pub open spec fn is_readable(cfg: CatalogueConfig, h: Seq<Sample>) -> bool {
    &&& typical_in_range(h)
    &&& is_dense(FlowSource::Funding, h)
    &&& is_dense(FlowSource::OpenInterest, h)
    &&& is_dense(FlowSource::Premium, h)
    &&& forall|i: int|
        0 <= i < cfg.formula_pool@.len() ==> windows_read_bars(
            (#[trigger] cfg.formula_pool@[i]).expr,
        ) && in_range(cfg.formula_pool@[i].expr, h)
}

/// Histories that agree on the last `n` samples agree on fewer.
proof fn lemma_agree_on_fewer(h1: Seq<Sample>, h2: Seq<Sample>, n: int, k: int)
    requires
        0 <= k <= n <= h1.len(),
        n <= h2.len(),
        last_n(h1, n) == last_n(h2, n),
    ensures
        last_n(h1, k) == last_n(h2, k),
{
    assert forall|i: int| 0 <= i < k implies last_n(h1, k)[i] == last_n(h2, k)[i] by {
        assert(last_n(h1, k)[i] == last_n(h1, n)[n - k + i]);
        assert(last_n(h2, k)[i] == last_n(h2, n)[n - k + i]);
    }
    assert(last_n(h1, k) =~= last_n(h2, k));
}

/// Nothing older than the lookback leaks into a vector: two histories that agree on as many of their
/// last samples as the schema's largest lookback give the same vector to the last of them.
pub proof fn law_vector_ignores_older_samples(
    cfg: CatalogueConfig,
    m: Seq<IndicatorModel>,
    h1: Seq<Sample>,
    h2: Seq<Sample>,
)
    requires
        is_catalogue(cfg, m),
        is_readable(cfg, h1),
        is_readable(cfg, h2),
        ({
            let n = largest(schema_of(m, cfg.effective_states()).lookbacks);
            &&& h1.len() >= n
            &&& h2.len() >= n
            &&& last_n(h1, n) == last_n(h2, n)
        }),
    ensures
        next_vector(all_after(m, h1.drop_last()), h1.last()) == next_vector(
            all_after(m, h2.drop_last()),
            h2.last(),
        ),
{
    let lookbacks = schema_of(m, cfg.effective_states()).lookbacks;
    let n = largest(lookbacks);
    let pool = cfg.formula_pool@;
    let order = choose|order: Seq<int>|
        is_stable_order(pool_ids(pool), order) && m == #[trigger] catalogue_in_order(cfg, order);
    assert(m[17].kernel.lookback() == 34);
    assert(lookbacks[17] == 34);
    law_largest_is_largest(lookbacks, 17);
    assert forall|i: int| 0 <= i < m.len() implies #[trigger] m[i].output(h1) == m[i].output(h2) by {
        assert(lookbacks[i] == m[i].kernel.lookback());
        law_largest_is_largest(lookbacks, i);
        lemma_agree_on_fewer(h1, h2, n, m[i].kernel.lookback());
        if i < 22 {
            match m[i].kernel {
                KernelModel::Price(kind, _, cap) => {
                    assert(m[i] == price_indicator(m[i].id, cap, m[i].quantiser, kind));
                    law_price_ignores_older_bars(m[i].id, cap, m[i].quantiser, kind, h1, h2);
                },
                KernelModel::Flow(source, kind, _, cap) => {
                    assert(m[i] == flow_indicator(m[i].id, cap, m[i].quantiser, source, kind));
                    law_flow_ignores_older_samples(
                        m[i].id,
                        cap,
                        m[i].quantiser,
                        source,
                        kind,
                        h1,
                        h2,
                    );
                },
                KernelModel::Formula(_, _) => {},
            }
        } else {
            let f = pool[order[i - 22]];
            law_formula_ignores_older_bars(f.id@, f.expr, f.quantiser@, h1, h2);
        }
    }
    lemma_agree_on_fewer(h1, h2, n, 1);
    assert(h1.last() == last_n(h1, 1)[0]);
    assert(h2.last() == last_n(h2, 1)[0]);
    let a = all_after(m, h1.drop_last());
    let b = all_after(m, h2.drop_last());
    let x = Seq::new(a.len(), |i: int| a[i].updated(h1.last()).1);
    let y = Seq::new(b.len(), |i: int| b[i].updated(h2.last()).1);
    assert forall|i: int| 0 <= i < x.len() implies x[i] == y[i] by {
        assert(x[i] == m[i].output(h1));
        assert(y[i] == m[i].output(h2));
    }
    assert(x =~= y);
}

/// The window of a price indicator holds no more bars than were fed.
proof fn lemma_window_fills_slowly(ind: IndicatorModel, samples: Seq<Sample>)
    requires
        ind.kernel matches KernelModel::Price(_, w, cap) && w == Window::empty() && cap >= 1,
    ensures
        ind.after(samples).kernel matches KernelModel::Price(kind, w, cap) && w.close.len()
            <= samples.len() && ind.kernel == KernelModel::Price(kind, Window::empty(), cap),
    decreases samples.len(),
{
    if samples.len() > 0 {
        lemma_window_fills_slowly(ind, samples.drop_last());
    }
}

/// No more scalars are present than samples were fed.
proof fn lemma_scalars_at_most_samples(source: FlowSource, h: Seq<Sample>)
    ensures
        present_scalars(source, h).len() <= h.len(),
    decreases h.len(),
{
    if h.len() > 0 {
        lemma_scalars_at_most_samples(source, h.drop_last());
    }
}

/// An indicator's slot is empty before as many samples were fed as its lookback says.
pub proof fn law_slot_is_empty_before_its_lookback(
    cfg: CatalogueConfig,
    m: Seq<IndicatorModel>,
    samples: Seq<Sample>,
    i: int,
)
    requires
        is_catalogue(cfg, m),
        0 <= i < m.len(),
        0 < samples.len() < m[i].kernel.lookback(),
    ensures
        next_vector(all_after(m, samples.drop_last()), samples.last()) matches Ok(v)
            ==> v.states[i] is None,
{
    let pool = cfg.formula_pool@;
    let order = choose|order: Seq<int>|
        is_stable_order(pool_ids(pool), order) && m == #[trigger] catalogue_in_order(cfg, order);
    let rest = samples.drop_last();
    assert(all_after(m, rest)[i] == m[i].after(rest));
    if i < 22 {
        match m[i].kernel {
            KernelModel::Price(kind, _, cap) => {
                lemma_window_fills_slowly(m[i], rest);
            },
            KernelModel::Flow(source, kind, _, cap) => {
                assert(m[i] == flow_indicator(m[i].id, cap, m[i].quantiser, source, kind));
                law_flow_window_is_last_scalars(
                    m[i].id,
                    cap,
                    m[i].quantiser,
                    source,
                    kind,
                    samples,
                );
                lemma_scalars_at_most_samples(source, samples);
            },
            KernelModel::Formula(_, _) => {},
        }
    } else {
        let f = pool[order[i - 22]];
        law_formula_output(f.id@, f.expr, f.quantiser@, samples);
        law_no_value_before_lookback(f.expr, samples);
    }
    let outputs = Seq::new(m.len(), |j: int| all_after(m, rest)[j].updated(samples.last()).1);
    assert(outputs[i] == m[i].output(samples));
    assert(outputs[i] is Ok ==> outputs[i]->Ok_0 is None);
}

/// A catalogue's vector is not complete before as many samples were fed as its schema's largest lookback
/// says: the slot of the indicator with that lookback is still empty.
pub proof fn law_no_complete_vector_before_warm_up(
    cfg: CatalogueConfig,
    m: Seq<IndicatorModel>,
    samples: Seq<Sample>,
)
    requires
        is_catalogue(cfg, m),
        0 < samples.len() < largest(schema_of(m, cfg.effective_states()).lookbacks),
    ensures
        next_vector(all_after(m, samples.drop_last()), samples.last()) matches Ok(v)
            ==> exists|i: int| 0 <= i < v.states.len() && #[trigger] v.states[i] is None,
{
    let lookbacks = schema_of(m, cfg.effective_states()).lookbacks;
    law_largest_is_largest(lookbacks, 0);
    let i = choose|i: int| 0 <= i < lookbacks.len() && lookbacks[i] == largest(lookbacks);
    assert(lookbacks[i] == m[i].kernel.lookback());
    law_slot_is_empty_before_its_lookback(cfg, m, samples, i);
}

// ---- identity ------------------------------------------------------------------------------------

/// What identifies a catalogue: its version, its number of states, a hash of the ordered identifiers,
/// and the identifiers of the injected formulas.
#[derive(Debug, PartialEq, Eq)]
pub struct CatalogueIdentity {
    /// The catalogue's version.
    pub catalogue_version: u32,
    /// The number of states of the built-in indicators.
    pub num_states: u16,
    /// The hash of the ordered identifiers.
    pub id_hash: String,
    /// The identifiers of the injected formulas, ascending.
    pub formula_pool: Vec<String>,
}

/// What a [`CatalogueIdentity`] holds.
#[verifier::ext_equal]
pub struct IdentityModel {
    /// The catalogue's version.
    pub catalogue_version: u32,
    /// The number of states of the built-in indicators.
    pub num_states: u16,
    /// The hash of the ordered identifiers.
    pub id_hash: Seq<char>,
    /// The identifiers of the injected formulas, ascending.
    pub formula_pool: Seq<Seq<char>>,
}

impl View for CatalogueIdentity {
    type V = IdentityModel;

    open spec fn view(&self) -> IdentityModel {
        IdentityModel {
            catalogue_version: self.catalogue_version,
            num_states: self.num_states,
            id_hash: self.id_hash@,
            formula_pool: views(self.formula_pool@),
        }
    }
}

/// The bytes of some texts, each followed by a zero byte.
pub open spec fn terminated_bytes(texts: Seq<Seq<char>>) -> Seq<u8>
    decreases texts.len(),
{
    if texts.len() == 0 {
        Seq::empty()
    } else {
        (terminated_bytes(texts.drop_last()) + encode_utf8(texts.last())).push(0)
    }
}

/// Some texts, each followed by the character zero.
pub open spec fn terminated_text(texts: Seq<Seq<char>>) -> Seq<char>
    decreases texts.len(),
{
    if texts.len() == 0 {
        Seq::empty()
    } else {
        (terminated_text(texts.drop_last()) + texts.last()).push('\0')
    }
}

proof fn lemma_encode_both(a: Seq<char>, b: Seq<char>)
    ensures
        encode_utf8(a + b) == encode_utf8(a) + encode_utf8(b),
    decreases a.len(),
{
    if a.len() == 0 {
        assert(a + b =~= b);
        assert(encode_utf8(a) + encode_utf8(b) =~= encode_utf8(b));
    } else {
        assert((a + b).drop_first() =~= a.drop_first() + b);
        lemma_encode_both(a.drop_first(), b);
        assert((a + b)[0] == a[0]);
        assert(encode_utf8(a + b) =~= encode_utf8(a) + encode_utf8(b));
    }
}

/// The terminated bytes are the encoding of the terminated text.
proof fn lemma_terminated_bytes(texts: Seq<Seq<char>>)
    ensures
        terminated_bytes(texts) == encode_utf8(terminated_text(texts)),
    decreases texts.len(),
{
    if texts.len() > 0 {
        let before = terminated_text(texts.drop_last());
        let last = texts.last();
        let zero = seq!['\0'];
        lemma_terminated_bytes(texts.drop_last());
        lemma_encode_both(before, last);
        lemma_encode_both(before + last, zero);
        assert(vstd::utf8::is_ascii_chars(zero));
        vstd::utf8::is_ascii_chars_encode_utf8(zero);
        assert(encode_utf8(zero) =~= seq![0u8]) by {
            assert(zero[0] as u8 == encode_utf8(zero)[0]);
        }
        assert(terminated_text(texts) =~= before + last + zero);
        assert(terminated_bytes(texts) =~= encode_utf8(before) + encode_utf8(last) + seq![0u8]);
    }
}

/// Whether a text has no character zero in it.
pub open spec fn is_zero_free(text: Seq<char>) -> bool {
    forall|i: int| 0 <= i < text.len() ==> #[trigger] text[i] != '\0'
}

proof fn lemma_terminated_text(a: Seq<Seq<char>>, b: Seq<Seq<char>>)
    requires
        forall|i: int| 0 <= i < a.len() ==> is_zero_free(#[trigger] a[i]),
        forall|i: int| 0 <= i < b.len() ==> is_zero_free(#[trigger] b[i]),
        terminated_text(a) == terminated_text(b),
    ensures
        a == b,
    decreases a.len(),
{
    let t = terminated_text(a);
    if a.len() > 0 && b.len() > 0 {
        let x = terminated_text(a.drop_last());
        let y = terminated_text(b.drop_last());
        assert(a.last() == a[a.len() - 1] && b.last() == b[b.len() - 1]);
        assert(is_zero_free(a.last()) && is_zero_free(b.last()));
        let n = t.len() as int;
        assert(n == x.len() + a.last().len() + 1 == y.len() + b.last().len() + 1);
        if x.len() > y.len() {
            // The zero that ends `x` would stand in the last text of `b`.
            assert(x.last() == '\0');
            assert(t[x.len() - 1] == x[x.len() - 1]);
            assert(t[x.len() - 1] == b.last()[x.len() - 1 - y.len()]);
            assert(false);
        }
        if y.len() > x.len() {
            assert(y.last() == '\0');
            assert(t[y.len() - 1] == y[y.len() - 1]);
            assert(t[y.len() - 1] == a.last()[y.len() - 1 - x.len()]);
            assert(false);
        }
        assert(x =~= t.take(x.len() as int));
        assert(y =~= t.take(y.len() as int));
        assert(a.last() =~= t.subrange(x.len() as int, n - 1));
        assert(b.last() =~= t.subrange(y.len() as int, n - 1));
        assert forall|i: int| 0 <= i < a.drop_last().len() implies is_zero_free(
            #[trigger] a.drop_last()[i],
        ) by {
            assert(a.drop_last()[i] == a[i]);
        }
        assert forall|i: int| 0 <= i < b.drop_last().len() implies is_zero_free(
            #[trigger] b.drop_last()[i],
        ) by {
            assert(b.drop_last()[i] == b[i]);
        }
        lemma_terminated_text(a.drop_last(), b.drop_last());
        assert(a =~= a.drop_last().push(a.last()));
        assert(b =~= b.drop_last().push(b.last()));
    } else {
        assert(a.len() > 0 ==> t.last() == '\0');
        assert(b.len() > 0 ==> terminated_text(b).last() == '\0' && terminated_text(b).len() > 0);
        assert(a =~= b);
    }
}

/// Different listings of texts without the character zero are hashed over different bytes.
pub proof fn law_terminated_bytes_tell_listings_apart(a: Seq<Seq<char>>, b: Seq<Seq<char>>)
    requires
        forall|i: int| 0 <= i < a.len() ==> is_zero_free(#[trigger] a[i]),
        forall|i: int| 0 <= i < b.len() ==> is_zero_free(#[trigger] b[i]),
        terminated_bytes(a) == terminated_bytes(b),
    ensures
        a == b,
{
    lemma_terminated_bytes(a);
    lemma_terminated_bytes(b);
    vstd::utf8::encode_utf8_decode_utf8(terminated_text(a));
    vstd::utf8::encode_utf8_decode_utf8(terminated_text(b));
    lemma_terminated_text(a, b);
}

/// The hash of some texts in order: the SHA-256 of their terminated bytes, in hexadecimal.
pub open spec fn texts_hash(texts: Seq<Seq<char>>) -> Seq<char> {
    hex_text(sha256_of(terminated_bytes(texts)))
}

/// Computes [`texts_hash`].
pub fn hash_texts(texts: &[String]) -> (r: String)
    ensures
        r@ == texts_hash(views(texts@)),
        r@.len() == 64,
        forall|i: int| 0 <= i < r@.len() ==> is_hex_digit(#[trigger] r@[i]),
{
    let ghost keys = views(texts@);
    let mut bytes: Vec<u8> = Vec::new();
    let mut i: usize = 0;
    assert(keys.take(0) =~= Seq::empty());
    while i < texts.len()
        invariant
            i <= texts.len(),
            keys == views(texts@),
            bytes@ == terminated_bytes(keys.take(i as int)),
        decreases texts.len() - i,
    {
        proof {
            assert(keys.take(i + 1).drop_last() =~= keys.take(i as int));
            assert(keys.take(i + 1).last() == texts@[i as int]@);
        }
        push_text(&mut bytes, texts[i].as_str());
        bytes.push(0);
        i = i + 1;
    }
    assert(keys.take(i as int) =~= keys);
    let digest: Vec<u8> = sha256(&bytes);
    proof {
        lemma_hex_len(digest@);
        lemma_hex_digits(digest@);
    }
    hex(&digest)
}

/// The identity of the catalogue with `states` states and formulas under these identifiers.
pub open spec fn identity_of(states: u16, pool: Seq<Seq<char>>) -> IdentityModel {
    IdentityModel {
        catalogue_version: CATALOGUE_VERSION,
        num_states: states,
        id_hash: texts_hash(ids_of(fixed_indicators(states)) + pool),
        formula_pool: pool,
    }
}

impl Clone for CatalogueIdentity {
    fn clone(&self) -> (r: CatalogueIdentity)
        ensures
            r@ == self@,
    {
        CatalogueIdentity {
            catalogue_version: self.catalogue_version,
            num_states: self.num_states,
            id_hash: self.id_hash.clone(),
            formula_pool: copied(&self.formula_pool),
        }
    }
}

/// A copy of some texts.
pub fn copied(texts: &Vec<String>) -> (r: Vec<String>)
    ensures
        views(r@) == views(texts@),
{
    let mut out: Vec<String> = Vec::new();
    let mut i: usize = 0;
    while i < texts.len()
        invariant
            i <= texts.len(),
            views(out@) =~= views(texts@).take(i as int),
        decreases texts.len() - i,
    {
        let ghost before = views(out@);
        out.push(texts[i].clone());
        assert(views(out@) =~= before.push(texts@[i as int]@));
        i = i + 1;
    }
    assert(views(out@) =~= views(texts@));
    out
}

impl CatalogueIdentity {
    /// The hash of some identifiers in order.
    pub fn hash_ids(ids: &[String]) -> (r: String)
        ensures
            r@ == texts_hash(views(ids@)),
    {
        hash_texts(ids)
    }

    /// The identity of the catalogue that `cfg` describes.
    pub fn from_config(cfg: &CatalogueConfig) -> (r: CatalogueIdentity)
        requires
            cfg.compilable(),
        ensures
            is_sorted_listing(pool_ids(cfg.formula_pool@), r@.formula_pool),
            r@ == identity_of(cfg.effective_states(), r@.formula_pool),
    {
        let mut pool: Vec<String> = Vec::new();
        let mut i: usize = 0;
        while i < cfg.formula_pool.len()
            invariant
                i <= cfg.formula_pool.len(),
                views(pool@) =~= pool_ids(cfg.formula_pool@).take(i as int),
            decreases cfg.formula_pool.len() - i,
        {
            let ghost before = views(pool@);
            pool.push(cfg.formula_pool[i].id.clone());
            assert(views(pool@) =~= before.push(cfg.formula_pool@[i as int].id@));
            i = i + 1;
        }
        assert(views(pool@) =~= pool_ids(cfg.formula_pool@));
        let sorted: Vec<String> = sorted_texts(&pool);
        let schema: FeatureSchema = FeatureSchema::from_catalogue(cfg);
        proof {
            let keys = pool_ids(cfg.formula_pool@);
            let m = choose|m: Seq<IndicatorModel>| #[trigger]
                is_catalogue(*cfg, m) && schema@ == schema_of(m, cfg.effective_states());
            let order = choose|order: Seq<int>|
                is_stable_order(keys, order) && m == #[trigger] catalogue_in_order(*cfg, order);
            let mine = choose|o: Seq<int>|
                is_stable_order(keys, o) && views(sorted@) == #[trigger] listed(keys, o);
            law_stable_order_is_unique(keys, order, mine);
            assert(ids_of(m) =~= ids_of(fixed_indicators(cfg.effective_states())) + views(sorted@));
        }
        CatalogueIdentity {
            catalogue_version: schema.version(),
            num_states: schema.num_states(),
            id_hash: CatalogueIdentity::hash_ids(schema.ids()),
            formula_pool: sorted,
        }
    }

    /// The identity of the default catalogue.
    pub fn current() -> (r: CatalogueIdentity)
        ensures
            r@ == identity_of(5, Seq::empty()),
    {
        let r = CatalogueIdentity::from_config(&CatalogueConfig::default());
        assert(r@.formula_pool =~= Seq::empty());
        r
    }

    /// The identity of the default catalogue with formulas under these identifiers.
    pub fn current_with_pool(pool: Vec<String>) -> (r: CatalogueIdentity)
        ensures
            is_sorted_listing(views(pool@), r@.formula_pool),
            r@ == identity_of(5, r@.formula_pool),
    {
        let sorted: Vec<String> = sorted_texts(&pool);
        let schema: FeatureSchema = FeatureSchema::from_catalogue(&CatalogueConfig::default());
        let mut ids: Vec<String> = Vec::new();
        let fixed: &[String] = schema.ids();
        let mut i: usize = 0;
        while i < fixed.len()
            invariant
                i <= fixed.len(),
                views(ids@) =~= views(fixed@).take(i as int),
            decreases fixed.len() - i,
        {
            let ghost before = views(ids@);
            ids.push(fixed[i].clone());
            assert(views(ids@) =~= before.push(fixed@[i as int]@));
            i = i + 1;
        }
        assert(views(ids@) =~= views(fixed@));
        let mut j: usize = 0;
        while j < sorted.len()
            invariant
                j <= sorted.len(),
                views(ids@) =~= views(fixed@) + views(sorted@).take(j as int),
            decreases sorted.len() - j,
        {
            let ghost before = views(ids@);
            ids.push(sorted[j].clone());
            assert(views(ids@) =~= before.push(sorted@[j as int]@));
            j = j + 1;
        }
        assert(views(ids@) =~= views(fixed@) + views(sorted@));
        assert(views(fixed@) =~= ids_of(fixed_indicators(5)));
        CatalogueIdentity {
            catalogue_version: schema.version(),
            num_states: schema.num_states(),
            id_hash: CatalogueIdentity::hash_ids(ids.as_slice()),
            formula_pool: sorted,
        }
    }

    /// The same identity with another formula pool.
    pub fn with_formula_pool(self, pool: Vec<String>) -> (r: CatalogueIdentity)
        ensures
            is_sorted_listing(views(pool@), r@.formula_pool),
            r@ == (IdentityModel { formula_pool: r@.formula_pool, ..self@ }),
    {
        CatalogueIdentity {
            catalogue_version: self.catalogue_version,
            num_states: self.num_states,
            id_hash: self.id_hash,
            formula_pool: sorted_texts(&pool),
        }
    }
}

} // verus!
