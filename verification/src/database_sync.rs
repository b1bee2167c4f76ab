//! The time-series store: a registry that interns meter names as one-byte
//! ids, and per meter a series of samples keyed by second.

use vstd::prelude::*;
use crate::error::ErrorKind;
use crate::model::{Model, ModelView, Sample, StoredRow};
use crate::series::{ascending, between, lemma_between_one, lemma_rank, lemma_rank_monotone,
    lemma_row_at, lemma_upsert, lemma_upsert_twice, lower_bound, newest_first, rank, row_at,
    upper_bound, upsert};

verus! {

/// The registry holds at most this many meter names; their ids are `0..=255`.
pub const MAX_METERS: usize = 256;

/// What a store holds: the registered names, each at the index that is its id,
/// and the series of each meter under the same index.
pub struct StoreView {
    pub names: Seq<Seq<char>>,
    pub series: Seq<Seq<Sample>>,
}

impl StoreView {
    pub open spec fn wf(self) -> bool {
        &&& self.names.len() == self.series.len()
        &&& self.names.len() <= MAX_METERS
        &&& self.names.no_duplicates()
        &&& forall|id: int| 0 <= id < self.series.len() ==> ascending(#[trigger] self.series[id])
    }

    pub open spec fn empty() -> StoreView {
        StoreView { names: Seq::empty(), series: Seq::empty() }
    }

    pub open spec fn knows(self, name: Seq<char>) -> bool {
        self.names.contains(name)
    }

    /// The id of a registered name.
    pub open spec fn id_of(self, name: Seq<char>) -> int {
        self.names.index_of(name)
    }

    /// The store after `name` was looked up or created: a new name gets the
    /// next free id and an empty series, unless the registry is full.
    pub open spec fn register(self, name: Seq<char>) -> StoreView {
        if self.knows(name) || self.names.len() >= MAX_METERS {
            self
        } else {
            StoreView { names: self.names.push(name), series: self.series.push(Seq::empty()) }
        }
    }

    /// The store after `x` was upserted into the series of meter `id`.
    pub open spec fn store(self, id: int, x: Sample) -> StoreView {
        StoreView { names: self.names, series: self.series.update(id, upsert(self.series[id], x)) }
    }

    /// The samples of the named meter between the optional inclusive bounds,
    /// newest first; none for a name that is not registered.
    pub open spec fn select(self, name: Seq<char>, start: Option<i64>, end: Option<i64>) -> Seq<
        Sample,
    > {
        if self.knows(name) {
            newest_first(
                between(self.series[self.id_of(name)], lower_limit(start), upper_limit(end)),
            )
        } else {
            Seq::empty()
        }
    }
}

pub open spec fn lower_limit(start: Option<i64>) -> int {
    match start {
        Some(t) => t as int,
        None => i64::MIN as int,
    }
}

pub open spec fn upper_limit(end: Option<i64>) -> int {
    match end {
        Some(t) => t as int,
        None => i64::MAX as int,
    }
}

/// Registering a name keeps the store well formed; afterwards the name is
/// known exactly if it was known before or the registry had room, and a new
/// name has the next free id.
pub proof fn lemma_register(v: StoreView, name: Seq<char>)
    requires
        v.wf(),
    ensures
        v.register(name).wf(),
        v.register(name).knows(name) <==> v.knows(name) || v.names.len() < MAX_METERS,
        !v.knows(name) && v.names.len() < MAX_METERS ==> v.register(name).id_of(name)
            == v.names.len(),
{
    let w = v.register(name);
    if !v.knows(name) && v.names.len() < MAX_METERS {
        assert(w.names[v.names.len() as int] == name);
        assert(w.names.no_duplicates()) by {
            assert forall|i: int, j: int|
                0 <= i < w.names.len() && 0 <= j < w.names.len() && i != j implies w.names[i]
                != w.names[j] by {
                if i < v.names.len() && j < v.names.len() {
                } else if i < v.names.len() {
                    assert(v.names[i] == w.names[i]);
                } else {
                    assert(v.names[j] == w.names[j]);
                }
            }
        }
        assert forall|id: int| 0 <= id < w.series.len() implies ascending(
            #[trigger] w.series[id],
        ) by {
            if id < v.series.len() {
                assert(w.series[id] == v.series[id]);
            }
        }
        assert(w.knows(name));
        let k = w.id_of(name);
        assert(w.names[k] == name);
    } else {
        assert(w == v);
    }
}

/// A registered name keeps its id when another name is looked up or created.
pub proof fn lemma_register_keeps(v: StoreView, name: Seq<char>, other: Seq<char>)
    requires
        v.wf(),
        v.knows(other),
    ensures
        v.register(name).knows(other),
        v.register(name).id_of(other) == v.id_of(other),
{
    let w = v.register(name);
    lemma_register(v, name);
    let i = v.id_of(other);
    assert(v.names[i] == other);
    assert(w.names[i] == other);
    let j = w.id_of(other);
    assert(w.names[j] == other);
}

/// Storing a sample for a registered meter keeps the store well formed.
pub proof fn lemma_store(v: StoreView, id: int, x: Sample)
    requires
        v.wf(),
        0 <= id < v.names.len(),
    ensures
        v.store(id, x).wf(),
{
    lemma_upsert(v.series[id], x);
    let w = v.store(id, x);
    assert forall|k: int| 0 <= k < w.series.len() implies ascending(#[trigger] w.series[k]) by {
        if k != id {
            assert(w.series[k] == v.series[k]);
        }
    }
}

/// Storing twice under one key leaves what the second store alone would
/// leave: one row for the key, holding the second sample.
pub proof fn lemma_store_twice(v: StoreView, id: int, a: Sample, b: Sample)
    requires
        v.wf(),
        0 <= id < v.names.len(),
        a.timestamp == b.timestamp,
    ensures
        v.store(id, a).store(id, b) == v.store(id, b),
        v.store(id, a).store(id, b).series[id].len() == v.store(id, a).series[id].len(),
        v.store(id, b).select(v.names[id], Some(b.timestamp), Some(b.timestamp)) == seq![b],
{
    lemma_upsert_twice(v.series[id], a, b);
    assert(v.store(id, a).store(id, b).series =~= v.store(id, b).series);
    lemma_stored_is_selected(v, id, b);
}

/// A query for exactly the key of the row just stored returns that row alone.
pub proof fn lemma_stored_is_selected(v: StoreView, id: int, x: Sample)
    requires
        v.wf(),
        0 <= id < v.names.len(),
    ensures
        v.store(id, x).select(v.names[id], Some(x.timestamp), Some(x.timestamp)) == seq![x],
{
    let w = v.store(id, x);
    let name = v.names[id];
    lemma_store(v, id, x);
    assert(w.names[id] == name);
    assert(w.knows(name));
    let k = w.id_of(name);
    assert(w.names[k] == name);
    assert(k == id);
    lemma_upsert(v.series[id], x);
    lemma_between_one(w.series[id], x.timestamp as int);
    assert(newest_first(seq![x]) =~= seq![x]);
}

/// The store after each of `names` was looked up or created, in order.
pub open spec fn register_all(v: StoreView, names: Seq<Seq<char>>) -> StoreView
    decreases names.len(),
{
    if names.len() == 0 {
        v
    } else {
        register_all(v, names.drop_last()).register(names.last())
    }
}

/// Distinct names registered into an empty store get the ids `0, 1, 2, ..` in
/// the order of their registration, as long as there are at most 256 of them.
pub proof fn lemma_register_all(names: Seq<Seq<char>>)
    requires
        names.no_duplicates(),
        names.len() <= MAX_METERS,
    ensures
        register_all(StoreView::empty(), names).wf(),
        register_all(StoreView::empty(), names).names == names,
    decreases names.len(),
{
    if names.len() > 0 {
        let front = names.drop_last();
        assert(front.no_duplicates()) by {
            assert forall|i: int, j: int|
                0 <= i < front.len() && 0 <= j < front.len() && i != j implies front[i]
                != front[j] by {
                assert(front[i] == names[i]);
                assert(front[j] == names[j]);
            }
        }
        lemma_register_all(front);
        let v = register_all(StoreView::empty(), front);
        lemma_register(v, names.last());
        assert(!v.knows(names.last())) by {
            if v.knows(names.last()) {
                let i = choose|i: int| 0 <= i < v.names.len() && v.names[i] == names.last();
                assert(names[i] == front[i]);
                assert(names[i] == names[names.len() - 1]);
            }
        }
        assert(v.register(names.last()).names =~= names);
    } else {
        assert(StoreView::empty().names =~= names);
    }
}

/// Once 256 distinct names are registered, a further name is refused and the
/// store stays as it is; each of the 256 keeps its id in every later lookup.
pub proof fn lemma_registry_full(names: Seq<Seq<char>>, extra: Seq<char>, i: int)
    requires
        names.no_duplicates(),
        names.len() == MAX_METERS,
        !names.contains(extra),
        0 <= i < names.len(),
    ensures
        ({
            let full = register_all(StoreView::empty(), names);
            &&& full.id_of(names[i]) == i
            &&& full.register(extra) == full
            &&& !full.register(extra).knows(extra)
            &&& full.register(names[i]) == full
        }),
{
    lemma_register_all(names);
    let full = register_all(StoreView::empty(), names);
    assert(full.names[i] == names[i]);
    assert(full.knows(names[i]));
    let k = full.id_of(names[i]);
    assert(full.names[k] == names[i]);
}

/// What a query returns for a reading just inserted: a query for the
/// reading's meter and exactly its second selects the stored sample alone,
/// and every reading that unpacks it has the inserted name, second and
/// energy counter, the counter bit for bit.
pub proof fn lemma_insert_then_query<E: Fn(u32) -> i16, D: Fn(i16) -> u32>(
    before: DatabaseSync<E, D>,
    after: DatabaseSync<E, D>,
    reading: ModelView,
    x: Sample,
    back: ModelView,
)
    requires
        before.wf(),
        before@.register(reading.meter_name).knows(reading.meter_name),
        before.packs(reading, x),
        after@ == before@.register(reading.meter_name).store(
            before@.register(reading.meter_name).id_of(reading.meter_name),
            x,
        ),
        after.unpacks(reading.meter_name, x, back),
    ensures
        after@.select(reading.meter_name, Some(reading.timestamp), Some(reading.timestamp))
            == seq![x],
        back.meter_name == reading.meter_name,
        back.timestamp == reading.timestamp,
        back.total_kwh == reading.total_kwh,
{
    let registered = before@.register(reading.meter_name);
    lemma_register(before@, reading.meter_name);
    let id = registered.id_of(reading.meter_name);
    assert(registered.names[id] == reading.meter_name);
    lemma_stored_is_selected(registered, id, x);
}

/// A store of readings, generic in the codec between single and half precision.
///
/// `encode` maps the bit pattern of a single-precision value to that of the
/// nearest half-precision value, `decode` maps back; the store applies them to
/// the three power fields and keeps the energy counter as it is.
pub struct DatabaseSync<E, D> {
    database_url: String,
    meter_names: Vec<String>,
    series: Vec<Vec<Sample>>,
    encode: E,
    decode: D,
}

impl<E: Fn(u32) -> i16, D: Fn(i16) -> u32> View for DatabaseSync<E, D> {
    type V = StoreView;

    closed spec fn view(&self) -> StoreView {
        StoreView {
            names: self.meter_names@.map_values(|s: String| s@),
            series: self.series@.map_values(|v: Vec<Sample>| v@),
        }
    }
}

impl<E: Fn(u32) -> i16, D: Fn(i16) -> u32> DatabaseSync<E, D> {
    pub closed spec fn encoder(&self) -> E {
        self.encode
    }

    pub closed spec fn decoder(&self) -> D {
        self.decode
    }

    pub closed spec fn location(&self) -> Seq<char> {
        self.database_url@
    }

    /// The contents are well formed and the codec accepts every bit pattern.
    pub open spec fn wf(&self) -> bool {
        &&& self@.wf()
        &&& forall|x: u32| #[trigger] self.encoder().requires((x,))
        &&& forall|x: i16| #[trigger] self.decoder().requires((x,))
    }

    /// `x` is what the store keeps of reading `m`.
    pub open spec fn packs(&self, m: ModelView, x: Sample) -> bool {
        &&& x.timestamp == m.timestamp
        &&& x.total_kwh == m.total_kwh
        &&& self.encoder().ensures((m.total_power,), x.total_power)
        &&& self.encoder().ensures((m.import_power,), x.import_power)
        &&& self.encoder().ensures((m.export_power,), x.export_power)
    }

    /// `m` is the reading that the store gives back for sample `x` of the
    /// named meter.
    pub open spec fn unpacks(&self, name: Seq<char>, x: Sample, m: ModelView) -> bool {
        &&& m.meter_name == name
        &&& m.timestamp == x.timestamp
        &&& m.total_kwh == x.total_kwh
        &&& self.decoder().ensures((x.total_power,), m.total_power)
        &&& self.decoder().ensures((x.import_power,), m.import_power)
        &&& self.decoder().ensures((x.export_power,), m.export_power)
    }

    /// An empty store that reports `database_url` as its location.
    pub fn new(database_url: &str, encode: E, decode: D) -> (db: Self)
        requires
            forall|x: u32| #[trigger] encode.requires((x,)),
            forall|x: i16| #[trigger] decode.requires((x,)),
        ensures
            db.wf(),
            db@ == StoreView::empty(),
            db.location() == database_url@,
            db.encoder() == encode,
            db.decoder() == decode,
    {
        let db = DatabaseSync {
            database_url: database_url.to_owned(),
            meter_names: Vec::new(),
            series: Vec::new(),
            encode,
            decode,
        };
        assert(db@.names =~= Seq::empty());
        assert(db@.series =~= Seq::empty());
        db
    }

    pub fn get_database_path(&self) -> (path: String)
        ensures
            path@ == self.location(),
    {
        self.database_url.clone()
    }

    /// Half-precision bits of a single-precision value, as the signed 16-bit
    /// integer that a row holds.
    pub fn f32_to_f16(&self, value: u32) -> (half: i16)
        requires
            self.wf(),
        ensures
            self.encoder().ensures((value,), half),
    {
        assert(self.encoder().requires((value,)));
        (self.encode)(value)
    }

    /// Single-precision bits of the half-precision value that a row holds.
    pub fn f16_to_f32(&self, value: i16) -> (single: u32)
        requires
            self.wf(),
        ensures
            self.decoder().ensures((value,), single),
    {
        assert(self.decoder().requires((value,)));
        (self.decode)(value)
    }

    /// Number of registered meters.
    pub fn meter_count(&self) -> (n: usize)
        requires
            self.wf(),
        ensures
            n == self@.names.len(),
            n <= MAX_METERS,
    {
        self.meter_names.len()
    }

    fn find(&self, name: &String) -> (found: Option<usize>)
        requires
            self.wf(),
        ensures
            match found {
                Some(i) => i < self@.names.len() && self@.names[i as int] == name@ && i
                    == self@.id_of(name@) && self@.knows(name@),
                None => !self@.knows(name@),
            },
    {
        let mut i: usize = 0;
        while i < self.meter_names.len()
            invariant
                i <= self.meter_names.len(),
                self.wf(),
                self.meter_names.len() == self@.names.len(),
                forall|j: int| 0 <= j < i ==> self@.names[j] != name@,
            decreases self.meter_names.len() - i,
        {
            assert(self@.names[i as int] == self.meter_names@[i as int]@);
            if self.meter_names[i] == *name {
                proof {
                    assert(self@.names[i as int] == name@);
                    assert(self@.names.contains(name@));
                    let k = self@.id_of(name@);
                    assert(self@.names[k] == name@);
                    assert(k == i);
                }
                return Some(i);
            }
            i += 1;
        }
        None
    }

    /// The id of a registered meter.
    pub fn meter_id(&self, meter_name: &str) -> (id: Option<u8>)
        requires
            self.wf(),
        ensures
            match id {
                Some(i) => self@.knows(meter_name@) && i == self@.id_of(meter_name@),
                None => !self@.knows(meter_name@),
            },
    {
        let name = meter_name.to_owned();
        match self.find(&name) {
            Some(i) => Some(i as u8),
            None => None,
        }
    }

    /// Looks the name up and registers it if it is new.
    ///
    /// Fails with `CapacityExceeded`, and changes nothing, exactly when the
    /// name is new and all 256 ids are taken. A name keeps the id it got.
    pub fn get_or_create_meter_id(&mut self, meter_name: &str) -> (r: Result<u8, ErrorKind>)
        requires
            old(self).wf(),
        ensures
            final(self).wf(),
            final(self).encoder() == old(self).encoder(),
            final(self).decoder() == old(self).decoder(),
            final(self).location() == old(self).location(),
            final(self)@ == old(self)@.register(meter_name@),
            match r {
                Ok(id) => final(self)@.knows(meter_name@) && id == final(self)@.id_of(
                    meter_name@,
                ),
                Err(e) => e == ErrorKind::CapacityExceeded && !old(self)@.knows(meter_name@)
                    && old(self)@.names.len() == MAX_METERS,
            },
    {
        let name = meter_name.to_owned();
        proof {
            lemma_register(self@, meter_name@);
        }
        match self.find(&name) {
            Some(i) => Ok(i as u8),
            None => {
                let n = self.meter_names.len();
                if n >= MAX_METERS {
                    return Err(ErrorKind::CapacityExceeded);
                }
                self.meter_names.push(name);
                self.series.push(Vec::new());
                proof {
                    assert(self@.names =~= old(self)@.names.push(meter_name@));
                    assert(self@.series =~= old(self)@.series.push(Seq::empty()));
                    assert forall|x: u32| #[trigger] self.encoder().requires((x,)) by {
                        assert(old(self).encoder().requires((x,)));
                    }
                    assert forall|x: i16| #[trigger] self.decoder().requires((x,)) by {
                        assert(old(self).decoder().requires((x,)));
                    }
                }
                Ok(n as u8)
            },
        }
    }

    /// Upserts `x` into the series of the registered meter `id`.
    fn put(&mut self, id: usize, x: Sample)
        requires
            old(self).wf(),
            id < old(self)@.names.len(),
        ensures
            final(self).wf(),
            final(self).encoder() == old(self).encoder(),
            final(self).decoder() == old(self).decoder(),
            final(self).location() == old(self).location(),
            final(self)@ == old(self)@.store(id as int, x),
    {
        let ghost before = self.series@[id as int]@;
        assert(before == self@.series[id as int]);
        let p = lower_bound(&self.series[id], x.timestamp);
        proof {
            lemma_rank(before, x.timestamp as int);
            lemma_rank(before, x.timestamp + 1);
            lemma_rank_monotone(before, x.timestamp as int, x.timestamp + 1);
            lemma_store(self@, id as int, x);
        }
        if p < self.series[id].len() && self.series[id][p].timestamp == x.timestamp {
            self.series[id].set(p, x);
            proof {
                let q = rank(before, x.timestamp + 1);
                if q > p + 1 {
                    assert(before[p + 1].timestamp < x.timestamp + 1);
                }
                assert(q == p + 1);
                assert(self.series@[id as int]@ =~= upsert(before, x));
            }
        } else {
            self.series[id].insert(p, x);
            proof {
                let q = rank(before, x.timestamp + 1);
                if q > p {
                    assert(before[p as int].timestamp < x.timestamp + 1);
                }
                assert(q == p);
                assert(self.series@[id as int]@ =~= upsert(before, x));
            }
        }
        proof {
            assert(self@.names =~= old(self)@.names);
            assert(self@.series =~= old(self)@.store(id as int, x).series);
            assert forall|v: u32| #[trigger] self.encoder().requires((v,)) by {
                assert(old(self).encoder().requires((v,)));
            }
            assert forall|v: i16| #[trigger] self.decoder().requires((v,)) by {
                assert(old(self).decoder().requires((v,)));
            }
        }
    }

    /// Stores a reading: registers its meter if the name is new, encodes the
    /// three power values and upserts the row under `(meter, timestamp)`.
    ///
    /// Fails with `CapacityExceeded`, and changes nothing, exactly when the
    /// name is new and the registry is full.
    pub fn insert_meter_reading(&mut self, reading: &Model) -> (r: Result<(), ErrorKind>)
        requires
            old(self).wf(),
        ensures
            final(self).wf(),
            final(self).encoder() == old(self).encoder(),
            final(self).decoder() == old(self).decoder(),
            final(self).location() == old(self).location(),
            match r {
                Ok(()) => {
                    let registered = old(self)@.register(reading@.meter_name);
                    &&& registered.knows(reading@.meter_name)
                    &&& exists|x: Sample|
                        #![trigger registered.store(registered.id_of(reading@.meter_name), x)]
                        old(self).packs(reading@, x) && final(self)@ == registered.store(
                            registered.id_of(reading@.meter_name),
                            x,
                        )
                },
                Err(e) => e == ErrorKind::CapacityExceeded && !old(self)@.knows(
                    reading@.meter_name,
                ) && old(self)@.names.len() == MAX_METERS && final(self)@ == old(self)@,
            },
    {
        let id = match self.get_or_create_meter_id(reading.meter_name.as_str()) {
            Ok(id) => id,
            Err(e) => {
                return Err(e);
            },
        };
        let x = Sample {
            timestamp: reading.timestamp,
            total_power: self.f32_to_f16(reading.total_power),
            import_power: self.f32_to_f16(reading.import_power),
            export_power: self.f32_to_f16(reading.export_power),
            total_kwh: reading.total_kwh,
        };
        proof {
            assert(self@.names[id as int] == reading@.meter_name);
        }
        self.put(id as usize, x);
        proof {
            let registered = old(self)@.register(reading@.meter_name);
            assert(old(self).packs(reading@, x));
            assert(self@ == registered.store(registered.id_of(reading@.meter_name), x));
        }
        Ok(())
    }

    /// Stores a row under the id it names.
    ///
    /// Fails with `Storage`, and changes nothing, exactly when no meter is
    /// registered under that id.
    pub fn insert_row(&mut self, row: StoredRow) -> (r: Result<(), ErrorKind>)
        requires
            old(self).wf(),
        ensures
            final(self).wf(),
            final(self).encoder() == old(self).encoder(),
            final(self).decoder() == old(self).decoder(),
            final(self).location() == old(self).location(),
            match r {
                Ok(()) => row.meter_id < old(self)@.names.len() && final(self)@ == old(self)@.store(
                    row.meter_id as int,
                    row.sample(),
                ),
                Err(e) => e == ErrorKind::Storage && row.meter_id >= old(self)@.names.len()
                    && final(self)@ == old(self)@,
            },
    {
        if row.meter_id as usize >= self.meter_names.len() {
            return Err(ErrorKind::Storage);
        }
        self.put(row.meter_id as usize, row.sample());
        Ok(())
    }

    /// The readings of a meter between two optional inclusive bounds, newest
    /// first, with the power values decoded. A name that is not registered has
    /// no readings.
    pub fn get_meter_readings(
        &self,
        meter_name: &str,
        start_time: Option<i64>,
        end_time: Option<i64>,
    ) -> (readings: Vec<Model>)
        requires
            self.wf(),
        ensures
            readings.len() == self@.select(meter_name@, start_time, end_time).len(),
            forall|i: int|
                0 <= i < readings.len() ==> self.unpacks(
                    meter_name@,
                    self@.select(meter_name@, start_time, end_time)[i],
                    (#[trigger] readings[i])@,
                ),
    {
        let name = meter_name.to_owned();
        let mut out: Vec<Model> = Vec::new();
        let id = match self.find(&name) {
            Some(id) => id,
            None => {
                return out;
            },
        };
        let series = &self.series[id];
        assert(series@ == self@.series[id as int]);
        let lo = match start_time {
            Some(t) => lower_bound(series, t),
            None => 0,
        };
        let hi = match end_time {
            Some(t) => upper_bound(series, t),
            None => series.len(),
        };
        let ghost a = lower_limit(start_time);
        let ghost b = upper_limit(end_time);
        let ghost picked = between(series@, a, b);
        proof {
            lemma_rank(series@, a);
            lemma_rank(series@, b + 1);
            if start_time is None {
                crate::series::lemma_rank_is(series@, a, 0);
            }
            if end_time is None {
                crate::series::lemma_rank_is(series@, b + 1, series@.len() as int);
            }
            if a <= b {
                lemma_rank_monotone(series@, a, b + 1);
            } else {
                lemma_rank_monotone(series@, b + 1, a);
            }
            assert(picked.len() == if lo <= hi { hi - lo } else { 0 });
            assert(self@.select(meter_name@, start_time, end_time) == newest_first(picked));
        }
        if lo >= hi {
            return out;
        }
        let mut i = hi;
        while i > lo
            invariant
                self.wf(),
                id < self@.series.len(),
                series@ == self@.series[id as int],
                lo <= i <= hi <= series.len(),
                picked =~= series@.subrange(lo as int, hi as int),
                name@ == meter_name@,
                out.len() == hi - i,
                forall|k: int|
                    0 <= k < out.len() ==> self.unpacks(
                        meter_name@,
                        series@[hi - 1 - k],
                        (#[trigger] out[k])@,
                    ),
            decreases i,
        {
            i -= 1;
            let x = series[i];
            let m = Model {
                meter_name: name.clone(),
                timestamp: x.timestamp,
                total_power: self.f16_to_f32(x.total_power),
                import_power: self.f16_to_f32(x.import_power),
                export_power: self.f16_to_f32(x.export_power),
                total_kwh: x.total_kwh,
            };
            out.push(m);
        }
        proof {
            assert forall|k: int| 0 <= k < out.len() implies self.unpacks(
                meter_name@,
                self@.select(meter_name@, start_time, end_time)[k],
                (#[trigger] out[k])@,
            ) by {
                assert(newest_first(picked)[k] == picked[picked.len() - 1 - k]);
                assert(picked[picked.len() - 1 - k] == series@[hi - 1 - k]);
            }
        }
        out
    }

    /// The name registered under an id.
    pub fn meter_name(&self, meter_id: u8) -> (name: Option<String>)
        requires
            self.wf(),
        ensures
            match name {
                Some(n) => meter_id < self@.names.len() && n@ == self@.names[meter_id as int],
                None => meter_id >= self@.names.len(),
            },
    {
        if (meter_id as usize) < self.meter_names.len() {
            let n = self.meter_names[meter_id as usize].clone();
            assert(self@.names[meter_id as int] == self.meter_names@[meter_id as int]@);
            Some(n)
        } else {
            None
        }
    }

    /// The rows of one meter, oldest first; none for an id that is not in use.
    pub fn meter_rows(&self, meter_id: u8) -> (rows: Vec<StoredRow>)
        requires
            self.wf(),
        ensures
            meter_id >= self@.names.len() ==> rows@.len() == 0,
            meter_id < self@.names.len() ==> rows@ == self@.series[meter_id as int].map_values(
                |x: Sample| StoredRow::of(meter_id, x),
            ),
    {
        let mut rows: Vec<StoredRow> = Vec::new();
        if (meter_id as usize) < self.series.len() {
            let series = &self.series[meter_id as usize];
            assert(series@ == self@.series[meter_id as int]);
            let mut i: usize = 0;
            while i < series.len()
                invariant
                    i <= series.len(),
                    rows@ == series@.take(i as int).map_values(
                        |x: Sample| StoredRow::of(meter_id, x),
                    ),
                decreases series.len() - i,
            {
                rows.push(StoredRow::new(meter_id, series[i]));
                assert(series@.take(i + 1).map_values(|x: Sample| StoredRow::of(meter_id, x))
                    =~= series@.take(i as int).map_values(
                    |x: Sample| StoredRow::of(meter_id, x),
                ).push(StoredRow::of(meter_id, series@[i as int])));
                i += 1;
            }
            assert(series@.take(series.len() as int) =~= series@);
        }
        rows
    }

    /// The row stored under `(meter_id, timestamp)`, if there is one.
    pub fn get_row(&self, meter_id: u8, timestamp: i64) -> (row: Option<StoredRow>)
        requires
            self.wf(),
        ensures
            row == if meter_id < self@.names.len() {
                match row_at(self@.series[meter_id as int], timestamp as int) {
                    Some(x) => Some(StoredRow::of(meter_id, x)),
                    None => None,
                }
            } else {
                None
            },
    {
        if meter_id as usize >= self.series.len() {
            return None;
        }
        let series = &self.series[meter_id as usize];
        assert(series@ == self@.series[meter_id as int]);
        let p = lower_bound(series, timestamp);
        proof {
            lemma_rank(series@, timestamp as int);
            lemma_rank(series@, timestamp + 1);
            lemma_row_at(series@, timestamp as int);
        }
        if p < series.len() && series[p].timestamp == timestamp {
            proof {
                let q = rank(series@, timestamp + 1);
                if q <= p {
                    assert(series@[p as int].timestamp >= timestamp + 1);
                }
            }
            Some(StoredRow::new(meter_id, series[p]))
        } else {
            proof {
                let q = rank(series@, timestamp + 1);
                if q > p {
                    assert(series@[p as int].timestamp < timestamp + 1);
                    assert(series@[p as int].timestamp >= timestamp);
                }
            }
            None
        }
    }

    /// The series of a registered meter, oldest sample first.
    pub fn samples(&self, meter_id: u8) -> (series: &Vec<Sample>)
        requires
            self.wf(),
            meter_id < self@.names.len(),
        ensures
            series@ == self@.series[meter_id as int],
            ascending(series@),
    {
        &self.series[meter_id as usize]
    }

    /// Puts `with` in the place of the series of a registered meter, in one step.
    pub(crate) fn replace_series(&mut self, meter_id: u8, with: Vec<Sample>)
        requires
            old(self).wf(),
            meter_id < old(self)@.names.len(),
            ascending(with@),
        ensures
            final(self).wf(),
            final(self).encoder() == old(self).encoder(),
            final(self).decoder() == old(self).decoder(),
            final(self).location() == old(self).location(),
            final(self)@.names == old(self)@.names,
            final(self)@.series == old(self)@.series.update(meter_id as int, with@),
    {
        self.series.set(meter_id as usize, with);
        proof {
            assert(self@.names =~= old(self)@.names);
            assert(self@.series =~= old(self)@.series.update(meter_id as int, with@));
            assert forall|v: u32| #[trigger] self.encoder().requires((v,)) by {
                assert(old(self).encoder().requires((v,)));
            }
            assert forall|v: i16| #[trigger] self.decoder().requires((v,)) by {
                assert(old(self).decoder().requires((v,)));
            }
            assert forall|id: int| 0 <= id < self@.series.len() implies ascending(
                #[trigger] self@.series[id],
            ) by {
                if id != meter_id {
                    assert(self@.series[id] == old(self)@.series[id]);
                }
            }
        }
    }
}

} // verus!
