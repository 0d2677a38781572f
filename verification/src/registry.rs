//! The registry of sensors: one entry per id, kept in the sort order of the
//! ids, found by id or by position in that order.

use crate::error::StoreError;
use crate::log::csv_text;
use crate::measurement::Record;
use crate::store::{selected_from, without, SensorStore};
use crate::text::{chars_of, texts};
use crate::timestamp::{parse_timestamp, Timestamp};
use vstd::prelude::*;
use vstd::string::StringExecFns;

verus! {

/// Whether `a` comes before `b` in the order of strings: at the first
/// character in which they differ `a` has the smaller one, or `a` ends
/// there and `b` goes on.
pub open spec fn lex_less(a: Seq<char>, b: Seq<char>) -> bool
    decreases a.len(),
{
    if b.len() == 0 {
        false
    } else if a.len() == 0 {
        true
    } else if a[0] != b[0] {
        a[0] < b[0]
    } else {
        lex_less(a.skip(1), b.skip(1))
    }
}

/// Nothing comes before itself, and of two different strings exactly one
/// comes before the other.
pub proof fn lemma_lex_less_total(a: Seq<char>, b: Seq<char>)
    ensures
        !lex_less(a, a),
        a == b || lex_less(a, b) || lex_less(b, a),
        !(lex_less(a, b) && lex_less(b, a)),
    decreases a.len(),
{
    if a.len() > 0 {
        lemma_lex_less_total(a.skip(1), a.skip(1));
    }
    if a.len() > 0 && b.len() > 0 && a[0] == b[0] {
        lemma_lex_less_total(a.skip(1), b.skip(1));
        if a.skip(1) == b.skip(1) {
            assert(a =~= seq![a[0]] + a.skip(1));
        }
    }
}

/// What comes before something that comes before a third comes before the
/// third.
pub proof fn lemma_lex_less_transitive(a: Seq<char>, b: Seq<char>, c: Seq<char>)
    requires
        lex_less(a, b),
        lex_less(b, c),
    ensures
        lex_less(a, c),
    decreases a.len(),
{
    if a.len() > 0 && a[0] == b[0] && b[0] == c[0] {
        lemma_lex_less_transitive(a.skip(1), b.skip(1), c.skip(1));
    }
}

/// A sequence with `x` entered at `p` holds `x` and what it held before.
pub proof fn lemma_insert_contains<A>(s: Seq<A>, p: int, x: A)
    requires
        0 <= p <= s.len(),
    ensures
        forall|y: A| s.insert(p, x).contains(y) <==> (y == x || s.contains(y)),
{
    let t = s.insert(p, x);
    assert forall|y: A| t.contains(y) <==> (y == x || s.contains(y)) by {
        if t.contains(y) {
            let i = choose|i: int| 0 <= i < t.len() && t[i] == y;
            if i < p {
                assert(s[i] == y);
            } else if i > p {
                assert(s[i - 1] == y);
            }
        }
        if s.contains(y) {
            let j = choose|j: int| 0 <= j < s.len() && s[j] == y;
            if j < p {
                assert(t[j] == y);
            } else {
                assert(t[j + 1] == y);
            }
        }
        assert(t[p] == x);
    }
}

/// A sequence with `x` appended holds `x` and what it held before.
pub proof fn lemma_push_contains<A>(s: Seq<A>, x: A)
    ensures
        forall|y: A| s.push(x).contains(y) <==> (y == x || s.contains(y)),
{
    let t = s.push(x);
    assert forall|y: A| t.contains(y) <==> (y == x || s.contains(y)) by {
        if t.contains(y) {
            let i = choose|i: int| 0 <= i < t.len() && t[i] == y;
            if i < s.len() {
                assert(s[i] == y);
            }
        }
        if s.contains(y) {
            let j = choose|j: int| 0 <= j < s.len() && s[j] == y;
            assert(t[j] == y);
        }
        assert(t[s.len() as int] == x);
    }
}

/// Whether the ids stand in their sort order, each one once.
pub open spec fn is_sorted(ids: Seq<Seq<char>>) -> bool {
    forall|i: int, j: int| 0 <= i < j < ids.len() ==> lex_less(#[trigger] ids[i], #[trigger] ids[j])
}

/// The ids one per line: a line feed between each two, none at the end.
pub open spec fn joined(ids: Seq<Seq<char>>) -> Seq<char>
    decreases ids.len(),
{
    if ids.len() == 0 {
        Seq::empty()
    } else if ids.len() == 1 {
        ids[0]
    } else {
        joined(ids.drop_last()) + seq!['\n'] + ids.last()
    }
}

/// In a sorted list no id stands twice.
pub proof fn lemma_sorted_ids_differ(ids: Seq<Seq<char>>, i: int, j: int)
    requires
        is_sorted(ids),
        0 <= i < ids.len(),
        0 <= j < ids.len(),
        ids[i] == ids[j],
    ensures
        i == j,
{
    lemma_lex_less_total(ids[i], ids[i]);
}

/// How two strings stand to each other in the order of strings.
#[derive(Clone, Copy, Debug, PartialEq, Eq, Structural)]
pub enum Order {
    /// The first comes before the second.
    Before,
    /// The two are the same string.
    Same,
    /// The first comes after the second.
    After,
}

/// How `a` stands to `b` in the order of strings.
pub fn order_of(a: &str, b: &str) -> (order: Order)
    ensures
        match order {
            Order::Before => lex_less(a@, b@),
            Order::Same => a@ == b@,
            Order::After => lex_less(b@, a@),
        },
{
    let x = chars_of(a);
    let y = chars_of(b);
    let mut i: usize = 0;
    assert(x@.skip(0) =~= x@ && y@.skip(0) =~= y@);
    while i < x.len() && i < y.len()
        invariant
            i <= x.len(),
            i <= y.len(),
            x@ == a@,
            y@ == b@,
            x@.take(i as int) == y@.take(i as int),
            lex_less(a@, b@) == lex_less(x@.skip(i as int), y@.skip(i as int)),
            lex_less(b@, a@) == lex_less(y@.skip(i as int), x@.skip(i as int)),
        decreases x.len() - i,
    {
        let ghost p = x@.skip(i as int);
        let ghost q = y@.skip(i as int);
        if x[i] != y[i] {
            return if x[i] < y[i] {
                Order::Before
            } else {
                Order::After
            };
        }
        assert(p.skip(1) =~= x@.skip(i + 1));
        assert(q.skip(1) =~= y@.skip(i + 1));
        i += 1;
    }
    if i < y.len() {
        Order::Before
    } else if i < x.len() {
        Order::After
    } else {
        Order::Same
    }
}

/// The registry: ids in their sort order, and for each id what belongs to
/// it.
pub struct Sensors<S> {
    ids: Vec<String>,
    stores: Vec<S>,
}

impl<S> Sensors<S> {
    #[verifier::type_invariant]
    spec fn well_formed(&self) -> bool {
        &&& self.ids.len() == self.stores.len()
        &&& is_sorted(texts(self.ids@))
    }

    /// The ids, in the order of the registry.
    pub closed spec fn ids(&self) -> Seq<Seq<char>> {
        texts(self.ids@)
    }

    /// What belongs to each id, in the order of the ids.
    pub closed spec fn stores(&self) -> Seq<S> {
        self.stores@
    }

    /// A registry without a sensor.
    pub fn new() -> (sensors: Sensors<S>)
        ensures
            sensors.ids() == Seq::<Seq<char>>::empty(),
            sensors.stores() == Seq::<S>::empty(),
    {
        Sensors { ids: Vec::new(), stores: Vec::new() }
    }

    /// The number of sensors; the ids are sorted and each has its entry.
    pub fn len(&self) -> (n: usize)
        ensures
            n == self.ids().len(),
            self.ids().len() == self.stores().len(),
            is_sorted(self.ids()),
    {
        proof {
            use_type_invariant(self);
        }
        self.ids.len()
    }

    /// The position of `id` in the registry, or that of the first id after
    /// it, and whether `id` stands there.
    fn position(&self, id: &str) -> (r: (usize, bool))
        ensures
            r.0 <= self.ids().len(),
            forall|i: int| 0 <= i < r.0 ==> lex_less(#[trigger] self.ids()[i], id@),
            r.1 ==> r.0 < self.ids().len() && self.ids()[r.0 as int] == id@,
            !r.1 ==> forall|i: int|
                r.0 <= i < self.ids().len() ==> lex_less(id@, #[trigger] self.ids()[i]),
    {
        proof {
            use_type_invariant(self);
        }
        let mut i: usize = 0;
        while i < self.ids.len()
            invariant
                i <= self.ids.len(),
                is_sorted(texts(self.ids@)),
                forall|k: int| 0 <= k < i ==> lex_less(#[trigger] texts(self.ids@)[k], id@),
            decreases self.ids.len() - i,
        {
            match order_of(self.ids[i].as_str(), id) {
                Order::Before => {},
                Order::Same => {
                    return (i, true);
                },
                Order::After => {
                    assert forall|k: int| i <= k < self.ids().len() implies lex_less(
                        id@,
                        #[trigger] self.ids()[k],
                    ) by {
                        if k > i {
                            lemma_lex_less_transitive(id@, self.ids()[i as int], self.ids()[k]);
                        }
                    }
                    return (i, false);
                },
            }
            i += 1;
        }
        (i, false)
    }

    /// Enters `store` under `id`, at the place that the sort order gives
    /// it. A registry that holds `id` already stays as it is, and `false`
    /// comes back.
    pub fn insert(&mut self, id: String, store: S) -> (inserted: bool)
        ensures
            inserted == !old(self).ids().contains(id@),
            !inserted ==> final(self).ids() == old(self).ids() && final(self).stores() == old(
                self,
            ).stores(),
            inserted ==> exists|p: int|
                0 <= p <= old(self).ids().len() && final(self).ids() == #[trigger] old(
                    self,
                ).ids().insert(p, id@) && final(self).stores() == old(self).stores().insert(
                    p,
                    store,
                ),
            is_sorted(final(self).ids()),
    {
        proof {
            use_type_invariant(&*self);
        }
        let (p, found) = self.position(id.as_str());
        let ghost before = self.ids();
        if found {
            return false;
        }
        proof {
            lemma_lex_less_total(id@, id@);
            if before.contains(id@) {
                let k = choose|k: int| 0 <= k < before.len() && before[k] == id@;
                assert(lex_less(before[k], id@) || lex_less(id@, before[k]));
            }
        }
        let mut taken = Sensors { ids: Vec::new(), stores: Vec::new() };
        std::mem::swap(self, &mut taken);
        let Sensors { mut ids, mut stores } = taken;
        ids.insert(p, id);
        stores.insert(p, store);
        proof {
            assert(texts(ids@) =~= before.insert(p as int, id@));
            assert(is_sorted(texts(ids@)));
        }
        *self = Sensors { ids, stores };
        true
    }

    /// What belongs to the sensor `id`.
    pub fn get(&self, id: &str) -> (found: Option<&S>)
        ensures
            match found {
                Some(store) => exists|i: int|
                    0 <= i < self.ids().len() && #[trigger] self.ids()[i] == id@ && self.stores()[i]
                        == *store,
                None => !self.ids().contains(id@),
            },
    {
        proof {
            use_type_invariant(self);
        }
        let (p, found) = self.position(id);
        if found {
            Some(&self.stores[p])
        } else {
            proof {
                lemma_lex_less_total(id@, id@);
                if self.ids().contains(id@) {
                    let k = choose|k: int| 0 <= k < self.ids().len() && self.ids()[k] == id@;
                    assert(lex_less(self.ids()[k], id@) || lex_less(id@, self.ids()[k]));
                }
            }
            None
        }
    }

    /// What belongs to the sensor at position `n` of the sort order of the
    /// ids.
    pub fn nth(&self, n: usize) -> (found: Option<&S>)
        ensures
            match found {
                Some(store) => n < self.stores().len() && self.stores()[n as int] == *store,
                None => n >= self.ids().len(),
            },
    {
        proof {
            use_type_invariant(self);
        }
        if n < self.stores.len() {
            Some(&self.stores[n])
        } else {
            None
        }
    }

    /// The ids, in their sort order.
    pub fn keys(&self) -> (ids: &Vec<String>)
        ensures
            texts(ids@) == self.ids(),
            is_sorted(self.ids()),
    {
        proof {
            use_type_invariant(self);
        }
        &self.ids
    }

    /// The ids in their sort order, one per line.
    pub fn sensor_list(&self) -> (list: String)
        ensures
            list@ == joined(self.ids()),
    {
        let mut list = String::new();
        let mut i: usize = 0;
        while i < self.ids.len()
            invariant
                i <= self.ids.len(),
                list@ == joined(texts(self.ids@).take(i as int)),
            decreases self.ids.len() - i,
        {
            let ghost done = texts(self.ids@).take(i as int);
            let ghost next = texts(self.ids@).take(i + 1);
            assert(next.drop_last() =~= done);
            if i > 0 {
                list.push('\n');
                list.append(self.ids[i].as_str());
            } else {
                list.append(self.ids[i].as_str());
            }
            i += 1;
        }
        assert(texts(self.ids@).take(self.ids.len() as int) =~= texts(self.ids@));
        list
    }

    /// What belongs to the sensor `name`, or that there is no such sensor.
    pub fn find_by_name(&self, name: &str) -> (r: Result<&S, StoreError>)
        ensures
            match r {
                Ok(store) => exists|i: int|
                    0 <= i < self.ids().len() && #[trigger] self.ids()[i] == name@
                        && self.stores()[i] == *store,
                Err(e) => e == StoreError::NotFound && !self.ids().contains(name@),
            },
    {
        match self.get(name) {
            Some(store) => Ok(store),
            None => Err(StoreError::NotFound),
        }
    }

    /// What belongs to the sensor at position `n`, or that there is no such
    /// sensor.
    pub fn find_by_ordinal(&self, n: usize) -> (r: Result<&S, StoreError>)
        ensures
            match r {
                Ok(store) => n < self.stores().len() && self.stores()[n as int] == *store,
                Err(e) => e == StoreError::NotFound && n >= self.ids().len(),
            },
    {
        match self.nth(n) {
            Some(store) => Ok(store),
            None => Err(StoreError::NotFound),
        }
    }

    /// The sensor `name` and the point in time that `from` writes. A `from`
    /// that writes none is reported first, then a sensor that is not there.
    pub fn find_from_by_name(&self, name: &str, from: &str) -> (r: Result<
        (&S, Timestamp),
        StoreError,
    >)
        ensures
            match r {
                Ok((store, cutoff)) => parse_timestamp(from@) == Some(cutoff@) && exists|i: int|
                    0 <= i < self.ids().len() && #[trigger] self.ids()[i] == name@
                        && self.stores()[i] == *store,
                Err(StoreError::TimeParse) => parse_timestamp(from@) is None,
                Err(StoreError::NotFound) => parse_timestamp(from@) is Some && !self.ids().contains(
                    name@,
                ),
                Err(_) => false,
            },
    {
        let cutoff = parse_time(from)?;
        let store = self.find_by_name(name)?;
        Ok((store, cutoff))
    }

    /// The sensor at position `n` and the point in time that `from` writes.
    /// A `from` that writes none is reported first, then a sensor that is
    /// not there.
    pub fn find_from_by_ordinal(&self, n: usize, from: &str) -> (r: Result<
        (&S, Timestamp),
        StoreError,
    >)
        ensures
            match r {
                Ok((store, cutoff)) => parse_timestamp(from@) == Some(cutoff@) && n
                    < self.stores().len() && self.stores()[n as int] == *store,
                Err(StoreError::TimeParse) => parse_timestamp(from@) is None,
                Err(StoreError::NotFound) => parse_timestamp(from@) is Some && n
                    >= self.ids().len(),
                Err(_) => false,
            },
    {
        let cutoff = parse_time(from)?;
        let store = self.find_by_ordinal(n)?;
        Ok((store, cutoff))
    }
}

/// The point in time that `text` writes, or that it writes none.
pub fn parse_time(text: &str) -> (r: Result<Timestamp, StoreError>)
    ensures
        match r {
            Ok(time) => parse_timestamp(text@) == Some(time@),
            Err(e) => e == StoreError::TimeParse && parse_timestamp(text@) is None,
        },
{
    match Timestamp::parse(text) {
        Some(time) => Ok(time),
        None => Err(StoreError::TimeParse),
    }
}

impl Sensors<SensorStore> {
    /// A registry with an empty store for each of `ids`; an id that stands
    /// more than once is entered once.
    pub fn all(ids: &Vec<String>) -> (sensors: Sensors<SensorStore>)
        ensures
            is_sorted(sensors.ids()),
            sensors.ids().len() == sensors.stores().len(),
            forall|id: Seq<char>| sensors.ids().contains(id) <==> texts(ids@).contains(id),
            forall|i: int|
                0 <= i < sensors.stores().len() ==> {
                    let store = #[trigger] sensors.stores()[i];
                    store.spec_id() == sensors.ids()[i] && store.series() == Seq::<Record>::empty()
                },
    {
        let mut sensors: Sensors<SensorStore> = Sensors::new();
        let mut k: usize = 0;
        while k < ids.len()
            invariant
                k <= ids.len(),
                is_sorted(sensors.ids()),
                sensors.ids().len() == sensors.stores().len(),
                forall|id: Seq<char>|
                    sensors.ids().contains(id) <==> texts(ids@).take(k as int).contains(id),
                forall|i: int|
                    0 <= i < sensors.stores().len() ==> {
                        let store = #[trigger] sensors.stores()[i];
                        store.spec_id() == sensors.ids()[i] && store.series() == Seq::<Record>::empty()
                    },
            decreases ids.len() - k,
        {
            let ghost before = sensors.ids();
            let ghost stores_before = sensors.stores();
            let ghost seen = texts(ids@).take(k as int);
            let id = ids[k].clone();
            let store = SensorStore::new(id.as_str());
            let inserted = sensors.insert(id, store);
            proof {
                let name = ids@[k as int]@;
                let next = texts(ids@).take(k + 1);
                let after = sensors.ids();
                assert(next =~= seen.push(name));
                lemma_push_contains(seen, name);
                if inserted {
                    let p = choose|p: int|
                        0 <= p <= before.len() && after == #[trigger] before.insert(p, name)
                            && sensors.stores() == stores_before.insert(p, store);
                    lemma_insert_contains(before, p, name);
                }
                assert forall|id: Seq<char>| after.contains(id) <==> next.contains(id) by {
                    assert(before.contains(id) <==> seen.contains(id));
                }
            }
            k += 1;
        }
        assert(texts(ids@).take(ids.len() as int) =~= texts(ids@));
        sensors
    }

    /// Every measurement of the sensor `name`, one per line.
    pub fn get_temp_by_name(&self, name: &str) -> (r: Result<String, StoreError>)
        ensures
            match r {
                Ok(text) => exists|i: int|
                    0 <= i < self.ids().len() && #[trigger] self.ids()[i] == name@ && text@
                        == csv_text(self.stores()[i].series()),
                Err(e) => e == StoreError::NotFound && !self.ids().contains(name@),
            },
    {
        let store = self.find_by_name(name)?;
        Ok(store.as_csv())
    }

    /// Every measurement of the sensor at position `n`, one per line.
    pub fn get_temp_by_id(&self, n: usize) -> (r: Result<String, StoreError>)
        ensures
            match r {
                Ok(text) => n < self.stores().len() && text@ == csv_text(
                    self.stores()[n as int].series(),
                ),
                Err(e) => e == StoreError::NotFound && n >= self.ids().len(),
            },
    {
        let store = self.find_by_ordinal(n)?;
        Ok(store.as_csv())
    }

    /// What a query from the point in time that `from` writes selects of
    /// the sensor `name`, one measurement per line.
    pub fn get_temp_from_by_name(&self, name: &str, from: &str) -> (r: Result<String, StoreError>)
        ensures
            match r {
                Ok(text) => parse_timestamp(from@) is Some && exists|i: int|
                    0 <= i < self.ids().len() && #[trigger] self.ids()[i] == name@ && text@
                        == csv_text(
                        selected_from(self.stores()[i].series(), parse_timestamp(from@).unwrap()),
                    ),
                Err(StoreError::TimeParse) => parse_timestamp(from@) is None,
                Err(StoreError::NotFound) => parse_timestamp(from@) is Some && !self.ids().contains(
                    name@,
                ),
                Err(_) => false,
            },
    {
        let (store, cutoff) = self.find_from_by_name(name, from)?;
        Ok(store.as_csv_from(&cutoff))
    }

    /// What a query from the point in time that `from` writes selects of
    /// the sensor at position `n`, one measurement per line.
    pub fn get_temp_from_by_id(&self, n: usize, from: &str) -> (r: Result<String, StoreError>)
        ensures
            match r {
                Ok(text) => parse_timestamp(from@) is Some && n < self.stores().len() && text@
                    == csv_text(
                    selected_from(self.stores()[n as int].series(), parse_timestamp(from@).unwrap()),
                ),
                Err(StoreError::TimeParse) => parse_timestamp(from@) is None,
                Err(StoreError::NotFound) => parse_timestamp(from@) is Some && n
                    >= self.ids().len(),
                Err(_) => false,
            },
    {
        let (store, cutoff) = self.find_from_by_ordinal(n, from)?;
        Ok(store.as_csv_from(&cutoff))
    }

    /// Removes from the sensor `name` every measurement taken at the point
    /// in time that `at` writes, and returns what is left of its series, one
    /// measurement per line. An `at` that writes no point in time is reported
    /// first, then a sensor that is not there; either way nothing changes.
    pub fn remove(&mut self, name: &str, at: &str) -> (r: Result<String, StoreError>)
        ensures
            final(self).ids() == old(self).ids(),
            final(self).stores().len() == old(self).stores().len(),
            match r {
                Ok(text) => parse_timestamp(at@) is Some && exists|i: int|
                    0 <= i < old(self).ids().len() && #[trigger] old(self).ids()[i] == name@ && {
                        let before = old(self).stores()[i];
                        let after = final(self).stores()[i];
                        &&& after.spec_id() == before.spec_id()
                        &&& after.series() == without(
                            before.series(),
                            parse_timestamp(at@).unwrap(),
                        )
                        &&& text@ == csv_text(after.series())
                        &&& forall|j: int|
                            0 <= j < old(self).stores().len() && j != i ==> final(self).stores()[j]
                                == old(self).stores()[j]
                    },
                Err(StoreError::TimeParse) => parse_timestamp(at@) is None && final(self).stores()
                    == old(self).stores(),
                Err(StoreError::NotFound) => parse_timestamp(at@) is Some && !old(
                    self,
                ).ids().contains(name@) && final(self).stores() == old(self).stores(),
                Err(_) => false,
            },
    {
        proof {
            use_type_invariant(&*self);
        }
        let time = parse_time(at)?;
        let (p, found) = self.position(name);
        if !found {
            proof {
                lemma_lex_less_total(name@, name@);
                if self.ids().contains(name@) {
                    let k = choose|k: int| 0 <= k < self.ids().len() && self.ids()[k] == name@;
                    assert(lex_less(self.ids()[k], name@) || lex_less(name@, self.ids()[k]));
                }
            }
            return Err(StoreError::NotFound);
        }
        let ghost stores_before = self.stores();
        let mut taken = Sensors { ids: Vec::new(), stores: Vec::new() };
        std::mem::swap(self, &mut taken);
        let Sensors { ids, mut stores } = taken;
        let mut store = stores.remove(p);
        store.remove(&time);
        let text = store.as_csv();
        stores.insert(p, store);
        *self = Sensors { ids, stores };
        assert(forall|j: int|
            0 <= j < stores_before.len() && j != p ==> self.stores()[j] == stores_before[j]);
        Ok(text)
    }
}

} // verus!
