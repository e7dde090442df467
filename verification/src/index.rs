//! The time index: groups quotation records by their `(hour, minute)` and
//! answers exact lookups and nearest-in-direction queries, stepping the
//! cyclic clock one minute at a time until a populated slot is found.

use vstd::prelude::*;
use crate::clock::{valid_time, minute_of_day, step_n, next_time, Direction};
use crate::record::QuoteRecord;

verus! {

#[verifier::external_type_specification]
#[verifier::external_body]
#[verifier::reject_recursive_types(K)]
#[verifier::reject_recursive_types(V)]
#[verifier::reject_recursive_types(S)]
pub struct ExMultiMap<K, V, S>(multimap::MultiMap<K, V, S>);

/// The concrete multimap the index keeps: record indices keyed by time.
pub type SlotMultiMap = multimap::MultiMap<(u8, u8), usize>;

/// What a time-keyed multimap holds: for each key present, the vector of
/// values stored under it, in insertion order.
pub uninterp spec fn slot_map(m: SlotMultiMap) -> Map<(u8, u8), Seq<usize>>;

/// Relies on multimap::MultiMap::new: creates an empty multimap.
#[verifier::external_body]
fn mm_new() -> (r: SlotMultiMap)
    ensures
        slot_map(r) =~= Map::empty(),
{
    multimap::MultiMap::new()
}

/// Relies on multimap::MultiMap::insert: pushes `v` onto the vector stored
/// under `k`, creating a one-element vector if `k` was absent.
#[verifier::external_body]
fn mm_insert(m: &mut SlotMultiMap, k: (u8, u8), v: usize)
    ensures
        slot_map(*final(m)) == slot_map(*old(m)).insert(
            k,
            if slot_map(*old(m)).contains_key(k) {
                slot_map(*old(m))[k].push(v)
            } else {
                seq![v]
            },
        ),
{
    m.insert(k, v);
}

/// Relies on multimap::MultiMap::get_vec: returns the vector stored under
/// `k`, or `None` if `k` is absent; the result is cloned out.
#[verifier::external_body]
fn mm_get_vec(m: &SlotMultiMap, k: (u8, u8)) -> (r: Option<Vec<usize>>)
    ensures
        match r {
            Some(v) => slot_map(*m).contains_key(k) && v@ == slot_map(*m)[k],
            None => !slot_map(*m).contains_key(k),
        },
{
    m.get_vec(&k).cloned()
}

/// Relies on rand::random_range: returns a uniformly random value of the
/// given range; it panics on an empty range, which the precondition rules
/// out. Nothing more than the bound can be promised of a random draw.
#[verifier::external_body]
fn random_below(n: usize) -> (r: usize)
    requires
        n > 0,
    ensures
        r < n,
{
    rand::random_range(0..n)
}

/// The indices `i < n` whose record's time equals `(hh, mm)`, in increasing
/// order.
pub open spec fn indices_at_prefix(qs: Seq<QuoteRecord>, hh: u8, mm: u8, n: int) -> Seq<usize>
    decreases n,
{
    if n <= 0 {
        Seq::empty()
    } else {
        indices_at_prefix(qs, hh, mm, n - 1) + if qs[n - 1].at_clock(hh, mm) {
            seq![(n - 1) as usize]
        } else {
            Seq::empty()
        }
    }
}

/// The indices of exactly the records whose time equals `(hh, mm)`, in
/// increasing order.
pub open spec fn indices_at(qs: Seq<QuoteRecord>, hh: u8, mm: u8) -> Seq<usize> {
    indices_at_prefix(qs, hh, mm, qs.len() as int)
}

/// Whether some record's time sits at minute-of-day `t`.
pub open spec fn has_record_at(qs: Seq<QuoteRecord>, t: int) -> bool {
    exists|i: int| 0 <= i < qs.len() && minute_of_day(qs[i].hour, qs[i].minute) == t
}

/// Every element of `indices_at_prefix` is an index below `n` of a record at
/// `(hh, mm)`, and every such index is an element.
pub proof fn lemma_indices_at_prefix_members(qs: Seq<QuoteRecord>, hh: u8, mm: u8, n: int)
    requires
        0 <= n <= qs.len(),
        qs.len() <= usize::MAX,
    ensures
        forall|j: int|
            0 <= j < indices_at_prefix(qs, hh, mm, n).len() ==> {
                let i = #[trigger] indices_at_prefix(qs, hh, mm, n)[j];
                0 <= i < n && qs[i as int].at_clock(hh, mm)
            },
        forall|i: int|
            0 <= i < n && qs[i].at_clock(hh, mm) ==> indices_at_prefix(qs, hh, mm, n).contains(
                i as usize,
            ),
    decreases n,
{
    if n > 0 {
        lemma_indices_at_prefix_members(qs, hh, mm, n - 1);
        let prev = indices_at_prefix(qs, hh, mm, n - 1);
        let tail: Seq<usize> = if qs[n - 1].at_clock(hh, mm) {
            seq![(n - 1) as usize]
        } else {
            Seq::empty()
        };
        let cur = indices_at_prefix(qs, hh, mm, n);
        assert(cur =~= prev + tail);
        assert forall|j: int|
            0 <= j < cur.len() implies #[trigger] cur[j] < n && qs[cur[j] as int].at_clock(
            hh,
            mm,
        ) by {
            if j < prev.len() {
                assert(cur[j] == prev[j]);
            } else {
                assert(cur[j] == tail[j - prev.len()]);
            }
        }
        assert forall|i: int| 0 <= i < n && qs[i].at_clock(hh, mm) implies cur.contains(
            i as usize,
        ) by {
            if i < n - 1 {
                let j = choose|j: int| 0 <= j < prev.len() && prev[j] == i as usize;
                assert(cur[j] == i as usize);
            } else {
                assert(cur[cur.len() - 1] == i as usize);
            }
        }
    }
}

/// `indices_at` is empty exactly when no record sits at the queried time.
pub proof fn lemma_indices_at_empty(qs: Seq<QuoteRecord>, hh: u8, mm: u8)
    requires
        qs.len() <= usize::MAX,
    ensures
        indices_at(qs, hh, mm).len() == 0 <==> !(exists|i: int|
            0 <= i < qs.len() && qs[i].at_clock(hh, mm)),
{
    lemma_indices_at_prefix_members(qs, hh, mm, qs.len() as int);
    if indices_at(qs, hh, mm).len() > 0 {
        let i = indices_at(qs, hh, mm)[0];
        assert(0 <= i < qs.len() && qs[i as int].at_clock(hh, mm));
    }
    if exists|i: int| 0 <= i < qs.len() && qs[i].at_clock(hh, mm) {
        let i = choose|i: int| 0 <= i < qs.len() && qs[i].at_clock(hh, mm);
        assert(indices_at(qs, hh, mm).contains(i as usize));
    }
}

/// The time index over an owned corpus of records.
pub struct Database {
    pub quotes: Vec<QuoteRecord>,
    pub slots: SlotMultiMap,
}

impl Database {
    /// The index is well-formed: every record's time is valid, and the slot
    /// map holds, under each populated key, exactly the indices of the
    /// records with that time, in increasing order.
    pub open spec fn wf(self) -> bool {
        &&& forall|i: int| 0 <= i < self.quotes@.len() ==> (#[trigger] self.quotes@[i]).wf()
        &&& forall|hh: u8, mm: u8|
            #![trigger slot_map(self.slots).contains_key((hh, mm))]
            slot_map(self.slots).contains_key((hh, mm)) <==> indices_at(
                self.quotes@,
                hh,
                mm,
            ).len() > 0
        &&& forall|hh: u8, mm: u8|
            #![trigger slot_map(self.slots)[(hh, mm)]]
            slot_map(self.slots).contains_key((hh, mm)) ==> slot_map(self.slots)[(hh, mm)]
                == indices_at(self.quotes@, hh, mm)
    }

    /// Builds the index by grouping the records under their own `(hour,
    /// minute)`; construction cannot fail.
    pub fn new(quotes: Vec<QuoteRecord>) -> (db: Database)
        requires
            forall|i: int| 0 <= i < quotes@.len() ==> (#[trigger] quotes@[i]).wf(),
        ensures
            db.wf(),
            db.quotes@ == quotes@,
    {
        let ghost qs = quotes@;
        let mut slots = mm_new();
        let n = quotes.len();
        for i in 0..n
            invariant
                n == qs.len(),
                quotes@ == qs,
                forall|hh: u8, mm: u8|
                    #![trigger slot_map(slots).contains_key((hh, mm))]
                    slot_map(slots).contains_key((hh, mm)) <==> indices_at_prefix(
                        qs,
                        hh,
                        mm,
                        i as int,
                    ).len() > 0,
                forall|hh: u8, mm: u8|
                    #![trigger slot_map(slots)[(hh, mm)]]
                    slot_map(slots).contains_key((hh, mm)) ==> slot_map(slots)[(hh, mm)]
                        == indices_at_prefix(qs, hh, mm, i as int),
        {
            let k = (quotes[i].hour, quotes[i].minute);
            proof {
                assert forall|hh: u8, mm: u8|
                    indices_at_prefix(qs, hh, mm, i + 1) == if qs[i as int].at_clock(hh, mm) {
                        indices_at_prefix(qs, hh, mm, i as int).push(i as usize)
                    } else {
                        indices_at_prefix(qs, hh, mm, i as int)
                    } by {
                    if qs[i as int].at_clock(hh, mm) {
                        assert(indices_at_prefix(qs, hh, mm, i + 1) =~= indices_at_prefix(
                            qs,
                            hh,
                            mm,
                            i as int,
                        ).push(i as usize));
                    } else {
                        assert(indices_at_prefix(qs, hh, mm, i + 1) =~= indices_at_prefix(
                            qs,
                            hh,
                            mm,
                            i as int,
                        ));
                    }
                }
            }
            mm_insert(&mut slots, k, i);
            proof {
                assert(seq![i as usize] =~= Seq::<usize>::empty().push(i as usize));
            }
        }
        Database { quotes, slots }
    }

    /// Exact lookup: the indices of exactly the records whose time equals
    /// `(hh, mm)`, in increasing order; `None` when there is no such record.
    pub fn lookup(&self, hh: u8, mm: u8) -> (r: Option<Vec<usize>>)
        requires
            self.wf(),
        ensures
            match r {
                Some(v) => v@ == indices_at(self.quotes@, hh, mm) && v@.len() > 0,
                None => indices_at(self.quotes@, hh, mm).len() == 0,
            },
    {
        mm_get_vec(&self.slots, (hh, mm))
    }

    /// Exact lookup with a uniformly random tie-break: one record whose time
    /// equals `(hh, mm)`, or `None` when there is none. Repeated calls may
    /// return different records among ties.
    pub fn at_time(&self, hh: u8, mm: u8) -> (r: Option<&QuoteRecord>)
        requires
            self.wf(),
        ensures
            match r {
                Some(q) => q.at_clock(hh, mm) && exists|i: int|
                    0 <= i < self.quotes@.len() && self.quotes@[i] == *q,
                None => !(exists|i: int|
                    0 <= i < self.quotes@.len() && (#[trigger] self.quotes@[i]).at_clock(hh, mm)),
            },
    {
        proof {
            assert(self.quotes@.len() == self.quotes.len());
            lemma_indices_at_empty(self.quotes@, hh, mm);
        }
        match self.lookup(hh, mm) {
            Some(v) => {
                let j = random_below(v.len());
                let i = v[j];
                proof {
                    lemma_indices_at_prefix_members(self.quotes@, hh, mm, self.quotes@.len() as int);
                }
                Some(&self.quotes[i])
            },
            None => None,
        }
    }

    /// Nearest-quotation query: steps the clock one minute at a time in
    /// `dir`, wrapping at the day boundaries, and returns a record from the
    /// first populated slot so reached. The number of steps it takes is the
    /// least one: every slot passed over on the way holds no record.
    pub fn around_time(&self, hh: u8, mm: u8, dir: Direction) -> (r: &QuoteRecord)
        requires
            self.wf(),
            valid_time(hh, mm),
            self.quotes@.len() > 0,
        ensures
            exists|i: int| 0 <= i < self.quotes@.len() && self.quotes@[i] == *r,
            r.wf(),
            exists|n: nat|
                #![auto]
                n < 1440 && minute_of_day(r.hour, r.minute) == step_n(
                    minute_of_day(hh, mm),
                    dir,
                    n,
                ) && (forall|j: nat|
                    j < n ==> !has_record_at(self.quotes@, step_n(minute_of_day(hh, mm), dir, j))),
    {
        let ghost t0 = minute_of_day(hh, mm);
        let mut h = hh;
        let mut m = mm;
        let mut steps: u16 = 0;
        while steps < 1440
            invariant
                self.wf(),
                valid_time(h, m),
                self.quotes@.len() > 0,
                steps <= 1440,
                t0 == minute_of_day(hh, mm),
                minute_of_day(h, m) == step_n(t0, dir, steps as nat),
                forall|j: nat| j < steps ==> !has_record_at(self.quotes@, step_n(t0, dir, j)),
            decreases 1440 - steps,
        {
            match self.at_time(h, m) {
                Some(q) => {
                    proof {
                        let i = choose|i: int|
                            0 <= i < self.quotes@.len() && self.quotes@[i] == *q;
                        assert(self.quotes@[i].wf());
                        assert(minute_of_day(q.hour, q.minute) == step_n(t0, dir, steps as nat));
                    }
                    return q;
                },
                None => {
                    proof {
                        let t = step_n(t0, dir, steps as nat);
                        assert forall|i: int|
                            0 <= i < self.quotes@.len() implies minute_of_day(
                            (#[trigger] self.quotes@[i]).hour,
                            self.quotes@[i].minute,
                        ) != t by {
                            if minute_of_day(self.quotes@[i].hour, self.quotes@[i].minute) == t {
                                assert(self.quotes@[i].wf());
                                assert(self.quotes@[i].at_clock(h, m));
                            }
                        }
                        assert(!has_record_at(self.quotes@, t));
                    }
                    let nt = next_time(h, m, dir);
                    h = nt.0;
                    m = nt.1;
                    steps = steps + 1;
                },
            }
        }
        proof {
            let q0 = self.quotes@[0];
            assert(q0.wf());
            let tq = minute_of_day(q0.hour, q0.minute);
            crate::clock::lemma_step_reaches(t0, dir, tq);
            let n = choose|n: nat| n < 1440 && step_n(t0, dir, n) == tq;
            assert(has_record_at(self.quotes@, tq));
            assert(false);
        }
        vstd::pervasive::unreached()
    }
}

/// Idempotence of the tie-broken exact lookup: two records returned for the
/// same query time carry that same time, whichever records the random
/// tie-break among ties chose.
pub proof fn lemma_at_time_idempotent(q1: QuoteRecord, q2: QuoteRecord, hh: u8, mm: u8)
    requires
        q1.at_clock(hh, mm),
        q2.at_clock(hh, mm),
    ensures
        q1.hour == q2.hour,
        q1.minute == q2.minute,
{
}

/// Idempotence of the exact lookup: on one corpus it always yields the same
/// index sequence for the same query time.
pub proof fn lemma_lookup_idempotent(
    qs: Seq<QuoteRecord>,
    hh: u8,
    mm: u8,
    v1: Seq<usize>,
    v2: Seq<usize>,
)
    requires
        v1 == indices_at(qs, hh, mm),
        v2 == indices_at(qs, hh, mm),
    ensures
        v1 == v2,
{
}

/// The first populated slot in a direction is unique: any two records that
/// both witness the nearest-in-direction contract for the same corpus, query
/// time and direction carry the same clock time, whatever the random
/// tie-break among same-time records chose.
pub proof fn lemma_around_time_unique(
    qs: Seq<QuoteRecord>,
    hh: u8,
    mm: u8,
    dir: Direction,
    r1: QuoteRecord,
    r2: QuoteRecord,
    n1: nat,
    n2: nat,
)
    requires
        r1.wf(),
        r2.wf(),
        exists|i: int| 0 <= i < qs.len() && qs[i] == r1,
        exists|i: int| 0 <= i < qs.len() && qs[i] == r2,
        n1 < 1440,
        n2 < 1440,
        minute_of_day(r1.hour, r1.minute) == step_n(minute_of_day(hh, mm), dir, n1),
        minute_of_day(r2.hour, r2.minute) == step_n(minute_of_day(hh, mm), dir, n2),
        forall|j: nat| j < n1 ==> !has_record_at(qs, step_n(minute_of_day(hh, mm), dir, j)),
        forall|j: nat| j < n2 ==> !has_record_at(qs, step_n(minute_of_day(hh, mm), dir, j)),
    ensures
        r1.hour == r2.hour,
        r1.minute == r2.minute,
{
    let t0 = minute_of_day(hh, mm);
    let i1 = choose|i: int| 0 <= i < qs.len() && qs[i] == r1;
    assert(has_record_at(qs, step_n(t0, dir, n1)));
    let i2 = choose|i: int| 0 <= i < qs.len() && qs[i] == r2;
    assert(has_record_at(qs, step_n(t0, dir, n2)));
    if n1 < n2 {
        assert(false);
    }
    if n2 < n1 {
        assert(false);
    }
}

} // verus!
