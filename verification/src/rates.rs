//! The cache of ECB daily rates: for each (currency, day) either a rate
//! (a trading day), an explicit "no rate" (a day of a fetched year without a
//! published rate), or nothing (the year has not been fetched yet).

use crate::calendar::{chrono_year, year_contains, Day};
use crate::text::{std_uppercase, uppercase};
use vstd::std_specs::hash::spec_hash_map_iter;
use vstd::std_specs::iter::IteratorSpec;
use std::collections::HashMap;
use vstd::prelude::*;

verus! {

broadcast use vstd::std_specs::hash::group_hash_axioms;

/// The bit patterns of the positive, finite IEEE-754 doubles
/// (`f64::to_bits` of a value `v` with `v.is_finite() && v > 0.0`).
pub open spec fn is_positive_finite_bits(bits: u64) -> bool {
    0 < bits < 0x7FF0_0000_0000_0000u64
}

/// IEEE-754 layout of a double's bit pattern: sign bit 0 (positive), an
/// exponent field other than all ones (finite), and not the pattern of +0.0.
pub open spec fn ieee_positive_finite(bits: u64) -> bool {
    &&& bits >> 63u64 == 0
    &&& (bits >> 52u64) & 0x7FFu64 != 0x7FFu64
    &&& bits != 0
}

/// The positive finite doubles are exactly those whose bit pattern has sign
/// bit 0, an exponent field other than all ones, and is not that of zero:
/// every such pattern, and only such a pattern, is a rate.
pub proof fn lemma_positive_finite_bits(bits: u64)
    ensures
        is_positive_finite_bits(bits) <==> ieee_positive_finite(bits),
{
    assert((0 < bits && bits < 0x7FF0_0000_0000_0000u64) <==> (bits >> 63u64 == 0 && (bits
        >> 52u64) & 0x7FFu64 != 0x7FFu64 && bits != 0)) by (bit_vector);
}

/// A published EUR/X rate: a positive, finite double, held by its bit pattern.
#[derive(Clone, Copy, Debug, PartialEq, Eq, Structural)]
pub struct Rate {
    bits: u64,
}

impl View for Rate {
    type V = u64;

    closed spec fn view(&self) -> u64 {
        self.bits
    }
}

impl Rate {
    #[verifier::type_invariant]
    spec fn positive_finite(self) -> bool {
        is_positive_finite_bits(self.bits)
    }

    /// The rate with bit pattern `bits` (meaningful for positive finite patterns).
    pub closed spec fn with_bits(bits: u64) -> Rate {
        Rate { bits }
    }

    /// The rate whose double has bit pattern `bits`, if that double is finite and positive.
    pub fn from_bits(bits: u64) -> (res: Option<Rate>)
        ensures
            res.is_some() <==> is_positive_finite_bits(bits),
            res.is_some() <==> ieee_positive_finite(bits),
            res matches Some(r) ==> r == Rate::with_bits(bits) && r@ == bits,
    {
        proof {
            lemma_positive_finite_bits(bits);
        }
        if 0 < bits && bits < 0x7FF0_0000_0000_0000u64 {
            Some(Rate { bits })
        } else {
            None
        }
    }

    /// The rate built from a bit pattern has that bit pattern.
    pub proof fn lemma_with_bits(bits: u64)
        ensures
            Rate::with_bits(bits)@ == bits,
    {
    }

    /// The bit pattern of the rate's double.
    pub fn bits(&self) -> (b: u64)
        ensures
            b == self@,
            is_positive_finite_bits(b),
    {
        proof {
            use_type_invariant(self);
        }
        self.bits
    }
}

/// What the cache answers for a (currency, day) before any fetch.
#[derive(Debug)]
pub enum DayLookup {
    /// The cache holds an entry: a rate, or explicitly no rate.
    Cached(Option<Rate>),
    /// The cache holds nothing; this (currency, year) has to be fetched.
    Missing { currency: String, year: i32 },
}

/// A cache key: an (upper-case) currency code and a day number.
pub type CacheKey = (Seq<char>, int);

/// A cache entry holds no rate, or a positive finite one.
pub open spec fn rate_entry_ok(v: Option<Rate>) -> bool {
    v matches Some(r) ==> is_positive_finite_bits(r@)
}

/// Every entry of `m` holds no rate, or a positive finite one.
pub open spec fn holds_positive_rates(m: Map<CacheKey, Option<Rate>>) -> bool {
    forall|k: CacheKey| #[trigger] m.contains_key(k) ==> rate_entry_ok(m[k])
}

/// What the cache `m` answers for `code` on `day`: its entry, or `None`
/// when it holds none (and the day's year has to be fetched).
pub open spec fn cached_entry(m: Map<CacheKey, Option<Rate>>, code: Seq<char>, day: int) -> Option<
    Option<Rate>,
> {
    if m.contains_key((code, day)) {
        Some(m[(code, day)])
    } else {
        None
    }
}

/// Once the cache answers for a (currency, day), it keeps answering for it:
/// neither `RateCache::insert` nor `RateCache::extend` removes an entry.
pub proof fn lemma_cached_stays_cached(
    m: Map<CacheKey, Option<Rate>>,
    other: Map<CacheKey, Option<Rate>>,
    k: CacheKey,
    v: Option<Rate>,
    code: Seq<char>,
    day: int,
)
    requires
        cached_entry(m, code, day) is Some,
    ensures
        cached_entry(m.union_prefer_right(other), code, day) is Some,
        cached_entry(m.insert(k, v), code, day) is Some,
{
}

/// The cache, keyed by currency code and day; each currency has its own map
/// from day number to the cached entry.
#[derive(Debug)]
pub struct RateCache {
    codes: Vec<String>,
    days: Vec<HashMap<i32, Option<Rate>>>,
}

impl RateCache {
    #[verifier::type_invariant]
    spec fn well_formed(self) -> bool {
        &&& self.codes.len() == self.days.len()
        &&& forall|i: int, j: int|
            0 <= i < self.codes.len() && 0 <= j < self.codes.len() && i != j
                ==> self.codes[i]@ != self.codes[j]@
        &&& forall|i: int| 0 <= i < self.days.len() ==> day_map_ok(#[trigger] self.days[i]@)
    }

    proof fn lemma_view_positive(self)
        requires
            self.well_formed(),
        ensures
            holds_positive_rates(self@),
    {
        assert forall|k: CacheKey| #[trigger] self@.contains_key(k) implies rate_entry_ok(self@[k]) by {
            let i = self.slot(k.0);
            assert(day_map_ok(self.days[i]@));
        }
    }

    spec fn holds(self, code: Seq<char>) -> bool {
        exists|i: int| 0 <= i < self.codes.len() && self.codes[i]@ == code
    }

    spec fn slot(self, code: Seq<char>) -> int {
        choose|i: int| 0 <= i < self.codes.len() && self.codes[i]@ == code
    }

    proof fn lemma_slot(self, i: int)
        requires
            self.well_formed(),
            0 <= i < self.codes.len(),
        ensures
            self.holds(self.codes[i]@),
            self.slot(self.codes[i]@) == i,
    {
        assert(self.holds(self.codes[i]@));
    }
}

impl View for RateCache {
    type V = Map<CacheKey, Option<Rate>>;

    closed spec fn view(&self) -> Map<CacheKey, Option<Rate>> {
        Map::new(
            |k: CacheKey|
                self.holds(k.0) && i32::MIN <= k.1 <= i32::MAX && self.days[self.slot(
                    k.0,
                )]@.contains_key(k.1 as i32),
            |k: CacheKey| self.days[self.slot(k.0)]@[k.1 as i32],
        )
    }
}

impl RateCache {
    /// An empty cache.
    pub fn new() -> (c: RateCache)
        ensures
            c@ == Map::<CacheKey, Option<Rate>>::empty(),
            holds_positive_rates(c@),
    {
        let c = RateCache { codes: Vec::new(), days: Vec::new() };
        assert(c@ =~= Map::<CacheKey, Option<Rate>>::empty());
        c
    }

    fn find_slot(&self, code: &String) -> (r: Option<usize>)
        ensures
            match r {
                Some(i) => i < self.codes.len() && self.codes[i as int]@ == code@,
                None => !self.holds(code@),
            },
    {
        let mut i: usize = 0;
        while i < self.codes.len()
            invariant
                i <= self.codes.len(),
                forall|j: int| 0 <= j < i ==> self.codes[j]@ != code@,
            decreases self.codes.len() - i,
        {
            if self.codes[i] == *code {
                return Some(i);
            }
            i = i + 1;
        }
        None
    }

    /// The cached entry for `code` on `day`, if any.
    pub fn get(&self, code: &String, day: Day) -> (res: Option<Option<Rate>>)
        ensures
            res == cached_entry(self@, code@, day@),
            res matches Some(v) ==> rate_entry_ok(v),
    {
        proof {
            use_type_invariant(self);
            self.lemma_view_positive();
        }
        let n: i32 = day.number();
        match self.find_slot(code) {
            Some(i) => {
                proof {
                    self.lemma_slot(i as int);
                }
                match self.days[i].get(&n) {
                    Some(v) => Some(*v),
                    None => None,
                }
            },
            None => None,
        }
    }

    /// Sets the entry for `code` on `day` (`HashMap::insert` on the flat map).
    pub fn insert(&mut self, code: &String, day: Day, value: Option<Rate>)
        ensures
            final(self)@ == old(self)@.insert((code@, day@), value),
            holds_positive_rates(final(self)@),
    {
        let n: i32 = day.number();
        proof {
            if let Some(r) = value {
                use_type_invariant(&r);
            }
        }
        let mut single: HashMap<i32, Option<Rate>> = HashMap::new();
        single.insert(n, value);
        let ghost pre = self@;
        self.merge_currency(code, &single);
        assert(lift_days(code@, single@) =~= map![(code@, day@) => value]);
        assert(self@ =~= pre.insert((code@, day@), value));
    }

    /// Sets the entry for `code` on `day` to `value` unless the cache already
    /// has one (`Entry::or_insert` on the flat map).
    pub fn insert_if_absent(&mut self, code: &String, day: Day, value: Option<Rate>)
        ensures
            final(self)@ == (if old(self)@.contains_key((code@, day@)) {
                old(self)@
            } else {
                old(self)@.insert((code@, day@), value)
            }),
            holds_positive_rates(final(self)@),
    {
        proof {
            use_type_invariant(&*self);
            self.lemma_view_positive();
        }
        if self.get(code, day).is_none() {
            self.insert(code, day, value);
        }
    }

    /// What a rate lookup decides before any fetch: the cached entry for the
    /// upper-cased `currency` on `day`, or, when there is none, the
    /// (currency, year) whose data has to be fetched.
    pub fn rate_for_day(&self, day: Day, currency: &str) -> (res: DayLookup)
        ensures
            match res {
                DayLookup::Cached(v) => cached_entry(self@, std_uppercase(currency@), day@) == Some(
                    v,
                ) && rate_entry_ok(v),
                DayLookup::Missing { currency: c, year } => cached_entry(
                    self@,
                    std_uppercase(currency@),
                    day@,
                ) is None && c@ == std_uppercase(currency@) && year == chrono_year(day@)
                    && year_contains(year as int, day@),
            },
    {
        let code = uppercase(currency);
        self.lookup(day, code)
    }

    /// What a lookup of the (already upper-cased) `code` on `day` decides:
    /// the cached entry, or the (currency, year) to fetch.
    pub fn lookup(&self, day: Day, code: String) -> (res: DayLookup)
        ensures
            match res {
                DayLookup::Cached(v) => cached_entry(self@, code@, day@) == Some(v) && rate_entry_ok(
                    v,
                ),
                DayLookup::Missing { currency: c, year } => cached_entry(self@, code@, day@) is None
                    && c@ == code@ && year == chrono_year(day@) && year_contains(year as int, day@),
            },
    {
        match self.get(&code, day) {
            Some(v) => DayLookup::Cached(v),
            None => DayLookup::Missing { currency: code, year: day.year() },
        }
    }

    /// The entry for `currency` on `day` once its year has been fetched and
    /// merged: the cached value, or no rate if the fetch left the day absent.
    pub fn rate_after_fetch(&self, day: Day, currency: &String) -> (res: Option<Rate>)
        ensures
            res == (if self@.contains_key((currency@, day@)) {
                self@[(currency@, day@)]
            } else {
                None
            }),
            rate_entry_ok(res),
    {
        match self.get(currency, day) {
            Some(v) => v,
            None => None,
        }
    }

    /// Sets, for every day in `source`, the entry for `code` on that day to the
    /// entry `source` holds for it.
    fn merge_currency(&mut self, code: &String, source: &HashMap<i32, Option<Rate>>)
        requires
            day_map_ok(source@),
        ensures
            final(self)@ == old(self)@.union_prefer_right(lift_days(code@, source@)),
            holds_positive_rates(final(self)@),
    {
        proof {
            use_type_invariant(&*self);
        }
        let ghost pre = *self;
        let found = self.find_slot(code);
        let mut whole = RateCache::new();
        std::mem::swap(self, &mut whole);
        let RateCache { codes, mut days } = whole;
        match found {
            Some(i) => {
                proof {
                    pre.lemma_slot(i as int);
                }
                let ghost before = days[i as int]@;
                merge_day_maps(&mut days[i], source);
                proof {
                    assert(day_map_ok(before));
                    assert forall|j: int| 0 <= j < days.len() implies day_map_ok(#[trigger] days[j]@) by {
                        if j != i {
                            assert(day_map_ok(pre.days[j]@));
                        }
                    }
                }
                let next = RateCache { codes, days };
                proof {
                    next.lemma_view_positive();
                    assert forall|k: CacheKey| #![auto]
                        (next.holds(k.0) && k.0 != code@) implies next.slot(k.0) != i
                        && next.slot(k.0) == pre.slot(k.0) by {
                        assert(pre.holds(k.0));
                    }
                    assert(next@ =~= pre@.union_prefer_right(lift_days(code@, source@)));
                }
                *self = next;
            },
            None => {
                let mut codes = codes;
                codes.push(code.clone());
                days.push(source.clone());
                proof {
                    let last = codes.len() - 1;
                    assert forall|j: int| 0 <= j < days.len() implies day_map_ok(#[trigger] days[j]@) by {
                        if j != last {
                            assert(day_map_ok(pre.days[j]@));
                        }
                    }
                    assert forall|i: int, j: int|
                        0 <= i < codes.len() && 0 <= j < codes.len() && i != j
                            implies codes[i]@ != codes[j]@ by {
                        if i != last && j != last {
                            assert(pre.codes[i]@ != pre.codes[j]@);
                        } else if i == last {
                            assert(pre.codes[j]@ != code@);
                        } else {
                            assert(pre.codes[i]@ != code@);
                        }
                    }
                }
                let next = RateCache { codes, days };
                proof {
                    next.lemma_view_positive();
                    let last = next.codes.len() - 1;
                    next.lemma_slot(last);
                    assert forall|k: CacheKey| #![auto] pre.holds(k.0) implies next.holds(k.0)
                        && next.slot(k.0) == pre.slot(k.0) by {
                        let j = pre.slot(k.0);
                        pre.lemma_slot(j);
                        next.lemma_slot(j);
                    }
                    assert forall|k: CacheKey| #![auto]
                        next.holds(k.0) && k.0 != code@ implies pre.holds(k.0) by {
                        let j = next.slot(k.0);
                        assert(pre.codes[j]@ == k.0);
                    }
                    assert(next@ =~= pre@.union_prefer_right(lift_days(code@, source@)));
                }
                *self = next;
            },
        }
    }

    /// Merges `other` into this cache, its entries winning (`Extend` on the flat map).
    pub fn extend(&mut self, other: RateCache)
        ensures
            final(self)@ == old(self)@.union_prefer_right(other@),
            holds_positive_rates(final(self)@),
    {
        proof {
            use_type_invariant(&other);
        }
        proof {
            use_type_invariant(&*self);
            self.lemma_view_positive();
        }
        let ghost pre = self@;
        let mut j: usize = 0;
        assert(pre.union_prefer_right(other.codes_prefix(0)) =~= pre);
        while j < other.codes.len()
            invariant
                other.well_formed(),
                j <= other.codes.len(),
                self@ == pre.union_prefer_right(other.codes_prefix(j as int)),
                holds_positive_rates(self@),
            decreases other.codes.len() - j,
        {
            proof {
                other.lemma_slot(j as int);
                assert(other.codes_prefix(j as int).union_prefer_right(
                    lift_days(other.codes[j as int]@, other.days[j as int]@),
                ) =~= other.codes_prefix(j + 1)) by {
                    assert forall|k: CacheKey| #![auto] k.0 == other.codes[j as int]@ implies other.holds(k.0)
                        && other.slot(k.0) == j by {
                        other.lemma_slot(j as int);
                    }
                    assert forall|k: CacheKey| #![auto] other.codes_prefix(j + 1).contains_key(k) && k.0 != other.codes[j as int]@
                        implies other.codes_prefix(j as int).contains_key(k) by {
                        let i = choose|i: int| 0 <= i < j + 1 && other.codes[i]@ == k.0;
                        assert(i != j);
                    }
                }
            }
            self.merge_currency(&other.codes[j], &other.days[j]);
            j = j + 1;
        }
        assert(other.codes_prefix(other.codes.len() as int) =~= other@);
    }
}

impl RateCache {
    /// The entries of this cache for the first `count` currency slots.
    spec fn codes_prefix(self, count: int) -> Map<CacheKey, Option<Rate>> {
        Map::new(
            |k: CacheKey| self@.contains_key(k) && exists|i: int| 0 <= i < count && self.codes[i]@ == k.0,
            |k: CacheKey| self@[k],
        )
    }
}

/// Every entry of a per-currency map holds no rate, or a positive finite one.
spec fn day_map_ok(days: Map<i32, Option<Rate>>) -> bool {
    forall|k: i32| #[trigger] days.contains_key(k) ==> rate_entry_ok(days[k])
}

/// The entries of the per-currency map `days`, keyed by `code` and day number.
spec fn lift_days(code: Seq<char>, days: Map<i32, Option<Rate>>) -> Map<CacheKey, Option<Rate>> {
    Map::new(
        |k: CacheKey| k.0 == code && i32::MIN <= k.1 <= i32::MAX && days.contains_key(k.1 as i32),
        |k: CacheKey| days[k.1 as i32],
    )
}

/// The part of `source` whose keys occur among the first `count` items of `items`.
spec fn merged_prefix(
    source: Map<i32, Option<Rate>>,
    items: Seq<(&i32, &Option<Rate>)>,
    count: int,
) -> Map<i32, Option<Rate>> {
    Map::new(
        |k: i32| source.contains_key(k) && exists|j: int| 0 <= j < count && *items[j].0 == k,
        |k: i32| source[k],
    )
}

/// Inserts every entry of `source` into `target`, overwriting (`Extend` on a `HashMap`).
fn merge_day_maps(target: &mut HashMap<i32, Option<Rate>>, source: &HashMap<i32, Option<Rate>>)
    ensures
        final(target)@ == old(target)@.union_prefer_right(source@),
{
    let ghost pre = target@;
    let ghost items = spec_hash_map_iter(source).remaining();
    assert(pre.union_prefer_right(merged_prefix(source@, items, 0)) =~= pre);
    for pair in it: source.iter()
        invariant
            it.seq() == items,
            items == spec_hash_map_iter(source).remaining(),
            target@ == pre.union_prefer_right(merged_prefix(source@, items, it.index())),
    {
        let (k, v) = pair;
        let ghost idx = it.index();
        assert(source@.contains_key(*items[idx].0) && source@[*items[idx].0] == *items[idx].1);
        target.insert(*k, *v);
        assert(target@ =~= pre.union_prefer_right(merged_prefix(source@, items, idx + 1)));
    }
    assert forall|k: i32| #[trigger] source@.contains_key(k) implies merged_prefix(
        source@,
        items,
        items.len() as int,
    ).contains_key(k) by {
        assert(items.contains((&k, &source@[k])));
        let j = choose|j: int| 0 <= j < items.len() && items[j] == (&k, &source@[k]);
        assert(*items[j].0 == k);
    }
    assert(merged_prefix(source@, items, items.len() as int) =~= source@);
}

} // verus!
