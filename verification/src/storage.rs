use vstd::prelude::*;

use crate::data_type::{FlData, FlDataReference, GenerationSelector};
use crate::grouping::{
    group_by_name, is_grouping, key_position, keys_sorted, lemma_insert_keeps_sorted,
    lemma_sorted_key_unique,
};
use crate::text::{
    lemma_lex_lt_asymmetric, lemma_lex_lt_total, lemma_lex_lt_transitive, lex_lt, split_group,
    split_group_name, str_eq, str_lt,
};

verus! {

/// Identifier of a data bag.
#[derive(Debug, Clone, Copy, PartialEq, Eq, Hash, Structural)]
pub struct BagId(u64);

impl View for BagId {
    type V = u64;

    closed spec fn view(&self) -> u64 {
        self.0
    }
}

impl BagId {
    pub fn new(field0: u64) -> (r: Self)
        ensures
            r@ == field0,
    {
        Self(field0)
    }

    pub fn into_inner(self) -> (r: u64)
        ensures
            r == self@,
    {
        self.0
    }

    /// Two identifiers are equal exactly when their numbers are.
    pub proof fn lemma_view_injective(a: BagId, b: BagId)
        ensures
            (a@ == b@) == (a == b),
    {
    }
}

/// `rand::random::<NonZeroU64>()`: a random 64-bit number that is never zero
/// (rand rejects zero and draws again).
#[verifier::external_body]
fn random_nonzero_u64() -> (r: u64)
    ensures
        r != 0,
{
    rand::random::<std::num::NonZeroU64>().get()
}

/// A fresh, non-zero bag identifier.
fn gen_id() -> (r: u64)
    ensures
        r != 0,
{
    random_nonzero_u64()
}

/// A moment as seconds since the Unix epoch and the nanoseconds within that second.
#[derive(Debug, Clone, Copy, PartialEq, Eq, Structural)]
pub struct Timestamp {
    pub secs: i64,
    pub nanos: u32,
}

/// Whether `a` comes strictly before `b`.
pub open spec fn timestamp_lt(a: Timestamp, b: Timestamp) -> bool {
    a.secs < b.secs || (a.secs == b.secs && a.nanos < b.nanos)
}

/// The current time: `chrono::DateTime::<Utc>::from(SystemTime::now())`,
/// split into `timestamp()` and `timestamp_subsec_nanos()`. The moment
/// depends on the clock. chrono converts times before 1970 as well as after
/// it, and builds the nanoseconds from a `Duration`'s sub-second part (or
/// one second less it), so they stay below one second. The conversion
/// panics only for a clock set beyond the years chrono represents (about
/// 262 000 years from now), a fault of the machine that no clause excludes.
#[verifier::external_body]
fn now_utc() -> (r: Timestamp)
    ensures
        r.nanos < 1_000_000_000,
{
    let now = chrono::DateTime::<chrono::Utc>::from(std::time::SystemTime::now());
    Timestamp { secs: now.timestamp(), nanos: now.timestamp_subsec_nanos() }
}

/// A datum inside a bag, with its name and the generation it was stored under.
#[derive(Debug)]
pub struct ManagedData {
    pub generation: u64,
    pub name: String,
    pub data: FlData,
}

impl ManagedData {
    /// The reference that designates exactly this generation of the datum.
    pub fn reference(&self) -> (r: FlDataReference)
        ensures
            r.name@ == self.name@,
            r.generation == GenerationSelector::Generation(self.generation),
            r.data_type == self.data.spec_data_type(),
    {
        FlDataReference::new(
            self.name.clone(),
            GenerationSelector::Generation(self.generation),
            self.data.data_type(),
        )
    }
}

impl From<ManagedData> for FlDataReference {
    fn from(value: ManagedData) -> (r: Self) {
        FlDataReference::new(
            value.name,
            GenerationSelector::Generation(value.generation),
            value.data.data_type(),
        )
    }
}

impl vstd::std_specs::convert::FromSpecImpl<ManagedData> for FlDataReference {
    open spec fn obeys_from_spec() -> bool {
        true
    }

    open spec fn from_spec(value: ManagedData) -> Self {
        FlDataReference {
            name: value.name,
            generation: GenerationSelector::Generation(value.generation),
            data_type: value.data.spec_data_type(),
        }
    }
}

/// Why a storage request was refused.
#[derive(Debug, Clone, Copy, PartialEq, Eq, Structural)]
pub enum StorageError {
    BagNotFound,
    DataNotFound,
}

/// Whether entry `k` is the first entry of `c` under the name `n`.
pub open spec fn is_first_key(c: Seq<(String, u64)>, n: Seq<char>, k: int) -> bool {
    &&& 0 <= k < c.len()
    &&& c[k].0@ == n
    &&& forall|j: int| 0 <= j < k ==> c[j].0@ != n
}

/// The counter kept for the name `n`: that of its first entry.
pub open spec fn counter_of(c: Seq<(String, u64)>, n: Seq<char>) -> Option<u64> {
    if exists|k: int| is_first_key(c, n, k) {
        Some(c[choose|k: int| is_first_key(c, n, k)].1)
    } else {
        None
    }
}

/// Where the first entry of `n` stands at `k`, its counter is that entry's.
pub proof fn lemma_first_key_unique(c: Seq<(String, u64)>, n: Seq<char>, k: int)
    requires
        is_first_key(c, n, k),
    ensures
        counter_of(c, n) == Some(c[k].1),
{
    let k2 = choose|k: int| is_first_key(c, n, k);
    assert(is_first_key(c, n, k2));
    if k2 < k {
        assert(c[k2].0@ != n);
    }
    if k < k2 {
        assert(c[k].0@ != n);
    }
}

/// A name without an entry has no counter.
pub proof fn lemma_no_key(c: Seq<(String, u64)>, n: Seq<char>)
    requires
        forall|j: int| 0 <= j < c.len() ==> c[j].0@ != n,
    ensures
        counter_of(c, n) is None,
{
}

/// Whether index `i` of `list` is the datum that `reference` designates:
/// for a fixed generation, the first datum of that name and generation;
/// for the latest, the last datum of that name with the greatest generation.
pub open spec fn selects(list: Seq<ManagedData>, reference: FlDataReference, i: int) -> bool {
    &&& 0 <= i < list.len()
    &&& list[i].name@ == reference.name@
    &&& match reference.generation {
        GenerationSelector::Latest => forall|j: int|
            0 <= j < list.len() && list[j].name@ == reference.name@ ==> (list[j].generation
                <= list[i].generation && (i < j ==> list[j].generation < list[i].generation)),
        GenerationSelector::Generation(g) => list[i].generation == g && forall|j: int|
            0 <= j < i ==> !(list[j].name@ == reference.name@ && list[j].generation == g),
    }
}

/// At most one index is designated by a reference.
pub proof fn lemma_selects_unique(
    list: Seq<ManagedData>,
    reference: FlDataReference,
    i: int,
    k: int,
)
    requires
        selects(list, reference, i),
        selects(list, reference, k),
    ensures
        i == k,
{
}

/// A named collection of data, each name stored under successive generations.
#[derive(Debug)]
pub struct Bag {
    pub id: BagId,
    pub name: String,
    pub created_at: Timestamp,
    pub data_list: Vec<ManagedData>,
    pub generation_counter: Vec<(String, u64)>,
}

impl Bag {
    /// The generation the next datum of name `n` will be stored under.
    pub open spec fn spec_next_generation(&self, n: Seq<char>) -> u64 {
        match counter_of(self.generation_counter@, n) {
            Some(g) => g,
            None => 0,
        }
    }

    /// Whether the counters account for every stored datum: each name has a
    /// counter above the generation of every datum of that name.
    pub open spec fn counters_consistent(&self) -> bool {
        forall|i: int|
            0 <= i < self.data_list@.len() ==> (#[trigger] counter_of(
                self.generation_counter@,
                self.data_list@[i].name@,
            ) matches Some(c) && self.data_list@[i].generation < c)
    }

    /// Position of the first counter entry under `name`.
    fn find_counter(&self, name: &str) -> (r: Option<usize>)
        ensures
            match r {
                Some(k) => is_first_key(self.generation_counter@, name@, k as int),
                None => forall|j: int|
                    0 <= j < self.generation_counter@.len() ==> self.generation_counter@[j].0@
                        != name@,
            },
    {
        let mut k: usize = 0;
        while k < self.generation_counter.len()
            invariant
                k <= self.generation_counter@.len(),
                forall|j: int| 0 <= j < k ==> self.generation_counter@[j].0@ != name@,
            decreases self.generation_counter@.len() - k,
        {
            if str_eq(self.generation_counter[k].0.as_str(), name) {
                return Some(k);
            }
            k = k + 1;
        }
        None
    }

    /// The generation the next datum of this name will be stored under.
    pub fn next_generation(&self, name: &str) -> (r: u64)
        ensures
            r == self.spec_next_generation(name@),
    {
        match self.find_counter(name) {
            Some(k) => {
                proof {
                    lemma_first_key_unique(self.generation_counter@, name@, k as int);
                }
                self.generation_counter[k].1
            },
            None => 0,
        }
    }

    /// The datum that `reference` designates.
    pub fn data_by_reference(&self, reference: &FlDataReference) -> (r: Result<
        &FlData,
        StorageError,
    >)
        ensures
            match r {
                Ok(d) => exists|i: int|
                    selects(self.data_list@, *reference, i) && *d == self.data_list@[i].data,
                Err(e) => e == StorageError::DataNotFound && forall|i: int|
                    !selects(self.data_list@, *reference, i),
            },
    {
        let n = self.data_list.len();
        match reference.generation {
            GenerationSelector::Latest => {
                let mut best: Option<usize> = None;
                let mut i: usize = 0;
                while i < n
                    invariant
                        n == self.data_list@.len(),
                        i <= n,
                        reference.generation == GenerationSelector::Latest,
                        match best {
                            Some(b) => selects(self.data_list@.take(i as int), *reference, b as int),
                            None => forall|j: int|
                                0 <= j < i ==> self.data_list@[j].name@ != reference.name@,
                        },
                    decreases n - i,
                {
                    let d = &self.data_list[i];
                    if str_eq(d.name.as_str(), reference.name.as_str()) {
                        match best {
                            Some(b) => {
                                if d.generation >= self.data_list[b].generation {
                                    best = Some(i);
                                }
                            },
                            None => {
                                best = Some(i);
                            },
                        }
                    }
                    assert(self.data_list@.take(i + 1) =~= self.data_list@.take(i as int).push(
                        self.data_list@[i as int],
                    ));
                    i = i + 1;
                }
                assert(self.data_list@.take(n as int) =~= self.data_list@);
                match best {
                    Some(b) => Ok(&self.data_list[b].data),
                    None => Err(StorageError::DataNotFound),
                }
            },
            GenerationSelector::Generation(g) => {
                let mut i: usize = 0;
                while i < n
                    invariant
                        n == self.data_list@.len(),
                        i <= n,
                        reference.generation == GenerationSelector::Generation(g),
                        forall|j: int|
                            0 <= j < i ==> !(self.data_list@[j].name@ == reference.name@
                                && self.data_list@[j].generation == g),
                    decreases n - i,
                {
                    let d = &self.data_list[i];
                    if d.generation == g && str_eq(
                        d.name.as_str(),
                        reference.name.as_str(),
                    ) {
                        assert(selects(self.data_list@, *reference, i as int));
                        return Ok(&d.data);
                    }
                    i = i + 1;
                }
                Err(StorageError::DataNotFound)
            },
        }
    }
}


/// Read access to the stored bags.
pub trait StorageQuery {
    /// The stored bags, in storage order.
    spec fn stored_bags(&self) -> Seq<Bag>;

    /// Every stored bag.
    fn list_bags(&self) -> (r: Result<&[Bag], StorageError>)
        ensures
            r matches Ok(bags) && bags@ == self.stored_bags(),
    ;

    /// The bag stored under `bag_id`.
    fn get_bag(&self, bag_id: BagId) -> (r: Result<&Bag, StorageError>)
        ensures
            match r {
                Ok(b) => exists|i: int|
                    0 <= i < self.stored_bags().len() && self.stored_bags()[i] == *b && b.id == bag_id,
                Err(e) => e == StorageError::BagNotFound && !has_bag(self.stored_bags(), bag_id),
            },
    ;
}

/// A fresh bag holding the given fields and no data.
pub open spec fn empty_bag(b: Bag, id: BagId, name: String) -> bool {
    &&& b.id == id
    &&& b.name == name
    &&& b.data_list@.len() == 0
    &&& b.generation_counter@.len() == 0
}

/// Whether `bags` holds a bag under `id`.
pub open spec fn has_bag(bags: Seq<Bag>, id: BagId) -> bool {
    exists|i: int| 0 <= i < bags.len() && bags[i].id == id
}

/// The bag at index `i` after a datum of name `n` was added to it under the
/// generation its counter gave.
pub open spec fn inserted_into(old_bag: Bag, new_bag: Bag, n: String, data: FlData) -> bool {
    let g = old_bag.spec_next_generation(n@);
    &&& new_bag.id == old_bag.id
    &&& new_bag.name == old_bag.name
    &&& new_bag.created_at == old_bag.created_at
    &&& new_bag.data_list@ == old_bag.data_list@.push(
        ManagedData { generation: g, name: n, data: data },
    )
    &&& forall|m: Seq<char>|
        #![trigger counter_of(new_bag.generation_counter@, m)]
        counter_of(new_bag.generation_counter@, m) == if m == n@ {
            Some((g + 1) as u64)
        } else {
            counter_of(old_bag.generation_counter@, m)
        }
}

/// All bags of the application, each under its own identifier.
pub struct Storage {
    bags: Vec<Bag>,
}

impl View for Storage {
    type V = Seq<Bag>;

    closed spec fn view(&self) -> Seq<Bag> {
        self.bags@
    }
}

impl Default for Storage {
    fn default() -> (r: Self)
        ensures
            r@.len() == 0,
    {
        Storage { bags: Vec::new() }
    }
}

impl Storage {
    /// No two bags share an identifier.
    pub open spec fn wf(&self) -> bool {
        forall|i: int, j: int| 0 <= i < j < self@.len() ==> self@[i].id != self@[j].id
    }

    /// Whether a datum of name `n` can be added to bag `id` without its
    /// generation counter overflowing.
    pub open spec fn can_insert(&self, id: BagId, n: Seq<char>) -> bool {
        forall|i: int|
            0 <= i < self@.len() && self@[i].id == id ==> self@[i].spec_next_generation(n)
                < u64::MAX
    }

    /// Position of the bag under `id`.
    fn find_bag(&self, id: BagId) -> (r: Option<usize>)
        ensures
            match r {
                Some(i) => i < self@.len() && self@[i as int].id == id,
                None => !has_bag(self@, id),
            },
    {
        let mut i: usize = 0;
        while i < self.bags.len()
            invariant
                i <= self.bags@.len(),
                forall|j: int| 0 <= j < i ==> self.bags@[j].id != id,
            decreases self.bags@.len() - i,
        {
            if self.bags[i].id == id {
                return Some(i);
            }
            i = i + 1;
        }
        None
    }

    /// Adds a bag unless one with its identifier is already stored.
    pub fn load_bag(&mut self, bag: Bag) -> (r: bool)
        requires
            old(self).wf(),
        ensures
            final(self).wf(),
            r == !has_bag(old(self)@, bag.id),
            r ==> final(self)@ == old(self)@.push(bag),
            !r ==> final(self)@ == old(self)@,
    {
        match self.find_bag(bag.id) {
            Some(_) => false,
            None => {
                self.bags.push(bag);
                true
            },
        }
    }

    /// Creates an empty bag of the given name, created at `now`, under a
    /// fresh non-zero identifier; a bag already stored under that identifier
    /// is replaced.
    pub fn create_bag_at(&mut self, name: String, now: Timestamp) -> (r: BagId)
        requires
            old(self).wf(),
        ensures
            final(self).wf(),
            r@ != 0,
            exists|b: Bag|
                #![trigger empty_bag(b, r, name)]
                empty_bag(b, r, name) && b.created_at == now && if has_bag(old(self)@, r) {
                    exists|i: int|
                        0 <= i < old(self)@.len() && old(self)@[i].id == r && final(self)@
                            == old(self)@.update(i, b)
                } else {
                    final(self)@ == old(self)@.push(b)
                },
    {
        let id = BagId::new(gen_id());
        let bag = Bag {
            id,
            name,
            created_at: now,
            data_list: Vec::new(),
            generation_counter: Vec::new(),
        };
        let ghost b = bag;
        match self.find_bag(id) {
            Some(i) => {
                self.bags.set(i, bag);
                assert(empty_bag(b, id, name));
            },
            None => {
                self.bags.push(bag);
                assert(empty_bag(b, id, name));
            },
        }
        id
    }

    /// Creates an empty bag of the given name, created now, under a fresh
    /// non-zero identifier; a bag already stored under that identifier is
    /// replaced.
    pub fn create_bag(&mut self, name: String) -> (r: BagId)
        requires
            old(self).wf(),
        ensures
            final(self).wf(),
            r@ != 0,
            exists|b: Bag|
                #![trigger empty_bag(b, r, name)]
                empty_bag(b, r, name) && b.created_at.nanos < 1_000_000_000 && if has_bag(
                    old(self)@,
                    r,
                ) {
                    exists|i: int|
                        0 <= i < old(self)@.len() && old(self)@[i].id == r && final(self)@
                            == old(self)@.update(i, b)
                } else {
                    final(self)@ == old(self)@.push(b)
                },
    {
        let now = now_utc();
        self.create_bag_at(name, now)
    }

    /// Removes every bag.
    pub fn clear_bags(&mut self)
        ensures
            final(self)@.len() == 0,
    {
        self.bags.clear();
    }

    /// Adds `data` under `name` to the bag `bag_id`, with the next generation
    /// of that name.
    pub fn insert_data(&mut self, bag_id: BagId, name: String, data: FlData) -> (r: Result<
        (),
        StorageError,
    >)
        requires
            old(self).wf(),
            old(self).can_insert(bag_id, name@),
        ensures
            final(self).wf(),
            match r {
                Ok(()) => exists|i: int|
                    0 <= i < old(self)@.len() && old(self)@[i].id == bag_id && final(self)@.len()
                        == old(self)@.len() && (forall|j: int|
                        0 <= j < old(self)@.len() && j != i ==> final(self)@[j] == old(
                            self,
                        )@[j]) && inserted_into(old(self)@[i], final(self)@[i], name, data),
                Err(e) => e == StorageError::BagNotFound && !has_bag(old(self)@, bag_id)
                    && final(self)@ == old(self)@,
            },
    {
        let i = match self.find_bag(bag_id) {
            Some(i) => i,
            None => return Err(StorageError::BagNotFound),
        };
        let mut bag = self.bags.remove(i);
        let ghost old_bag = bag;
        let generation = bag.next_generation(name.as_str());
        match bag.find_counter(name.as_str()) {
            Some(k) => {
                proof {
                    lemma_first_key_unique(old_bag.generation_counter@, name@, k as int);
                }
                let key = bag.generation_counter[k].0.clone();
                bag.generation_counter.set(k, (key, generation + 1));
                proof {
                    let c2 = bag.generation_counter@;
                    assert(c2 =~= old_bag.generation_counter@.update(k as int, (key, (generation + 1) as u64)));
                    assert(key@ == name@);
                    assert forall|m: Seq<char>|
                        #![trigger counter_of(c2, m)]
                        counter_of(c2, m) == if m == name@ {
                            Some((generation + 1) as u64)
                        } else {
                            counter_of(old_bag.generation_counter@, m)
                        } by {
                        if m == name@ {
                            assert(is_first_key(c2, m, k as int));
                            lemma_first_key_unique(c2, m, k as int);
                        } else {
                            let c1 = old_bag.generation_counter@;
                            if exists|q: int| is_first_key(c1, m, q) {
                                let q = choose|q: int| is_first_key(c1, m, q);
                                assert(is_first_key(c2, m, q));
                                lemma_first_key_unique(c2, m, q);
                            } else {
                                assert forall|q: int| !is_first_key(c2, m, q) by {
                                    if is_first_key(c2, m, q) {
                                        assert forall|j: int| 0 <= j < q implies c1[j].0@ != m by {
                                            assert(c2[j].0@ != m);
                                        }
                                        assert(is_first_key(c1, m, q));
                                    }
                                }
                            }
                        }
                    }
                }
            },
            None => {
                let ghost c1 = bag.generation_counter@;
                bag.generation_counter.push((name.clone(), 1));
                proof {
                    let c2 = bag.generation_counter@;
                    let k = c1.len() as int;
                    assert(c2 =~= c1.push((name, 1u64)));
                    assert forall|m: Seq<char>|
                        #![trigger counter_of(c2, m)]
                        counter_of(c2, m) == if m == name@ {
                            Some((generation + 1) as u64)
                        } else {
                            counter_of(c1, m)
                        } by {
                        if m == name@ {
                            assert(is_first_key(c2, m, k));
                            lemma_first_key_unique(c2, m, k);
                        } else {
                            if exists|q: int| is_first_key(c1, m, q) {
                                let q = choose|q: int| is_first_key(c1, m, q);
                                assert(is_first_key(c2, m, q));
                                lemma_first_key_unique(c2, m, q);
                            } else {
                                assert forall|q: int| !is_first_key(c2, m, q) by {
                                    if is_first_key(c2, m, q) {
                                        if q < k {
                                            assert forall|j: int| 0 <= j < q implies c1[j].0@ != m by {
                                                assert(c2[j].0@ != m);
                                            }
                                            assert(is_first_key(c1, m, q));
                                        }
                                    }
                                }
                            }
                        }
                    }
                }
            },
        }
        bag.data_list.push(ManagedData { generation, name, data });
        self.bags.insert(i, bag);
        assert(final(self)@ == old(self)@.update(i as int, bag));
        Ok(())
    }

    /// The positions of the stored bags grouped by the part of their name
    /// before the first '/' and then by the rest of it, both levels in
    /// increasing name order, each list of bags from oldest to newest.
    pub fn bag_groups(&self) -> (r: Vec<(String, Vec<(String, Vec<usize>)>)>)
        ensures
            is_bag_grouping(self@, r@),
    {
        let mut names: Vec<String> = Vec::new();
        let mut ranks: Vec<i128> = Vec::new();
        let n = self.bags.len();
        let mut i: usize = 0;
        while i < n
            invariant
                n == self.bags@.len(),
                i <= n,
                names@.len() == i,
                ranks@.len() == i,
                forall|j: int| 0 <= j < i ==> #[trigger] names@[j]@ == self.bags@[j].name@,
                forall|j: int| 0 <= j < i ==> #[trigger] ranks@[j] == timestamp_rank(self.bags@[j].created_at),
            decreases n - i,
        {
            let t = self.bags[i].created_at;
            names.push(self.bags[i].name.clone());
            ranks.push((t.secs as i128) * 4294967296 + (t.nanos as i128));
            i = i + 1;
        }
        assert(names@.map_values(|s: String| s@) =~= bag_names(self.bags@));
        assert(ranks@ =~= bag_ranks(self.bags@));
        let mut fg = group_by_name(&names, &ranks);
        let ghost fg0 = fg@;
        let mut groups: Vec<(String, Vec<(String, Vec<usize>)>)> = Vec::new();
        assert(fg@ =~= fg0.take(fg0.len() as int));
        while fg.len() > 0
            invariant
                fg@.len() <= fg0.len(),
                fg@ =~= fg0.take(fg@.len() as int),
                nests_from(fg0, fg@.len() as int, groups@),
            decreases fg@.len(),
        {
            let ghost k = fg@.len() - 1;
            let ghost old_groups = groups@;
            let (full, members) = fg.pop().unwrap();
            assert(fg@ =~= fg0.take(k));
            assert((full, members) == fg0[k]);
            let (g, b) = split_group(full.as_str());
            let ghost pair = (g@, b@);
            let (p, outer_found) = key_position(&groups, g.as_str());
            if outer_found {
                let (q, inner_found) = key_position(&groups[p].1, b.as_str());
                if inner_found {
                    proof {
                        assert(holds_pair(groups@, pair)) by {
                            assert(groups@[p as int].0@ == pair.0 && groups@[p as int].1@[q as int].0@ == pair.1);
                        }
                        assert forall|a: int, c: int|
                            0 <= a < groups@.len() && 0 <= c < groups@[a].1@.len() implies #[trigger] entry_from(
                                fg0,
                                k,
                                (groups@[a].0@, groups@[a].1@[c].0@),
                                groups@[a].1@[c].1@,
                            ) by {
                            let pr = (groups@[a].0@, groups@[a].1@[c].0@);
                            assert(entry_from(fg0, k + 1, pr, groups@[a].1@[c].1@));
                            let kk = choose|kk: int| k + 1 <= kk && is_last_split(fg0, pr, kk) && groups@[a].1@[c].1@ == fg0[kk].1@;
                            assert(k <= kk);
                        }
                    }
                } else {
                    let ghost old_inner = groups@[p as int].1@;
                    let (key, mut inner) = groups.remove(p);
                    proof {
                        lemma_insert_keeps_sorted(inner@, q as int, b, members);
                    }
                    inner.insert(q, (b, members));
                    groups.insert(p, (key, inner));
                    proof {
                        let g2 = groups@;
                        assert(g2 =~= old_groups.update(p as int, (key, inner)));
                        assert(inner@ =~= old_inner.insert(q as int, (b, members)));
                        assert(!holds_pair(old_groups, pair)) by {
                            if holds_pair(old_groups, pair) {
                                let (a, c) = choose|a: int, c: int|
                                    0 <= a < old_groups.len() && 0 <= c < old_groups[a].1@.len()
                                        && old_groups[a].0@ == pair.0 && old_groups[a].1@[c].0@ == pair.1;
                                lemma_sorted_key_unique(old_groups, a, p as int);
                            }
                        }
                        assert(is_last_split(fg0, pair, k)) by {
                            assert forall|k2: int| k < k2 < fg0.len() implies split_group_name(fg0[k2].0@) != pair by {
                                assert(holds_pair(old_groups, split_group_name(fg0[k2].0@)));
                            }
                        }
                        assert forall|a: int, c: int|
                            0 <= a < g2.len() && 0 <= c < g2[a].1@.len() implies #[trigger] entry_from(
                                fg0,
                                k,
                                (g2[a].0@, g2[a].1@[c].0@),
                                g2[a].1@[c].1@,
                            ) by {
                            let pr = (g2[a].0@, g2[a].1@[c].0@);
                            if a == p && c == q {
                                assert(g2[a].1@[c].1@ == fg0[k].1@);
                            } else {
                                let (a0, c0) = if a == p {
                                    if c < q { (a, c) } else { (a, c - 1) }
                                } else {
                                    (a, c)
                                };
                                assert(g2[a].1@[c] == old_groups[a0].1@[c0]);
                                assert(old_groups[a0].0@ == g2[a].0@);
                                assert(entry_from(fg0, k + 1, pr, g2[a].1@[c].1@));
                                let kk = choose|kk: int| k + 1 <= kk && is_last_split(fg0, pr, kk) && g2[a].1@[c].1@ == fg0[kk].1@;
                                assert(k <= kk);
                            }
                        }
                        assert forall|kk: int| k <= kk < fg0.len() implies #[trigger] holds_pair(g2, split_group_name(fg0[kk].0@)) by {
                            if kk == k {
                                assert(g2[p as int].0@ == pair.0 && g2[p as int].1@[q as int].0@ == pair.1);
                            } else {
                                let pr = split_group_name(fg0[kk].0@);
                                assert(holds_pair(old_groups, pr));
                                let (a, c) = choose|a: int, c: int|
                                    0 <= a < old_groups.len() && 0 <= c < old_groups[a].1@.len()
                                        && old_groups[a].0@ == pr.0 && old_groups[a].1@[c].0@ == pr.1;
                                if a == p {
                                    if c < q {
                                        assert(g2[a].1@[c] == old_inner[c]);
                                    } else {
                                        assert(g2[a].1@[c + 1] == old_inner[c]);
                                    }
                                } else {
                                    assert(g2[a] == old_groups[a]);
                                }
                            }
                        }
                        assert forall|a: int, c: int, d: int|
                            0 <= a < g2.len() && 0 <= c < d < g2[a].1@.len() implies lex_lt(
                                g2[a].1@[c].0@,
                                g2[a].1@[d].0@,
                            ) by {
                            if a != p {
                                assert(g2[a] == old_groups[a]);
                            }
                        }
                        assert forall|a: int| 0 <= a < g2.len() implies g2[a].1@.len() > 0 by {
                            if a != p {
                                assert(g2[a] == old_groups[a]);
                            }
                        }
                    }
                }
            } else {
                let mut inner: Vec<(String, Vec<usize>)> = Vec::new();
                inner.push((b, members));
                proof {
                    lemma_insert_keeps_sorted(groups@, p as int, g, inner);
                }
                groups.insert(p, (g, inner));
                proof {
                    let g2 = groups@;
                    assert(g2 =~= old_groups.insert(p as int, (g, inner)));
                    assert(!holds_pair(old_groups, pair)) by {
                        if holds_pair(old_groups, pair) {
                            let (a, c) = choose|a: int, c: int|
                                0 <= a < old_groups.len() && 0 <= c < old_groups[a].1@.len()
                                    && old_groups[a].0@ == pair.0 && old_groups[a].1@[c].0@ == pair.1;
                        }
                    }
                    assert(is_last_split(fg0, pair, k)) by {
                        assert forall|k2: int| k < k2 < fg0.len() implies split_group_name(fg0[k2].0@) != pair by {
                            assert(holds_pair(old_groups, split_group_name(fg0[k2].0@)));
                        }
                    }
                    assert forall|a: int, c: int|
                        0 <= a < g2.len() && 0 <= c < g2[a].1@.len() implies #[trigger] entry_from(
                            fg0,
                            k,
                            (g2[a].0@, g2[a].1@[c].0@),
                            g2[a].1@[c].1@,
                        ) by {
                        let pr = (g2[a].0@, g2[a].1@[c].0@);
                        if a == p {
                            assert(g2[a].1@[c].1@ == fg0[k].1@);
                        } else {
                            let a0 = if a < p { a } else { a - 1 };
                            assert(g2[a] == old_groups[a0]);
                            assert(entry_from(fg0, k + 1, pr, g2[a].1@[c].1@));
                            let kk = choose|kk: int| k + 1 <= kk && is_last_split(fg0, pr, kk) && g2[a].1@[c].1@ == fg0[kk].1@;
                            assert(k <= kk);
                        }
                    }
                    assert forall|kk: int| k <= kk < fg0.len() implies #[trigger] holds_pair(g2, split_group_name(fg0[kk].0@)) by {
                        if kk == k {
                            assert(g2[p as int].0@ == pair.0 && g2[p as int].1@[0].0@ == pair.1);
                        } else {
                            let pr = split_group_name(fg0[kk].0@);
                            assert(holds_pair(old_groups, pr));
                            let (a, c) = choose|a: int, c: int|
                                0 <= a < old_groups.len() && 0 <= c < old_groups[a].1@.len()
                                    && old_groups[a].0@ == pr.0 && old_groups[a].1@[c].0@ == pr.1;
                            if a < p {
                                assert(g2[a] == old_groups[a]);
                            } else {
                                assert(g2[a + 1] == old_groups[a]);
                            }
                        }
                    }
                    assert forall|a: int, c: int, d: int|
                        0 <= a < g2.len() && 0 <= c < d < g2[a].1@.len() implies lex_lt(
                            g2[a].1@[c].0@,
                            g2[a].1@[d].0@,
                        ) by {
                        if a < p {
                            assert(g2[a] == old_groups[a]);
                        } else if a > p {
                            assert(g2[a] == old_groups[a - 1]);
                        }
                    }
                    assert forall|a: int| 0 <= a < g2.len() implies g2[a].1@.len() > 0 by {
                        if a < p {
                            assert(g2[a] == old_groups[a]);
                        } else if a > p {
                            assert(g2[a] == old_groups[a - 1]);
                        }
                    }
                }
            }
        }
        assert(is_grouping(bag_names(self@), bag_ranks(self@), fg0));
        assert(nests_from(fg0, 0, groups@));
        groups
    }
}


/// A freshly created bag is consistent: it holds no data.
pub proof fn lemma_empty_bag_consistent(b: Bag, id: BagId, name: String)
    requires
        empty_bag(b, id, name),
    ensures
        b.counters_consistent(),
        forall|n: Seq<char>| b.spec_next_generation(n) == 0,
{
    assert forall|n: Seq<char>| b.spec_next_generation(n) == 0 by {
        lemma_no_key(b.generation_counter@, n);
    }
}

/// Adding a datum keeps a consistent bag consistent, and the datum is then
/// what both the latest reference to its name and the reference to the
/// generation it was given designate.
pub proof fn lemma_insert_then_read(
    old_bag: Bag,
    new_bag: Bag,
    n: String,
    data: FlData,
    reference: FlDataReference,
)
    requires
        old_bag.counters_consistent(),
        old_bag.spec_next_generation(n@) < u64::MAX,
        inserted_into(old_bag, new_bag, n, data),
        reference.name@ == n@,
        reference.generation == GenerationSelector::Latest || reference.generation
            == GenerationSelector::Generation(old_bag.spec_next_generation(n@)),
    ensures
        new_bag.counters_consistent(),
        selects(new_bag.data_list@, reference, old_bag.data_list@.len() as int),
        new_bag.data_list@[old_bag.data_list@.len() as int].data == data,
        new_bag.spec_next_generation(n@) == old_bag.spec_next_generation(n@) + 1,
{
    let l = old_bag.data_list@;
    let l2 = new_bag.data_list@;
    let g = old_bag.spec_next_generation(n@);
    let last = l.len() as int;
    assert(l2[last].generation == g);
    assert forall|j: int| 0 <= j < l.len() && l[j].name@ == n@ implies l[j].generation < g by {
        assert(counter_of(old_bag.generation_counter@, l[j].name@) matches Some(c)
            && l[j].generation < c);
    }
    assert forall|i: int| 0 <= i < l2.len() implies (#[trigger] counter_of(
        new_bag.generation_counter@,
        l2[i].name@,
    ) matches Some(c) && l2[i].generation < c) by {
        if i < last {
            assert(l2[i] == l[i]);
            assert(counter_of(old_bag.generation_counter@, l[i].name@) matches Some(c)
                && l[i].generation < c);
            if l[i].name@ == n@ {
                assert(counter_of(new_bag.generation_counter@, n@) == Some((g + 1) as u64));
            } else {
                assert(counter_of(new_bag.generation_counter@, l[i].name@) == counter_of(
                    old_bag.generation_counter@,
                    l[i].name@,
                ));
            }
        } else {
            assert(counter_of(new_bag.generation_counter@, n@) == Some((g + 1) as u64));
        }
    }
    assert(counter_of(new_bag.generation_counter@, n@) == Some((g + 1) as u64));
    assert forall|j: int|
        0 <= j < l2.len() && l2[j].name@ == reference.name@ implies l2[j].generation <= l2[last].generation
            && (last < j ==> l2[j].generation < l2[last].generation) by {
        if j < last {
            assert(l2[j] == l[j]);
        }
    }
}


/// The rank by which a creation time orders bags: seconds, then nanoseconds.
pub open spec fn timestamp_rank(t: Timestamp) -> i128 {
    (t.secs * 4294967296 + t.nanos) as i128
}

/// Ranking by `timestamp_rank` is ordering by time.
pub proof fn lemma_timestamp_rank_order(a: Timestamp, b: Timestamp)
    ensures
        timestamp_lt(a, b) == (timestamp_rank(a) < timestamp_rank(b)),
        (a.secs == b.secs && a.nanos == b.nanos) == (timestamp_rank(a) == timestamp_rank(b)),
{
}

/// Names of the data of a bag, in storage order.
pub open spec fn data_names(list: Seq<ManagedData>) -> Seq<Seq<char>> {
    list.map_values(|d: ManagedData| d.name@)
}

/// Generations of the data of a bag, in storage order.
pub open spec fn data_ranks(list: Seq<ManagedData>) -> Seq<i128> {
    list.map_values(|d: ManagedData| d.generation as i128)
}

/// Names of bags, in storage order.
pub open spec fn bag_names(bags: Seq<Bag>) -> Seq<Seq<char>> {
    bags.map_values(|b: Bag| b.name@)
}

/// Creation ranks of bags, in storage order.
pub open spec fn bag_ranks(bags: Seq<Bag>) -> Seq<i128> {
    bags.map_values(|b: Bag| timestamp_rank(b.created_at))
}

impl Bag {
    /// The positions of the data of this bag grouped by name, in increasing
    /// name order, each group ordered by generation and then by position.
    pub fn data_groups(&self) -> (r: Vec<(String, Vec<usize>)>)
        ensures
            is_grouping(data_names(self.data_list@), data_ranks(self.data_list@), r@),
    {
        let mut names: Vec<String> = Vec::new();
        let mut ranks: Vec<i128> = Vec::new();
        let n = self.data_list.len();
        let mut i: usize = 0;
        while i < n
            invariant
                n == self.data_list@.len(),
                i <= n,
                names@.len() == i,
                ranks@.len() == i,
                forall|j: int| 0 <= j < i ==> #[trigger] names@[j]@ == self.data_list@[j].name@,
                forall|j: int| 0 <= j < i ==> #[trigger] ranks@[j] == self.data_list@[j].generation as i128,
            decreases n - i,
        {
            names.push(self.data_list[i].name.clone());
            ranks.push(self.data_list[i].generation as i128);
            i = i + 1;
        }
        assert(names@.map_values(|s: String| s@) =~= data_names(self.data_list@));
        assert(ranks@ =~= data_ranks(self.data_list@));
        group_by_name(&names, &ranks)
    }
}

/// Whether `k` is the last full-name group that lands on `pair` once split
/// into group and member name.
pub open spec fn is_last_split(
    fg: Seq<(String, Vec<usize>)>,
    pair: (Seq<char>, Seq<char>),
    k: int,
) -> bool {
    &&& 0 <= k < fg.len()
    &&& split_group_name(fg[k].0@) == pair
    &&& forall|k2: int| k < k2 < fg.len() ==> split_group_name(fg[k2].0@) != pair
}

/// Whether `members` are the positions of the last full-name group at or
/// after `from` that lands on `pair`.
pub open spec fn entry_from(
    fg: Seq<(String, Vec<usize>)>,
    from: int,
    pair: (Seq<char>, Seq<char>),
    members: Seq<usize>,
) -> bool {
    exists|k: int| from <= k && is_last_split(fg, pair, k) && members == fg[k].1@
}

/// Whether `groups` holds the entry `(g, m)`.
pub open spec fn holds_pair(
    groups: Seq<(String, Vec<(String, Vec<usize>)>)>,
    pair: (Seq<char>, Seq<char>),
) -> bool {
    exists|a: int, b: int|
        0 <= a < groups.len() && 0 <= b < groups[a].1@.len() && groups[a].0@ == pair.0
            && groups[a].1@[b].0@ == pair.1
}

/// Whether `groups` nests the full-name groups `fg[from..]` by group and
/// member name: both levels in increasing name order, every entry carrying
/// the positions of the last full name that lands on it.
pub open spec fn nests_from(
    fg: Seq<(String, Vec<usize>)>,
    from: int,
    groups: Seq<(String, Vec<(String, Vec<usize>)>)>,
) -> bool {
    &&& forall|a: int, b: int| 0 <= a < b < groups.len() ==> lex_lt(groups[a].0@, groups[b].0@)
    &&& forall|a: int| 0 <= a < groups.len() ==> groups[a].1@.len() > 0
    &&& forall|a: int, b: int, c: int|
        0 <= a < groups.len() && 0 <= b < c < groups[a].1@.len() ==> lex_lt(
            groups[a].1@[b].0@,
            groups[a].1@[c].0@,
        )
    &&& forall|a: int, b: int|
        0 <= a < groups.len() && 0 <= b < groups[a].1@.len() ==> #[trigger] entry_from(
            fg,
            from,
            (groups[a].0@, groups[a].1@[b].0@),
            groups[a].1@[b].1@,
        )
    &&& forall|k: int| from <= k < fg.len() ==> #[trigger] holds_pair(groups, split_group_name(fg[k].0@))
}

/// Whether `groups` is the grouping of the bags by group and member name,
/// each entry listing the positions of its bags from oldest to newest.
pub open spec fn is_bag_grouping(bags: Seq<Bag>, groups: Seq<(String, Vec<(String, Vec<usize>)>)>) -> bool {
    exists|fg: Seq<(String, Vec<usize>)>|
        is_grouping(bag_names(bags), bag_ranks(bags), fg) && #[trigger] nests_from(fg, 0, groups)
}


impl StorageQuery for Storage {
    open spec fn stored_bags(&self) -> Seq<Bag> {
        self@
    }

    fn list_bags(&self) -> (r: Result<&[Bag], StorageError>) {
        Ok(self.bags.as_slice())
    }

    fn get_bag(&self, bag_id: BagId) -> (r: Result<&Bag, StorageError>) {
        match self.find_bag(bag_id) {
            Some(i) => {
                assert(self.stored_bags()[i as int] == self.bags@[i as int]);
                Ok(&self.bags[i])
            },
            None => Err(StorageError::BagNotFound),
        }
    }
}

/// After a bag is created, looking its identifier up finds that bag: empty,
/// under the given name, and consistent.
pub proof fn lemma_create_then_get(before: Seq<Bag>, after: Seq<Bag>, id: BagId, name: String)
    requires
        forall|i: int, j: int| 0 <= i < j < after.len() ==> after[i].id != after[j].id,
        exists|b: Bag|
            #![trigger empty_bag(b, id, name)]
            empty_bag(b, id, name) && if has_bag(before, id) {
                exists|i: int| 0 <= i < before.len() && before[i].id == id && after == before.update(i, b)
            } else {
                after == before.push(b)
            },
    ensures
        forall|i: int|
            0 <= i < after.len() && after[i].id == id ==> empty_bag(after[i], id, name)
                && after[i].counters_consistent(),
{
    let b = choose|b: Bag|
        #![trigger empty_bag(b, id, name)]
        empty_bag(b, id, name) && if has_bag(before, id) {
            exists|i: int| 0 <= i < before.len() && before[i].id == id && after == before.update(i, b)
        } else {
            after == before.push(b)
        };
    lemma_empty_bag_consistent(b, id, name);
    let k = if has_bag(before, id) {
        choose|i: int| 0 <= i < before.len() && before[i].id == id && after == before.update(i, b)
    } else {
        before.len() as int
    };
    assert(after[k] == b);
    assert forall|i: int| 0 <= i < after.len() && after[i].id == id implies empty_bag(after[i], id, name)
        && after[i].counters_consistent() by {
        if i != k {
            assert(after[i].id != after[k].id);
        }
    }
}

} // verus!
