//! Hash maps and sets keyed by octree paths that can be walked in a fixed order.

use vstd::prelude::*;
use vstd::hash_map::StringHashMap;

verus! {

/// A path as contracts see it: its characters.
pub type Path = Seq<char>;

/// A map from paths to values.
///
/// Lookups go through a hash index; the entries themselves lie in a vector, so
/// the map can be walked by position.
#[verifier::reject_recursive_types(V)]
pub struct PathMap<V> {
    index: StringHashMap<usize>,
    entries: Vec<(String, V)>,
}

/// The keys of a run of entries, in order.
spec fn entry_keys<V>(entries: Seq<(String, V)>) -> Seq<Path> {
    entries.map_values(|e: (String, V)| e.0@)
}

/// The map that a run of entries with distinct keys stands for.
spec fn entry_map<V>(entries: Seq<(String, V)>) -> Map<Path, V> {
    Map::new(
        |k: Path| entry_keys(entries).contains(k),
        |k: Path| entries[entry_keys(entries).index_of(k)].1,
    )
}

/// Whether the index sends every key to the position of its entry, and holds nothing else.
spec fn indexed<V>(index: Map<Path, usize>, entries: Seq<(String, V)>) -> bool {
    &&& forall|i: int|
        0 <= i < entries.len() ==> index.contains_key((#[trigger] entries[i]).0@) && index[entries[i].0@]
            == i
    &&& forall|k: Path| #[trigger]
        index.contains_key(k) ==> index[k] < entries.len() && entries[index[k] as int].0@ == k
}

proof fn lemma_entry_at<V>(index: Map<Path, usize>, entries: Seq<(String, V)>, i: int)
    requires
        indexed(index, entries),
        0 <= i < entries.len(),
    ensures
        entry_map(entries).contains_key(entries[i].0@),
        entry_map(entries)[entries[i].0@] == entries[i].1,
        entry_keys(entries)[i] == entries[i].0@,
{
    let keys = entry_keys(entries);
    assert(keys[i] == entries[i].0@);
    assert(keys.contains(entries[i].0@));
    let j = keys.index_of(entries[i].0@);
    assert(keys[j] == entries[j].0@);
}

proof fn lemma_index_has<V>(index: Map<Path, usize>, entries: Seq<(String, V)>, k: Path)
    requires
        indexed(index, entries),
    ensures
        index.contains_key(k) == entry_map(entries).contains_key(k),
        index.contains_key(k) == entry_keys(entries).contains(k),
        index.contains_key(k) ==> entry_map(entries)[k] == entries[index[k] as int].1,
{
    let keys = entry_keys(entries);
    if index.contains_key(k) {
        lemma_entry_at(index, entries, index[k] as int);
    }
    if keys.contains(k) {
        let j = keys.index_of(k);
        assert(entries[j].0@ == k);
    }
}

proof fn lemma_keys_listed<V>(index: Map<Path, usize>, entries: Seq<(String, V)>)
    requires
        indexed(index, entries),
    ensures
        entry_keys(entries).no_duplicates(),
        entry_keys(entries).to_set() == entry_map(entries).dom(),
        entry_map(entries).dom().finite(),
        entry_map(entries).dom().len() == entries.len(),
{
    let keys = entry_keys(entries);
    assert forall|i: int, j: int| 0 <= i < keys.len() && 0 <= j < keys.len() && i != j implies keys[i]
        != keys[j] by {
        assert(keys[i] == entries[i].0@);
        assert(keys[j] == entries[j].0@);
    }
    keys.unique_seq_to_set();
    assert(keys.to_set() =~= entry_map(entries).dom());
}

impl<V> View for PathMap<V> {
    type V = Map<Path, V>;

    closed spec fn view(&self) -> Map<Path, V> {
        entry_map(self.entries@)
    }
}

impl<V> PathMap<V> {
    #[verifier::type_invariant]
    spec fn inv(self) -> bool {
        indexed(self.index@, self.entries@)
    }

    /// The keys in the order in which the map is walked.
    pub closed spec fn keys(&self) -> Seq<Path> {
        entry_keys(self.entries@)
    }

    /// The walk meets every key of the map, each once.
    pub open spec fn listed(&self) -> bool {
        &&& self.keys().no_duplicates()
        &&& self.keys().to_set() == self@.dom()
        &&& self@.dom().finite()
        &&& self@.dom().len() == self.keys().len()
    }

    /// The empty map.
    pub fn new() -> (map: Self)
        ensures
            map@ == Map::<Path, V>::empty(),
            map.keys() == Seq::<Path>::empty(),
    {
        let map = PathMap { index: StringHashMap::new(), entries: Vec::new() };
        assert(map@ =~= Map::<Path, V>::empty());
        assert(map.keys() =~= Seq::<Path>::empty());
        map
    }

    /// The number of entries.
    pub fn len(&self) -> (n: usize)
        ensures
            n == self@.dom().len(),
            n == self.keys().len(),
            self.listed(),
    {
        proof {
            use_type_invariant(self);
            lemma_keys_listed(self.index@, self.entries@);
        }
        self.entries.len()
    }

    /// The key that the walk meets at position `i`.
    pub fn key_at(&self, i: usize) -> (key: &String)
        requires
            i < self.keys().len(),
        ensures
            key@ == self.keys()[i as int],
            self@.contains_key(key@),
    {
        proof {
            use_type_invariant(self);
            lemma_entry_at(self.index@, self.entries@, i as int);
        }
        &self.entries[i].0
    }

    /// The value under the key that the walk meets at position `i`.
    pub fn value_at(&self, i: usize) -> (value: &V)
        requires
            i < self.keys().len(),
        ensures
            self@.contains_key(self.keys()[i as int]),
            *value == self@[self.keys()[i as int]],
    {
        proof {
            use_type_invariant(self);
            lemma_entry_at(self.index@, self.entries@, i as int);
        }
        &self.entries[i].1
    }

    /// Whether the map has an entry under `key`.
    pub fn contains_key(&self, key: &str) -> (found: bool)
        ensures
            found == self@.contains_key(key@),
    {
        proof {
            use_type_invariant(self);
            lemma_index_has(self.index@, self.entries@, key@);
        }
        self.index.contains_key(key)
    }

    /// The value under `key`, if there is one.
    pub fn get(&self, key: &str) -> (value: Option<&V>)
        ensures
            value is Some <==> self@.contains_key(key@),
            value matches Some(v) ==> *v == self@[key@],
    {
        proof {
            use_type_invariant(self);
            lemma_index_has(self.index@, self.entries@, key@);
        }
        match self.index.get(key) {
            Some(i) => Some(&self.entries[*i].1),
            None => None,
        }
    }

    /// Puts `value` under `key`, over any value that was there.
    pub fn insert(&mut self, key: String, value: V)
        ensures
            final(self)@ == old(self)@.insert(key@, value),
            final(self).keys() == if old(self)@.contains_key(key@) {
                old(self).keys()
            } else {
                old(self).keys().push(key@)
            },
    {
        let mut whole: Self = PathMap::new();
        std::mem::swap(self, &mut whole);
        proof {
            use_type_invariant(&whole);
            lemma_index_has(whole.index@, whole.entries@, key@);
        }
        let PathMap { mut index, mut entries } = whole;
        let ghost before = entries@;
        let ghost index_before = index@;
        let ghost k = key@;
        let place: Option<usize> = match index.get(key.as_str()) {
            Some(i) => Some(*i),
            None => None,
        };
        match place {
            Some(i) => {
                entries.set(i, (key, value));
            },
            None => {
                let i: usize = entries.len();
                index.insert(key.clone(), i);
                entries.push((key, value));
            },
        }
        proof {
            assert(indexed(index@, entries@));
            assert forall|q: Path| #[trigger]
                entry_map(entries@).contains_key(q) == entry_map(before).insert(
                    k,
                    value,
                ).contains_key(q) && (entry_map(entries@).contains_key(q) ==> entry_map(entries@)[q]
                == entry_map(before).insert(k, value)[q]) by {
                lemma_index_has(index@, entries@, q);
                lemma_index_has(index_before, before, q);
            }
            assert(entry_map(entries@) =~= entry_map(before).insert(k, value));
            if index_before.contains_key(k) {
                assert(entry_keys(entries@) =~= entry_keys(before));
            } else {
                assert(entry_keys(entries@) =~= entry_keys(before).push(k));
            }
        }
        *self = PathMap { index, entries };
    }

    /// Takes the entry under `key` out of the map and hands back its value.
    pub fn remove(&mut self, key: &str) -> (value: Option<V>)
        ensures
            final(self)@ == old(self)@.remove(key@),
            value is Some <==> old(self)@.contains_key(key@),
            value matches Some(v) ==> v == old(self)@[key@],
            !old(self)@.contains_key(key@) ==> final(self).keys() == old(self).keys(),
    {
        let place: Option<usize> = match self.index.get(key) {
            Some(i) => Some(*i),
            None => None,
        };
        proof {
            use_type_invariant(&*self);
            lemma_index_has(self.index@, self.entries@, key@);
        }
        match place {
            None => {
                assert(self@ =~= self@.remove(key@));
                None
            },
            Some(i) => {
                let mut whole: Self = PathMap::new();
                std::mem::swap(self, &mut whole);
                proof {
                    use_type_invariant(&whole);
                }
                let PathMap { mut index, mut entries } = whole;
                let ghost before = entries@;
                let ghost index_before = index@;
                let taken = entries.swap_remove(i);
                index.remove(key);
                if i < entries.len() {
                    index.insert(entries[i].0.clone(), i);
                }
                proof {
                    lemma_entry_at(index_before, before, i as int);
                    assert forall|j: int| 0 <= j < entries@.len() implies index@.contains_key(
                        (#[trigger] entries@[j]).0@,
                    ) && index@[entries@[j].0@] == j by {
                        if j == i {
                            assert(entries@[j] == before[before.len() - 1]);
                        } else {
                            assert(entries@[j] == before[j]);
                            assert(index_before[before[j].0@] == j);
                            assert(index_before[before[before.len() - 1].0@] == before.len() - 1);
                            assert(index_before[before[i as int].0@] == i);
                        }
                    }
                    assert forall|q: Path| #[trigger] index@.contains_key(q) implies index@[q]
                        < entries@.len() && entries@[index@[q] as int].0@ == q by {
                        assert(index_before[before[before.len() - 1].0@] == before.len() - 1);
                        if i < entries@.len() && q == before[before.len() - 1].0@ {
                        } else {
                            assert(index_before.contains_key(q));
                            assert(index_before[q] != i);
                            assert(index_before[q] < before.len() - 1);
                            assert(entries@[index@[q] as int] == before[index@[q] as int]);
                        }
                    }
                    assert(indexed(index@, entries@));
                    assert forall|q: Path| #[trigger]
                        entry_map(entries@).contains_key(q) == entry_map(before).remove(
                            key@,
                        ).contains_key(q) && (entry_map(entries@).contains_key(q) ==> entry_map(
                            entries@,
                        )[q] == entry_map(before)[q]) by {
                        lemma_index_has(index@, entries@, q);
                        lemma_index_has(index_before, before, q);
                        if index@.contains_key(q) && i < entries@.len() && q == before[before.len()
                            - 1].0@ {
                            assert(index_before[q] == before.len() - 1);
                        }
                    }
                    assert(entry_map(entries@) =~= entry_map(before).remove(key@));
                }
                *self = PathMap { index, entries };
                Some(taken.1)
            },
        }
    }

    /// Takes every entry out of the map.
    pub fn clear(&mut self)
        ensures
            final(self)@ == Map::<Path, V>::empty(),
            final(self).keys() == Seq::<Path>::empty(),
    {
        *self = PathMap::new();
    }
}

/// A set of paths that can be walked by position.
pub struct PathSet {
    map: PathMap<()>,
}

impl View for PathSet {
    type V = Set<Path>;

    closed spec fn view(&self) -> Set<Path> {
        self.map@.dom()
    }
}

impl PathSet {
    /// The members in the order in which the set is walked.
    pub closed spec fn keys(&self) -> Seq<Path> {
        self.map.keys()
    }

    /// The walk meets every member of the set, each once.
    pub open spec fn listed(&self) -> bool {
        &&& self.keys().no_duplicates()
        &&& self.keys().to_set() == self@
        &&& self@.finite()
        &&& self@.len() == self.keys().len()
    }

    /// The empty set.
    pub fn new() -> (set: Self)
        ensures
            set@ == Set::<Path>::empty(),
            set.keys() == Seq::<Path>::empty(),
    {
        let set = PathSet { map: PathMap::new() };
        assert(set@ =~= Set::<Path>::empty());
        set
    }

    /// The number of members.
    pub fn len(&self) -> (n: usize)
        ensures
            n == self@.len(),
            n == self.keys().len(),
            self.listed(),
    {
        self.map.len()
    }

    /// The member that the walk meets at position `i`.
    pub fn key_at(&self, i: usize) -> (key: &String)
        requires
            i < self.keys().len(),
        ensures
            key@ == self.keys()[i as int],
            self@.contains(key@),
    {
        self.map.key_at(i)
    }

    /// Whether `key` is a member.
    pub fn contains(&self, key: &str) -> (found: bool)
        ensures
            found == self@.contains(key@),
    {
        self.map.contains_key(key)
    }

    /// Makes `key` a member, and says whether it was not one before.
    pub fn insert(&mut self, key: String) -> (fresh: bool)
        ensures
            final(self)@ == old(self)@.insert(key@),
            fresh == !old(self)@.contains(key@),
            final(self).keys() == if old(self)@.contains(key@) {
                old(self).keys()
            } else {
                old(self).keys().push(key@)
            },
    {
        let fresh = !self.map.contains_key(key.as_str());
        self.map.insert(key, ());
        assert(self@ =~= old(self)@.insert(key@));
        fresh
    }

    /// Takes `key` out of the set, and says whether it was a member.
    pub fn remove(&mut self, key: &str) -> (found: bool)
        ensures
            final(self)@ == old(self)@.remove(key@),
            found == old(self)@.contains(key@),
    {
        let taken = self.map.remove(key);
        assert(self@ =~= old(self)@.remove(key@));
        taken.is_some()
    }

    /// Takes every member out of the set.
    pub fn clear(&mut self)
        ensures
            final(self)@ == Set::<Path>::empty(),
            final(self).keys() == Seq::<Path>::empty(),
    {
        self.map.clear();
        assert(self@ =~= Set::<Path>::empty());
    }

    /// A set with the same members, walked in the same order.
    pub fn duplicate(&self) -> (copy: Self)
        ensures
            copy@ == self@,
            copy.keys() == self.keys(),
    {
        let n: usize = self.len();
        let mut copy: PathSet = PathSet::new();
        let mut i: usize = 0;
        while i < n
            invariant
                i <= n,
                n == self.keys().len(),
                self.listed(),
                copy.keys() == self.keys().take(i as int),
                copy@ == copy.keys().to_set(),
            decreases n - i,
        {
            let ghost earlier = copy.keys();
            let key = self.key_at(i);
            assert(!copy@.contains(key@));
            copy.insert(key.clone());
            i = i + 1;
            assert(self.keys().take(i as int) =~= earlier.push(key@));
            assert(copy@ =~= copy.keys().to_set()) by {
                assert forall|q: Path| copy@.contains(q) == copy.keys().to_set().contains(q) by {
                    if earlier.contains(q) {
                        let j = earlier.index_of(q);
                        assert(copy.keys()[j] == q);
                    }
                    if q == key@ {
                        assert(copy.keys()[i - 1] == q);
                    }
                }
            }
        }
        assert(self.keys().take(n as int) =~= self.keys());
        copy
    }
}

/// The paths that an owned list holds.
pub open spec fn text_paths(texts: Seq<String>) -> Seq<Path> {
    texts.map_values(|s: String| s@)
}

/// Those of `paths` that are members of `wanted`, in their order.
pub open spec fn select(paths: Seq<Path>, wanted: Set<Path>) -> Seq<Path>
    decreases paths.len(),
{
    if paths.len() == 0 {
        paths
    } else if wanted.contains(paths.last()) {
        select(paths.drop_last(), wanted).push(paths.last())
    } else {
        select(paths.drop_last(), wanted)
    }
}

pub proof fn lemma_select_next(paths: Seq<Path>, wanted: Set<Path>, i: int)
    requires
        0 <= i < paths.len(),
    ensures
        select(paths.take(i + 1), wanted) == if wanted.contains(paths[i]) {
            select(paths.take(i), wanted).push(paths[i])
        } else {
            select(paths.take(i), wanted)
        },
{
    assert(paths.take(i + 1).drop_last() =~= paths.take(i));
}

pub proof fn lemma_select_members(paths: Seq<Path>, wanted: Set<Path>)
    ensures
        forall|q: Path| #[trigger]
            select(paths, wanted).contains(q) <==> paths.contains(q) && wanted.contains(q),
    decreases paths.len(),
{
    if paths.len() > 0 {
        let rest = paths.drop_last();
        let last = paths.last();
        lemma_select_members(rest, wanted);
        assert forall|q: Path| #[trigger]
            select(paths, wanted).contains(q) <==> paths.contains(q) && wanted.contains(q) by {
            let chosen = select(rest, wanted);
            if paths.contains(q) {
                let i = paths.index_of(q);
                if i < rest.len() {
                    assert(rest[i] == q);
                }
            }
            if rest.contains(q) {
                assert(paths[rest.index_of(q)] == q);
            }
            if wanted.contains(last) {
                if chosen.contains(q) {
                    assert(chosen.push(last)[chosen.index_of(q)] == q);
                }
                if q == last {
                    assert(chosen.push(last)[chosen.len() as int] == q);
                }
                if chosen.push(last).contains(q) {
                    let i = chosen.push(last).index_of(q);
                    if i < chosen.len() {
                        assert(chosen[i] == q);
                    }
                }
            }
        }
    }
}

impl<V> PathMap<V> {
    /// Takes the entries under all of `keys` out of the map.
    pub fn remove_all(&mut self, keys: &Vec<String>)
        ensures
            final(self)@ == old(self)@.remove_keys(text_paths(keys@).to_set()),
    {
        let ghost paths = text_paths(keys@);
        let ghost before = self@;
        let mut i: usize = 0;
        assert(before.remove_keys(paths.take(0).to_set()) =~= before);
        while i < keys.len()
            invariant
                i <= keys@.len(),
                paths == text_paths(keys@),
                self@ == before.remove_keys(paths.take(i as int).to_set()),
            decreases keys@.len() - i,
        {
            self.remove(keys[i].as_str());
            proof {
                lemma_take_next(paths, i as int);
                assert(self@ =~= before.remove_keys(paths.take(i + 1).to_set()));
            }
            i = i + 1;
        }
        assert(paths.take(paths.len() as int) =~= paths);
    }
}

impl PathSet {
    /// Takes all of `keys` out of the set.
    pub fn remove_all(&mut self, keys: &Vec<String>)
        ensures
            final(self)@ == old(self)@.difference(text_paths(keys@).to_set()),
    {
        self.map.remove_all(keys);
        assert(self@ =~= old(self)@.difference(text_paths(keys@).to_set()));
    }
}

pub proof fn lemma_take_next(paths: Seq<Path>, i: int)
    requires
        0 <= i < paths.len(),
    ensures
        paths.take(i + 1).to_set() == paths.take(i).to_set().insert(paths[i]),
{
    assert forall|q: Path| #[trigger]
        paths.take(i + 1).to_set().contains(q) <==> paths.take(i).to_set().insert(
            paths[i],
        ).contains(q) by {
        if paths.take(i + 1).contains(q) {
            let j = paths.take(i + 1).index_of(q);
            if j < i {
                assert(paths.take(i)[j] == q);
            }
        }
        if paths.take(i).contains(q) {
            assert(paths.take(i + 1)[paths.take(i).index_of(q)] == q);
        }
        if q == paths[i] {
            assert(paths.take(i + 1)[i] == q);
        }
    }
    assert(paths.take(i + 1).to_set() =~= paths.take(i).to_set().insert(paths[i]));
}

pub proof fn lemma_select_distinct(paths: Seq<Path>, wanted: Set<Path>)
    requires
        paths.no_duplicates(),
    ensures
        select(paths, wanted).no_duplicates(),
    decreases paths.len(),
{
    if paths.len() > 0 {
        let rest = paths.drop_last();
        let chosen = select(rest, wanted);
        lemma_select_distinct(rest, wanted);
        lemma_select_members(rest, wanted);
        if chosen.contains(paths.last()) {
            let i = rest.index_of(paths.last());
            assert(paths[i] == paths[paths.len() - 1]);
        }
        assert(chosen.push(paths.last()).no_duplicates()) by {
            assert forall|i: int, j: int|
                0 <= i < j < chosen.push(paths.last()).len() implies chosen.push(paths.last())[i]
                != chosen.push(paths.last())[j] by {
                if j == chosen.len() {
                    assert(chosen.contains(chosen[i]));
                }
            }
        }
    }
}

} // verus!
