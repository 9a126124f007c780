use vstd::prelude::*;

verus! {

/// One cached sound: its name and its decoded samples.
pub struct SoundEntry {
    pub name: String,
    pub samples: Vec<i16>,
}

/// A cache of decoded sample buffers, keyed by sound name.
pub struct SampleStore {
    entries: Vec<SoundEntry>,
    contents: Ghost<Map<Seq<char>, Seq<i16>>>,
}

/// What the store holds after `load(name, decoded)`: a name already cached
/// keeps its buffer, a new one takes the decoded samples.
pub open spec fn loaded(
    m: Map<Seq<char>, Seq<i16>>,
    name: Seq<char>,
    decoded: Seq<i16>,
) -> Map<Seq<char>, Seq<i16>> {
    if m.contains_key(name) { m } else { m.insert(name, decoded) }
}

impl SampleStore {
    /// The cached buffers, by name.
    pub closed spec fn view(&self) -> Map<Seq<char>, Seq<i16>> {
        self.contents@
    }

    /// The entries have distinct names and hold exactly the cached buffers.
    pub closed spec fn wf(&self) -> bool {
        &&& forall|i: int, j: int|
            0 <= i < j < self.entries@.len() ==> self.entries@[i].name@ != self.entries@[j].name@
        &&& forall|i: int|
            #![trigger self.entries@[i]]
            0 <= i < self.entries@.len() ==> self.contents@.contains_key(self.entries@[i].name@)
                && self.contents@[self.entries@[i].name@] == self.entries@[i].samples@
        &&& forall|k: Seq<char>|
            self.contents@.contains_key(k) ==> exists|i: int|
                0 <= i < self.entries@.len() && self.entries@[i].name@ == k
    }

    /// An empty store.
    pub fn new() -> (r: SampleStore)
        ensures
            r.wf(),
            r@ == Map::<Seq<char>, Seq<i16>>::empty(),
    {
        SampleStore { entries: Vec::new(), contents: Ghost(Map::empty()) }
    }

    /// The index of the entry named `key`, if one is.
    fn position(&self, key: &String) -> (r: Option<usize>)
        requires
            self.wf(),
        ensures
            r is None <==> !self@.contains_key(key@),
            r matches Some(i) ==> i < self.entries@.len() && self.entries@[i as int].name@ == key@,
    {
        let mut i: usize = 0;
        while i < self.entries.len()
            invariant
                self.wf(),
                i <= self.entries@.len(),
                forall|j: int| 0 <= j < i ==> self.entries@[j].name@ != key@,
            decreases self.entries@.len() - i,
        {
            if self.entries[i].name == *key {
                return Some(i);
            }
            i = i + 1;
        }
        None
    }

    /// Whether a buffer is cached under `name`.
    pub fn contains(&self, name: &str) -> (r: bool)
        requires
            self.wf(),
        ensures
            r == self@.contains_key(name@),
    {
        let key = name.to_owned();
        self.position(&key).is_some()
    }

    /// The buffer cached under `name`, if any.
    pub fn get(&self, name: &str) -> (r: Option<&Vec<i16>>)
        requires
            self.wf(),
        ensures
            r is Some <==> self@.contains_key(name@),
            r matches Some(v) ==> v@ == self@[name@],
    {
        let key = name.to_owned();
        match self.position(&key) {
            Some(i) => Some(&self.entries[i].samples),
            None => None,
        }
    }

    /// Caches `decoded` under `name` unless a buffer is cached there already,
    /// in which case the cached one is kept. Returns whether `decoded` was
    /// taken.
    pub fn load(&mut self, name: &str, decoded: Vec<i16>) -> (r: bool)
        requires
            old(self).wf(),
        ensures
            final(self).wf(),
            r == !old(self)@.contains_key(name@),
            final(self)@ == loaded(old(self)@, name@, decoded@),
    {
        let key = name.to_owned();
        if self.position(&key).is_some() {
            return false;
        }
        let ghost old_entries = self.entries@;
        self.entries.push(SoundEntry { name: key, samples: decoded });
        self.contents = Ghost(self.contents@.insert(name@, decoded@));
        assert forall|k: Seq<char>| self.contents@.contains_key(k) implies exists|i: int|
            0 <= i < self.entries@.len() && self.entries@[i].name@ == k by {
            if k == name@ {
                assert(self.entries@[old_entries.len() as int].name@ == k);
            } else {
                let i = choose|i: int| 0 <= i < old_entries.len() && old_entries[i].name@ == k;
                assert(self.entries@[i].name@ == k);
            }
        }
        true
    }

    /// Evicts the buffer cached under `name`, if any; a later `load` of the
    /// name takes a freshly decoded buffer.
    pub fn unload(&mut self, name: &str)
        requires
            old(self).wf(),
        ensures
            final(self).wf(),
            final(self)@ == old(self)@.remove(name@),
    {
        let key = name.to_owned();
        match self.position(&key) {
            None => {
                assert(self.contents@.remove(name@) =~= self.contents@);
            },
            Some(i) => {
                let ghost old_entries = self.entries@;
                self.entries.remove(i);
                self.contents = Ghost(self.contents@.remove(name@));
                assert forall|j: int|
                    #![trigger self.entries@[j]]
                    0 <= j < self.entries@.len() implies self.contents@.contains_key(
                    self.entries@[j].name@)
                    && self.contents@[self.entries@[j].name@] == self.entries@[j].samples@ by {
                    if j < i {
                        assert(self.entries@[j] == old_entries[j]);
                        assert(old_entries[j].name@ != old_entries[i as int].name@);
                    } else {
                        assert(self.entries@[j] == old_entries[j + 1]);
                        assert(old_entries[i as int].name@ != old_entries[j + 1].name@);
                    }
                }
                assert forall|k: Seq<char>| self.contents@.contains_key(k) implies exists|j: int|
                    0 <= j < self.entries@.len() && self.entries@[j].name@ == k by {
                    let m = choose|m: int| 0 <= m < old_entries.len() && old_entries[m].name@ == k;
                    assert(m != i);
                    if m < i {
                        assert(self.entries@[m].name@ == k);
                    } else {
                        assert(self.entries@[m - 1].name@ == k);
                    }
                }
            },
        }
    }
}

/// Loading a name twice in a row leaves the buffer of the first load in the
/// cache: the second decoded buffer is not taken.
pub proof fn lemma_load_is_idempotent(
    m: Map<Seq<char>, Seq<i16>>,
    name: Seq<char>,
    first: Seq<i16>,
    second: Seq<i16>,
)
    ensures
        loaded(loaded(m, name, first), name, second) == loaded(m, name, first),
        loaded(loaded(m, name, first), name, second)[name] == (if m.contains_key(name) {
            m[name]
        } else {
            first
        }),
{
}

/// After an unload, loading the name takes the newly decoded buffer.
pub proof fn lemma_unload_then_load_redecodes(
    m: Map<Seq<char>, Seq<i16>>,
    name: Seq<char>,
    decoded: Seq<i16>,
)
    ensures
        loaded(m.remove(name), name, decoded)[name] == decoded,
        loaded(m.remove(name), name, decoded) == m.insert(name, decoded),
{
    assert(m.remove(name).insert(name, decoded) =~= m.insert(name, decoded));
}

} // verus!
