use vstd::prelude::*;

verus! {

/// A typed value submitted by the client for one input.
///
/// Floating-point payloads are carried as their IEEE-754 bit pattern: the
/// engine stores and compares them but never does arithmetic on them.
pub enum Payload {
    UInt(u64),
    Float(u64),
    Text(String),
    Flag(bool),
}

/// The mathematical value of a [`Payload`].
pub ghost enum PayloadView {
    UInt(u64),
    Float(u64),
    Text(Seq<char>),
    Flag(bool),
}

impl View for Payload {
    type V = PayloadView;

    open spec fn view(&self) -> PayloadView {
        match self {
            Payload::UInt(v) => PayloadView::UInt(*v),
            Payload::Float(v) => PayloadView::Float(*v),
            Payload::Text(s) => PayloadView::Text(s@),
            Payload::Flag(b) => PayloadView::Flag(*b),
        }
    }
}

/// A numeric argument read from an input: a whole number, or the bit
/// pattern of a float.
#[derive(Clone, Copy, PartialEq, Eq, Structural, Debug)]
pub enum Num {
    Whole(u64),
    Bits(u64),
}

impl Payload {
    /// A copy of this payload.
    pub fn duplicate(&self) -> (r: Payload)
        ensures
            r@ == self@,
    {
        match self {
            Payload::UInt(v) => Payload::UInt(*v),
            Payload::Float(v) => Payload::Float(*v),
            Payload::Text(s) => Payload::Text(s.clone()),
            Payload::Flag(b) => Payload::Flag(*b),
        }
    }
}

/// One stored input: its key, its latest payload and the revision at which it
/// was last written.
pub struct InputValue {
    pub key: String,
    pub payload: Payload,
    pub revision: u64,
}

/// The latest value of every named client input, each stamped with the
/// session-wide revision at which it was last written.
pub struct InputPool {
    entries: Vec<InputValue>,
    counter: u64,
}

/// Revision of `key` in a pool view; 0 for a key that was never written.
pub open spec fn revision_in(m: Map<Seq<char>, (PayloadView, u64)>, key: Seq<char>) -> u64 {
    if m.contains_key(key) {
        m[key].1
    } else {
        0
    }
}

impl InputPool {
    /// The pool as a map from key to (payload, revision).
    pub closed spec fn view(&self) -> Map<Seq<char>, (PayloadView, u64)> {
        Map::new(
            |k: Seq<char>| exists|i: int| 0 <= i < self.entries.len() && self.entries[i].key@ == k,
            |k: Seq<char>|
                {
                    let i = choose|i: int| 0 <= i < self.entries.len() && self.entries[i].key@ == k;
                    (self.entries[i].payload@, self.entries[i].revision)
                },
        )
    }

    /// The last revision handed out; every stored revision is at most this.
    pub closed spec fn current_revision(&self) -> u64 {
        self.counter
    }

    /// Keys are unique and every stored revision is positive and no later
    /// than the counter.
    pub closed spec fn wf(&self) -> bool {
        &&& forall|i: int, j: int|
            0 <= i < j < self.entries.len() ==> self.entries[i].key@ != self.entries[j].key@
        &&& forall|i: int|
            0 <= i < self.entries.len() ==> 0 < #[trigger] self.entries[i].revision
                <= self.counter
    }

    /// Every stored revision is positive and no later than the counter.
    pub broadcast proof fn lemma_revisions_bounded(&self, key: Seq<char>)
        requires
            self.wf(),
        ensures
            #[trigger] self@.contains_key(key) ==> 0 < self@[key].1 <= self.current_revision(),
    {
        if self@.contains_key(key) {
            let i = choose|i: int| 0 <= i < self.entries.len() && self.entries[i].key@ == key;
            assert(0 < self.entries[i].revision <= self.counter);
        }
    }

    proof fn lemma_entry(&self, i: int)
        requires
            self.wf(),
            0 <= i < self.entries.len(),
        ensures
            self@.contains_key(self.entries[i].key@),
            self@[self.entries[i].key@] == (self.entries[i].payload@, self.entries[i].revision),
    {
        let k = self.entries[i].key@;
        assert(exists|j: int| 0 <= j < self.entries.len() && self.entries[j].key@ == k);
        let j = choose|j: int| 0 <= j < self.entries.len() && self.entries[j].key@ == k;
        assert(i == j);
    }

    /// An empty pool whose counter has not advanced.
    pub fn new() -> (r: InputPool)
        ensures
            r.wf(),
            r@ == Map::<Seq<char>, (PayloadView, u64)>::empty(),
            r.current_revision() == 0,
    {
        let r = InputPool { entries: Vec::new(), counter: 0 };
        assert(r@ =~= Map::<Seq<char>, (PayloadView, u64)>::empty());
        r
    }

    /// The last revision handed out.
    pub fn last_revision(&self) -> (r: u64)
        ensures
            r == self.current_revision(),
    {
        self.counter
    }

    /// Index of the entry for `key`, if there is one.
    fn find(&self, key: &String) -> (r: Option<usize>)
        requires
            self.wf(),
        ensures
            match r {
                Some(i) => i < self.entries.len() && self.entries[i as int].key@ == key@,
                None => !self@.contains_key(key@),
            },
    {
        let mut i: usize = 0;
        while i < self.entries.len()
            invariant
                i <= self.entries.len(),
                forall|j: int| 0 <= j < i ==> self.entries[j].key@ != key@,
            decreases self.entries.len() - i,
        {
            if self.entries[i].key == *key {
                return Some(i);
            }
            i = i + 1;
        }
        None
    }

    /// Stores `payload` for `key` at a fresh revision, one past the last.
    ///
    /// Every call bumps the revision, also when the payload equals the stored
    /// one: change detection is triggered by writes, not by values.
    pub fn set(&mut self, key: &str, payload: Payload)
        requires
            old(self).wf(),
            old(self).current_revision() < u64::MAX,
        ensures
            final(self).wf(),
            final(self).current_revision() == old(self).current_revision() + 1,
            final(self)@ == old(self)@.insert(key@, (payload@, final(self).current_revision())),
    {
        let k = key.to_owned();
        let idx = self.find(&k);
        let ghost pre = *self;
        let rev = self.counter + 1;
        self.counter = rev;
        let ghost pv = payload@;
        match idx {
            Some(i) => {
                self.entries.set(i, InputValue { key: k, payload, revision: rev });
                assert forall|j: int, l: int|
                    0 <= j < l < self.entries.len() implies self.entries[j].key@
                    != self.entries[l].key@ by {
                    assert(pre.entries[j].key@ != pre.entries[l].key@);
                }
                assert forall|j: int|
                    0 <= j < self.entries.len() implies 0 < #[trigger] self.entries[j].revision
                    <= self.counter by {
                    if j != i {
                        assert(0 < pre.entries[j].revision <= pre.counter);
                    }
                }
                assert forall|kk: Seq<char>|
                    #![auto]
                    self@.contains_key(kk) == pre@.insert(key@, (pv, rev)).contains_key(kk) by {
                    if kk != key@ && pre@.contains_key(kk) {
                        let j = choose|j: int| 0 <= j < pre.entries.len() && pre.entries[j].key@ == kk;
                        assert(self.entries[j].key@ == kk);
                    }
                    if self@.contains_key(kk) && kk != key@ {
                        let j = choose|j: int| 0 <= j < self.entries.len() && self.entries[j].key@ == kk;
                        assert(pre.entries[j].key@ == kk);
                    }
                    if kk == key@ {
                        assert(self.entries[i as int].key@ == kk);
                    }
                }
                assert forall|kk: Seq<char>| #[trigger]
                    self@.contains_key(kk) implies self@[kk] == pre@.insert(key@, (pv, rev))[kk] by {
                    let j = choose|j: int| 0 <= j < self.entries.len() && self.entries[j].key@ == kk;
                    self.lemma_entry(j);
                    if j != i {
                        pre.lemma_entry(j);
                    }
                }
                assert(self@ =~= pre@.insert(key@, (pv, rev)));
            },
            None => {
                self.entries.push(InputValue { key: k, payload, revision: rev });
                let n = self.entries.len() - 1;
                assert forall|j: int, l: int|
                    0 <= j < l < self.entries.len() implies self.entries[j].key@
                    != self.entries[l].key@ by {
                    if l == n {
                        pre.lemma_entry(j);
                    } else {
                        assert(pre.entries[j].key@ != pre.entries[l].key@);
                    }
                }
                assert forall|j: int|
                    0 <= j < self.entries.len() implies 0 < #[trigger] self.entries[j].revision
                    <= self.counter by {
                    if j != n {
                        assert(0 < pre.entries[j].revision <= pre.counter);
                    }
                }
                assert forall|kk: Seq<char>|
                    #![auto]
                    self@.contains_key(kk) == pre@.insert(key@, (pv, rev)).contains_key(kk) by {
                    if kk != key@ && pre@.contains_key(kk) {
                        let j = choose|j: int| 0 <= j < pre.entries.len() && pre.entries[j].key@ == kk;
                        assert(self.entries[j].key@ == kk);
                    }
                    if self@.contains_key(kk) && kk != key@ {
                        let j = choose|j: int| 0 <= j < self.entries.len() && self.entries[j].key@ == kk;
                        assert(pre.entries[j].key@ == kk);
                    }
                    if kk == key@ {
                        assert(self.entries[n as int].key@ == kk);
                    }
                }
                assert forall|kk: Seq<char>| #[trigger]
                    self@.contains_key(kk) implies self@[kk] == pre@.insert(key@, (pv, rev))[kk] by {
                    let j = choose|j: int| 0 <= j < self.entries.len() && self.entries[j].key@ == kk;
                    self.lemma_entry(j);
                    if j != n {
                        pre.lemma_entry(j);
                    }
                }
                assert(self@ =~= pre@.insert(key@, (pv, rev)));
            },
        }
    }

    /// The revision at which `key` was last written; 0 if it never was.
    pub fn revision(&self, key: &str) -> (r: u64)
        requires
            self.wf(),
        ensures
            r == revision_in(self@, key@),
    {
        let k = key.to_owned();
        match self.find(&k) {
            Some(i) => {
                proof {
                    self.lemma_entry(i as int);
                }
                self.entries[i].revision
            },
            None => 0,
        }
    }

    /// The payload stored for `key`, if any.
    fn lookup(&self, key: &str) -> (r: Option<&Payload>)
        requires
            self.wf(),
        ensures
            match r {
                Some(p) => self@.contains_key(key@) && self@[key@].0 == p@,
                None => !self@.contains_key(key@),
            },
    {
        let k = key.to_owned();
        match self.find(&k) {
            Some(i) => {
                proof {
                    self.lemma_entry(i as int);
                }
                Some(&self.entries[i].payload)
            },
            None => None,
        }
    }

    /// The unsigned integer stored for `key`; `None` if it is absent or holds
    /// another kind of value.
    pub fn get_u64(&self, key: &str) -> (r: Option<u64>)
        requires
            self.wf(),
        ensures
            r == (if self@.contains_key(key@) && self@[key@].0 is UInt {
                Some(self@[key@].0->UInt_0)
            } else {
                None::<u64>
            }),
    {
        match self.lookup(key) {
            Some(Payload::UInt(v)) => Some(*v),
            _ => None,
        }
    }

    /// The bit pattern of the float stored for `key`; `None` if it is absent
    /// or holds another kind of value.
    pub fn get_float_bits(&self, key: &str) -> (r: Option<u64>)
        requires
            self.wf(),
        ensures
            r == (if self@.contains_key(key@) && self@[key@].0 is Float {
                Some(self@[key@].0->Float_0)
            } else {
                None::<u64>
            }),
    {
        match self.lookup(key) {
            Some(Payload::Float(v)) => Some(*v),
            _ => None,
        }
    }

    /// The number stored for `key`, whole or float; `None` if it is absent
    /// or holds no number.
    pub fn get_number(&self, key: &str) -> (r: Option<Num>)
        requires
            self.wf(),
        ensures
            r == (if self@.contains_key(key@) && self@[key@].0 is UInt {
                Some(Num::Whole(self@[key@].0->UInt_0))
            } else if self@.contains_key(key@) && self@[key@].0 is Float {
                Some(Num::Bits(self@[key@].0->Float_0))
            } else {
                None::<Num>
            }),
    {
        match self.lookup(key) {
            Some(Payload::UInt(v)) => Some(Num::Whole(*v)),
            Some(Payload::Float(v)) => Some(Num::Bits(*v)),
            _ => None,
        }
    }

    /// The boolean stored for `key`; `None` if it is absent or holds another
    /// kind of value.
    pub fn get_bool(&self, key: &str) -> (r: Option<bool>)
        requires
            self.wf(),
        ensures
            r == (if self@.contains_key(key@) && self@[key@].0 is Flag {
                Some(self@[key@].0->Flag_0)
            } else {
                None::<bool>
            }),
    {
        match self.lookup(key) {
            Some(Payload::Flag(v)) => Some(*v),
            _ => None,
        }
    }

    /// The text stored for `key`; `None` if it is absent or holds another kind
    /// of value.
    pub fn get_string(&self, key: &str) -> (r: Option<String>)
        requires
            self.wf(),
        ensures
            match r {
                Some(s) => self@.contains_key(key@) && self@[key@].0 == PayloadView::Text(s@),
                None => !(self@.contains_key(key@) && self@[key@].0 is Text),
            },
    {
        match self.lookup(key) {
            Some(Payload::Text(s)) => Some(s.clone()),
            _ => None,
        }
    }
}

} // verus!
