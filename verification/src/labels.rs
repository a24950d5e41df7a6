use vstd::prelude::*;

verus! {

/// Index of the first pair of `s` whose key is `k`, or `-1` when no pair has
/// that key.
pub open spec fn spec_find_key(s: Seq<(Seq<char>, Seq<char>)>, k: Seq<char>) -> int
    decreases s.len(),
{
    if s.len() == 0 {
        -1
    } else if s[0].0 == k {
        0
    } else {
        let r = spec_find_key(s.drop_first(), k);
        if r == -1 {
            -1
        } else {
            r + 1
        }
    }
}

/// `s` with the binding `k -> v` applied: the first pair keyed `k` is
/// replaced, or the pair is appended when `k` is absent.
pub open spec fn spec_upsert(
    s: Seq<(Seq<char>, Seq<char>)>,
    k: Seq<char>,
    v: Seq<char>,
) -> Seq<(Seq<char>, Seq<char>)> {
    let i = spec_find_key(s, k);
    if i == -1 {
        s.push((k, v))
    } else {
        s.update(i, (k, v))
    }
}

/// The pairs of `pairs` applied in order to an empty set: duplicate keys
/// collapse to the last value given, and each key keeps the position of its
/// first occurrence.
pub open spec fn spec_collapse(pairs: Seq<(Seq<char>, Seq<char>)>) -> Seq<(Seq<char>, Seq<char>)>
    decreases pairs.len(),
{
    if pairs.len() == 0 {
        Seq::empty()
    } else {
        spec_upsert(spec_collapse(pairs.drop_last()), pairs.last().0, pairs.last().1)
    }
}

/// All keys of `s` are distinct.
pub open spec fn unique_keys(s: Seq<(Seq<char>, Seq<char>)>) -> bool {
    forall|i: int, j: int| 0 <= i < j < s.len() ==> s[i].0 != s[j].0
}

/// Collapsing pairs whose keys are already unique changes nothing.
pub proof fn lemma_collapse_of_unique(pairs: Seq<(Seq<char>, Seq<char>)>)
    requires
        unique_keys(pairs),
    ensures
        spec_collapse(pairs) == pairs,
    decreases pairs.len(),
{
    if pairs.len() > 0 {
        let front = pairs.drop_last();
        let last = pairs.last();
        assert forall|i: int, j: int| 0 <= i < j < front.len() implies front[i].0 != front[j].0 by {
            assert(front[i] == pairs[i]);
            assert(front[j] == pairs[j]);
        }
        lemma_collapse_of_unique(front);
        lemma_find_key_properties(front, last.0);
        if spec_find_key(front, last.0) != -1 {
            let r = spec_find_key(front, last.0);
            assert(front[r] == pairs[r]);
            assert(pairs[r].0 == pairs[pairs.len() - 1].0);
            assert(false);
        }
        assert(spec_collapse(pairs) == front.push(last));
        assert(front.push(last) =~= pairs);
    }
}

/// Whether all keys of `pairs` are distinct, compared as strings.
pub fn keys_unique(pairs: &Vec<(String, String)>) -> (r: bool)
    ensures
        r == unique_keys(pairs.deep_view()),
{
    let n = pairs.len();
    let mut i: usize = 0;
    while i < n
        invariant
            n == pairs@.len(),
            i <= n,
            forall|a: int, b: int|
                0 <= a < b < n && a < i ==> pairs.deep_view()[a].0 != pairs.deep_view()[b].0,
        decreases n - i,
    {
        let mut j: usize = i + 1;
        while j < n
            invariant
                n == pairs@.len(),
                i < j <= n,
                i < n,
                forall|b: int|
                    i < b < j ==> pairs.deep_view()[i as int].0 != pairs.deep_view()[b].0,
            decreases n - j,
        {
            if pairs[i].0 == pairs[j].0 {
                proof {
                    assert(pairs.deep_view()[i as int].0 == pairs@[i as int].0@);
                    assert(pairs.deep_view()[j as int].0 == pairs@[j as int].0@);
                    assert(!unique_keys(pairs.deep_view()));
                }
                return false;
            }
            proof {
                assert(pairs.deep_view()[i as int].0 == pairs@[i as int].0@);
                assert(pairs.deep_view()[j as int].0 == pairs@[j as int].0@);
            }
            j += 1;
        }
        i += 1;
    }
    true
}

/// An unordered mapping from label name to label value, identifying one
/// timeseries within a metric family. The empty set is valid and denotes the
/// default, unlabeled series. Keys are unique; constructing a set from pairs
/// with duplicate keys keeps the last value, per standard mapping semantics.
#[derive(Debug, PartialEq, Eq)]
pub struct LabelSet {
    kvs: Vec<(String, String)>,
}

impl View for LabelSet {
    type V = Seq<(Seq<char>, Seq<char>)>;

    closed spec fn view(&self) -> Seq<(Seq<char>, Seq<char>)> {
        self.kvs.deep_view()
    }
}

impl DeepView for LabelSet {
    type V = Seq<(Seq<char>, Seq<char>)>;

    open spec fn deep_view(&self) -> Seq<(Seq<char>, Seq<char>)> {
        self.view()
    }
}

proof fn lemma_find_key_properties(s: Seq<(Seq<char>, Seq<char>)>, k: Seq<char>)
    ensures
        spec_find_key(s, k) == -1 ==> forall|j: int| 0 <= j < s.len() ==> s[j].0 != k,
        spec_find_key(s, k) != -1 ==> {
            let r = spec_find_key(s, k);
            &&& 0 <= r < s.len()
            &&& s[r].0 == k
            &&& forall|j: int| 0 <= j < r ==> s[j].0 != k
        },
    decreases s.len(),
{
    if s.len() != 0 && s[0].0 != k {
        lemma_find_key_properties(s.drop_first(), k);
        assert forall|j: int| 1 <= j < s.len() implies s.drop_first()[j - 1] == s[j] by {}
    }
}

/// The first index of `s` whose key is `k` determines `spec_find_key`: the
/// scan that stops at the first match computes it.
proof fn lemma_find_key_unique(s: Seq<(Seq<char>, Seq<char>)>, k: Seq<char>, i: int)
    requires
        0 <= i < s.len(),
        s[i].0 == k,
        forall|j: int| 0 <= j < i ==> s[j].0 != k,
    ensures
        spec_find_key(s, k) == i,
    decreases s.len(),
{
    if i > 0 {
        assert forall|j: int| 0 <= j < i - 1 implies s.drop_first()[j].0 != k by {
            assert(s.drop_first()[j] == s[j + 1]);
        }
        assert(s.drop_first()[i - 1] == s[i]);
        lemma_find_key_unique(s.drop_first(), k, i - 1);
    }
}

impl Clone for LabelSet {
    /// An equal label set: same pairs, same order.
    fn clone(&self) -> (r: Self)
        ensures
            r@ == self@,
    {
        let n = self.kvs.len();
        let mut kvs: Vec<(String, String)> = Vec::new();
        let mut i: usize = 0;
        while i < n
            invariant
                n == self.kvs@.len(),
                i <= n,
                kvs.deep_view() =~= self.kvs.deep_view().take(i as int),
            decreases n - i,
        {
            let k = self.kvs[i].0.clone();
            let v = self.kvs[i].1.clone();
            let kv = (k, v);
            let ghost snapshot = kv;
            let ghost prev = kvs@;
            proof {
                assert(kvs.deep_view().len() == prev.len());
                assert(prev.len() == i);
            }
            kvs.push(kv);
            proof {
                assert(kvs@ == prev.push(snapshot));
                assert(kvs@[i as int] == snapshot);
                assert(kvs.deep_view()[i as int] == snapshot.deep_view());
                assert(snapshot.deep_view() == (snapshot.0@, snapshot.1@));
                assert(self.kvs.deep_view()[i as int] == (
                    self.kvs@[i as int].0@,
                    self.kvs@[i as int].1@,
                ));
                assert(kvs.deep_view() =~= self.kvs.deep_view().take(i + 1));
            }
            i += 1;
        }
        let r = LabelSet { kvs };
        proof {
            assert(self.kvs.deep_view().take(n as int) =~= self.kvs.deep_view());
            assert(r@ == self@);
        }
        r
    }
}

impl LabelSet {
    /// Every key occurs at most once.
    pub open spec fn well_formed(&self) -> bool {
        unique_keys(self@)
    }

    /// The empty label set.
    pub fn new() -> (r: LabelSet)
        ensures
            r@ == Seq::<(Seq<char>, Seq<char>)>::empty(),
            r.well_formed(),
    {
        let r = LabelSet { kvs: Vec::new() };
        proof {
            assert(r@ =~= Seq::<(Seq<char>, Seq<char>)>::empty());
        }
        r
    }

    /// How many labels the set holds.
    pub fn len(&self) -> (r: usize)
        ensures
            r == self@.len(),
    {
        self.kvs.len()
    }

    /// The pairs of the set, in their held order.
    pub fn pairs(&self) -> (r: &Vec<(String, String)>)
        ensures
            r.deep_view() == self@,
    {
        &self.kvs
    }

    /// Index of the first pair keyed `k`, if any.
    fn find_key(&self, k: &String) -> (r: Option<usize>)
        ensures
            match r {
                Some(i) => i == spec_find_key(self@, k@) && i < self@.len(),
                None => spec_find_key(self@, k@) == -1,
            },
    {
        let n = self.kvs.len();
        let mut i: usize = 0;
        while i < n
            invariant
                n == self@.len(),
                i <= n,
                forall|j: int| 0 <= j < i ==> self@[j].0 != k@,
            decreases n - i,
        {
            if self.kvs[i].0 == *k {
                proof {
                    assert(self@[i as int].0 == k@);
                    lemma_find_key_unique(self@, k@, i as int);
                }
                return Some(i);
            }
            i += 1;
        }
        proof {
            lemma_find_key_properties(self@, k@);
            if spec_find_key(self@, k@) != -1 {
                assert(self@[spec_find_key(self@, k@)].0 == k@);
            }
        }
        None
    }

    /// Bind `k` to `v`, replacing any earlier value of `k` (last write wins).
    pub fn insert(&mut self, k: String, v: String)
        ensures
            final(self)@ == spec_upsert(old(self)@, k@, v@),
            old(self).well_formed() ==> final(self).well_formed(),
    {
        let found = self.find_key(&k);
        match found {
            Some(i) => {
                self.kvs[i] = (k, v);
                proof {
                    assert(self@ =~= old(self)@.update(spec_find_key(old(self)@, k@), (k@, v@)));
                    if old(self).well_formed() {
                        lemma_find_key_properties(old(self)@, k@);
                    }
                }
            },
            None => {
                self.kvs.push((k, v));
                proof {
                    assert(self@ =~= old(self)@.push((k@, v@)));
                    if old(self).well_formed() {
                        lemma_find_key_properties(old(self)@, k@);
                    }
                }
            },
        }
    }

    /// A label set built from `pairs`, applied in order: duplicate keys
    /// collapse to the last value given.
    pub fn from_pairs(pairs: Vec<(String, String)>) -> (r: LabelSet)
        ensures
            r@ == spec_collapse(pairs.deep_view()),
            r.well_formed(),
    {
        let mut r = LabelSet::new();
        let n = pairs.len();
        let mut i: usize = 0;
        while i < n
            invariant
                n == pairs.deep_view().len(),
                n == pairs@.len(),
                i <= n,
                r@ == spec_collapse(pairs.deep_view().take(i as int)),
                r.well_formed(),
            decreases n - i,
        {
            let k = pairs[i].0.clone();
            let v = pairs[i].1.clone();
            proof {
                assert(pairs.deep_view()[i as int] == (pairs@[i as int].0@, pairs@[i as int].1@));
                assert(pairs.deep_view().take(i + 1).drop_last() =~= pairs.deep_view().take(
                    i as int,
                ));
                assert(pairs.deep_view().take(i + 1).last() == pairs.deep_view()[i as int]);
            }
            r.insert(k, v);
            i += 1;
        }
        proof {
            assert(pairs.deep_view().take(n as int) =~= pairs.deep_view());
        }
        r
    }
}

} // verus!
