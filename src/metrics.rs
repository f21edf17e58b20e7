use vstd::prelude::*;

verus! {

/// Named counters, one per distinct key, each starting at zero.
pub struct Metrics {
    keys: Vec<String>,
    counts: Vec<i64>,
}

/// The map from the first `n` keys to their counts.
pub open spec fn counters_upto(keys: Seq<String>, counts: Seq<i64>, n: int) -> Map<Seq<char>, i64>
    decreases n,
{
    if n <= 0 {
        Map::empty()
    } else {
        counters_upto(keys, counts, n - 1).insert(keys[n - 1]@, counts[n - 1])
    }
}

/// No key occurs twice among the first `n`.
pub open spec fn keys_distinct(keys: Seq<String>, n: int) -> bool {
    forall|i: int, j: int| 0 <= i < n && 0 <= j < n && i != j ==> (#[trigger] keys[i])@ != (#[trigger] keys[j])@
}

proof fn lemma_counters_domain(keys: Seq<String>, counts: Seq<i64>, n: int, k: Seq<char>)
    requires
        0 <= n <= keys.len(),
        n <= counts.len(),
    ensures
        counters_upto(keys, counts, n).contains_key(k) <==> exists|i: int| 0 <= i < n && (#[trigger] keys[i])@ == k,
    decreases n,
{
    if n > 0 {
        lemma_counters_domain(keys, counts, n - 1, k);
        if counters_upto(keys, counts, n).contains_key(k) && keys[n - 1]@ != k {
            let i = choose|i: int| 0 <= i < n - 1 && (#[trigger] keys[i])@ == k;
            assert(0 <= i < n && keys[i]@ == k);
        }
        if exists|i: int| 0 <= i < n && (#[trigger] keys[i])@ == k {
            let i = choose|i: int| 0 <= i < n && (#[trigger] keys[i])@ == k;
            if i < n - 1 {
                assert(exists|i: int| 0 <= i < n - 1 && (#[trigger] keys[i])@ == k);
            }
        }
    }
}

proof fn lemma_counters_value(keys: Seq<String>, counts: Seq<i64>, n: int, i: int)
    requires
        0 <= n <= keys.len(),
        n <= counts.len(),
        keys_distinct(keys, n),
        0 <= i < n,
    ensures
        counters_upto(keys, counts, n).contains_key(keys[i]@),
        counters_upto(keys, counts, n)[keys[i]@] == counts[i],
    decreases n,
{
    if i < n - 1 {
        assert(keys[i]@ != keys[n - 1]@);
        lemma_counters_value(keys, counts, n - 1, i);
    }
}

proof fn lemma_counters_set(keys: Seq<String>, counts: Seq<i64>, n: int, i: int, v: i64)
    requires
        0 <= n <= keys.len(),
        n <= counts.len(),
        keys_distinct(keys, n),
        0 <= i < n,
    ensures
        counters_upto(keys, counts.update(i, v), n) == counters_upto(keys, counts, n).insert(keys[i]@, v),
    decreases n,
{
    if i < n - 1 {
        lemma_counters_set(keys, counts, n - 1, i, v);
        assert(keys[i]@ != keys[n - 1]@);
        assert(counters_upto(keys, counts.update(i, v), n) =~= counters_upto(keys, counts, n).insert(keys[i]@, v));
    } else {
        lemma_counters_prefix(keys, counts, keys, counts.update(i, v), n - 1);
        assert(counters_upto(keys, counts.update(i, v), n) =~= counters_upto(keys, counts, n).insert(keys[i]@, v));
    }
}

proof fn lemma_counters_prefix(k1: Seq<String>, c1: Seq<i64>, k2: Seq<String>, c2: Seq<i64>, n: int)
    requires
        0 <= n <= k1.len(),
        n <= k2.len(),
        n <= c1.len(),
        n <= c2.len(),
        forall|i: int| 0 <= i < n ==> k1[i] == k2[i] && c1[i] == c2[i],
    ensures
        counters_upto(k1, c1, n) == counters_upto(k2, c2, n),
    decreases n,
{
    if n > 0 {
        lemma_counters_prefix(k1, c1, k2, c2, n - 1);
    }
}

impl View for Metrics {
    type V = Map<Seq<char>, i64>;

    closed spec fn view(&self) -> Map<Seq<char>, i64> {
        counters_upto(self.keys@, self.counts@, self.keys@.len() as int)
    }
}

impl Metrics {
    /// One count per key, no key twice.
    pub closed spec fn wf(&self) -> bool {
        &&& self.keys@.len() == self.counts@.len()
        &&& keys_distinct(self.keys@, self.keys@.len() as int)
    }

    /// No counters yet.
    pub fn new() -> (r: Metrics)
        ensures
            r.wf(),
            r@ == Map::<Seq<char>, i64>::empty(),
    {
        Metrics { keys: Vec::new(), counts: Vec::new() }
    }

    /// Adds one to the counter of `key`, which starts at zero.
    pub fn inc(&mut self, key: String)
        requires
            old(self).wf(),
            old(self)@.contains_key(key@) ==> old(self)@[key@] < i64::MAX,
        ensures
            final(self).wf(),
            final(self)@ == old(self)@.insert(
                key@,
                if old(self)@.contains_key(key@) {
                    (old(self)@[key@] + 1) as i64
                } else {
                    1i64
                },
            ),
    {
        let n = self.keys.len();
        let mut i: usize = 0;
        while i < n
            invariant
                self.wf(),
                n == self.keys@.len(),
                i <= n,
                forall|p: int| 0 <= p < i ==> (#[trigger] self.keys@[p])@ != key@,
                old(self)@.contains_key(key@) ==> old(self)@[key@] < i64::MAX,
                *self == *old(self),
            decreases n - i,
        {
            if self.keys[i] == key {
                proof {
                    assert(self.keys@[i as int]@ == key@);
                    lemma_counters_value(self.keys@, self.counts@, n as int, i as int);
                    lemma_counters_set(self.keys@, self.counts@, n as int, i as int, (self.counts@[i as int] + 1) as i64);
                }
                let c = self.counts[i];
                self.counts.set(i, c + 1);
                return;
            }
            i = i + 1;
        }
        proof {
            lemma_counters_domain(self.keys@, self.counts@, n as int, key@);
        }
        let ghost keys0 = self.keys@;
        let ghost counts0 = self.counts@;
        self.keys.push(key);
        self.counts.push(1);
        proof {
            lemma_counters_prefix(keys0, counts0, self.keys@, self.counts@, n as int);
            assert(keys_distinct(self.keys@, self.keys@.len() as int)) by {
                assert forall|p: int, q: int|
                    0 <= p < n + 1 && 0 <= q < n + 1 && p != q implies (#[trigger] self.keys@[p])@ != (
                    #[trigger] self.keys@[q])@ by {
                    if p < n && q < n {
                        assert(keys0[p] == self.keys@[p] && keys0[q] == self.keys@[q]);
                    }
                }
            }
        }
    }

    /// The counters as (key, count) pairs, one per key.
    pub fn snapshot(&self) -> (r: Vec<(String, i64)>)
        requires
            self.wf(),
        ensures
            r@.len() == self@.dom().len(),
            forall|p: int| 0 <= p < r@.len() ==> self@.contains_key((#[trigger] r@[p]).0@) && self@[r@[p].0@] == r@[p].1,
            forall|k: Seq<char>| self@.contains_key(k) ==> exists|p: int| 0 <= p < r@.len() && (#[trigger] r@[p]).0@ == k,
    {
        let n = self.keys.len();
        let mut out: Vec<(String, i64)> = Vec::new();
        let mut i: usize = 0;
        while i < n
            invariant
                self.wf(),
                n == self.keys@.len(),
                i <= n,
                out@.len() == i,
                forall|p: int| 0 <= p < i ==> (#[trigger] out@[p]).0 == self.keys@[p] && out@[p].1 == self.counts@[p],
            decreases n - i,
        {
            out.push((self.keys[i].clone(), self.counts[i]));
            i = i + 1;
        }
        proof {
            assert forall|p: int| 0 <= p < out@.len() implies self@.contains_key((#[trigger] out@[p]).0@)
                && self@[out@[p].0@] == out@[p].1 by {
                lemma_counters_value(self.keys@, self.counts@, n as int, p);
            }
            assert forall|k: Seq<char>| self@.contains_key(k) implies exists|p: int|
                0 <= p < out@.len() && (#[trigger] out@[p]).0@ == k by {
                lemma_counters_domain(self.keys@, self.counts@, n as int, k);
                let p = choose|p: int| 0 <= p < n && (#[trigger] self.keys@[p])@ == k;
                assert(out@[p].0@ == k);
            }
            lemma_counters_dom_len(self.keys@, self.counts@, n as int);
        }
        out
    }
}

impl Default for Metrics {
    fn default() -> (r: Metrics)
        ensures
            r.wf(),
            r@ == Map::<Seq<char>, i64>::empty(),
    {
        Metrics::new()
    }
}

proof fn lemma_counters_dom_len(keys: Seq<String>, counts: Seq<i64>, n: int)
    requires
        0 <= n <= keys.len(),
        n <= counts.len(),
        keys_distinct(keys, n),
    ensures
        counters_upto(keys, counts, n).dom().len() == n,
        counters_upto(keys, counts, n).dom().finite(),
    decreases n,
{
    if n > 0 {
        lemma_counters_dom_len(keys, counts, n - 1);
        lemma_counters_domain(keys, counts, n - 1, keys[n - 1]@);
        assert forall|i: int| 0 <= i < n - 1 implies (#[trigger] keys[i])@ != keys[n - 1]@ by {}
    }
}

} // verus!
