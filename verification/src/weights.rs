//! The aggregation state: string-keyed maps of weights, the working weights
//! that scan roots fill, and the merge/override/prune rules that combine them
//! into a destination configuration.

use vstd::prelude::*;

use crate::DEFAULT_WEIGHT;

verus! {

/// The mathematical contents of an association list: later entries win.
pub open spec fn map_of<V>(s: Seq<(String, V)>) -> Map<Seq<char>, V>
    decreases s.len(),
{
    if s.len() == 0 {
        Map::empty()
    } else {
        map_of(s.drop_last()).insert(s.last().0@, s.last().1)
    }
}

/// A finite map from strings to values, kept as an association list with
/// pairwise-distinct keys.  Insertion overwrites; iteration order is the
/// insertion order, which no contract relies on.
pub struct StrMap<V> {
    entries: Vec<(String, V)>,
}

impl<V> View for StrMap<V> {
    type V = Map<Seq<char>, V>;

    closed spec fn view(&self) -> Map<Seq<char>, V> {
        map_of(self.entries@)
    }
}

proof fn lemma_map_of_contains<V>(s: Seq<(String, V)>, k: Seq<char>)
    ensures
        map_of(s).dom().contains(k) <==> exists|i: int| 0 <= i < s.len() && s[i].0@ == k,
    decreases s.len(),
{
    if s.len() == 0 {
    } else {
        lemma_map_of_contains(s.drop_last(), k);
        if s.last().0@ == k {
            assert(s[s.len() - 1].0@ == k);
        } else {
            if map_of(s).dom().contains(k) {
                let i = choose|i: int| 0 <= i < s.drop_last().len() && s.drop_last()[i].0@ == k;
                assert(s[i].0@ == k);
            }
            if exists|i: int| 0 <= i < s.len() && s[i].0@ == k {
                let i = choose|i: int| 0 <= i < s.len() && s[i].0@ == k;
                assert(i < s.len() - 1);
                assert(s.drop_last()[i].0@ == k);
            }
        }
    }
}

/// Distinctness of the stored keys, as character sequences.
pub open spec fn distinct_keys<V>(s: Seq<(String, V)>) -> bool {
    forall|i: int, j: int| 0 <= i < j < s.len() ==> s[i].0@ != s[j].0@
}

proof fn lemma_map_of_index<V>(s: Seq<(String, V)>, i: int)
    requires
        distinct_keys(s),
        0 <= i < s.len(),
    ensures
        map_of(s).dom().contains(s[i].0@),
        map_of(s)[s[i].0@] == s[i].1,
    decreases s.len(),
{
    if i == s.len() - 1 {
    } else {
        assert(distinct_keys(s.drop_last())) by {
            assert(forall|a: int, b: int|
                0 <= a < b < s.drop_last().len() ==> s.drop_last()[a].0@ != s.drop_last()[b].0@);
        }
        lemma_map_of_index(s.drop_last(), i);
        assert(s.drop_last()[i] == s[i]);
        assert(s[i].0@ != s.last().0@);
    }
}

proof fn lemma_map_of_update<V>(s: Seq<(String, V)>, i: int, k: String, v: V)
    requires
        distinct_keys(s),
        0 <= i < s.len(),
        k@ == s[i].0@,
    ensures
        map_of(s.update(i, (k, v))) == map_of(s).insert(k@, v),
    decreases s.len(),
{
    let t = s.update(i, (k, v));
    if i == s.len() - 1 {
        assert(t.drop_last() =~= s.drop_last());
        assert(t.last() == (k, v));
        assert(map_of(t) == map_of(s.drop_last()).insert(k@, v));
        assert(map_of(s.drop_last()).insert(k@, v) =~= map_of(s).insert(k@, v));
    } else {
        assert(distinct_keys(s.drop_last())) by {
            assert(forall|a: int, b: int|
                0 <= a < b < s.drop_last().len() ==> s.drop_last()[a].0@ != s.drop_last()[b].0@);
        }
        assert(t.drop_last() =~= s.drop_last().update(i, (k, v)));
        lemma_map_of_update(s.drop_last(), i, k, v);
        assert(t.last() == s.last());
        assert(s.last().0@ != k@);
        assert(map_of(t) == map_of(s.drop_last()).insert(k@, v).insert(s.last().0@, s.last().1));
        assert(map_of(s.drop_last()).insert(k@, v).insert(s.last().0@, s.last().1)
            =~= map_of(s.drop_last()).insert(s.last().0@, s.last().1).insert(k@, v));
    }
}

proof fn lemma_map_of_push<V>(s: Seq<(String, V)>, k: String, v: V)
    ensures
        map_of(s.push((k, v))) == map_of(s).insert(k@, v),
{
    assert(s.push((k, v)).drop_last() =~= s);
    assert(s.push((k, v)).last() == (k, v));
}

proof fn lemma_map_of_card<V>(s: Seq<(String, V)>)
    requires
        distinct_keys(s),
    ensures
        map_of(s).dom().finite(),
        map_of(s).dom().len() == s.len(),
    decreases s.len(),
{
    if s.len() == 0 {
    } else {
        assert(distinct_keys(s.drop_last())) by {
            assert(forall|a: int, b: int|
                0 <= a < b < s.drop_last().len() ==> s.drop_last()[a].0@ != s.drop_last()[b].0@);
        }
        lemma_map_of_card(s.drop_last());
        lemma_map_of_contains(s.drop_last(), s.last().0@);
        assert(forall|i: int| 0 <= i < s.drop_last().len() ==> s.drop_last()[i] == s[i]);
        assert(!map_of(s.drop_last()).dom().contains(s.last().0@));
    }
}

impl<V> StrMap<V> {
    /// The structural invariant: no key occurs twice.
    pub closed spec fn wf(&self) -> bool {
        distinct_keys(self.entries@)
    }

    /// The empty map.
    pub fn new() -> (r: StrMap<V>)
        ensures
            r.wf(),
            r@ == Map::<Seq<char>, V>::empty(),
    {
        StrMap { entries: Vec::new() }
    }

    fn find_index(&self, key: &String) -> (r: Option<usize>)
        ensures
            match r {
                Some(i) => i < self.entries@.len() && self.entries@[i as int].0@ == key@,
                None => forall|i: int| 0 <= i < self.entries@.len() ==> self.entries@[i].0@ != key@,
            },
    {
        let mut i: usize = 0;
        while i < self.entries.len()
            invariant
                i <= self.entries@.len(),
                forall|j: int| 0 <= j < i ==> self.entries@[j].0@ != key@,
            decreases self.entries@.len() - i,
        {
            let p: &(String, V) = &self.entries[i];
            if p.0 == *key {
                return Some(i);
            }
            i = i + 1;
        }
        None
    }

    /// Whether the map holds an entry for `key`.
    pub fn contains_key(&self, key: &String) -> (r: bool)
        ensures
            r == self@.dom().contains(key@),
    {
        proof {
            lemma_map_of_contains(self.entries@, key@);
        }
        self.find_index(key).is_some()
    }

    /// The value bound to `key`, if any.
    pub fn get(&self, key: &String) -> (r: Option<&V>)
        requires
            self.wf(),
        ensures
            match r {
                Some(v) => self@.dom().contains(key@) && *v == self@[key@],
                None => !self@.dom().contains(key@),
            },
    {
        proof {
            lemma_map_of_contains(self.entries@, key@);
        }
        match self.find_index(key) {
            Some(i) => {
                proof {
                    lemma_map_of_index(self.entries@, i as int);
                }
                Some(&self.entries[i].1)
            },
            None => None,
        }
    }

    /// Binds `key` to `value`, overwriting any earlier binding.
    pub fn insert(&mut self, key: String, value: V)
        requires
            old(self).wf(),
        ensures
            final(self).wf(),
            final(self)@ == old(self)@.insert(key@, value),
    {
        let ghost s = self.entries@;
        match self.find_index(&key) {
            Some(i) => {
                proof {
                    lemma_map_of_update(s, i as int, key, value);
                }
                let ghost kv = key@;
                self.entries.set(i, (key, value));
                assert(final(self).wf()) by {
                    assert(forall|a: int, b: int|
                        0 <= a < b < self.entries@.len()
                            ==> self.entries@[a].0@ != self.entries@[b].0@) by {
                        assert(forall|a: int| 0 <= a < s.len() && a != i ==> self.entries@[a] == s[a]);
                        assert(self.entries@[i as int].0@ == kv);
                        assert(kv == s[i as int].0@);
                    }
                }
            },
            None => {
                proof {
                    lemma_map_of_push(s, key, value);
                    lemma_map_of_contains(s, key@);
                }
                self.entries.push((key, value));
            },
        }
    }

    /// The number of entries, equal to the size of the map's domain.
    pub fn len(&self) -> (n: usize)
        requires
            self.wf(),
        ensures
            n == self@.dom().len(),
            self@.dom().finite(),
    {
        proof {
            lemma_map_of_card(self.entries@);
        }
        self.entries.len()
    }

    fn entry_at(&self, i: usize) -> (r: &(String, V))
        requires
            self.wf(),
            i < self.spec_len(),
        ensures
            r.0@ == self.key_seq()[i as int],
            self@.dom().contains(r.0@),
            self@[r.0@] == r.1,
    {
        proof {
            lemma_map_of_index(self.entries@, i as int);
        }
        &self.entries[i]
    }

    /// The number of stored entries, for iteration.
    pub closed spec fn spec_len(&self) -> nat {
        self.entries@.len()
    }

    /// The stored keys in iteration order.
    pub closed spec fn key_seq(&self) -> Seq<Seq<char>> {
        Seq::new(self.entries@.len(), |i: int| self.entries@[i].0@)
    }

    fn exec_len(&self) -> (n: usize)
        ensures
            n == self.spec_len(),
    {
        self.entries.len()
    }

    /// The stored keys, in iteration order.
    pub fn keys(&self) -> (r: Vec<String>)
        requires
            self.wf(),
        ensures
            r.deep_view() == self.key_seq(),
            forall|j: int| 0 <= j < r@.len() ==> self@.dom().contains(#[trigger] r@[j]@),
    {
        let n = self.exec_len();
        let mut out: Vec<String> = Vec::new();
        let mut i: usize = 0;
        while i < n
            invariant
                self.wf(),
                i <= n,
                n == self.spec_len(),
                out@.len() == i,
                forall|j: int| 0 <= j < i ==> #[trigger] out.deep_view()[j] == self.key_seq()[j],
                forall|j: int| 0 <= j < i ==> self@.dom().contains(#[trigger] out@[j]@),
            decreases n - i,
        {
            let e = self.entry_at(i);
            let ghost prev = out.deep_view();
            let k = e.0.clone();
            let ghost kv = k@;
            out.push(k);
            proof {
                assert(forall|j: int| 0 <= j < i ==> #[trigger] out.deep_view()[j] == prev[j]);
                assert(out.deep_view()[i as int] == kv);
            }
            i = i + 1;
        }
        proof {
            assert(out.deep_view() =~~= self.key_seq());
        }
        out
    }

    /// Deletes every entry whose key is absent from `keep`: the destructive
    /// reconciliation step, applied only when a caller asks for it.
    pub fn prune_absent<W>(&mut self, keep: &StrMap<W>)
        requires
            old(self).wf(),
        ensures
            final(self).wf(),
            final(self)@ == old(self)@.restrict(keep@.dom()),
    {
        let ghost s0 = old(self).entries@;
        let ghost kd = keep@.dom();
        let mut rest: Vec<(String, V)> = Vec::new();
        core::mem::swap(&mut self.entries, &mut rest);
        let ghost n = s0.len() as int;
        while rest.len() > 0
            invariant
                distinct_keys(s0),
                kd == keep@.dom(),
                n == s0.len(),
                rest@.len() <= n,
                rest@ == s0.subrange(n - rest@.len(), n),
                self.wf(),
                self@ == map_of(s0.subrange(0, n - rest@.len())).restrict(kd),
            decreases rest@.len(),
        {
            let ghost p = n - rest@.len();
            let ghost pfx = s0.subrange(0, p);
            let ghost pe = rest@[0];
            assert(pe == s0[p]);
            let e = rest.remove(0);
            assert(rest@ =~= s0.subrange(p + 1, n));
            proof {
                assert(s0.subrange(0, p + 1) =~= pfx.push(pe));
                lemma_map_of_push(pfx, pe.0, pe.1);
            }
            let kept = keep.contains_key(&e.0);
            if kept {
                let ghost before = self.entries@;
                proof {
                    lemma_map_of_push(before, pe.0, pe.1);
                    lemma_map_of_contains(pfx, pe.0@);
                    assert(!map_of(pfx).dom().contains(pe.0@)) by {
                        assert(forall|i: int| 0 <= i < p ==> s0[i].0@ != s0[p].0@);
                        assert(forall|i: int| 0 <= i < p ==> pfx[i] == s0[i]);
                    }
                    assert forall|a: int| 0 <= a < before.len() implies before[a].0@ != pe.0@ by {
                        lemma_map_of_index(before, a);
                        assert(map_of(before).dom().contains(before[a].0@));
                        assert(map_of(pfx).dom().contains(before[a].0@));
                    }
                }
                self.entries.push(e);
                proof {
                    assert(self.entries@ == before.push(pe));
                    assert(map_of(self.entries@) == map_of(before).insert(pe.0@, pe.1));
                    assert(map_of(before).insert(pe.0@, pe.1) =~= map_of(s0.subrange(0, p + 1)).restrict(kd));
                }
            } else {
                proof {
                    assert(!kd.contains(pe.0@));
                    assert(map_of(pfx).restrict(kd) =~= map_of(s0.subrange(0, p + 1)).restrict(kd));
                }
            }
        }
        proof {
            assert(s0.subrange(0, n) =~= s0);
        }
    }
}

proof fn lemma_key_seq_props<V>(m: &StrMap<V>)
    requires
        m.wf(),
    ensures
        forall|k: Seq<char>|
            #![trigger m@.dom().contains(k)]
            #![trigger m.key_seq().contains(k)]
            m@.dom().contains(k) <==> m.key_seq().contains(k),
        forall|i: int, j: int| 0 <= i < j < m.key_seq().len() ==> m.key_seq()[i] != m.key_seq()[j],
        m.key_seq().len() == m.spec_len(),
        forall|i: int| 0 <= i < m.key_seq().len() ==> #[trigger] m@.dom().contains(m.key_seq()[i]),
{
    assert forall|k: Seq<char>| m@.dom().contains(k) <==> m.key_seq().contains(k) by {
        lemma_map_of_contains(m.entries@, k);
        if m.key_seq().contains(k) {
            let i = choose|i: int| 0 <= i < m.key_seq().len() && m.key_seq()[i] == k;
            assert(m.entries@[i].0@ == k);
        }
        if exists|i: int| 0 <= i < m.entries@.len() && m.entries@[i].0@ == k {
            let i = choose|i: int| 0 <= i < m.entries@.len() && m.entries@[i].0@ == k;
            assert(m.key_seq()[i] == k);
        }
    }
    assert forall|i: int| 0 <= i < m.key_seq().len() implies #[trigger] m@.dom().contains(
        m.key_seq()[i],
    ) by {
        lemma_map_of_contains(m.entries@, m.key_seq()[i]);
        assert(m.entries@[i].0@ == m.key_seq()[i]);
    }
}

/// The weight a key carries after a later source is merged over a running one:
/// an explicit weight from the source wins, a bare mention keeps the running
/// value, and a key new to both sides enters with no weight.
pub open spec fn merged_weight(
    dst: Map<Seq<char>, Option<u32>>,
    src: Map<Seq<char>, Option<u32>>,
    k: Seq<char>,
) -> Option<u32> {
    if src.dom().contains(k) && src[k] is Some {
        src[k]
    } else if dst.dom().contains(k) {
        dst[k]
    } else {
        None
    }
}

/// Merges one source's project weights over the running value, per key:
/// explicit weights overwrite, bare mentions never blank out a known weight.
pub fn merge_projects(dst: &mut StrMap<Option<u32>>, src: &StrMap<Option<u32>>)
    requires
        old(dst).wf(),
        src.wf(),
    ensures
        final(dst).wf(),
        forall|k: Seq<char>|
            #[trigger] final(dst)@.dom().contains(k) <==> (old(dst)@.dom().contains(k)
                || src@.dom().contains(k)),
        forall|k: Seq<char>|
            old(dst)@.dom().contains(k) || src@.dom().contains(k)
                ==> #[trigger] final(dst)@[k] == merged_weight(old(dst)@, src@, k),
{
    proof {
        lemma_key_seq_props(src);
    }
    let ghost ks = src.key_seq();
    let ghost dst0 = old(dst)@;
    let n = src.exec_len();
    let mut i: usize = 0;
    while i < n
        invariant
            dst.wf(),
            src.wf(),
            n == src.spec_len(),
            ks == src.key_seq(),
            dst0 == old(dst)@,
            i <= n,
            forall|k: Seq<char>|
                #[trigger] dst@.dom().contains(k) <==> (dst0.dom().contains(k) || ks.subrange(
                    0,
                    i as int,
                ).contains(k)),
            forall|k: Seq<char>|
                dst0.dom().contains(k) && !ks.subrange(0, i as int).contains(k)
                    ==> #[trigger] dst@[k] == dst0[k],
            forall|k: Seq<char>|
                ks.subrange(0, i as int).contains(k) ==> #[trigger] dst@[k] == merged_weight(
                    dst0,
                    src@,
                    k,
                ),
        decreases n - i,
    {
        proof {
            lemma_key_seq_props(src);
        }
        let e = src.entry_at(i);
        let ghost kk = e.0@;
        assert(kk == ks[i as int]);
        assert(!ks.subrange(0, i as int).contains(kk)) by {
            assert(forall|j: int| 0 <= j < i ==> ks[j] != ks[i as int]);
        }
        let ghost prev = dst@;
        match e.1 {
            Some(w) => {
                let key = e.0.clone();
                dst.insert(key, Some(w));
                assert(dst@[kk] == merged_weight(dst0, src@, kk));
            },
            None => {
                if !dst.contains_key(&e.0) {
                    let key = e.0.clone();
                    dst.insert(key, None);
                    assert(!dst0.dom().contains(kk));
                    assert(dst@[kk] == merged_weight(dst0, src@, kk));
                } else {
                    assert(dst0.dom().contains(kk));
                    assert(dst@[kk] == merged_weight(dst0, src@, kk));
                }
            },
        }
        proof {
            assert(dst@.dom().contains(kk));
            assert(forall|k: Seq<char>|
                k != kk ==> (#[trigger] dst@.dom().contains(k) <==> prev.dom().contains(k)));
            assert(forall|k: Seq<char>|
                k != kk && #[trigger] dst@.dom().contains(k) ==> dst@[k] == prev[k]);
            assert(ks.subrange(0, i + 1) =~= ks.subrange(0, i as int).push(ks[i as int]));
            assert(ks.subrange(0, i + 1)[i as int] == kk);
            assert(ks.subrange(0, i + 1).contains(kk));
            assert forall|k: Seq<char>|
                #[trigger] dst@.dom().contains(k) <==> (dst0.dom().contains(k) || ks.subrange(
                0,
                i + 1,
            ).contains(k)) by {
                if k != kk {
                    assert(ks.subrange(0, i + 1).contains(k) <==> ks.subrange(
                        0,
                        i as int,
                    ).contains(k));
                }
            }
            assert forall|k: Seq<char>|
                dst0.dom().contains(k) && !ks.subrange(0, i + 1).contains(k) implies #[trigger] dst@[k]
                == dst0[k] by {
                assert(k != kk);
                assert(!ks.subrange(0, i as int).contains(k));
            }
            assert forall|k: Seq<char>|
                ks.subrange(0, i + 1).contains(k) implies #[trigger] dst@[k] == merged_weight(
                dst0,
                src@,
                k,
            ) by {
                if k == kk {
                    assert(src@[kk] == e.1);
                } else {
                    assert(ks.subrange(0, i as int).contains(k));
                }
            }
        }
        i = i + 1;
    }
    proof {
        assert(ks.subrange(0, n as int) =~= ks);
        assert forall|k: Seq<char>|
            #[trigger] dst@.dom().contains(k) <==> (dst0.dom().contains(k)
                || src@.dom().contains(k)) by {
            lemma_key_seq_props(src);
        }
        assert forall|k: Seq<char>|
            dst0.dom().contains(k) || src@.dom().contains(k) implies #[trigger] dst@[k]
            == merged_weight(dst0, src@, k) by {
            lemma_key_seq_props(src);
            if !src@.dom().contains(k) {
                assert(!ks.contains(k));
                assert(dst@[k] == dst0[k]);
            } else {
                assert(ks.contains(k));
            }
        }
    }
}

/// One discovered donation account: a free-form memo and an optional weight.
pub struct WorkingAccount {
    pub memo: String,
    pub weight: Option<u32>,
}

/// The weight an account carries after a later source is merged over a
/// running one.
pub open spec fn merged_account_weight(
    dst: Map<Seq<char>, WorkingAccount>,
    src: Map<Seq<char>, WorkingAccount>,
    k: Seq<char>,
) -> Option<u32> {
    if src.dom().contains(k) && src[k].weight is Some {
        src[k].weight
    } else if dst.dom().contains(k) {
        dst[k].weight
    } else {
        None
    }
}

/// The memo an account carries after a later source is merged over a running
/// one: a non-empty source memo wins, and a key new to the running side takes
/// the source memo as it stands.
pub open spec fn merged_account_memo(
    dst: Map<Seq<char>, WorkingAccount>,
    src: Map<Seq<char>, WorkingAccount>,
    k: Seq<char>,
) -> Seq<char> {
    if src.dom().contains(k) && (src[k].memo@.len() > 0 || !dst.dom().contains(k)) {
        src[k].memo@
    } else if dst.dom().contains(k) {
        dst[k].memo@
    } else {
        Seq::empty()
    }
}

/// Merges one source's accounts over the running value, per key: explicit
/// weights and non-empty memos overwrite, bare mentions leave the running
/// entry untouched.
pub fn merge_accounts(dst: &mut StrMap<WorkingAccount>, src: &StrMap<WorkingAccount>)
    requires
        old(dst).wf(),
        src.wf(),
    ensures
        final(dst).wf(),
        forall|k: Seq<char>|
            #[trigger] final(dst)@.dom().contains(k) <==> (old(dst)@.dom().contains(k)
                || src@.dom().contains(k)),
        forall|k: Seq<char>|
            old(dst)@.dom().contains(k) || src@.dom().contains(k)
                ==> (#[trigger] final(dst)@[k]).weight == merged_account_weight(
                old(dst)@,
                src@,
                k,
            ) && final(dst)@[k].memo@ == merged_account_memo(old(dst)@, src@, k),
{
    proof {
        lemma_key_seq_props(src);
    }
    let ghost ks = src.key_seq();
    let ghost dst0 = old(dst)@;
    let n = src.exec_len();
    let mut i: usize = 0;
    while i < n
        invariant
            dst.wf(),
            src.wf(),
            n == src.spec_len(),
            ks == src.key_seq(),
            dst0 == old(dst)@,
            i <= n,
            forall|k: Seq<char>|
                #[trigger] dst@.dom().contains(k) <==> (dst0.dom().contains(k) || ks.subrange(
                    0,
                    i as int,
                ).contains(k)),
            forall|k: Seq<char>|
                dst0.dom().contains(k) && !ks.subrange(0, i as int).contains(k)
                    ==> #[trigger] dst@[k] == dst0[k],
            forall|k: Seq<char>|
                ks.subrange(0, i as int).contains(k) ==> (#[trigger] dst@[k]).weight
                    == merged_account_weight(dst0, src@, k) && dst@[k].memo@
                    == merged_account_memo(dst0, src@, k),
        decreases n - i,
    {
        proof {
            lemma_key_seq_props(src);
        }
        let e = src.entry_at(i);
        let ghost kk = e.0@;
        assert(kk == ks[i as int]);
        assert(!ks.subrange(0, i as int).contains(kk)) by {
            assert(forall|j: int| 0 <= j < i ==> ks[j] != ks[i as int]);
        }
        let ghost prev = dst@;
        let merged: WorkingAccount = match dst.get(&e.0) {
            Some(cur) => {
                assert(dst0.dom().contains(kk) && prev[kk] == dst0[kk]);
                let w = if e.1.weight.is_some() {
                    e.1.weight
                } else {
                    cur.weight
                };
                let m = if !e.1.memo.as_str().is_empty() {
                    e.1.memo.clone()
                } else {
                    cur.memo.clone()
                };
                WorkingAccount { memo: m, weight: w }
            },
            None => {
                assert(!dst0.dom().contains(kk));
                WorkingAccount { memo: e.1.memo.clone(), weight: e.1.weight }
            },
        };
        assert(merged.weight == merged_account_weight(dst0, src@, kk));
        assert(merged.memo@ == merged_account_memo(dst0, src@, kk));
        let key = e.0.clone();
        dst.insert(key, merged);
        proof {
            assert(dst@.dom().contains(kk));
            assert(forall|k: Seq<char>|
                k != kk ==> (#[trigger] dst@.dom().contains(k) <==> prev.dom().contains(k)));
            assert(forall|k: Seq<char>|
                k != kk && #[trigger] dst@.dom().contains(k) ==> dst@[k] == prev[k]);
            assert(ks.subrange(0, i + 1) =~= ks.subrange(0, i as int).push(ks[i as int]));
            assert(ks.subrange(0, i + 1)[i as int] == kk);
            assert(ks.subrange(0, i + 1).contains(kk));
            assert forall|k: Seq<char>|
                #[trigger] dst@.dom().contains(k) <==> (dst0.dom().contains(k) || ks.subrange(
                0,
                i + 1,
            ).contains(k)) by {
                if k != kk {
                    assert(ks.subrange(0, i + 1).contains(k) <==> ks.subrange(
                        0,
                        i as int,
                    ).contains(k));
                }
            }
            assert forall|k: Seq<char>|
                dst0.dom().contains(k) && !ks.subrange(0, i + 1).contains(k) implies #[trigger] dst@[k]
                == dst0[k] by {
                assert(k != kk);
                assert(!ks.subrange(0, i as int).contains(k));
            }
            assert forall|k: Seq<char>|
                ks.subrange(0, i + 1).contains(k) implies (#[trigger] dst@[k]).weight
                == merged_account_weight(dst0, src@, k) && dst@[k].memo@ == merged_account_memo(
                dst0,
                src@,
                k,
            ) by {
                if k == kk {
                    assert(src@[kk] == e.1);
                } else {
                    assert(ks.subrange(0, i as int).contains(k));
                }
            }
        }
        i = i + 1;
    }
    proof {
        assert(ks.subrange(0, n as int) =~= ks);
        assert forall|k: Seq<char>|
            #[trigger] dst@.dom().contains(k) <==> (dst0.dom().contains(k)
                || src@.dom().contains(k)) by {
            lemma_key_seq_props(src);
        }
        assert forall|k: Seq<char>|
            dst0.dom().contains(k) || src@.dom().contains(k) implies (#[trigger] dst@[k]).weight
            == merged_account_weight(dst0, src@, k) && dst@[k].memo@ == merged_account_memo(
            dst0,
            src@,
            k,
        ) by {
            lemma_key_seq_props(src);
            if !src@.dom().contains(k) {
                assert(!ks.contains(k));
                assert(dst@[k] == dst0[k]);
            } else {
                assert(ks.contains(k));
            }
        }
    }
}

/// The weight a destination entry carries after the merged working weights
/// are written over it: an explicit merged weight always wins, a bare mention
/// keeps an existing entry and enters a new one at the default weight.
pub open spec fn applied_weight(
    dest: Map<Seq<char>, u32>,
    m: Map<Seq<char>, Option<u32>>,
    k: Seq<char>,
) -> u32 {
    if m.dom().contains(k) {
        match m[k] {
            Some(w) => w,
            None => if dest.dom().contains(k) {
                dest[k]
            } else {
                crate::DEFAULT_WEIGHT
            },
        }
    } else {
        dest[k]
    }
}

/// The destination project map after an upsert of the merged weights.
pub open spec fn upserted_projects(
    dest: Map<Seq<char>, u32>,
    m: Map<Seq<char>, Option<u32>>,
) -> Map<Seq<char>, u32> {
    Map::new(
        |k: Seq<char>| dest.dom().contains(k) || m.dom().contains(k),
        |k: Seq<char>| applied_weight(dest, m, k),
    )
}

/// Writes the merged project weights into a destination map: existing keys
/// are updated only by explicit weights, new keys enter with their explicit
/// weight or the default.
pub fn apply_projects(dest: &mut StrMap<u32>, merged: &StrMap<Option<u32>>)
    requires
        old(dest).wf(),
        merged.wf(),
    ensures
        final(dest).wf(),
        final(dest)@ == upserted_projects(old(dest)@, merged@),
{
    proof {
        lemma_key_seq_props(merged);
    }
    let ghost ks = merged.key_seq();
    let ghost dest0 = old(dest)@;
    let n = merged.exec_len();
    let mut i: usize = 0;
    while i < n
        invariant
            dest.wf(),
            merged.wf(),
            n == merged.spec_len(),
            ks == merged.key_seq(),
            dest0 == old(dest)@,
            i <= n,
            forall|k: Seq<char>|
                #[trigger] dest@.dom().contains(k) <==> (dest0.dom().contains(k) || ks.subrange(
                    0,
                    i as int,
                ).contains(k)),
            forall|k: Seq<char>|
                dest0.dom().contains(k) && !ks.subrange(0, i as int).contains(k)
                    ==> #[trigger] dest@[k] == dest0[k],
            forall|k: Seq<char>|
                ks.subrange(0, i as int).contains(k) ==> #[trigger] dest@[k] == applied_weight(
                    dest0,
                    merged@,
                    k,
                ),
        decreases n - i,
    {
        proof {
            lemma_key_seq_props(merged);
        }
        let e = merged.entry_at(i);
        let ghost kk = e.0@;
        assert(kk == ks[i as int]);
        assert(!ks.subrange(0, i as int).contains(kk)) by {
            assert(forall|j: int| 0 <= j < i ==> ks[j] != ks[i as int]);
        }
        let ghost prev = dest@;
        match e.1 {
            Some(w) => {
                let key = e.0.clone();
                dest.insert(key, w);
                assert(dest@[kk] == applied_weight(dest0, merged@, kk));
            },
            None => {
                if !dest.contains_key(&e.0) {
                    let key = e.0.clone();
                    dest.insert(key, DEFAULT_WEIGHT);
                    assert(!dest0.dom().contains(kk));
                    assert(dest@[kk] == applied_weight(dest0, merged@, kk));
                } else {
                    assert(dest0.dom().contains(kk));
                    assert(dest@[kk] == applied_weight(dest0, merged@, kk));
                }
            },
        }
        proof {
            assert(dest@.dom().contains(kk));
            assert(forall|k: Seq<char>|
                k != kk ==> (#[trigger] dest@.dom().contains(k) <==> prev.dom().contains(k)));
            assert(forall|k: Seq<char>|
                k != kk && #[trigger] dest@.dom().contains(k) ==> dest@[k] == prev[k]);
            assert(ks.subrange(0, i + 1) =~= ks.subrange(0, i as int).push(ks[i as int]));
            assert(ks.subrange(0, i + 1)[i as int] == kk);
            assert(ks.subrange(0, i + 1).contains(kk));
            assert forall|k: Seq<char>|
                #[trigger] dest@.dom().contains(k) <==> (dest0.dom().contains(k) || ks.subrange(
                0,
                i + 1,
            ).contains(k)) by {
                if k != kk {
                    assert(ks.subrange(0, i + 1).contains(k) <==> ks.subrange(
                        0,
                        i as int,
                    ).contains(k));
                }
            }
            assert forall|k: Seq<char>|
                dest0.dom().contains(k) && !ks.subrange(0, i + 1).contains(k) implies #[trigger] dest@[k]
                == dest0[k] by {
                assert(k != kk);
                assert(!ks.subrange(0, i as int).contains(k));
            }
            assert forall|k: Seq<char>|
                ks.subrange(0, i + 1).contains(k) implies #[trigger] dest@[k] == applied_weight(
                dest0,
                merged@,
                k,
            ) by {
                if k == kk {
                    assert(merged@[kk] == e.1);
                } else {
                    assert(ks.subrange(0, i as int).contains(k));
                }
            }
        }
        i = i + 1;
    }
    proof {
        assert(ks.subrange(0, n as int) =~= ks);
        lemma_key_seq_props(merged);
        assert forall|k: Seq<char>|
            dest0.dom().contains(k) || merged@.dom().contains(k) implies #[trigger] dest@[k]
            == applied_weight(dest0, merged@, k) by {
            if !merged@.dom().contains(k) {
                assert(!ks.contains(k));
                assert(dest@[k] == dest0[k]);
            } else {
                assert(ks.contains(k));
            }
        }
        assert(dest@ =~= upserted_projects(dest0, merged@));
    }
}

/// The weight a destination account carries after the merged accounts are
/// written over it.
pub open spec fn applied_account_weight(
    dest: Map<Seq<char>, u32>,
    m: Map<Seq<char>, WorkingAccount>,
    k: Seq<char>,
) -> u32 {
    if m.dom().contains(k) {
        match m[k].weight {
            Some(w) => w,
            None => if dest.dom().contains(k) {
                dest[k]
            } else {
                crate::DEFAULT_WEIGHT
            },
        }
    } else {
        dest[k]
    }
}

/// The destination account map after an upsert of the merged accounts.
pub open spec fn upserted_accounts(
    dest: Map<Seq<char>, u32>,
    m: Map<Seq<char>, WorkingAccount>,
) -> Map<Seq<char>, u32> {
    Map::new(
        |k: Seq<char>| dest.dom().contains(k) || m.dom().contains(k),
        |k: Seq<char>| applied_account_weight(dest, m, k),
    )
}

/// Writes the merged account weights into a destination map, under the same
/// explicit-weight-wins rule as projects.
pub fn apply_accounts(dest: &mut StrMap<u32>, merged: &StrMap<WorkingAccount>)
    requires
        old(dest).wf(),
        merged.wf(),
    ensures
        final(dest).wf(),
        final(dest)@ == upserted_accounts(old(dest)@, merged@),
{
    proof {
        lemma_key_seq_props(merged);
    }
    let ghost ks = merged.key_seq();
    let ghost dest0 = old(dest)@;
    let n = merged.exec_len();
    let mut i: usize = 0;
    while i < n
        invariant
            dest.wf(),
            merged.wf(),
            n == merged.spec_len(),
            ks == merged.key_seq(),
            dest0 == old(dest)@,
            i <= n,
            forall|k: Seq<char>|
                #[trigger] dest@.dom().contains(k) <==> (dest0.dom().contains(k) || ks.subrange(
                    0,
                    i as int,
                ).contains(k)),
            forall|k: Seq<char>|
                dest0.dom().contains(k) && !ks.subrange(0, i as int).contains(k)
                    ==> #[trigger] dest@[k] == dest0[k],
            forall|k: Seq<char>|
                ks.subrange(0, i as int).contains(k) ==> #[trigger] dest@[k]
                    == applied_account_weight(dest0, merged@, k),
        decreases n - i,
    {
        proof {
            lemma_key_seq_props(merged);
        }
        let e = merged.entry_at(i);
        let ghost kk = e.0@;
        assert(kk == ks[i as int]);
        assert(!ks.subrange(0, i as int).contains(kk)) by {
            assert(forall|j: int| 0 <= j < i ==> ks[j] != ks[i as int]);
        }
        let ghost prev = dest@;
        match e.1.weight {
            Some(w) => {
                let key = e.0.clone();
                dest.insert(key, w);
                assert(dest@[kk] == applied_account_weight(dest0, merged@, kk));
            },
            None => {
                if !dest.contains_key(&e.0) {
                    let key = e.0.clone();
                    dest.insert(key, DEFAULT_WEIGHT);
                    assert(!dest0.dom().contains(kk));
                    assert(dest@[kk] == applied_account_weight(dest0, merged@, kk));
                } else {
                    assert(dest0.dom().contains(kk));
                    assert(dest@[kk] == applied_account_weight(dest0, merged@, kk));
                }
            },
        }
        proof {
            assert(dest@.dom().contains(kk));
            assert(forall|k: Seq<char>|
                k != kk ==> (#[trigger] dest@.dom().contains(k) <==> prev.dom().contains(k)));
            assert(forall|k: Seq<char>|
                k != kk && #[trigger] dest@.dom().contains(k) ==> dest@[k] == prev[k]);
            assert(ks.subrange(0, i + 1) =~= ks.subrange(0, i as int).push(ks[i as int]));
            assert(ks.subrange(0, i + 1)[i as int] == kk);
            assert(ks.subrange(0, i + 1).contains(kk));
            assert forall|k: Seq<char>|
                #[trigger] dest@.dom().contains(k) <==> (dest0.dom().contains(k) || ks.subrange(
                0,
                i + 1,
            ).contains(k)) by {
                if k != kk {
                    assert(ks.subrange(0, i + 1).contains(k) <==> ks.subrange(
                        0,
                        i as int,
                    ).contains(k));
                }
            }
            assert forall|k: Seq<char>|
                dest0.dom().contains(k) && !ks.subrange(0, i + 1).contains(k) implies #[trigger] dest@[k]
                == dest0[k] by {
                assert(k != kk);
                assert(!ks.subrange(0, i as int).contains(k));
            }
            assert forall|k: Seq<char>|
                ks.subrange(0, i + 1).contains(k) implies #[trigger] dest@[k]
                == applied_account_weight(dest0, merged@, k) by {
                if k == kk {
                    assert(merged@[kk] == e.1);
                } else {
                    assert(ks.subrange(0, i as int).contains(k));
                }
            }
        }
        i = i + 1;
    }
    proof {
        assert(ks.subrange(0, n as int) =~= ks);
        lemma_key_seq_props(merged);
        assert forall|k: Seq<char>|
            dest0.dom().contains(k) || merged@.dom().contains(k) implies #[trigger] dest@[k]
            == applied_account_weight(dest0, merged@, k) by {
            if !merged@.dom().contains(k) {
                assert(!ks.contains(k));
                assert(dest@[k] == dest0[k]);
            } else {
                assert(ks.contains(k));
            }
        }
        assert(dest@ =~= upserted_accounts(dest0, merged@));
    }
}

/// One destination account entry of the remote donation configuration.
pub struct AccountDest {
    pub weight: u32,
    pub memo: String,
}

/// The weight a remote destination account carries after the merged accounts
/// are written over it.
pub open spec fn donate_weight(
    dest: Map<Seq<char>, AccountDest>,
    m: Map<Seq<char>, WorkingAccount>,
    k: Seq<char>,
) -> u32 {
    if m.dom().contains(k) {
        match m[k].weight {
            Some(w) => w,
            None => if dest.dom().contains(k) {
                dest[k].weight
            } else {
                crate::DEFAULT_WEIGHT
            },
        }
    } else {
        dest[k].weight
    }
}

/// The memo a remote destination account carries after the merged accounts
/// are written over it: only a non-empty merged memo overwrites an existing
/// one.
pub open spec fn donate_memo(
    dest: Map<Seq<char>, AccountDest>,
    m: Map<Seq<char>, WorkingAccount>,
    k: Seq<char>,
) -> Seq<char> {
    if m.dom().contains(k) {
        if !dest.dom().contains(k) {
            m[k].memo@
        } else if m[k].memo@.len() > 0 {
            m[k].memo@
        } else {
            dest[k].memo@
        }
    } else {
        dest[k].memo@
    }
}

/// Writes the merged accounts into a remote destination map: weights update
/// only on explicit merged weights, memos only on non-empty merged memos, and
/// new keys enter with their explicit weight or the default.
pub fn apply_donate_accounts(dest: &mut StrMap<AccountDest>, merged: &StrMap<WorkingAccount>)
    requires
        old(dest).wf(),
        merged.wf(),
    ensures
        final(dest).wf(),
        forall|k: Seq<char>|
            #[trigger] final(dest)@.dom().contains(k) <==> (old(dest)@.dom().contains(k)
                || merged@.dom().contains(k)),
        forall|k: Seq<char>|
            old(dest)@.dom().contains(k) || merged@.dom().contains(k)
                ==> (#[trigger] final(dest)@[k]).weight == donate_weight(old(dest)@, merged@, k)
                && final(dest)@[k].memo@ == donate_memo(old(dest)@, merged@, k),
{
    proof {
        lemma_key_seq_props(merged);
    }
    let ghost ks = merged.key_seq();
    let ghost dest0 = old(dest)@;
    let n = merged.exec_len();
    let mut i: usize = 0;
    while i < n
        invariant
            dest.wf(),
            merged.wf(),
            n == merged.spec_len(),
            ks == merged.key_seq(),
            dest0 == old(dest)@,
            i <= n,
            forall|k: Seq<char>|
                #[trigger] dest@.dom().contains(k) <==> (dest0.dom().contains(k) || ks.subrange(
                    0,
                    i as int,
                ).contains(k)),
            forall|k: Seq<char>|
                dest0.dom().contains(k) && !ks.subrange(0, i as int).contains(k)
                    ==> #[trigger] dest@[k] == dest0[k],
            forall|k: Seq<char>|
                ks.subrange(0, i as int).contains(k) ==> (#[trigger] dest@[k]).weight
                    == donate_weight(dest0, merged@, k) && dest@[k].memo@ == donate_memo(
                    dest0,
                    merged@,
                    k,
                ),
        decreases n - i,
    {
        proof {
            lemma_key_seq_props(merged);
        }
        let e = merged.entry_at(i);
        let ghost kk = e.0@;
        assert(kk == ks[i as int]);
        assert(!ks.subrange(0, i as int).contains(kk)) by {
            assert(forall|j: int| 0 <= j < i ==> ks[j] != ks[i as int]);
        }
        let ghost prev = dest@;
        let updated: AccountDest = match dest.get(&e.0) {
            Some(cur) => {
                assert(dest0.dom().contains(kk) && prev[kk] == dest0[kk]);
                let w = match e.1.weight {
                    Some(w) => w,
                    None => cur.weight,
                };
                let m = if !e.1.memo.as_str().is_empty() {
                    e.1.memo.clone()
                } else {
                    cur.memo.clone()
                };
                AccountDest { weight: w, memo: m }
            },
            None => {
                assert(!dest0.dom().contains(kk));
                let w = match e.1.weight {
                    Some(w) => w,
                    None => DEFAULT_WEIGHT,
                };
                AccountDest { weight: w, memo: e.1.memo.clone() }
            },
        };
        assert(updated.weight == donate_weight(dest0, merged@, kk));
        assert(updated.memo@ == donate_memo(dest0, merged@, kk));
        let key = e.0.clone();
        dest.insert(key, updated);
        proof {
            assert(dest@.dom().contains(kk));
            assert(forall|k: Seq<char>|
                k != kk ==> (#[trigger] dest@.dom().contains(k) <==> prev.dom().contains(k)));
            assert(forall|k: Seq<char>|
                k != kk && #[trigger] dest@.dom().contains(k) ==> dest@[k] == prev[k]);
            assert(ks.subrange(0, i + 1) =~= ks.subrange(0, i as int).push(ks[i as int]));
            assert(ks.subrange(0, i + 1)[i as int] == kk);
            assert(ks.subrange(0, i + 1).contains(kk));
            assert forall|k: Seq<char>|
                #[trigger] dest@.dom().contains(k) <==> (dest0.dom().contains(k) || ks.subrange(
                0,
                i + 1,
            ).contains(k)) by {
                if k != kk {
                    assert(ks.subrange(0, i + 1).contains(k) <==> ks.subrange(
                        0,
                        i as int,
                    ).contains(k));
                }
            }
            assert forall|k: Seq<char>|
                dest0.dom().contains(k) && !ks.subrange(0, i + 1).contains(k) implies #[trigger] dest@[k]
                == dest0[k] by {
                assert(k != kk);
                assert(!ks.subrange(0, i as int).contains(k));
            }
            assert forall|k: Seq<char>|
                ks.subrange(0, i + 1).contains(k) implies (#[trigger] dest@[k]).weight
                == donate_weight(dest0, merged@, k) && dest@[k].memo@ == donate_memo(
                dest0,
                merged@,
                k,
            ) by {
                if k == kk {
                    assert(merged@[kk] == e.1);
                } else {
                    assert(ks.subrange(0, i as int).contains(k));
                }
            }
        }
        i = i + 1;
    }
    proof {
        assert(ks.subrange(0, n as int) =~= ks);
        lemma_key_seq_props(merged);
        assert forall|k: Seq<char>|
            dest0.dom().contains(k) || merged@.dom().contains(k) implies (#[trigger] dest@[k]).weight
            == donate_weight(dest0, merged@, k) && dest@[k].memo@ == donate_memo(
            dest0,
            merged@,
            k,
        ) by {
            if !merged@.dom().contains(k) {
                assert(!ks.contains(k));
                assert(dest@[k] == dest0[k]);
            } else {
                assert(ks.contains(k));
            }
        }
        assert forall|k: Seq<char>|
            #[trigger] dest@.dom().contains(k) <==> (dest0.dom().contains(k)
                || merged@.dom().contains(k)) by {
            lemma_key_seq_props(merged);
        }
    }
}

/// The in-memory aggregation target one scan root fills: discovered accounts
/// and projects, each with an optional explicit weight.
pub struct WorkingWeights {
    pub accounts: StrMap<WorkingAccount>,
    pub projects: StrMap<Option<u32>>,
}

impl WorkingWeights {
    /// Both maps keep their keys unique.
    pub open spec fn wf(&self) -> bool {
        self.accounts.wf() && self.projects.wf()
    }

    /// The empty aggregation.
    pub fn new() -> (r: WorkingWeights)
        ensures
            r.wf(),
            r.accounts@ == Map::<Seq<char>, WorkingAccount>::empty(),
            r.projects@ == Map::<Seq<char>, Option<u32>>::empty(),
    {
        WorkingWeights { accounts: StrMap::new(), projects: StrMap::new() }
    }

    /// Records one resolved project URL, with no explicit weight; a later
    /// write to the same key overwrites the earlier one.
    pub fn record_project(&mut self, url: String)
        requires
            old(self).wf(),
        ensures
            final(self).wf(),
            final(self).projects@ == old(self).projects@.insert(url@, None),
            final(self).accounts == old(self).accounts,
    {
        self.projects.insert(url, None);
    }

    /// Records one resolved project URL with an explicit weight.
    pub fn record_project_weight(&mut self, url: String, weight: Option<u32>)
        requires
            old(self).wf(),
        ensures
            final(self).wf(),
            final(self).projects@ == old(self).projects@.insert(url@, weight),
            final(self).accounts == old(self).accounts,
    {
        self.projects.insert(url, weight);
    }

    /// Records one donation account.
    pub fn record_account(&mut self, id: String, memo: String, weight: Option<u32>)
        requires
            old(self).wf(),
        ensures
            final(self).wf(),
            final(self).accounts@ == old(self).accounts@.insert(
                id@,
                WorkingAccount { memo, weight },
            ),
            final(self).projects == old(self).projects,
    {
        self.accounts.insert(id, WorkingAccount { memo, weight });
    }

    /// Merges a later source over this one, per the override rules of
    /// `merge_accounts` and `merge_projects`.
    pub fn merge_from(&mut self, src: &WorkingWeights)
        requires
            old(self).wf(),
            src.wf(),
        ensures
            final(self).wf(),
            forall|k: Seq<char>|
                #[trigger] final(self).projects@.dom().contains(k) <==> (old(
                    self,
                ).projects@.dom().contains(k) || src.projects@.dom().contains(k)),
            forall|k: Seq<char>|
                old(self).projects@.dom().contains(k) || src.projects@.dom().contains(k)
                    ==> #[trigger] final(self).projects@[k] == merged_weight(
                    old(self).projects@,
                    src.projects@,
                    k,
                ),
            forall|k: Seq<char>|
                #[trigger] final(self).accounts@.dom().contains(k) <==> (old(
                    self,
                ).accounts@.dom().contains(k) || src.accounts@.dom().contains(k)),
            forall|k: Seq<char>|
                old(self).accounts@.dom().contains(k) || src.accounts@.dom().contains(k)
                    ==> (#[trigger] final(self).accounts@[k]).weight == merged_account_weight(
                    old(self).accounts@,
                    src.accounts@,
                    k,
                ) && final(self).accounts@[k].memo@ == merged_account_memo(
                    old(self).accounts@,
                    src.accounts@,
                    k,
                ),
    {
        merge_accounts(&mut self.accounts, &src.accounts);
        merge_projects(&mut self.projects, &src.projects);
    }
}

/// The project map after the outcomes of a root's resolution units are
/// recorded in order: a successful unit inserts its URL with no explicit
/// weight, a dropped unit contributes nothing.
pub open spec fn recorded_projects(
    m: Map<Seq<char>, Option<u32>>,
    outcomes: Seq<Option<Seq<char>>>,
) -> Map<Seq<char>, Option<u32>>
    decreases outcomes.len(),
{
    if outcomes.len() == 0 {
        m
    } else {
        let rest = recorded_projects(m, outcomes.drop_last());
        match outcomes.last() {
            Some(k) => rest.insert(k, None),
            None => rest,
        }
    }
}

impl WorkingWeights {
    /// Records the outcome of every sibling unit of one scan root, in order.
    pub fn record_outcomes(&mut self, outcomes: &Vec<Option<String>>)
        requires
            old(self).wf(),
        ensures
            final(self).wf(),
            final(self).projects@ == recorded_projects(old(self).projects@, outcomes.deep_view()),
            final(self).accounts == old(self).accounts,
    {
        let ghost o = outcomes.deep_view();
        let mut i: usize = 0;
        while i < outcomes.len()
            invariant
                self.wf(),
                o == outcomes.deep_view(),
                o.len() == outcomes@.len(),
                i <= o.len(),
                forall|j: int|
                    0 <= j < o.len() ==> #[trigger] o[j] == match outcomes@[j] {
                        Some(u) => Some(u@),
                        None => None,
                    },
                self.projects@ == recorded_projects(old(self).projects@, o.subrange(0, i as int)),
                self.accounts == old(self).accounts,
            decreases o.len() - i,
        {
            let ghost pre = o.subrange(0, i as int);
            match &outcomes[i] {
                Some(u) => {
                    self.record_project(u.clone());
                },
                None => {},
            }
            proof {
                assert(o.subrange(0, i + 1) =~= pre.push(o[i as int]));
                assert(o.subrange(0, i + 1).drop_last() =~= pre);
            }
            i = i + 1;
        }
        proof {
            assert(o.subrange(0, o.len() as int) =~= o);
        }
    }
}

/// The persisted project-configuration weights: every entry explicit.
pub struct Weights {
    pub accounts: StrMap<u32>,
    pub projects: StrMap<u32>,
}

impl Weights {
    /// Both maps keep their keys unique.
    pub open spec fn wf(&self) -> bool {
        self.accounts.wf() && self.projects.wf()
    }

    /// The empty configuration, standing in for a missing document.
    pub fn new() -> (r: Weights)
        ensures
            r.wf(),
            r.accounts@ == Map::<Seq<char>, u32>::empty(),
            r.projects@ == Map::<Seq<char>, u32>::empty(),
    {
        Weights { accounts: StrMap::new(), projects: StrMap::new() }
    }

    /// Writes the merged working weights into this configuration: upsert
    /// both maps, then — only where asked — prune the keys the merge did
    /// not mention.  Pruning trusts the merged set to be complete: an entry
    /// a partially failed source merely did not reach is deleted just like
    /// one confirmed absent upstream.
    pub fn apply_working(
        &mut self,
        merged: &WorkingWeights,
        remove_accounts: bool,
        remove_projects: bool,
    )
        requires
            old(self).wf(),
            merged.wf(),
        ensures
            final(self).wf(),
            final(self).accounts@ == (if remove_accounts {
                upserted_accounts(old(self).accounts@, merged.accounts@).restrict(
                    merged.accounts@.dom(),
                )
            } else {
                upserted_accounts(old(self).accounts@, merged.accounts@)
            }),
            final(self).projects@ == (if remove_projects {
                upserted_projects(old(self).projects@, merged.projects@).restrict(
                    merged.projects@.dom(),
                )
            } else {
                upserted_projects(old(self).projects@, merged.projects@)
            }),
    {
        apply_accounts(&mut self.accounts, &merged.accounts);
        if remove_accounts {
            self.accounts.prune_absent(&merged.accounts);
        }
        apply_projects(&mut self.projects, &merged.projects);
        if remove_projects {
            self.projects.prune_absent(&merged.projects);
        }
    }
}

/// The remote donation-account configuration: weighted accounts with memos,
/// and weighted projects.
pub struct DonateWeights {
    pub accounts: StrMap<AccountDest>,
    pub projects: StrMap<u32>,
}

impl DonateWeights {
    /// Both maps keep their keys unique.
    pub open spec fn wf(&self) -> bool {
        self.accounts.wf() && self.projects.wf()
    }

    /// The empty configuration.
    pub fn new() -> (r: DonateWeights)
        ensures
            r.wf(),
            r.accounts@ == Map::<Seq<char>, AccountDest>::empty(),
            r.projects@ == Map::<Seq<char>, u32>::empty(),
    {
        DonateWeights { accounts: StrMap::new(), projects: StrMap::new() }
    }

    /// Writes the merged working weights into the remote configuration,
    /// under the donate rules for accounts, pruning only where asked; the
    /// same completeness caveat as for the local configuration applies.
    pub fn apply_working(
        &mut self,
        merged: &WorkingWeights,
        remove_accounts: bool,
        remove_projects: bool,
    )
        requires
            old(self).wf(),
            merged.wf(),
        ensures
            final(self).wf(),
            final(self).projects@ == (if remove_projects {
                upserted_projects(old(self).projects@, merged.projects@).restrict(
                    merged.projects@.dom(),
                )
            } else {
                upserted_projects(old(self).projects@, merged.projects@)
            }),
            forall|k: Seq<char>|
                #[trigger] final(self).accounts@.dom().contains(k) <==> ((old(
                    self).accounts@.dom().contains(k) || merged.accounts@.dom().contains(k)) && (
                remove_accounts ==> merged.accounts@.dom().contains(k))),
            forall|k: Seq<char>|
                final(self).accounts@.dom().contains(k) ==> (#[trigger] final(
                    self).accounts@[k]).weight == donate_weight(
                    old(self).accounts@,
                    merged.accounts@,
                    k,
                ) && final(self).accounts@[k].memo@ == donate_memo(
                    old(self).accounts@,
                    merged.accounts@,
                    k,
                ),
    {
        apply_donate_accounts(&mut self.accounts, &merged.accounts);
        if remove_accounts {
            self.accounts.prune_absent(&merged.accounts);
        }
        apply_projects(&mut self.projects, &merged.projects);
        if remove_projects {
            self.projects.prune_absent(&merged.projects);
        }
    }
}

/// The project map after a list of URLs is recorded in order, each with no
/// explicit weight.
pub open spec fn recorded_urls(
    m: Map<Seq<char>, Option<u32>>,
    urls: Seq<Seq<char>>,
) -> Map<Seq<char>, Option<u32>>
    decreases urls.len(),
{
    if urls.len() == 0 {
        m
    } else {
        recorded_urls(m, urls.drop_last()).insert(urls.last(), None)
    }
}

/// Whether some unit in the outcome list successfully resolved the key `k`.
pub open spec fn some_unit_resolved(outcomes: Seq<Option<Seq<char>>>, k: Seq<char>) -> bool {
    exists|i: int| 0 <= i < outcomes.len() && outcomes[i] == Some(k)
}

/// Failure isolation: recording a root's outcomes adds exactly the keys of
/// the successful units, each with no explicit weight, and leaves every other
/// key untouched — a dropped unit is invisible to its siblings.
pub proof fn lemma_partial_failure_isolation(
    m: Map<Seq<char>, Option<u32>>,
    outcomes: Seq<Option<Seq<char>>>,
)
    ensures
        forall|k: Seq<char>|
            #[trigger] recorded_projects(m, outcomes).dom().contains(k) <==> (m.dom().contains(k)
                || some_unit_resolved(outcomes, k)),
        forall|k: Seq<char>|
            #[trigger] some_unit_resolved(outcomes, k) ==> recorded_projects(m, outcomes)[k]
                == None::<u32>,
        forall|k: Seq<char>|
            m.dom().contains(k) && !(#[trigger] some_unit_resolved(outcomes, k))
                ==> recorded_projects(m, outcomes)[k] == m[k],
    decreases outcomes.len(),
{
    if outcomes.len() == 0 {
    } else {
        let pre = outcomes.drop_last();
        lemma_partial_failure_isolation(m, pre);
        assert forall|k: Seq<char>|
            #[trigger] some_unit_resolved(pre, k) || outcomes.last() == Some(k)
                <==> some_unit_resolved(outcomes, k) by {
            if some_unit_resolved(pre, k) {
                let i = choose|i: int| 0 <= i < pre.len() && pre[i] == Some(k);
                assert(outcomes[i] == Some(k));
            }
            if outcomes.last() == Some(k) {
                assert(outcomes[outcomes.len() - 1] == Some(k));
            }
            if some_unit_resolved(outcomes, k) {
                let i = choose|i: int| 0 <= i < outcomes.len() && outcomes[i] == Some(k);
                if i < outcomes.len() - 1 {
                    assert(pre[i] == Some(k));
                }
            }
        }
        assert forall|k: Seq<char>|
            #[trigger] some_unit_resolved(outcomes, k) implies recorded_projects(m, outcomes)[k]
            == None::<u32> by {
            if outcomes.last() != Some(k) {
                assert(some_unit_resolved(pre, k));
            }
        }
        assert forall|k: Seq<char>|
            m.dom().contains(k) && !(#[trigger] some_unit_resolved(outcomes, k))
                implies recorded_projects(m, outcomes)[k] == m[k] by {
            assert(!some_unit_resolved(pre, k));
            assert(outcomes.last() != Some(k));
        }
    }
}

/// A dropped sibling can be removed from the outcome list without changing
/// what the root records.
pub proof fn lemma_dropped_unit_invisible(
    m: Map<Seq<char>, Option<u32>>,
    outcomes: Seq<Option<Seq<char>>>,
    i: int,
)
    requires
        0 <= i < outcomes.len(),
        outcomes[i] is None,
    ensures
        recorded_projects(m, outcomes) == recorded_projects(m, outcomes.remove(i)),
{
    let trimmed = outcomes.remove(i);
    lemma_partial_failure_isolation(m, outcomes);
    lemma_partial_failure_isolation(m, trimmed);
    assert forall|k: Seq<char>|
        #[trigger] some_unit_resolved(outcomes, k) <==> some_unit_resolved(trimmed, k) by {
        if some_unit_resolved(outcomes, k) {
            let j = choose|j: int| 0 <= j < outcomes.len() && outcomes[j] == Some(k);
            if j < i {
                assert(trimmed[j] == Some(k));
            } else {
                assert(j > i);
                assert(trimmed[j - 1] == Some(k));
            }
        }
        if some_unit_resolved(trimmed, k) {
            let j = choose|j: int| 0 <= j < trimmed.len() && trimmed[j] == Some(k);
            if j < i {
                assert(outcomes[j] == Some(k));
            } else {
                assert(outcomes[j + 1] == Some(k));
            }
        }
    }
    assert forall|k: Seq<char>|
        #[trigger] recorded_projects(m, outcomes).dom().contains(k) <==> recorded_projects(
        m,
        trimmed,
    ).dom().contains(k) by {
        assert(some_unit_resolved(outcomes, k) <==> some_unit_resolved(trimmed, k));
    }
    assert forall|k: Seq<char>|
        #[trigger] recorded_projects(m, outcomes).dom().contains(k) implies recorded_projects(
        m,
        outcomes,
    )[k] == recorded_projects(m, trimmed)[k] by {
        assert(some_unit_resolved(outcomes, k) <==> some_unit_resolved(trimmed, k));
        if some_unit_resolved(outcomes, k) {
            assert(recorded_projects(m, outcomes)[k] == None::<u32>);
            assert(recorded_projects(m, trimmed)[k] == None::<u32>);
        } else {
            assert(m.dom().contains(k));
        }
    }
    assert(recorded_projects(m, outcomes) =~= recorded_projects(m, trimmed));
}

} // verus!
