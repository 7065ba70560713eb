//! The batched loader: point lookups that arrive within one scheduling turn
//! are gathered into one window, sent to the backend as one batch of
//! distinct keys, and the answers are kept for the loader's lifetime.
use crate::group::{group_by_key, groups_view, is_grouping, lemma_values_for_absent, values_for};
use vstd::prelude::*;

verus! {

/// The map that a list of resolved entries denotes; a later entry for a key
/// stands over an earlier one.
pub open spec fn entries_map<V>(s: Seq<(String, Vec<V>)>) -> Map<Seq<char>, Seq<V>>
    decreases s.len(),
{
    if s.len() == 0 {
        Map::empty()
    } else {
        entries_map(s.drop_last()).insert(s.last().0@, s.last().1@)
    }
}

/// The keys of a list of strings, as character sequences.
pub open spec fn key_views(s: Seq<String>) -> Seq<Seq<char>> {
    s.map_values(|k: String| k@)
}

/// The window after a miss on `key`: the key joins it once.
pub open spec fn joined(window: Seq<Seq<char>>, key: Seq<char>) -> Seq<Seq<char>> {
    if window.contains(key) {
        window
    } else {
        window.push(key)
    }
}

/// The cache after a batch for `keys` was answered with `response`: a key
/// resolved before keeps its values; another key of the batch gets the
/// values that the response gives it, none if it gives none.
pub open spec fn resolved_after<V>(
    resolved: Map<Seq<char>, Seq<V>>,
    keys: Seq<Seq<char>>,
    response: Seq<(String, V)>,
) -> Map<Seq<char>, Seq<V>> {
    Map::new(
        |k: Seq<char>| resolved.contains_key(k) || keys.contains(k),
        |k: Seq<char>|
            if resolved.contains_key(k) {
                resolved[k]
            } else {
                values_for(response, k)
            },
    )
}

/// The window after requests for `ks`, in order, starting from `window`,
/// while the keys of `resolved` are answered from the cache.
pub open spec fn window_after<V>(
    resolved: Map<Seq<char>, Seq<V>>,
    window: Seq<Seq<char>>,
    ks: Seq<Seq<char>>,
) -> Seq<Seq<char>>
    decreases ks.len(),
{
    if ks.len() == 0 {
        window
    } else {
        let w = window_after(resolved, window, ks.drop_last());
        if resolved.contains_key(ks.last()) {
            w
        } else {
            joined(w, ks.last())
        }
    }
}

/// Requests issued within one turn make a batch that holds each requested,
/// unresolved key exactly once, and no other key.
pub proof fn lemma_window_holds_distinct_keys<V>(
    resolved: Map<Seq<char>, Seq<V>>,
    ks: Seq<Seq<char>>,
)
    ensures
        window_after(resolved, seq![], ks).no_duplicates(),
        forall|k: Seq<char>|
            #[trigger] window_after(resolved, seq![], ks).contains(k) <==> ks.contains(k)
                && !resolved.contains_key(k),
    decreases ks.len(),
{
    if ks.len() > 0 {
        let pre = ks.drop_last();
        let last = ks.last();
        lemma_window_holds_distinct_keys(resolved, pre);
        let w = window_after(resolved, seq![], pre);
        assert forall|k: Seq<char>| #[trigger] ks.contains(k) <==> pre.contains(k) || k == last by {
            if k == last {
                assert(ks[ks.len() - 1] == last);
            }
            if pre.contains(k) {
                let i = choose|i: int| 0 <= i < pre.len() && pre[i] == k;
                assert(ks[i] == k);
            }
            if ks.contains(k) && k != last {
                let i = choose|i: int| 0 <= i < ks.len() && ks[i] == k;
                assert(pre[i] == k);
            }
        }
        if !resolved.contains_key(last) && !w.contains(last) {
            let w2 = w.push(last);
            assert forall|k: Seq<char>| #[trigger] w2.contains(k) <==> w.contains(k) || k == last by {
                if k == last {
                    assert(w2[w.len() as int] == last);
                }
                if w.contains(k) {
                    let i = choose|i: int| 0 <= i < w.len() && w[i] == k;
                    assert(w2[i] == k);
                }
                if w2.contains(k) && k != last {
                    let i = choose|i: int| 0 <= i < w2.len() && w2[i] == k;
                    assert(w[i] == k);
                }
            }
            assert forall|i: int, j: int| 0 <= i < w2.len() && 0 <= j < w2.len() && i != j implies w2[i]
                != w2[j] by {
                if i == w.len() {
                    assert(w.contains(w2[j]) ==> w2[j] != last);
                    assert(w[j] == w2[j]);
                } else if j == w.len() {
                    assert(w[i] == w2[i]);
                }
            }
        }
    }
}

/// Once a batch is answered, each of its keys is resolved: asking for it
/// again is answered from the cache and adds nothing to the next batch.
pub proof fn lemma_no_refetch_after_resolve<V>(
    resolved: Map<Seq<char>, Seq<V>>,
    keys: Seq<Seq<char>>,
    response: Seq<(String, V)>,
    window: Seq<Seq<char>>,
    k: Seq<char>,
)
    requires
        keys.contains(k),
    ensures
        resolved_after(resolved, keys, response).contains_key(k),
        window_after(resolved_after(resolved, keys, response), window, seq![k]) == window,
{
    let ks = seq![k];
    let m = resolved_after(resolved, keys, response);
    assert(ks.drop_last() =~= Seq::<Seq<char>>::empty());
    assert(ks.last() == k);
    assert(window_after(m, window, ks.drop_last()) == window);
}

/// A key of the batch that the response leaves out resolves to no values,
/// not to an error.
pub proof fn lemma_omitted_key_resolves_empty<V>(
    resolved: Map<Seq<char>, Seq<V>>,
    keys: Seq<Seq<char>>,
    response: Seq<(String, V)>,
    k: Seq<char>,
)
    requires
        keys.contains(k),
        !resolved.contains_key(k),
        forall|i: int| 0 <= i < response.len() ==> response[i].0@ != k,
    ensures
        resolved_after(resolved, keys, response).contains_key(k),
        resolved_after(resolved, keys, response)[k] == Seq::<V>::empty(),
{
    lemma_values_for_absent(response, k);
}

/// The key `s[j]` is the last entry for its key in `s`.
proof fn lemma_entries_map_at<V>(s: Seq<(String, Vec<V>)>, j: int)
    requires
        0 <= j < s.len(),
        forall|i: int| j < i < s.len() ==> s[i].0@ != s[j].0@,
    ensures
        entries_map(s).contains_key(s[j].0@),
        entries_map(s)[s[j].0@] == s[j].1@,
    decreases s.len(),
{
    if j < s.len() - 1 {
        lemma_entries_map_at(s.drop_last(), j);
    }
}

/// A key that no entry names is not in the map.
proof fn lemma_entries_map_absent<V>(s: Seq<(String, Vec<V>)>, key: Seq<char>)
    requires
        forall|i: int| 0 <= i < s.len() ==> s[i].0@ != key,
    ensures
        !entries_map(s).contains_key(key),
    decreases s.len(),
{
    if s.len() > 0 {
        lemma_entries_map_absent(s.drop_last(), key);
    }
}

/// A coalescing, caching loader over string keys.
pub struct Loader<V> {
    cache: Vec<(String, Vec<V>)>,
    window: Vec<String>,
}

impl<V> Loader<V> {
    /// The values resolved so far, by key.
    pub closed spec fn resolved(&self) -> Map<Seq<char>, Seq<V>> {
        entries_map(self.cache@)
    }

    /// The keys gathered for the batch not yet sent, in order of first request.
    pub closed spec fn window(&self) -> Seq<Seq<char>> {
        key_views(self.window@)
    }

    /// The window never holds a key twice.
    pub closed spec fn wf(&self) -> bool {
        self.window().no_duplicates()
    }

    /// A loader with nothing resolved and nothing gathered.
    pub fn new() -> (r: Loader<V>)
        ensures
            r.wf(),
            r.resolved() == Map::<Seq<char>, Seq<V>>::empty(),
            r.window() == Seq::<Seq<char>>::empty(),
    {
        let r = Loader { cache: Vec::new(), window: Vec::new() };
        assert(r.window() =~= Seq::<Seq<char>>::empty());
        r
    }

    /// Where `key` was last resolved in the cache, if it was.
    fn find_resolved(&self, key: &String) -> (r: Option<usize>)
        ensures
            r.is_some() == self.resolved().contains_key(key@),
            r.is_some() ==> r.unwrap() < self.cache@.len() && self.cache@[r.unwrap() as int].0@
                == key@ && self.resolved()[key@] == self.cache@[r.unwrap() as int].1@,
    {
        let mut j: usize = self.cache.len();
        while j > 0
            invariant
                j <= self.cache@.len(),
                forall|i: int| j <= i < self.cache@.len() ==> self.cache@[i].0@ != key@,
            decreases j,
        {
            if self.cache[j - 1].0 == *key {
                proof {
                    lemma_entries_map_at(self.cache@, j - 1);
                }
                return Some(j - 1);
            }
            j = j - 1;
        }
        proof {
            lemma_entries_map_absent(self.cache@, key@);
        }
        None
    }

    /// The values resolved for `key`, if it was resolved.
    pub fn cached(&self, key: &String) -> (r: Option<&Vec<V>>)
        ensures
            r.is_some() == self.resolved().contains_key(key@),
            r.is_some() ==> r.unwrap()@ == self.resolved()[key@],
    {
        match self.find_resolved(key) {
            Some(j) => Some(&self.cache[j].1),
            None => None,
        }
    }

    /// Asks for `key`. A resolved key is answered from the cache: the result
    /// is `true` and nothing is gathered. Otherwise the key joins the window,
    /// once however often it is asked for, and the caller waits for the batch.
    #[verifier::loop_isolation(false)]
    pub fn load(&mut self, key: String) -> (hit: bool)
        requires
            old(self).wf(),
        ensures
            final(self).wf(),
            final(self).resolved() == old(self).resolved(),
            hit == old(self).resolved().contains_key(key@),
            hit ==> final(self).window() == old(self).window(),
            !hit ==> final(self).window() == joined(old(self).window(), key@),
    {
        if self.find_resolved(&key).is_some() {
            return true;
        }
        let mut j: usize = 0;
        while j < self.window.len()
            invariant
                j <= self.window@.len(),
                forall|i: int| 0 <= i < j ==> self.window@[i]@ != key@,
            decreases self.window@.len() - j,
        {
            if self.window[j] == key {
                assert(self.window()[j as int] == key@);
                return false;
            }
            j = j + 1;
        }
        let ghost before = self.window();
        assert(!before.contains(key@)) by {
            if before.contains(key@) {
                let i = choose|i: int| 0 <= i < before.len() && before[i] == key@;
                assert(self.window@[i]@ == key@);
            }
        }
        self.window.push(key);
        assert(self.window() =~= before.push(key@));
        false
    }

    /// Closes the window: its keys, each once, go out as one batch, and the
    /// next request opens a new window.
    pub fn dispatch(&mut self) -> (keys: Vec<String>)
        requires
            old(self).wf(),
        ensures
            final(self).wf(),
            key_views(keys@) == old(self).window(),
            key_views(keys@).no_duplicates(),
            final(self).window() == Seq::<Seq<char>>::empty(),
            final(self).resolved() == old(self).resolved(),
    {
        let mut keys: Vec<String> = Vec::new();
        std::mem::swap(&mut keys, &mut self.window);
        assert(self.window() =~= Seq::<Seq<char>>::empty());
        keys
    }

    /// Stores the answer to a batch. `response` pairs keys with values, in
    /// any order and for any keys; a key of `keys` that it never names
    /// resolves to no values. A key resolved before keeps its first answer.
    pub fn resolve(&mut self, keys: &Vec<String>, response: Vec<(String, V)>)
        requires
            old(self).wf(),
        ensures
            final(self).wf(),
            final(self).window() == old(self).window(),
            final(self).resolved() == resolved_after(old(self).resolved(), key_views(keys@), response@),
    {
        let ghost resp = response@;
        let ghost start = self.resolved();
        let mut groups = group_by_key(response);
        proof {
            let gv = groups_view(groups@);
            assert forall|i: int| 0 <= i < groups@.len() implies (#[trigger] groups@[i]).1@
                == values_for(resp, groups@[i].0@) by {
                assert(gv[i] == (groups@[i].0, groups@[i].1@));
            }
            assert forall|q: Seq<char>|
                #[trigger] values_for(resp, q).len() > 0 implies exists|i: int|
                0 <= i < groups@.len() && groups@[i].0@ == q by {
                if forall|p: int| 0 <= p < resp.len() ==> resp[p].0@ != q {
                    lemma_values_for_absent(resp, q);
                } else {
                    let p = choose|p: int| 0 <= p < resp.len() && resp[p].0@ != q == false;
                    let i = choose|i: int| 0 <= i < gv.len() && (#[trigger] gv[i]).0@ == resp[p].0@;
                    assert(gv[i] == (groups@[i].0, groups@[i].1@));
                    assert(groups@[i].0@ == q);
                }
            }
        }
        let mut n: usize = 0;
        while n < keys.len()
            invariant
                n <= keys@.len(),
                self.window() == old(self).window(),
                self.wf(),
                forall|i: int|
                    0 <= i < groups@.len() ==> (#[trigger] groups@[i]).1@ == values_for(
                        resp,
                        groups@[i].0@,
                    ),
                forall|q: Seq<char>|
                    #[trigger] values_for(resp, q).len() > 0 && !self.resolved().contains_key(q)
                        ==> exists|i: int| 0 <= i < groups@.len() && groups@[i].0@ == q,
                forall|k: Seq<char>|
                    #[trigger] self.resolved().contains_key(k) <==> start.contains_key(k)
                        || key_views(keys@).subrange(0, n as int).contains(k),
                forall|k: Seq<char>|
                    start.contains_key(k) ==> #[trigger] self.resolved()[k] == start[k],
                forall|k: Seq<char>|
                    !start.contains_key(k) && key_views(keys@).subrange(0, n as int).contains(k)
                        ==> #[trigger] self.resolved()[k] == values_for(resp, k),
            decreases keys@.len() - n,
        {
            let key: String = keys[n].clone();
            let ghost kv = key@;
            let ghost done = key_views(keys@).subrange(0, n as int);
            let ghost next = key_views(keys@).subrange(0, n as int + 1);
            assert(next =~= done.push(kv));
            if self.find_resolved(&key).is_none() {
                let mut j: usize = 0;
                let mut found = false;
                while j < groups.len()
                    invariant_except_break
                        !found,
                    invariant
                        j <= groups@.len(),
                        kv == key@,
                        forall|i: int| 0 <= i < j ==> groups@[i].0@ != kv,
                    ensures
                        found ==> j < groups@.len() && groups@[j as int].0@ == kv,
                        !found ==> forall|i: int| 0 <= i < groups@.len() ==> groups@[i].0@ != kv,
                    decreases groups@.len() - j,
                {
                    if groups[j].0 == key {
                        found = true;
                        break;
                    }
                    j = j + 1;
                }
                let ghost before = self.resolved();
                let ghost old_groups = groups@;
                let values = if found {
                    let (_, vals) = groups.remove(j);
                    vals
                } else {
                    assert(values_for(resp, kv).len() == 0);
                    assert(values_for(resp, kv) =~= Seq::<V>::empty());
                    Vec::new()
                };
                assert(values@ == values_for(resp, kv));
                let ghost old_cache = self.cache@;
                self.cache.push((key, values));
                assert(self.cache@.drop_last() =~= old_cache);
                assert(self.resolved() == before.insert(kv, values@));
                assert forall|i: int| 0 <= i < groups@.len() implies (#[trigger] groups@[i]).1@
                    == values_for(resp, groups@[i].0@) by {
                    if found && i >= j {
                        assert(groups@[i] == old_groups[i + 1]);
                    } else {
                        assert(groups@[i] == old_groups[i]);
                    }
                }
                assert forall|q: Seq<char>|
                    #[trigger] values_for(resp, q).len() > 0 && !self.resolved().contains_key(q)
                        implies exists|i: int| 0 <= i < groups@.len() && groups@[i].0@ == q by {
                    let i = choose|i: int| 0 <= i < old_groups.len() && old_groups[i].0@ == q;
                    if found {
                        if i < j {
                            assert(groups@[i] == old_groups[i]);
                        } else {
                            assert(i != j);
                            assert(groups@[i - 1] == old_groups[i]);
                        }
                    } else {
                        assert(groups@[i] == old_groups[i]);
                    }
                }
            }
            assert forall|k: Seq<char>| #[trigger] next.contains(k) <==> done.contains(k) || k
                == kv by {
                if k == kv {
                    assert(next[n as int] == kv);
                }
                if done.contains(k) {
                    let i = choose|i: int| 0 <= i < done.len() && done[i] == k;
                    assert(next[i] == k);
                }
                if next.contains(k) && k != kv {
                    let i = choose|i: int| 0 <= i < next.len() && next[i] == k;
                    assert(done[i] == k);
                }
            }
            n = n + 1;
        }
        assert(key_views(keys@).subrange(0, keys@.len() as int) =~= key_views(keys@));
        assert(self.resolved() =~= resolved_after(start, key_views(keys@), resp));
    }
}

} // verus!
