//! A map from feature names to lists of names, kept sorted by name like a
//! `BTreeMap<String, Vec<String>>`.

use vstd::prelude::*;

use crate::features::views;

verus! {

/// The contents of a [`FeatureMap`]: its entries in order, each a name and
/// the list of names it maps to.
pub type MapView = Seq<(Seq<char>, Seq<Seq<char>>)>;

/// The order of `str`: lexicographic by character code.
pub open spec fn chars_lt(a: Seq<char>, b: Seq<char>) -> bool
    decreases a.len(),
{
    if a.len() == 0 {
        b.len() > 0
    } else if b.len() == 0 {
        false
    } else if a[0] == b[0] {
        chars_lt(a.drop_first(), b.drop_first())
    } else {
        a[0] < b[0]
    }
}

/// No text is less than itself.
pub proof fn lemma_chars_lt_irreflexive(a: Seq<char>)
    ensures
        !chars_lt(a, a),
    decreases a.len(),
{
    if a.len() > 0 {
        lemma_chars_lt_irreflexive(a.drop_first());
    }
}

/// The order on texts is transitive.
pub proof fn lemma_chars_lt_transitive(a: Seq<char>, b: Seq<char>, c: Seq<char>)
    requires
        chars_lt(a, b),
        chars_lt(b, c),
    ensures
        chars_lt(a, c),
    decreases a.len(),
{
    if a.len() > 0 && b.len() > 0 && c.len() > 0 {
        if a[0] == b[0] && b[0] == c[0] {
            lemma_chars_lt_transitive(a.drop_first(), b.drop_first(), c.drop_first());
        }
    }
}

/// Two different texts are ordered one way or the other.
pub proof fn lemma_chars_lt_total(a: Seq<char>, b: Seq<char>)
    requires
        a != b,
    ensures
        chars_lt(a, b) || chars_lt(b, a),
    decreases a.len(),
{
    if a.len() > 0 && b.len() > 0 {
        if a[0] == b[0] {
            if a.drop_first() == b.drop_first() {
                assert(a =~= seq![a[0]] + a.drop_first());
                assert(b =~= seq![b[0]] + b.drop_first());
            }
            lemma_chars_lt_total(a.drop_first(), b.drop_first());
        }
    } else if a.len() == 0 && b.len() == 0 {
        assert(a =~= b);
    }
}

/// Whether the text of `a` comes before that of `b`.
pub fn string_less(a: &String, b: &String) -> (res: bool)
    ensures
        res == chars_lt(a@, b@),
{
    let x = crate::text::chars_of(a.as_str());
    let y = crate::text::chars_of(b.as_str());
    let mut i: usize = 0;
    proof {
        assert(x@.skip(0) =~= x@);
        assert(y@.skip(0) =~= y@);
    }
    while i < x.len() && i < y.len()
        invariant
            x@ == a@,
            y@ == b@,
            i <= x@.len(),
            i <= y@.len(),
            chars_lt(a@, b@) == chars_lt(x@.skip(i as int), y@.skip(i as int)),
        decreases x.len() - i,
    {
        if x[i] != y[i] {
            let r = x[i] < y[i];
            proof {
                assert(x@.skip(i as int)[0] == x@[i as int]);
                assert(y@.skip(i as int)[0] == y@[i as int]);
            }
            return r;
        }
        proof {
            assert(x@.skip(i as int).drop_first() =~= x@.skip(i as int + 1));
            assert(y@.skip(i as int).drop_first() =~= y@.skip(i as int + 1));
        }
        i = i + 1;
    }
    i == x.len() && i < y.len()
}

/// The map's entries are sorted by name, so no name occurs twice.
pub open spec fn keys_sorted(v: MapView) -> bool {
    forall|i: int, j: int| 0 <= i < j < v.len() ==> chars_lt(#[trigger] v[i].0, #[trigger] v[j].0)
}

/// In a map sorted by key, no two entries have the same key.
pub proof fn lemma_keys_unique(m: MapView, i: int, j: int)
    requires
        keys_sorted(m),
        0 <= i < m.len(),
        0 <= j < m.len(),
        m[i].0 == m[j].0,
    ensures
        i == j,
{
    if i < j {
        lemma_chars_lt_irreflexive(m[i].0);
    } else if j < i {
        lemma_chars_lt_irreflexive(m[i].0);
    }
}

/// The views of raw entries.
pub open spec fn entries_view(e: Seq<(String, Vec<String>)>) -> MapView {
    e.map_values(|p: (String, Vec<String>)| (p.0@, views(p.1@)))
}

/// A map from feature names to lists of names, sorted by name.
#[derive(Debug)]
pub struct FeatureMap {
    entries: Vec<(String, Vec<String>)>,
}

impl View for FeatureMap {
    type V = MapView;

    closed spec fn view(&self) -> MapView {
        entries_view(self.entries@)
    }
}

/// Clones a list of strings.
pub fn clone_strings(v: &Vec<String>) -> (res: Vec<String>)
    ensures
        res@ == v@,
{
    let mut res: Vec<String> = Vec::new();
    let mut i: usize = 0;
    while i < v.len()
        invariant
            i <= v@.len(),
            res@ == v@.take(i as int),
        decreases v.len() - i,
    {
        res.push(v[i].clone());
        i = i + 1;
        proof {
            assert(res@ =~= v@.take(i as int));
        }
    }
    proof {
        assert(v@.take(v@.len() as int) =~= v@);
    }
    res
}

impl FeatureMap {
    /// The map is sorted by name.
    pub open spec fn wf(&self) -> bool {
        keys_sorted(self@)
    }

    /// Whether some entry is named `k`.
    pub open spec fn has_key(&self, k: Seq<char>) -> bool {
        exists|i: int| 0 <= i < self@.len() && #[trigger] self@[i].0 == k
    }

    /// An empty map.
    pub fn new() -> (res: FeatureMap)
        ensures
            res@ == MapView::empty(),
            res.wf(),
    {
        let res = FeatureMap { entries: Vec::new() };
        proof {
            assert(res@ =~= MapView::empty());
        }
        res
    }

    /// A map holding the given entries, in their order.
    pub(crate) fn from_entries(entries: Vec<(String, Vec<String>)>) -> (res: FeatureMap)
        ensures
            res@ == entries_view(entries@),
    {
        FeatureMap { entries }
    }

    /// The number of entries.
    pub fn len(&self) -> (res: usize)
        ensures
            res == self@.len(),
    {
        self.entries.len()
    }

    /// The name of the `i`-th entry.
    pub fn key(&self, i: usize) -> (res: &String)
        requires
            i < self@.len(),
        ensures
            res@ == self@[i as int].0,
    {
        &self.entries[i].0
    }

    /// The list of the `i`-th entry.
    pub fn value(&self, i: usize) -> (res: &Vec<String>)
        requires
            i < self@.len(),
        ensures
            views(res@) == self@[i as int].1,
    {
        &self.entries[i].1
    }

    /// The entries, in order.
    pub fn entries(&self) -> (res: &Vec<(String, Vec<String>)>)
        ensures
            entries_view(res@) == self@,
    {
        &self.entries
    }

    /// The list of the first entry named `key`, if any.
    pub fn get(&self, key: &str) -> (res: Option<&Vec<String>>)
        ensures
            res is None <==> !self.has_key(key@),
            res matches Some(v) ==> exists|i: int|
                0 <= i < self@.len() && #[trigger] self@[i].0 == key@ && views(v@) == self@[i].1,
    {
        let mut i: usize = 0;
        while i < self.entries.len()
            invariant
                i <= self@.len(),
                forall|k: int| 0 <= k < i ==> #[trigger] self@[k].0 != key@,
            decreases self.entries.len() - i,
        {
            if crate::text::string_eq_str(&self.entries[i].0, key) {
                proof {
                    assert(self@[i as int].0 == key@);
                }
                return Some(&self.entries[i].1);
            }
            i = i + 1;
        }
        None
    }

    /// Maps `key` to `value`, replacing the list of an entry of that name.
    pub fn insert(&mut self, key: String, value: Vec<String>)
        requires
            old(self).wf(),
        ensures
            final(self).wf(),
            exists|i: int| 0 <= i < final(self)@.len() && #[trigger] final(self)@[i] == (key@, views(value@)),
            forall|j: int| 0 <= j < old(self)@.len() && (#[trigger] old(self)@[j]).0 != key@
                ==> final(self)@.contains(old(self)@[j]),
            forall|j: int| 0 <= j < final(self)@.len() && (#[trigger] final(self)@[j]).0 != key@
                ==> old(self)@.contains(final(self)@[j]),
    {
        let ghost old_v = self@;
        let n = self.entries.len();
        let mut i: usize = 0;
        while i < n && string_less(&self.entries[i].0, &key)
            invariant
                n == self@.len(),
                self@ == old_v,
                i <= n,
                forall|k: int| 0 <= k < i ==> chars_lt(#[trigger] old_v[k].0, key@),
            decreases n - i,
        {
            i = i + 1;
        }
        let entry = (key, value);
        let ghost new_e = (entry.0@, views(entry.1@));
        if i < n && self.entries[i].0 == entry.0 {
            self.entries.set(i, entry);
            proof {
                assert(self@ =~= old_v.update(i as int, new_e));
                assert(self@[i as int] == new_e);
                assert forall|a: int, b: int| 0 <= a < b < self@.len() implies chars_lt(#[trigger] self@[a].0, #[trigger] self@[b].0) by {
                    assert(self@[a].0 == old_v[a].0);
                    assert(self@[b].0 == old_v[b].0);
                }
                assert forall|j: int| 0 <= j < old_v.len() && (#[trigger] old_v[j]).0 != new_e.0 implies self@.contains(old_v[j]) by {
                    assert(self@[j] == old_v[j]);
                }
                assert forall|j: int| 0 <= j < self@.len() && (#[trigger] self@[j]).0 != new_e.0 implies old_v.contains(self@[j]) by {
                    assert(self@[j] == old_v[j]);
                }
            }
        } else {
            proof {
                if i < n {
                    lemma_chars_lt_total(old_v[i as int].0, new_e.0);
                    assert(chars_lt(new_e.0, old_v[i as int].0));
                    assert forall|k: int| i < k < n implies chars_lt(new_e.0, #[trigger] old_v[k].0) by {
                        lemma_chars_lt_transitive(new_e.0, old_v[i as int].0, old_v[k].0);
                    }
                }
            }
            self.entries.insert(i, entry);
            proof {
                assert(self@ =~= old_v.insert(i as int, new_e));
                assert(self@[i as int] == new_e);
                assert forall|a: int, b: int| 0 <= a < b < self@.len() implies chars_lt(#[trigger] self@[a].0, #[trigger] self@[b].0) by {
                    if b < i {
                    } else if b == i {
                    } else if a < i {
                        assert(self@[b] == old_v[b - 1]);
                        if i < n {
                            lemma_chars_lt_transitive(self@[a].0, new_e.0, old_v[b - 1].0);
                        }
                    } else if a == i {
                        assert(self@[b] == old_v[b - 1]);
                    } else {
                        assert(self@[a] == old_v[a - 1]);
                        assert(self@[b] == old_v[b - 1]);
                    }
                }
                assert forall|j: int| 0 <= j < old_v.len() && (#[trigger] old_v[j]).0 != new_e.0 implies self@.contains(old_v[j]) by {
                    if j < i {
                        assert(self@[j] == old_v[j]);
                    } else {
                        assert(self@[j + 1] == old_v[j]);
                    }
                }
                assert forall|j: int| 0 <= j < self@.len() && (#[trigger] self@[j]).0 != new_e.0 implies old_v.contains(self@[j]) by {
                    if j < i {
                        assert(self@[j] == old_v[j]);
                    } else if j > i {
                        assert(self@[j] == old_v[j - 1]);
                    }
                }
            }
        }
    }
}

} // verus!

verus! {

/// Each name comes before the next, so none is repeated.
pub open spec fn strictly_sorted(s: Seq<Seq<char>>) -> bool {
    forall|i: int, j: int| 0 <= i < j < s.len() ==> chars_lt(#[trigger] s[i], #[trigger] s[j])
}

/// The names of the entries of a map.
pub open spec fn key_set(m: MapView) -> Set<Seq<char>> {
    Set::new(|k: Seq<char>| exists|i: int| 0 <= i < m.len() && #[trigger] m[i].0 == k)
}

/// The names of `list`, sorted and each once, as a `BTreeSet` holds them.
pub fn sorted_unique(list: &Vec<String>) -> (res: Vec<String>)
    ensures
        strictly_sorted(views(res@)),
        views(res@).to_set() == views(list@).to_set(),
{
    let mut m = FeatureMap::new();
    let mut i: usize = 0;
    proof {
        assert(key_set(m@) =~= views(list@).take(0).to_set());
    }
    while i < list.len()
        invariant
            i <= list@.len(),
            m.wf(),
            key_set(m@) == views(list@).take(i as int).to_set(),
        decreases list@.len() - i,
    {
        let ghost before = m@;
        let k = clone_string(&list[i]);
        let ghost kv = k@;
        let empty: Vec<String> = Vec::new();
        let ghost ev = views(empty@);
        m.insert(k, empty);
        proof {
            assert(views(list@).take(i + 1) =~= views(list@).take(i as int).push(kv));
            assert forall|x: Seq<char>| key_set(m@).contains(x) <==> #[trigger] key_set(before).insert(
                kv,
            ).contains(x) by {
                if key_set(m@).contains(x) {
                    let j = choose|j: int| 0 <= j < m@.len() && #[trigger] m@[j].0 == x;
                    if x != kv {
                        assert(before.contains(m@[j]));
                        let b = choose|b: int| 0 <= b < before.len() && before[b] == m@[j];
                        assert(before[b].0 == x);
                    }
                }
                if key_set(before).contains(x) && x != kv {
                    let b = choose|b: int| 0 <= b < before.len() && #[trigger] before[b].0 == x;
                    assert(m@.contains(before[b]));
                    let j = choose|j: int| 0 <= j < m@.len() && m@[j] == before[b];
                    assert(m@[j].0 == x);
                }
                if x == kv {
                    let j = choose|j: int|
                        0 <= j < m@.len() && #[trigger] m@[j] == (kv, ev);
                    assert(m@[j].0 == x);
                }
            }
            assert(key_set(m@) =~= key_set(before).insert(kv));
            assert forall|y: Seq<char>| #[trigger] views(list@).take(i + 1).to_set().contains(y) <==> views(
                list@,
            ).take(i as int).to_set().insert(kv).contains(y) by {
                crate::text::lemma_contains_push(views(list@).take(i as int), kv, y);
            }
            assert(views(list@).take(i + 1).to_set() =~= views(list@).take(i as int).to_set().insert(kv));
        }
        i = i + 1;
    }
    proof {
        assert(views(list@).take(list@.len() as int) =~= views(list@));
    }
    let entries = m.entries();
    let mut res: Vec<String> = Vec::new();
    let mut j: usize = 0;
    while j < entries.len()
        invariant
            j <= entries@.len(),
            entries_view(entries@) == m@,
            views(res@) == m@.take(j as int).map_values(|e: (Seq<char>, Seq<Seq<char>>)| e.0),
        decreases entries@.len() - j,
    {
        let ghost prev = res@;
        proof {
            assert(m@[j as int].0 == entries@[j as int].0@);
        }
        res.push(clone_string(&entries[j].0));
        j = j + 1;
        proof {
            assert(views(res@) =~= views(prev).push(m@[j - 1].0));
            assert(views(res@) =~= m@.take(j as int).map_values(|e: (Seq<char>, Seq<Seq<char>>)| e.0));
        }
    }
    proof {
        assert(m@.take(entries@.len() as int) =~= m@);
        assert(views(res@).to_set() =~= key_set(m@)) by {
            assert forall|x: Seq<char>| views(res@).to_set().contains(x) implies key_set(m@).contains(x) by {
                let j = choose|j: int| 0 <= j < views(res@).len() && views(res@)[j] == x;
                assert(m@[j].0 == x);
            }
            assert forall|x: Seq<char>| key_set(m@).contains(x) implies views(res@).to_set().contains(x) by {
                let j = choose|j: int| 0 <= j < m@.len() && #[trigger] m@[j].0 == x;
                assert(views(res@)[j] == x);
            }
        }
    }
    res
}

/// A copy of a string.
pub fn clone_string(s: &String) -> (res: String)
    ensures
        res@ == s@,
{
    String::from_str(s.as_str())
}

} // verus!
