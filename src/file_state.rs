//! The last observed modification time of each file, keyed by its path
//! relative to the watched root.
use vstd::prelude::*;

verus! {

/// The map that a list of entries spells when each is applied in turn, a
/// later entry for a path replacing an earlier one.
pub open spec fn stamp_map(e: Seq<(Seq<char>, u64)>) -> Map<Seq<char>, u64>
    decreases e.len(),
{
    if e.len() == 0 {
        Map::empty()
    } else {
        stamp_map(e.drop_last()).insert(e.last().0, e.last().1)
    }
}

/// No path occurs twice.
pub open spec fn unique_keys(e: Seq<(Seq<char>, u64)>) -> bool {
    forall|i: int, j: int| 0 <= i < j < e.len() ==> #[trigger] e[i].0 != #[trigger] e[j].0
}

/// Replacing the value of a path that occurs once replaces it in the map.
pub proof fn lemma_stamp_map_update(e: Seq<(Seq<char>, u64)>, i: int, v: u64)
    requires
        unique_keys(e),
        0 <= i < e.len(),
    ensures
        stamp_map(e.update(i, (e[i].0, v))) == stamp_map(e).insert(e[i].0, v),
    decreases e.len(),
{
    let k = e[i].0;
    let u = e.update(i, (k, v));
    if i == e.len() - 1 {
        assert(u.drop_last() =~= e.drop_last());
        assert(stamp_map(u) =~= stamp_map(e).insert(k, v));
    } else {
        assert(u.drop_last() =~= e.drop_last().update(i, (k, v)));
        lemma_stamp_map_update(e.drop_last(), i, v);
        assert(e.last().0 != k);
        assert(stamp_map(u) =~= stamp_map(e).insert(k, v));
    }
}

/// Under unique paths each entry gives its path's value in the map.
pub proof fn lemma_stamp_map_entry(e: Seq<(Seq<char>, u64)>, i: int)
    requires
        unique_keys(e),
        0 <= i < e.len(),
    ensures
        stamp_map(e).contains_key(e[i].0),
        stamp_map(e)[e[i].0] == e[i].1,
    decreases e.len(),
{
    if i < e.len() - 1 {
        lemma_stamp_map_entry(e.drop_last(), i);
        assert(e.last().0 != e[i].0);
    }
}

/// Every entry's path is in the map.
pub proof fn lemma_stamp_map_has_key(e: Seq<(Seq<char>, u64)>, i: int)
    requires
        0 <= i < e.len(),
    ensures
        stamp_map(e).contains_key(e[i].0),
    decreases e.len(),
{
    if i < e.len() - 1 {
        lemma_stamp_map_has_key(e.drop_last(), i);
    }
}

/// A path that no entry names is not in the map.
pub proof fn lemma_stamp_map_absent(e: Seq<(Seq<char>, u64)>, k: Seq<char>)
    requires
        forall|i: int| 0 <= i < e.len() ==> #[trigger] e[i].0 != k,
    ensures
        !stamp_map(e).contains_key(k),
    decreases e.len(),
{
    if e.len() > 0 {
        lemma_stamp_map_absent(e.drop_last(), k);
        assert(e.last().0 != k);
    }
}

/// The map after the times `stamps` were recorded for `path`, in turn.
pub open spec fn after_changes(m: Map<Seq<char>, u64>, path: Seq<char>, stamps: Seq<u64>) -> Map<
    Seq<char>,
    u64,
>
    decreases stamps.len(),
{
    if stamps.len() == 0 {
        m
    } else {
        after_changes(m, path, stamps.drop_last()).insert(path, stamps.last())
    }
}

/// After a run of changes to one path, the map holds the time of the last
/// of them, and every other path keeps its time.
pub proof fn last_change_wins(m: Map<Seq<char>, u64>, path: Seq<char>, stamps: Seq<u64>)
    requires
        stamps.len() > 0,
    ensures
        after_changes(m, path, stamps).contains_key(path),
        after_changes(m, path, stamps)[path] == stamps.last(),
        forall|q: Seq<char>| q != path ==> #[trigger] after_changes(m, path, stamps).contains_key(q)
            == m.contains_key(q),
        forall|q: Seq<char>|
            q != path && m.contains_key(q) ==> after_changes(m, path, stamps).contains_key(q)
                && #[trigger] after_changes(m, path, stamps)[q] == m[q],
    decreases stamps.len(),
{
    if stamps.len() > 1 {
        last_change_wins(m, path, stamps.drop_last());
    } else {
        assert(stamps.drop_last() =~= Seq::<u64>::empty());
        assert(after_changes(m, path, stamps.drop_last()) == m);
    }
}

/// Path to last-change time (milliseconds since the epoch), one entry per
/// path, in order of first record.
pub struct FileStateMap {
    items: Vec<(String, u64)>,
}

impl View for FileStateMap {
    type V = Map<Seq<char>, u64>;

    open spec fn view(&self) -> Map<Seq<char>, u64> {
        stamp_map(self.entries())
    }
}

impl FileStateMap {
    /// The entries in order of first record.
    pub closed spec fn entries(&self) -> Seq<(Seq<char>, u64)> {
        self.items@.map_values(|p: (String, u64)| (p.0@, p.1))
    }

    pub open spec fn wf(&self) -> bool {
        unique_keys(self.entries())
    }

    pub fn new() -> (r: FileStateMap)
        ensures
            r.wf(),
            r.entries() == Seq::<(Seq<char>, u64)>::empty(),
            r@ == Map::<Seq<char>, u64>::empty(),
    {
        let r = FileStateMap { items: Vec::new() };
        assert(r.entries() =~= Seq::<(Seq<char>, u64)>::empty());
        r
    }

    pub fn len(&self) -> (r: usize)
        ensures
            r == self.entries().len(),
    {
        self.items.len()
    }

    /// The path of the `i`-th entry.
    pub fn path_at(&self, i: usize) -> (r: &String)
        requires
            i < self.entries().len(),
        ensures
            r@ == self.entries()[i as int].0,
    {
        &self.items[i].0
    }

    /// The time of the `i`-th entry.
    pub fn stamp_at(&self, i: usize) -> (r: u64)
        requires
            i < self.entries().len(),
        ensures
            r == self.entries()[i as int].1,
    {
        self.items[i].1
    }

    fn find(&self, path: &String) -> (r: Option<usize>)
        ensures
            match r {
                Some(i) => i < self.entries().len() && self.entries()[i as int].0 == path@,
                None => forall|i: int| 0 <= i < self.entries().len() ==> #[trigger] self.entries()[i].0 != path@,
            },
    {
        let mut i: usize = 0;
        while i < self.items.len()
            invariant
                i <= self.items.len(),
                forall|k: int| 0 <= k < i ==> #[trigger] self.entries()[k].0 != path@,
            decreases self.items.len() - i,
        {
            if self.items[i].0 == *path {
                return Some(i);
            }
            i += 1;
        }
        None
    }

    /// The recorded time of `path`, if any.
    pub fn get(&self, path: &String) -> (r: Option<u64>)
        requires
            self.wf(),
        ensures
            r == (if self@.contains_key(path@) { Some(self@[path@]) } else { None::<u64> }),
    {
        match self.find(path) {
            Some(i) => {
                proof {
                    lemma_stamp_map_entry(self.entries(), i as int);
                }
                Some(self.items[i].1)
            },
            None => {
                proof {
                    lemma_stamp_map_absent(self.entries(), path@);
                }
                None
            },
        }
    }

    /// Records that `path` changed at `stamp`, replacing any earlier time.
    pub fn record_change(&mut self, path: String, stamp: u64)
        requires
            old(self).wf(),
        ensures
            final(self).wf(),
            final(self)@ == old(self)@.insert(path@, stamp),
    {
        let ghost before = self.entries();
        match self.find(&path) {
            Some(i) => {
                let ghost k = path@;
                self.items.set(i, (path, stamp));
                assert(self.entries() =~= before.update(i as int, (k, stamp)));
                proof {
                    lemma_stamp_map_update(before, i as int, stamp);
                }
            },
            None => {
                let ghost k = path@;
                self.items.push((path, stamp));
                assert(self.entries() =~= before.push((k, stamp)));
                assert(self.entries().drop_last() =~= before);
            },
        }
    }

    /// A copy of the map as it stands.
    pub fn snapshot(&self) -> (r: FileStateMap)
        ensures
            r.entries() == self.entries(),
            r@ == self@,
            self.wf() ==> r.wf(),
    {
        let mut out: Vec<(String, u64)> = Vec::new();
        let mut i: usize = 0;
        while i < self.items.len()
            invariant
                i <= self.items.len(),
                out@.map_values(|p: (String, u64)| (p.0@, p.1)) == self.entries().take(i as int),
            decreases self.items.len() - i,
        {
            let ghost before = out@;
            let p = self.items[i].0.clone();
            let t = self.items[i].1;
            assert((p@, t) == self.entries()[i as int]);
            out.push((p, t));
            assert(out@.map_values(|p: (String, u64)| (p.0@, p.1)) =~= before.map_values(
                |p: (String, u64)| (p.0@, p.1),
            ).push((p@, t)));
            assert(self.entries().take(i + 1) =~= self.entries().take(i as int).push((p@, t)));
            i += 1;
        }
        assert(self.entries().take(self.items.len() as int) =~= self.entries());
        FileStateMap { items: out }
    }
}

} // verus!
