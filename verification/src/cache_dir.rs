use vstd::prelude::*;

use crate::track_cache::{filename_to_urn, is_cached_len, urn_of_file_name, MIN_AUDIO_SIZE};

verus! {

/// What the file system reports of a directory entry.
#[derive(Clone, Copy, Debug, PartialEq, Eq)]
pub struct EntryMeta {
    /// Whether the entry is a regular file.
    pub is_file: bool,
    /// Its length in bytes.
    pub len: u64,
    /// When it was last used (accessed, else modified), as a signed count of
    /// nanoseconds from the Unix epoch; earlier uses compare smaller.
    pub last_used: i128,
}

/// One entry of the cache directory, with its metadata where the file
/// system could read it.
#[derive(Debug)]
pub struct CacheEntry {
    pub file_name: String,
    pub meta: Option<EntryMeta>,
}

/// An entry that is a regular file with readable metadata.
pub open spec fn is_file_entry(e: CacheEntry) -> bool {
    e.meta matches Some(m) && m.is_file
}

/// The length of an entry, where its metadata could be read.
pub open spec fn entry_len(e: CacheEntry) -> int {
    match e.meta {
        Some(m) => m.len as int,
        None => 0,
    }
}

/// The total length of the regular files among `es`.
pub open spec fn files_bytes(es: Seq<CacheEntry>) -> int
    decreases es.len(),
{
    if es.len() == 0 {
        0
    } else {
        files_bytes(es.drop_last()) + if is_file_entry(es.last()) {
            entry_len(es.last())
        } else {
            0
        }
    }
}

/// The positions of the regular files among `es`, in directory order.
pub open spec fn file_positions(es: Seq<CacheEntry>) -> Seq<int>
    decreases es.len(),
{
    if es.len() == 0 {
        Seq::empty()
    } else if is_file_entry(es.last()) {
        file_positions(es.drop_last()).push(es.len() - 1)
    } else {
        file_positions(es.drop_last())
    }
}

/// An entry named like a cache file that holds a complete track.
pub open spec fn is_listed(e: CacheEntry) -> bool {
    &&& urn_of_file_name(e.file_name@) is Some
    &&& e.meta matches Some(m) && m.len >= MIN_AUDIO_SIZE
}

/// An entry named like a cache file that is missing its metadata or is too
/// short to be a complete track.
pub open spec fn is_stale(e: CacheEntry) -> bool {
    urn_of_file_name(e.file_name@) is Some && !is_listed(e)
}

/// The tracks of the complete cache files among `es`, in directory order.
pub open spec fn listed_urns(es: Seq<CacheEntry>) -> Seq<Seq<char>>
    decreases es.len(),
{
    if es.len() == 0 {
        Seq::empty()
    } else if is_listed(es.last()) {
        listed_urns(es.drop_last()).push(urn_of_file_name(es.last().file_name@)->0)
    } else {
        listed_urns(es.drop_last())
    }
}

/// The positions of the stale cache files among `es`, in directory order.
pub open spec fn stale_positions(es: Seq<CacheEntry>) -> Seq<int>
    decreases es.len(),
{
    if es.len() == 0 {
        Seq::empty()
    } else if is_stale(es.last()) {
        stale_positions(es.drop_last()).push(es.len() - 1)
    } else {
        stale_positions(es.drop_last())
    }
}

/// The views of a list of strings.
pub open spec fn string_views(v: Seq<String>) -> Seq<Seq<char>> {
    v.map_values(|s: String| s@)
}

/// The views of a list of positions.
pub open spec fn positions(v: Seq<usize>) -> Seq<int> {
    v.map_values(|i: usize| i as int)
}

/// What listing the cache directory found: the tracks held, and the
/// stale files to delete.
pub struct CacheListing {
    pub urns: Vec<String>,
    pub stale: Vec<usize>,
}

proof fn lemma_files_bytes_prefix(es: Seq<CacheEntry>, i: int)
    requires
        0 <= i <= es.len(),
    ensures
        files_bytes(es.take(i)) <= files_bytes(es),
        files_bytes(es.take(i)) >= 0,
    decreases es.len() - i,
{
    if i < es.len() {
        lemma_files_bytes_prefix(es, i + 1);
        assert(es.take(i + 1).drop_last() =~= es.take(i));
    } else {
        assert(es.take(i) =~= es);
    }
    lemma_files_bytes_nonneg(es.take(i));
}

proof fn lemma_files_bytes_nonneg(es: Seq<CacheEntry>)
    ensures
        files_bytes(es) >= 0,
    decreases es.len(),
{
    if es.len() > 0 {
        lemma_files_bytes_nonneg(es.drop_last());
    }
}

/// The total size of the regular files in the cache directory.
pub fn cache_size(entries: &Vec<CacheEntry>) -> (total: u64)
    requires
        files_bytes(entries@) <= u64::MAX,
    ensures
        total == files_bytes(entries@),
{
    let mut total: u64 = 0;
    let mut i: usize = 0;
    while i < entries.len()
        invariant
            i <= entries@.len(),
            total == files_bytes(entries@.take(i as int)),
            files_bytes(entries@) <= u64::MAX,
        decreases entries@.len() - i,
    {
        proof {
            assert(entries@.take(i + 1).drop_last() =~= entries@.take(i as int));
            lemma_files_bytes_prefix(entries@, i + 1);
        }
        match entries[i].meta {
            Some(m) => {
                if m.is_file {
                    total = total + m.len;
                }
            },
            None => {},
        }
        i = i + 1;
    }
    proof {
        assert(entries@.take(i as int) =~= entries@);
    }
    total
}

/// The entries that clearing the cache deletes: every regular file.
pub fn files_to_clear(entries: &Vec<CacheEntry>) -> (idx: Vec<usize>)
    ensures
        positions(idx@) == file_positions(entries@),
{
    let mut idx: Vec<usize> = Vec::new();
    let mut i: usize = 0;
    while i < entries.len()
        invariant
            i <= entries@.len(),
            positions(idx@) == file_positions(entries@.take(i as int)),
        decreases entries@.len() - i,
    {
        proof {
            assert(entries@.take(i + 1).drop_last() =~= entries@.take(i as int));
        }
        let is_file = match entries[i].meta {
            Some(m) => m.is_file,
            None => false,
        };
        if is_file {
            idx.push(i);
            proof {
                assert(positions(idx@) =~= positions(idx@.drop_last()).push(i as int));
            }
        }
        i = i + 1;
    }
    proof {
        assert(entries@.take(i as int) =~= entries@);
    }
    idx
}

/// Sorts the cache directory listing: the tracks that are cached, and the
/// files named like cache files that are too short (or unreadable) and are
/// to be deleted.
pub fn list_cached_urns(entries: &Vec<CacheEntry>) -> (listing: CacheListing)
    ensures
        string_views(listing.urns@) == listed_urns(entries@),
        positions(listing.stale@) == stale_positions(entries@),
{
    let mut urns: Vec<String> = Vec::new();
    let mut stale: Vec<usize> = Vec::new();
    let mut i: usize = 0;
    while i < entries.len()
        invariant
            i <= entries@.len(),
            string_views(urns@) == listed_urns(entries@.take(i as int)),
            positions(stale@) == stale_positions(entries@.take(i as int)),
        decreases entries@.len() - i,
    {
        proof {
            assert(entries@.take(i + 1).drop_last() =~= entries@.take(i as int));
        }
        let e = &entries[i];
        match filename_to_urn(e.file_name.as_str()) {
            Some(urn) => {
                let len = match e.meta {
                    Some(m) => Some(m.len),
                    None => None,
                };
                if is_cached_len(len) {
                    urns.push(urn);
                    proof {
                        assert(string_views(urns@) =~= string_views(urns@.drop_last()).push(
                            urns@.last()@,
                        ));
                    }
                } else {
                    stale.push(i);
                    proof {
                        assert(positions(stale@) =~= positions(stale@.drop_last()).push(i as int));
                    }
                }
            },
            None => {},
        }
        i = i + 1;
    }
    proof {
        assert(entries@.take(i as int) =~= entries@);
    }
    CacheListing { urns, stale }
}


/// A cache file as eviction sees it: its position in the listing, its
/// length and when it was last used.
#[derive(Clone, Copy, Debug, PartialEq, Eq)]
pub struct Victim {
    pub index: usize,
    pub len: u64,
    pub last_used: i128,
}

/// `a` goes before `b`: it was used earlier, or at the same time and comes
/// earlier in the listing.
pub open spec fn goes_before(a: Victim, b: Victim) -> bool {
    a.last_used < b.last_used || (a.last_used == b.last_used && a.index < b.index)
}

/// `v` describes the entry at its position in `es`, a regular file.
pub open spec fn describes(es: Seq<CacheEntry>, v: Victim) -> bool {
    &&& v.index < es.len()
    &&& is_file_entry(es[v.index as int])
    &&& v.len == es[v.index as int].meta->0.len
    &&& v.last_used == es[v.index as int].meta->0.last_used
}

/// `order` lists every regular file of `es` once, least recently used
/// first, ties in listing order.
pub open spec fn is_eviction_order(es: Seq<CacheEntry>, order: Seq<Victim>) -> bool {
    &&& forall|k: int| 0 <= k < order.len() ==> describes(es, #[trigger] order[k])
    &&& forall|i: int|
        0 <= i < es.len() && is_file_entry(#[trigger] es[i]) ==> exists|k: int|
            0 <= k < order.len() && order[k].index == i
    &&& forall|k1: int, k2: int|
        0 <= k1 < k2 < order.len() ==> goes_before(#[trigger] order[k1], #[trigger] order[k2])
}

/// The total length of `vs`.
pub open spec fn victims_bytes(vs: Seq<Victim>) -> int
    decreases vs.len(),
{
    if vs.len() == 0 {
        0
    } else {
        victims_bytes(vs.drop_last()) + vs.last().len
    }
}

proof fn lemma_victims_bytes_concat(a: Seq<Victim>, b: Seq<Victim>)
    ensures
        victims_bytes(a + b) == victims_bytes(a) + victims_bytes(b),
    decreases b.len(),
{
    if b.len() > 0 {
        lemma_victims_bytes_concat(a, b.drop_last());
        assert((a + b).drop_last() =~= a + b.drop_last());
    } else {
        assert(a + b =~= a);
    }
}

proof fn lemma_victims_bytes_nonneg(vs: Seq<Victim>)
    ensures
        victims_bytes(vs) >= 0,
    decreases vs.len(),
{
    if vs.len() > 0 {
        lemma_victims_bytes_nonneg(vs.drop_last());
    }
}

proof fn lemma_victims_bytes_insert(vs: Seq<Victim>, p: int, v: Victim)
    requires
        0 <= p <= vs.len(),
    ensures
        victims_bytes(vs.insert(p, v)) == victims_bytes(vs) + v.len,
{
    let a = vs.subrange(0, p);
    let b = vs.subrange(p, vs.len() as int);
    assert(vs =~= a + b);
    assert(vs.insert(p, v) =~= (a + seq![v]) + b);
    lemma_victims_bytes_concat(a, b);
    lemma_victims_bytes_concat(a + seq![v], b);
    lemma_victims_bytes_concat(a, seq![v]);
    lemma_victims_bytes_single(v);
}

proof fn lemma_victims_bytes_single(v: Victim)
    ensures
        victims_bytes(seq![v]) == v.len,
{
    assert(seq![v].drop_last() =~= Seq::<Victim>::empty());
    assert(victims_bytes(Seq::<Victim>::empty()) == 0);
    assert(victims_bytes(seq![v]) == victims_bytes(seq![v].drop_last()) + seq![v].last().len);
}

proof fn lemma_victims_bytes_first(vs: Seq<Victim>, c: int)
    requires
        0 <= c < vs.len(),
    ensures
        victims_bytes(vs.subrange(c, vs.len() as int)) == vs[c].len + victims_bytes(
            vs.subrange(c + 1, vs.len() as int),
        ),
{
    let rest = vs.subrange(c + 1, vs.len() as int);
    assert(vs.subrange(c, vs.len() as int) =~= seq![vs[c]] + rest);
    lemma_victims_bytes_concat(seq![vs[c]], rest);
    lemma_victims_bytes_single(vs[c]);
}

/// `o` lists, ordered by [`goes_before`], a victim for each position in `s`
/// and no others.
spec fn orders_positions(es: Seq<CacheEntry>, s: Set<int>, o: Seq<Victim>) -> bool {
    &&& forall|k: int| 0 <= k < o.len() ==> describes(es, #[trigger] o[k]) && s.contains(o[k].index as int)
    &&& forall|i: int| s.contains(i) ==> exists|k: int| 0 <= k < o.len() && #[trigger] o[k].index == i
    &&& sorted_by_use(o)
}

proof fn lemma_orders_positions_unique(es: Seq<CacheEntry>, s: Set<int>, o1: Seq<Victim>, o2: Seq<Victim>)
    requires
        orders_positions(es, s, o1),
        orders_positions(es, s, o2),
    ensures
        o1 == o2,
    decreases o1.len(),
{
    if o1.len() == 0 || o2.len() == 0 {
        if o2.len() > 0 {
            assert(s.contains(o2[0].index as int));
        }
        if o1.len() > 0 {
            assert(s.contains(o1[0].index as int));
        }
        assert(o1 =~= o2);
    } else {
        let a = o1[0];
        let b = o2[0];
        assert(s.contains(b.index as int));
        assert(s.contains(a.index as int));
        let j = choose|j: int| 0 <= j < o1.len() && #[trigger] o1[j].index == b.index;
        let k = choose|k: int| 0 <= k < o2.len() && #[trigger] o2[k].index == a.index;
        assert(describes(es, o1[j]) && describes(es, o2[k]));
        assert(o1[j] == b);
        assert(o2[k] == a);
        if j > 0 && k > 0 {
            assert(goes_before(o1[0], o1[j]));
            assert(goes_before(o2[0], o2[k]));
        }
        assert(a == b);
        let s2 = s.remove(a.index as int);
        let t1 = o1.drop_first();
        let t2 = o2.drop_first();
        assert forall|x: int| 0 <= x < t1.len() implies describes(es, #[trigger] t1[x]) && s2.contains(
            t1[x].index as int,
        ) by {
            assert(t1[x] == o1[x + 1]);
            assert(goes_before(o1[0], o1[x + 1]));
        }
        assert forall|x: int| 0 <= x < t2.len() implies describes(es, #[trigger] t2[x]) && s2.contains(
            t2[x].index as int,
        ) by {
            assert(t2[x] == o2[x + 1]);
            assert(goes_before(o2[0], o2[x + 1]));
        }
        assert forall|i: int| s2.contains(i) implies exists|x: int| 0 <= x < t1.len() && #[trigger] t1[x].index == i by {
            let y = choose|y: int| 0 <= y < o1.len() && #[trigger] o1[y].index == i;
            assert(y != 0);
            assert(t1[y - 1].index == i);
        }
        assert forall|i: int| s2.contains(i) implies exists|x: int| 0 <= x < t2.len() && #[trigger] t2[x].index == i by {
            let y = choose|y: int| 0 <= y < o2.len() && #[trigger] o2[y].index == i;
            assert(y != 0);
            assert(t2[y - 1].index == i);
        }
        assert forall|x1: int, x2: int| 0 <= x1 < x2 < t1.len() implies goes_before(#[trigger] t1[x1], #[trigger] t1[x2]) by {
            assert(goes_before(o1[x1 + 1], o1[x2 + 1]));
        }
        assert forall|x1: int, x2: int| 0 <= x1 < x2 < t2.len() implies goes_before(#[trigger] t2[x1], #[trigger] t2[x2]) by {
            assert(goes_before(o2[x1 + 1], o2[x2 + 1]));
        }
        lemma_orders_positions_unique(es, s2, t1, t2);
        assert(o1 =~= o2) by {
            assert forall|x: int| 0 <= x < o1.len() implies o1[x] == o2[x] by {
                if x > 0 {
                    assert(o1[x] == t1[x - 1]);
                    assert(o2[x] == t2[x - 1]);
                }
            }
        }
    }
}

/// The eviction order of a listing is unique: it is the listing's regular
/// files sorted by last use, with ties kept in listing order, as a stable
/// sort leaves them.
pub proof fn lemma_eviction_order_unique(es: Seq<CacheEntry>, o1: Seq<Victim>, o2: Seq<Victim>)
    requires
        is_eviction_order(es, o1),
        is_eviction_order(es, o2),
    ensures
        o1 == o2,
{
    let s = Set::new(|i: int| 0 <= i < es.len() && is_file_entry(es[i]));
    assert forall|i: int| s.contains(i) implies exists|k: int| 0 <= k < o1.len() && #[trigger] o1[k].index == i by {
        assert(is_file_entry(es[i]));
    }
    assert forall|i: int| s.contains(i) implies exists|k: int| 0 <= k < o2.len() && #[trigger] o2[k].index == i by {
        assert(is_file_entry(es[i]));
    }
    assert forall|k: int| 0 <= k < o1.len() implies describes(es, #[trigger] o1[k]) && s.contains(o1[k].index as int) by {
        assert(describes(es, o1[k]));
    }
    assert forall|k: int| 0 <= k < o2.len() implies describes(es, #[trigger] o2[k]) && s.contains(o2[k].index as int) by {
        assert(describes(es, o2[k]));
    }
    lemma_orders_positions_unique(es, s, o1, o2);
}

/// `vs` is ordered by [`goes_before`].
pub open spec fn sorted_by_use(vs: Seq<Victim>) -> bool {
    forall|k1: int, k2: int| 0 <= k1 < k2 < vs.len() ==> goes_before(#[trigger] vs[k1], #[trigger] vs[k2])
}

/// Inserts `v`, which comes later in the listing than every file already
/// ordered, after all files used no later than it.
fn insert_by_use(order: &mut Vec<Victim>, v: Victim)
    requires
        sorted_by_use(old(order)@),
        forall|k: int| 0 <= k < old(order)@.len() ==> #[trigger] old(order)@[k].index < v.index,
    ensures
        sorted_by_use(final(order)@),
        exists|p: int| 0 <= p <= old(order)@.len() && final(order)@ == old(order)@.insert(p, v),
        victims_bytes(final(order)@) == victims_bytes(old(order)@) + v.len,
{
    let mut p: usize = 0;
    while p < order.len() && order[p].last_used <= v.last_used
        invariant
            p <= order@.len(),
            forall|k: int| 0 <= k < p ==> #[trigger] order@[k].last_used <= v.last_used,
        decreases order@.len() - p,
    {
        p = p + 1;
    }
    let ghost old_order = order@;
    proof {
        assert forall|k: int| p <= k < old_order.len() implies #[trigger] old_order[k].last_used
            > v.last_used by {
            if k > p {
                assert(goes_before(old_order[p as int], old_order[k]));
            }
        }
        lemma_victims_bytes_insert(old_order, p as int, v);
    }
    order.insert(p, v);
    proof {
        let s = order@;
        assert(s =~= old_order.insert(p as int, v));
        assert forall|k1: int, k2: int| 0 <= k1 < k2 < s.len() implies goes_before(
            #[trigger] s[k1],
            #[trigger] s[k2],
        ) by {
            if k2 < p {
                assert(s[k1] == old_order[k1] && s[k2] == old_order[k2]);
            } else if k2 == p {
                assert(s[k1] == old_order[k1]);
            } else if k1 < p {
                assert(s[k1] == old_order[k1] && s[k2] == old_order[k2 - 1]);
            } else if k1 == p {
                assert(s[k2] == old_order[k2 - 1]);
            } else {
                assert(s[k1] == old_order[k1 - 1] && s[k2] == old_order[k2 - 1]);
            }
        }
    }
}

/// The removal of least recently used files until the cache fits its limit.
///
/// The caller deletes each victim that [`Evictor::next_victim`] names and
/// reports with [`Evictor::record`] whether the deletion succeeded; a file
/// that could not be deleted still counts toward the total.
pub struct Evictor {
    order: Vec<Victim>,
    next: usize,
    total: u64,
    limit: u64,
    initial: u64,
    removed: usize,
}

impl Evictor {
    /// The files in the order in which they are offered for deletion.
    pub closed spec fn order(&self) -> Seq<Victim> {
        self.order@
    }

    /// How many files have been offered so far.
    pub closed spec fn cursor(&self) -> int {
        self.next as int
    }

    /// The bytes that the cache still holds.
    pub closed spec fn total(&self) -> int {
        self.total as int
    }

    /// The size the cache must come down to.
    pub closed spec fn limit(&self) -> int {
        self.limit as int
    }

    /// The bytes the cache held when eviction started.
    pub closed spec fn initial(&self) -> int {
        self.initial as int
    }

    /// How many files were deleted.
    pub closed spec fn removed(&self) -> int {
        self.removed as int
    }

    /// The eviction's internal consistency: the total counts every file not
    /// yet offered, and, while no deletion has failed, nothing else.
    pub closed spec fn wf(&self) -> bool {
        &&& self.next <= self.order@.len()
        &&& self.removed <= self.next
        &&& self.total <= self.initial
        &&& self.total >= victims_bytes(self.order@.subrange(self.next as int, self.order@.len() as int))
        &&& self.removed == self.next ==> self.total == victims_bytes(
            self.order@.subrange(self.next as int, self.order@.len() as int),
        )
    }

    /// Starts eviction for a cache limit of `limit_mb` mebibytes over the
    /// listed entries. `None` where there is nothing to do: the limit is 0
    /// (no limit) or the regular files already fit.
    pub fn start(entries: &Vec<CacheEntry>, limit_mb: u64) -> (ev: Option<Evictor>)
        requires
            files_bytes(entries@) <= u64::MAX,
            limit_mb * 1048576 <= u64::MAX,
        ensures
            match ev {
                None => limit_mb == 0 || files_bytes(entries@) <= limit_mb * 1048576,
                Some(ev) => {
                    &&& limit_mb != 0
                    &&& files_bytes(entries@) > limit_mb * 1048576
                    &&& ev.wf()
                    &&& is_eviction_order(entries@, ev.order())
                    &&& ev.cursor() == 0
                    &&& ev.removed() == 0
                    &&& ev.total() == files_bytes(entries@)
                    &&& ev.initial() == files_bytes(entries@)
                    &&& ev.limit() == limit_mb * 1048576
                },
            },
    {
        if limit_mb == 0 {
            return None;
        }
        let limit = limit_mb * 1048576;
        let mut order: Vec<Victim> = Vec::new();
        let mut total: u64 = 0;
        let mut i: usize = 0;
        while i < entries.len()
            invariant
                i <= entries@.len(),
                files_bytes(entries@) <= u64::MAX,
                total == files_bytes(entries@.take(i as int)),
                total == victims_bytes(order@),
                forall|k: int|
                    0 <= k < order@.len() ==> describes(entries@, #[trigger] order@[k])
                        && order@[k].index < i,
                forall|j: int|
                    0 <= j < i && is_file_entry(#[trigger] entries@[j]) ==> exists|k: int|
                        0 <= k < order@.len() && order@[k].index == j,
                sorted_by_use(order@),
            decreases entries@.len() - i,
        {
            proof {
                assert(entries@.take(i + 1).drop_last() =~= entries@.take(i as int));
                lemma_files_bytes_prefix(entries@, i + 1);
            }
            match entries[i].meta {
                Some(m) => {
                    if m.is_file {
                        let v = Victim { index: i, len: m.len, last_used: m.last_used };
                        let ghost old_order = order@;
                        insert_by_use(&mut order, v);
                        total = total + m.len;
                        proof {
                            let s = order@;
                            let p = choose|p: int| 0 <= p <= old_order.len() && s == old_order.insert(p, v);
                            assert forall|k: int| 0 <= k < s.len() implies describes(entries@, #[trigger] s[k])
                                && s[k].index < i + 1 by {
                                if k < p {
                                    assert(s[k] == old_order[k]);
                                } else if k > p {
                                    assert(s[k] == old_order[k - 1]);
                                }
                            }
                            assert forall|j: int|
                                0 <= j < i + 1 && is_file_entry(#[trigger] entries@[j]) implies exists|k: int|
                                0 <= k < s.len() && s[k].index == j by {
                                if j == i {
                                    assert(s[p].index == j);
                                } else {
                                    let k = choose|k: int| 0 <= k < old_order.len() && old_order[k].index == j;
                                    if k < p {
                                        assert(s[k].index == j);
                                    } else {
                                        assert(s[k + 1].index == j);
                                    }
                                }
                            }
                        }
                    }
                },
                None => {},
            }
            i = i + 1;
        }
        proof {
            assert(entries@.take(i as int) =~= entries@);
        }
        if total <= limit {
            return None;
        }
        proof {
            assert(order@.subrange(0, order@.len() as int) =~= order@);
        }
        Some(Evictor { order, next: 0, total, limit, initial: total, removed: 0 })
    }

    /// The listing position of the next file to delete, or `None` when the
    /// cache fits its limit or every file has been offered.
    pub fn next_victim(&self) -> (victim: Option<usize>)
        requires
            self.wf(),
        ensures
            victim == (if self.total() > self.limit() && self.cursor() < self.order().len() {
                Some(self.order()[self.cursor()].index)
            } else {
                None::<usize>
            }),
    {
        if self.total > self.limit && self.next < self.order.len() {
            Some(self.order[self.next].index)
        } else {
            None
        }
    }

    /// Records whether the file that [`Evictor::next_victim`] named was
    /// deleted; a deleted file no longer counts toward the total.
    pub fn record(&mut self, deleted: bool)
        requires
            old(self).wf(),
            old(self).total() > old(self).limit(),
            old(self).cursor() < old(self).order().len(),
        ensures
            final(self).wf(),
            final(self).order() == old(self).order(),
            final(self).limit() == old(self).limit(),
            final(self).initial() == old(self).initial(),
            final(self).cursor() == old(self).cursor() + 1,
            final(self).total() == old(self).total() - (if deleted {
                old(self).order()[old(self).cursor()].len as int
            } else {
                0
            }),
            final(self).removed() == old(self).removed() + (if deleted {
                1int
            } else {
                0
            }),
    {
        proof {
            lemma_victims_bytes_first(self.order@, self.next as int);
            assert(self.order.len() == self.order@.len());
            lemma_victims_bytes_nonneg(self.order@.subrange(self.next + 1, self.order@.len() as int));
        }
        if deleted {
            self.total = self.total - self.order[self.next].len;
            self.removed = self.removed + 1;
        }
        self.next = self.next + 1;
    }

    /// Where every deletion succeeded, eviction ends with the cache within
    /// its limit: once no victim is left to offer, the total fits.
    pub proof fn lemma_fits_when_deletions_succeed(&self)
        requires
            self.wf(),
            self.removed() == self.cursor(),
            !(self.total() > self.limit() && self.cursor() < self.order().len()),
        ensures
            self.total() <= self.limit(),
    {
        if self.total > self.limit {
            assert(self.order@.subrange(self.next as int, self.order@.len() as int) =~= Seq::<Victim>::empty());
        }
    }

    /// How many files were deleted.
    pub fn removed_count(&self) -> (n: usize)
        ensures
            n == self.removed(),
    {
        self.removed
    }

    /// How many bytes the deletions freed.
    pub fn freed_bytes(&self) -> (b: u64)
        requires
            self.wf(),
        ensures
            b == self.initial() - self.total(),
    {
        self.initial - self.total
    }
}

} // verus!
