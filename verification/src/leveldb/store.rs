use crate::common::binary::bytes_to_vec;
use crate::common::text::bytes_equal;
use vstd::prelude::*;

verus! {

/// Lexicographic order of byte strings: the first differing byte decides,
/// and a proper prefix comes first.
pub open spec fn bytes_lt(a: Seq<u8>, b: Seq<u8>) -> bool
    decreases a.len(),
{
    if a.len() == 0 {
        b.len() > 0
    } else if b.len() == 0 {
        false
    } else if a[0] != b[0] {
        a[0] < b[0]
    } else {
        bytes_lt(a.drop_first(), b.drop_first())
    }
}

proof fn lemma_bytes_lt_irreflexive(a: Seq<u8>)
    ensures
        !bytes_lt(a, a),
    decreases a.len(),
{
    if a.len() > 0 {
        lemma_bytes_lt_irreflexive(a.drop_first());
    }
}

proof fn lemma_bytes_lt_total(a: Seq<u8>, b: Seq<u8>)
    ensures
        a != b ==> bytes_lt(a, b) || bytes_lt(b, a),
        bytes_lt(a, b) ==> !bytes_lt(b, a),
    decreases a.len(),
{
    if a.len() == 0 && b.len() == 0 {
        assert(a =~= b);
    }
    if a.len() > 0 && b.len() > 0 && a[0] == b[0] {
        lemma_bytes_lt_total(a.drop_first(), b.drop_first());
        if a != b {
            assert(a.drop_first() != b.drop_first()) by {
                if a.drop_first() == b.drop_first() {
                    assert(a =~= seq![a[0]] + a.drop_first());
                    assert(b =~= seq![b[0]] + b.drop_first());
                }
            }
        }
    }
}

proof fn lemma_bytes_lt_transitive(a: Seq<u8>, b: Seq<u8>, c: Seq<u8>)
    ensures
        bytes_lt(a, b) && bytes_lt(b, c) ==> bytes_lt(a, c),
    decreases a.len(),
{
    if a.len() > 0 && b.len() > 0 && c.len() > 0 && a[0] == b[0] && b[0] == c[0] {
        lemma_bytes_lt_transitive(a.drop_first(), b.drop_first(), c.drop_first());
    }
}

/// The order is irreflexive and transitive, and any two distinct strings
/// are ordered one way or the other.
pub proof fn lemma_bytes_lt_order(a: Seq<u8>, b: Seq<u8>, c: Seq<u8>)
    ensures
        !bytes_lt(a, a),
        bytes_lt(a, b) && bytes_lt(b, c) ==> bytes_lt(a, c),
        a != b ==> bytes_lt(a, b) || bytes_lt(b, a),
        bytes_lt(a, b) ==> !bytes_lt(b, a),
{
    lemma_bytes_lt_irreflexive(a);
    lemma_bytes_lt_total(a, b);
    lemma_bytes_lt_transitive(a, b, c);
}

/// Three-way comparison of byte strings in the order [`bytes_lt`]:
/// negative, zero or positive as `a` comes before, equals or follows `b`.
pub fn compare_bytes(a: &[u8], b: &[u8]) -> (r: i8)
    ensures
        r < 0 <==> bytes_lt(a@, b@),
        r == 0 <==> a@ == b@,
        r > 0 <==> bytes_lt(b@, a@),
{
    proof {
        lemma_bytes_lt_order(a@, b@, b@);
        lemma_bytes_lt_order(b@, a@, a@);
    }
    let mut i: usize = 0;
    assert(a@.skip(0) =~= a@);
    assert(b@.skip(0) =~= b@);
    while i < a.len() && i < b.len()
        invariant
            i <= a@.len(),
            i <= b@.len(),
            a@.take(i as int) == b@.take(i as int),
            bytes_lt(a@, b@) == bytes_lt(a@.skip(i as int), b@.skip(i as int)),
            bytes_lt(b@, a@) == bytes_lt(b@.skip(i as int), a@.skip(i as int)),
        decreases a@.len() - i,
    {
        if a[i] != b[i] {
            assert(a@.skip(i as int)[0] == a@[i as int]);
            assert(b@.skip(i as int)[0] == b@[i as int]);
            proof {
                if a@ == b@ {
                    assert(a@[i as int] == b@[i as int]);
                }
            }
            if a[i] < b[i] {
                return -1;
            } else {
                return 1;
            }
        }
        assert(a@.skip(i as int).drop_first() =~= a@.skip(i + 1));
        assert(b@.skip(i as int).drop_first() =~= b@.skip(i + 1));
        i = i + 1;
        assert(a@.take(i as int) =~= a@.take(i - 1).push(a@[i - 1]));
        assert(b@.take(i as int) =~= b@.take(i - 1).push(b@[i - 1]));
    }
    if i == a.len() && i == b.len() {
        assert(a@ =~= a@.take(i as int));
        assert(b@ =~= b@.take(i as int));
        0
    } else if i == a.len() {
        assert(a@.skip(i as int).len() == 0);
        proof {
            if a@ == b@ {
                assert(a@.len() == b@.len());
            }
        }
        -1
    } else {
        assert(b@.skip(i as int).len() == 0);
        proof {
            if a@ == b@ {
                assert(a@.len() == b@.len());
            }
        }
        1
    }
}

/// Keys of `s` strictly increase.
pub open spec fn strictly_sorted(s: Seq<(Vec<u8>, Vec<u8>)>) -> bool {
    forall|i: int, j: int| 0 <= i < j < s.len() ==> bytes_lt(#[trigger] s[i].0@, #[trigger] s[j].0@)
}

/// Some entry of `s` has key `k`.
pub open spec fn has_key(s: Seq<(Vec<u8>, Vec<u8>)>, k: Seq<u8>) -> bool {
    exists|i: int| 0 <= i < s.len() && s[i].0@ == k
}

/// The map the entries of `s` stand for.
pub open spec fn entries_map(s: Seq<(Vec<u8>, Vec<u8>)>) -> Map<Seq<u8>, Seq<u8>> {
    Map::new(
        |k: Seq<u8>| has_key(s, k),
        |k: Seq<u8>| s[choose|i: int| 0 <= i < s.len() && s[i].0@ == k].1@,
    )
}

proof fn lemma_entry_value(s: Seq<(Vec<u8>, Vec<u8>)>, i: int)
    requires
        strictly_sorted(s),
        0 <= i < s.len(),
    ensures
        entries_map(s).contains_key(s[i].0@),
        entries_map(s)[s[i].0@] == s[i].1@,
{
    let k = s[i].0@;
    assert(has_key(s, k));
    let j = choose|j: int| 0 <= j < s.len() && s[j].0@ == k;
    lemma_bytes_lt_irreflexive(k);
    if j < i {
        lemma_bytes_lt_order(s[j].0@, s[i].0@, s[i].0@);
        assert(bytes_lt(s[j].0@, s[i].0@));
    } else if i < j {
        lemma_bytes_lt_order(s[i].0@, s[j].0@, s[j].0@);
        assert(bytes_lt(s[i].0@, s[j].0@));
    }
}

/// A map from byte-string keys to byte-string values, kept as a vector of
/// entries in increasing key order.
///
/// A vector rather than a `HashMap`: vstd specifies `HashMap` lookups only
/// for keys that obey its key model (integers, `bool` and boxes of them),
/// so with byte-string keys nothing about a lookup could be proved. Keeping
/// the keys sorted gives lookups by binary search, and whole table files are
/// merged in one pass ([`EntryStore::insert_batch`]).
pub struct EntryStore {
    entries: Vec<(Vec<u8>, Vec<u8>)>,
}

impl View for EntryStore {
    type V = Map<Seq<u8>, Seq<u8>>;

    closed spec fn view(&self) -> Map<Seq<u8>, Seq<u8>> {
        entries_map(self.entries@)
    }
}

impl EntryStore {
    #[verifier::type_invariant]
    closed spec fn sorted(&self) -> bool {
        strictly_sorted(self.entries@)
    }

    /// The entries, in increasing key order.
    pub closed spec fn entries(&self) -> Seq<(Vec<u8>, Vec<u8>)> {
        self.entries@
    }

    pub fn new() -> (res: Self)
        ensures
            res@ == Map::<Seq<u8>, Seq<u8>>::empty(),
    {
        let res = Self { entries: Vec::new() };
        assert(res@ =~= Map::<Seq<u8>, Seq<u8>>::empty());
        res
    }

    /// Number of entries; the keys of the map are those of the entries.
    pub fn len(&self) -> (res: usize)
        ensures
            res == self.entries().len(),
            forall|k: Seq<u8>| #[trigger] self@.contains_key(k) <==> has_key(self.entries(), k),
    {
        self.entries.len()
    }

    /// The entry at position `i` in key order.
    pub fn entry_at(&self, i: usize) -> (res: (&Vec<u8>, &Vec<u8>))
        requires
            i < self.entries().len(),
        ensures
            *res.0 == self.entries()[i as int].0,
            *res.1 == self.entries()[i as int].1,
            self@.contains_key(res.0@),
            self@[res.0@] == res.1@,
    {
        proof {
            use_type_invariant(self);
            lemma_entry_value(self.entries@, i as int);
        }
        (&self.entries[i].0, &self.entries[i].1)
    }

    /// Where `key` is or would go: `Ok(i)` when entry `i` has the key,
    /// `Err(p)` when the entries before `p` are smaller and those from `p`
    /// on are larger.
    fn search(&self, key: &[u8]) -> (res: core::result::Result<usize, usize>)
        ensures
            match res {
                Ok(i) => i < self.entries@.len() && self.entries@[i as int].0@ == key@,
                Err(p) => p <= self.entries@.len() && (forall|i: int|
                    0 <= i < p ==> bytes_lt(#[trigger] self.entries@[i].0@, key@)) && (forall|i: int|
                    p <= i < self.entries@.len() ==> bytes_lt(key@, #[trigger] self.entries@[i].0@)),
            },
    {
        proof {
            use_type_invariant(self);
        }
        let mut lo: usize = 0;
        let mut hi: usize = self.entries.len();
        while lo < hi
            invariant
                lo <= hi <= self.entries@.len(),
                strictly_sorted(self.entries@),
                forall|i: int| 0 <= i < lo ==> bytes_lt(#[trigger] self.entries@[i].0@, key@),
                forall|i: int| hi <= i < self.entries@.len() ==> bytes_lt(key@, #[trigger] self.entries@[i].0@),
            decreases hi - lo,
        {
            let mid = lo + (hi - lo) / 2;
            let c = compare_bytes(self.entries[mid].0.as_slice(), key);
            if c == 0 {
                return Ok(mid);
            } else if c < 0 {
                proof {
                    assert forall|i: int| 0 <= i <= mid implies bytes_lt(#[trigger] self.entries@[i].0@, key@) by {
                        if i < mid {
                            lemma_bytes_lt_order(self.entries@[i].0@, self.entries@[mid as int].0@, key@);
                        }
                    }
                }
                lo = mid + 1;
            } else {
                proof {
                    assert forall|i: int| mid <= i < self.entries@.len() implies bytes_lt(key@, #[trigger] self.entries@[i].0@) by {
                        if mid < i {
                            lemma_bytes_lt_order(key@, self.entries@[mid as int].0@, self.entries@[i].0@);
                        }
                    }
                }
                hi = mid;
            }
        }
        Err(lo)
    }

    /// The value stored under `key`.
    pub fn get(&self, key: &[u8]) -> (res: Option<&Vec<u8>>)
        ensures
            res is Some <==> self@.contains_key(key@),
            res matches Some(v) ==> v@ == self@[key@],
    {
        proof {
            use_type_invariant(self);
        }
        match self.search(key) {
            Ok(i) => {
                proof {
                    lemma_entry_value(self.entries@, i as int);
                }
                Some(&self.entries[i].1)
            },
            Err(p) => {
                proof {
                    if has_key(self.entries@, key@) {
                        let j = choose|j: int| 0 <= j < self.entries@.len() && self.entries@[j].0@ == key@;
                        lemma_bytes_lt_order(key@, key@, key@);
                        if j < p {
                            assert(bytes_lt(self.entries@[j].0@, key@));
                        } else {
                            assert(bytes_lt(key@, self.entries@[j].0@));
                        }
                    }
                }
                None
            },
        }
    }

    /// Stores `value` under `key`, replacing any earlier value.
    pub fn insert(&mut self, key: Vec<u8>, value: Vec<u8>)
        ensures
            final(self)@ == old(self)@.insert(key@, value@),
    {
        proof {
            use_type_invariant(&*self);
        }
        let ghost k = key@;
        let ghost v = value@;
        let ghost old_s = self.entries@;
        match self.search(key.as_slice()) {
            Ok(i) => {
                let ghost new_s = old_s.update(i as int, (key, value));
                proof {
                    assert forall|a: int, b: int| 0 <= a < b < new_s.len() implies bytes_lt(
                        #[trigger] new_s[a].0@,
                        #[trigger] new_s[b].0@,
                    ) by {
                        assert(bytes_lt(old_s[a].0@, old_s[b].0@));
                    }
                    assert forall|kk: Seq<u8>| entries_map(new_s).contains_key(kk) == entries_map(old_s).insert(k, v).contains_key(kk) by {
                        if has_key(old_s, kk) {
                            let j = choose|j: int| 0 <= j < old_s.len() && old_s[j].0@ == kk;
                            assert(new_s[j].0@ == kk);
                        }
                        if has_key(new_s, kk) {
                            let j = choose|j: int| 0 <= j < new_s.len() && new_s[j].0@ == kk;
                            assert(old_s[j].0@ == kk);
                        }
                        assert(new_s[i as int].0@ == k);
                    }
                    assert forall|kk: Seq<u8>| entries_map(new_s).contains_key(kk) implies entries_map(new_s)[kk]
                        == entries_map(old_s).insert(k, v)[kk] by {
                        let j = choose|j: int| 0 <= j < new_s.len() && new_s[j].0@ == kk;
                        lemma_entry_value(new_s, j);
                        if kk != k {
                            lemma_entry_value(old_s, j);
                        } else {
                            lemma_entry_value(new_s, i as int);
                        }
                    }
                    assert(entries_map(new_s) =~= entries_map(old_s).insert(k, v));
                }
                let mut entries: Vec<(Vec<u8>, Vec<u8>)> = Vec::new();
                std::mem::swap(&mut entries, &mut self.entries);
                entries.set(i, (key, value));
                self.entries = entries;
            },
            Err(p) => {
                let ghost new_s = old_s.insert(p as int, (key, value));
                proof {
                    assert forall|a: int, b: int| 0 <= a < b < new_s.len() implies bytes_lt(
                        #[trigger] new_s[a].0@,
                        #[trigger] new_s[b].0@,
                    ) by {
                        if b < p {
                            assert(bytes_lt(old_s[a].0@, old_s[b].0@));
                        } else if b == p {
                            assert(bytes_lt(old_s[a].0@, k));
                        } else if a < p {
                            assert(bytes_lt(old_s[a].0@, k));
                            assert(bytes_lt(k, old_s[b - 1].0@));
                            lemma_bytes_lt_order(old_s[a].0@, k, old_s[b - 1].0@);
                        } else if a == p {
                            assert(bytes_lt(k, old_s[b - 1].0@));
                        } else {
                            assert(bytes_lt(old_s[a - 1].0@, old_s[b - 1].0@));
                        }
                    }
                    assert forall|kk: Seq<u8>| entries_map(new_s).contains_key(kk) == entries_map(old_s).insert(k, v).contains_key(kk) by {
                        if has_key(old_s, kk) {
                            let j = choose|j: int| 0 <= j < old_s.len() && old_s[j].0@ == kk;
                            if j < p {
                                assert(new_s[j].0@ == kk);
                            } else {
                                assert(new_s[j + 1].0@ == kk);
                            }
                        }
                        if has_key(new_s, kk) {
                            let j = choose|j: int| 0 <= j < new_s.len() && new_s[j].0@ == kk;
                            if j < p {
                                assert(old_s[j].0@ == kk);
                            } else if j > p {
                                assert(old_s[j - 1].0@ == kk);
                            }
                        }
                        assert(new_s[p as int].0@ == k);
                    }
                    assert forall|kk: Seq<u8>| entries_map(new_s).contains_key(kk) implies entries_map(new_s)[kk]
                        == entries_map(old_s).insert(k, v)[kk] by {
                        let j = choose|j: int| 0 <= j < new_s.len() && new_s[j].0@ == kk;
                        lemma_entry_value(new_s, j);
                        if j < p {
                            lemma_entry_value(old_s, j);
                            lemma_bytes_lt_order(kk, k, k);
                        } else if j > p {
                            lemma_entry_value(old_s, j - 1);
                            lemma_bytes_lt_order(k, kk, kk);
                        }
                    }
                    assert(entries_map(new_s) =~= entries_map(old_s).insert(k, v));
                }
                let mut entries: Vec<(Vec<u8>, Vec<u8>)> = Vec::new();
                std::mem::swap(&mut entries, &mut self.entries);
                entries.insert(p, (key, value));
                self.entries = entries;
            },
        }
    }
}

/// An entry of a table block or of a batch of writes: a key and a value.
pub type KeyValue = (Seq<u8>, Seq<u8>);

/// The mathematical entries of a vector of key-value pairs.
pub open spec fn pairs_view(v: Seq<(Vec<u8>, Vec<u8>)>) -> Seq<KeyValue> {
    v.map_values(|p: (Vec<u8>, Vec<u8>)| (p.0@, p.1@))
}

/// The map after inserting `entries` in order.
pub open spec fn insert_all(m: Map<Seq<u8>, Seq<u8>>, entries: Seq<KeyValue>) -> Map<Seq<u8>, Seq<u8>>
    decreases entries.len(),
{
    if entries.len() == 0 {
        m
    } else {
        insert_all(m, entries.drop_last()).insert(entries.last().0, entries.last().1)
    }
}

/// The map that writing `b` in order into an empty store gives.
pub open spec fn batch_map(b: Seq<(Vec<u8>, Vec<u8>)>) -> Map<Seq<u8>, Seq<u8>> {
    insert_all(Map::empty(), pairs_view(b))
}

/// Keys of `s` never decrease.
pub open spec fn keys_nondecreasing(s: Seq<(Vec<u8>, Vec<u8>)>) -> bool {
    forall|i: int, j: int| 0 <= i < j < s.len() ==> !bytes_lt(#[trigger] s[j].0@, #[trigger] s[i].0@)
}

/// Keys of `s` strictly decrease.
spec fn strictly_descending(s: Seq<(Vec<u8>, Vec<u8>)>) -> bool {
    forall|i: int, j: int| 0 <= i < j < s.len() ==> bytes_lt(#[trigger] s[j].0@, #[trigger] s[i].0@)
}

/// No two entries of `s` share a key.
spec fn distinct_keys(s: Seq<(Vec<u8>, Vec<u8>)>) -> bool {
    forall|i: int, j: int| 0 <= i < s.len() && 0 <= j < s.len() && i != j ==> #[trigger] s[i].0@ != #[trigger] s[j].0@
}

proof fn lemma_ordered_distinct(s: Seq<(Vec<u8>, Vec<u8>)>)
    requires
        strictly_sorted(s) || strictly_descending(s),
    ensures
        distinct_keys(s),
{
    assert forall|i: int, j: int| 0 <= i < s.len() && 0 <= j < s.len() && i != j implies #[trigger] s[i].0@
        != #[trigger] s[j].0@ by {
        lemma_bytes_lt_irreflexive(s[i].0@);
        if i < j {
            if strictly_sorted(s) {
                assert(bytes_lt(s[i].0@, s[j].0@));
            } else {
                assert(bytes_lt(s[j].0@, s[i].0@));
            }
        } else {
            if strictly_sorted(s) {
                assert(bytes_lt(s[j].0@, s[i].0@));
            } else {
                assert(bytes_lt(s[i].0@, s[j].0@));
            }
        }
    }
}

proof fn lemma_distinct_value(s: Seq<(Vec<u8>, Vec<u8>)>, i: int)
    requires
        distinct_keys(s),
        0 <= i < s.len(),
    ensures
        entries_map(s).contains_key(s[i].0@),
        entries_map(s)[s[i].0@] == s[i].1@,
{
    let k = s[i].0@;
    assert(has_key(s, k));
    let j = choose|j: int| 0 <= j < s.len() && s[j].0@ == k;
    assert(s[i].0@ == s[j].0@);
}

proof fn lemma_entries_push(s: Seq<(Vec<u8>, Vec<u8>)>, e: (Vec<u8>, Vec<u8>))
    requires
        distinct_keys(s.push(e)),
    ensures
        distinct_keys(s),
        entries_map(s.push(e)) == entries_map(s).insert(e.0@, e.1@),
{
    let t = s.push(e);
    assert forall|i: int, j: int| 0 <= i < s.len() && 0 <= j < s.len() && i != j implies #[trigger] s[i].0@
        != #[trigger] s[j].0@ by {
        assert(s[i] == t[i] && s[j] == t[j]);
    }
    assert forall|kk: Seq<u8>| #[trigger] entries_map(t).contains_key(kk) == entries_map(s).insert(e.0@, e.1@).contains_key(kk) by {
        if has_key(s, kk) {
            let j = choose|j: int| 0 <= j < s.len() && s[j].0@ == kk;
            assert(t[j].0@ == kk);
        }
        if has_key(t, kk) && kk != e.0@ {
            let j = choose|j: int| 0 <= j < t.len() && t[j].0@ == kk;
            assert(s[j].0@ == kk);
        }
        assert(t[s.len() as int].0@ == e.0@);
    }
    assert forall|kk: Seq<u8>| entries_map(t).contains_key(kk) implies #[trigger] entries_map(t)[kk]
        == entries_map(s).insert(e.0@, e.1@)[kk] by {
        let j = choose|j: int| 0 <= j < t.len() && t[j].0@ == kk;
        lemma_distinct_value(t, j);
        if j < s.len() {
            assert(s[j] == t[j]);
            lemma_distinct_value(s, j);
            assert(t[s.len() as int].0@ != t[j].0@);
        }
    }
    assert(entries_map(t) =~= entries_map(s).insert(e.0@, e.1@));
}

proof fn lemma_batch_pop(b: Seq<(Vec<u8>, Vec<u8>)>)
    requires
        b.len() > 0,
    ensures
        batch_map(b) == batch_map(b.drop_last()).insert(b.last().0@, b.last().1@),
{
    assert(pairs_view(b).drop_last() =~= pairs_view(b.drop_last()));
}

proof fn lemma_batch_keys(b: Seq<(Vec<u8>, Vec<u8>)>, k: Seq<u8>)
    ensures
        batch_map(b).contains_key(k) <==> has_key(b, k),
    decreases b.len(),
{
    if b.len() > 0 {
        lemma_batch_pop(b);
        lemma_batch_keys(b.drop_last(), k);
        if has_key(b, k) && k != b.last().0@ {
            let j = choose|j: int| 0 <= j < b.len() && b[j].0@ == k;
            assert(b.drop_last()[j].0@ == k);
        }
        if has_key(b.drop_last(), k) {
            let j = choose|j: int| 0 <= j < b.len() - 1 && b.drop_last()[j].0@ == k;
            assert(b[j].0@ == k);
        }
        assert(b[b.len() - 1].0@ == b.last().0@);
    } else {
        assert(pairs_view(b) =~= Seq::<KeyValue>::empty());
    }
}

/// Inserting entries one by one is overlaying the map they make on their
/// own.
proof fn lemma_insert_all_overlay(m: Map<Seq<u8>, Seq<u8>>, s: Seq<KeyValue>)
    ensures
        insert_all(m, s) == m.union_prefer_right(insert_all(Map::empty(), s)),
    decreases s.len(),
{
    if s.len() > 0 {
        lemma_insert_all_overlay(m, s.drop_last());
        assert(insert_all(m, s) =~= m.union_prefer_right(insert_all(Map::empty(), s)));
    } else {
        assert(m.union_prefer_right(Map::empty()) =~= m);
    }
}

proof fn lemma_overlay_insert_left(
    x: Map<Seq<u8>, Seq<u8>>,
    y: Map<Seq<u8>, Seq<u8>>,
    z: Map<Seq<u8>, Seq<u8>>,
    k: Seq<u8>,
    v: Seq<u8>,
)
    requires
        !y.contains_key(k),
        !z.contains_key(k),
    ensures
        x.insert(k, v).union_prefer_right(y).union_prefer_right(z) == x.union_prefer_right(y).union_prefer_right(
            z.insert(k, v),
        ),
{
    assert(x.insert(k, v).union_prefer_right(y).union_prefer_right(z) =~= x.union_prefer_right(y).union_prefer_right(
        z.insert(k, v),
    ));
}

proof fn lemma_overlay_insert_mid(
    x: Map<Seq<u8>, Seq<u8>>,
    y: Map<Seq<u8>, Seq<u8>>,
    z: Map<Seq<u8>, Seq<u8>>,
    k: Seq<u8>,
    v: Seq<u8>,
)
    requires
        !z.contains_key(k),
    ensures
        x.union_prefer_right(y.insert(k, v)).union_prefer_right(z) == x.union_prefer_right(y).union_prefer_right(
            z.insert(k, v),
        ),
{
    assert(x.union_prefer_right(y.insert(k, v)).union_prefer_right(z) =~= x.union_prefer_right(y).union_prefer_right(
        z.insert(k, v),
    ));
}

proof fn lemma_overlay_insert_shadowed(
    x: Map<Seq<u8>, Seq<u8>>,
    y: Map<Seq<u8>, Seq<u8>>,
    z: Map<Seq<u8>, Seq<u8>>,
    k: Seq<u8>,
    v: Seq<u8>,
)
    requires
        z.contains_key(k),
    ensures
        x.union_prefer_right(y.insert(k, v)).union_prefer_right(z) == x.union_prefer_right(y).union_prefer_right(z),
{
    assert(x.union_prefer_right(y.insert(k, v)).union_prefer_right(z) =~= x.union_prefer_right(y).union_prefer_right(
        z,
    ));
}

proof fn lemma_overlay_insert_both(
    x: Map<Seq<u8>, Seq<u8>>,
    y: Map<Seq<u8>, Seq<u8>>,
    z: Map<Seq<u8>, Seq<u8>>,
    k: Seq<u8>,
    v: Seq<u8>,
    w: Seq<u8>,
)
    requires
        !z.contains_key(k),
    ensures
        x.insert(k, w).union_prefer_right(y.insert(k, v)).union_prefer_right(z) == x.union_prefer_right(
            y,
        ).union_prefer_right(z.insert(k, v)),
{
    assert(x.insert(k, w).union_prefer_right(y.insert(k, v)).union_prefer_right(z) =~= x.union_prefer_right(
        y,
    ).union_prefer_right(z.insert(k, v)));
}

/// `k` is smaller than every key of `r`.
spec fn below_all(k: Seq<u8>, r: Seq<(Vec<u8>, Vec<u8>)>) -> bool {
    forall|i: int| 0 <= i < r.len() ==> bytes_lt(k, #[trigger] r[i].0@)
}

proof fn lemma_below_last_of_descending(k: Seq<u8>, r: Seq<(Vec<u8>, Vec<u8>)>)
    requires
        strictly_descending(r),
        r.len() > 0,
        bytes_lt(k, r.last().0@),
    ensures
        below_all(k, r),
        !has_key(r, k),
{
    assert forall|i: int| 0 <= i < r.len() implies bytes_lt(k, #[trigger] r[i].0@) by {
        if i < r.len() - 1 {
            assert(bytes_lt(r[r.len() - 1].0@, r[i].0@));
            lemma_bytes_lt_order(k, r.last().0@, r[i].0@);
        }
    }
    if has_key(r, k) {
        let j = choose|j: int| 0 <= j < r.len() && r[j].0@ == k;
        lemma_bytes_lt_irreflexive(k);
        assert(bytes_lt(k, r[j].0@));
    }
}

/// Merges a strictly increasing run of entries with a non-decreasing batch
/// of writes: the result is strictly increasing and stands for the
/// entries overlaid with the batch, a later write of a key winning over an
/// earlier one. Entries are moved, not copied.
fn merge_entries(a: Vec<(Vec<u8>, Vec<u8>)>, b: Vec<(Vec<u8>, Vec<u8>)>) -> (out: Vec<(Vec<u8>, Vec<u8>)>)
    requires
        strictly_sorted(a@),
        keys_nondecreasing(b@),
    ensures
        strictly_sorted(out@),
        entries_map(out@) == entries_map(a@).union_prefer_right(batch_map(b@)),
{
    let ghost a0 = a@;
    let ghost b0 = b@;
    let ghost target = entries_map(a0).union_prefer_right(batch_map(b0));
    let mut a = a;
    let mut b = b;
    let mut rev: Vec<(Vec<u8>, Vec<u8>)> = Vec::new();
    proof {
        assert(a@.take(a@.len() as int) =~= a@);
        assert(b@.take(b@.len() as int) =~= b@);
        assert(entries_map(rev@) =~= Map::<Seq<u8>, Seq<u8>>::empty());
        assert(target.union_prefer_right(Map::empty()) =~= target);
    }
    while a.len() > 0 || b.len() > 0
        invariant
            a@.len() <= a0.len(),
            b@.len() <= b0.len(),
            a@ == a0.take(a@.len() as int),
            b@ == b0.take(b@.len() as int),
            strictly_sorted(a0),
            keys_nondecreasing(b0),
            strictly_descending(rev@),
            rev@.len() > 0 ==> forall|k: int| 0 <= k < a@.len() ==> bytes_lt(#[trigger] a@[k].0@, rev@.last().0@),
            rev@.len() > 0 ==> forall|k: int| 0 <= k < b@.len() ==> !bytes_lt(rev@.last().0@, #[trigger] b@[k].0@),
            target == entries_map(a@).union_prefer_right(batch_map(b@)).union_prefer_right(entries_map(rev@)),
        decreases a@.len() + b@.len(),
    {
        let ghost aa = a@;
        let ghost bb = b@;
        let ghost rr = rev@;
        proof {
            assert(strictly_sorted(aa)) by {
                assert forall|i: int, j: int| 0 <= i < j < aa.len() implies bytes_lt(#[trigger] aa[i].0@, #[trigger] aa[j].0@) by {
                    assert(aa[i] == a0[i] && aa[j] == a0[j]);
                }
            }
            assert(keys_nondecreasing(bb)) by {
                assert forall|i: int, j: int| 0 <= i < j < bb.len() implies !bytes_lt(#[trigger] bb[j].0@, #[trigger] bb[i].0@) by {
                    assert(bb[i] == b0[i] && bb[j] == b0[j]);
                }
            }
            lemma_ordered_distinct(aa);
            lemma_ordered_distinct(rr);
        }
        let from_a: bool;
        let from_b: bool;
        if b.len() == 0 {
            from_a = true;
            from_b = false;
        } else if a.len() == 0 {
            from_a = false;
            from_b = true;
        } else {
            let c = compare_bytes(a[a.len() - 1].0.as_slice(), b[b.len() - 1].0.as_slice());
            from_a = c >= 0;
            from_b = c <= 0;
        }
        if from_a && !from_b {
            let e = a.pop().unwrap();
            proof {
                assert(aa.drop_last() =~= a@);
                assert(aa == a@.push(e));
                lemma_entries_push(a@, e);
                // every key of the batch is below e
                assert forall|k: int| 0 <= k < bb.len() implies bytes_lt(#[trigger] bb[k].0@, e.0@) by {
                    let last = bb[bb.len() - 1].0@;
                    lemma_bytes_lt_order(bb[k].0@, last, e.0@);
                    if k < bb.len() - 1 {
                        assert(!bytes_lt(last, bb[k].0@));
                    }
                }
                if batch_map(bb).contains_key(e.0@) {
                    lemma_batch_keys(bb, e.0@);
                    let j = choose|j: int| 0 <= j < bb.len() && bb[j].0@ == e.0@;
                    lemma_bytes_lt_irreflexive(e.0@);
                    assert(bytes_lt(bb[j].0@, e.0@));
                }
                if rr.len() > 0 {
                    assert(bytes_lt(aa[aa.len() - 1].0@, rr.last().0@));
                    lemma_below_last_of_descending(e.0@, rr);
                } else {
                    assert(!has_key(rr, e.0@));
                }
                assert(!entries_map(rr).contains_key(e.0@));
                lemma_overlay_insert_left(entries_map(a@), batch_map(bb), entries_map(rr), e.0@, e.1@);
                assert forall|k: int| 0 <= k < a@.len() implies bytes_lt(#[trigger] a@[k].0@, e.0@) by {
                    assert(a@[k] == aa[k]);
                }
                assert forall|k: int| 0 <= k < bb.len() implies !bytes_lt(e.0@, #[trigger] bb[k].0@) by {
                    lemma_bytes_lt_order(bb[k].0@, e.0@, e.0@);
                }
                assert forall|i: int, j: int| 0 <= i < j < rr.len() + 1 implies bytes_lt(
                    #[trigger] rr.push(e)[j].0@,
                    #[trigger] rr.push(e)[i].0@,
                ) by {
                    if j == rr.len() {
                        assert(below_all(e.0@, rr) || rr.len() == 0);
                    }
                }
            }
            rev.push(e);
            proof {
                assert(a@ == a0.take(a@.len() as int));
                lemma_ordered_distinct(rev@);
                lemma_entries_push(rr, e);
            }
        } else if from_b && !from_a {
            let e = b.pop().unwrap();
            proof {
                assert(bb.drop_last() =~= b@);
                assert(bb.last() == e);
                lemma_batch_pop(bb);
            }
            let dup = rev.len() > 0 && bytes_equal(rev[rev.len() - 1].0.as_slice(), e.0.as_slice());
            if dup {
                proof {
                    lemma_distinct_value(rr, rr.len() - 1);
                    lemma_overlay_insert_shadowed(entries_map(a@), batch_map(b@), entries_map(rr), e.0@, e.1@);
                    assert(b@ == b0.take(b@.len() as int));
                    assert forall|k: int| 0 <= k < b@.len() implies !bytes_lt(rev@.last().0@, #[trigger] b@[k].0@) by {
                        assert(b@[k] == bb[k]);
                    }
                }
            } else {
                proof {
                    // e is below every key of rev and above every key of a
                    if rr.len() > 0 {
                        assert(!bytes_lt(rr.last().0@, bb[bb.len() - 1].0@));
                        lemma_bytes_lt_order(e.0@, rr.last().0@, rr.last().0@);
                        lemma_below_last_of_descending(e.0@, rr);
                    } else {
                        assert(!has_key(rr, e.0@));
                    }
                    assert(!entries_map(rr).contains_key(e.0@));
                    lemma_overlay_insert_mid(entries_map(aa), batch_map(b@), entries_map(rr), e.0@, e.1@);
                    assert forall|k: int| 0 <= k < aa.len() implies bytes_lt(#[trigger] aa[k].0@, e.0@) by {
                        let last = aa[aa.len() - 1].0@;
                        if k < aa.len() - 1 {
                            assert(bytes_lt(aa[k].0@, last));
                        }
                        lemma_bytes_lt_order(aa[k].0@, last, e.0@);
                    }
                    assert forall|k: int| 0 <= k < b@.len() implies !bytes_lt(e.0@, #[trigger] b@[k].0@) by {
                        assert(b@[k] == bb[k]);
                        assert(!bytes_lt(bb[bb.len() - 1].0@, bb[k].0@));
                    }
                    assert forall|i: int, j: int| 0 <= i < j < rr.len() + 1 implies bytes_lt(
                        #[trigger] rr.push(e)[j].0@,
                        #[trigger] rr.push(e)[i].0@,
                    ) by {
                        if j == rr.len() {
                            assert(below_all(e.0@, rr) || rr.len() == 0);
                        }
                    }
                }
                rev.push(e);
                proof {
                    lemma_ordered_distinct(rev@);
                    lemma_entries_push(rr, e);
                    assert(b@ == b0.take(b@.len() as int));
                }
            }
        } else {
            let e = b.pop().unwrap();
            let ea = a.pop().unwrap();
            proof {
                assert(bb.drop_last() =~= b@);
                assert(aa.drop_last() =~= a@);
                assert(aa == a@.push(ea));
                lemma_batch_pop(bb);
                lemma_entries_push(a@, ea);
                assert(ea.0@ == e.0@);
                if rr.len() > 0 {
                    assert(bytes_lt(aa[aa.len() - 1].0@, rr.last().0@));
                    lemma_below_last_of_descending(e.0@, rr);
                } else {
                    assert(!has_key(rr, e.0@));
                }
                assert(!entries_map(rr).contains_key(e.0@));
                lemma_overlay_insert_both(entries_map(a@), batch_map(b@), entries_map(rr), e.0@, e.1@, ea.1@);
                assert forall|k: int| 0 <= k < a@.len() implies bytes_lt(#[trigger] a@[k].0@, e.0@) by {
                    assert(a@[k] == aa[k]);
                }
                assert forall|k: int| 0 <= k < b@.len() implies !bytes_lt(e.0@, #[trigger] b@[k].0@) by {
                    assert(b@[k] == bb[k]);
                    assert(!bytes_lt(bb[bb.len() - 1].0@, bb[k].0@));
                }
                assert forall|i: int, j: int| 0 <= i < j < rr.len() + 1 implies bytes_lt(
                    #[trigger] rr.push(e)[j].0@,
                    #[trigger] rr.push(e)[i].0@,
                ) by {
                    if j == rr.len() {
                        assert(below_all(e.0@, rr) || rr.len() == 0);
                    }
                }
            }
            rev.push(e);
            proof {
                lemma_ordered_distinct(rev@);
                lemma_entries_push(rr, e);
                assert(a@ == a0.take(a@.len() as int));
                assert(b@ == b0.take(b@.len() as int));
            }
        }
    }
    proof {
        assert(entries_map(a@) =~= Map::<Seq<u8>, Seq<u8>>::empty());
        assert(pairs_view(b@) =~= Seq::<KeyValue>::empty());
        assert(Map::<Seq<u8>, Seq<u8>>::empty().union_prefer_right(batch_map(b@)).union_prefer_right(entries_map(rev@))
            =~= entries_map(rev@));
    }
    let ghost rev0 = rev@;
    let n = rev.len();
    let mut out: Vec<(Vec<u8>, Vec<u8>)> = Vec::new();
    while rev.len() > 0
        invariant
            rev0.len() == n,
            rev@.len() + out@.len() == n,
            forall|k: int| 0 <= k < rev@.len() ==> #[trigger] rev@[k] == rev0[k],
            forall|k: int| 0 <= k < out@.len() ==> #[trigger] out@[k] == rev0[n - 1 - k],
        decreases rev@.len(),
    {
        let e = rev.pop().unwrap();
        out.push(e);
    }
    proof {
        assert forall|i: int, j: int| 0 <= i < j < out@.len() implies bytes_lt(#[trigger] out@[i].0@, #[trigger] out@[j].0@) by {
            assert(out@[i] == rev0[n - 1 - i]);
            assert(out@[j] == rev0[n - 1 - j]);
        }
        lemma_ordered_distinct(out@);
        lemma_ordered_distinct(rev0);
        assert forall|kk: Seq<u8>| #[trigger] entries_map(out@).contains_key(kk) == entries_map(rev0).contains_key(kk) by {
            if has_key(out@, kk) {
                let j = choose|j: int| 0 <= j < out@.len() && out@[j].0@ == kk;
                assert(rev0[n - 1 - j].0@ == kk);
            }
            if has_key(rev0, kk) {
                let j = choose|j: int| 0 <= j < rev0.len() && rev0[j].0@ == kk;
                assert(out@[n - 1 - j] == rev0[j]);
            }
        }
        assert forall|kk: Seq<u8>| entries_map(out@).contains_key(kk) implies #[trigger] entries_map(out@)[kk]
            == entries_map(rev0)[kk] by {
            let j = choose|j: int| 0 <= j < out@.len() && out@[j].0@ == kk;
            lemma_distinct_value(out@, j);
            lemma_distinct_value(rev0, n - 1 - j);
        }
        assert(entries_map(out@) =~= entries_map(rev0));
    }
    out
}

/// Whether the keys of `b` never decrease.
fn nondecreasing(b: &Vec<(Vec<u8>, Vec<u8>)>) -> (res: bool)
    ensures
        res == keys_nondecreasing(b@),
{
    let n = b.len();
    if n == 0 {
        return true;
    }
    let mut i: usize = 1;
    while i < n
        invariant
            1 <= i <= n,
            n == b@.len(),
            forall|p: int, q: int| 0 <= p < q < i ==> !bytes_lt(#[trigger] b@[q].0@, #[trigger] b@[p].0@),
        decreases n - i,
    {
        let c = compare_bytes(b[i - 1].0.as_slice(), b[i].0.as_slice());
        if c > 0 {
            assert(bytes_lt(b@[i as int].0@, b@[i - 1].0@));
            return false;
        }
        proof {
            assert forall|p: int, q: int| 0 <= p < q < i + 1 implies !bytes_lt(#[trigger] b@[q].0@, #[trigger] b@[p].0@) by {
                if q == i && p < i - 1 {
                    let x = b@[p].0@;
                    let y = b@[i - 1].0@;
                    let z = b@[q].0@;
                    lemma_bytes_lt_order(z, x, y);
                    lemma_bytes_lt_order(y, z, x);
                    lemma_bytes_lt_order(z, y, x);
                    lemma_bytes_lt_order(x, y, z);
                    lemma_bytes_lt_order(z, x, z);
                }
            }
        }
        i = i + 1;
    }
    true
}

impl EntryStore {
    /// Stores the entries of `batch` in order, a later entry replacing an
    /// earlier one with the same key. A batch whose keys never decrease
    /// (as a table file's are) is merged in one pass.
    pub fn insert_batch(&mut self, batch: Vec<(Vec<u8>, Vec<u8>)>)
        ensures
            final(self)@ == insert_all(old(self)@, pairs_view(batch@)),
    {
        proof {
            use_type_invariant(&*self);
            lemma_insert_all_overlay(self@, pairs_view(batch@));
        }
        if nondecreasing(&batch) {
            let mut entries: Vec<(Vec<u8>, Vec<u8>)> = Vec::new();
            std::mem::swap(&mut entries, &mut self.entries);
            let merged = merge_entries(entries, batch);
            self.entries = merged;
        } else {
            let ghost start = self@;
            let ghost all = pairs_view(batch@);
            let mut i: usize = 0;
            while i < batch.len()
                invariant
                    i <= batch@.len(),
                    all == pairs_view(batch@),
                    self@ == insert_all(start, all.take(i as int)),
                decreases batch@.len() - i,
            {
                let k = bytes_to_vec(batch[i].0.as_slice());
                let v = bytes_to_vec(batch[i].1.as_slice());
                proof {
                    assert(all.take(i + 1).drop_last() =~= all.take(i as int));
                }
                self.insert(k, v);
                i = i + 1;
            }
            assert(all.take(i as int) =~= all);
        }
    }
}

/// A read after a write: after storing `v` under `k`, reading `k` gives
/// `v`, and every other key reads as before.
pub proof fn lemma_store_read_after_write(m: Map<Seq<u8>, Seq<u8>>, k: Seq<u8>, v: Seq<u8>, other: Seq<u8>)
    ensures
        m.insert(k, v).contains_key(k),
        m.insert(k, v)[k] == v,
        other != k ==> (m.insert(k, v).contains_key(other) <==> m.contains_key(other)),
        other != k && m.contains_key(other) ==> m.insert(k, v)[other] == m[other],
{
}

} // verus!
