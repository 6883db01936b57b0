use crate::common::text::str_equal;
use vstd::prelude::*;

verus! {

/// A decoded NBT tag.
///
/// `Float` and `Double` hold the IEEE-754 bit patterns of the stored values.
/// A `Compound` holds its entries in the order their names were first
/// read; a later entry with a name already present replaces that entry's
/// value, so a decoded compound holds each name once (see
/// [`names_unique`]). Where a compound is built by hand with a repeated
/// name, the last entry with that name is the one that counts (see
/// [`compound_map`]). The entries are a vector of pairs rather
/// than a `HashMap`: vstd specifies `HashMap` lookups only for keys that obey
/// its key model (integers, `bool` and boxes of them), so with `String` keys
/// nothing about a lookup could be proved.
#[derive(Debug, PartialEq)]
pub enum NbtTag {
    End,
    Byte(i8),
    Short(i16),
    Int(i32),
    Long(i64),
    Float(u32),
    Double(u64),
    ByteArray(Vec<u8>),
    String(String),
    List(Vec<NbtTag>),
    Compound(Vec<(String, NbtTag)>),
    IntArray(Vec<i32>),
    LongArray(Vec<i64>),
}

/// The mathematical value of an NBT tag.
pub enum NbtValue {
    End,
    Byte(i8),
    Short(i16),
    Int(i32),
    Long(i64),
    Float(u32),
    Double(u64),
    ByteArray(Seq<u8>),
    String(Seq<char>),
    List(Seq<NbtValue>),
    Compound(Map<Seq<char>, NbtValue>),
    IntArray(Seq<i32>),
    LongArray(Seq<i64>),
}

impl NbtTag {
    /// The value this tag stands for.
    pub open spec fn value(self) -> NbtValue
        decreases self,
    {
        match self {
            NbtTag::End => NbtValue::End,
            NbtTag::Byte(v) => NbtValue::Byte(v),
            NbtTag::Short(v) => NbtValue::Short(v),
            NbtTag::Int(v) => NbtValue::Int(v),
            NbtTag::Long(v) => NbtValue::Long(v),
            NbtTag::Float(v) => NbtValue::Float(v),
            NbtTag::Double(v) => NbtValue::Double(v),
            NbtTag::ByteArray(v) => NbtValue::ByteArray(v@),
            NbtTag::String(s) => NbtValue::String(s@),
            NbtTag::List(items) => NbtValue::List(list_values(items@)),
            NbtTag::Compound(entries) => NbtValue::Compound(compound_map(entries@)),
            NbtTag::IntArray(v) => NbtValue::IntArray(v@),
            NbtTag::LongArray(v) => NbtValue::LongArray(v@),
        }
    }
}

/// The values of a sequence of tags, in order.
pub open spec fn list_values(items: Seq<NbtTag>) -> Seq<NbtValue>
    decreases items,
{
    if items.len() == 0 {
        Seq::empty()
    } else {
        list_values(items.drop_last()).push(items.last().value())
    }
}

/// The map that compound entries stand for: entries are inserted in order,
/// so a later entry replaces an earlier one with the same name.
pub open spec fn compound_map(entries: Seq<(String, NbtTag)>) -> Map<Seq<char>, NbtValue>
    decreases entries,
{
    if entries.len() == 0 {
        Map::empty()
    } else {
        compound_map(entries.drop_last()).insert(entries.last().0@, entries.last().1.value())
    }
}


/// The value stored under `key` when `v` is a compound holding that name.
pub open spec fn compound_entry(v: NbtValue, key: Seq<char>) -> Option<NbtValue> {
    match v {
        NbtValue::Compound(m) => if m.contains_key(key) {
            Some(m[key])
        } else {
            None
        },
        _ => None,
    }
}

/// `i` is the position of the last entry named `key`.
pub open spec fn is_last_entry(entries: Seq<(String, NbtTag)>, key: Seq<char>, i: int) -> bool {
    &&& 0 <= i < entries.len()
    &&& entries[i].0@ == key
    &&& forall|j: int| i < j < entries.len() ==> entries[j].0@ != key
}

/// A name is in the map of a compound exactly when some entry carries it,
/// and its value is that of the last such entry.
pub proof fn lemma_compound_lookup(entries: Seq<(String, NbtTag)>, key: Seq<char>)
    ensures
        compound_map(entries).contains_key(key) <==> exists|i: int|
            0 <= i < entries.len() && entries[i].0@ == key,
        forall|i: int| #[trigger] is_last_entry(entries, key, i) ==> compound_map(entries)[key]
            == entries[i].1.value(),
    decreases entries.len(),
{
    if entries.len() > 0 {
        let prefix = entries.drop_last();
        lemma_compound_lookup(prefix, key);
        assert forall|i: int| is_last_entry(entries, key, i) implies compound_map(entries)[key]
            == entries[i].1.value() by {
            if i < entries.len() - 1 {
                assert(is_last_entry(prefix, key, i));
            }
        }
        if compound_map(entries).contains_key(key) {
            if entries.last().0@ != key {
                let i = choose|i: int| 0 <= i < prefix.len() && prefix[i].0@ == key;
                assert(entries[i].0@ == key);
            } else {
                assert(entries[entries.len() - 1].0@ == key);
            }
        }
        if exists|i: int| 0 <= i < entries.len() && entries[i].0@ == key {
            let i = choose|i: int| 0 <= i < entries.len() && entries[i].0@ == key;
            if i < entries.len() - 1 {
                assert(prefix[i].0@ == key);
            }
        }
    }
}

/// No two entries of a compound share a name.
pub open spec fn unique_names(entries: Seq<(String, NbtTag)>) -> bool {
    forall|i: int, j: int|
        0 <= i < entries.len() && 0 <= j < entries.len() && i != j ==> #[trigger] entries[i].0@
            != #[trigger] entries[j].0@
}

/// In this tag and every tag nested in it, each compound holds each name
/// at most once, as a decoded compound does.
pub open spec fn names_unique(t: NbtTag) -> bool
    decreases t,
{
    match t {
        NbtTag::List(items) => forall|i: int|
            0 <= i < items@.len() ==> names_unique(#[trigger] items@[i]),
        NbtTag::Compound(entries) => unique_names(entries@) && forall|i: int|
            0 <= i < entries@.len() ==> names_unique(#[trigger] entries@[i].1),
        _ => true,
    }
}

/// Position of the last entry named `key`.
pub fn find_last_entry(entries: &Vec<(String, NbtTag)>, key: &str) -> (res: Option<usize>)
    ensures
        match res {
            Some(i) => is_last_entry(entries@, key@, i as int),
            None => forall|j: int| 0 <= j < entries@.len() ==> entries@[j].0@ != key@,
        },
{
    let mut i = entries.len();
    while i > 0
        invariant
            i <= entries@.len(),
            forall|j: int| i <= j < entries@.len() ==> entries@[j].0@ != key@,
        decreases i,
    {
        i = i - 1;
        if str_equal(entries[i].0.as_str(), key) {
            return Some(i);
        }
    }
    None
}

proof fn lemma_unique_lookup(entries: Seq<(String, NbtTag)>, i: int)
    requires
        unique_names(entries),
        0 <= i < entries.len(),
    ensures
        compound_map(entries).contains_key(entries[i].0@),
        compound_map(entries)[entries[i].0@] == entries[i].1.value(),
{
    let k = entries[i].0@;
    lemma_compound_lookup(entries, k);
    assert forall|j: int| i < j < entries.len() implies entries[j].0@ != k by {
        assert(entries[i].0@ != entries[j].0@);
    }
    assert(is_last_entry(entries, k, i));
}

/// Adds an entry to a compound's entries, replacing the entry that already
/// has its name: the entries keep each name once and stand for the old map
/// with `name` mapped to `value`.
pub fn put_entry(entries: &mut Vec<(String, NbtTag)>, name: String, value: NbtTag)
    requires
        unique_names(old(entries)@),
    ensures
        unique_names(final(entries)@),
        compound_map(final(entries)@) == compound_map(old(entries)@).insert(name@, value.value()),
        forall|i: int|
            0 <= i < final(entries)@.len() ==> (#[trigger] final(entries)@[i] == (name, value) || exists|j: int|
                0 <= j < old(entries)@.len() && final(entries)@[i] == old(entries)@[j]),
{
    let ghost old_s = entries@;
    let ghost k = name@;
    let ghost v = value.value();
    match find_last_entry(entries, name.as_str()) {
        Some(i) => {
            entries.set(i, (name, value));
            proof {
                let new_s = entries@;
                assert forall|a: int, b: int|
                    0 <= a < new_s.len() && 0 <= b < new_s.len() && a != b implies #[trigger] new_s[a].0@
                        != #[trigger] new_s[b].0@ by {
                    assert(old_s[a].0@ != old_s[b].0@);
                }
                assert forall|kk: Seq<char>| #[trigger] compound_map(new_s).contains_key(kk)
                    == compound_map(old_s).insert(k, v).contains_key(kk) by {
                    lemma_compound_lookup(new_s, kk);
                    lemma_compound_lookup(old_s, kk);
                    if exists|j: int| 0 <= j < old_s.len() && old_s[j].0@ == kk {
                        let j = choose|j: int| 0 <= j < old_s.len() && old_s[j].0@ == kk;
                        assert(new_s[j].0@ == kk);
                    }
                    if exists|j: int| 0 <= j < new_s.len() && new_s[j].0@ == kk {
                        let j = choose|j: int| 0 <= j < new_s.len() && new_s[j].0@ == kk;
                        if j != i {
                            assert(old_s[j].0@ == kk);
                        }
                    }
                    assert(new_s[i as int].0@ == k);
                }
                assert forall|kk: Seq<char>| compound_map(new_s).contains_key(kk) implies #[trigger] compound_map(
                    new_s,
                )[kk] == compound_map(old_s).insert(k, v)[kk] by {
                    lemma_compound_lookup(new_s, kk);
                    let j = choose|j: int| 0 <= j < new_s.len() && new_s[j].0@ == kk;
                    lemma_unique_lookup(new_s, j);
                    if j != i {
                        assert(old_s[j] == new_s[j]);
                        lemma_unique_lookup(old_s, j);
                        assert(new_s[i as int].0@ != new_s[j].0@);
                    }
                }
                assert(compound_map(new_s) =~= compound_map(old_s).insert(k, v));
                assert forall|a: int| 0 <= a < new_s.len() implies (#[trigger] new_s[a] == (name, value) || exists|j: int|
                    0 <= j < old_s.len() && new_s[a] == old_s[j]) by {
                    if a != i {
                        assert(new_s[a] == old_s[a]);
                    }
                }
            }
        },
        None => {
            entries.push((name, value));
            proof {
                let new_s = entries@;
                assert(new_s.drop_last() =~= old_s);
                assert forall|a: int, b: int|
                    0 <= a < new_s.len() && 0 <= b < new_s.len() && a != b implies #[trigger] new_s[a].0@
                        != #[trigger] new_s[b].0@ by {
                    if a < old_s.len() && b < old_s.len() {
                        assert(old_s[a].0@ != old_s[b].0@);
                    } else if a < old_s.len() {
                        assert(old_s[a].0@ != k);
                    } else {
                        assert(old_s[b].0@ != k);
                    }
                }
                assert forall|a: int| 0 <= a < new_s.len() implies (#[trigger] new_s[a] == (name, value) || exists|j: int|
                    0 <= j < old_s.len() && new_s[a] == old_s[j]) by {
                    if a < old_s.len() {
                        assert(new_s[a] == old_s[a]);
                    }
                }
            }
        },
    }
}

impl NbtTag {
    /// The text stored under `key`, when this is a compound whose entry
    /// `key` is a string tag.
    pub fn get_string(&self, key: &str) -> (res: Option<&str>)
        ensures
            match compound_entry(self.value(), key@) {
                Some(NbtValue::String(s)) => res is Some && res.unwrap()@ == s,
                _ => res is None,
            },
    {
        match self {
            NbtTag::Compound(entries) => {
                proof {
                    lemma_compound_lookup(entries@, key@);
                }
                match find_last_entry(entries, key) {
                    Some(i) => {
                        proof {
                            assert(is_last_entry(entries@, key@, i as int));
                        }
                        match &entries[i].1 {
                            NbtTag::String(s) => Some(s.as_str()),
                            _ => None,
                        }
                    },
                    None => None,
                }
            },
            _ => None,
        }
    }

    /// The integer stored under `key`, widened from a byte or short tag.
    pub fn get_i32(&self, key: &str) -> (res: Option<i32>)
        ensures
            res == match compound_entry(self.value(), key@) {
                Some(NbtValue::Int(v)) => Some(v),
                Some(NbtValue::Byte(v)) => Some(v as i32),
                Some(NbtValue::Short(v)) => Some(v as i32),
                _ => None::<i32>,
            },
    {
        match self {
            NbtTag::Compound(entries) => {
                proof {
                    lemma_compound_lookup(entries@, key@);
                }
                match find_last_entry(entries, key) {
                    Some(i) => {
                        proof {
                            assert(is_last_entry(entries@, key@, i as int));
                        }
                        match &entries[i].1 {
                            NbtTag::Int(v) => Some(*v),
                            NbtTag::Byte(v) => Some(*v as i32),
                            NbtTag::Short(v) => Some(*v as i32),
                            _ => None,
                        }
                    },
                    None => None,
                }
            },
            _ => None,
        }
    }

    /// The entries of the compound stored under `key`.
    pub fn get_compound(&self, key: &str) -> (res: Option<&Vec<(String, NbtTag)>>)
        ensures
            match compound_entry(self.value(), key@) {
                Some(NbtValue::Compound(m)) => res is Some && compound_map(res.unwrap()@) == m,
                _ => res is None,
            },
    {
        match self {
            NbtTag::Compound(entries) => {
                proof {
                    lemma_compound_lookup(entries@, key@);
                }
                match find_last_entry(entries, key) {
                    Some(i) => {
                        proof {
                            assert(is_last_entry(entries@, key@, i as int));
                        }
                        match &entries[i].1 {
                            NbtTag::Compound(c) => Some(c),
                            _ => None,
                        }
                    },
                    None => None,
                }
            },
            _ => None,
        }
    }
}

/// A copy of a vector of plain values.
pub fn copy_vec<T: Copy>(v: &Vec<T>) -> (res: Vec<T>)
    ensures
        res@ == v@,
{
    let mut out: Vec<T> = Vec::new();
    let mut i: usize = 0;
    while i < v.len()
        invariant
            i <= v@.len(),
            out@ == v@.take(i as int),
        decreases v@.len() - i,
    {
        out.push(v[i]);
        i = i + 1;
        assert(out@ =~= v@.take(i as int));
    }
    assert(v@.take(i as int) =~= v@);
    out
}

/// A deep copy of a tag.
pub fn copy_tag(t: &NbtTag) -> (res: NbtTag)
    ensures
        res.value() == t.value(),
        names_unique(res),
    decreases t,
{
    match t {
        NbtTag::End => NbtTag::End,
        NbtTag::Byte(v) => NbtTag::Byte(*v),
        NbtTag::Short(v) => NbtTag::Short(*v),
        NbtTag::Int(v) => NbtTag::Int(*v),
        NbtTag::Long(v) => NbtTag::Long(*v),
        NbtTag::Float(v) => NbtTag::Float(*v),
        NbtTag::Double(v) => NbtTag::Double(*v),
        NbtTag::ByteArray(v) => NbtTag::ByteArray(copy_vec(v)),
        NbtTag::String(s) => NbtTag::String(s.clone()),
        NbtTag::List(items) => NbtTag::List(copy_items(items)),
        NbtTag::Compound(entries) => NbtTag::Compound(copy_entries(entries)),
        NbtTag::IntArray(v) => NbtTag::IntArray(copy_vec(v)),
        NbtTag::LongArray(v) => NbtTag::LongArray(copy_vec(v)),
    }
}

/// A deep copy of the items of a list.
pub fn copy_items(items: &Vec<NbtTag>) -> (res: Vec<NbtTag>)
    ensures
        list_values(res@) == list_values(items@),
        forall|k: int| 0 <= k < res@.len() ==> names_unique(#[trigger] res@[k]),
    decreases items,
{
    let mut out: Vec<NbtTag> = Vec::new();
    let mut i: usize = 0;
    while i < items.len()
        invariant
            i <= items@.len(),
            list_values(out@) == list_values(items@.take(i as int)),
            forall|k: int| 0 <= k < out@.len() ==> names_unique(#[trigger] out@[k]),
        decreases items@.len() - i,
    {
        assert(decreases_to!(items => items@[i as int]));
        let c = copy_tag(&items[i]);
        let ghost before = out@;
        out.push(c);
        i = i + 1;
        assert(out@.drop_last() =~= before);
        assert(items@.take(i as int).drop_last() =~= items@.take(i - 1));
    }
    assert(items@.take(i as int) =~= items@);
    out
}

/// A deep copy of the entries of a compound, each name kept once (with
/// the value of its last entry).
pub fn copy_entries(entries: &Vec<(String, NbtTag)>) -> (res: Vec<(String, NbtTag)>)
    ensures
        compound_map(res@) == compound_map(entries@),
        unique_names(res@),
        forall|k: int| 0 <= k < res@.len() ==> names_unique(#[trigger] res@[k].1),
    decreases entries,
{
    let mut out: Vec<(String, NbtTag)> = Vec::new();
    let mut i: usize = 0;
    while i < entries.len()
        invariant
            i <= entries@.len(),
            compound_map(out@) == compound_map(entries@.take(i as int)),
            unique_names(out@),
            forall|k: int| 0 <= k < out@.len() ==> names_unique(#[trigger] out@[k].1),
        decreases entries@.len() - i,
    {
        assert(decreases_to!(entries => entries@[i as int].1));
        let name = entries[i].0.clone();
        let c = copy_tag(&entries[i].1);
        let ghost before = out@;
        let ghost entry = (name, c);
        put_entry(&mut out, name, c);
        proof {
            assert forall|k: int| 0 <= k < out@.len() implies names_unique(#[trigger] out@[k].1) by {
                if out@[k] != entry {
                    let j = choose|j: int| 0 <= j < before.len() && out@[k] == before[j];
                    assert(names_unique(before[j].1));
                }
            }
        }
        i = i + 1;
        assert(entries@.take(i as int).drop_last() =~= entries@.take(i - 1));
    }
    assert(entries@.take(i as int) =~= entries@);
    out
}

} // verus!
