use crate::common::text::str_equal;
use crate::nbt::tag::{compound_entry, compound_map, copy_entries, unique_names, NbtTag, NbtValue};
use vstd::prelude::*;

verus! {

/// The mathematical content of a block state.
pub struct BlockStateModel {
    pub name: Seq<char>,
    pub states: Map<Seq<char>, NbtValue>,
    pub version: i32,
}

/// A block type together with its state properties. The properties are an
/// NBT compound's entries, a vector of pairs for the reason given at
/// [`NbtTag`]; a block state read from NBT holds each property name once.
#[derive(Debug, PartialEq)]
pub struct BlockState {
    pub name: String,
    pub states: Vec<(String, NbtTag)>,
    pub version: i32,
}

/// The block state an NBT compound describes: its `name` string, its
/// `version` (an int, short or byte; 0 when absent) and its `states`
/// compound (empty when absent). There is none without a `name` string.
pub open spec fn block_model_of(v: NbtValue) -> Option<BlockStateModel> {
    match compound_entry(v, "name"@) {
        Some(NbtValue::String(name)) => Some(
            BlockStateModel {
                name,
                version: match compound_entry(v, "version"@) {
                    Some(NbtValue::Int(x)) => x,
                    Some(NbtValue::Byte(x)) => x as i32,
                    Some(NbtValue::Short(x)) => x as i32,
                    _ => 0,
                },
                states: match compound_entry(v, "states"@) {
                    Some(NbtValue::Compound(m)) => m,
                    _ => Map::empty(),
                },
            },
        ),
        _ => None,
    }
}

impl BlockState {
    pub open spec fn model(&self) -> BlockStateModel {
        BlockStateModel { name: self.name@, states: compound_map(self.states@), version: self.version }
    }

    /// A block state with the given name, no properties and version 0.
    pub fn new(name: &str) -> (res: Self)
        ensures
            res.name@ == name@,
            res.states@.len() == 0,
            res.version == 0,
    {
        Self { name: String::from_str(name), states: Vec::new(), version: 0 }
    }

    /// The block state described by an NBT compound, if it names a block.
    pub fn from_nbt(tag: &NbtTag) -> (res: Option<Self>)
        ensures
            match block_model_of(tag.value()) {
                Some(m) => res is Some && res.unwrap().model() == m && unique_names(res.unwrap().states@),
                None => res is None,
            },
    {
        let name = match tag.get_string("name") {
            Some(s) => String::from_str(s),
            None => return None,
        };
        let version = match tag.get_i32("version") {
            Some(v) => v,
            None => 0,
        };
        let states = match tag.get_compound("states") {
            Some(c) => copy_entries(c),
            None => Vec::new(),
        };
        let res = Self { name, states, version };
        assert(compound_map(Seq::<(String, NbtTag)>::empty()) =~= Map::<Seq<char>, NbtValue>::empty());
        Some(res)
    }

    /// Whether this is plain air or a structure void.
    pub fn is_air(&self) -> (res: bool)
        ensures
            res == (self.name@ == "minecraft:air"@ || self.name@ == "minecraft:structure_void"@),
    {
        str_equal(self.name.as_str(), "minecraft:air") || str_equal(
            self.name.as_str(),
            "minecraft:structure_void",
        )
    }
}

/// The block states a storage layer's indices refer to.
#[derive(Debug, PartialEq)]
pub struct Palette {
    entries: Vec<BlockState>,
}

impl View for Palette {
    type V = Seq<BlockState>;

    closed spec fn view(&self) -> Seq<BlockState> {
        self.entries@
    }
}

impl Palette {
    pub fn new(entries: Vec<BlockState>) -> (res: Self)
        ensures
            res@ == entries@,
    {
        Self { entries }
    }

    /// The entry at `index`, if there is one.
    pub fn get(&self, index: usize) -> (res: Option<&BlockState>)
        ensures
            index < self@.len() ==> res == Some(&self@[index as int]),
            index >= self@.len() ==> res is None,
    {
        if index < self.entries.len() {
            Some(&self.entries[index])
        } else {
            None
        }
    }

    pub fn len(&self) -> (res: usize)
        ensures
            res == self@.len(),
    {
        self.entries.len()
    }

    pub fn is_empty(&self) -> (res: bool)
        ensures
            res == (self@.len() == 0),
    {
        self.entries.len() == 0
    }
}

} // verus!
