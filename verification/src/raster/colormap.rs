use crate::common::text::{contains_bytes, find_bytes, str_equal};
use vstd::prelude::*;
use vstd::utf8::encode_utf8;

verus! {

/// The colour a block is drawn with, and how light passes through it.
#[derive(Clone, Copy, Debug, PartialEq, Eq)]
pub struct BlockColor {
    pub rgba: [u8; 4],
    pub is_translucent: bool,
    pub is_opaque: bool,
}

/// A fully opaque colour.
pub open spec fn opaque_color(r: u8, g: u8, b: u8) -> BlockColor {
    BlockColor { rgba: [r, g, b, 255], is_translucent: false, is_opaque: true }
}

/// A colour with alpha `a`: translucent strictly between 0 and 255,
/// opaque at 255.
pub open spec fn translucent_color(r: u8, g: u8, b: u8, a: u8) -> BlockColor {
    BlockColor { rgba: [r, g, b, a], is_translucent: 0 < a < 255, is_opaque: a == 255 }
}

/// A colour that draws nothing.
pub open spec fn invisible_color() -> BlockColor {
    BlockColor { rgba: [0, 0, 0, 0], is_translucent: false, is_opaque: false }
}

impl BlockColor {
    pub fn opaque(r: u8, g: u8, b: u8) -> (res: Self)
        ensures
            res == opaque_color(r, g, b),
    {
        Self { rgba: [r, g, b, 255], is_translucent: false, is_opaque: true }
    }

    pub fn translucent(r: u8, g: u8, b: u8, a: u8) -> (res: Self)
        ensures
            res == translucent_color(r, g, b, a),
    {
        Self { rgba: [r, g, b, a], is_translucent: a > 0 && a < 255, is_opaque: a == 255 }
    }

    pub fn invisible() -> (res: Self)
        ensures
            res == invisible_color(),
    {
        Self { rgba: [0, 0, 0, 0], is_translucent: false, is_opaque: false }
    }
}

/// The map of named colours that entries stand for: a later entry replaces
/// an earlier one with the same name.
pub open spec fn color_table(entries: Seq<(&'static str, BlockColor)>) -> Map<Seq<char>, BlockColor>
    decreases entries.len(),
{
    if entries.len() == 0 {
        Map::empty()
    } else {
        color_table(entries.drop_last()).insert(entries.last().0@, entries.last().1)
    }
}

/// The built-in colours of block names.
pub open spec fn standard_colors() -> Map<Seq<char>, BlockColor> {
    Map::<Seq<char>, BlockColor>::empty()
        .insert("minecraft:grass_block"@, opaque_color(92, 157, 59))
        .insert("minecraft:grass"@, opaque_color(92, 157, 59))
        .insert("minecraft:dirt"@, opaque_color(134, 96, 67))
        .insert("minecraft:dirt_with_roots"@, opaque_color(138, 98, 70))
        .insert("minecraft:coarse_dirt"@, opaque_color(119, 85, 59))
        .insert("minecraft:podzol"@, opaque_color(90, 63, 28))
        .insert("minecraft:mycelium"@, opaque_color(111, 99, 105))
        .insert("minecraft:farmland"@, opaque_color(104, 66, 38))
        .insert("minecraft:dirt_path"@, opaque_color(159, 126, 69))
        .insert("minecraft:grass_path"@, opaque_color(159, 126, 69))
        .insert("minecraft:mud"@, opaque_color(60, 57, 60))
        .insert("minecraft:clay"@, opaque_color(160, 166, 179))
        .insert("minecraft:stone"@, opaque_color(125, 125, 125))
        .insert("minecraft:granite"@, opaque_color(154, 107, 89))
        .insert("minecraft:polished_granite"@, opaque_color(154, 107, 89))
        .insert("minecraft:diorite"@, opaque_color(188, 188, 191))
        .insert("minecraft:polished_diorite"@, opaque_color(188, 188, 191))
        .insert("minecraft:andesite"@, opaque_color(135, 135, 137))
        .insert("minecraft:polished_andesite"@, opaque_color(135, 135, 137))
        .insert("minecraft:deepslate"@, opaque_color(75, 75, 78))
        .insert("minecraft:cobbled_deepslate"@, opaque_color(75, 75, 78))
        .insert("minecraft:polished_deepslate"@, opaque_color(70, 70, 72))
        .insert("minecraft:tuff"@, opaque_color(108, 109, 102))
        .insert("minecraft:calcite"@, opaque_color(224, 225, 220))
        .insert("minecraft:dripstone_block"@, opaque_color(134, 106, 92))
        .insert("minecraft:pointed_dripstone"@, opaque_color(134, 106, 92))
        .insert("minecraft:bedrock"@, opaque_color(55, 55, 55))
        .insert("minecraft:cobblestone"@, opaque_color(120, 120, 120))
        .insert("minecraft:mossy_cobblestone"@, opaque_color(100, 122, 95))
        .insert("minecraft:gravel"@, opaque_color(136, 131, 131))
        .insert("minecraft:sand"@, opaque_color(219, 206, 153))
        .insert("minecraft:red_sand"@, opaque_color(190, 103, 34))
        .insert("minecraft:sandstone"@, opaque_color(216, 203, 155))
        .insert("minecraft:red_sandstone"@, opaque_color(181, 97, 31))
        .insert("minecraft:obsidian"@, opaque_color(20, 18, 30))
        .insert("minecraft:crying_obsidian"@, opaque_color(34, 16, 52))
        .insert("minecraft:coal_ore"@, opaque_color(105, 105, 105))
        .insert("minecraft:deepslate_coal_ore"@, opaque_color(65, 65, 68))
        .insert("minecraft:iron_ore"@, opaque_color(136, 124, 117))
        .insert("minecraft:deepslate_iron_ore"@, opaque_color(82, 77, 74))
        .insert("minecraft:copper_ore"@, opaque_color(128, 118, 112))
        .insert("minecraft:deepslate_copper_ore"@, opaque_color(78, 74, 71))
        .insert("minecraft:gold_ore"@, opaque_color(143, 136, 103))
        .insert("minecraft:deepslate_gold_ore"@, opaque_color(88, 85, 67))
        .insert("minecraft:redstone_ore"@, opaque_color(140, 95, 95))
        .insert("minecraft:lit_redstone_ore"@, opaque_color(180, 70, 70))
        .insert("minecraft:deepslate_redstone_ore"@, opaque_color(90, 60, 60))
        .insert("minecraft:lapis_ore"@, opaque_color(102, 114, 138))
        .insert("minecraft:deepslate_lapis_ore"@, opaque_color(62, 70, 88))
        .insert("minecraft:diamond_ore"@, opaque_color(114, 142, 140))
        .insert("minecraft:deepslate_diamond_ore"@, opaque_color(68, 90, 90))
        .insert("minecraft:emerald_ore"@, opaque_color(106, 136, 112))
        .insert("minecraft:deepslate_emerald_ore"@, opaque_color(64, 88, 70))
        .insert("minecraft:water"@, translucent_color(44, 98, 204, 180))
        .insert("minecraft:flowing_water"@, translucent_color(44, 98, 204, 180))
        .insert("minecraft:lava"@, opaque_color(216, 92, 18))
        .insert("minecraft:flowing_lava"@, opaque_color(216, 92, 18))
        .insert("minecraft:oak_log"@, opaque_color(103, 82, 49))
        .insert("minecraft:spruce_log"@, opaque_color(59, 39, 19))
        .insert("minecraft:birch_log"@, opaque_color(215, 215, 210))
        .insert("minecraft:jungle_log"@, opaque_color(86, 68, 27))
        .insert("minecraft:acacia_log"@, opaque_color(104, 98, 89))
        .insert("minecraft:dark_oak_log"@, opaque_color(60, 47, 26))
        .insert("minecraft:mangrove_log"@, opaque_color(84, 42, 33))
        .insert("minecraft:cherry_log"@, opaque_color(54, 27, 34))
        .insert("minecraft:crimson_stem"@, opaque_color(101, 30, 48))
        .insert("minecraft:warped_stem"@, opaque_color(43, 105, 99))
        .insert("minecraft:oak_planks"@, opaque_color(162, 130, 78))
        .insert("minecraft:spruce_planks"@, opaque_color(104, 78, 47))
        .insert("minecraft:birch_planks"@, opaque_color(196, 178, 123))
        .insert("minecraft:jungle_planks"@, opaque_color(160, 115, 80))
        .insert("minecraft:acacia_planks"@, opaque_color(168, 90, 50))
        .insert("minecraft:dark_oak_planks"@, opaque_color(66, 43, 20))
        .insert("minecraft:mangrove_planks"@, opaque_color(118, 54, 46))
        .insert("minecraft:cherry_planks"@, opaque_color(226, 178, 173))
        .insert("minecraft:bamboo_planks"@, opaque_color(194, 168, 77))
        .insert("minecraft:crimson_planks"@, opaque_color(101, 48, 70))
        .insert("minecraft:warped_planks"@, opaque_color(43, 105, 99))
        .insert("minecraft:leaves"@, translucent_color(45, 115, 30, 240))
        .insert("minecraft:oak_leaves"@, translucent_color(45, 115, 30, 240))
        .insert("minecraft:spruce_leaves"@, translucent_color(55, 90, 55, 240))
        .insert("minecraft:birch_leaves"@, translucent_color(90, 130, 45, 240))
        .insert("minecraft:jungle_leaves"@, translucent_color(35, 120, 20, 240))
        .insert("minecraft:acacia_leaves"@, translucent_color(75, 110, 25, 240))
        .insert("minecraft:dark_oak_leaves"@, translucent_color(30, 85, 15, 240))
        .insert("minecraft:azalea_leaves"@, translucent_color(75, 105, 35, 240))
        .insert("minecraft:flowering_azalea_leaves"@, translucent_color(140, 90, 110, 240))
        .insert("minecraft:mangrove_leaves"@, translucent_color(60, 110, 30, 240))
        .insert("minecraft:cherry_leaves"@, translucent_color(230, 160, 185, 240))
        .insert("minecraft:short_grass"@, translucent_color(80, 140, 45, 200))
        .insert("minecraft:tall_grass"@, translucent_color(80, 140, 45, 200))
        .insert("minecraft:fern"@, translucent_color(75, 135, 40, 200))
        .insert("minecraft:large_fern"@, translucent_color(75, 135, 40, 200))
        .insert("minecraft:dandelion"@, opaque_color(245, 215, 40))
        .insert("minecraft:poppy"@, opaque_color(220, 35, 35))
        .insert("minecraft:blue_orchid"@, opaque_color(45, 160, 225))
        .insert("minecraft:allium"@, opaque_color(180, 110, 220))
        .insert("minecraft:azure_bluet"@, opaque_color(220, 225, 230))
        .insert("minecraft:red_tulip"@, opaque_color(215, 40, 30))
        .insert("minecraft:orange_tulip"@, opaque_color(230, 115, 20))
        .insert("minecraft:white_tulip"@, opaque_color(230, 230, 235))
        .insert("minecraft:pink_tulip"@, opaque_color(235, 140, 175))
        .insert("minecraft:oxeye_daisy"@, opaque_color(225, 230, 230))
        .insert("minecraft:cornflower"@, opaque_color(65, 105, 215))
        .insert("minecraft:lily_of_the_valley"@, opaque_color(230, 235, 235))
        .insert("minecraft:wither_rose"@, opaque_color(35, 30, 30))
        .insert("minecraft:sunflower"@, opaque_color(240, 195, 30))
        .insert("minecraft:lilac"@, opaque_color(190, 135, 195))
        .insert("minecraft:rose_bush"@, opaque_color(195, 35, 35))
        .insert("minecraft:peony"@, opaque_color(220, 130, 155))
        .insert("minecraft:sugar_cane"@, opaque_color(135, 185, 80))
        .insert("minecraft:cactus"@, opaque_color(85, 125, 40))
        .insert("minecraft:bamboo"@, opaque_color(95, 145, 40))
        .insert("minecraft:vine"@, translucent_color(50, 100, 30, 180))
        .insert("minecraft:lily_pad"@, opaque_color(40, 95, 30))
        .insert("minecraft:waterlily"@, opaque_color(40, 95, 30))
        .insert("minecraft:glass"@, translucent_color(215, 230, 240, 80))
        .insert("minecraft:glass_pane"@, translucent_color(215, 230, 240, 80))
        .insert("minecraft:tinted_glass"@, translucent_color(40, 35, 45, 200))
        .insert("minecraft:ice"@, translucent_color(145, 180, 245, 190))
        .insert("minecraft:packed_ice"@, opaque_color(140, 175, 240))
        .insert("minecraft:blue_ice"@, opaque_color(115, 160, 245))
        .insert("minecraft:snow"@, opaque_color(240, 245, 245))
        .insert("minecraft:snow_layer"@, opaque_color(240, 245, 245))
        .insert("minecraft:netherrack"@, opaque_color(111, 40, 40))
        .insert("minecraft:crimson_nylium"@, opaque_color(142, 26, 40))
        .insert("minecraft:warped_nylium"@, opaque_color(43, 114, 104))
        .insert("minecraft:soul_sand"@, opaque_color(81, 62, 50))
        .insert("minecraft:soul_soil"@, opaque_color(75, 57, 46))
        .insert("minecraft:basalt"@, opaque_color(80, 81, 86))
        .insert("minecraft:smooth_basalt"@, opaque_color(75, 76, 80))
        .insert("minecraft:polished_basalt"@, opaque_color(85, 86, 90))
        .insert("minecraft:blackstone"@, opaque_color(42, 38, 46))
        .insert("minecraft:glowstone"@, opaque_color(189, 147, 94))
        .insert("minecraft:magma"@, opaque_color(142, 66, 27))
        .insert("minecraft:nether_bricks"@, opaque_color(44, 21, 26))
        .insert("minecraft:end_stone"@, opaque_color(220, 223, 158))
        .insert("minecraft:end_stone_bricks"@, opaque_color(218, 221, 155))
        .insert("minecraft:purpur_block"@, opaque_color(169, 125, 169))
        .insert("minecraft:stone_bricks"@, opaque_color(122, 122, 122))
        .insert("minecraft:mossy_stone_bricks"@, opaque_color(110, 124, 105))
        .insert("minecraft:cracked_stone_bricks"@, opaque_color(115, 115, 115))
        .insert("minecraft:chiseled_stone_bricks"@, opaque_color(118, 118, 118))
        .insert("minecraft:bricks"@, opaque_color(150, 70, 56))
        .insert("minecraft:brick_block"@, opaque_color(150, 70, 56))
        .insert("minecraft:mud_bricks"@, opaque_color(137, 104, 76))
        .insert("minecraft:prismarine"@, opaque_color(100, 158, 147))
        .insert("minecraft:prismarine_bricks"@, opaque_color(98, 170, 158))
        .insert("minecraft:dark_prismarine"@, opaque_color(52, 90, 76))
        .insert("minecraft:sea_lantern"@, opaque_color(172, 198, 192))
        .insert("minecraft:torch"@, translucent_color(255, 215, 0, 180))
        .insert("minecraft:air"@, invisible_color())
        .insert("minecraft:cave_air"@, invisible_color())
        .insert("minecraft:void_air"@, invisible_color())
        .insert("minecraft:structure_void"@, invisible_color())
        .insert("minecraft:light_block"@, invisible_color())
        .insert("minecraft:barrier"@, invisible_color())
}

/// Every name drawn as empty space is in the built-in table with the
/// invisible colour, so a colour map made by [`ColorMap::new`] gives it that
/// colour: a name for which `is_air` holds is looked up by `get` as
/// invisible.
pub proof fn lemma_air_names_invisible(name: Seq<char>)
    requires
        is_air_name(name),
    ensures
        standard_colors().contains_key(name),
        standard_colors()[name] == invisible_color(),
        (if standard_colors().contains_key(name) {
            standard_colors()[name]
        } else {
            guessed_color(name)
        }) == invisible_color(),
{
    reveal_strlit("minecraft:air");
    reveal_strlit("minecraft:cave_air");
    reveal_strlit("minecraft:void_air");
    reveal_strlit("minecraft:structure_void");
    reveal_strlit("minecraft:light_block");
    reveal_strlit("minecraft:barrier");
}

/// `name` holds `pattern` as a run of its UTF-8 bytes.
pub open spec fn name_has(name: Seq<char>, pattern: Seq<char>) -> bool {
    contains_bytes(encode_utf8(name), encode_utf8(pattern))
}

/// The colour of a name that is not in the table, guessed from words in
/// it, checked in this order: air, water, lava, leaves, log or wood,
/// plank, stone or rock, sand, dirt or soil, glass; anything else is mid
/// grey.
pub open spec fn guessed_color(name: Seq<char>) -> BlockColor {
    if name_has(name, "air"@) {
        invisible_color()
    } else if name_has(name, "water"@) {
        translucent_color(44, 98, 204, 180)
    } else if name_has(name, "lava"@) {
        opaque_color(216, 92, 18)
    } else if name_has(name, "leaves"@) {
        translucent_color(50, 110, 30, 240)
    } else if name_has(name, "log"@) || name_has(name, "wood"@) {
        opaque_color(110, 85, 50)
    } else if name_has(name, "plank"@) {
        opaque_color(160, 130, 80)
    } else if name_has(name, "stone"@) || name_has(name, "rock"@) {
        opaque_color(125, 125, 125)
    } else if name_has(name, "sand"@) {
        opaque_color(215, 200, 150)
    } else if name_has(name, "dirt"@) || name_has(name, "soil"@) {
        opaque_color(130, 95, 65)
    } else if name_has(name, "glass"@) {
        translucent_color(215, 230, 240, 80)
    } else {
        opaque_color(128, 128, 128)
    }
}

/// The names drawn as empty space.
pub open spec fn is_air_name(name: Seq<char>) -> bool {
    ||| name == "minecraft:air"@
    ||| name == "minecraft:cave_air"@
    ||| name == "minecraft:void_air"@
    ||| name == "minecraft:structure_void"@
    ||| name == "minecraft:light_block"@
    ||| name == "minecraft:barrier"@
}

/// `i` is the position of the last entry named `key`.
pub open spec fn is_last_color(entries: Seq<(&'static str, BlockColor)>, key: Seq<char>, i: int) -> bool {
    &&& 0 <= i < entries.len()
    &&& entries[i].0@ == key
    &&& forall|j: int| i < j < entries.len() ==> entries[j].0@ != key
}

proof fn lemma_color_lookup(entries: Seq<(&'static str, BlockColor)>, key: Seq<char>)
    ensures
        color_table(entries).contains_key(key) <==> exists|i: int|
            0 <= i < entries.len() && entries[i].0@ == key,
        forall|i: int| #[trigger] is_last_color(entries, key, i) ==> color_table(entries)[key]
            == entries[i].1,
    decreases entries.len(),
{
    if entries.len() > 0 {
        let prefix = entries.drop_last();
        lemma_color_lookup(prefix, key);
        assert forall|i: int| is_last_color(entries, key, i) implies color_table(entries)[key]
            == entries[i].1 by {
            if i < entries.len() - 1 {
                assert(is_last_color(prefix, key, i));
            }
        }
        if color_table(entries).contains_key(key) {
            if entries.last().0@ != key {
                let i = choose|i: int| 0 <= i < prefix.len() && prefix[i].0@ == key;
                assert(entries[i].0@ == key);
            } else {
                assert(entries[entries.len() - 1].0@ == key);
            }
        }
        if exists|i: int| 0 <= i < entries.len() && entries[i].0@ == key {
            let i = choose|i: int| 0 <= i < entries.len() && entries[i].0@ == key;
            if i < entries.len() - 1 {
                assert(prefix[i].0@ == key);
            }
        }
    }
}

/// Colours of block names.
///
/// The names are held in a vector of entries rather than a `HashMap`: vstd
/// specifies `HashMap` lookups only for keys that obey its key model
/// (integers, `bool` and boxes of them), so with text keys nothing about a
/// lookup could be proved. The view gives the entries as a map, a later
/// entry replacing an earlier one with the same name.
pub struct ColorMap {
    entries: Vec<(&'static str, BlockColor)>,
}

impl View for ColorMap {
    type V = Map<Seq<char>, BlockColor>;

    closed spec fn view(&self) -> Map<Seq<char>, BlockColor> {
        color_table(self.entries@)
    }
}

impl Default for ColorMap {
    fn default() -> (res: Self)
        ensures
            res@ == standard_colors(),
    {
        Self::new()
    }
}

impl ColorMap {
    fn add(&mut self, name: &'static str, color: BlockColor)
        ensures
            final(self)@ == old(self)@.insert(name@, color),
    {
        let ghost before = self.entries@;
        self.entries.push((name, color));
        assert(self.entries@.drop_last() =~= before);
    }

    /// The built-in colour table.
    #[verifier::rlimit(50)]
    pub fn new() -> (res: Self)
        ensures
            res@ == standard_colors(),
    {
        let mut cm = Self { entries: Vec::new() };
        assert(cm@ =~= Map::<Seq<char>, BlockColor>::empty());
        cm.add("minecraft:grass_block", BlockColor::opaque(92, 157, 59));
        cm.add("minecraft:grass", BlockColor::opaque(92, 157, 59));
        cm.add("minecraft:dirt", BlockColor::opaque(134, 96, 67));
        cm.add("minecraft:dirt_with_roots", BlockColor::opaque(138, 98, 70));
        cm.add("minecraft:coarse_dirt", BlockColor::opaque(119, 85, 59));
        cm.add("minecraft:podzol", BlockColor::opaque(90, 63, 28));
        cm.add("minecraft:mycelium", BlockColor::opaque(111, 99, 105));
        cm.add("minecraft:farmland", BlockColor::opaque(104, 66, 38));
        cm.add("minecraft:dirt_path", BlockColor::opaque(159, 126, 69));
        cm.add("minecraft:grass_path", BlockColor::opaque(159, 126, 69));
        cm.add("minecraft:mud", BlockColor::opaque(60, 57, 60));
        cm.add("minecraft:clay", BlockColor::opaque(160, 166, 179));
        cm.add("minecraft:stone", BlockColor::opaque(125, 125, 125));
        cm.add("minecraft:granite", BlockColor::opaque(154, 107, 89));
        cm.add("minecraft:polished_granite", BlockColor::opaque(154, 107, 89));
        cm.add("minecraft:diorite", BlockColor::opaque(188, 188, 191));
        cm.add("minecraft:polished_diorite", BlockColor::opaque(188, 188, 191));
        cm.add("minecraft:andesite", BlockColor::opaque(135, 135, 137));
        cm.add("minecraft:polished_andesite", BlockColor::opaque(135, 135, 137));
        cm.add("minecraft:deepslate", BlockColor::opaque(75, 75, 78));
        cm.add("minecraft:cobbled_deepslate", BlockColor::opaque(75, 75, 78));
        cm.add("minecraft:polished_deepslate", BlockColor::opaque(70, 70, 72));
        cm.add("minecraft:tuff", BlockColor::opaque(108, 109, 102));
        cm.add("minecraft:calcite", BlockColor::opaque(224, 225, 220));
        cm.add("minecraft:dripstone_block", BlockColor::opaque(134, 106, 92));
        cm.add("minecraft:pointed_dripstone", BlockColor::opaque(134, 106, 92));
        cm.add("minecraft:bedrock", BlockColor::opaque(55, 55, 55));
        cm.add("minecraft:cobblestone", BlockColor::opaque(120, 120, 120));
        cm.add("minecraft:mossy_cobblestone", BlockColor::opaque(100, 122, 95));
        cm.add("minecraft:gravel", BlockColor::opaque(136, 131, 131));
        cm.add("minecraft:sand", BlockColor::opaque(219, 206, 153));
        cm.add("minecraft:red_sand", BlockColor::opaque(190, 103, 34));
        cm.add("minecraft:sandstone", BlockColor::opaque(216, 203, 155));
        cm.add("minecraft:red_sandstone", BlockColor::opaque(181, 97, 31));
        cm.add("minecraft:obsidian", BlockColor::opaque(20, 18, 30));
        cm.add("minecraft:crying_obsidian", BlockColor::opaque(34, 16, 52));
        cm.add("minecraft:coal_ore", BlockColor::opaque(105, 105, 105));
        cm.add("minecraft:deepslate_coal_ore", BlockColor::opaque(65, 65, 68));
        cm.add("minecraft:iron_ore", BlockColor::opaque(136, 124, 117));
        cm.add("minecraft:deepslate_iron_ore", BlockColor::opaque(82, 77, 74));
        cm.add("minecraft:copper_ore", BlockColor::opaque(128, 118, 112));
        cm.add("minecraft:deepslate_copper_ore", BlockColor::opaque(78, 74, 71));
        cm.add("minecraft:gold_ore", BlockColor::opaque(143, 136, 103));
        cm.add("minecraft:deepslate_gold_ore", BlockColor::opaque(88, 85, 67));
        cm.add("minecraft:redstone_ore", BlockColor::opaque(140, 95, 95));
        cm.add("minecraft:lit_redstone_ore", BlockColor::opaque(180, 70, 70));
        cm.add("minecraft:deepslate_redstone_ore", BlockColor::opaque(90, 60, 60));
        cm.add("minecraft:lapis_ore", BlockColor::opaque(102, 114, 138));
        cm.add("minecraft:deepslate_lapis_ore", BlockColor::opaque(62, 70, 88));
        cm.add("minecraft:diamond_ore", BlockColor::opaque(114, 142, 140));
        cm.add("minecraft:deepslate_diamond_ore", BlockColor::opaque(68, 90, 90));
        cm.add("minecraft:emerald_ore", BlockColor::opaque(106, 136, 112));
        cm.add("minecraft:deepslate_emerald_ore", BlockColor::opaque(64, 88, 70));
        cm.add("minecraft:water", BlockColor::translucent(44, 98, 204, 180));
        cm.add("minecraft:flowing_water", BlockColor::translucent(44, 98, 204, 180));
        cm.add("minecraft:lava", BlockColor::opaque(216, 92, 18));
        cm.add("minecraft:flowing_lava", BlockColor::opaque(216, 92, 18));
        cm.add("minecraft:oak_log", BlockColor::opaque(103, 82, 49));
        cm.add("minecraft:spruce_log", BlockColor::opaque(59, 39, 19));
        cm.add("minecraft:birch_log", BlockColor::opaque(215, 215, 210));
        cm.add("minecraft:jungle_log", BlockColor::opaque(86, 68, 27));
        cm.add("minecraft:acacia_log", BlockColor::opaque(104, 98, 89));
        cm.add("minecraft:dark_oak_log", BlockColor::opaque(60, 47, 26));
        cm.add("minecraft:mangrove_log", BlockColor::opaque(84, 42, 33));
        cm.add("minecraft:cherry_log", BlockColor::opaque(54, 27, 34));
        cm.add("minecraft:crimson_stem", BlockColor::opaque(101, 30, 48));
        cm.add("minecraft:warped_stem", BlockColor::opaque(43, 105, 99));
        cm.add("minecraft:oak_planks", BlockColor::opaque(162, 130, 78));
        cm.add("minecraft:spruce_planks", BlockColor::opaque(104, 78, 47));
        cm.add("minecraft:birch_planks", BlockColor::opaque(196, 178, 123));
        cm.add("minecraft:jungle_planks", BlockColor::opaque(160, 115, 80));
        cm.add("minecraft:acacia_planks", BlockColor::opaque(168, 90, 50));
        cm.add("minecraft:dark_oak_planks", BlockColor::opaque(66, 43, 20));
        cm.add("minecraft:mangrove_planks", BlockColor::opaque(118, 54, 46));
        cm.add("minecraft:cherry_planks", BlockColor::opaque(226, 178, 173));
        cm.add("minecraft:bamboo_planks", BlockColor::opaque(194, 168, 77));
        cm.add("minecraft:crimson_planks", BlockColor::opaque(101, 48, 70));
        cm.add("minecraft:warped_planks", BlockColor::opaque(43, 105, 99));
        cm.add("minecraft:leaves", BlockColor::translucent(45, 115, 30, 240));
        cm.add("minecraft:oak_leaves", BlockColor::translucent(45, 115, 30, 240));
        cm.add("minecraft:spruce_leaves", BlockColor::translucent(55, 90, 55, 240));
        cm.add("minecraft:birch_leaves", BlockColor::translucent(90, 130, 45, 240));
        cm.add("minecraft:jungle_leaves", BlockColor::translucent(35, 120, 20, 240));
        cm.add("minecraft:acacia_leaves", BlockColor::translucent(75, 110, 25, 240));
        cm.add("minecraft:dark_oak_leaves", BlockColor::translucent(30, 85, 15, 240));
        cm.add("minecraft:azalea_leaves", BlockColor::translucent(75, 105, 35, 240));
        cm.add("minecraft:flowering_azalea_leaves", BlockColor::translucent(140, 90, 110, 240));
        cm.add("minecraft:mangrove_leaves", BlockColor::translucent(60, 110, 30, 240));
        cm.add("minecraft:cherry_leaves", BlockColor::translucent(230, 160, 185, 240));
        cm.add("minecraft:short_grass", BlockColor::translucent(80, 140, 45, 200));
        cm.add("minecraft:tall_grass", BlockColor::translucent(80, 140, 45, 200));
        cm.add("minecraft:fern", BlockColor::translucent(75, 135, 40, 200));
        cm.add("minecraft:large_fern", BlockColor::translucent(75, 135, 40, 200));
        cm.add("minecraft:dandelion", BlockColor::opaque(245, 215, 40));
        cm.add("minecraft:poppy", BlockColor::opaque(220, 35, 35));
        cm.add("minecraft:blue_orchid", BlockColor::opaque(45, 160, 225));
        cm.add("minecraft:allium", BlockColor::opaque(180, 110, 220));
        cm.add("minecraft:azure_bluet", BlockColor::opaque(220, 225, 230));
        cm.add("minecraft:red_tulip", BlockColor::opaque(215, 40, 30));
        cm.add("minecraft:orange_tulip", BlockColor::opaque(230, 115, 20));
        cm.add("minecraft:white_tulip", BlockColor::opaque(230, 230, 235));
        cm.add("minecraft:pink_tulip", BlockColor::opaque(235, 140, 175));
        cm.add("minecraft:oxeye_daisy", BlockColor::opaque(225, 230, 230));
        cm.add("minecraft:cornflower", BlockColor::opaque(65, 105, 215));
        cm.add("minecraft:lily_of_the_valley", BlockColor::opaque(230, 235, 235));
        cm.add("minecraft:wither_rose", BlockColor::opaque(35, 30, 30));
        cm.add("minecraft:sunflower", BlockColor::opaque(240, 195, 30));
        cm.add("minecraft:lilac", BlockColor::opaque(190, 135, 195));
        cm.add("minecraft:rose_bush", BlockColor::opaque(195, 35, 35));
        cm.add("minecraft:peony", BlockColor::opaque(220, 130, 155));
        cm.add("minecraft:sugar_cane", BlockColor::opaque(135, 185, 80));
        cm.add("minecraft:cactus", BlockColor::opaque(85, 125, 40));
        cm.add("minecraft:bamboo", BlockColor::opaque(95, 145, 40));
        cm.add("minecraft:vine", BlockColor::translucent(50, 100, 30, 180));
        cm.add("minecraft:lily_pad", BlockColor::opaque(40, 95, 30));
        cm.add("minecraft:waterlily", BlockColor::opaque(40, 95, 30));
        cm.add("minecraft:glass", BlockColor::translucent(215, 230, 240, 80));
        cm.add("minecraft:glass_pane", BlockColor::translucent(215, 230, 240, 80));
        cm.add("minecraft:tinted_glass", BlockColor::translucent(40, 35, 45, 200));
        cm.add("minecraft:ice", BlockColor::translucent(145, 180, 245, 190));
        cm.add("minecraft:packed_ice", BlockColor::opaque(140, 175, 240));
        cm.add("minecraft:blue_ice", BlockColor::opaque(115, 160, 245));
        cm.add("minecraft:snow", BlockColor::opaque(240, 245, 245));
        cm.add("minecraft:snow_layer", BlockColor::opaque(240, 245, 245));
        cm.add("minecraft:netherrack", BlockColor::opaque(111, 40, 40));
        cm.add("minecraft:crimson_nylium", BlockColor::opaque(142, 26, 40));
        cm.add("minecraft:warped_nylium", BlockColor::opaque(43, 114, 104));
        cm.add("minecraft:soul_sand", BlockColor::opaque(81, 62, 50));
        cm.add("minecraft:soul_soil", BlockColor::opaque(75, 57, 46));
        cm.add("minecraft:basalt", BlockColor::opaque(80, 81, 86));
        cm.add("minecraft:smooth_basalt", BlockColor::opaque(75, 76, 80));
        cm.add("minecraft:polished_basalt", BlockColor::opaque(85, 86, 90));
        cm.add("minecraft:blackstone", BlockColor::opaque(42, 38, 46));
        cm.add("minecraft:glowstone", BlockColor::opaque(189, 147, 94));
        cm.add("minecraft:magma", BlockColor::opaque(142, 66, 27));
        cm.add("minecraft:nether_bricks", BlockColor::opaque(44, 21, 26));
        cm.add("minecraft:end_stone", BlockColor::opaque(220, 223, 158));
        cm.add("minecraft:end_stone_bricks", BlockColor::opaque(218, 221, 155));
        cm.add("minecraft:purpur_block", BlockColor::opaque(169, 125, 169));
        cm.add("minecraft:stone_bricks", BlockColor::opaque(122, 122, 122));
        cm.add("minecraft:mossy_stone_bricks", BlockColor::opaque(110, 124, 105));
        cm.add("minecraft:cracked_stone_bricks", BlockColor::opaque(115, 115, 115));
        cm.add("minecraft:chiseled_stone_bricks", BlockColor::opaque(118, 118, 118));
        cm.add("minecraft:bricks", BlockColor::opaque(150, 70, 56));
        cm.add("minecraft:brick_block", BlockColor::opaque(150, 70, 56));
        cm.add("minecraft:mud_bricks", BlockColor::opaque(137, 104, 76));
        cm.add("minecraft:prismarine", BlockColor::opaque(100, 158, 147));
        cm.add("minecraft:prismarine_bricks", BlockColor::opaque(98, 170, 158));
        cm.add("minecraft:dark_prismarine", BlockColor::opaque(52, 90, 76));
        cm.add("minecraft:sea_lantern", BlockColor::opaque(172, 198, 192));
        cm.add("minecraft:torch", BlockColor::translucent(255, 215, 0, 180));
        cm.add("minecraft:air", BlockColor::invisible());
        cm.add("minecraft:cave_air", BlockColor::invisible());
        cm.add("minecraft:void_air", BlockColor::invisible());
        cm.add("minecraft:structure_void", BlockColor::invisible());
        cm.add("minecraft:light_block", BlockColor::invisible());
        cm.add("minecraft:barrier", BlockColor::invisible());
        cm
    }

    /// The colour of a block name: from the table, else guessed from the
    /// name.
    pub fn get(&self, block_name: &str) -> (res: BlockColor)
        ensures
            res == if self@.contains_key(block_name@) {
                self@[block_name@]
            } else {
                guessed_color(block_name@)
            },
    {
        let mut i = self.entries.len();
        while i > 0
            invariant
                i <= self.entries@.len(),
                forall|j: int| i <= j < self.entries@.len() ==> self.entries@[j].0@ != block_name@,
            decreases i,
        {
            i = i - 1;
            if str_equal(self.entries[i].0, block_name) {
                proof {
                    lemma_color_lookup(self.entries@, block_name@);
                    assert(is_last_color(self.entries@, block_name@, i as int));
                }
                return self.entries[i].1;
            }
        }
        proof {
            lemma_color_lookup(self.entries@, block_name@);
        }
        let b = block_name.as_bytes();
        if find_bytes(b, "air".as_bytes()) {
            return BlockColor::invisible();
        }
        if find_bytes(b, "water".as_bytes()) {
            return BlockColor::translucent(44, 98, 204, 180);
        }
        if find_bytes(b, "lava".as_bytes()) {
            return BlockColor::opaque(216, 92, 18);
        }
        if find_bytes(b, "leaves".as_bytes()) {
            return BlockColor::translucent(50, 110, 30, 240);
        }
        if find_bytes(b, "log".as_bytes()) || find_bytes(b, "wood".as_bytes()) {
            return BlockColor::opaque(110, 85, 50);
        }
        if find_bytes(b, "plank".as_bytes()) {
            return BlockColor::opaque(160, 130, 80);
        }
        if find_bytes(b, "stone".as_bytes()) || find_bytes(b, "rock".as_bytes()) {
            return BlockColor::opaque(125, 125, 125);
        }
        if find_bytes(b, "sand".as_bytes()) {
            return BlockColor::opaque(215, 200, 150);
        }
        if find_bytes(b, "dirt".as_bytes()) || find_bytes(b, "soil".as_bytes()) {
            return BlockColor::opaque(130, 95, 65);
        }
        if find_bytes(b, "glass".as_bytes()) {
            return BlockColor::translucent(215, 230, 240, 80);
        }
        BlockColor::opaque(128, 128, 128)
    }

    /// Whether a block name is drawn as empty space.
    pub fn is_air(&self, block_name: &str) -> (res: bool)
        ensures
            res == is_air_name(block_name@),
    {
        str_equal(block_name, "minecraft:air") || str_equal(block_name, "minecraft:cave_air")
            || str_equal(block_name, "minecraft:void_air") || str_equal(
            block_name,
            "minecraft:structure_void",
        ) || str_equal(block_name, "minecraft:light_block") || str_equal(
            block_name,
            "minecraft:barrier",
        )
    }
}

} // verus!
