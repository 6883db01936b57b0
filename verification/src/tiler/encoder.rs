use crate::common::text::str_equal;
use crate::common::utf8::{lowercase, lowercase_of};
use vstd::prelude::*;

verus! {

/// The image format tiles are written in.
#[derive(Clone, Copy, Debug, PartialEq, Eq, Structural)]
pub enum TileFormat {
    Png,
    Webp,
}

/// The format a lower-case format name stands for: `webp` names WebP and
/// anything else PNG.
pub open spec fn format_of_lowercase(name: Seq<char>) -> TileFormat {
    if name == "webp"@ {
        TileFormat::Webp
    } else {
        TileFormat::Png
    }
}

/// The file extension of tiles in a format.
pub open spec fn format_extension(f: TileFormat) -> Seq<char> {
    match f {
        TileFormat::Png => "png"@,
        TileFormat::Webp => "webp"@,
    }
}

impl TileFormat {
    /// The file extension of tiles in this format.
    pub fn extension(&self) -> (res: &'static str)
        ensures
            res@ == format_extension(*self),
    {
        match self {
            TileFormat::Png => "png",
            TileFormat::Webp => "webp",
        }
    }

    /// The format named by an already lower-cased name.
    pub fn from_lowercase_name(name: &str) -> (res: Self)
        ensures
            res == format_of_lowercase(name@),
    {
        if str_equal(name, "webp") {
            TileFormat::Webp
        } else {
            TileFormat::Png
        }
    }

    /// The format named by `s`, in any letter case: `webp` names WebP and
    /// anything else PNG.
    pub fn from_str(s: &str) -> (res: Self)
        ensures
            res == format_of_lowercase(lowercase_of(s@)),
    {
        let lower = lowercase(s);
        Self::from_lowercase_name(lower.as_str())
    }
}

} // verus!
