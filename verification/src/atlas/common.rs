//! The `common` record of a font.

use vstd::prelude::*;

verus! {

/// The layout that all glyphs of a font share.
#[derive(Clone, Copy, Debug, PartialEq, Eq, Structural)]
pub struct HieroCommon {
    pub line_height: i32,
    pub base: i32,
    pub scale_w: i32,
    pub scale_h: i32,
    pub pages: i32,
    pub packed: i32,
}

impl Default for HieroCommon {
    fn default() -> (res: Self)
        ensures
            res == (HieroCommon {
                line_height: 0,
                base: 0,
                scale_w: 0,
                scale_h: 0,
                pages: 0,
                packed: 0,
            }),
    {
        HieroCommon { line_height: 0, base: 0, scale_w: 0, scale_h: 0, pages: 0, packed: 0 }
    }
}

} // verus!
