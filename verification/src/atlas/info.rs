//! The records of a font that speak of its rendering, its pages and its
//! glyphs.

use crate::text::{decimal_text, push_decimal};
use vstd::prelude::*;
use vstd::string::StringExecFns;

verus! {

/// How the font was rendered.
#[derive(Clone, Debug, PartialEq, Eq)]
pub struct HieroInfo {
    pub face: String,
    pub size: i32,
    pub bold: i32,
    pub italic: i32,
    pub char_set: String,
    pub unicode: i32,
    pub stretch_h: i32,
    pub smooth: i32,
    pub aa: i32,
    pub padding: Vec<i32>,
    pub spacing: Vec<i32>,
}

/// What a [`HieroInfo`] holds, as mathematical values.
pub struct InfoView {
    pub face: Seq<char>,
    pub size: i32,
    pub bold: i32,
    pub italic: i32,
    pub char_set: Seq<char>,
    pub unicode: i32,
    pub stretch_h: i32,
    pub smooth: i32,
    pub aa: i32,
    pub padding: Seq<i32>,
    pub spacing: Seq<i32>,
}

impl InfoView {
    /// The record with every number zero and every text and list empty.
    pub open spec fn empty() -> InfoView {
        InfoView {
            face: Seq::empty(),
            size: 0,
            bold: 0,
            italic: 0,
            char_set: Seq::empty(),
            unicode: 0,
            stretch_h: 0,
            smooth: 0,
            aa: 0,
            padding: Seq::empty(),
            spacing: Seq::empty(),
        }
    }
}

impl View for HieroInfo {
    type V = InfoView;

    open spec fn view(&self) -> InfoView {
        InfoView {
            face: self.face@,
            size: self.size,
            bold: self.bold,
            italic: self.italic,
            char_set: self.char_set@,
            unicode: self.unicode,
            stretch_h: self.stretch_h,
            smooth: self.smooth,
            aa: self.aa,
            padding: self.padding@,
            spacing: self.spacing@,
        }
    }
}

impl Default for HieroInfo {
    fn default() -> (res: Self)
        ensures
            res@ == InfoView::empty(),
    {
        HieroInfo {
            face: String::new(),
            size: 0,
            bold: 0,
            italic: 0,
            char_set: String::new(),
            unicode: 0,
            stretch_h: 0,
            smooth: 0,
            aa: 0,
            padding: Vec::new(),
            spacing: Vec::new(),
        }
    }
}

/// The shape of a decoded page.
#[derive(Clone, Copy, Debug, PartialEq, Eq, Structural)]
pub struct PageInfo {
    pub width: u32,
    pub height: u32,
    /// Samples per pixel: 3 for RGB, 4 for RGBA.
    pub samples: u32,
    /// Bytes per row of pixels.
    pub line_size: u32,
}

impl Default for PageInfo {
    fn default() -> (res: Self)
        ensures
            res == (PageInfo { width: 0, height: 0, samples: 0, line_size: 0 }),
    {
        PageInfo { width: 0, height: 0, samples: 0, line_size: 0 }
    }
}

/// Where one glyph lies on its page and how it is placed when drawn. The
/// pixels are those of the page between the top left corner `(x, y)` and the
/// bottom right corner `(x + width, y + height)`.
#[derive(Clone, Copy, Debug, PartialEq, Eq, Structural)]
pub struct HieroBitmapInfo {
    pub x: i32,
    pub y: i32,
    pub width: i32,
    pub height: i32,
    pub xoffset: i32,
    pub yoffset: i32,
    pub xadvance: i32,
    pub page: i32,
    pub channel: i32,
}

impl Default for HieroBitmapInfo {
    fn default() -> (res: Self)
        ensures
            res == (HieroBitmapInfo {
                x: 0,
                y: 0,
                width: 0,
                height: 0,
                xoffset: 0,
                yoffset: 0,
                xadvance: 0,
                page: 0,
                channel: 0,
            }),
    {
        HieroBitmapInfo {
            x: 0,
            y: 0,
            width: 0,
            height: 0,
            xoffset: 0,
            yoffset: 0,
            xadvance: 0,
            page: 0,
            channel: 0,
        }
    }
}

/// A glyph record on one line of text, each value under a short name.
pub open spec fn glyph_text(glyph: HieroBitmapInfo) -> Seq<char> {
    "[x:"@ + decimal_text(glyph.x as int) + ",y:"@ + decimal_text(glyph.y as int) + ",w:"@
        + decimal_text(glyph.width as int) + ",h:"@ + decimal_text(glyph.height as int) + ",xoff:"@
        + decimal_text(glyph.xoffset as int) + ",yoff:"@ + decimal_text(glyph.yoffset as int)
        + ",xadv:"@ + decimal_text(glyph.xadvance as int) + ",pg_num:"@ + decimal_text(
        glyph.page as int,
    ) + ",channel:"@ + decimal_text(glyph.channel as int) + "]"@
}

impl HieroBitmapInfo {
    /// The record on one line of text, as a dump shows it.
    pub fn to_text(&self) -> (res: String)
        ensures
            res@ == glyph_text(*self),
    {
        let mut out = String::new();
        out.append("[x:");
        push_decimal(&mut out, self.x);
        out.append(",y:");
        push_decimal(&mut out, self.y);
        out.append(",w:");
        push_decimal(&mut out, self.width);
        out.append(",h:");
        push_decimal(&mut out, self.height);
        out.append(",xoff:");
        push_decimal(&mut out, self.xoffset);
        out.append(",yoff:");
        push_decimal(&mut out, self.yoffset);
        out.append(",xadv:");
        push_decimal(&mut out, self.xadvance);
        out.append(",pg_num:");
        push_decimal(&mut out, self.page);
        out.append(",channel:");
        push_decimal(&mut out, self.channel);
        out.append("]");
        out
    }
}

} // verus!
