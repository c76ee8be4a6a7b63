//! The atlas: the records of a font together with the compressed pages that
//! hold its glyphs.

pub mod builder;
pub mod codec;
pub mod common;
pub mod info;
pub mod order;
pub mod page;

pub use self::builder::{build, AtlasBuilder, HieroIncomplete};
pub use self::common::HieroCommon;
pub use self::info::{HieroBitmapInfo, HieroInfo, InfoView, PageInfo};
pub use self::page::{page_info_of, png_frame, png_header, HieroPage, PageView, PngHeader};

use self::codec::{
    atlas_of_wire, bincode_bytes, bincode_deserialize, bincode_serialize, decoded_atlas,
    glyph_entries, glyph_listing, glyph_table_from, glyphs_ascending, kerning_listing,
    kerning_table_from, lemma_listing_is_unique, lemma_round_trip, list_glyphs, list_kernings,
    listing_of, lists_atlas, lists_glyphs, lists_kernings, wire_view, AtlasListing, AtlasWire,
};
use self::page::{limits_exceeded, read_png_frame, read_png_header};
use crate::chars::is_whitespace_char;
use crate::err::{Error, PageUnpackError};
use crate::parse::records::{
    glyph_keys_valid, kerning_key, kerning_keys_valid, make_kerning_key,
};
use std::collections::HashMap;
use vstd::prelude::*;

verus! {

broadcast use vstd::std_specs::hash::group_hash_axioms;

/// What an atlas holds, as mathematical values. Glyphs are keyed by
/// codepoint, kerning amounts by [`kerning_key`].
pub struct AtlasView {
    pub info: InfoView,
    pub common: HieroCommon,
    pub glyphs: Map<u32, HieroBitmapInfo>,
    pub kernings: Map<u64, i32>,
    pub pages: Seq<Seq<u8>>,
}

impl AtlasView {
    /// The atlas that holds nothing.
    pub open spec fn empty() -> AtlasView {
        AtlasView {
            info: InfoView::empty(),
            common: HieroCommon {
                line_height: 0,
                base: 0,
                scale_w: 0,
                scale_h: 0,
                pages: 0,
                packed: 0,
            },
            glyphs: Map::empty(),
            kernings: Map::empty(),
            pages: Seq::empty(),
        }
    }
}

/// The contents of a list of byte buffers, in order.
pub open spec fn pages_view(pages: Seq<Vec<u8>>) -> Seq<Seq<u8>> {
    Seq::new(pages.len(), |i: int| pages[i]@)
}

/// A buffer of `n` zero bytes.
pub open spec fn zeros(n: nat) -> Seq<u8> {
    Seq::new(n, |i: int| 0u8)
}

/// The page that the bytes of a compressed page decode to: the frame that
/// the decoder writes over a zeroed buffer of the size that the header
/// announces, with the shape that the header announces. A page whose rows
/// take more bytes than 32 bits can count has no decoded form.
pub open spec fn decoded_page(bytes: Seq<u8>) -> Option<PageView> {
    match png_header(bytes) {
        None => None,
        Some(header) => if header.line_size > u32::MAX {
            None
        } else {
            match png_frame(bytes, zeros(header.buffer_size as nat)) {
                None => None,
                Some(pixels) => Some(PageView { pixels, info: page_info_of(header) }),
            }
        },
    }
}

/// What unpacking page `index` of `pages` results in: no page at that index
/// is an invalid index; a page that decodes is its decoded page; one that
/// does not is a decode error.
pub open spec fn unpacks_to(
    pages: Seq<Seq<u8>>,
    index: int,
    res: Result<HieroPage, PageUnpackError>,
) -> bool {
    if !(0 <= index < pages.len()) {
        res matches Err(PageUnpackError::InvalidIndex)
    } else {
        match decoded_page(pages[index]) {
            Some(page) => res matches Ok(unpacked) && unpacked@ == page,
            None => res matches Err(PageUnpackError::PageDecodeError(_)),
        }
    }
}

/// Unpacking the same page twice gives the same outcome: the same pixels and
/// the same shape, or twice the same kind of error.
pub proof fn lemma_unpack_is_repeatable(
    pages: Seq<Seq<u8>>,
    index: int,
    first: Result<HieroPage, PageUnpackError>,
    second: Result<HieroPage, PageUnpackError>,
)
    requires
        unpacks_to(pages, index, first),
        unpacks_to(pages, index, second),
    ensures
        first is Ok <==> second is Ok,
        first is Ok ==> first->Ok_0@ == second->Ok_0@,
        first matches Err(PageUnpackError::InvalidIndex) <==> second matches Err(
            PageUnpackError::InvalidIndex,
        ),
{
}

/// No page is unpacked from an index at or past the number of pages,
/// whatever else the atlas holds.
pub proof fn lemma_unpack_past_end(
    pages: Seq<Seq<u8>>,
    index: int,
    res: Result<HieroPage, PageUnpackError>,
)
    requires
        index >= pages.len(),
        unpacks_to(pages, index, res),
    ensures
        res matches Err(PageUnpackError::InvalidIndex),
{
}

/// The finished atlas of a font.
pub struct HieroAtlas {
    info: HieroInfo,
    common: HieroCommon,
    bitmap_table: HashMap<u32, HieroBitmapInfo>,
    kerning_table: HashMap<u64, i32>,
    compressed_pages: Vec<Vec<u8>>,
}

impl View for HieroAtlas {
    type V = AtlasView;

    closed spec fn view(&self) -> AtlasView {
        AtlasView {
            info: self.info@,
            common: self.common,
            glyphs: self.bitmap_table@,
            kernings: self.kerning_table@,
            pages: pages_view(self.compressed_pages@),
        }
    }
}

impl HieroAtlas {
    #[verifier::type_invariant]
    spec fn keys_valid(self) -> bool {
        glyph_keys_valid(self.bitmap_table@) && kerning_keys_valid(self.kerning_table@)
    }

    /// Starts an atlas that holds nothing yet.
    pub fn new() -> (res: HieroIncomplete<Self>)
        ensures
            res@@ == AtlasView::empty(),
    {
        let empty = Self {
            info: HieroInfo::default(),
            common: HieroCommon::default(),
            bitmap_table: HashMap::new(),
            kerning_table: HashMap::new(),
            compressed_pages: Vec::new(),
        };
        assert(empty@.pages =~= Seq::<Seq<u8>>::empty());
        HieroIncomplete::new(empty)
    }

    /// The same atlas with other records.
    pub(crate) fn with_records(
        self,
        info: HieroInfo,
        common: HieroCommon,
        glyphs: HashMap<u32, HieroBitmapInfo>,
        kernings: HashMap<u64, i32>,
    ) -> (res: Self)
        requires
            glyph_keys_valid(glyphs@),
            kerning_keys_valid(kernings@),
        ensures
            res@ == (AtlasView {
                info: info@,
                common,
                glyphs: glyphs@,
                kernings: kernings@,
                pages: self@.pages,
            }),
    {
        Self {
            info,
            common,
            bitmap_table: glyphs,
            kerning_table: kernings,
            compressed_pages: self.compressed_pages,
        }
    }

    /// The same atlas with other pages.
    pub(crate) fn with_page_list(self, pages: Vec<Vec<u8>>) -> (res: Self)
        ensures
            res@ == (AtlasView { pages: pages_view(pages@), ..self@ }),
    {
        proof {
            use_type_invariant(&self);
        }
        Self {
            info: self.info,
            common: self.common,
            bitmap_table: self.bitmap_table,
            kerning_table: self.kerning_table,
            compressed_pages: pages,
        }
    }

    /// How the font was rendered.
    pub fn info(&self) -> (res: &HieroInfo)
        ensures
            res@ == self@.info,
    {
        &self.info
    }

    /// The layout that all glyphs share.
    pub fn common(&self) -> (res: HieroCommon)
        ensures
            res == self@.common,
    {
        self.common
    }

    /// The record of the glyph for `c`, if the atlas has one.
    pub fn glyph(&self, c: char) -> (res: Option<HieroBitmapInfo>)
        ensures
            res == if self@.glyphs.contains_key(c as u32) {
                Some(self@.glyphs[c as u32])
            } else {
                None
            },
    {
        let key = c as u32;
        match self.bitmap_table.get(&key) {
            Some(glyph) => Some(*glyph),
            None => None,
        }
    }

    /// The kerning amount between `first` and `second`, if the atlas has one.
    pub fn kerning(&self, first: char, second: char) -> (res: Option<i32>)
        ensures
            res == if self@.kernings.contains_key(kerning_key(first as u32, second as u32)) {
                Some(self@.kernings[kerning_key(first as u32, second as u32)])
            } else {
                None
            },
    {
        let key = make_kerning_key(first as u32, second as u32);
        match self.kerning_table.get(&key) {
            Some(amount) => Some(*amount),
            None => None,
        }
    }

    /// The glyphs of the atlas, each with its character, in ascending order
    /// of the codepoints.
    pub fn glyphs(&self) -> (res: Vec<(char, HieroBitmapInfo)>)
        ensures
            lists_glyphs(res@, self@.glyphs),
            res@ == glyph_listing(self@.glyphs),
    {
        proof {
            use_type_invariant(self);
        }
        let listed = list_glyphs(&self.bitmap_table);
        let mut res: Vec<(char, HieroBitmapInfo)> = Vec::new();
        let mut i: usize = 0;
        while i < listed.len()
            invariant
                0 <= i <= listed@.len(),
                res@ == glyph_entries(listed@).take(i as int),
            decreases listed@.len() - i,
        {
            let (c, g) = listed[i];
            res.push(
                (
                    c,
                    HieroBitmapInfo {
                        x: g.0,
                        y: g.1,
                        width: g.2,
                        height: g.3,
                        xoffset: g.4,
                        yoffset: g.5,
                        xadvance: g.6,
                        page: g.7,
                        channel: g.8,
                    },
                ),
            );
            i += 1;
            assert(res@ =~= glyph_entries(listed@).take(i as int));
        }
        assert(res@ =~= glyph_entries(listed@));
        res
    }

    /// The glyphs to show in a dump: those whose character is no white
    /// space, in ascending order of the codepoints.
    pub fn visible_glyphs(&self) -> (res: Vec<(char, HieroBitmapInfo)>)
        ensures
            forall|i: int|
                0 <= i < res@.len() ==> !is_whitespace_char((#[trigger] res@[i]).0)
                    && self@.glyphs.contains_key(res@[i].0 as u32) && self@.glyphs[res@[i].0 as u32]
                    == res@[i].1,
            forall|c: char|
                self@.glyphs.contains_key(c as u32) && !is_whitespace_char(c) ==> exists|i: int|
                    0 <= i < res@.len() && (#[trigger] res@[i]).0 == c,
            glyphs_ascending(res@),
    {
        let all = self.glyphs();
        let mut res: Vec<(char, HieroBitmapInfo)> = Vec::new();
        let mut i: usize = 0;
        let ghost mut picked: Seq<int> = Seq::empty();
        while i < all.len()
            invariant
                0 <= i <= all@.len(),
                lists_glyphs(all@, self@.glyphs),
                picked.len() == res@.len(),
                forall|j: int|
                    0 <= j < picked.len() ==> 0 <= #[trigger] picked[j] < i && res@[j]
                        == all@[picked[j]],
                forall|j: int, k: int|
                    0 <= j < k < picked.len() ==> #[trigger] picked[j] < #[trigger] picked[k],
                forall|j: int|
                    0 <= j < res@.len() ==> !is_whitespace_char((#[trigger] res@[j]).0)
                        && self@.glyphs.contains_key(res@[j].0 as u32)
                        && self@.glyphs[res@[j].0 as u32] == res@[j].1,
                forall|k: int|
                    0 <= k < i && !is_whitespace_char((#[trigger] all@[k]).0) ==> exists|j: int|
                        0 <= j < res@.len() && (#[trigger] res@[j]).0 == all@[k].0,
            decreases all@.len() - i,
        {
            let entry = all[i];
            let ghost before = res@;
            if !entry.0.is_whitespace() {
                res.push(entry);
                proof {
                    picked = picked.push(i as int);
                }
            }
            proof {
                assert forall|k: int|
                    0 <= k < i + 1 && !is_whitespace_char((#[trigger] all@[k]).0) implies exists|
                    j: int,
                |
                    0 <= j < res@.len() && (#[trigger] res@[j]).0 == all@[k].0 by {
                    if k < i {
                        let j = choose|j: int|
                            0 <= j < before.len() && (#[trigger] before[j]).0 == all@[k].0;
                        assert(res@[j] == before[j]);
                    } else {
                        assert(res@[res@.len() - 1] == entry);
                    }
                }
            }
            i += 1;
        }
        proof {
            assert forall|c: char|
                self@.glyphs.contains_key(c as u32) && !is_whitespace_char(c) implies exists|
                i: int,
            |
                0 <= i < res@.len() && (#[trigger] res@[i]).0 == c by {
                let k = choose|k: int| 0 <= k < all@.len() && (#[trigger] all@[k]).0 as u32 == c as u32;
                vstd::utf8::char_u32_cast(c, c as u32);
                vstd::utf8::char_u32_cast(all@[k].0, all@[k].0 as u32);
                assert(all@[k].0 == c);
            }
            assert forall|j: int, k: int| 0 <= j < k < res@.len() implies ((
            #[trigger] res@[j]).0 as u32) < ((#[trigger] res@[k]).0 as u32) by {
                assert(picked[j] < picked[k]);
                assert((all@[picked[j]].0 as u32) < (all@[picked[k]].0 as u32));
            }
        }
        res
    }

    /// The kerning amounts of the atlas, each with its pair of characters,
    /// in ascending order of first and second codepoint.
    pub fn kernings(&self) -> (res: Vec<((char, char), i32)>)
        ensures
            lists_kernings(res@, self@.kernings),
            res@ == kerning_listing(self@.kernings),
    {
        proof {
            use_type_invariant(self);
        }
        list_kernings(&self.kerning_table)
    }

    /// The number of pages that the atlas holds.
    pub fn page_count(&self) -> (res: usize)
        ensures
            res == self@.pages.len(),
    {
        self.compressed_pages.len()
    }

    /// The compressed bytes of page `index`, as they were attached.
    pub fn compressed_page(&self, index: usize) -> (res: Option<&Vec<u8>>)
        ensures
            res is Some == (index < self@.pages.len()),
            res matches Some(page) ==> page@ == self@.pages[index as int],
    {
        if index < self.compressed_pages.len() {
            Some(&self.compressed_pages[index])
        } else {
            None
        }
    }

    /// The atlas that its plain form stands for.
    pub fn from_wire(wire: AtlasWire) -> (res: Self)
        ensures
            res@ == atlas_of_wire(wire_view(wire)),
    {
        let (info, common, glyphs, kernings, pages) = wire;
        let bitmap_table = glyph_table_from(&glyphs);
        let kerning_table = kerning_table_from(&kernings);
        Self {
            info: HieroInfo {
                face: info.0,
                size: info.1,
                bold: info.2,
                italic: info.3,
                char_set: info.4,
                unicode: info.5,
                stretch_h: info.6,
                smooth: info.7,
                aa: info.8,
                padding: info.9,
                spacing: info.10,
            },
            common: HieroCommon {
                line_height: common.0,
                base: common.1,
                scale_w: common.2,
                scale_h: common.3,
                pages: common.4,
                packed: common.5,
            },
            bitmap_table,
            kerning_table,
            compressed_pages: pages,
        }
    }

    /// Writes the atlas in its binary form: the records, then the glyphs and
    /// the kerning amounts in ascending order of their keys, then the pages.
    /// It always succeeds; the same atlas always gives the same bytes, and
    /// the bytes read back as the same atlas.
    pub fn serialize(&self) -> (res: Result<Vec<u8>, Error>)
        ensures
            res matches Ok(bytes) && bytes@ == bincode_bytes(listing_of(self@)) && decoded_atlas(
                bytes@,
            ) == Some(self@),
    {
        proof {
            use_type_invariant(self);
        }
        let glyphs = list_glyphs(&self.bitmap_table);
        let kernings = list_kernings(&self.kerning_table);
        match bincode_serialize(
            &self.info,
            &self.common,
            &glyphs,
            &kernings,
            &self.compressed_pages,
        ) {
            Ok(bytes) => {
                proof {
                    let wire = AtlasListing {
                        info: self.info@,
                        common: self.common,
                        glyphs: glyph_entries(glyphs@),
                        kernings: kernings@,
                        pages: pages_view(self.compressed_pages@),
                    };
                    assert(lists_atlas(wire, self@));
                    lemma_listing_is_unique(wire, self@);
                    lemma_round_trip(bytes@, wire, self@);
                }
                Ok(bytes)
            },
            Err(e) => Err(Error::DeserializeError(e)),
        }
    }

    /// Reads an atlas back from its binary form. Bytes that end early or
    /// hold something else are an error.
    pub fn deserialize(data: Vec<u8>) -> (res: Result<Self, Error>)
        ensures
            match res {
                Ok(atlas) => decoded_atlas(data@) == Some(atlas@),
                Err(e) => decoded_atlas(data@) is None && e is DeserializeError,
            },
    {
        match bincode_deserialize(data.as_slice()) {
            Ok(wire) => Ok(Self::from_wire(wire)),
            Err(e) => Err(Error::DeserializeError(e)),
        }
    }

    /// Decodes the compressed page at `page_index` into a fresh buffer of
    /// pixels, as many as the rows of the page take. Nothing is kept: every
    /// call decodes anew.
    pub fn try_unpack_page(&self, page_index: usize) -> (res: Result<HieroPage, PageUnpackError>)
        ensures
            unpacks_to(self@.pages, page_index as int, res),
            page_index >= self@.pages.len() <==> res matches Err(PageUnpackError::InvalidIndex),
            res matches Ok(page) ==> {
                &&& png_header(self@.pages[page_index as int]) matches Some(header)
                    && page@.info.width == header.width && page@.info.height == header.height
                &&& 1 <= page@.info.samples <= 4
                &&& page@.info.line_size == page@.info.width * page@.info.samples
                &&& page@.pixels.len() == page@.info.line_size * page@.info.height
            },
    {
        if page_index >= self.compressed_pages.len() {
            return Err(PageUnpackError::InvalidIndex);
        }
        let page = self.compressed_pages[page_index].as_slice();
        let header = match read_png_header(page) {
            Ok(header) => header,
            Err(decode_err) => {
                return Err(PageUnpackError::PageDecodeError(decode_err));
            },
        };
        if header.line_size > u32::MAX as usize {
            return Err(PageUnpackError::PageDecodeError(limits_exceeded()));
        }
        let mut page_buffer = vec![0u8; header.buffer_size];
        assert(page_buffer@ =~= zeros(header.buffer_size as nat));
        match read_png_frame(page, &mut page_buffer) {
            Ok(()) => Ok(HieroPage::from_header(header).with_pixels(page_buffer)),
            Err(decode_err) => Err(PageUnpackError::PageDecodeError(decode_err)),
        }
    }
}

} // verus!
