//! Building an atlas in steps: the records from the text of the descriptor,
//! the pages as they come, in either order.

use crate::atlas::{
    pages_view, AtlasView, HieroAtlas, HieroBitmapInfo, HieroCommon, InfoView,
};
use crate::err::{Error, ParseError};
use crate::parse::records::{
    common_of, glyphs_of, info_of, kernings_of, parse_common, parse_glyphs, parse_info,
    parse_kerning_table, table_views,
};
use crate::parse::{token_views, tokenize, HieroToken, HieroTokenizer, TokenView};
use crate::split::{lines_of, split_lines, str_views};
use vstd::prelude::*;

verus! {

/// An atlas under construction. It turns into the finished atlas only
/// through [`AtlasBuilder::build`].
pub struct HieroIncomplete<T> {
    inner: T,
}

impl<T> View for HieroIncomplete<T> {
    type V = T;

    closed spec fn view(&self) -> T {
        self.inner
    }
}

impl<T> HieroIncomplete<T> {
    /// Wraps a value that is still to be completed.
    pub fn new(inner: T) -> (res: Self)
        ensures
            res@ == inner,
    {
        Self { inner }
    }
}

/// The steps that complete an atlas.
pub trait AtlasBuilder: Sized {
    type AtlasType;

    /// Attaches the records that the descriptor text holds.
    fn with_font_file(self, font: String) -> Result<Self, ParseError>;

    /// Attaches the compressed pages, in order.
    fn with_pages(self, pages: Vec<Vec<u8>>) -> Self;

    /// Hands out the finished atlas.
    fn build(self) -> Self::AtlasType;
}

/// The table of a descriptor: the tokens of each of its lines.
pub open spec fn descriptor_table(text: Seq<char>) -> Seq<Seq<TokenView>> {
    Seq::new(lines_of(text).len(), |i: int| tokenize(lines_of(text)[i]))
}

/// The records that a descriptor holds.
pub struct Records {
    pub info: InfoView,
    pub common: HieroCommon,
    pub glyphs: Map<u32, HieroBitmapInfo>,
    pub kernings: Map<u64, i32>,
}

/// The records of a table: `info`, `common`, glyphs and kerning amounts are
/// read in that order, and the first that fails decides the error.
pub open spec fn records_of(table: Seq<Seq<TokenView>>) -> Result<Records, ParseError> {
    match info_of(table) {
        Err(e) => Err(e),
        Ok(info) => match common_of(table) {
            Err(e) => Err(e),
            Ok(common) => match glyphs_of(table) {
                Err(e) => Err(e),
                Ok(glyphs) => match kernings_of(table) {
                    Err(e) => Err(e),
                    Ok(kernings) => Ok(Records { info, common, glyphs, kernings }),
                },
            },
        },
    }
}

/// A descriptor without a second line, or with fewer than seven tokens on
/// it, has no `common` record and so no records at all.
pub proof fn lemma_descriptor_needs_common_row(text: Seq<char>)
    requires
        lines_of(text).len() < 2 || tokenize(lines_of(text)[1]).len() < 7,
    ensures
        common_of(descriptor_table(text)) is Err,
        records_of(descriptor_table(text)) is Err,
{
}

/// An atlas with other records and the same pages.
pub open spec fn attach_records(atlas: AtlasView, records: Records) -> AtlasView {
    AtlasView {
        info: records.info,
        common: records.common,
        glyphs: records.glyphs,
        kernings: records.kernings,
        pages: atlas.pages,
    }
}

/// An atlas with other pages and the same records.
pub open spec fn attach_pages(atlas: AtlasView, pages: Seq<Seq<u8>>) -> AtlasView {
    AtlasView { pages, ..atlas }
}

/// Attaching the records and attaching the pages touch different parts of
/// an atlas: either order gives the same atlas.
pub proof fn lemma_attachments_commute(atlas: AtlasView, records: Records, pages: Seq<Seq<u8>>)
    ensures
        attach_pages(attach_records(atlas, records), pages) == attach_records(
            attach_pages(atlas, pages),
            records,
        ),
{
}

impl AtlasBuilder for HieroIncomplete<HieroAtlas> {
    type AtlasType = HieroAtlas;

    fn with_font_file(self, fnt_file: String) -> (res: Result<Self, ParseError>)
        ensures
            match res {
                Ok(next) => records_of(descriptor_table(fnt_file@)) matches Ok(records) && next@@
                    == attach_records(self@@, records),
                Err(e) => records_of(descriptor_table(fnt_file@)) == Err::<Records, ParseError>(e),
            },
    {
        let lines = split_lines(fnt_file.as_str());
        let mut table: Vec<Vec<HieroToken>> = Vec::new();
        let mut i: usize = 0;
        while i < lines.len()
            invariant
                str_views(lines@) == lines_of(fnt_file@),
                0 <= i <= lines@.len(),
                table@.len() == i,
                forall|j: int|
                    0 <= j < i ==> token_views((#[trigger] table@[j])@) == tokenize(lines@[j]@),
            decreases lines@.len() - i,
        {
            table.push(HieroTokenizer::tokenize_line(lines[i]));
            i += 1;
        }
        proof {
            assert forall|j: int| 0 <= j < lines@.len() implies lines@[j]@ == lines_of(
                fnt_file@,
            )[j] by {
                assert(str_views(lines@)[j] == lines@[j]@);
            }
            assert(table_views(table@) =~= descriptor_table(fnt_file@));
        }
        let info = parse_info(table.as_slice())?;
        let common = parse_common(table.as_slice())?;
        let glyphs = parse_glyphs(table.as_slice())?;
        let kernings = parse_kerning_table(table.as_slice())?;
        Ok(HieroIncomplete { inner: self.inner.with_records(info, common, glyphs, kernings) })
    }

    fn with_pages(self, pages: Vec<Vec<u8>>) -> (res: Self)
        ensures
            res@@ == attach_pages(self@@, pages_view(pages@)),
    {
        HieroIncomplete { inner: self.inner.with_page_list(pages) }
    }

    fn build(self) -> (res: HieroAtlas)
        ensures
            res@ == self@@,
    {
        self.inner
    }
}

/// Builds an atlas in one step: from the text of the descriptor and the
/// compressed pages, in order.
pub fn build(descriptor_text: String, pages: Vec<Vec<u8>>) -> (res: Result<HieroAtlas, Error>)
    ensures
        match res {
            Ok(atlas) => records_of(descriptor_table(descriptor_text@)) matches Ok(records)
                && atlas@ == attach_pages(
                attach_records(AtlasView::empty(), records),
                pages_view(pages@),
            ),
            Err(e) => e matches Error::Parse(cause) && records_of(
                descriptor_table(descriptor_text@),
            ) == Err::<Records, ParseError>(cause),
        },
{
    match HieroAtlas::new().with_font_file(descriptor_text) {
        Ok(started) => Ok(started.with_pages(pages).build()),
        Err(cause) => Err(Error::Parse(cause)),
    }
}

} // verus!
