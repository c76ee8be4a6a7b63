//! The binary form of an atlas. The records are laid out as plain values,
//! glyphs and kerning amounts as lists of entries, and `bincode` turns the
//! whole into bytes and back.

use crate::atlas::{pages_view, AtlasView, HieroBitmapInfo, HieroCommon, HieroInfo, InfoView};
use crate::atlas::order::{glyphs_in_order, in_key_order, kernings_in_order};
use crate::parse::records::{
    glyph_keys_valid, is_kerning_key, kerning_key, kerning_keys_valid, make_kerning_key,
};
use std::collections::HashMap;
use vstd::prelude::*;

verus! {

broadcast use vstd::std_specs::hash::group_hash_axioms;

/// The `info` record as `bincode` sees it.
pub type InfoWire = (String, i32, i32, i32, String, i32, i32, i32, i32, Vec<i32>, Vec<i32>);

/// The `common` record as `bincode` sees it.
pub type CommonWire = (i32, i32, i32, i32, i32, i32);

/// One glyph as `bincode` sees it: the character, then its record.
pub type GlyphWire = (char, (i32, i32, i32, i32, i32, i32, i32, i32, i32));

/// One kerning amount as `bincode` sees it: the pair, then the amount.
pub type KerningWire = ((char, char), i32);

/// A whole atlas as `bincode` sees it.
pub type AtlasWire = (InfoWire, CommonWire, Vec<GlyphWire>, Vec<KerningWire>, Vec<Vec<u8>>);

/// What the binary form of an atlas lists, as mathematical values.
pub struct AtlasListing {
    pub info: InfoView,
    pub common: HieroCommon,
    pub glyphs: Seq<(char, HieroBitmapInfo)>,
    pub kernings: Seq<((char, char), i32)>,
    pub pages: Seq<Seq<u8>>,
}

/// The bytes that `bincode` writes for a listed atlas.
pub uninterp spec fn bincode_bytes(wire: AtlasListing) -> Seq<u8>;

/// The listed atlas that `bincode` reads from bytes, where it can.
pub uninterp spec fn bincode_value(bytes: Seq<u8>) -> Option<AtlasListing>;

/// The `info` record that its plain form stands for.
pub open spec fn info_wire_view(w: InfoWire) -> InfoView {
    InfoView {
        face: w.0@,
        size: w.1,
        bold: w.2,
        italic: w.3,
        char_set: w.4@,
        unicode: w.5,
        stretch_h: w.6,
        smooth: w.7,
        aa: w.8,
        padding: w.9@,
        spacing: w.10@,
    }
}

/// The `common` record that its plain form stands for.
pub open spec fn common_wire_view(w: CommonWire) -> HieroCommon {
    HieroCommon {
        line_height: w.0,
        base: w.1,
        scale_w: w.2,
        scale_h: w.3,
        pages: w.4,
        packed: w.5,
    }
}

/// The glyph entry that its plain form stands for.
pub open spec fn glyph_wire_view(w: GlyphWire) -> (char, HieroBitmapInfo) {
    (
        w.0,
        HieroBitmapInfo {
            x: w.1.0,
            y: w.1.1,
            width: w.1.2,
            height: w.1.3,
            xoffset: w.1.4,
            yoffset: w.1.5,
            xadvance: w.1.6,
            page: w.1.7,
            channel: w.1.8,
        },
    )
}

/// The glyph entries that a list of plain forms stands for, in order.
pub open spec fn glyph_entries(list: Seq<GlyphWire>) -> Seq<(char, HieroBitmapInfo)> {
    Seq::new(list.len(), |i: int| glyph_wire_view(list[i]))
}

/// The listed atlas that its plain form stands for.
pub open spec fn wire_view(w: AtlasWire) -> AtlasListing {
    AtlasListing {
        info: info_wire_view(w.0),
        common: common_wire_view(w.1),
        glyphs: glyph_entries(w.2@),
        kernings: w.3@,
        pages: pages_view(w.4@),
    }
}

/// `bincode::serialize` on the records, the two lists and the pages, laid out
/// as one tuple. It succeeds: it sets no limit on the size, writes into a
/// vector, and every text and list here knows its length, which leaves none
/// of its errors to arise. The result is named; what `bincode` wrote it reads
/// back as the same values, as its documentation shows.
#[verifier::external_body]
pub(crate) fn bincode_serialize(
    info: &HieroInfo,
    common: &HieroCommon,
    glyphs: &Vec<GlyphWire>,
    kernings: &Vec<KerningWire>,
    pages: &Vec<Vec<u8>>,
) -> (res: Result<Vec<u8>, bincode::Error>)
    ensures
        res is Ok,
        res matches Ok(bytes) ==> {
            let wire = AtlasListing {
                info: info@,
                common: *common,
                glyphs: glyph_entries(glyphs@),
                kernings: kernings@,
                pages: pages_view(pages@),
            };
            bytes@ == bincode_bytes(wire) && bincode_value(bytes@) == Some(wire)
        },
{
    let i = (
        &info.face, info.size, info.bold, info.italic, &info.char_set, info.unicode,
        info.stretch_h, info.smooth, info.aa, &info.padding, &info.spacing,
    );
    let c = (
        common.line_height, common.base, common.scale_w, common.scale_h, common.pages,
        common.packed,
    );
    bincode::serialize(&(i, c, glyphs, kernings, pages))
}

/// `bincode::deserialize` for the tuple that `bincode_serialize` writes. It
/// fails on bytes that end early or do not encode such a tuple.
#[verifier::external_body]
pub(crate) fn bincode_deserialize(bytes: &[u8]) -> (res: Result<AtlasWire, bincode::Error>)
    ensures
        res is Ok <==> bincode_value(bytes@) is Some,
        res matches Ok(wire) ==> bincode_value(bytes@) == Some(wire_view(wire)),
{
    bincode::deserialize(bytes)
}

/// The glyph table that a list of entries builds up: each entry in turn, a
/// later one in place of an earlier one for the same character.
pub open spec fn glyph_table_of(entries: Seq<(char, HieroBitmapInfo)>) -> Map<u32, HieroBitmapInfo>
    decreases entries.len(),
{
    if entries.len() == 0 {
        Map::empty()
    } else {
        glyph_table_of(entries.drop_last()).insert(entries.last().0 as u32, entries.last().1)
    }
}

/// The kerning table that a list of entries builds up: each entry in turn, a
/// later one in place of an earlier one for the same pair.
pub open spec fn kerning_table_of(entries: Seq<((char, char), i32)>) -> Map<u64, i32>
    decreases entries.len(),
{
    if entries.len() == 0 {
        Map::empty()
    } else {
        kerning_table_of(entries.drop_last()).insert(
            kerning_key(entries.last().0.0 as u32, entries.last().0.1 as u32),
            entries.last().1,
        )
    }
}

/// The atlas that a listed atlas stands for.
pub open spec fn atlas_of_wire(wire: AtlasListing) -> AtlasView {
    AtlasView {
        info: wire.info,
        common: wire.common,
        glyphs: glyph_table_of(wire.glyphs),
        kernings: kerning_table_of(wire.kernings),
        pages: wire.pages,
    }
}

/// The atlas that bytes decode to, where they decode.
pub open spec fn decoded_atlas(bytes: Seq<u8>) -> Option<AtlasView> {
    match bincode_value(bytes) {
        None => None,
        Some(wire) => Some(atlas_of_wire(wire)),
    }
}

/// Whether the entries stand in ascending order of their codepoints.
pub open spec fn glyphs_ascending(entries: Seq<(char, HieroBitmapInfo)>) -> bool {
    forall|i: int, j: int|
        0 <= i < j < entries.len() ==> ((#[trigger] entries[i]).0 as u32) < ((
        #[trigger] entries[j]).0 as u32)
}

/// Whether the entries stand in ascending order of their keys.
pub open spec fn kernings_ascending(entries: Seq<((char, char), i32)>) -> bool {
    forall|i: int, j: int|
        0 <= i < j < entries.len() ==> kerning_key(
            (#[trigger] entries[i]).0.0 as u32,
            entries[i].0.1 as u32,
        ) < kerning_key((#[trigger] entries[j]).0.0 as u32, entries[j].0.1 as u32)
}

/// Whether `entries` lists the glyph table `glyphs`: every entry is in the
/// table, every key of the table has an entry, and the entries stand in
/// ascending order of their codepoints.
pub open spec fn lists_glyphs(
    entries: Seq<(char, HieroBitmapInfo)>,
    glyphs: Map<u32, HieroBitmapInfo>,
) -> bool {
    &&& forall|i: int|
        0 <= i < entries.len() ==> glyphs.contains_key((#[trigger] entries[i]).0 as u32)
            && glyphs[entries[i].0 as u32] == entries[i].1
    &&& forall|k: u32|
        glyphs.contains_key(k) ==> exists|i: int|
            0 <= i < entries.len() && (#[trigger] entries[i]).0 as u32 == k
    &&& glyphs_ascending(entries)
}

/// Whether `entries` lists the kerning table `kernings`: every entry is in
/// the table, every key of the table has an entry, and the entries stand in
/// ascending order of their keys.
pub open spec fn lists_kernings(entries: Seq<((char, char), i32)>, kernings: Map<u64, i32>) -> bool {
    &&& forall|i: int|
        0 <= i < entries.len() ==> kernings.contains_key(
            kerning_key((#[trigger] entries[i]).0.0 as u32, entries[i].0.1 as u32),
        ) && kernings[kerning_key(entries[i].0.0 as u32, entries[i].0.1 as u32)] == entries[i].1
    &&& forall|k: u64|
        kernings.contains_key(k) ==> exists|i: int|
            0 <= i < entries.len() && kerning_key(
                (#[trigger] entries[i]).0.0 as u32,
                entries[i].0.1 as u32,
            ) == k
    &&& kernings_ascending(entries)
}

/// Whether `wire` lists the atlas `atlas`.
pub open spec fn lists_atlas(wire: AtlasListing, atlas: AtlasView) -> bool {
    &&& wire.info == atlas.info
    &&& wire.common == atlas.common
    &&& wire.pages == atlas.pages
    &&& lists_glyphs(wire.glyphs, atlas.glyphs)
    &&& lists_kernings(wire.kernings, atlas.kernings)
}

/// Two ascending sequences with the same members are the same sequence.
proof fn lemma_ascending_unique(a: Seq<int>, b: Seq<int>)
    requires
        forall|i: int, j: int| 0 <= i < j < a.len() ==> a[i] < a[j],
        forall|i: int, j: int| 0 <= i < j < b.len() ==> b[i] < b[j],
        forall|i: int| 0 <= i < a.len() ==> b.contains(#[trigger] a[i]),
        forall|i: int| 0 <= i < b.len() ==> a.contains(#[trigger] b[i]),
    ensures
        a == b,
    decreases a.len(),
{
    if a.len() == 0 {
        if b.len() > 0 {
            assert(a.contains(b[0]));
        }
        assert(a =~= b);
    } else {
        let top = a[a.len() - 1];
        assert(b.contains(top));
        let at = choose|j: int| 0 <= j < b.len() && b[j] == top;
        let other = b[b.len() - 1];
        assert(a.contains(other));
        let back = choose|i: int| 0 <= i < a.len() && a[i] == other;
        assert(other == top) by {
            if at < b.len() - 1 {
                assert(b[at] < b[b.len() - 1]);
            }
            if back < a.len() - 1 {
                assert(a[back] < a[a.len() - 1]);
            }
        }
        let a0 = a.drop_last();
        let b0 = b.drop_last();
        assert forall|i: int| 0 <= i < a0.len() implies b0.contains(#[trigger] a0[i]) by {
            assert(a0[i] == a[i]);
            assert(a[i] < a[a.len() - 1]);
            assert(b.contains(a[i]));
            let j = choose|j: int| 0 <= j < b.len() && b[j] == a[i];
            assert(b0[j] == a0[i]);
        }
        assert forall|i: int| 0 <= i < b0.len() implies a0.contains(#[trigger] b0[i]) by {
            assert(b0[i] == b[i]);
            assert(b[i] < b[b.len() - 1]);
            assert(a.contains(b[i]));
            let j = choose|j: int| 0 <= j < a.len() && a[j] == b[i];
            assert(a0[j] == b0[i]);
        }
        assert forall|i: int, j: int| 0 <= i < j < a0.len() implies a0[i] < a0[j] by {
            assert(a0[i] == a[i] && a0[j] == a[j]);
        }
        assert forall|i: int, j: int| 0 <= i < j < b0.len() implies b0[i] < b0[j] by {
            assert(b0[i] == b[i] && b0[j] == b[j]);
        }
        lemma_ascending_unique(a0, b0);
        assert(a =~= a0.push(top));
        assert(b =~= b0.push(other));
    }
}

/// A glyph table is listed in one way only.
pub proof fn lemma_glyph_listing_unique(
    a: Seq<(char, HieroBitmapInfo)>,
    b: Seq<(char, HieroBitmapInfo)>,
    glyphs: Map<u32, HieroBitmapInfo>,
)
    requires
        lists_glyphs(a, glyphs),
        lists_glyphs(b, glyphs),
    ensures
        a == b,
{
    let ka = Seq::new(a.len(), |i: int| a[i].0 as u32 as int);
    let kb = Seq::new(b.len(), |i: int| b[i].0 as u32 as int);
    assert forall|i: int| 0 <= i < ka.len() implies kb.contains(#[trigger] ka[i]) by {
        assert(glyphs.contains_key(a[i].0 as u32));
        let j = choose|j: int| 0 <= j < b.len() && (#[trigger] b[j]).0 as u32 == a[i].0 as u32;
        assert(kb[j] == ka[i]);
    }
    assert forall|i: int| 0 <= i < kb.len() implies ka.contains(#[trigger] kb[i]) by {
        assert(glyphs.contains_key(b[i].0 as u32));
        let j = choose|j: int| 0 <= j < a.len() && (#[trigger] a[j]).0 as u32 == b[i].0 as u32;
        assert(ka[j] == kb[i]);
    }
    assert forall|i: int, j: int| 0 <= i < j < ka.len() implies ka[i] < ka[j] by {
        assert((a[i].0 as u32) < (a[j].0 as u32));
    }
    assert forall|i: int, j: int| 0 <= i < j < kb.len() implies kb[i] < kb[j] by {
        assert((b[i].0 as u32) < (b[j].0 as u32));
    }
    lemma_ascending_unique(ka, kb);
    assert(a.len() == ka.len() && b.len() == kb.len());
    assert forall|i: int| 0 <= i < a.len() implies a[i] == b[i] by {
        assert(ka[i] == kb[i]);
        vstd::utf8::char_u32_cast(a[i].0, a[i].0 as u32);
        vstd::utf8::char_u32_cast(b[i].0, b[i].0 as u32);
        assert(glyphs[a[i].0 as u32] == a[i].1);
        assert(glyphs[b[i].0 as u32] == b[i].1);
    }
    assert(a =~= b);
}

/// A kerning table is listed in one way only.
pub proof fn lemma_kerning_listing_unique(
    a: Seq<((char, char), i32)>,
    b: Seq<((char, char), i32)>,
    kernings: Map<u64, i32>,
)
    requires
        lists_kernings(a, kernings),
        lists_kernings(b, kernings),
    ensures
        a == b,
{
    let ka = Seq::new(a.len(), |i: int| kerning_key(a[i].0.0 as u32, a[i].0.1 as u32) as int);
    let kb = Seq::new(b.len(), |i: int| kerning_key(b[i].0.0 as u32, b[i].0.1 as u32) as int);
    assert forall|i: int| 0 <= i < ka.len() implies kb.contains(#[trigger] ka[i]) by {
        let k = kerning_key(a[i].0.0 as u32, a[i].0.1 as u32);
        assert(kernings.contains_key(k));
        let j = choose|j: int|
            0 <= j < b.len() && kerning_key((#[trigger] b[j]).0.0 as u32, b[j].0.1 as u32) == k;
        assert(kb[j] == ka[i]);
    }
    assert forall|i: int| 0 <= i < kb.len() implies ka.contains(#[trigger] kb[i]) by {
        let k = kerning_key(b[i].0.0 as u32, b[i].0.1 as u32);
        assert(kernings.contains_key(k));
        let j = choose|j: int|
            0 <= j < a.len() && kerning_key((#[trigger] a[j]).0.0 as u32, a[j].0.1 as u32) == k;
        assert(ka[j] == kb[i]);
    }
    assert forall|i: int, j: int| 0 <= i < j < ka.len() implies ka[i] < ka[j] by {
        assert(kerning_key(a[i].0.0 as u32, a[i].0.1 as u32) < kerning_key(
            a[j].0.0 as u32,
            a[j].0.1 as u32,
        ));
    }
    assert forall|i: int, j: int| 0 <= i < j < kb.len() implies kb[i] < kb[j] by {
        assert(kerning_key(b[i].0.0 as u32, b[i].0.1 as u32) < kerning_key(
            b[j].0.0 as u32,
            b[j].0.1 as u32,
        ));
    }
    lemma_ascending_unique(ka, kb);
    assert(a.len() == ka.len() && b.len() == kb.len());
    assert forall|i: int| 0 <= i < a.len() implies a[i] == b[i] by {
        assert(ka[i] == kb[i]);
        let k = kerning_key(a[i].0.0 as u32, a[i].0.1 as u32);
        assert(kerning_key(b[i].0.0 as u32, b[i].0.1 as u32) == k);
        vstd::utf8::char_u32_cast(a[i].0.0, a[i].0.0 as u32);
        vstd::utf8::char_u32_cast(a[i].0.1, a[i].0.1 as u32);
        vstd::utf8::char_u32_cast(b[i].0.0, b[i].0.0 as u32);
        vstd::utf8::char_u32_cast(b[i].0.1, b[i].0.1 as u32);
        assert(kernings[k] == a[i].1);
        assert(kernings[k] == b[i].1);
    }
    assert(a =~= b);
}

/// The entries of a glyph table, in ascending order of their codepoints.
pub open spec fn glyph_listing(glyphs: Map<u32, HieroBitmapInfo>) -> Seq<(char, HieroBitmapInfo)> {
    choose|entries: Seq<(char, HieroBitmapInfo)>| lists_glyphs(entries, glyphs)
}

/// The entries of a kerning table, in ascending order of their keys.
pub open spec fn kerning_listing(kernings: Map<u64, i32>) -> Seq<((char, char), i32)> {
    choose|entries: Seq<((char, char), i32)>| lists_kernings(entries, kernings)
}

/// What the binary form of `atlas` lists.
pub open spec fn listing_of(atlas: AtlasView) -> AtlasListing {
    AtlasListing {
        info: atlas.info,
        common: atlas.common,
        glyphs: glyph_listing(atlas.glyphs),
        kernings: kerning_listing(atlas.kernings),
        pages: atlas.pages,
    }
}

/// What lists an atlas is the listing of that atlas.
pub proof fn lemma_listing_is_unique(wire: AtlasListing, atlas: AtlasView)
    requires
        lists_atlas(wire, atlas),
    ensures
        wire == listing_of(atlas),
{
    lemma_glyph_listing_unique(wire.glyphs, glyph_listing(atlas.glyphs), atlas.glyphs);
    lemma_kerning_listing_unique(wire.kernings, kerning_listing(atlas.kernings), atlas.kernings);
}

proof fn lemma_glyph_fold(entries: Seq<(char, HieroBitmapInfo)>, glyphs: Map<u32, HieroBitmapInfo>)
    requires
        forall|i: int|
            0 <= i < entries.len() ==> glyphs.contains_key((#[trigger] entries[i]).0 as u32)
                && glyphs[entries[i].0 as u32] == entries[i].1,
    ensures
        forall|k: u32| #[trigger]
            glyph_table_of(entries).contains_key(k) ==> glyphs.contains_key(k) && glyph_table_of(
                entries,
            )[k] == glyphs[k],
        forall|i: int|
            0 <= i < entries.len() ==> glyph_table_of(entries).contains_key(
                (#[trigger] entries[i]).0 as u32,
            ),
    decreases entries.len(),
{
    if entries.len() > 0 {
        let front = entries.drop_last();
        assert forall|i: int| 0 <= i < front.len() implies glyphs.contains_key(
            (#[trigger] front[i]).0 as u32,
        ) && glyphs[front[i].0 as u32] == front[i].1 by {
            assert(front[i] == entries[i]);
        }
        lemma_glyph_fold(front, glyphs);
        let last = entries[entries.len() - 1];
        assert(entries.last() == last);
        assert(glyphs.contains_key(last.0 as u32) && glyphs[last.0 as u32] == last.1);
        assert forall|k: u32| #[trigger]
            glyph_table_of(entries).contains_key(k) implies glyphs.contains_key(k)
            && glyph_table_of(entries)[k] == glyphs[k] by {
            if k != last.0 as u32 {
                assert(glyph_table_of(front).contains_key(k));
            }
        }
        assert forall|i: int| 0 <= i < entries.len() implies glyph_table_of(entries).contains_key(
            (#[trigger] entries[i]).0 as u32,
        ) by {
            if i < front.len() {
                assert(front[i] == entries[i]);
            }
        }
    }
}

proof fn lemma_kerning_fold(entries: Seq<((char, char), i32)>, kernings: Map<u64, i32>)
    requires
        forall|i: int|
            0 <= i < entries.len() ==> kernings.contains_key(
                kerning_key((#[trigger] entries[i]).0.0 as u32, entries[i].0.1 as u32),
            ) && kernings[kerning_key(entries[i].0.0 as u32, entries[i].0.1 as u32)]
                == entries[i].1,
    ensures
        forall|k: u64| #[trigger]
            kerning_table_of(entries).contains_key(k) ==> kernings.contains_key(k)
                && kerning_table_of(entries)[k] == kernings[k],
        forall|i: int|
            0 <= i < entries.len() ==> kerning_table_of(entries).contains_key(
                kerning_key((#[trigger] entries[i]).0.0 as u32, entries[i].0.1 as u32),
            ),
    decreases entries.len(),
{
    if entries.len() > 0 {
        let front = entries.drop_last();
        assert forall|i: int| 0 <= i < front.len() implies kernings.contains_key(
            kerning_key((#[trigger] front[i]).0.0 as u32, front[i].0.1 as u32),
        ) && kernings[kerning_key(front[i].0.0 as u32, front[i].0.1 as u32)] == front[i].1 by {
            assert(front[i] == entries[i]);
        }
        lemma_kerning_fold(front, kernings);
        let last = entries[entries.len() - 1];
        let last_key = kerning_key(last.0.0 as u32, last.0.1 as u32);
        assert(entries.last() == last);
        assert(kernings.contains_key(last_key) && kernings[last_key] == last.1);
        assert forall|k: u64| #[trigger]
            kerning_table_of(entries).contains_key(k) implies kernings.contains_key(k)
            && kerning_table_of(entries)[k] == kernings[k] by {
            if k != last_key {
                assert(kerning_table_of(front).contains_key(k));
            }
        }
        assert forall|i: int|
            0 <= i < entries.len() implies kerning_table_of(entries).contains_key(
            kerning_key((#[trigger] entries[i]).0.0 as u32, entries[i].0.1 as u32),
        ) by {
            if i < front.len() {
                assert(front[i] == entries[i]);
            }
        }
    }
}

/// A listed atlas stands for the atlas that it lists.
pub proof fn lemma_listing_restores(wire: AtlasListing, atlas: AtlasView)
    requires
        lists_atlas(wire, atlas),
    ensures
        atlas_of_wire(wire) == atlas,
{
    lemma_glyph_fold(wire.glyphs, atlas.glyphs);
    lemma_kerning_fold(wire.kernings, atlas.kernings);
    assert(glyph_table_of(wire.glyphs) =~= atlas.glyphs);
    assert(kerning_table_of(wire.kernings) =~= atlas.kernings);
}

/// What was written for a listing of an atlas reads back as that atlas:
/// bytes that `bincode` decodes to a listing of `atlas` decode to `atlas`.
pub proof fn lemma_round_trip(bytes: Seq<u8>, wire: AtlasListing, atlas: AtlasView)
    requires
        bincode_value(bytes) == Some(wire),
        lists_atlas(wire, atlas),
    ensures
        decoded_atlas(bytes) == Some(atlas),
{
    lemma_listing_restores(wire, atlas);
}

/// Lists the entries of a glyph table in ascending order of their
/// codepoints.
pub(crate) fn list_glyphs(table: &HashMap<u32, HieroBitmapInfo>) -> (res: Vec<GlyphWire>)
    requires
        glyph_keys_valid(table@),
    ensures
        lists_glyphs(glyph_entries(res@), table@),
        glyph_entries(res@) == glyph_listing(table@),
{
    let ordered = glyphs_in_order(table);
    let mut res: Vec<GlyphWire> = Vec::new();
    let mut i: usize = 0;
    while i < ordered.len()
        invariant
            glyph_keys_valid(table@),
            in_key_order(ordered@, table@, |a: u32, b: u32| a < b),
            0 <= i <= ordered@.len(),
            res@.len() == i,
            forall|j: int|
                0 <= j < i ==> (#[trigger] glyph_entries(res@)[j]).0 as u32 == ordered@[j].0
                    && glyph_entries(res@)[j].1 == ordered@[j].1,
        decreases ordered@.len() - i,
    {
        let ghost before = res@;
        let (key, glyph) = ordered[i];
        proof {
            assert(table@.contains_key(ordered@[i as int].0));
        }
        if let Some(c) = char::from_u32(key) {
            res.push(
                (
                    c,
                    (
                        glyph.x,
                        glyph.y,
                        glyph.width,
                        glyph.height,
                        glyph.xoffset,
                        glyph.yoffset,
                        glyph.xadvance,
                        glyph.page,
                        glyph.channel,
                    ),
                ),
            );
        }
        proof {
            assert forall|j: int| 0 <= j < i + 1 implies (#[trigger] glyph_entries(res@)[j]).0 as u32
                == ordered@[j].0 && glyph_entries(res@)[j].1 == ordered@[j].1 by {
                if j < i {
                    assert(res@[j] == before[j]);
                    assert(glyph_entries(before)[j] == glyph_entries(res@)[j]);
                }
            }
        }
        i += 1;
    }
    proof {
        let entries = glyph_entries(res@);
        assert forall|k: u32| table@.contains_key(k) implies exists|j: int|
            0 <= j < entries.len() && (#[trigger] entries[j]).0 as u32 == k by {
            let j = choose|j: int| 0 <= j < ordered@.len() && (#[trigger] ordered@[j]).0 == k;
            assert(entries[j].0 as u32 == k);
        }
        assert forall|j: int| 0 <= j < entries.len() implies table@.contains_key(
            (#[trigger] entries[j]).0 as u32,
        ) && table@[entries[j].0 as u32] == entries[j].1 by {
            assert(table@.contains_key(ordered@[j].0));
        }
        assert forall|j: int, k: int| 0 <= j < k < entries.len() implies ((
        #[trigger] entries[j]).0 as u32) < ((#[trigger] entries[k]).0 as u32) by {
            assert(ordered@[j].0 < ordered@[k].0);
        }
        assert(glyphs_ascending(entries));
        assert(lists_glyphs(entries, table@));
        lemma_glyph_listing_unique(entries, glyph_listing(table@), table@);
    }
    res
}

/// The two codepoints that a kerning key stands for.
pub(crate) fn split_kerning_key(key: u64) -> (res: (u32, u32))
    ensures
        forall|first: u32, second: u32|
            key == #[trigger] kerning_key(first, second) ==> res == (first, second),
{
    ((key / 0x1_0000_0000) as u32, (key % 0x1_0000_0000) as u32)
}

/// Lists the entries of a kerning table in ascending order of their keys.
pub(crate) fn list_kernings(table: &HashMap<u64, i32>) -> (res: Vec<KerningWire>)
    requires
        kerning_keys_valid(table@),
    ensures
        lists_kernings(res@, table@),
        res@ == kerning_listing(table@),
{
    let ordered = kernings_in_order(table);
    let mut res: Vec<KerningWire> = Vec::new();
    let mut i: usize = 0;
    while i < ordered.len()
        invariant
            kerning_keys_valid(table@),
            in_key_order(ordered@, table@, |a: u64, b: u64| a < b),
            0 <= i <= ordered@.len(),
            res@.len() == i,
            forall|j: int|
                0 <= j < i ==> kerning_key((#[trigger] res@[j]).0.0 as u32, res@[j].0.1 as u32)
                    == ordered@[j].0 && res@[j].1 == ordered@[j].1,
        decreases ordered@.len() - i,
    {
        let ghost before = res@;
        let (key, amount) = ordered[i];
        proof {
            assert(table@.contains_key(ordered@[i as int].0));
            assert(is_kerning_key(key));
        }
        let (first, second) = split_kerning_key(key);
        if let (Some(a), Some(b)) = (char::from_u32(first), char::from_u32(second)) {
            res.push(((a, b), amount));
        }
        proof {
            assert forall|j: int| 0 <= j < i + 1 implies kerning_key(
                (#[trigger] res@[j]).0.0 as u32,
                res@[j].0.1 as u32,
            ) == ordered@[j].0 && res@[j].1 == ordered@[j].1 by {
                if j < i {
                    assert(res@[j] == before[j]);
                }
            }
        }
        i += 1;
    }
    proof {
        assert forall|k: u64| table@.contains_key(k) implies exists|j: int|
            0 <= j < res@.len() && kerning_key(
                (#[trigger] res@[j]).0.0 as u32,
                res@[j].0.1 as u32,
            ) == k by {
            let j = choose|j: int| 0 <= j < ordered@.len() && (#[trigger] ordered@[j]).0 == k;
            assert(kerning_key(res@[j].0.0 as u32, res@[j].0.1 as u32) == k);
        }
        assert forall|j: int| 0 <= j < res@.len() implies table@.contains_key(
            kerning_key((#[trigger] res@[j]).0.0 as u32, res@[j].0.1 as u32),
        ) && table@[kerning_key(res@[j].0.0 as u32, res@[j].0.1 as u32)] == res@[j].1 by {
            assert(table@.contains_key(ordered@[j].0));
        }
        assert forall|j: int, k: int| 0 <= j < k < res@.len() implies kerning_key(
            (#[trigger] res@[j]).0.0 as u32,
            res@[j].0.1 as u32,
        ) < kerning_key((#[trigger] res@[k]).0.0 as u32, res@[k].0.1 as u32) by {
            assert(ordered@[j].0 < ordered@[k].0);
        }
        assert(kernings_ascending(res@));
        assert(lists_kernings(res@, table@));
        lemma_kerning_listing_unique(res@, kerning_listing(table@), table@);
    }
    res
}

/// Builds the glyph table that a list of entries stands for.
pub(crate) fn glyph_table_from(list: &Vec<GlyphWire>) -> (res: HashMap<u32, HieroBitmapInfo>)
    ensures
        res@ == glyph_table_of(glyph_entries(list@)),
        glyph_keys_valid(res@),
{
    let ghost entries = glyph_entries(list@);
    let mut res: HashMap<u32, HieroBitmapInfo> = HashMap::new();
    let mut i: usize = 0;
    proof {
        assert(entries.take(0) =~= Seq::<(char, HieroBitmapInfo)>::empty());
    }
    while i < list.len()
        invariant
            entries == glyph_entries(list@),
            0 <= i <= list@.len(),
            res@ == glyph_table_of(entries.take(i as int)),
            glyph_keys_valid(res@),
        decreases list@.len() - i,
    {
        let (c, g) = list[i];
        proof {
            assert(entries.take(i + 1).drop_last() =~= entries.take(i as int));
            assert(entries.take(i + 1).last() == glyph_wire_view(list@[i as int]));
            vstd::utf8::char_is_scalar(c);
        }
        res.insert(
            c as u32,
            HieroBitmapInfo {
                x: g.0,
                y: g.1,
                width: g.2,
                height: g.3,
                xoffset: g.4,
                yoffset: g.5,
                xadvance: g.6,
                page: g.7,
                channel: g.8,
            },
        );
        i += 1;
    }
    proof {
        assert(entries.take(i as int) =~= entries);
    }
    res
}

/// Builds the kerning table that a list of entries stands for.
pub(crate) fn kerning_table_from(list: &Vec<KerningWire>) -> (res: HashMap<u64, i32>)
    ensures
        res@ == kerning_table_of(list@),
        kerning_keys_valid(res@),
{
    let mut res: HashMap<u64, i32> = HashMap::new();
    let mut i: usize = 0;
    proof {
        assert(list@.take(0) =~= Seq::<KerningWire>::empty());
    }
    while i < list.len()
        invariant
            0 <= i <= list@.len(),
            res@ == kerning_table_of(list@.take(i as int)),
            kerning_keys_valid(res@),
        decreases list@.len() - i,
    {
        let ((a, b), amount) = list[i];
        proof {
            assert(list@.take(i + 1).drop_last() =~= list@.take(i as int));
            assert(list@.take(i + 1).last() == list@[i as int]);
        }
        let key = make_kerning_key(a as u32, b as u32);
        proof {
            vstd::utf8::char_is_scalar(a);
            vstd::utf8::char_is_scalar(b);
            assert(key == kerning_key(a as u32, b as u32));
            assert(is_kerning_key(key));
        }
        res.insert(key, amount);
        i += 1;
    }
    proof {
        assert(list@.take(i as int) =~= list@);
    }
    res
}

} // verus!
