//! The record parsers: from the table of tokenized lines to the typed
//! records of a font.

use crate::atlas::{HieroBitmapInfo, HieroCommon, HieroInfo, InfoView};
use crate::err::{Field, ParseError, Row};
use crate::parse::{token_views, HieroToken, TokenView};
use crate::split::{split_on, split_str, str_views};
use crate::text::{parse_i32, parse_i32_spec, str_eq};
use std::collections::HashMap;
use vstd::prelude::*;
use vstd::utf8::is_scalar;

verus! {

broadcast use vstd::std_specs::hash::group_hash_axioms;

/// The views of the lines of a table, in order.
pub open spec fn table_views(table: Seq<Vec<HieroToken>>) -> Seq<Seq<TokenView>> {
    Seq::new(table.len(), |i: int| token_views(table[i]@))
}

/// The value of the first field of `row` that is named `key`.
pub open spec fn field_value(row: Seq<TokenView>, key: Seq<char>) -> Option<Seq<char>>
    decreases row.len(),
{
    if row.len() == 0 {
        None
    } else if row[0] is Pair && row[0]->key == key {
        Some(row[0]->val)
    } else {
        field_value(row.drop_first(), key)
    }
}

/// Looks a field up by its name: the first one of that name counts.
pub fn find_pair_by_key<'a>(line: &'a [HieroToken<'a>], key: &str) -> (res: Option<(&'a str, &'a str)>)
    ensures
        match res {
            Some((k, v)) => k@ == key@ && field_value(token_views(line@), key@) == Some(v@),
            None => field_value(token_views(line@), key@) is None,
        },
{
    let ghost row = token_views(line@);
    let mut i: usize = 0;
    proof {
        assert(row.skip(0) =~= row);
    }
    while i < line.len()
        invariant
            row == token_views(line@),
            0 <= i <= line@.len(),
            field_value(row, key@) == field_value(row.skip(i as int), key@),
        decreases line@.len() - i,
    {
        proof {
            assert(row.skip(i as int)[0] == line@[i as int]@);
            assert(row.skip(i as int).drop_first() =~= row.skip(i + 1));
        }
        if let Some((k, v)) = line[i].as_pair() {
            if str_eq(k, key) {
                return Some((k, v));
            }
        }
        i += 1;
    }
    None
}

/// The integer that the field named `key` holds.
pub open spec fn int_field_of(row: Seq<TokenView>, key: Seq<char>, field: Field) -> Result<
    i32,
    ParseError,
> {
    match field_value(row, key) {
        None => Err(ParseError::MissingKey(field)),
        Some(val) => match parse_i32_spec(val) {
            None => Err(ParseError::BadValue(field)),
            Some(n) => Ok(n),
        },
    }
}

/// The text that the field named `key` holds.
pub open spec fn text_field_of(row: Seq<TokenView>, key: Seq<char>, field: Field) -> Result<
    Seq<char>,
    ParseError,
> {
    match field_value(row, key) {
        None => Err(ParseError::MissingKey(field)),
        Some(val) => Ok(val),
    }
}

/// The integers that a list of texts writes, in order, where each of the
/// texts writes one.
pub open spec fn read_ints(pieces: Seq<Seq<char>>) -> Option<Seq<i32>>
    decreases pieces.len(),
{
    if pieces.len() == 0 {
        Some(Seq::empty())
    } else {
        match (read_ints(pieces.drop_last()), parse_i32_spec(pieces.last())) {
            (Some(rest), Some(n)) => Some(rest.push(n)),
            _ => None,
        }
    }
}

/// Once one of the texts writes no integer, those after it change nothing.
pub proof fn lemma_read_ints_fails_on(pieces: Seq<Seq<char>>, k: int)
    requires
        0 <= k <= pieces.len(),
    ensures
        read_ints(pieces.take(k)) is None ==> read_ints(pieces) is None,
    decreases pieces.len(),
{
    if k == pieces.len() {
        assert(pieces.take(k) =~= pieces);
    } else {
        assert(pieces.drop_last().take(k) =~= pieces.take(k));
        lemma_read_ints_fails_on(pieces.drop_last(), k);
    }
}

/// The integers of a comma-separated list, where every item is an integer.
pub open spec fn int_list(s: Seq<char>) -> Option<Seq<i32>> {
    read_ints(split_on(s, ','))
}

/// The list of integers that the field named `key` holds. An item that is no
/// integer makes the whole value bad.
pub open spec fn list_field_of(row: Seq<TokenView>, key: Seq<char>, field: Field) -> Result<
    Seq<i32>,
    ParseError,
> {
    match field_value(row, key) {
        None => Err(ParseError::MissingKey(field)),
        Some(val) => match int_list(val) {
            None => Err(ParseError::BadValue(field)),
            Some(list) => Ok(list),
        },
    }
}

fn int_field(row: &[HieroToken], key: &str, field: Field) -> (res: Result<i32, ParseError>)
    ensures
        res == int_field_of(token_views(row@), key@, field),
{
    match find_pair_by_key(row, key) {
        None => Err(ParseError::MissingKey(field)),
        Some((_, val)) => match parse_i32(val) {
            None => Err(ParseError::BadValue(field)),
            Some(n) => Ok(n),
        },
    }
}

fn text_field(row: &[HieroToken], key: &str, field: Field) -> (res: Result<String, ParseError>)
    ensures
        match res {
            Ok(text) => text_field_of(token_views(row@), key@, field) == Ok::<
                Seq<char>,
                ParseError,
            >(text@),
            Err(e) => text_field_of(token_views(row@), key@, field) == Err::<
                Seq<char>,
                ParseError,
            >(e),
        },
{
    match find_pair_by_key(row, key) {
        None => Err(ParseError::MissingKey(field)),
        Some((_, val)) => Ok(val.to_owned()),
    }
}

/// Reads a comma-separated list of integers. One item that is no integer
/// spoils the list.
pub fn parse_int_list(text: &str) -> (res: Option<Vec<i32>>)
    ensures
        match res {
            Some(list) => int_list(text@) == Some(list@),
            None => int_list(text@) is None,
        },
{
    let pieces = split_str(text, ',');
    let ghost views = str_views(pieces@);
    let mut res: Vec<i32> = Vec::new();
    let mut k: usize = 0;
    proof {
        assert(views.take(0) =~= Seq::<Seq<char>>::empty());
    }
    while k < pieces.len()
        invariant
            views == str_views(pieces@),
            views == split_on(text@, ','),
            0 <= k <= pieces@.len(),
            read_ints(views.take(k as int)) == Some(res@),
        decreases pieces@.len() - k,
    {
        proof {
            assert(views.take(k + 1).drop_last() =~= views.take(k as int));
            assert(views.take(k + 1).last() == pieces@[k as int]@);
            lemma_read_ints_fails_on(views, k + 1);
        }
        match parse_i32(pieces[k]) {
            Some(n) => {
                res.push(n);
            },
            None => {
                return None;
            },
        }
        k += 1;
    }
    proof {
        assert(views.take(k as int) =~= views);
    }
    Some(res)
}

fn list_field(row: &[HieroToken], key: &str, field: Field) -> (res: Result<Vec<i32>, ParseError>)
    ensures
        match res {
            Ok(list) => list_field_of(token_views(row@), key@, field) == Ok::<
                Seq<i32>,
                ParseError,
            >(list@),
            Err(e) => list_field_of(token_views(row@), key@, field) == Err::<
                Seq<i32>,
                ParseError,
            >(e),
        },
{
    match find_pair_by_key(row, key) {
        None => Err(ParseError::MissingKey(field)),
        Some((_, val)) => match parse_int_list(val) {
            None => Err(ParseError::BadValue(field)),
            Some(list) => Ok(list),
        },
    }
}

/// The `common` record of a table: its second row, which has to hold at
/// least seven tokens, read field by field. The first field that is missing
/// or holds no integer decides the error.
pub open spec fn common_of(table: Seq<Seq<TokenView>>) -> Result<HieroCommon, ParseError> {
    if table.len() < 2 {
        Err(ParseError::MissingRow(Row::Common))
    } else if table[1].len() < 7 {
        Err(ParseError::TooFewColumns(Row::Common))
    } else {
        let row = table[1];
        let line_height = int_field_of(row, "lineHeight"@, Field::LineHeight);
        let base = int_field_of(row, "base"@, Field::Base);
        let scale_w = int_field_of(row, "scaleW"@, Field::ScaleW);
        let scale_h = int_field_of(row, "scaleH"@, Field::ScaleH);
        let pages = int_field_of(row, "pages"@, Field::Pages);
        let packed = int_field_of(row, "packed"@, Field::Packed);
        if line_height is Err {
            Err(line_height->Err_0)
        } else if base is Err {
            Err(base->Err_0)
        } else if scale_w is Err {
            Err(scale_w->Err_0)
        } else if scale_h is Err {
            Err(scale_h->Err_0)
        } else if pages is Err {
            Err(pages->Err_0)
        } else if packed is Err {
            Err(packed->Err_0)
        } else {
            Ok(
                HieroCommon {
                    line_height: line_height->Ok_0,
                    base: base->Ok_0,
                    scale_w: scale_w->Ok_0,
                    scale_h: scale_h->Ok_0,
                    pages: pages->Ok_0,
                    packed: packed->Ok_0,
                },
            )
        }
    }
}

/// Reads the `common` record from the second row of the table.
pub fn parse_common(table: &[Vec<HieroToken>]) -> (res: Result<HieroCommon, ParseError>)
    ensures
        res == common_of(table_views(table@)),
{
    if table.len() < 2 {
        return Err(ParseError::MissingRow(Row::Common));
    }
    let row = table[1].as_slice();
    if row.len() < 7 {
        return Err(ParseError::TooFewColumns(Row::Common));
    }
    let line_height = int_field(row, "lineHeight", Field::LineHeight)?;
    let base = int_field(row, "base", Field::Base)?;
    let scale_w = int_field(row, "scaleW", Field::ScaleW)?;
    let scale_h = int_field(row, "scaleH", Field::ScaleH)?;
    let pages = int_field(row, "pages", Field::Pages)?;
    let packed = int_field(row, "packed", Field::Packed)?;
    Ok(HieroCommon { line_height, base, scale_w, scale_h, pages, packed })
}

/// Whether a row holds a token that names its entry.
pub open spec fn names_entry(row: Seq<TokenView>) -> bool {
    exists|i: int| 0 <= i < row.len() && #[trigger] row[i] is EntryName
}

fn has_entry_name(row: &[HieroToken]) -> (res: bool)
    ensures
        res == names_entry(token_views(row@)),
{
    let ghost views = token_views(row@);
    let mut i: usize = 0;
    while i < row.len()
        invariant
            views == token_views(row@),
            0 <= i <= row@.len(),
            forall|j: int| 0 <= j < i ==> !(#[trigger] views[j] is EntryName),
        decreases row@.len() - i,
    {
        if row[i].as_entry().is_some() {
            assert(views[i as int] is EntryName);
            return true;
        }
        i += 1;
    }
    false
}

/// The `info` record of a table: its first row, which has to hold at least
/// twelve tokens, one of them the entry name, read field by field. The first
/// field that is missing, or holds no integer where it is to hold one, or
/// holds a list with an item that is no integer, decides the error.
pub open spec fn info_of(table: Seq<Seq<TokenView>>) -> Result<InfoView, ParseError> {
    if table.len() < 1 {
        Err(ParseError::MissingRow(Row::Info))
    } else if table[0].len() < 12 {
        Err(ParseError::TooFewColumns(Row::Info))
    } else if !names_entry(table[0]) {
        Err(ParseError::MissingEntryName)
    } else {
        let row = table[0];
        let face = text_field_of(row, "face"@, Field::Face);
        let size = int_field_of(row, "size"@, Field::Size);
        let bold = int_field_of(row, "bold"@, Field::Bold);
        let italic = int_field_of(row, "italic"@, Field::Italic);
        let char_set = text_field_of(row, "charset"@, Field::Charset);
        let unicode = int_field_of(row, "unicode"@, Field::Unicode);
        let stretch_h = int_field_of(row, "stretchH"@, Field::StretchH);
        let smooth = int_field_of(row, "smooth"@, Field::Smooth);
        let aa = int_field_of(row, "aa"@, Field::Aa);
        let padding = list_field_of(row, "padding"@, Field::Padding);
        let spacing = list_field_of(row, "spacing"@, Field::Spacing);
        if face is Err {
            Err(face->Err_0)
        } else if size is Err {
            Err(size->Err_0)
        } else if bold is Err {
            Err(bold->Err_0)
        } else if italic is Err {
            Err(italic->Err_0)
        } else if char_set is Err {
            Err(char_set->Err_0)
        } else if unicode is Err {
            Err(unicode->Err_0)
        } else if stretch_h is Err {
            Err(stretch_h->Err_0)
        } else if smooth is Err {
            Err(smooth->Err_0)
        } else if aa is Err {
            Err(aa->Err_0)
        } else if padding is Err {
            Err(padding->Err_0)
        } else if spacing is Err {
            Err(spacing->Err_0)
        } else {
            Ok(
                InfoView {
                    face: face->Ok_0,
                    size: size->Ok_0,
                    bold: bold->Ok_0,
                    italic: italic->Ok_0,
                    char_set: char_set->Ok_0,
                    unicode: unicode->Ok_0,
                    stretch_h: stretch_h->Ok_0,
                    smooth: smooth->Ok_0,
                    aa: aa->Ok_0,
                    padding: padding->Ok_0,
                    spacing: spacing->Ok_0,
                },
            )
        }
    }
}

/// Reads the `info` record from the first row of the table.
pub fn parse_info(table: &[Vec<HieroToken>]) -> (res: Result<HieroInfo, ParseError>)
    ensures
        match res {
            Ok(info) => info_of(table_views(table@)) == Ok::<InfoView, ParseError>(info@),
            Err(e) => info_of(table_views(table@)) == Err::<InfoView, ParseError>(e),
        },
{
    if table.len() < 1 {
        return Err(ParseError::MissingRow(Row::Info));
    }
    let row = table[0].as_slice();
    if row.len() < 12 {
        return Err(ParseError::TooFewColumns(Row::Info));
    }
    if !has_entry_name(row) {
        return Err(ParseError::MissingEntryName);
    }
    let face = text_field(row, "face", Field::Face)?;
    let size = int_field(row, "size", Field::Size)?;
    let bold = int_field(row, "bold", Field::Bold)?;
    let italic = int_field(row, "italic", Field::Italic)?;
    let char_set = text_field(row, "charset", Field::Charset)?;
    let unicode = int_field(row, "unicode", Field::Unicode)?;
    let stretch_h = int_field(row, "stretchH", Field::StretchH)?;
    let smooth = int_field(row, "smooth", Field::Smooth)?;
    let aa = int_field(row, "aa", Field::Aa)?;
    let padding = list_field(row, "padding", Field::Padding)?;
    let spacing = list_field(row, "spacing", Field::Spacing)?;
    Ok(
        HieroInfo {
            face,
            size,
            bold,
            italic,
            char_set,
            unicode,
            stretch_h,
            smooth,
            aa,
            padding,
            spacing,
        },
    )
}

/// Whether `row` is a line of the entry `name`: its first token is that
/// entry name.
pub open spec fn is_entry_line(row: Seq<TokenView>, name: Seq<char>) -> bool {
    row.len() > 0 && row[0] == TokenView::EntryName(name)
}

fn starts_with_entry(row: &[HieroToken], name: &str) -> (res: bool)
    ensures
        res == is_entry_line(token_views(row@), name@),
{
    if row.len() == 0 {
        return false;
    }
    match row[0].as_entry() {
        Some(entry) => str_eq(entry, name),
        None => false,
    }
}

/// Of a list of tokens, the integers that the values of its fields write, in
/// order. A field whose value is no integer is left out.
pub open spec fn pair_ints(tokens: Seq<TokenView>) -> Seq<i32>
    decreases tokens.len(),
{
    if tokens.len() == 0 {
        Seq::empty()
    } else {
        let rest = pair_ints(tokens.drop_last());
        match tokens.last() {
            TokenView::Pair { val, .. } => match parse_i32_spec(val) {
                Some(n) => rest.push(n),
                None => rest,
            },
            TokenView::EntryName(_) => rest,
        }
    }
}

/// The integers of a line, read by position: those of the fields that follow
/// its first token.
pub open spec fn line_values(row: Seq<TokenView>) -> Seq<i32> {
    pair_ints(row.skip(1))
}

fn read_line_values(row: &[HieroToken]) -> (res: Vec<i32>)
    requires
        row@.len() > 0,
    ensures
        res@ == line_values(token_views(row@)),
{
    let ghost fields = token_views(row@).skip(1);
    let mut res: Vec<i32> = Vec::new();
    let mut k: usize = 1;
    proof {
        assert(fields.take(0) =~= Seq::<TokenView>::empty());
    }
    while k < row.len()
        invariant
            fields == token_views(row@).skip(1),
            1 <= k <= row@.len(),
            res@ == pair_ints(fields.take(k - 1)),
        decreases row@.len() - k,
    {
        proof {
            assert(fields.take(k as int).drop_last() =~= fields.take(k - 1));
            assert(fields.take(k as int).last() == row@[k as int]@);
        }
        if let Some((_, val)) = row[k].as_pair() {
            if let Some(n) = parse_i32(val) {
                res.push(n);
            }
        }
        k += 1;
    }
    proof {
        assert(fields.take(k - 1) =~= fields);
    }
    res
}

/// Whether `n` is a Unicode scalar value.
pub open spec fn is_codepoint(n: i32) -> bool {
    0 <= n <= 0x10FFFF && !(0xD800 <= n <= 0xDFFF)
}

fn check_codepoint(n: i32) -> (res: Option<u32>)
    ensures
        res is Some == is_codepoint(n),
        res is Some ==> res->0 == n,
{
    if 0 <= n && n <= 0x10FFFF && !(0xD800 <= n && n <= 0xDFFF) {
        Some(n as u32)
    } else {
        None
    }
}

/// The glyph record that the integers of a `char` line describe: the first
/// is the codepoint, the nine that follow are the record.
pub open spec fn glyph_of(v: Seq<i32>) -> HieroBitmapInfo {
    HieroBitmapInfo {
        x: v[1],
        y: v[2],
        width: v[3],
        height: v[4],
        xoffset: v[5],
        yoffset: v[6],
        xadvance: v[7],
        page: v[8],
        channel: v[9],
    }
}

/// The glyph table after one more row. A row that is no `char` line leaves
/// it as it is; a `char` line adds its glyph, in place of an earlier one of
/// the same codepoint.
pub open spec fn add_glyph_line(
    glyphs: Map<u32, HieroBitmapInfo>,
    row: Seq<TokenView>,
    index: int,
) -> Result<Map<u32, HieroBitmapInfo>, ParseError> {
    if !is_entry_line(row, "char"@) {
        Ok(glyphs)
    } else {
        let v = line_values(row);
        if v.len() < 10 {
            Err(ParseError::ShortGlyphLine(index as usize))
        } else if !is_codepoint(v[0]) {
            Err(ParseError::BadCodepoint(index as usize))
        } else {
            Ok(glyphs.insert(v[0] as u32, glyph_of(v)))
        }
    }
}

/// The glyph table of the first `n` rows of a table, or the error of the
/// first row that is at fault.
pub open spec fn glyphs_of_first(table: Seq<Seq<TokenView>>, n: nat) -> Result<
    Map<u32, HieroBitmapInfo>,
    ParseError,
>
    decreases n,
{
    if n == 0 {
        Ok(Map::empty())
    } else {
        match glyphs_of_first(table, (n - 1) as nat) {
            Err(e) => Err(e),
            Ok(glyphs) => add_glyph_line(glyphs, table[n - 1], n - 1),
        }
    }
}

/// The glyph table of a table, keyed by codepoint.
pub open spec fn glyphs_of(table: Seq<Seq<TokenView>>) -> Result<
    Map<u32, HieroBitmapInfo>,
    ParseError,
> {
    glyphs_of_first(table, table.len())
}

/// Once a row is at fault, the rows after it change nothing.
pub proof fn lemma_glyph_error_stays(table: Seq<Seq<TokenView>>, m: nat, n: nat)
    requires
        m <= n,
    ensures
        glyphs_of_first(table, m) is Err ==> glyphs_of_first(table, n) == glyphs_of_first(table, m),
    decreases n,
{
    if m < n {
        lemma_glyph_error_stays(table, m, (n - 1) as nat);
    }
}

/// Reads the glyph table from the `char` lines of the table.
pub fn parse_glyphs(table: &[Vec<HieroToken>]) -> (res: Result<
    HashMap<u32, HieroBitmapInfo>,
    ParseError,
>)
    ensures
        match res {
            Ok(glyphs) => glyphs_of(table_views(table@)) == Ok::<
                Map<u32, HieroBitmapInfo>,
                ParseError,
            >(glyphs@),
            Err(e) => glyphs_of(table_views(table@)) == Err::<
                Map<u32, HieroBitmapInfo>,
                ParseError,
            >(e),
        },
        res matches Ok(glyphs) ==> glyph_keys_valid(glyphs@),
{
    let ghost rows = table_views(table@);
    let mut glyph_table: HashMap<u32, HieroBitmapInfo> = HashMap::new();
    let mut i: usize = 0;
    while i < table.len()
        invariant
            rows == table_views(table@),
            0 <= i <= table@.len(),
            glyphs_of_first(rows, i as nat) == Ok::<Map<u32, HieroBitmapInfo>, ParseError>(
                glyph_table@,
            ),
        decreases table@.len() - i,
    {
        let row = table[i].as_slice();
        proof {
            assert(rows[i as int] == token_views(row@));
        }
        if starts_with_entry(row, "char") {
            let char_data = read_line_values(row);
            proof {
                lemma_glyph_error_stays(rows, (i + 1) as nat, rows.len());
            }
            if char_data.len() < 10 {
                return Err(ParseError::ShortGlyphLine(i));
            }
            let id = match check_codepoint(char_data[0]) {
                Some(id) => id,
                None => {
                    return Err(ParseError::BadCodepoint(i));
                },
            };
            glyph_table.insert(
                id,
                HieroBitmapInfo {
                    x: char_data[1],
                    y: char_data[2],
                    width: char_data[3],
                    height: char_data[4],
                    xoffset: char_data[5],
                    yoffset: char_data[6],
                    xadvance: char_data[7],
                    page: char_data[8],
                    channel: char_data[9],
                },
            );
        }
        i += 1;
    }
    proof {
        lemma_glyph_keys_valid(rows, rows.len());
    }
    Ok(glyph_table)
}

/// The key under which the kerning table holds the pair `(first, second)`.
pub open spec fn kerning_key(first: u32, second: u32) -> u64 {
    (first as u64 * 0x1_0000_0000 + second as u64) as u64
}

/// Computes the key of a pair of codepoints.
pub fn make_kerning_key(first: u32, second: u32) -> (res: u64)
    ensures
        res == kerning_key(first, second),
        res == first * 0x1_0000_0000 + second,
{
    first as u64 * 0x1_0000_0000 + second as u64
}

/// The kerning table after one more row. A row that is no `kerning` line
/// leaves it as it is; a `kerning` line adds its amount under its pair of
/// codepoints, in place of an earlier one for the same pair.
pub open spec fn add_kerning_line(kernings: Map<u64, i32>, row: Seq<TokenView>, index: int) -> Result<
    Map<u64, i32>,
    ParseError,
> {
    if !is_entry_line(row, "kerning"@) {
        Ok(kernings)
    } else {
        let v = line_values(row);
        if v.len() < 3 {
            Err(ParseError::ShortKerningLine(index as usize))
        } else if !is_codepoint(v[0]) || !is_codepoint(v[1]) {
            Err(ParseError::BadCodepoint(index as usize))
        } else {
            Ok(kernings.insert(kerning_key(v[0] as u32, v[1] as u32), v[2]))
        }
    }
}

/// The kerning table of the first `n` rows of a table, or the error of the
/// first row that is at fault.
pub open spec fn kernings_of_first(table: Seq<Seq<TokenView>>, n: nat) -> Result<
    Map<u64, i32>,
    ParseError,
>
    decreases n,
{
    if n == 0 {
        Ok(Map::empty())
    } else {
        match kernings_of_first(table, (n - 1) as nat) {
            Err(e) => Err(e),
            Ok(kernings) => add_kerning_line(kernings, table[n - 1], n - 1),
        }
    }
}

/// The kerning table of a table, keyed by [`kerning_key`].
pub open spec fn kernings_of(table: Seq<Seq<TokenView>>) -> Result<Map<u64, i32>, ParseError> {
    kernings_of_first(table, table.len())
}

/// Once a row is at fault, the rows after it change nothing.
pub proof fn lemma_kerning_error_stays(table: Seq<Seq<TokenView>>, m: nat, n: nat)
    requires
        m <= n,
    ensures
        kernings_of_first(table, m) is Err ==> kernings_of_first(table, n) == kernings_of_first(table, m),
    decreases n,
{
    if m < n {
        lemma_kerning_error_stays(table, m, (n - 1) as nat);
    }
}

/// Reads the kerning table from the `kerning` lines of the table: first
/// codepoint, second codepoint and amount, each read on its own.
pub fn parse_kerning_table(table: &[Vec<HieroToken>]) -> (res: Result<
    HashMap<u64, i32>,
    ParseError,
>)
    ensures
        match res {
            Ok(kernings) => kernings_of(table_views(table@)) == Ok::<Map<u64, i32>, ParseError>(
                kernings@,
            ),
            Err(e) => kernings_of(table_views(table@)) == Err::<Map<u64, i32>, ParseError>(e),
        },
        res matches Ok(kernings) ==> kerning_keys_valid(kernings@),
{
    let ghost rows = table_views(table@);
    let mut kerning_table: HashMap<u64, i32> = HashMap::new();
    let mut i: usize = 0;
    while i < table.len()
        invariant
            rows == table_views(table@),
            0 <= i <= table@.len(),
            kernings_of_first(rows, i as nat) == Ok::<Map<u64, i32>, ParseError>(kerning_table@),
        decreases table@.len() - i,
    {
        let row = table[i].as_slice();
        proof {
            assert(rows[i as int] == token_views(row@));
        }
        if starts_with_entry(row, "kerning") {
            let kerning_data = read_line_values(row);
            proof {
                lemma_kerning_error_stays(rows, (i + 1) as nat, rows.len());
            }
            if kerning_data.len() < 3 {
                return Err(ParseError::ShortKerningLine(i));
            }
            let first = check_codepoint(kerning_data[0]);
            let second = check_codepoint(kerning_data[1]);
            match (first, second) {
                (Some(first), Some(second)) => {
                    let amount = kerning_data[2];
                    kerning_table.insert(make_kerning_key(first, second), amount);
                },
                _ => {
                    return Err(ParseError::BadCodepoint(i));
                },
            }
        }
        i += 1;
    }
    proof {
        lemma_kerning_keys_valid(rows, rows.len());
    }
    Ok(kerning_table)
}

/// Whether `key` stands for a pair of codepoints.
pub open spec fn is_kerning_key(key: u64) -> bool {
    exists|first: u32, second: u32|
        is_scalar(first) && is_scalar(second) && key == #[trigger] kerning_key(first, second)
}

/// Whether every key of a glyph table is a codepoint.
pub open spec fn glyph_keys_valid(glyphs: Map<u32, HieroBitmapInfo>) -> bool {
    forall|k: u32| glyphs.contains_key(k) ==> is_scalar(k)
}

/// Whether every key of a kerning table stands for a pair of codepoints.
pub open spec fn kerning_keys_valid(kernings: Map<u64, i32>) -> bool {
    forall|k: u64| kernings.contains_key(k) ==> is_kerning_key(k)
}

/// Every key of a glyph table that was read from a table is a codepoint.
pub proof fn lemma_glyph_keys_valid(table: Seq<Seq<TokenView>>, n: nat)
    ensures
        glyphs_of_first(table, n) matches Ok(glyphs) ==> glyph_keys_valid(glyphs),
    decreases n,
{
    if n > 0 {
        lemma_glyph_keys_valid(table, (n - 1) as nat);
    }
}

/// Every key of a kerning table that was read from a table stands for a pair
/// of codepoints.
pub proof fn lemma_kerning_keys_valid(table: Seq<Seq<TokenView>>, n: nat)
    ensures
        kernings_of_first(table, n) matches Ok(kernings) ==> kerning_keys_valid(kernings),
    decreases n,
{
    if n > 0 {
        lemma_kerning_keys_valid(table, (n - 1) as nat);
        let row = table[n - 1];
        if kernings_of_first(table, n) is Ok && is_entry_line(row, "kerning"@) {
            let v = line_values(row);
            assert(is_scalar(v[0] as u32) && is_scalar(v[1] as u32));
            assert(is_kerning_key(kerning_key(v[0] as u32, v[1] as u32)));
        }
    }
}

/// A table without a second row, or with fewer than seven tokens on it, has
/// no `common` record: reading it reports which of the two is the case.
pub proof fn lemma_common_needs_its_row(table: Seq<Seq<TokenView>>)
    requires
        table.len() < 2 || table[1].len() < 7,
    ensures
        common_of(table) is Err,
        table.len() < 2 ==> common_of(table) == Err::<HieroCommon, ParseError>(
            ParseError::MissingRow(Row::Common),
        ),
        table.len() >= 2 ==> common_of(table) == Err::<HieroCommon, ParseError>(
            ParseError::TooFewColumns(Row::Common),
        ),
{
}

/// Whether row `i` of the table is a well-formed `char` line for the
/// codepoint `k`.
pub open spec fn is_glyph_line(table: Seq<Seq<TokenView>>, i: int, k: u32) -> bool {
    &&& 0 <= i < table.len()
    &&& is_entry_line(table[i], "char"@)
    &&& line_values(table[i]).len() >= 10
    &&& is_codepoint(line_values(table[i])[0])
    &&& line_values(table[i])[0] as u32 == k
}

/// Where the first `n` rows of a table read without error, the glyph table
/// has exactly one entry for each codepoint that a `char` line among them
/// names, and the entry holds the values of the last such line.
pub proof fn lemma_last_glyph_line_wins(table: Seq<Seq<TokenView>>, n: nat, k: u32)
    requires
        n <= table.len(),
        glyphs_of_first(table, n) is Ok,
    ensures
        glyphs_of_first(table, n)->Ok_0.contains_key(k) <==> exists|i: int|
            0 <= i < n && #[trigger] is_glyph_line(table, i, k),
        forall|i: int|
            0 <= i < n && #[trigger] is_glyph_line(table, i, k) && (forall|j: int|
                i < j < n ==> !is_glyph_line(table, j, k)) ==> glyphs_of_first(table, n)->Ok_0[k]
                == glyph_of(line_values(table[i])),
    decreases n,
{
    if n > 0 {
        let m = (n - 1) as nat;
        lemma_last_glyph_line_wins(table, m, k);
        let before = glyphs_of_first(table, m)->Ok_0;
        let after = glyphs_of_first(table, n)->Ok_0;
        if is_glyph_line(table, m as int, k) {
            assert(after[k] == glyph_of(line_values(table[m as int])));
        } else {
            assert(after.contains_key(k) == before.contains_key(k));
            if before.contains_key(k) {
                assert(after[k] == before[k]);
            }
            if after.contains_key(k) {
                let i = choose|i: int| 0 <= i < m && #[trigger] is_glyph_line(table, i, k);
                assert(is_glyph_line(table, i, k));
            }
        }
        assert forall|i: int|
            0 <= i < n && #[trigger] is_glyph_line(table, i, k) && (forall|j: int|
                i < j < n ==> !is_glyph_line(table, j, k)) implies after[k] == glyph_of(
            line_values(table[i]),
        ) by {
            if i < m {
                assert(!is_glyph_line(table, m as int, k));
                assert forall|j: int| i < j < m implies !is_glyph_line(table, j, k) by {}
            }
        }
    }
}

/// Whether row `i` of the table is a well-formed `kerning` line for the pair
/// of codepoints `(first, second)`.
pub open spec fn is_kerning_line(table: Seq<Seq<TokenView>>, i: int, first: u32, second: u32) -> bool {
    &&& 0 <= i < table.len()
    &&& is_entry_line(table[i], "kerning"@)
    &&& line_values(table[i]).len() >= 3
    &&& is_codepoint(line_values(table[i])[0])
    &&& is_codepoint(line_values(table[i])[1])
    &&& line_values(table[i])[0] as u32 == first
    &&& line_values(table[i])[1] as u32 == second
}

/// Two pairs of codepoints with the same key are the same pair.
pub proof fn lemma_kerning_key_injective(a: u32, b: u32, c: u32, d: u32)
    requires
        kerning_key(a, b) == kerning_key(c, d),
    ensures
        a == c && b == d,
{
}

/// Where the first `n` rows of a table read without error, the kerning table
/// holds, for a pair that a `kerning` line among them names, the amount of
/// the last such line: its third value, read on its own.
pub proof fn lemma_last_kerning_line_wins(
    table: Seq<Seq<TokenView>>,
    n: nat,
    first: u32,
    second: u32,
)
    requires
        n <= table.len(),
        kernings_of_first(table, n) is Ok,
    ensures
        kernings_of_first(table, n)->Ok_0.contains_key(kerning_key(first, second)) <==> exists|
            i: int,
        |
            0 <= i < n && #[trigger] is_kerning_line(table, i, first, second),
        forall|i: int|
            0 <= i < n && #[trigger] is_kerning_line(table, i, first, second) && (forall|j: int|
                i < j < n ==> !is_kerning_line(table, j, first, second)) ==> kernings_of_first(
                table,
                n,
            )->Ok_0[kerning_key(first, second)] == line_values(table[i])[2],
    decreases n,
{
    let k = kerning_key(first, second);
    if n > 0 {
        let m = (n - 1) as nat;
        lemma_last_kerning_line_wins(table, m, first, second);
        let before = kernings_of_first(table, m)->Ok_0;
        let after = kernings_of_first(table, n)->Ok_0;
        let row = table[m as int];
        if is_kerning_line(table, m as int, first, second) {
            assert(after[k] == line_values(row)[2]);
        } else {
            if is_entry_line(row, "kerning"@) {
                let v = line_values(row);
                if kerning_key(v[0] as u32, v[1] as u32) == k {
                    lemma_kerning_key_injective(v[0] as u32, v[1] as u32, first, second);
                }
            }
            assert(after.contains_key(k) == before.contains_key(k));
            if before.contains_key(k) {
                assert(after[k] == before[k]);
            }
            if after.contains_key(k) {
                let i = choose|i: int|
                    0 <= i < m && #[trigger] is_kerning_line(table, i, first, second);
                assert(is_kerning_line(table, i, first, second));
            }
        }
        assert forall|i: int|
            0 <= i < n && #[trigger] is_kerning_line(table, i, first, second) && (forall|j: int|
                i < j < n ==> !is_kerning_line(table, j, first, second)) implies after[k]
            == line_values(table[i])[2] by {
            if i < m {
                assert(!is_kerning_line(table, m as int, first, second));
                assert forall|j: int| i < j < m implies !is_kerning_line(
                    table,
                    j,
                    first,
                    second,
                ) by {}
            }
        }
    }
}

/// A table without `char` lines has no glyphs.
pub proof fn lemma_no_glyph_lines(table: Seq<Seq<TokenView>>, n: nat)
    requires
        n <= table.len(),
        forall|i: int| 0 <= i < n ==> !is_entry_line(#[trigger] table[i], "char"@),
    ensures
        glyphs_of_first(table, n) == Ok::<Map<u32, HieroBitmapInfo>, ParseError>(Map::empty()),
    decreases n,
{
    if n > 0 {
        lemma_no_glyph_lines(table, (n - 1) as nat);
        assert(!is_entry_line(table[n - 1], "char"@));
    }
}

/// A table without `kerning` lines has no kerning amounts.
pub proof fn lemma_no_kerning_lines(table: Seq<Seq<TokenView>>, n: nat)
    requires
        n <= table.len(),
        forall|i: int| 0 <= i < n ==> !is_entry_line(#[trigger] table[i], "kerning"@),
    ensures
        kernings_of_first(table, n) == Ok::<Map<u64, i32>, ParseError>(Map::empty()),
    decreases n,
{
    if n > 0 {
        lemma_no_kerning_lines(table, (n - 1) as nat);
        assert(!is_entry_line(table[n - 1], "kerning"@));
    }
}

} // verus!
