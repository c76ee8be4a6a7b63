use hiero_pack::atlas::{HieroBitmapInfo, HieroCommon};
use hiero_pack::err::{Field, ParseError, Row};
use hiero_pack::parse::{
    find_pair_by_key, parse_common, parse_glyphs, parse_info, parse_int_list,
    parse_kerning_table, HieroToken, HieroTokenizer,
};
use hiero_pack::parse::records::make_kerning_key;
use hiero_pack::split::{split_lines, split_str, trim_cr};
use hiero_pack::text::{parse_i32, push_decimal, str_eq};

const INFO: &str = "info face=\"Andale Mono\" size=32 bold=0 italic=1 charset=\"\" unicode=0 stretchH=100 smooth=1 aa=2 padding=1,2,3,4 spacing=-2,-3";
const COMMON: &str = "common lineHeight=38 base=30 scaleW=256 scaleH=512 pages=1 packed=0";

fn table<'a>(lines: &[&'a str]) -> Vec<Vec<HieroToken<'a>>> {
    lines.iter().map(|l| HieroTokenizer::tokenize_line(l)).collect()
}

#[test]
fn common_row_is_read_by_key() {
    let t = table(&[INFO, COMMON]);
    assert_eq!(
        parse_common(&t),
        Ok(HieroCommon {
            line_height: 38,
            base: 30,
            scale_w: 256,
            scale_h: 512,
            pages: 1,
            packed: 0
        })
    );
    let shuffled = "common packed=7 pages=6 scaleH=5 scaleW=4 base=3 lineHeight=2";
    let t = table(&[INFO, shuffled]);
    assert_eq!(
        parse_common(&t),
        Ok(HieroCommon {
            line_height: 2,
            base: 3,
            scale_w: 4,
            scale_h: 5,
            pages: 6,
            packed: 7
        })
    );
}

#[test]
fn common_row_missing() {
    assert_eq!(
        parse_common(&table(&[])),
        Err(ParseError::MissingRow(Row::Common))
    );
    assert_eq!(
        parse_common(&table(&[INFO])),
        Err(ParseError::MissingRow(Row::Common))
    );
}

#[test]
fn common_row_too_short() {
    let t = table(&[INFO, "common lineHeight=38 base=30 scaleW=256 scaleH=512 pages=1"]);
    assert_eq!(parse_common(&t), Err(ParseError::TooFewColumns(Row::Common)));
    let t = table(&[INFO, ""]);
    assert_eq!(parse_common(&t), Err(ParseError::TooFewColumns(Row::Common)));
}

#[test]
fn common_field_missing_or_bad() {
    let t = table(&[INFO, "common lineHeight=38 bass=30 scaleW=256 scaleH=512 pages=1 packed=0"]);
    assert_eq!(parse_common(&t), Err(ParseError::MissingKey(Field::Base)));
    let t = table(&[INFO, "common lineHeight=38 base=30 scaleW=2x6 scaleH=512 pages=1 packed=0"]);
    assert_eq!(parse_common(&t), Err(ParseError::BadValue(Field::ScaleW)));
    let t = table(&[INFO, "common lineHeight=x base=y scaleW=256 scaleH=512 pages=1 packed=0"]);
    assert_eq!(parse_common(&t), Err(ParseError::BadValue(Field::LineHeight)));
    let t = table(&[INFO, "common lineHeight=1 base=2 scaleW=3 scaleH=4 pages=5 packed= x=1"]);
    assert_eq!(parse_common(&t), Err(ParseError::BadValue(Field::Packed)));
    let t = table(&[INFO, "common lineHeight=1 base=2 scaleW=3 scaleH= pages=5 x=1"]);
    assert_eq!(parse_common(&t), Err(ParseError::BadValue(Field::ScaleH)));
    let t = table(&[INFO, "common lineHeight=1 base=2 scaleW=3 scaleH=4 page=5 x=1"]);
    assert_eq!(parse_common(&t), Err(ParseError::MissingKey(Field::Pages)));
}

#[test]
fn info_row_is_read_by_key() {
    let t = table(&[INFO, COMMON]);
    let info = parse_info(&t).unwrap();
    assert_eq!(info.face, "Andale Mono");
    assert_eq!(info.size, 32);
    assert_eq!(info.bold, 0);
    assert_eq!(info.italic, 1);
    assert_eq!(info.char_set, "");
    assert_eq!(info.unicode, 0);
    assert_eq!(info.stretch_h, 100);
    assert_eq!(info.smooth, 1);
    assert_eq!(info.aa, 2);
    assert_eq!(info.padding, vec![1, 2, 3, 4]);
    assert_eq!(info.spacing, vec![-2, -3]);
}

#[test]
fn info_row_errors() {
    assert_eq!(
        parse_info(&table(&[])).unwrap_err(),
        ParseError::MissingRow(Row::Info)
    );
    assert_eq!(
        parse_info(&table(&["info face=X size=1"])).unwrap_err(),
        ParseError::TooFewColumns(Row::Info)
    );
    let no_face = "info fac=\"X\" size=10 bold=0 italic=0 charset=\"\" unicode=0 stretchH=100 smooth=0 aa=0 padding=0,0,0,0 spacing=0,0";
    assert_eq!(
        parse_info(&table(&[no_face])).unwrap_err(),
        ParseError::MissingKey(Field::Face)
    );
    let bad_bold = "info face=\"X\" size=10 bold=no italic=0 charset=\"\" unicode=0 stretchH=100 smooth=0 aa=0 padding=0,0,0,0 spacing=0,0";
    assert_eq!(
        parse_info(&table(&[bad_bold])).unwrap_err(),
        ParseError::BadValue(Field::Bold)
    );
    let no_spacing = "info face=\"X\" size=10 bold=0 italic=0 charset=\"\" unicode=0 stretchH=100 smooth=0 aa=0 padding=0,0,0,0 spacin=0,0";
    assert_eq!(
        parse_info(&table(&[no_spacing])).unwrap_err(),
        ParseError::MissingKey(Field::Spacing)
    );
    let big_size = "info face=\"X\" size=2147483648 bold=0 italic=0 charset=\"\" unicode=0 stretchH=100 smooth=0 aa=0 padding=0,0,0,0 spacing=0,0";
    assert_eq!(
        parse_info(&table(&[big_size])).unwrap_err(),
        ParseError::BadValue(Field::Size)
    );
}

#[test]
fn info_row_needs_an_entry_name() {
    let pairs: Vec<HieroToken> = (0..12)
        .map(|_| HieroToken::Pair { key: "face", val: "X" })
        .collect();
    assert_eq!(
        parse_info(&[pairs]).unwrap_err(),
        ParseError::MissingEntryName
    );
}

#[test]
fn integer_lists_take_integers_only() {
    assert_eq!(parse_int_list("1,1,1,1"), Some(vec![1, 1, 1, 1]));
    assert_eq!(parse_int_list("-2,-2"), Some(vec![-2, -2]));
    assert_eq!(parse_int_list("7"), Some(vec![7]));
    assert_eq!(parse_int_list("+5,007,-0"), Some(vec![5, 7, 0]));
    assert_eq!(
        parse_int_list("2147483647,-2147483648"),
        Some(vec![2147483647, -2147483648])
    );
    assert_eq!(parse_int_list(""), None);
    assert_eq!(parse_int_list(",,"), None);
    assert_eq!(parse_int_list("1,"), None);
    assert_eq!(parse_int_list(",1"), None);
    assert_eq!(parse_int_list("1,x,3"), None);
    assert_eq!(parse_int_list("1,x,3,4"), None);
    assert_eq!(parse_int_list("1, 2"), None);
    assert_eq!(parse_int_list("1,2147483648"), None);
    assert_eq!(parse_int_list("\u{661},12"), None);
}

#[test]
fn info_list_with_a_bad_item_is_an_error() {
    let row = vec![
        HieroToken::EntryName("info"),
        HieroToken::Pair { key: "face", val: "X" },
        HieroToken::Pair { key: "size", val: "10" },
        HieroToken::Pair { key: "bold", val: "1" },
        HieroToken::Pair { key: "italic", val: "2" },
        HieroToken::Pair { key: "charset", val: "cs" },
        HieroToken::Pair { key: "unicode", val: "3" },
        HieroToken::Pair { key: "stretchH", val: "100" },
        HieroToken::Pair { key: "smooth", val: "4" },
        HieroToken::Pair { key: "aa", val: "5" },
        HieroToken::Pair { key: "padding", val: "1,x,3,4" },
        HieroToken::Pair { key: "spacing", val: "-5,-6" },
    ];
    assert_eq!(
        parse_info(&[row.clone()]).unwrap_err(),
        ParseError::BadValue(Field::Padding)
    );
    let mut good = row.clone();
    good[10] = HieroToken::Pair { key: "padding", val: "1,2,3,4" };
    let info = parse_info(&[good.clone()]).unwrap();
    assert_eq!(info.padding, vec![1, 2, 3, 4]);
    assert_eq!(info.spacing, vec![-5, -6]);
    assert_eq!(info.char_set, "cs");
    let mut bad_spacing = good.clone();
    bad_spacing[11] = HieroToken::Pair { key: "spacing", val: "-5,," };
    assert_eq!(
        parse_info(&[bad_spacing]).unwrap_err(),
        ParseError::BadValue(Field::Spacing)
    );
    let mut empty_padding = good.clone();
    empty_padding[10] = HieroToken::Pair { key: "padding", val: "" };
    assert_eq!(
        parse_info(&[empty_padding]).unwrap_err(),
        ParseError::BadValue(Field::Padding)
    );
    let mut both = good;
    both[10] = HieroToken::Pair { key: "padding", val: "a" };
    both[11] = HieroToken::Pair { key: "spacing", val: "b" };
    assert_eq!(
        parse_info(&[both]).unwrap_err(),
        ParseError::BadValue(Field::Padding)
    );
}

#[test]
fn glyphs_are_read_by_position() {
    let t = table(&[
        INFO,
        COMMON,
        "chars count=2",
        "char id=65 x=1 y=2 width=3 height=4 xoffset=-5 yoffset=6 xadvance=7 page=8 chnl=9",
        "char a=66 b=10 c=20 d=30 e=40 f=50 g=60 h=70 i=80 j=90 k=100",
    ]);
    let glyphs = parse_glyphs(&t).unwrap();
    assert_eq!(glyphs.len(), 2);
    assert_eq!(
        glyphs[&65],
        HieroBitmapInfo {
            x: 1,
            y: 2,
            width: 3,
            height: 4,
            xoffset: -5,
            yoffset: 6,
            xadvance: 7,
            page: 8,
            channel: 9
        }
    );
    assert_eq!(
        glyphs[&66],
        HieroBitmapInfo {
            x: 10,
            y: 20,
            width: 30,
            height: 40,
            xoffset: 50,
            yoffset: 60,
            xadvance: 70,
            page: 80,
            channel: 90
        }
    );
}

#[test]
fn later_glyph_line_wins() {
    let t = table(&[
        "char id=65 x=1 y=1 width=1 height=1 xoffset=1 yoffset=1 xadvance=1 page=1 chnl=1",
        "char id=66 x=2 y=2 width=2 height=2 xoffset=2 yoffset=2 xadvance=2 page=2 chnl=2",
        "char id=65 x=3 y=3 width=3 height=3 xoffset=3 yoffset=3 xadvance=3 page=3 chnl=3",
    ]);
    let glyphs = parse_glyphs(&t).unwrap();
    assert_eq!(glyphs.len(), 2);
    assert_eq!(glyphs[&65].x, 3);
    assert_eq!(glyphs[&65].channel, 3);
    assert_eq!(glyphs[&66].x, 2);
}

#[test]
fn glyph_line_errors_name_the_row() {
    let t = table(&[
        INFO,
        COMMON,
        "char id=65 x=1 y=2 width=3 height=4 xoffset=-5 yoffset=6 xadvance=7 page=8 chnl=9",
        "char id=66 x=1 y=2 width=3",
    ]);
    assert_eq!(parse_glyphs(&t).unwrap_err(), ParseError::ShortGlyphLine(3));
    let t = table(&[
        "char id=66 x=1 y=2 width=zz height=4 xoffset=-5 yoffset=6 xadvance=7 page=8 chnl=9",
    ]);
    assert_eq!(parse_glyphs(&t).unwrap_err(), ParseError::ShortGlyphLine(0));
    let t = table(&[
        "",
        "char id=-1 x=1 y=2 width=3 height=4 xoffset=-5 yoffset=6 xadvance=7 page=8 chnl=9",
    ]);
    assert_eq!(parse_glyphs(&t).unwrap_err(), ParseError::BadCodepoint(1));
    let t = table(&[
        "char id=55296 x=1 y=2 width=3 height=4 xoffset=-5 yoffset=6 xadvance=7 page=8 chnl=9",
    ]);
    assert_eq!(parse_glyphs(&t).unwrap_err(), ParseError::BadCodepoint(0));
    let t = table(&[
        "char id=1114112 x=1 y=2 width=3 height=4 xoffset=-5 yoffset=6 xadvance=7 page=8 chnl=9",
    ]);
    assert_eq!(parse_glyphs(&t).unwrap_err(), ParseError::BadCodepoint(0));
    let t = table(&[
        "char id=1114111 x=1 y=2 width=3 height=4 xoffset=-5 yoffset=6 xadvance=7 page=8 chnl=9",
        "char id=57344 x=1 y=2 width=3 height=4 xoffset=-5 yoffset=6 xadvance=7 page=8 chnl=9",
    ]);
    assert_eq!(parse_glyphs(&t).unwrap().len(), 2);
}

#[test]
fn blank_and_foreign_lines_are_no_glyphs() {
    let t = table(&["", "   ", "chars count=0", "kerning first=1 second=2 amount=3", INFO]);
    assert!(parse_glyphs(&t).unwrap().is_empty());
    assert!(parse_glyphs(&table(&[])).unwrap().is_empty());
}

#[test]
fn kerning_reads_three_values() {
    let t = table(&[
        INFO,
        COMMON,
        "kernings count=2",
        "kerning first=65 second=86 amount=-2",
        "kerning first=86 second=65 amount=3",
    ]);
    let kernings = parse_kerning_table(&t).unwrap();
    assert_eq!(kernings.len(), 2);
    assert_eq!(kernings[&make_kerning_key(65, 86)], -2);
    assert_eq!(kernings[&make_kerning_key(86, 65)], 3);
    assert_eq!(kernings.get(&make_kerning_key(65, 65)), None);
}

#[test]
fn later_kerning_line_wins() {
    let t = table(&[
        "kerning first=65 second=86 amount=-2",
        "kerning first=65 second=86 amount=5",
    ]);
    let kernings = parse_kerning_table(&t).unwrap();
    assert_eq!(kernings.len(), 1);
    assert_eq!(kernings[&make_kerning_key(65, 86)], 5);
}

#[test]
fn kerning_line_errors_name_the_row() {
    let t = table(&[INFO, "kerning first=65 second=86"]);
    assert_eq!(
        parse_kerning_table(&t).unwrap_err(),
        ParseError::ShortKerningLine(1)
    );
    let t = table(&["kerning first=65 second=-86 amount=1"]);
    assert_eq!(
        parse_kerning_table(&t).unwrap_err(),
        ParseError::BadCodepoint(0)
    );
    let t = table(&["kerning first=56000 second=86 amount=1"]);
    assert_eq!(
        parse_kerning_table(&t).unwrap_err(),
        ParseError::BadCodepoint(0)
    );
}

#[test]
fn kerning_key_formula() {
    assert_eq!(make_kerning_key(0, 0), 0);
    assert_eq!(make_kerning_key(1, 2), 4294967298);
    assert_eq!(make_kerning_key(0x10FFFF, 0x10FFFF), 4785070310227967);
    assert_eq!(make_kerning_key(u32::MAX, u32::MAX), u64::MAX);
}

#[test]
fn first_field_of_a_name_counts() {
    let tokens = HieroTokenizer::tokenize_line("char id=1 x=2 id=3");
    assert_eq!(find_pair_by_key(&tokens, "id"), Some(("id", "1")));
    assert_eq!(find_pair_by_key(&tokens, "x"), Some(("x", "2")));
    assert_eq!(find_pair_by_key(&tokens, "char"), None);
    assert_eq!(find_pair_by_key(&tokens, "i"), None);
    assert_eq!(find_pair_by_key(&[], "id"), None);
}

#[test]
fn strings_compare_by_content() {
    assert!(str_eq("", ""));
    assert!(str_eq("char", "char"));
    assert!(!str_eq("char", "chars"));
    assert!(!str_eq("char", "chat"));
    assert!(str_eq("\u{4eac}\u{e9}", "\u{4eac}\u{e9}"));
    assert!(!str_eq("\u{4eac}\u{e9}", "\u{4eac}\u{e8}"));
}

#[test]
fn splitting_at_a_separator() {
    assert_eq!(split_str("", ','), vec![""]);
    assert_eq!(split_str("a", ','), vec!["a"]);
    assert_eq!(split_str("a,b", ','), vec!["a", "b"]);
    assert_eq!(split_str(",a,,b,", ','), vec!["", "a", "", "b", ""]);
    assert_eq!(
        split_str("\u{e9}\u{4eac}\u{e9}", '\u{4eac}'),
        vec!["\u{e9}", "\u{e9}"]
    );
}

#[test]
fn carriage_return_is_trimmed_once() {
    assert_eq!(trim_cr(""), "");
    assert_eq!(trim_cr("\r"), "");
    assert_eq!(trim_cr("ab\r"), "ab");
    assert_eq!(trim_cr("ab\r\r"), "ab\r");
    assert_eq!(trim_cr("a\rb"), "a\rb");
    assert_eq!(trim_cr("\u{4eac}\r"), "\u{4eac}");
}

#[test]
fn lines_of_a_text() {
    assert_eq!(split_lines(""), Vec::<&str>::new());
    assert_eq!(split_lines("\n"), vec![""]);
    assert_eq!(split_lines("a"), vec!["a"]);
    assert_eq!(split_lines("a\n"), vec!["a"]);
    assert_eq!(split_lines("a\nb"), vec!["a", "b"]);
    assert_eq!(split_lines("a\r\nb\r\n"), vec!["a", "b"]);
    assert_eq!(split_lines("a\n\nb"), vec!["a", "", "b"]);
    assert_eq!(split_lines("foo\nbar\n\r\nbaz\r"), vec!["foo", "bar", "", "baz\r"]);
    assert_eq!(split_lines("a\r\r\nb"), vec!["a\r", "b"]);
    let text = "foo\nbar\n\r\nbaz\n\u{4eac}\r\n";
    let expected: Vec<&str> = text.lines().collect();
    assert_eq!(split_lines(text), expected);
}

#[test]
fn decimal_integers() {
    assert_eq!(parse_i32("0"), Some(0));
    assert_eq!(parse_i32("32"), Some(32));
    assert_eq!(parse_i32("-2"), Some(-2));
    assert_eq!(parse_i32("+5"), Some(5));
    assert_eq!(parse_i32("-0"), Some(0));
    assert_eq!(parse_i32("007"), Some(7));
    assert_eq!(parse_i32("0000000000000000000000000000001"), Some(1));
    assert_eq!(parse_i32("2147483647"), Some(i32::MAX));
    assert_eq!(parse_i32("+2147483647"), Some(i32::MAX));
    assert_eq!(parse_i32("-2147483648"), Some(i32::MIN));
    assert_eq!(parse_i32("2147483648"), None);
    assert_eq!(parse_i32("-2147483649"), None);
    assert_eq!(parse_i32("21474836470"), None);
    assert_eq!(parse_i32("99999999999999999999999999999"), None);
    assert_eq!(parse_i32("-99999999999999999999999999999"), None);
    assert_eq!(parse_i32(""), None);
    assert_eq!(parse_i32("-"), None);
    assert_eq!(parse_i32("+"), None);
    assert_eq!(parse_i32("+-1"), None);
    assert_eq!(parse_i32("--1"), None);
    assert_eq!(parse_i32("1-"), None);
    assert_eq!(parse_i32("1+1"), None);
    assert_eq!(parse_i32("12a"), None);
    assert_eq!(parse_i32("a12"), None);
    assert_eq!(parse_i32(" 1"), None);
    assert_eq!(parse_i32("1 "), None);
    assert_eq!(parse_i32("1_000"), None);
    assert_eq!(parse_i32("1.0"), None);
    assert_eq!(parse_i32("0x10"), None);
    assert_eq!(parse_i32("\u{663}"), None);
    assert_eq!(parse_i32("1\u{4eac}"), None);
}

#[test]
fn decimal_integers_as_the_standard_library_reads_them() {
    let samples = [
        "0", "1", "-1", "+1", "", "-", "+", "00", "-00", "+-0", "2147483647", "2147483648",
        "-2147483648", "-2147483649", "4294967296", "123456789012", "12 ", " 12", "1e3", "١٢",
        "1,2", "１２", "-9", "9-", "000000000000000000000000002147483647",
    ];
    for text in samples {
        assert_eq!(parse_i32(text), text.parse::<i32>().ok());
    }
}

fn decimal(n: i32) -> String {
    let mut out = String::new();
    push_decimal(&mut out, n);
    out
}

#[test]
fn decimal_text_of_integers() {
    assert_eq!(decimal(0), "0");
    assert_eq!(decimal(7), "7");
    assert_eq!(decimal(10), "10");
    assert_eq!(decimal(-1), "-1");
    assert_eq!(decimal(-10), "-10");
    assert_eq!(decimal(1234567890), "1234567890");
    assert_eq!(decimal(i32::MAX), "2147483647");
    assert_eq!(decimal(i32::MIN), "-2147483648");
    let mut out = String::from("x=");
    push_decimal(&mut out, -305);
    push_decimal(&mut out, 40);
    assert_eq!(out, "x=-30540");
    for n in [0, 1, -1, 9, 10, 99, 100, -100, 65535, i32::MAX, i32::MIN, i32::MIN + 1] {
        assert_eq!(decimal(n), n.to_string());
        assert_eq!(parse_i32(&decimal(n)), Some(n));
    }
}

#[test]
fn glyph_record_as_text() {
    let glyph = HieroBitmapInfo {
        x: 1,
        y: 2,
        width: 30,
        height: 40,
        xoffset: -5,
        yoffset: 0,
        xadvance: 7,
        page: 1,
        channel: 15,
    };
    assert_eq!(
        glyph.to_text(),
        "[x:1,y:2,w:30,h:40,xoff:-5,yoff:0,xadv:7,pg_num:1,channel:15]"
    );
    assert_eq!(
        HieroBitmapInfo::default().to_text(),
        "[x:0,y:0,w:0,h:0,xoff:0,yoff:0,xadv:0,pg_num:0,channel:0]"
    );
}
