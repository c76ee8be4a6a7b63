//! The errors that the library reports.

use crate::text::{digits_of, push_digits};
use vstd::prelude::*;
use vstd::string::StringExecFns;

verus! {

/// The two rows that every descriptor starts with.
#[derive(Clone, Copy, Debug, PartialEq, Eq, Structural)]
pub enum Row {
    Info,
    Common,
}

/// The fields that the `info` and `common` rows are read for.
#[derive(Clone, Copy, Debug, PartialEq, Eq, Structural)]
pub enum Field {
    Face,
    Size,
    Bold,
    Italic,
    Charset,
    Unicode,
    StretchH,
    Smooth,
    Aa,
    Padding,
    Spacing,
    LineHeight,
    Base,
    ScaleW,
    ScaleH,
    Pages,
    Packed,
}

/// What can be wrong with a descriptor.
#[derive(Clone, Copy, Debug, PartialEq, Eq, Structural)]
pub enum ParseError {
    /// The descriptor has too few rows to hold this one.
    MissingRow(Row),
    /// The row holds fewer tokens than its record needs.
    TooFewColumns(Row),
    /// The `info` row does not name its entry.
    MissingEntryName,
    /// The row has no field of this name.
    MissingKey(Field),
    /// The value of this field is not a 32-bit decimal integer.
    BadValue(Field),
    /// The `char` line at this row yields fewer than ten integers.
    ShortGlyphLine(usize),
    /// The `kerning` line at this row yields fewer than three integers.
    ShortKerningLine(usize),
    /// The line at this row names a number that is no Unicode scalar value.
    BadCodepoint(usize),
}

/// What the PNG decoder reports when it gives up on an image.
#[verifier::external_type_specification]
#[verifier::external_body]
pub struct ExDecodingError(png::DecodingError);

/// Why a page could not be unpacked.
#[derive(Debug)]
pub enum PageUnpackError {
    /// The atlas holds no page at that index.
    InvalidIndex,
    /// The bytes of the page are no complete image.
    PageDecodeError(png::DecodingError),
}

/// What `bincode` reports when it cannot encode a value or decode bytes.
#[verifier::external_type_specification]
#[verifier::external_body]
pub struct ExBincodeErrorKind(bincode::ErrorKind);

/// What the operating system reports when reading or writing fails.
#[verifier::external_type_specification]
#[verifier::external_body]
pub struct ExIoError(std::io::Error);

/// What the standard library reports of bytes that are no UTF-8 text.
#[verifier::external_type_specification]
#[verifier::external_body]
pub struct ExFromUtf8Error(std::string::FromUtf8Error);

/// Everything that can go wrong between the files of a font and its atlas.
#[derive(Debug)]
pub enum Error {
    /// A file could not be read or written.
    ReadWriteError(std::io::Error),
    /// The descriptor is no UTF-8 text.
    Utf8ConvertError(std::string::FromUtf8Error),
    /// The binary form of an atlas could not be written or read back.
    DeserializeError(bincode::Error),
    /// The descriptor is malformed.
    Parse(ParseError),
    /// Anything else, in words.
    Custom(String),
}

impl From<std::io::Error> for Error {
    fn from(err: std::io::Error) -> (res: Self) {
        Error::ReadWriteError(err)
    }
}

impl vstd::std_specs::convert::FromSpecImpl<std::io::Error> for Error {
    open spec fn obeys_from_spec() -> bool {
        true
    }

    open spec fn from_spec(err: std::io::Error) -> Self {
        Error::ReadWriteError(err)
    }
}

impl From<std::string::FromUtf8Error> for Error {
    fn from(err: std::string::FromUtf8Error) -> (res: Self) {
        Error::Utf8ConvertError(err)
    }
}

impl vstd::std_specs::convert::FromSpecImpl<std::string::FromUtf8Error> for Error {
    open spec fn obeys_from_spec() -> bool {
        true
    }

    open spec fn from_spec(err: std::string::FromUtf8Error) -> Self {
        Error::Utf8ConvertError(err)
    }
}

impl From<bincode::Error> for Error {
    fn from(err: bincode::Error) -> (res: Self) {
        Error::DeserializeError(err)
    }
}

impl vstd::std_specs::convert::FromSpecImpl<bincode::Error> for Error {
    open spec fn obeys_from_spec() -> bool {
        true
    }

    open spec fn from_spec(err: bincode::Error) -> Self {
        Error::DeserializeError(err)
    }
}

impl From<ParseError> for Error {
    fn from(err: ParseError) -> (res: Self) {
        Error::Parse(err)
    }
}

impl vstd::std_specs::convert::FromSpecImpl<ParseError> for Error {
    open spec fn obeys_from_spec() -> bool {
        true
    }

    open spec fn from_spec(err: ParseError) -> Self {
        Error::Parse(err)
    }
}

impl Row {
    /// The entry name of the row.
    pub open spec fn name_text(self) -> Seq<char> {
        match self {
            Row::Info => "info"@,
            Row::Common => "common"@,
        }
    }

    /// The entry name of the row.
    pub fn name(&self) -> (res: &'static str)
        ensures
            res@ == self.name_text(),
    {
        match self {
            Row::Info => "info",
            Row::Common => "common",
        }
    }
}

impl Field {
    /// The key of the field, as descriptors write it.
    pub open spec fn name_text(self) -> Seq<char> {
        match self {
            Field::Face => "face"@,
            Field::Size => "size"@,
            Field::Bold => "bold"@,
            Field::Italic => "italic"@,
            Field::Charset => "charset"@,
            Field::Unicode => "unicode"@,
            Field::StretchH => "stretchH"@,
            Field::Smooth => "smooth"@,
            Field::Aa => "aa"@,
            Field::Padding => "padding"@,
            Field::Spacing => "spacing"@,
            Field::LineHeight => "lineHeight"@,
            Field::Base => "base"@,
            Field::ScaleW => "scaleW"@,
            Field::ScaleH => "scaleH"@,
            Field::Pages => "pages"@,
            Field::Packed => "packed"@,
        }
    }

    /// The key of the field, as descriptors write it.
    pub fn name(&self) -> (res: &'static str)
        ensures
            res@ == self.name_text(),
    {
        match self {
            Field::Face => "face",
            Field::Size => "size",
            Field::Bold => "bold",
            Field::Italic => "italic",
            Field::Charset => "charset",
            Field::Unicode => "unicode",
            Field::StretchH => "stretchH",
            Field::Smooth => "smooth",
            Field::Aa => "aa",
            Field::Padding => "padding",
            Field::Spacing => "spacing",
            Field::LineHeight => "lineHeight",
            Field::Base => "base",
            Field::ScaleW => "scaleW",
            Field::ScaleH => "scaleH",
            Field::Pages => "pages",
            Field::Packed => "packed",
        }
    }
}

impl ParseError {
    /// The error in words: what is wrong, and with which row or field.
    pub open spec fn text(self) -> Seq<char> {
        match self {
            ParseError::MissingRow(row) => "'"@ + row.name_text() + "' line missing"@,
            ParseError::TooFewColumns(row) => "'"@ + row.name_text() + "' line lacks columns"@,
            ParseError::MissingEntryName => "info line not found"@,
            ParseError::MissingKey(field) => field.name_text() + " missing"@,
            ParseError::BadValue(field) => "cant parse: "@ + field.name_text(),
            ParseError::ShortGlyphLine(row) => "'char' line lacks values at row "@ + digits_of(
                row as nat,
            ),
            ParseError::ShortKerningLine(row) => "'kerning' line lacks values at row "@
                + digits_of(row as nat),
            ParseError::BadCodepoint(row) => "no unicode character at row "@ + digits_of(
                row as nat,
            ),
        }
    }

    /// The error in words.
    pub fn to_text(&self) -> (res: String)
        ensures
            res@ == self.text(),
    {
        let mut out = String::new();
        match self {
            ParseError::MissingRow(row) => {
                out.append("'");
                out.append(row.name());
                out.append("' line missing");
            },
            ParseError::TooFewColumns(row) => {
                out.append("'");
                out.append(row.name());
                out.append("' line lacks columns");
            },
            ParseError::MissingEntryName => {
                out.append("info line not found");
            },
            ParseError::MissingKey(field) => {
                out.append(field.name());
                out.append(" missing");
            },
            ParseError::BadValue(field) => {
                out.append("cant parse: ");
                out.append(field.name());
            },
            ParseError::ShortGlyphLine(row) => {
                out.append("'char' line lacks values at row ");
                push_digits(&mut out, *row as u64);
            },
            ParseError::ShortKerningLine(row) => {
                out.append("'kerning' line lacks values at row ");
                push_digits(&mut out, *row as u64);
            },
            ParseError::BadCodepoint(row) => {
                out.append("no unicode character at row ");
                push_digits(&mut out, *row as u64);
            },
        }
        proof {
            assert(out@ =~= self.text());
        }
        out
    }
}

impl PageUnpackError {
    /// The error in words. A decode error speaks as the decoder does.
    pub fn to_text(&self) -> (res: String)
        ensures
            self is InvalidIndex ==> res@ == "Invalid Index error"@,
            self matches PageUnpackError::PageDecodeError(err)
                ==> vstd::string::to_string_from_display_ensures::<png::DecodingError>(&err, res),
    {
        match self {
            Self::InvalidIndex => "Invalid Index error".to_string(),
            Self::PageDecodeError(err) => err.to_string(),
        }
    }
}

impl Error {
    /// The error in words. An error from below speaks for itself.
    pub fn to_text(self) -> (res: String)
        ensures
            self matches Error::ReadWriteError(e)
                ==> vstd::string::to_string_from_display_ensures::<std::io::Error>(&e, res),
            self matches Error::Utf8ConvertError(e)
                ==> vstd::string::to_string_from_display_ensures::<std::string::FromUtf8Error>(
                &e,
                res,
            ),
            self matches Error::DeserializeError(e)
                ==> vstd::string::to_string_from_display_ensures::<bincode::Error>(&e, res),
            self matches Error::Parse(e) ==> res@ == e.text(),
            self matches Error::Custom(c) ==> res@ == c@,
    {
        match self {
            Error::ReadWriteError(e) => e.to_string(),
            Error::Utf8ConvertError(e) => e.to_string(),
            Error::DeserializeError(e) => e.to_string(),
            Error::Parse(e) => e.to_text(),
            Error::Custom(c) => c,
        }
    }
}

} // verus!
