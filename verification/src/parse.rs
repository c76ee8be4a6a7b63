//! The tokenizer: one line of descriptor text becomes an ordered list of
//! tokens, each a view into the line.

pub mod records;

pub use self::records::{
    find_pair_by_key, parse_common, parse_glyphs, parse_info, parse_int_list, parse_kerning_table,
};

use crate::chars::{is_alphabetic_char, is_whitespace_char};
use crate::encoding::{
    encoded_len, lemma_encode_push, lemma_encode_single, lemma_prefix_len_monotonic, utf8_len,
    utf8_width,
};
use crate::split::cut;
use vstd::prelude::*;
use vstd::std_specs::iter::IteratorSpec;
use vstd::string::StringSliceAdditionalSpecFns;
use vstd::utf8::{
    decode_utf8, encode_utf8_decode_utf8, encode_utf8_valid_utf8, is_char_boundary,
    length_of_first_scalar, pop_first_scalar, valid_utf8,
};

verus! {

/// A character boundary of a text that lies at or after another one is also
/// a character boundary of the text that starts at the earlier one.
proof fn lemma_boundary_in_suffix(bytes: Seq<u8>, from: int, len: int)
    requires
        valid_utf8(bytes),
        0 <= len,
        is_char_boundary(bytes, from),
        is_char_boundary(bytes, from + len),
    ensures
        0 <= from <= from + len <= bytes.len(),
        valid_utf8(bytes.subrange(from, bytes.len() as int)),
        is_char_boundary(bytes.subrange(from, bytes.len() as int), len),
    decreases bytes.len(),
{
    reveal_with_fuel(is_char_boundary, 2);
    if from == 0 {
        assert(bytes.subrange(0, bytes.len() as int) =~= bytes);
    } else {
        let first = length_of_first_scalar(bytes);
        let rest = pop_first_scalar(bytes);
        assert(first >= 1);
        lemma_boundary_in_suffix(rest, from - first, len);
        assert(rest.subrange(from - first, rest.len() as int) =~= bytes.subrange(
            from,
            bytes.len() as int,
        ));
    }
}

/// A span of bytes in a line: where it starts, and how many bytes it covers.
#[derive(Clone, Copy, Debug)]
pub struct InSlice {
    pub lbound: usize,
    pub bytes: usize,
}

impl InSlice {
    /// An empty span that starts at byte `lbound`.
    pub fn new(lbound: usize) -> (s: Self)
        ensures
            s.lbound == lbound,
            s.bytes == 0,
    {
        Self { lbound, bytes: 0 }
    }

    /// Extends the span by the encoded width of `character`.
    pub fn push(&mut self, character: char)
        requires
            old(self).bytes + utf8_width(character) <= usize::MAX,
        ensures
            final(self).lbound == old(self).lbound,
            final(self).bytes == old(self).bytes + utf8_width(character),
    {
        self.bytes += character.len_utf8();
    }

    /// The part of `text` that the span covers. Both ends of the span have to
    /// fall on character boundaries of `text`.
    pub fn compute_slice<'a>(&self, text: &'a str) -> (res: &'a str)
        requires
            is_char_boundary(text.spec_bytes(), self.lbound as int),
            is_char_boundary(text.spec_bytes(), self.lbound + self.bytes),
        ensures
            self.lbound + self.bytes <= text.spec_bytes().len(),
            res.spec_bytes() == text.spec_bytes().subrange(
                self.lbound as int,
                self.lbound + self.bytes,
            ),
            res@ == decode_utf8(
                text.spec_bytes().subrange(self.lbound as int, self.lbound + self.bytes),
            ),
    {
        proof {
            encode_utf8_valid_utf8(text@);
            lemma_boundary_in_suffix(text.spec_bytes(), self.lbound as int, self.bytes as int);
        }
        let (_, tail) = text.split_at(self.lbound);
        let (head, _) = tail.split_at(self.bytes);
        proof {
            assert(head.spec_bytes() =~= text.spec_bytes().subrange(
                self.lbound as int,
                self.lbound + self.bytes,
            ));
            encode_utf8_decode_utf8(head@);
        }
        head
    }
}

/// One token of a line: the name of the entry that the line holds, or one of
/// its fields.
#[derive(Copy, Clone, Debug, PartialEq, Eq)]
pub enum HieroToken<'a> {
    EntryName(&'a str),
    Pair { key: &'a str, val: &'a str },
}

/// What a token says, as characters.
pub enum TokenView {
    EntryName(Seq<char>),
    Pair { key: Seq<char>, val: Seq<char> },
}

impl<'a> View for HieroToken<'a> {
    type V = TokenView;

    open spec fn view(&self) -> TokenView {
        match *self {
            HieroToken::EntryName(name) => TokenView::EntryName(name@),
            HieroToken::Pair { key, val } => TokenView::Pair { key: key@, val: val@ },
        }
    }
}

/// The views of a list of tokens, in order.
pub open spec fn token_views(tokens: Seq<HieroToken>) -> Seq<TokenView> {
    Seq::new(tokens.len(), |i: int| tokens[i]@)
}

impl<'a> HieroToken<'a> {
    /// The entry name, if the token is one.
    pub fn as_entry(&self) -> (res: Option<&'a str>)
        ensures
            match *self {
                HieroToken::EntryName(name) => res == Some(name),
                HieroToken::Pair { .. } => res is None,
            },
    {
        match *self {
            Self::EntryName(entry) => Some(entry),
            Self::Pair { .. } => None,
        }
    }

    /// Key and value, if the token is a field.
    pub fn as_pair(&'a self) -> (res: Option<(&'a str, &'a str)>)
        ensures
            match *self {
                HieroToken::EntryName(_) => res is None,
                HieroToken::Pair { key, val } => res == Some((key, val)),
            },
    {
        match *self {
            Self::Pair { key, val } => Some((key, val)),
            Self::EntryName(_) => None,
        }
    }
}

/// The states of the tokenizer.
#[derive(Copy, Clone, Debug)]
pub enum HieroTokenizer {
    Start,
    Header,
    KeyWhite,
    Key,
    Value,
    ValueQuote,
    ValueWhite,
}

/// What the tokenizer does with the character it has just read.
#[derive(Copy, Clone, Debug)]
pub enum ScanAction {
    /// The character belongs to no span.
    Skip,
    /// A span begins with this character.
    Begin,
    /// The character extends the current span.
    Extend,
    /// The current span is complete and names the entry.
    EmitEntry,
    /// The current span is complete and becomes the key; the value begins
    /// after this character.
    FreezeKey,
    /// The value begins anew after this character.
    Reopen,
    /// The current span is complete and is the value of the pending key.
    EmitPair,
}

/// The transition table: the state that follows `mode` on character `c`, and
/// what happens to the spans. `alphabetic` and `whitespace` say to which
/// classes `c` belongs.
pub open spec fn transition(
    mode: HieroTokenizer,
    c: char,
    alphabetic: bool,
    whitespace: bool,
) -> (HieroTokenizer, ScanAction) {
    match mode {
        HieroTokenizer::Start => if alphabetic {
            (HieroTokenizer::Header, ScanAction::Begin)
        } else {
            (HieroTokenizer::Start, ScanAction::Skip)
        },
        HieroTokenizer::Header => if whitespace {
            (HieroTokenizer::KeyWhite, ScanAction::EmitEntry)
        } else {
            (HieroTokenizer::Header, ScanAction::Extend)
        },
        HieroTokenizer::KeyWhite => if !whitespace {
            (HieroTokenizer::Key, ScanAction::Begin)
        } else {
            (HieroTokenizer::KeyWhite, ScanAction::Skip)
        },
        HieroTokenizer::Key => if c == '=' {
            (HieroTokenizer::Value, ScanAction::FreezeKey)
        } else {
            (HieroTokenizer::Key, ScanAction::Extend)
        },
        HieroTokenizer::Value => if c == '"' {
            (HieroTokenizer::ValueQuote, ScanAction::Reopen)
        } else if whitespace {
            (HieroTokenizer::ValueWhite, ScanAction::EmitPair)
        } else {
            (HieroTokenizer::Value, ScanAction::Extend)
        },
        HieroTokenizer::ValueQuote => if c == '"' {
            (HieroTokenizer::ValueWhite, ScanAction::EmitPair)
        } else {
            (HieroTokenizer::ValueQuote, ScanAction::Extend)
        },
        HieroTokenizer::ValueWhite => if !whitespace {
            (HieroTokenizer::Key, ScanAction::Begin)
        } else {
            (HieroTokenizer::ValueWhite, ScanAction::Skip)
        },
    }
}

/// The tokenizer part-way through a text: its state, the index of the
/// character at which the current span starts, the key that waits for its
/// value, and the tokens emitted so far.
pub struct Scan {
    pub mode: HieroTokenizer,
    pub start: int,
    pub key: Seq<char>,
    pub tokens: Seq<TokenView>,
}

/// The tokenizer before it has read anything.
pub open spec fn scan_start() -> Scan {
    Scan {
        mode: HieroTokenizer::Start,
        start: 0,
        key: Seq::empty(),
        tokens: Seq::empty(),
    }
}

/// Reads the character at index `i` of `text`; the current span is what lies
/// between its start and `i`.
pub open spec fn scan_step(text: Seq<char>, s: Scan, i: int) -> Scan {
    let c = text[i];
    let (mode, action) = transition(s.mode, c, is_alphabetic_char(c), is_whitespace_char(c));
    let span = text.subrange(s.start, i);
    match action {
        ScanAction::Skip | ScanAction::Extend => Scan { mode, ..s },
        ScanAction::Begin => Scan { mode, start: i, ..s },
        ScanAction::EmitEntry => Scan {
            mode,
            tokens: s.tokens.push(TokenView::EntryName(span)),
            ..s
        },
        ScanAction::FreezeKey => Scan { mode, key: span, start: i + 1, ..s },
        ScanAction::Reopen => Scan { mode, start: i + 1, ..s },
        ScanAction::EmitPair => Scan {
            mode,
            tokens: s.tokens.push(TokenView::Pair { key: s.key, val: span }),
            ..s
        },
    }
}

/// The tokenizer after the first `n` characters of `text`.
pub open spec fn scan(text: Seq<char>, n: nat) -> Scan
    decreases n,
{
    if n == 0 {
        scan_start()
    } else {
        scan_step(text, scan(text, (n - 1) as nat), n - 1)
    }
}

/// The tokens of a line: what the tokenizer has emitted once it has read the
/// line and one space after it.
pub open spec fn tokenize(line: Seq<char>) -> Seq<TokenView> {
    scan(line.push(' '), line.len() + 1).tokens
}

/// Whether a list of tokens has the shape of a line: nothing at all, or an
/// entry name followed by fields only.
pub open spec fn is_line_shaped(tokens: Seq<TokenView>) -> bool {
    forall|i: int| 0 <= i < tokens.len() ==> (#[trigger] tokens[i] is EntryName <==> i == 0)
}

/// Whatever the tokenizer has read, what it has emitted has the shape of a
/// line, and it has emitted nothing exactly as long as it has not completed
/// the entry name.
pub proof fn lemma_scan_shape(text: Seq<char>, n: nat)
    ensures
        is_line_shaped(scan(text, n).tokens),
        scan(text, n).tokens.len() == 0 <==> scan(text, n).mode is Start || scan(text, n).mode
            is Header,
    decreases n,
{
    if n > 0 {
        lemma_scan_shape(text, (n - 1) as nat);
    }
}

/// The tokens of any line have the shape of a line.
pub proof fn lemma_tokens_are_line_shaped(line: Seq<char>)
    ensures
        is_line_shaped(tokenize(line)),
{
    lemma_scan_shape(line.push(' '), line.len() + 1);
}

/// The space after the line completes an entry name and a value without
/// quotes: once the line is read, neither is left open.
pub proof fn lemma_line_end_completes(line: Seq<char>)
    ensures
        !(scan(line.push(' '), line.len() + 1).mode is Header),
        !(scan(line.push(' '), line.len() + 1).mode is Value),
{
    assert(line.push(' ')[line.len() as int] == ' ');
}

/// Whether `piece` is a stretch of consecutive characters of `line`.
pub open spec fn is_span_of(piece: Seq<char>, line: Seq<char>) -> bool {
    exists|from: int, to: int|
        0 <= from <= to <= line.len() && piece == #[trigger] line.subrange(from, to)
}

/// Whether the texts of a token are stretches of `line`.
pub open spec fn is_token_of(token: TokenView, line: Seq<char>) -> bool {
    match token {
        TokenView::EntryName(name) => is_span_of(name, line),
        TokenView::Pair { key, val } => is_span_of(key, line) && is_span_of(val, line),
    }
}

/// Whatever the tokenizer has read of a line and the space after it, the
/// current span starts within what it has read, and the pending key and the
/// texts of all tokens emitted so far are stretches of the line.
pub proof fn lemma_scan_spans(line: Seq<char>, n: nat)
    requires
        n <= line.len() + 1,
    ensures
        0 <= scan(line.push(' '), n).start <= n,
        is_span_of(scan(line.push(' '), n).key, line),
        forall|i: int|
            0 <= i < scan(line.push(' '), n).tokens.len() ==> is_token_of(
                #[trigger] scan(line.push(' '), n).tokens[i],
                line,
            ),
    decreases n,
{
    let text = line.push(' ');
    if n == 0 {
        assert(scan(text, 0).key =~= line.subrange(0, 0));
    } else {
        let m = (n - 1) as nat;
        lemma_scan_spans(line, m);
        let before = scan(text, m);
        let after = scan(text, n);
        let span = text.subrange(before.start, m as int);
        assert(span =~= line.subrange(before.start, m as int));
        assert(is_span_of(span, line));
        assert forall|i: int| 0 <= i < after.tokens.len() implies is_token_of(
            #[trigger] after.tokens[i],
            line,
        ) by {
            if i < before.tokens.len() {
                assert(after.tokens[i] == before.tokens[i]);
            }
        }
    }
}

/// The texts of the tokens of a line are stretches of the line.
pub proof fn lemma_tokens_are_spans(line: Seq<char>)
    ensures
        forall|i: int|
            0 <= i < tokenize(line).len() ==> is_token_of(#[trigger] tokenize(line)[i], line),
{
    lemma_scan_spans(line, line.len() + 1);
}

/// Whether the tokenizer is inside a span in state `mode`.
pub open spec fn in_span(mode: HieroTokenizer) -> bool {
    mode is Header || mode is Key || mode is Value || mode is ValueQuote
}

/// How the byte counts of the running tokenizer stand for the character
/// positions of the scan after `i` characters of `line`.
spec fn tracks(line: Seq<char>, i: int, s: Scan, cursor: usize, accum: InSlice) -> bool {
    &&& 0 <= s.start <= i <= line.len()
    &&& cursor == utf8_len(line.take(i))
    &&& accum.lbound == utf8_len(line.take(s.start))
    &&& in_span(s.mode) ==> accum.bytes == utf8_len(line.subrange(s.start, i))
}

impl HieroTokenizer {
    /// One row of the transition table, for a character whose classes are
    /// known.
    pub fn advance(self, c: char, alphabetic: bool, whitespace: bool) -> (res: (
        HieroTokenizer,
        ScanAction,
    ))
        ensures
            res == transition(self, c, alphabetic, whitespace),
    {
        match self {
            Self::Start => if alphabetic {
                (Self::Header, ScanAction::Begin)
            } else {
                (Self::Start, ScanAction::Skip)
            },
            Self::Header => if whitespace {
                (Self::KeyWhite, ScanAction::EmitEntry)
            } else {
                (Self::Header, ScanAction::Extend)
            },
            Self::KeyWhite => if !whitespace {
                (Self::Key, ScanAction::Begin)
            } else {
                (Self::KeyWhite, ScanAction::Skip)
            },
            Self::Key => if c == '=' {
                (Self::Value, ScanAction::FreezeKey)
            } else {
                (Self::Key, ScanAction::Extend)
            },
            Self::Value => if c == '"' {
                (Self::ValueQuote, ScanAction::Reopen)
            } else if whitespace {
                (Self::ValueWhite, ScanAction::EmitPair)
            } else {
                (Self::Value, ScanAction::Extend)
            },
            Self::ValueQuote => if c == '"' {
                (Self::ValueWhite, ScanAction::EmitPair)
            } else {
                (Self::ValueQuote, ScanAction::Extend)
            },
            Self::ValueWhite => if !whitespace {
                (Self::Key, ScanAction::Begin)
            } else {
                (Self::ValueWhite, ScanAction::Skip)
            },
        }
    }

    /// Splits one line into its tokens. Each token borrows from `line`.
    pub fn tokenize_line(line: &str) -> (res: Vec<HieroToken<'_>>)
        ensures
            token_views(res@) == tokenize(line@),
    {
        broadcast use {vstd::string::axiom_spec_iter, vstd::string::next_postcondition};

        // Every byte count below stays within the encoded length of the line.
        encoded_len(line);
        let mut byte_cursor: usize = 0;
        let mut res: Vec<HieroToken> = Vec::new();
        let mut state = HieroTokenizer::Start;
        let mut accum = InSlice::new(byte_cursor);
        let mut key: &str = "";
        let mut chars = line.chars();
        let ghost text = line@.push(' ');
        let ghost mut i: int = 0;
        proof {
            reveal_strlit("");
            assert(key@ =~= Seq::<char>::empty());
            assert(line@.take(0) =~= Seq::<char>::empty());
            assert(line@.skip(0) =~= line@);
            assert(token_views(res@) =~= Seq::<TokenView>::empty());
        }
        loop
            invariant
                utf8_len(line@) <= usize::MAX,
                text == line@.push(' '),
                0 <= i <= line@.len(),
                chars.remaining() == line@.skip(i),
                tracks(line@, i, scan(text, i as nat), byte_cursor, accum),
                state == scan(text, i as nat).mode,
                key@ == scan(text, i as nat).key,
                token_views(res@) == scan(text, i as nat).tokens,
            ensures
                i == line@.len(),
            decreases line@.len() - i,
        {
            let c = match chars.next() {
                Some(c) => c,
                None => {
                    break ;
                },
            };
            let ghost s = scan(text, i as nat);
            let width = c.len_utf8();
            proof {
                assert(c == line@[i]);
                assert(text[i] == c);
                assert(line@.skip(i).drop_first() =~= line@.skip(i + 1));
                assert(text.subrange(s.start, i) =~= line@.subrange(s.start, i));
                assert(line@.take(i + 1) =~= line@.take(i).push(c));
                lemma_encode_push(line@.take(i), c);
                lemma_prefix_len_monotonic(line@, 0, i + 1);
                lemma_prefix_len_monotonic(line@, s.start, i + 1);
                assert(line@.subrange(s.start, i + 1) =~= line@.subrange(s.start, i).push(c));
                lemma_encode_push(line@.subrange(s.start, i), c);
                assert(line@.subrange(i, i + 1) =~= seq![c]);
                lemma_encode_single(c);
                assert(line@.subrange(i + 1, i + 1) =~= Seq::<char>::empty());
            }
            let (next, action) = state.advance(c, c.is_alphabetic(), c.is_whitespace());
            match action {
                ScanAction::Skip => {},
                ScanAction::Begin => {
                    accum = InSlice::new(byte_cursor);
                    accum.push(c);
                },
                ScanAction::Extend => {
                    accum.push(c);
                },
                ScanAction::EmitEntry => {
                    let name = cut(&accum, line, Ghost(s.start), Ghost(i));
                    res.push(HieroToken::EntryName(name));
                    assert(token_views(res@) =~= s.tokens.push(TokenView::EntryName(name@)));
                },
                ScanAction::FreezeKey => {
                    key = cut(&accum, line, Ghost(s.start), Ghost(i));
                    accum = InSlice::new(byte_cursor + width);
                },
                ScanAction::Reopen => {
                    accum = InSlice::new(byte_cursor + width);
                },
                ScanAction::EmitPair => {
                    let val = cut(&accum, line, Ghost(s.start), Ghost(i));
                    res.push(HieroToken::Pair { key, val });
                    assert(token_views(res@) =~= s.tokens.push(
                        TokenView::Pair { key: key@, val: val@ },
                    ));
                },
            }
            state = next;
            byte_cursor += width;
            proof {
                i = i + 1;
            }
        }
        // The line counts as followed by one space, which completes a span
        // that is still open.
        let ghost s = scan(text, i as nat);
        proof {
            assert(text[i] == ' ');
            assert(text.subrange(s.start, i) =~= line@.subrange(s.start, i));
        }
        let (_, action) = state.advance(' ', ' '.is_alphabetic(), ' '.is_whitespace());
        match action {
            ScanAction::EmitEntry => {
                let name = cut(&accum, line, Ghost(s.start), Ghost(i));
                res.push(HieroToken::EntryName(name));
                assert(token_views(res@) =~= s.tokens.push(TokenView::EntryName(name@)));
            },
            ScanAction::EmitPair => {
                let val = cut(&accum, line, Ghost(s.start), Ghost(i));
                res.push(HieroToken::Pair { key, val });
                assert(token_views(res@) =~= s.tokens.push(
                    TokenView::Pair { key: key@, val: val@ },
                ));
            },
            _ => {},
        }
        res
    }
}

} // verus!
