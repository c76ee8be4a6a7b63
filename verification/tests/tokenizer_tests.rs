use hiero_pack::parse::{HieroToken, HieroTokenizer, InSlice, ScanAction};

#[test]
fn sanity() {
    let text = "in fa=\"An Mo\" si=32 bo=0";

    let t1 = HieroTokenizer::tokenize_line(text);
    assert_eq!(
        t1,
        vec![
            HieroToken::EntryName("in"),
            HieroToken::Pair {
                key: "fa",
                val: "An Mo"
            },
            HieroToken::Pair {
                key: "si",
                val: "32"
            },
            HieroToken::Pair {
                key: "bo",
                val: "0"
            },
        ]
    );
}

#[test]
fn harder() {
    let alt_text = "info face=\"Andale Mono\" size=32 bold=0 italic=0 charset=\"\" unicode=0 stretchH=100 smooth=1 aa=1 padding=1,1,1,1 spacing=-2,-2";
    let t2 = HieroTokenizer::tokenize_line(alt_text);
    assert_eq!(
        t2,
        vec![
            HieroToken::EntryName("info"),
            HieroToken::Pair {
                key: "face",
                val: "Andale Mono"
            },
            HieroToken::Pair {
                key: "size",
                val: "32"
            },
            HieroToken::Pair {
                key: "bold",
                val: "0"
            },
            HieroToken::Pair {
                key: "italic",
                val: "0"
            },
            HieroToken::Pair {
                key: "charset",
                val: ""
            },
            HieroToken::Pair {
                key: "unicode",
                val: "0"
            },
            HieroToken::Pair {
                key: "stretchH",
                val: "100"
            },
            HieroToken::Pair {
                key: "smooth",
                val: "1"
            },
            HieroToken::Pair {
                key: "aa",
                val: "1"
            },
            HieroToken::Pair {
                key: "padding",
                val: "1,1,1,1"
            },
            HieroToken::Pair {
                key: "spacing",
                val: "-2,-2"
            },
        ]
    );
}

fn pair<'a>(key: &'a str, val: &'a str) -> HieroToken<'a> {
    HieroToken::Pair { key, val }
}

#[test]
fn empty_line_has_no_tokens() {
    assert_eq!(HieroTokenizer::tokenize_line(""), vec![]);
    assert_eq!(HieroTokenizer::tokenize_line("   \t "), vec![]);
}

#[test]
fn line_without_entry_name_has_no_tokens() {
    assert_eq!(HieroTokenizer::tokenize_line("=5 1=2"), vec![]);
}

#[test]
fn leading_non_letters_are_skipped() {
    assert_eq!(
        HieroTokenizer::tokenize_line("  12 char id=7"),
        vec![HieroToken::EntryName("char"), pair("id", "7")]
    );
}

#[test]
fn entry_name_alone_is_flushed_at_the_end() {
    assert_eq!(
        HieroTokenizer::tokenize_line("chars"),
        vec![HieroToken::EntryName("chars")]
    );
}

#[test]
fn last_value_is_flushed_at_the_end() {
    assert_eq!(
        HieroTokenizer::tokenize_line("kernings count=12"),
        vec![HieroToken::EntryName("kernings"), pair("count", "12")]
    );
}

#[test]
fn key_without_value_is_dropped() {
    assert_eq!(
        HieroTokenizer::tokenize_line("char id"),
        vec![HieroToken::EntryName("char")]
    );
}

#[test]
fn empty_value_is_kept() {
    assert_eq!(
        HieroTokenizer::tokenize_line("char id= x=3"),
        vec![HieroToken::EntryName("char"), pair("id", ""), pair("x", "3")]
    );
}

#[test]
fn key_runs_up_to_the_equals_sign() {
    assert_eq!(
        HieroTokenizer::tokenize_line("char a b=1"),
        vec![HieroToken::EntryName("char"), pair("a b", "1")]
    );
}

#[test]
fn quote_inside_a_value_restarts_it() {
    assert_eq!(
        HieroTokenizer::tokenize_line("info face=ab\"c d\" size=1"),
        vec![
            HieroToken::EntryName("info"),
            pair("face", "c d"),
            pair("size", "1")
        ]
    );
}

#[test]
fn unclosed_quote_emits_nothing() {
    assert_eq!(
        HieroTokenizer::tokenize_line("info face=\"Andale Mono"),
        vec![HieroToken::EntryName("info")]
    );
}

#[test]
fn multi_byte_characters_are_cut_whole() {
    let line = "inf\u{f6} f\u{e4}ce=\"\u{4eac}\u{90fd} \u{1f600}\" gr\u{f6}\u{df}e=\u{663}\u{662} x=1";
    assert_eq!(
        HieroTokenizer::tokenize_line(line),
        vec![
            HieroToken::EntryName("inf\u{f6}"),
            pair("f\u{e4}ce", "\u{4eac}\u{90fd} \u{1f600}"),
            pair("gr\u{f6}\u{df}e", "\u{663}\u{662}"),
            pair("x", "1"),
        ]
    );
}

#[test]
fn unicode_white_space_separates_tokens() {
    assert_eq!(
        HieroTokenizer::tokenize_line("char\u{a0}id=5\u{3000}x=6"),
        vec![HieroToken::EntryName("char"), pair("id", "5"), pair("x", "6")]
    );
}

#[test]
fn tokens_tell_their_kind() {
    let tokens = HieroTokenizer::tokenize_line("char id=65");
    assert_eq!(tokens[0].as_entry(), Some("char"));
    assert_eq!(tokens[0].as_pair(), None);
    assert_eq!(tokens[1].as_entry(), None);
    assert_eq!(tokens[1].as_pair(), Some(("id", "65")));
}

#[test]
fn transition_table_rows() {
    let step = |state: HieroTokenizer, c: char| {
        let (next, action) = state.advance(c, c.is_alphabetic(), c.is_whitespace());
        (format!("{:?}", next), format!("{:?}", action))
    };
    let row = |a: &str, b: &str| (a.to_string(), b.to_string());
    assert_eq!(step(HieroTokenizer::Start, '1'), row("Start", "Skip"));
    assert_eq!(step(HieroTokenizer::Start, 'a'), row("Header", "Begin"));
    assert_eq!(step(HieroTokenizer::Header, 'a'), row("Header", "Extend"));
    assert_eq!(step(HieroTokenizer::Header, ' '), row("KeyWhite", "EmitEntry"));
    assert_eq!(step(HieroTokenizer::KeyWhite, ' '), row("KeyWhite", "Skip"));
    assert_eq!(step(HieroTokenizer::KeyWhite, 'k'), row("Key", "Begin"));
    assert_eq!(step(HieroTokenizer::Key, ' '), row("Key", "Extend"));
    assert_eq!(step(HieroTokenizer::Key, '='), row("Value", "FreezeKey"));
    assert_eq!(step(HieroTokenizer::Value, '"'), row("ValueQuote", "Reopen"));
    assert_eq!(step(HieroTokenizer::Value, ' '), row("ValueWhite", "EmitPair"));
    assert_eq!(step(HieroTokenizer::Value, 'v'), row("Value", "Extend"));
    assert_eq!(step(HieroTokenizer::ValueQuote, ' '), row("ValueQuote", "Extend"));
    assert_eq!(step(HieroTokenizer::ValueQuote, '"'), row("ValueWhite", "EmitPair"));
    assert_eq!(step(HieroTokenizer::ValueWhite, ' '), row("ValueWhite", "Skip"));
    assert_eq!(step(HieroTokenizer::ValueWhite, 'k'), row("Key", "Begin"));
    let _ = ScanAction::Skip;
}

#[test]
fn in_slice_cuts_by_bytes() {
    let text = "a\u{e9}\u{4eac}z";
    let mut span = InSlice::new(1);
    span.push('\u{e9}');
    span.push('\u{4eac}');
    assert_eq!(span.lbound, 1);
    assert_eq!(span.bytes, 5);
    assert_eq!(span.compute_slice(text), "\u{e9}\u{4eac}");
    assert_eq!(InSlice::new(6).compute_slice(text), "");
}

/// The same state machine, written down once more with string buffers.
fn tokens_by_hand(line: &str) -> Vec<(String, Option<String>)> {
    let mut out = Vec::new();
    let mut state = 0;
    let mut span = String::new();
    let mut key = String::new();
    for c in line.chars().chain([' ']) {
        match state {
            0 => {
                if c.is_alphabetic() {
                    span = c.to_string();
                    state = 1;
                }
            }
            1 => {
                if c.is_whitespace() {
                    out.push((span.clone(), None));
                    state = 2;
                } else {
                    span.push(c);
                }
            }
            2 | 6 => {
                if !c.is_whitespace() {
                    span = c.to_string();
                    state = 3;
                }
            }
            3 => {
                if c == '=' {
                    key = span.clone();
                    span.clear();
                    state = 4;
                } else {
                    span.push(c);
                }
            }
            4 => {
                if c == '"' {
                    span.clear();
                    state = 5;
                } else if c.is_whitespace() {
                    out.push((key.clone(), Some(span.clone())));
                    state = 6;
                } else {
                    span.push(c);
                }
            }
            _ => {
                if c == '"' {
                    out.push((key.clone(), Some(span.clone())));
                    state = 6;
                } else {
                    span.push(c);
                }
            }
        }
    }
    out
}

fn tokens_as_strings(line: &str) -> Vec<(String, Option<String>)> {
    HieroTokenizer::tokenize_line(line)
        .iter()
        .map(|t| match *t {
            HieroToken::EntryName(name) => (name.to_string(), None),
            HieroToken::Pair { key, val } => (key.to_string(), Some(val.to_string())),
        })
        .collect()
}

#[test]
fn many_lines_agree_with_the_state_machine() {
    let alphabet = [
        'a', 'b', 'Z', '0', '9', ' ', ' ', '\t', '=', '=', '"', '"', ',', '-', '\u{e9}',
        '\u{4eac}', '\u{1f600}', '\u{a0}', '\u{3000}', '\r', '_',
    ];
    let mut seed: u64 = 0x2545F4914F6CDD1D;
    for round in 0..4000 {
        let len = round % 24;
        let mut line = String::new();
        for _ in 0..len {
            seed ^= seed << 13;
            seed ^= seed >> 7;
            seed ^= seed << 17;
            line.push(alphabet[(seed % alphabet.len() as u64) as usize]);
        }
        assert_eq!(tokens_as_strings(&line), tokens_by_hand(&line), "{:?}", line);
    }
}

#[test]
fn white_space_is_twenty_five_characters() {
    let listed = |c: char| {
        matches!(
            c,
            ' ' | '\u{9}'..='\u{d}'
                | '\u{85}'
                | '\u{a0}'
                | '\u{1680}'
                | '\u{2000}'..='\u{200a}'
                | '\u{2028}'
                | '\u{2029}'
                | '\u{202f}'
                | '\u{205f}'
                | '\u{3000}'
        )
    };
    let mut count = 0;
    let mut line = String::new();
    for code in 0..=0x10FFFFu32 {
        let c = match char::from_u32(code) {
            Some(c) => c,
            None => continue,
        };
        line.clear();
        line.push('x');
        line.push(c);
        line.push_str("k=v");
        let tokens = HieroTokenizer::tokenize_line(&line);
        if listed(c) {
            count += 1;
            assert_eq!(
                tokens,
                vec![HieroToken::EntryName("x"), pair("k", "v")],
                "{:?}",
                c
            );
        } else {
            assert_eq!(tokens, vec![HieroToken::EntryName(&line[..])], "{:?}", c);
        }
    }
    assert_eq!(count, 25);
}

#[test]
fn ascii_letters_start_an_entry_name() {
    for code in 0..128u32 {
        let c = char::from_u32(code).unwrap();
        let line = c.to_string();
        let tokens = HieroTokenizer::tokenize_line(&line);
        if c.is_ascii_alphabetic() {
            assert_eq!(tokens, vec![HieroToken::EntryName(&line[..])]);
        } else {
            assert_eq!(tokens, vec![]);
        }
    }
}
