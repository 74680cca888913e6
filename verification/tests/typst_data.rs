use spares::clozes::ClozeMatch;
use spares::typst_data::TypstDataParser;
use std::ops::Range;

#[test]
fn test_basic_setting() {
    let input = "Test #se[basic] asd";
    let mut parser = TypstDataParser::new(input);
    let mut all_settings = Vec::new();
    while let Some(setting) = parser.next_setting() {
        all_settings.push(setting);
    }
    assert_eq!(all_settings, vec![9..14],);
}

#[test]
fn test_basic_linked_note() {
    let input = "Test #lin[basic] #test[p]asd";
    let mut parser = TypstDataParser::new(input);
    let mut all_linked_notes = Vec::new();
    while let Some(linked_note) = parser.next_linked_note() {
        all_linked_notes.push(linked_note);
    }
    assert_eq!(all_linked_notes, vec![10..15],);
}

#[test]
fn test_advanced_linked_note() {
    let input = "Test #lin[basic [a] b] #test[p]asd";
    let mut parser = TypstDataParser::new(input);
    let mut all_linked_notes = Vec::new();
    while let Some(linked_note) = parser.next_linked_note() {
        all_linked_notes.push(linked_note);
    }
    assert_eq!(all_linked_notes, vec![10..21],);
}

#[test]
fn test_linked_note_in_math() {
    let input = "Test $ a &= b #[(bc of #lin[Rule A])] \\ b &=c $";
    let mut parser = TypstDataParser::new(input);
    let mut all_linked_notes = Vec::new();
    while let Some(linked_note) = parser.next_linked_note() {
        all_linked_notes.push(linked_note);
    }
    assert_eq!(all_linked_notes, vec![28..34],);
}

#[test]
fn test_basic_keyword() {
    let input = "Test #key[basic] #test[p]asd";
    let mut parser = TypstDataParser::new(input);
    let mut all_keywords = Vec::new();
    while let Some(linked_note) = parser.next_keyword() {
        all_keywords.push(linked_note);
    }
    assert_eq!(all_keywords, vec![10..15],);
}

#[test]
fn test_setting_with_cloze() {
    let input = "Test #se[basic] asd #cl[test] #se[key]";
    let mut parser = TypstDataParser::new(input);
    let mut all_settings = Vec::new();
    while let Some(setting) = parser.next_setting() {
        all_settings.push(setting);
    }
    assert_eq!(all_settings, vec![9..14, 34..37],);
}

#[test]
fn test_basic_cloze() {
    let input = "Test #cl[basic] asd";
    let mut parser = TypstDataParser::new(input);
    let mut all_clozes = Vec::new();
    while let Some(cloze) = parser.next_cloze() {
        all_clozes.push(cloze);
    }
    assert_eq!(
        all_clozes,
        vec![vec![ClozeMatch {
            start_match: 5..9,
            end_match: 14..15,
            settings_match: Range::default(),
        }]]
    );
}

#[test]
fn test_empty_settings() {
    let input = "Test #cl[basic][] cloze";
    let mut parser = TypstDataParser::new(input);
    let mut all_clozes = Vec::new();
    while let Some(cloze) = parser.next_cloze() {
        all_clozes.push(cloze);
    }
    assert_eq!(
        all_clozes,
        vec![vec![ClozeMatch {
            start_match: 5..9,
            end_match: 14..17,
            settings_match: Range::default(),
        }]]
    );
}

#[test]
fn test_escaped_character() {
    let input = "Test \\#cl[basic] cloze";
    let mut parser = TypstDataParser::new(input);
    let mut all_clozes = Vec::new();
    while let Some(cloze) = parser.next_cloze() {
        all_clozes.push(cloze);
    }
    let expected: Vec<Vec<ClozeMatch>> = vec![];
    assert_eq!(all_clozes, expected);
}

#[test]
fn test_commented() {
    let input = "// Test #cl[basic] cloze\n #cl[b]";
    let mut parser = TypstDataParser::new(input);
    let mut all_clozes = Vec::new();
    while let Some(cloze) = parser.next_cloze() {
        all_clozes.push(cloze);
    }
    assert_eq!(
        all_clozes,
        vec![vec![ClozeMatch {
            start_match: 26..30,
            end_match: 31..32,
            settings_match: Range::default(),
        }]]
    );
}

#[test]
fn test_unmatched_open() {
    let input = "Test #cl[ test";
    let mut parser = TypstDataParser::new(input);
    let mut all_clozes = Vec::new();
    while let Some(cloze) = parser.next_cloze() {
        all_clozes.push(cloze);
    }
    let expected: Vec<Vec<ClozeMatch>> = vec![];
    assert_eq!(all_clozes, expected);
}

#[test]
fn test_math_mode() {
    let input = "test #cl[$\n( b]\n\n$][g:1] test";
    let mut parser = TypstDataParser::new(input);
    let mut all_clozes = Vec::new();
    while let Some(cloze) = parser.next_cloze() {
        all_clozes.push(cloze);
    }
    assert_eq!(
        all_clozes,
        vec![vec![ClozeMatch {
            start_match: 5..9,
            end_match: 18..24,
            settings_match: 20..23,
        }]]
    );
}

#[test]
fn test_code_mode() {
    let input = "test #cl[#(let a = 2)][g:1] test";
    let mut parser = TypstDataParser::new(input);
    let mut all_clozes = Vec::new();
    while let Some(cloze) = parser.next_cloze() {
        all_clozes.push(cloze);
    }
    assert_eq!(
        all_clozes,
        vec![vec![ClozeMatch {
            start_match: 5..9,
            end_match: 21..27,
            settings_match: 23..26,
        }]]
    );
}

#[test]
fn test_cloze_in_math_1() {
    let input = "Test $ a &= b #[(bc of #cl[Rule A])] \\ b &=c #cl[a][g:1] $";
    let mut parser = TypstDataParser::new(input);
    let mut all_clozes = Vec::new();
    while let Some(cloze) = parser.next_cloze() {
        all_clozes.push(cloze);
    }
    assert_eq!(
        all_clozes,
        vec![
            vec![ClozeMatch {
                start_match: 23..27,
                end_match: 33..34,
                settings_match: Range::default(),
            }],
            vec![ClozeMatch {
                start_match: 45..49,
                end_match: 50..56,
                settings_match: 52..55
            }],
        ]
    );
}

#[test]
fn test_cloze_in_math_2_with_settings() {
    let input = "Test $ a &= b #[(bc of #cl[Rule A][g:[1]])] \\ b &=c #cl[a][g:1] $";
    let mut parser = TypstDataParser::new(input);
    let mut all_clozes = Vec::new();
    while let Some(cloze) = parser.next_cloze() {
        all_clozes.push(cloze);
    }
    assert_eq!(
        all_clozes,
        vec![
            vec![ClozeMatch {
                start_match: 23..27,
                end_match: 33..41,
                settings_match: 35..40,
            }],
            vec![ClozeMatch {
                start_match: 52..56,
                end_match: 57..63,
                settings_match: 59..62
            }],
        ]
    );
}

#[test]
fn test_cloze_in_math_with_code() {
    let input = "#cl[ $ #table() $ ]";
    let mut parser = TypstDataParser::new(input);
    let mut all_clozes = Vec::new();
    while let Some(cloze) = parser.next_cloze() {
        all_clozes.push(cloze);
    }
    assert_eq!(
        all_clozes,
        vec![vec![ClozeMatch {
            start_match: 0..4,
            end_match: 18..19,
            settings_match: Range::default(),
        }],]
    );
}

#[test]
fn test_cloze_in_math_with_code_2() {
    let input = "#cl[ $ #let a = b \\ $ ]";
    let mut parser = TypstDataParser::new(input);
    let mut all_clozes = Vec::new();
    while let Some(cloze) = parser.next_cloze() {
        all_clozes.push(cloze);
    }
    assert_eq!(all_clozes.len(), 1);
}

#[test]
fn test_cloze_in_command() {
    let input = "#strong[bc of #cl[Rule A])]";
    let mut parser = TypstDataParser::new(input);
    let mut all_clozes = Vec::new();
    while let Some(cloze) = parser.next_cloze() {
        all_clozes.push(cloze);
    }
    assert_eq!(
        all_clozes,
        vec![vec![ClozeMatch {
            start_match: 14..18,
            end_match: 24..25,
            settings_match: Range::default(),
        }],]
    );
}

#[test]
fn test_nested_cloze() {
    let input = "test #cl[#cl[b][g:1]#cl[$a s (d)$]][g:1] test";
    let mut parser = TypstDataParser::new(input);
    let mut all_clozes = Vec::new();
    while let Some(cloze) = parser.next_cloze() {
        all_clozes.push(cloze);
    }
    assert_eq!(
        all_clozes,
        vec![vec![
            ClozeMatch {
                start_match: 5..9,
                end_match: 34..40,
                settings_match: 36..39,
            },
            ClozeMatch {
                start_match: 9..13,
                end_match: 14..20,
                settings_match: 16..19,
            },
            ClozeMatch {
                start_match: 20..24,
                end_match: 33..34,
                settings_match: Range::default(),
            }
        ]]
    );
}

#[test]
fn test_empty_cloze() {
    let input = "Test #cl[] end";
    let mut parser = TypstDataParser::new(input);
    let mut all_clozes = Vec::new();
    while let Some(cloze) = parser.next_cloze() {
        all_clozes.push(cloze);
    }
    assert_eq!(
        all_clozes,
        vec![vec![ClozeMatch {
            start_match: 5..9,
            end_match: 9..10,
            settings_match: Range::default(),
        },]]
    );
}

#[test]
fn test_other_func_in_cloze_1() {
    let input = r#"#cl[ - mnemonic: #strong[c]url = #strong[c]ross product ]"#;
    let mut parser = TypstDataParser::new(input);
    let mut all_clozes = Vec::new();
    while let Some(cloze) = parser.next_cloze() {
        all_clozes.push(cloze);
    }
    assert_eq!(
        all_clozes,
        vec![vec![ClozeMatch {
            start_match: 0..4,
            end_match: 56..57,
            settings_match: Range::default(),
        },]]
    );
}

#[test]
fn test_other_func_in_cloze_2() {
    let input = r#"#cl[ #lin[upper envelope] test ][o:1] "#;
    let mut parser = TypstDataParser::new(input);
    let mut all_clozes = Vec::new();
    while let Some(cloze) = parser.next_cloze() {
        all_clozes.push(cloze);
    }
    assert_eq!(
        all_clozes,
        vec![vec![ClozeMatch {
            start_match: 0..4,
            end_match: 31..37,
            settings_match: 33..36,
        },]]
    );
}

#[test]
fn test_comment_in_code_mode_within_cloze() {
    let input = "#cl[test ```py\n m.sample() # equal probability\n  ```\n]";
    let mut parser = TypstDataParser::new(input);
    let mut all_clozes = Vec::new();
    while let Some(cloze) = parser.next_cloze() {
        all_clozes.push(cloze);
    }
    assert_eq!(
        all_clozes,
        vec![vec![ClozeMatch {
            start_match: 0..4,
            end_match: 53..54,
            settings_match: Range::default(),
        },]]
    );
}

