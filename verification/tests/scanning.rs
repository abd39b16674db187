use shell_template::exec::ConfigurationError;
use shell_template::templating::{command, parse, Content, Scanner};

#[test]
fn parse_empty() {
    let res = parse("", "{", "}");

    let content = Content {
        text: "",
        command: None,
    };

    assert_eq!(res, vec![content]);
}

#[test]
fn parse_single() {
    let res = parse("hello", "{", "}");

    let content = Content {
        text: "hello",
        command: None,
    };

    assert_eq!(res, vec![content]);
}

#[test]
fn parse_command() {
    let res = parse("hello {{echo USER}}!", "{{", "}}");

    let content = vec![
        Content {
            text: "hello ",
            command: Some("echo USER"),
        },
        Content {
            text: "!",
            command: None,
        },
    ];

    assert_eq!(res, content);
}

#[test]
fn parse_multi() {
    let res = parse(
        "hello {{echo USER}}! How do you {{echo FEEL}} today?",
        "{{",
        "}}",
    );

    let content = vec![
        Content {
            text: "hello ",
            command: Some("echo USER"),
        },
        Content {
            text: "! How do you ",
            command: Some("echo FEEL"),
        },
        Content {
            text: " today?",
            command: None,
        },
    ];

    assert_eq!(res, content);
}

#[test]
fn parsing() {
    let res = command("hello {myCommand}! How are you?", "{", "}");
    assert!(res.is_ok());
    let res = res.unwrap();

    let rest = "! How are you?";
    let content = Content {
        text: "hello ",
        command: Some("myCommand"),
    };

    assert_eq!(res.0, rest);
    assert_eq!(res.1, content);
}

#[test]
fn parsing_no_command() {
    let res = command("hello user! How are you?", "{", "}");
    assert!(res.is_ok());
    let res = res.unwrap();

    let rest = "";
    let content = Content {
        text: "hello user! How are you?",
        command: None,
    };

    assert_eq!(res.0, rest);
    assert_eq!(res.1, content);
}

#[test]
fn parsing_empty() {
    let res = command("", "{", "}");
    assert!(res.is_ok());
    let res = res.unwrap();

    let content = Content {
        text: "",
        command: None,
    };

    assert_eq!(res.0, "");
    assert_eq!(res.1, content);
}

#[test]
fn parsing_command_only() {
    let res = command("$echo hello$", "$", "$");
    assert!(res.is_ok());
    let res = res.unwrap();

    let content = Content {
        text: "",
        command: Some("echo hello"),
    };

    assert_eq!(res.0, "");
    assert_eq!(res.1, content);
}

#[test]
fn parsing_unmatched_begin_keeps_it_in_the_rest() {
    let (rest, content) = command("abc{{def", "{{", "}}").unwrap();

    assert_eq!(rest, "{{def");
    assert_eq!(content, Content { text: "abc", command: None });
}

#[test]
fn parsing_takes_the_first_end() {
    let (rest, content) = command("a{{b{{c}}d}}e", "{{", "}}").unwrap();

    assert_eq!(rest, "d}}e");
    assert_eq!(content, Content { text: "a", command: Some("b{{c") });
}

#[test]
fn parse_adjacent_commands() {
    let res = parse("{{echo a}}{{echo b}}", "{{", "}}");

    let content = vec![
        Content { text: "", command: Some("echo a") },
        Content { text: "", command: Some("echo b") },
    ];

    assert_eq!(res, content);
}

#[test]
fn parse_unmatched_begin_is_text() {
    let res = parse("abc{{def", "{{", "}}");

    let content = vec![
        Content { text: "abc", command: None },
        Content { text: "{{def", command: None },
    ];

    assert_eq!(res, content);
    let texts: String = res.iter().map(|c| c.text).collect();
    assert_eq!(texts, "abc{{def");
    assert!(res.iter().all(|c| c.command.is_none()));
}

#[test]
fn parse_unmatched_begins_split_at_each_begin() {
    let res = parse("a{{b{{c", "{{", "}}");

    let content = vec![
        Content { text: "a", command: None },
        Content { text: "{{b", command: None },
        Content { text: "{{c", command: None },
    ];

    assert_eq!(res, content);
}

#[test]
fn parse_unmatched_begin_after_a_command() {
    let res = parse("x{{c}}y{{z", "{{", "}}");

    let content = vec![
        Content { text: "x", command: Some("c") },
        Content { text: "y", command: None },
        Content { text: "{{z", command: None },
    ];

    assert_eq!(res, content);
}

#[test]
fn parse_unmatched_begin_at_the_very_end() {
    let res = parse("abc{{", "{{", "}}");

    let content = vec![
        Content { text: "abc", command: None },
        Content { text: "{{", command: None },
    ];

    assert_eq!(res, content);
}

#[test]
fn parse_unmatched_begin_passes_over_overlapping_begin() {
    let res = parse("xaaay", "aa", "}");

    let content = vec![
        Content { text: "x", command: None },
        Content { text: "aaay", command: None },
    ];

    assert_eq!(res, content);
}

#[test]
fn parse_empty_command() {
    let res = parse("x{{}}y", "{{", "}}");

    let content = vec![
        Content { text: "x", command: Some("") },
        Content { text: "y", command: None },
    ];

    assert_eq!(res, content);
}

#[test]
fn parse_does_not_nest() {
    let res = parse("a{{b{{c}}d}}e", "{{", "}}");

    let content = vec![
        Content { text: "a", command: Some("b{{c") },
        Content { text: "d}}e", command: None },
    ];

    assert_eq!(res, content);
}

#[test]
fn parse_same_begin_and_end() {
    let res = parse("complex calculation: ^console.log(14)^", "^", "^");

    let content = vec![Content {
        text: "complex calculation: ",
        command: Some("console.log(14)"),
    }];

    assert_eq!(res, content);
}

#[test]
fn parse_text_of_several_bytes_a_character() {
    let res = parse("grüß «date» Ωμέγα «x", "«", "»");

    let content = vec![
        Content { text: "grüß ", command: Some("date") },
        Content { text: " Ωμέγα ", command: None },
        Content { text: "«x", command: None },
    ];

    assert_eq!(res, content);
}

#[test]
fn parse_is_lossless() {
    let input = "a{{b}}c{{d}}{{e}} f {{g";
    let res = parse(input, "{{", "}}");

    let mut restored = String::new();
    for c in &res {
        restored.push_str(c.text);
        if let Some(script) = c.command {
            restored.push_str("{{");
            restored.push_str(script);
            restored.push_str("}}");
        }
    }
    assert_eq!(restored, input);
    assert_eq!(res.len(), 5);
}

#[test]
fn parse_text_without_delimiters_is_one_fragment() {
    let input = "no delimiters in here, only } and { apart";
    let res = parse(input, "{{", "}}");

    assert_eq!(res, vec![Content { text: input, command: None }]);
}

#[test]
fn scanner_reads_one_fragment_at_a_time() {
    let mut scanner = Scanner::new("a{{b}}c", "{{", "}}").unwrap();

    assert_eq!(scanner.next(), Some(Content { text: "a", command: Some("b") }));
    assert_eq!(scanner.next(), Some(Content { text: "c", command: None }));
    assert_eq!(scanner.next(), None);
    assert_eq!(scanner.next(), None);
}

#[test]
fn scanner_refuses_an_empty_delimiter() {
    assert!(matches!(Scanner::new("abc", "", "}}"), Err(ConfigurationError::EmptyDelimiter)));
    assert!(matches!(Scanner::new("abc", "{{", ""), Err(ConfigurationError::EmptyDelimiter)));
    assert!(matches!(Scanner::new("", "", ""), Err(ConfigurationError::EmptyDelimiter)));
    assert!(Scanner::new("abc", "{", "}").is_ok());
}

/// The fragments of `s`, found with `str::find` alone.
fn direct_scan<'a>(s: &'a str, begin: &str, end: &str) -> Vec<Content<'a>> {
    let mut found = Vec::new();
    let mut start = 0;
    let mut search = 0;
    loop {
        let Some(i) = s[search..].find(begin) else {
            found.push(Content { text: &s[start..], command: None });
            return found;
        };
        let b = search + i;
        let body = b + begin.len();
        match s[body..].find(end) {
            Some(e) => {
                found.push(Content { text: &s[start..b], command: Some(&s[body..body + e]) });
                start = body + e + end.len();
                search = start;
                if start == s.len() {
                    return found;
                }
            }
            None => {
                found.push(Content { text: &s[start..b], command: None });
                start = b;
                search = body;
            }
        }
    }
}

fn texts_over(alphabet: &[char], longest: usize) -> Vec<String> {
    let mut all = vec![String::new()];
    let mut last = vec![String::new()];
    for _ in 0..longest {
        let mut next = Vec::new();
        for s in &last {
            for c in alphabet {
                let mut longer = s.clone();
                longer.push(*c);
                next.push(longer);
            }
        }
        all.extend(next.iter().cloned());
        last = next;
    }
    all
}

#[test]
fn parse_agrees_with_a_direct_scan_on_all_short_texts() {
    let texts = texts_over(&['a', '{', '}', 'é'], 7);
    assert_eq!(texts.len(), 21845);
    for (begin, end) in [("{", "}"), ("{{", "}}"), ("{", "{"), ("{}", "}{"), ("é", "a"), ("a{", "é")] {
        for input in &texts {
            let res = parse(input, begin, end);
            assert_eq!(res, direct_scan(input, begin, end), "{:?} {:?} {:?}", input, begin, end);

            let mut restored = String::new();
            for c in &res {
                restored.push_str(c.text);
                if let Some(script) = c.command {
                    restored.push_str(begin);
                    restored.push_str(script);
                    restored.push_str(end);
                }
            }
            assert_eq!(&restored, input);
            if !input.contains(begin) {
                assert_eq!(res, vec![Content { text: input.as_str(), command: None }]);
            }
        }
    }
}
