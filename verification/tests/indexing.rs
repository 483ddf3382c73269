use regex::Regex;
use template_nest::index::{column_of, find_closing, scan};
use template_nest::nest::template_name_of;
use template_nest::text::{chars_of, has_at, reindent, skip_white, string_of, trimmed_end_of};
use template_nest::{index, TemplateNestOption};

fn spans(option: &TemplateNestOption, contents: &str) -> Vec<(String, usize, usize, usize, bool)> {
    index(option, contents, 0)
        .tokens
        .into_iter()
        .map(|t| (t.name, t.start, t.end, t.indent_level, t.escaped))
        .collect()
}

fn token(name: &str, start: usize, end: usize) -> (String, usize, usize, usize, bool) {
    (name.to_string(), start, end, 0, false)
}

#[test]
fn index_keeps_the_text_and_the_time() {
    let found = index(&TemplateNestOption::default(), "a <!--% b %--> c", 42);
    assert_eq!(string_of(&found.contents), "a <!--% b %--> c");
    assert_eq!(found.last_modified, 42);
    assert!(found.knows(&"b".to_string()));
    assert!(!found.knows(&"c".to_string()));
}

#[test]
fn index_finds_tokens_in_order() {
    let option = TemplateNestOption::default();
    assert_eq!(
        spans(&option, "<p><!--% v %--></p><!--%w%-->"),
        vec![token("v", 3, 15), token("w", 19, 29)]
    );
}

#[test]
fn index_of_text_without_tokens_is_empty() {
    let option = TemplateNestOption::default();
    assert_eq!(spans(&option, ""), vec![]);
    assert_eq!(spans(&option, "no tokens here"), vec![]);
    assert_eq!(spans(&option, "<!--% never closed"), vec![]);
    assert_eq!(spans(&option, "%--> never opened"), vec![]);
}

#[test]
fn token_needs_a_character_between_the_delimiters() {
    let option = TemplateNestOption::default();
    assert_eq!(spans(&option, "<!--%%-->"), vec![]);
    assert_eq!(spans(&option, "<!--%%--> x %-->"), vec![token("%--> x", 0, 16)]);
}

#[test]
fn token_does_not_span_lines() {
    let option = TemplateNestOption::default();
    assert_eq!(spans(&option, "<!--% a\n %-->"), vec![]);
    assert_eq!(spans(&option, "<!--% a\n<!--% b %-->"), vec![token("b", 8, 20)]);
}

#[test]
fn first_closing_delimiter_closes_the_token() {
    let option = TemplateNestOption::default();
    assert_eq!(spans(&option, "<!--% a <!--% b %--> c %-->"), vec![token("a <!--% b", 0, 20)]);
}

#[test]
fn token_name_is_trimmed() {
    let option = TemplateNestOption::default();
    assert_eq!(spans(&option, "<!--% \t two words  %-->"), vec![token("two words", 0, 23)]);
    assert_eq!(spans(&option, "<!--%   %-->"), vec![token("", 0, 12)]);
}

#[test]
fn positions_count_characters() {
    let option = TemplateNestOption::default();
    assert_eq!(spans(&option, "\u{e9}\u{e9}<!--% v %-->"), vec![token("v", 2, 14)]);
}

#[test]
fn custom_delimiters_are_taken_literally() {
    let option = TemplateNestOption {
        delimiters: ("{{".to_string(), "}}".to_string()),
        ..Default::default()
    };
    assert_eq!(spans(&option, "a {{ b }} c {{d}}"), vec![token("b", 2, 9), token("d", 12, 17)]);
    let option = TemplateNestOption {
        delimiters: ("(.".to_string(), "*)".to_string()),
        ..Default::default()
    };
    assert_eq!(spans(&option, "x(. n *)y(ab*)"), vec![token("n", 1, 8)]);
}

#[test]
fn escaped_token_covers_the_escape_text() {
    let option = TemplateNestOption { token_escape_char: "\\".to_string(), ..Default::default() };
    assert_eq!(
        spans(&option, "a \\<!--% v %--> <!--% w %-->"),
        vec![(String::new(), 2, 3, 0, true), token("w", 16, 28)]
    );
    let found = index(&option, "a \\<!--% v %--> <!--% w %-->", 0);
    assert!(!found.knows(&"v".to_string()));
    assert!(found.knows(&"w".to_string()));
    assert!(!found.knows(&String::new()));
}

#[test]
fn escape_text_at_the_very_start_escapes() {
    let option = TemplateNestOption { token_escape_char: "\\".to_string(), ..Default::default() };
    assert_eq!(spans(&option, "\\<!--% v %-->"), vec![(String::new(), 0, 1, 0, true)]);
    assert_eq!(spans(&option, "<!--% v %-->"), vec![token("v", 0, 12)]);
}

#[test]
fn escape_text_longer_than_one_character() {
    let option = TemplateNestOption { token_escape_char: "@@".to_string(), ..Default::default() };
    assert_eq!(
        spans(&option, "@<!--% a %-->@@<!--% b %-->"),
        vec![token("a", 1, 13), (String::new(), 13, 15, 0, true)]
    );
}

#[test]
fn escape_text_inside_the_token_before_does_not_escape() {
    let option = TemplateNestOption { token_escape_char: ">".to_string(), ..Default::default() };
    assert_eq!(
        spans(&option, "<!--% a %--><!--% b %-->"),
        vec![token("a", 0, 12), token("b", 12, 24)]
    );
}

#[test]
fn indent_level_is_the_column_of_the_token() {
    let option = TemplateNestOption { fixed_indent: true, ..Default::default() };
    assert_eq!(
        spans(&option, "ab<!--% x %-->\n    <!--% y %-->\n<!--% z %-->"),
        vec![
            ("x".to_string(), 2, 14, 2, false),
            ("y".to_string(), 19, 31, 4, false),
            ("z".to_string(), 32, 44, 0, false)
        ]
    );
    let plain = TemplateNestOption::default();
    assert_eq!(spans(&plain, "    <!--% y %-->"), vec![token("y", 4, 16)]);
}

#[test]
fn column_counts_back_to_the_line_start() {
    let text = chars_of("ab\ncdef");
    assert_eq!(column_of(&text, 0), 0);
    assert_eq!(column_of(&text, 2), 2);
    assert_eq!(column_of(&text, 3), 0);
    assert_eq!(column_of(&text, 7), 4);
}

#[test]
fn find_closing_gives_the_position_of_the_closing_delimiter() {
    let syntax = TemplateNestOption::default().token_syntax();
    let text = chars_of("x<!--% v %-->");
    assert_eq!(find_closing(&text, &syntax, 1), Some(9));
    assert_eq!(find_closing(&text, &syntax, 0), None);
    assert_eq!(find_closing(&text, &syntax, 13), None);
    assert_eq!(find_closing(&text, &syntax, 99), None);
}

#[test]
fn scan_agrees_with_index() {
    let option = TemplateNestOption::default();
    let text = chars_of("<!--% a %--> and <!--% b %-->");
    let tokens = scan(&text, &option.token_syntax());
    assert_eq!(tokens.len(), 2);
    assert_eq!(tokens[0].name, "a");
    assert_eq!(tokens[1].name, "b");
    assert_eq!((tokens[1].start, tokens[1].end), (17, 29));
}

#[test]
fn scan_agrees_with_the_pattern() {
    let samples = [
        "",
        "plain",
        "<p><!--% v %--></p>",
        "<!--%%-->",
        "<!--%%--> x %-->",
        "<!--% a\n %--> <!--% b %-->",
        "<!--% a <!--% b %--> c %-->",
        "<!--%<!--%<!--% x %-->%-->%-->",
        "<!--% a %--><!--% b %--><!--%c%-->",
        "%--><!--%  spaced  out  %--><!--%",
        "<!--% one %-->\n  <!--% two %-->\n    <!--% three %-->\n",
    ];
    let option = TemplateNestOption::default();
    let pattern = Regex::new(&format!(
        "{}(.+?){}",
        regex::escape(&option.delimiters.0),
        regex::escape(&option.delimiters.1)
    ))
    .unwrap();
    for sample in samples {
        let expected: Vec<(String, usize, usize, usize, bool)> = pattern
            .captures_iter(sample)
            .map(|c| {
                let whole = c.get(0).unwrap();
                token(c[1].trim(), whole.start(), whole.end())
            })
            .collect();
        assert_eq!(spans(&option, sample), expected, "in {:?}", sample);
    }
}

#[test]
fn scan_agrees_with_the_pattern_on_other_delimiters_and_letters() {
    let samples = [
        "{{a}} {{ b }}{{}}{{ }}",
        "caf\u{e9} {{ \u{e9}t\u{e9} }} \u{4e16}\u{754c}{{x}}",
        "{{ a\n}} {{\u{a0}b\u{a0}}} }}{{",
        "{{{{{{ deep }}}}}}",
    ];
    let option = TemplateNestOption {
        delimiters: ("{{".to_string(), "}}".to_string()),
        ..Default::default()
    };
    let pattern = Regex::new(&format!(
        "{}(.+?){}",
        regex::escape(&option.delimiters.0),
        regex::escape(&option.delimiters.1)
    ))
    .unwrap();
    for sample in samples {
        let chars_before = |byte: usize| sample[..byte].chars().count();
        let expected: Vec<(String, usize, usize, usize, bool)> = pattern
            .captures_iter(sample)
            .map(|c| {
                let whole = c.get(0).unwrap();
                token(c[1].trim(), chars_before(whole.start()), chars_before(whole.end()))
            })
            .collect();
        assert_eq!(spans(&option, sample), expected, "in {:?}", sample);
    }
}

#[test]
fn template_name_is_the_path_without_the_extension() {
    assert_eq!(template_name_of("page.html", "html"), Some("page".to_string()));
    assert_eq!(template_name_of("output/page.html", "html"), Some("output/page".to_string()));
    assert_eq!(template_name_of(".html", "html"), Some(String::new()));
    assert_eq!(template_name_of("page.txt", "html"), None);
    assert_eq!(template_name_of("pagehtml", "html"), None);
    assert_eq!(template_name_of("html", "html"), None);
    assert_eq!(template_name_of("page.html", ""), Some("page.html".to_string()));
}

#[test]
fn text_helpers() {
    let text = chars_of("  ab c \n");
    assert_eq!(text.len(), 8);
    assert_eq!(string_of(&text), "  ab c \n");
    assert!(has_at(&text, &chars_of("ab"), 2));
    assert!(!has_at(&text, &chars_of("ab"), 3));
    assert!(!has_at(&text, &chars_of("ab"), 7));
    assert!(has_at(&text, &chars_of(""), 8));
    assert!(!has_at(&text, &chars_of(""), 9));
    assert_eq!(trimmed_end_of(&text, 0, 8), 6);
    assert_eq!(trimmed_end_of(&text, 2, 8), 4);
    assert_eq!(trimmed_end_of(&text, 6, 8), 0);
    assert_eq!(skip_white(&text, 0, 8), 2);
    assert_eq!(skip_white(&text, 6, 8), 8);
    assert_eq!(string_of(&reindent(&chars_of("a\nb\n"), 2)), "a\n  b\n  ");
    assert_eq!(string_of(&reindent(&chars_of("a\nb"), 0)), "a\nb");
}
