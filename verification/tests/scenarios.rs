use template_nest::TemplateNestError::{
    BadParams, InvalidNameLabel, NoNameLabel, RecursiveDefaults, TemplateDirNotFound,
    TemplateFileNotFound, TemplateFileReadError, UnsupportedValue,
};
use template_nest::{TemplateFile, TemplateNest, TemplateNestOption, Value};

fn file(path: &str, contents: &str) -> TemplateFile {
    TemplateFile { path: path.to_string(), contents: contents.to_string(), modified: 1 }
}

fn text(s: &str) -> Value {
    Value::Text(s.to_string())
}

fn keyed(entries: Vec<(&str, Value)>) -> Value {
    Value::Keyed(entries.into_iter().map(|(k, v)| (k.to_string(), v)).collect())
}

fn page_and_wrap() -> Vec<TemplateFile> {
    vec![file("page.html", "<p><!--% v %--></p>"), file("wrap.html", "<!--% inner %-->")]
}

#[test]
fn page_with_one_value() {
    let nest = TemplateNest::new(TemplateNestOption::default(), Some(page_and_wrap())).unwrap();
    let page = keyed(vec![("TEMPLATE", text("page")), ("v", text("hi"))]);
    assert_eq!(nest.render(&page).unwrap(), "<p>hi</p>");
}

#[test]
fn list_of_pages_inside_a_wrapper() {
    let nest = TemplateNest::new(TemplateNestOption::default(), Some(page_and_wrap())).unwrap();
    let value = keyed(vec![
        ("TEMPLATE", text("wrap")),
        (
            "inner",
            Value::List(vec![
                keyed(vec![("TEMPLATE", text("page")), ("v", text("a"))]),
                keyed(vec![("TEMPLATE", text("page")), ("v", text("b"))]),
            ]),
        ),
    ]);
    assert_eq!(nest.render(&value).unwrap(), "<p>a</p><p>b</p>");
}

fn nest_with(option: TemplateNestOption, files: Vec<TemplateFile>) -> TemplateNest {
    TemplateNest::new(option, Some(files)).unwrap()
}

fn failure(result: Result<String, template_nest::TemplateNestError>) -> String {
    format!("{:?}", result.unwrap_err())
}

#[test]
fn text_renders_as_itself() {
    let nest = nest_with(TemplateNestOption::default(), vec![]);
    assert_eq!(nest.render(&text("a < b & c \n ")).unwrap(), "a < b & c \n ");
    assert_eq!(nest.render(&text("")).unwrap(), "");
}

#[test]
fn list_renders_as_concatenation() {
    let nest = nest_with(TemplateNestOption::default(), page_and_wrap());
    let a = || keyed(vec![("TEMPLATE", text("page")), ("v", text("1"))]);
    let b = || text(" & ");
    let both = nest.render(&Value::List(vec![a(), b()])).unwrap();
    assert_eq!(both, format!("{}{}", nest.render(&a()).unwrap(), nest.render(&b()).unwrap()));
    assert_eq!(both, "<p>1</p> & ");
    assert_eq!(nest.render(&Value::List(vec![])).unwrap(), "");
}

#[test]
fn list_fails_as_its_first_failing_value() {
    let nest = nest_with(TemplateNestOption::default(), page_and_wrap());
    let list = Value::List(vec![text("ok"), keyed(vec![]), keyed(vec![("TEMPLATE", text("no"))])]);
    assert_eq!(failure(nest.render(&list)), "NoNameLabel(\"TEMPLATE\")");
}

#[test]
fn missing_token_is_replaced_by_nothing() {
    let nest = nest_with(TemplateNestOption::default(), vec![file("t.html", "a [<!--% x %-->] b")]);
    assert_eq!(nest.render(&keyed(vec![("TEMPLATE", text("t"))])).unwrap(), "a [] b");
}

#[test]
fn default_replaces_a_missing_entry_only() {
    let option = TemplateNestOption {
        defaults: vec![("x".to_string(), text("dflt")), ("x".to_string(), text("second"))],
        ..Default::default()
    };
    let nest = nest_with(option, vec![file("t.html", "[<!--% x %-->|<!--% y %-->]")]);
    assert_eq!(nest.render(&keyed(vec![("TEMPLATE", text("t"))])).unwrap(), "[dflt|]");
    assert_eq!(
        nest.render(&keyed(vec![("TEMPLATE", text("t")), ("x", text("given"))])).unwrap(),
        "[given|]"
    );
    assert_eq!(
        nest.render(&keyed(vec![("TEMPLATE", text("t")), ("x", text(""))])).unwrap(),
        "[|]"
    );
}

#[test]
fn default_may_be_a_template() {
    let option = TemplateNestOption {
        defaults: vec![
            ("inner".to_string(), keyed(vec![("TEMPLATE", text("page"))])),
            ("v".to_string(), Value::List(vec![text("x"), text("y")])),
        ],
        ..Default::default()
    };
    let nest = nest_with(option, page_and_wrap());
    assert_eq!(nest.render(&keyed(vec![("TEMPLATE", text("wrap"))])).unwrap(), "<p>xy</p>");
}

#[test]
fn defaults_that_need_themselves_fail() {
    let option = TemplateNestOption {
        defaults: vec![("inner".to_string(), keyed(vec![("TEMPLATE", text("wrap"))]))],
        ..Default::default()
    };
    let nest = nest_with(option, page_and_wrap());
    assert_eq!(
        failure(nest.render(&keyed(vec![("TEMPLATE", text("wrap"))]))),
        "RecursiveDefaults(\"inner\")"
    );
}

#[test]
fn later_tokens_keep_their_place_when_earlier_ones_grow() {
    let nest =
        nest_with(TemplateNestOption::default(), vec![file("t.html", "<<!--% a %-->|<!--% b %-->>")]);
    let value = keyed(vec![
        ("TEMPLATE", text("t")),
        ("a", Value::List(vec![text("a much longer replacement than the token")])),
        ("b", Value::List(vec![text("b")])),
    ]);
    assert_eq!(nest.render(&value).unwrap(), "<a much longer replacement than the token|b>");
    let value = keyed(vec![
        ("TEMPLATE", text("t")),
        ("a", Value::List(vec![])),
        ("b", Value::List(vec![text("a much longer replacement than the token")])),
    ]);
    assert_eq!(nest.render(&value).unwrap(), "<|a much longer replacement than the token>");
}

#[test]
fn escaped_token_is_left_as_text() {
    let option = TemplateNestOption { token_escape_char: "\\".to_string(), ..Default::default() };
    let nest = nest_with(option, vec![file("t.html", "a \\<!--% X %--> b <!--% X %-->")]);
    assert_eq!(
        nest.render(&keyed(vec![("TEMPLATE", text("t")), ("X", text("val"))])).unwrap(),
        "a <!--% X %--> b val"
    );
    assert_eq!(
        nest.render(&keyed(vec![("TEMPLATE", text("t"))])).unwrap(),
        "a <!--% X %--> b"
    );
}

#[test]
fn escaped_token_is_no_param() {
    let option = TemplateNestOption {
        token_escape_char: "\\".to_string(),
        die_on_bad_params: true,
        ..Default::default()
    };
    let nest = nest_with(option, vec![file("t.html", "\\<!--% X %-->")]);
    assert_eq!(
        failure(nest.render(&keyed(vec![("TEMPLATE", text("t")), ("X", text("val"))]))),
        "BadParams(\"X\")"
    );
}

#[test]
fn strict_validation_names_the_first_unknown_key() {
    let files = || vec![file("t.html", "<!--% a %-->")];
    let value = || {
        keyed(vec![
            ("a", text("1")),
            ("TEMPLATE", text("t")),
            ("zz", text("2")),
            ("b", text("3")),
        ])
    };
    let strict = TemplateNestOption { die_on_bad_params: true, ..Default::default() };
    assert_eq!(failure(nest_with(strict, files()).render(&value())), "BadParams(\"zz\")");
    assert_eq!(nest_with(TemplateNestOption::default(), files()).render(&value()).unwrap(), "1");
    let strict = TemplateNestOption { die_on_bad_params: true, ..Default::default() };
    let fine = keyed(vec![("a", text("1")), ("TEMPLATE", text("t"))]);
    assert_eq!(nest_with(strict, files()).render(&fine).unwrap(), "1");
}

#[test]
fn validation_comes_before_any_replacement() {
    let strict = TemplateNestOption { die_on_bad_params: true, ..Default::default() };
    let nest = nest_with(strict, vec![file("t.html", "<!--% a %-->")]);
    let value = keyed(vec![("TEMPLATE", text("t")), ("a", keyed(vec![])), ("b", text("3"))]);
    assert_eq!(failure(nest.render(&value)), "BadParams(\"b\")");
}

#[test]
fn labels_wrap_the_text() {
    let files = || vec![file("t.html", "body <!--% a %-->\n\n")];
    let value = keyed(vec![("TEMPLATE", text("t")), ("a", text("x"))]);
    let with = TemplateNestOption {
        show_labels: true,
        comment_delimiters: ("/*".to_string(), "*/".to_string()),
        ..Default::default()
    };
    assert_eq!(
        nest_with(with, files()).render(&value).unwrap(),
        "/* BEGIN t */\nbody x\n\n/* END t */"
    );
    assert_eq!(nest_with(TemplateNestOption::default(), files()).render(&value).unwrap(), "body x");
}

#[test]
fn keyed_value_without_name_label_fails() {
    let option = TemplateNestOption { label: "NAME".to_string(), ..Default::default() };
    let nest = nest_with(option, page_and_wrap());
    assert_eq!(
        failure(nest.render(&keyed(vec![("TEMPLATE", text("page"))]))),
        "NoNameLabel(\"NAME\")"
    );
    assert_eq!(
        nest.render(&keyed(vec![("NAME", text("page")), ("v", text("x"))])).unwrap(),
        "<p>x</p>"
    );
}

#[test]
fn name_label_that_is_no_text_fails() {
    let nest = nest_with(TemplateNestOption::default(), page_and_wrap());
    assert_eq!(
        failure(nest.render(&keyed(vec![("TEMPLATE", Value::List(vec![text("page")]))]))),
        "InvalidNameLabel(\"TEMPLATE\")"
    );
    assert_eq!(
        failure(nest.render(&keyed(vec![("TEMPLATE", keyed(vec![]))]))),
        "InvalidNameLabel(\"TEMPLATE\")"
    );
}

#[test]
fn unknown_template_fails_with_its_file_name() {
    let nest = nest_with(TemplateNestOption::default(), page_and_wrap());
    assert_eq!(
        failure(nest.render(&keyed(vec![("TEMPLATE", text("nope"))]))),
        "TemplateFileNotFound(\"nope.html\")"
    );
    let bare = TemplateNestOption { extension: String::new(), ..Default::default() };
    let nest = nest_with(bare, vec![]);
    assert_eq!(
        failure(nest.render(&keyed(vec![("TEMPLATE", text("nope"))]))),
        "TemplateFileNotFound(\"nope\")"
    );
}

#[test]
fn failure_of_a_nested_value_fails_the_whole() {
    let nest = nest_with(TemplateNestOption::default(), page_and_wrap());
    let value = keyed(vec![
        ("TEMPLATE", text("wrap")),
        ("inner", keyed(vec![("TEMPLATE", text("page")), ("v", keyed(vec![]))])),
    ]);
    assert_eq!(failure(nest.render(&value)), "NoNameLabel(\"TEMPLATE\")");
}

#[test]
fn the_last_failing_token_gives_the_failure() {
    let nest = nest_with(TemplateNestOption::default(), vec![file("t.html", "<!--% a %--><!--% b %-->")]);
    let value = keyed(vec![
        ("TEMPLATE", text("t")),
        ("a", keyed(vec![])),
        ("b", keyed(vec![("TEMPLATE", text("gone"))])),
    ]);
    assert_eq!(failure(nest.render(&value)), "TemplateFileNotFound(\"gone.html\")");
}

#[test]
fn missing_directory_fails() {
    let option = TemplateNestOption { directory: "no/such/dir".to_string(), ..Default::default() };
    match TemplateNest::new(option, None) {
        Err(TemplateDirNotFound(dir)) => {
            assert_eq!(dir, "no/such/dir")
        }
        _ => panic!("a missing directory must be reported"),
    }
}

#[test]
fn files_are_indexed_under_their_path_without_the_extension() {
    let nest = nest_with(
        TemplateNestOption::default(),
        vec![
            file("a.html", "first"),
            file("dir/a.html", "nested"),
            file("a.txt", "other"),
            file("ahtml", "no dot"),
            file("a.html", "second"),
        ],
    );
    assert_eq!(nest.render(&keyed(vec![("TEMPLATE", text("a"))])).unwrap(), "second");
    assert_eq!(nest.render(&keyed(vec![("TEMPLATE", text("dir/a"))])).unwrap(), "nested");
    assert!(nest.render(&keyed(vec![("TEMPLATE", text("a.txt"))])).is_err());
    assert!(nest.render(&keyed(vec![("TEMPLATE", text(""))])).is_err());
    let bare = TemplateNestOption { extension: String::new(), ..Default::default() };
    let nest = nest_with(bare, vec![file("a.txt", "other")]);
    assert_eq!(nest.render(&keyed(vec![("TEMPLATE", text("a.txt"))])).unwrap(), "other");
}

#[test]
fn text_that_replaces_a_token_is_escaped() {
    let files = || vec![file("t.html", "<!--% a %-->;<!--% b %-->")];
    let value = keyed(vec![
        ("TEMPLATE", text("t")),
        ("a", text("<a href=\"x/y\">Tom & 'Jerry'</a>")),
        ("b", Value::List(vec![text("<b>")])),
    ]);
    assert_eq!(
        nest_with(TemplateNestOption::default(), files()).render(&value).unwrap(),
        "&lt;a href=&quot;x&#x2F;y&quot;&gt;Tom &amp; &#x27;Jerry&#x27;&lt;&#x2F;a&gt;;<b>"
    );
    let raw = TemplateNestOption { escape_html: false, ..Default::default() };
    assert_eq!(
        nest_with(raw, files()).render(&value).unwrap(),
        "<a href=\"x/y\">Tom & 'Jerry'</a>;<b>"
    );
}

#[test]
fn default_text_is_escaped_too() {
    let option =
        TemplateNestOption { defaults: vec![("a".to_string(), text("1 < 2"))], ..Default::default() };
    let nest = nest_with(option, vec![file("t.html", "<!--% a %-->")]);
    assert_eq!(nest.render(&keyed(vec![("TEMPLATE", text("t"))])).unwrap(), "1 &lt; 2");
}

#[test]
fn fixed_indent_indents_the_lines_of_a_replacement() {
    let fixed = TemplateNestOption { fixed_indent: true, escape_html: false, ..Default::default() };
    let files = || vec![file("t.html", "<ul>\n  <!--% items %-->\n</ul>\n<!--% items %-->")];
    let value = keyed(vec![("TEMPLATE", text("t")), ("items", text("<li>a</li>\n<li>b</li>"))]);
    assert_eq!(
        nest_with(fixed, files()).render(&value).unwrap(),
        "<ul>\n  <li>a</li>\n  <li>b</li>\n</ul>\n<li>a</li>\n<li>b</li>"
    );
    let loose = TemplateNestOption { escape_html: false, ..Default::default() };
    assert_eq!(
        nest_with(loose, files()).render(&value).unwrap(),
        "<ul>\n  <li>a</li>\n<li>b</li>\n</ul>\n<li>a</li>\n<li>b</li>"
    );
}

#[test]
fn trailing_white_space_is_trimmed_but_not_leading() {
    let nest = nest_with(TemplateNestOption::default(), vec![file("t.html", " \n x <!--% a %--> \t\n\n")]);
    assert_eq!(nest.render(&keyed(vec![("TEMPLATE", text("t"))])).unwrap(), " \n x");
}

#[test]
fn first_entry_under_a_key_counts() {
    let nest = nest_with(TemplateNestOption::default(), page_and_wrap());
    let value = keyed(vec![
        ("TEMPLATE", text("page")),
        ("v", text("one")),
        ("TEMPLATE", text("wrap")),
        ("v", text("two")),
    ]);
    assert_eq!(nest.render(&value).unwrap(), "<p>one</p>");
}

#[test]
fn update_replaces_an_older_index_only() {
    let mut nest = nest_with(TemplateNestOption::default(), vec![file("t.html", "old <!--% a %-->")]);
    let value = keyed(vec![("TEMPLATE", text("t")), ("a", text("x"))]);
    assert_eq!(nest.render(&value).unwrap(), "old x");
    assert!(!nest.is_stale(&"t".to_string(), 1));
    assert!(!nest.is_stale(&"t".to_string(), 0));
    assert!(nest.is_stale(&"t".to_string(), 2));
    assert!(nest.is_stale(&"u".to_string(), 0));
    assert!(!nest.update("t".to_string(), "same time <!--% a %-->", 1));
    assert_eq!(nest.render(&value).unwrap(), "old x");
    assert!(nest.update("t".to_string(), "<!--% a %--> new", 2));
    assert_eq!(nest.render(&value).unwrap(), "x new");
    assert!(!nest.is_stale(&"t".to_string(), 2));
    assert!(nest.update("u".to_string(), "fresh", 0));
    assert_eq!(nest.render(&keyed(vec![("TEMPLATE", text("u"))])).unwrap(), "fresh");
    assert_eq!(nest.render(&value).unwrap(), "x new");
}

#[test]
fn file_name_of_a_template() {
    let option = TemplateNestOption::default();
    assert_eq!(TemplateNest::template_name_to_file(&option, "dir/page"), "dir/page.html");
    let bare = TemplateNestOption { extension: String::new(), ..Default::default() };
    assert_eq!(TemplateNest::template_name_to_file(&bare, "page"), "page");
}

#[test]
fn default_settings() {
    let option = TemplateNestOption::default();
    assert_eq!(option.delimiters, ("<!--%".to_string(), "%-->".to_string()));
    assert_eq!(option.label, "TEMPLATE");
    assert_eq!(option.extension, "html");
    assert_eq!(option.directory, "templates");
    assert_eq!(option.comment_delimiters, ("<!--".to_string(), "-->".to_string()));
    assert_eq!(option.token_escape_char, "");
    assert!(option.defaults.is_empty());
    assert!(!option.show_labels && !option.fixed_indent && !option.die_on_bad_params);
    assert!(option.escape_html);
}

#[test]
fn messages_name_what_was_at_fault() {
    let s = || "x".to_string();
    assert_eq!(TemplateDirNotFound(s()).message(), "expected template directory at `x`");
    assert_eq!(TemplateFileNotFound(s()).message(), "expected template file at `x`");
    assert_eq!(TemplateFileReadError(s()).message(), "error reading: `x`");
    assert_eq!(
        NoNameLabel(s()).message(),
        "encountered hash with no name label (name label: `x`)"
    );
    assert_eq!(
        InvalidNameLabel(s()).message(),
        "encountered hash with invalid name label type (name label: `x`)"
    );
    assert_eq!(
        BadParams(s()).message(),
        "bad params in template hash, variable not present in template file: `x`"
    );
    assert_eq!(RecursiveDefaults(s()).message(), "the default of `x` needs itself to be rendered");
    assert_eq!(
        UnsupportedValue(s()).message(),
        "a value that is no text, list or keyed value cannot be rendered: `x`"
    );
}

#[test]
fn engine_shows_what_it_holds() {
    let option = TemplateNestOption { label: "NAME".to_string(), ..Default::default() };
    let mut nest = nest_with(option, vec![file("t.html", "a <!--% b %-->")]);
    assert_eq!(nest.option().label, "NAME");
    assert!(nest.template(&"u".to_string()).is_none());
    let held = nest.template(&"t".to_string()).unwrap();
    assert_eq!(held.contents.iter().collect::<String>(), "a <!--% b %-->");
    assert_eq!(held.last_modified, 1);
    assert_eq!(held.tokens.len(), 1);
    assert_eq!(held.tokens[0].name, "b");
    nest.update("t".to_string(), "no token", 5);
    let held = nest.template(&"t".to_string()).unwrap();
    assert_eq!(held.last_modified, 5);
    assert!(held.tokens.is_empty());
}
