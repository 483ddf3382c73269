//! The settings of an engine.

use crate::value::Value;
use vstd::prelude::*;

verus! {

/// The settings of an engine. Each can be set on its own; `default` gives
/// the usual ones.
pub struct TemplateNestOption {
    /// The two texts between which a token's name stands in a template.
    pub delimiters: (String, String),
    /// The key under which a keyed value names its template.
    pub label: String,
    /// The extension of the template files; a template's file is named by
    /// its name, a dot and this extension, or by its name alone where the
    /// extension is empty.
    pub extension: String,
    /// The directory that holds the template files.
    pub directory: String,
    /// Whether each rendered template is put between two comment lines that
    /// name it.
    pub show_labels: bool,
    /// The two texts between which such a comment stands.
    pub comment_delimiters: (String, String),
    /// Whether the lines of what replaces a token are indented to the
    /// token's column.
    pub fixed_indent: bool,
    /// Whether a keyed value may only hold keys that are tokens of its
    /// template.
    pub die_on_bad_params: bool,
    /// Where not empty: a token that directly follows this text is no token;
    /// rendering removes this text and leaves the token's text as it is.
    pub token_escape_char: String,
    /// What replaces a token for which a keyed value has no entry. Of two
    /// entries with one key the first counts.
    pub defaults: Vec<(String, Value)>,
    /// Whether a text that replaces a token is escaped for HTML.
    pub escape_html: bool,
}

impl Default for TemplateNestOption {
    fn default() -> (option: Self)
        ensures
            option.delimiters.0@ == "<!--%"@,
            option.delimiters.1@ == "%-->"@,
            option.label@ == "TEMPLATE"@,
            option.extension@ == "html"@,
            option.directory@ == "templates"@,
            !option.show_labels,
            option.comment_delimiters.0@ == "<!--"@,
            option.comment_delimiters.1@ == "-->"@,
            !option.fixed_indent,
            !option.die_on_bad_params,
            option.token_escape_char@ == ""@,
            option.defaults@.len() == 0,
            option.escape_html,
    {
        TemplateNestOption {
            label: "TEMPLATE".to_owned(),
            extension: "html".to_owned(),
            show_labels: false,
            fixed_indent: false,
            die_on_bad_params: false,
            directory: "templates".to_owned(),
            delimiters: ("<!--%".to_owned(), "%-->".to_owned()),
            comment_delimiters: ("<!--".to_owned(), "-->".to_owned()),
            token_escape_char: "".to_owned(),
            defaults: Vec::new(),
            escape_html: true,
        }
    }
}

} // verus!
