//! What rendering a value gives, stated over the settings and the indexed
//! templates.

use crate::error::Failure;
use crate::index::{IndexView, TokenView};
use crate::option::TemplateNestOption;
use crate::text::{escaped, reindented, trim_end};
use crate::value::{key_position, Value};
use vstd::prelude::*;

verus! {

/// The mathematical value of an engine: its settings, and the index of each
/// template that it holds, by the template's name.
pub struct NestView {
    pub option: TemplateNestOption,
    pub templates: Map<Seq<char>, IndexView>,
}

/// The name of the file of a template: the template's name, then a dot and
/// the extension unless the extension is empty.
pub open spec fn file_name(name: Seq<char>, extension: Seq<char>) -> Seq<char> {
    if extension.len() == 0 {
        name
    } else {
        name.push('.') + extension
    }
}

/// The position of the first entry that strict validation refuses: its key
/// is neither the name label nor one of the names known, or -1 where there
/// is none.
pub open spec fn bad_key_position(
    entries: Seq<(String, Value)>,
    label: Seq<char>,
    known: Set<Seq<char>>,
) -> int
    decreases entries.len(),
{
    if entries.len() == 0 {
        -1
    } else if bad_key_position(entries.drop_last(), label, known) >= 0 {
        bad_key_position(entries.drop_last(), label, known)
    } else if entries.last().0@ != label && !known.contains(entries.last().0@) {
        entries.len() - 1
    } else {
        -1
    }
}

/// A text that replaces a token: escaped for HTML where the settings say so.
pub open spec fn leaf(option: TemplateNestOption, text: Seq<char>) -> Seq<char> {
    if option.escape_html {
        escaped(text)
    } else {
        text
    }
}

/// What replaces a token, with its lines indented to the token's column
/// where the settings say so.
pub open spec fn indented(option: TemplateNestOption, token: TokenView, text: Seq<char>) -> Seq<
    char,
> {
    if option.fixed_indent && token.indent_level != 0 {
        reindented(text, token.indent_level)
    } else {
        text
    }
}

/// A comment line that names a template: the opening comment text, a space,
/// `word`, a space, the name, a space, the closing comment text and a line
/// feed.
pub open spec fn label_line(option: TemplateNestOption, word: Seq<char>, name: Seq<char>) -> Seq<
    char,
> {
    (option.comment_delimiters.0@.push(' ') + word).push(' ') + name.push(' ')
        + option.comment_delimiters.1@.push('\n')
}

/// The text of a rendered template between its two comment lines, where the
/// settings ask for them.
pub open spec fn labelled(option: TemplateNestOption, name: Seq<char>, text: Seq<char>) -> Seq<
    char,
> {
    if option.show_labels {
        label_line(option, "BEGIN"@, name) + text + label_line(option, "END"@, name)
    } else {
        text
    }
}

/// The text of a template from its first token on, where `parts` replace
/// the tokens: each part is followed by the template's text up to the next
/// token, the last by the text up to the end.
pub open spec fn spliced(contents: Seq<char>, tokens: Seq<TokenView>, parts: Seq<Seq<char>>) -> Seq<
    char,
>
    decreases tokens.len(),
{
    if tokens.len() == 0 || parts.len() == 0 {
        Seq::empty()
    } else {
        let next = if tokens.len() > 1 {
            tokens[1].start
        } else {
            contents.len() as int
        };
        parts.first() + contents.subrange(tokens[0].end, next) + spliced(
            contents,
            tokens.drop_first(),
            parts.drop_first(),
        )
    }
}

/// The text of a template in which `parts` replace the tokens.
pub open spec fn filled(contents: Seq<char>, tokens: Seq<TokenView>, parts: Seq<Seq<char>>) -> Seq<
    char,
> {
    let first = if tokens.len() > 0 {
        tokens[0].start
    } else {
        contents.len() as int
    };
    contents.subrange(0, first) + spliced(contents, tokens, parts)
}

/// The filled text in front of token `at`: the text of the template up to
/// the token, in which the parts before it replace the tokens before it.
pub open spec fn text_before(
    contents: Seq<char>,
    tokens: Seq<TokenView>,
    parts: Seq<Seq<char>>,
    at: int,
) -> Seq<char> {
    filled(contents.take(tokens[at].start), tokens.take(at), parts.take(at))
}

/// The filled text behind token `at`: the text of the template from the
/// token's end to the next token, then the parts behind it, each followed by
/// the text up to the next token.
pub open spec fn text_behind(
    contents: Seq<char>,
    tokens: Seq<TokenView>,
    parts: Seq<Seq<char>>,
    at: int,
) -> Seq<char> {
    let next = if at + 1 < tokens.len() {
        tokens[at + 1].start
    } else {
        contents.len() as int
    };
    contents.subrange(tokens[at].end, next) + spliced(
        contents,
        tokens.skip(at + 1),
        parts.skip(at + 1),
    )
}

/// `text` with `part` in place of `text[start..end]`.
pub open spec fn splice(text: Seq<char>, start: int, end: int, part: Seq<char>) -> Seq<char> {
    text.subrange(0, start) + part + text.subrange(end, text.len() as int)
}

/// The text of a template after each token's span has been replaced in the
/// text itself, the last token first.
pub open spec fn replaced_backwards(
    contents: Seq<char>,
    tokens: Seq<TokenView>,
    parts: Seq<Seq<char>>,
) -> Seq<char>
    decreases tokens.len(),
{
    if tokens.len() == 0 || parts.len() == 0 {
        contents
    } else {
        replaced_backwards(
            splice(contents, tokens.last().start, tokens.last().end, parts.last()),
            tokens.drop_last(),
            parts.drop_last(),
        )
    }
}

/// What rendering `value` gives. `depth` bounds how many defaults that are
/// no texts may be rendered one inside the other.
pub open spec fn rendered(nest: NestView, value: Value, depth: nat) -> Result<Seq<char>, Failure>
    decreases depth, value, 0nat,
{
    match value {
        Value::Text(text) => Ok(text@),
        Value::List(items) => rendered_all(nest, items@, depth),
        Value::Keyed(entries) => {
            let label = nest.option.label@;
            let at = key_position(entries@, label);
            if 0 <= at < entries@.len() {
                match entries@[at].1 {
                    Value::Text(name) => {
                        if nest.templates.dom().contains(name@) {
                            let index = nest.templates[name@];
                            let bad = bad_key_position(entries@, label, index.known_names());
                            if nest.option.die_on_bad_params && 0 <= bad < entries@.len() {
                                Err(Failure::BadParams(entries@[bad].0@))
                            } else {
                                match replacements(nest, entries@, index.tokens, depth) {
                                    Ok(parts) => Ok(
                                        trim_end(
                                            labelled(
                                                nest.option,
                                                name@,
                                                filled(index.contents, index.tokens, parts),
                                            ),
                                        ),
                                    ),
                                    Err(failure) => Err(failure),
                                }
                            }
                        } else {
                            Err(
                                Failure::TemplateFileNotFound(
                                    file_name(name@, nest.option.extension@),
                                ),
                            )
                        }
                    },
                    _ => Err(Failure::InvalidNameLabel(label)),
                }
            } else {
                Err(Failure::NoNameLabel(label))
            }
        },
    }
}

/// What rendering the values one after the other gives: their texts in
/// order, or the failure of the first that fails.
pub open spec fn rendered_all(nest: NestView, items: Seq<Value>, depth: nat) -> Result<
    Seq<char>,
    Failure,
>
    decreases depth, items, items.len(),
{
    if items.len() == 0 {
        Ok(Seq::empty())
    } else {
        match rendered_all(nest, items.drop_last(), depth) {
            Ok(before) => match rendered(nest, items.last(), depth) {
                Ok(text) => Ok(before + text),
                Err(failure) => Err(failure),
            },
            Err(failure) => Err(failure),
        }
    }
}

/// What replaces each of the tokens, worked out from the last token to the
/// first: the failure given is that of the last token that fails.
pub open spec fn replacements(
    nest: NestView,
    entries: Seq<(String, Value)>,
    tokens: Seq<TokenView>,
    depth: nat,
) -> Result<Seq<Seq<char>>, Failure>
    decreases depth, entries, tokens.len(),
{
    if tokens.len() == 0 {
        Ok(Seq::empty())
    } else {
        match replacements(nest, entries, tokens.drop_first(), depth) {
            Ok(rest) => match replacement(nest, entries, tokens.first(), depth) {
                Ok(part) => Ok(seq![part] + rest),
                Err(failure) => Err(failure),
            },
            Err(failure) => Err(failure),
        }
    }
}

/// What replaces one token: nothing where it is escaped; else the rendered
/// value of the first entry under its name; where there is none, the
/// rendered default under its name; where there is none either, nothing.
pub open spec fn replacement(
    nest: NestView,
    entries: Seq<(String, Value)>,
    token: TokenView,
    depth: nat,
) -> Result<Seq<char>, Failure>
    decreases depth, entries, 0nat,
{
    let given = key_position(entries, token.name);
    let fallback = key_position(nest.option.defaults@, token.name);
    if token.escaped {
        Ok(Seq::empty())
    } else if 0 <= given < entries.len() {
        match entries[given].1 {
            Value::Text(text) => Ok(indented(nest.option, token, leaf(nest.option, text@))),
            _ => match rendered(nest, entries[given].1, depth) {
                Ok(text) => Ok(indented(nest.option, token, text)),
                Err(failure) => Err(failure),
            },
        }
    } else if 0 <= fallback < nest.option.defaults@.len() {
        match nest.option.defaults@[fallback].1 {
            Value::Text(text) => Ok(indented(nest.option, token, leaf(nest.option, text@))),
            _ => if depth == 0 {
                Err(Failure::RecursiveDefaults(token.name))
            } else {
                match rendered(nest, nest.option.defaults@[fallback].1, (depth - 1) as nat) {
                    Ok(text) => Ok(indented(nest.option, token, text)),
                    Err(failure) => Err(failure),
                }
            },
        }
    } else {
        Ok(Seq::empty())
    }
}

} // verus!
