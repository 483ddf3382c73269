//! The engine: settings and indexed templates, and the rendering of values.

use crate::error::{Failure, TemplateNestError};
use crate::index::{index, indexed, IndexView, TemplateIndex, Token, TokenView};
use crate::option::TemplateNestOption;
use crate::render::{
    bad_key_position, file_name, filled, indented, label_line, labelled, leaf, rendered,
    rendered_all, replacement, replacements, spliced, NestView,
};
use crate::text::{
    chars_of, escape_html, has_at, matches_at, push_range, reindent, string_of, string_of_range,
    trim_end, trimmed_end_of,
};
use crate::value::{find_key, Value};
use vstd::prelude::*;

verus! {

/// A template file as it was read: its path below the template directory,
/// its text, and the time at which it was last modified.
#[derive(Debug)]
pub struct TemplateFile {
    pub path: String,
    pub contents: String,
    pub modified: u64,
}

/// The name of the template that the file at `path` holds: the path without
/// the dot and the extension that it ends with. `None` where it does not end
/// with them. Where the extension is empty, the path itself.
pub open spec fn template_key(path: Seq<char>, extension: Seq<char>) -> Option<Seq<char>> {
    let stem = path.len() - extension.len() - 1;
    if extension.len() == 0 {
        Some(path)
    } else if stem >= 0 && path[stem] == '.' && matches_at(path, extension, stem + 1) {
        Some(path.take(stem))
    } else {
        None
    }
}

/// The templates that the entries hold by name; of two entries with one name
/// the later counts.
pub open spec fn cache_map(entries: Seq<(String, TemplateIndex)>) -> Map<Seq<char>, IndexView>
    decreases entries.len(),
{
    if entries.len() == 0 {
        Map::empty()
    } else {
        cache_map(entries.drop_last()).insert(entries.last().0@, entries.last().1@)
    }
}

/// The templates that an engine holds after it has indexed the files in
/// order: each file whose path names a template is indexed under that name,
/// a later file replacing an earlier one of the same name.
pub open spec fn loaded(option: TemplateNestOption, files: Seq<TemplateFile>) -> Map<
    Seq<char>,
    IndexView,
>
    decreases files.len(),
{
    if files.len() == 0 {
        Map::empty()
    } else {
        let before = loaded(option, files.drop_last());
        let file = files.last();
        match template_key(file.path@, option.extension@) {
            Some(name) => before.insert(
                name,
                indexed(file.contents@, option.syntax(), file.modified),
            ),
            None => before,
        }
    }
}

/// Whether the template must be indexed anew: the engine does not hold it,
/// or its file was modified after the engine indexed it.
pub open spec fn stale(nest: NestView, name: Seq<char>, modified: u64) -> bool {
    !nest.templates.dom().contains(name) || nest.templates[name].last_modified < modified
}

/// Whether every entry holds a well-formed index.
pub open spec fn all_wf(entries: Seq<(String, TemplateIndex)>) -> bool {
    forall|i: int| 0 <= i < entries.len() ==> (#[trigger] entries[i]).1@.wf()
}

/// Finds the entry that counts for `name`: the last one under it.
fn position_of(entries: &Vec<(String, TemplateIndex)>, name: &String) -> (found: Option<usize>)
    ensures
        match found {
            Some(i) => {
                &&& i < entries@.len()
                &&& entries@[i as int].0@ == name@
                &&& forall|k: int| i < k < entries@.len() ==> (#[trigger] entries@[k]).0@ != name@
                &&& cache_map(entries@).dom().contains(name@)
                &&& cache_map(entries@)[name@] == entries@[i as int].1@
            },
            None => !cache_map(entries@).dom().contains(name@),
        },
{
    let mut i: usize = entries.len();
    assert(entries@.take(i as int) =~= entries@);
    while i > 0
        invariant
            i <= entries.len(),
            forall|k: int| i <= k < entries@.len() ==> (#[trigger] entries@[k]).0@ != name@,
            cache_map(entries@).dom().contains(name@) == cache_map(
                entries@.take(i as int),
            ).dom().contains(name@),
            cache_map(entries@).dom().contains(name@) ==> cache_map(entries@)[name@] == cache_map(
                entries@.take(i as int),
            )[name@],
        decreases i,
    {
        proof {
            assert(entries@.take(i as int).drop_last() =~= entries@.take(i - 1));
            assert(entries@.take(i as int).last() == entries@[i - 1]);
        }
        if entries[i - 1].0 == *name {
            return Some(i - 1);
        }
        i -= 1;
    }
    None
}

/// Replacing the entry that counts for a name changes the templates held
/// only under that name.
proof fn cache_map_update(entries: Seq<(String, TemplateIndex)>, at: int, entry: (
    String,
    TemplateIndex,
))
    requires
        0 <= at < entries.len(),
        entries[at].0@ == entry.0@,
        forall|k: int| at < k < entries.len() ==> (#[trigger] entries[k]).0@ != entry.0@,
    ensures
        cache_map(entries.update(at, entry)) == cache_map(entries).insert(entry.0@, entry.1@),
    decreases entries.len(),
{
    let changed = entries.update(at, entry);
    if at == entries.len() - 1 {
        assert(changed.drop_last() =~= entries.drop_last());
        assert(cache_map(changed) =~= cache_map(entries).insert(entry.0@, entry.1@));
    } else {
        assert(changed.drop_last() =~= entries.drop_last().update(at, entry));
        assert(changed.last() == entries.last());
        assert(entries.last() == entries[entries.len() - 1]);
        assert forall|k: int| at < k < entries.drop_last().len() implies (
        #[trigger] entries.drop_last()[k]).0@ != entry.0@ by {
            assert(entries.drop_last()[k] == entries[k]);
        }
        cache_map_update(entries.drop_last(), at, entry);
        assert(cache_map(changed) =~= cache_map(entries).insert(entry.0@, entry.1@));
    }
}

/// Stores an index under a name, in place of the one held under it.
fn put(entries: &mut Vec<(String, TemplateIndex)>, name: String, found: TemplateIndex)
    requires
        all_wf(old(entries)@),
        found@.wf(),
    ensures
        all_wf(final(entries)@),
        cache_map(final(entries)@) == cache_map(old(entries)@).insert(name@, found@),
{
    match position_of(entries, &name) {
        Some(at) => {
            proof {
                cache_map_update(entries@, at as int, (name, found));
            }
            entries.set(at, (name, found));
        },
        None => {
            let ghost before = entries@;
            entries.push((name, found));
            assert(entries@.drop_last() =~= before);
        },
    }
}

/// Computes the name of the template that the file at `path` holds.
pub fn template_name_of(path: &str, extension: &str) -> (name: Option<String>)
    ensures
        match name {
            Some(name) => template_key(path@, extension@) == Some(name@),
            None => template_key(path@, extension@) is None,
        },
{
    let path = chars_of(path);
    let extension = chars_of(extension);
    if extension.len() == 0 {
        return Some(string_of(&path));
    }
    if path.len() <= extension.len() {
        return None;
    }
    let stem: usize = path.len() - extension.len() - 1;
    if path[stem] == '.' && has_at(&path, &extension, stem + 1) {
        Some(string_of_range(&path, 0, stem))
    } else {
        None
    }
}

/// Renders values from the templates that it holds. Rendering only reads
/// the engine, so any number of renderings may share it; `update` changes it
/// and needs it alone.
pub struct TemplateNest {
    option: TemplateNestOption,
    cache: Vec<(String, TemplateIndex)>,
}

impl View for TemplateNest {
    type V = NestView;

    closed spec fn view(&self) -> NestView {
        NestView { option: self.option, templates: cache_map(self.cache@) }
    }
}

/// A failure at a token is the failure of all the replacements, whatever
/// stands before the token.
proof fn failure_comes_out(
    nest: NestView,
    entries: Seq<(String, Value)>,
    tokens: Seq<TokenView>,
    from: int,
    at: int,
    depth: nat,
    failure: Failure,
)
    requires
        0 <= from <= at <= tokens.len(),
        replacements(nest, entries, tokens.skip(at), depth) == Err::<Seq<Seq<char>>, Failure>(
            failure,
        ),
    ensures
        replacements(nest, entries, tokens.skip(from), depth) == Err::<Seq<Seq<char>>, Failure>(
            failure,
        ),
    decreases at - from,
{
    if from < at {
        failure_comes_out(nest, entries, tokens, from + 1, at, depth, failure);
        assert(tokens.skip(from).drop_first() =~= tokens.skip(from + 1));
    }
}

impl TemplateNest {
    /// Whether the engine is well formed: each index that it holds is.
    /// `new` makes such an engine, and `update` keeps it so.
    pub closed spec fn wf(&self) -> bool {
        all_wf(self.cache@)
    }

    /// Appends the comment line that names a template.
    fn push_label_line(&self, out: &mut Vec<char>, word: &str, name: &Vec<char>)
        ensures
            final(out)@ == old(out)@ + label_line(self@.option, word@, name@),
    {
        let open = chars_of(self.option.comment_delimiters.0.as_str());
        let close = chars_of(self.option.comment_delimiters.1.as_str());
        let word = chars_of(word);
        push_range(out, &open, 0, open.len());
        out.push(' ');
        push_range(out, &word, 0, word.len());
        out.push(' ');
        push_range(out, name, 0, name.len());
        out.push(' ');
        push_range(out, &close, 0, close.len());
        out.push('\n');
        proof {
            assert(open@.subrange(0, open@.len() as int) =~= open@);
            assert(close@.subrange(0, close@.len() as int) =~= close@);
            assert(word@.subrange(0, word@.len() as int) =~= word@);
            assert(name@.subrange(0, name@.len() as int) =~= name@);
            assert(out@ =~= old(out)@ + label_line(self@.option, word@, name@));
        }
    }

    /// Works out what replaces a text that stands for a token.
    fn replace_with_text(&self, token: &Token, text: &String) -> (part: Vec<char>)
        ensures
            part@ == indented(self@.option, token@, leaf(self@.option, text@)),
    {
        let plain = if self.option.escape_html {
            chars_of(escape_html(text.as_str()).as_str())
        } else {
            chars_of(text.as_str())
        };
        self.indent(token, plain)
    }

    /// Indents the lines of what replaces a token, where the settings say so.
    fn indent(&self, token: &Token, text: Vec<char>) -> (part: Vec<char>)
        ensures
            part@ == indented(self@.option, token@, text@),
    {
        if self.option.fixed_indent && token.indent_level != 0 {
            reindent(&text, token.indent_level)
        } else {
            text
        }
    }

    /// Works out what replaces one token.
    fn replace(&self, entries: &Vec<(String, Value)>, token: &Token, depth: usize) -> (part: Result<
        Vec<char>,
        TemplateNestError,
    >)
        requires
            self.wf(),
        ensures
            match part {
                Ok(text) => replacement(self@, entries@, token@, depth as nat) == Ok::<
                    Seq<char>,
                    Failure,
                >(text@),
                Err(error) => replacement(self@, entries@, token@, depth as nat) == Err::<
                    Seq<char>,
                    Failure,
                >(error@),
            },
        decreases depth, entries, 0nat,
    {
        if token.escaped {
            return Ok(Vec::new());
        }
        match find_key(entries, &token.name) {
            Some(given) => match &entries[given].1 {
                Value::Text(text) => Ok(self.replace_with_text(token, text)),
                value => match ({
                    assert(decreases_to!(*entries => entries[given as int]));
                    assert(decreases_to!(entries[given as int] => entries[given as int].1));
                    self.render_value(value, depth)
                }) {
                    Ok(text) => Ok(self.indent(token, text)),
                    Err(error) => Err(error),
                },
            },
            None => match find_key(&self.option.defaults, &token.name) {
                Some(fallback) => match &self.option.defaults[fallback].1 {
                    Value::Text(text) => Ok(self.replace_with_text(token, text)),
                    value => {
                        if depth == 0 {
                            Err(TemplateNestError::RecursiveDefaults(token.name.clone()))
                        } else {
                            match self.render_value(value, depth - 1) {
                                Ok(text) => Ok(self.indent(token, text)),
                                Err(error) => Err(error),
                            }
                        }
                    },
                },
                None => Ok(Vec::new()),
            },
        }
    }

    /// Renders the values one after the other.
    fn render_all(&self, items: &Vec<Value>, depth: usize) -> (out: Result<
        Vec<char>,
        TemplateNestError,
    >)
        requires
            self.wf(),
        ensures
            match out {
                Ok(text) => rendered_all(self@, items@, depth as nat) == Ok::<Seq<char>, Failure>(
                    text@,
                ),
                Err(error) => rendered_all(self@, items@, depth as nat) == Err::<
                    Seq<char>,
                    Failure,
                >(error@),
            },
        decreases depth, items, 0nat,
    {
        let mut out: Vec<char> = Vec::new();
        let mut i: usize = 0;
        while i < items.len()
            invariant
                i <= items.len(),
                self.wf(),
                rendered_all(self@, items@.take(i as int), depth as nat) == Ok::<
                    Seq<char>,
                    Failure,
                >(out@),
            decreases items.len() - i,
        {
            proof {
                assert(items@.take(i + 1).drop_last() =~= items@.take(i as int));
                assert(items@.take(i + 1).last() == items@[i as int]);
            }
            match self.render_value(&items[i], depth) {
                Ok(text) => {
                    push_range(&mut out, &text, 0, text.len());
                    assert(text@.subrange(0, text@.len() as int) =~= text@);
                },
                Err(error) => {
                    proof {
                        rendered_all_fails(self@, items@, i + 1, depth as nat);
                    }
                    return Err(error);
                },
            }
            i += 1;
        }
        assert(items@.take(items@.len() as int) =~= items@);
        Ok(out)
    }

    /// Renders a value.
    fn render_value(&self, value: &Value, depth: usize) -> (out: Result<
        Vec<char>,
        TemplateNestError,
    >)
        requires
            self.wf(),
        ensures
            match out {
                Ok(text) => rendered(self@, *value, depth as nat) == Ok::<Seq<char>, Failure>(
                    text@,
                ),
                Err(error) => rendered(self@, *value, depth as nat) == Err::<Seq<char>, Failure>(
                    error@,
                ),
            },
        decreases depth, value, 0nat,
    {
        match value {
            Value::Text(text) => Ok(chars_of(text.as_str())),
            Value::List(items) => self.render_all(items, depth),
            Value::Keyed(entries) => {
                let at = match find_key(entries, &self.option.label) {
                    Some(at) => at,
                    None => {
                        return Err(TemplateNestError::NoNameLabel(self.option.label.clone()));
                    },
                };
                let name = match &entries[at].1 {
                    Value::Text(name) => name,
                    _ => {
                        return Err(TemplateNestError::InvalidNameLabel(self.option.label.clone()));
                    },
                };
                let held = match position_of(&self.cache, name) {
                    Some(held) => held,
                    None => {
                        return Err(
                            TemplateNestError::TemplateFileNotFound(
                                Self::template_name_to_file(&self.option, name.as_str()),
                            ),
                        );
                    },
                };
                let found = &self.cache[held].1;
                if self.option.die_on_bad_params {
                    match self.find_bad_key(entries, found) {
                        Some(bad) => {
                            return Err(TemplateNestError::BadParams(entries[bad].0.clone()));
                        },
                        None => {},
                    }
                }
                let body = match self.fill(entries, found, depth) {
                    Ok(body) => body,
                    Err(error) => {
                        return Err(error);
                    },
                };
                let mut out: Vec<char> = Vec::new();
                if self.option.show_labels {
                    let name = chars_of(name.as_str());
                    self.push_label_line(&mut out, "BEGIN", &name);
                    push_range(&mut out, &body, 0, body.len());
                    self.push_label_line(&mut out, "END", &name);
                } else {
                    push_range(&mut out, &body, 0, body.len());
                }
                assert(body@.subrange(0, body@.len() as int) =~= body@);
                assert(out@ =~= labelled(self@.option, name@, body@));
                let kept: usize = trimmed_end_of(&out, 0, out.len());
                assert(out@.subrange(0, out@.len() as int) =~= out@);
                out.truncate(kept);
                assert(out@ =~= trim_end(labelled(self@.option, name@, body@)));
                Ok(out)
            },
        }
    }

    /// Finds the first entry whose key is neither the name label nor a token
    /// of the template.
    fn find_bad_key(&self, entries: &Vec<(String, Value)>, found: &TemplateIndex) -> (bad: Option<
        usize,
    >)
        ensures
            match bad {
                Some(i) => i < entries@.len() && i == bad_key_position(
                    entries@,
                    self@.option.label@,
                    found@.known_names(),
                ),
                None => bad_key_position(entries@, self@.option.label@, found@.known_names()) < 0,
            },
    {
        let mut i: usize = 0;
        while i < entries.len()
            invariant
                i <= entries.len(),
                bad_key_position(
                    entries@.take(i as int),
                    self@.option.label@,
                    found@.known_names(),
                ) < 0,
            decreases entries.len() - i,
        {
            proof {
                assert(entries@.take(i + 1).drop_last() =~= entries@.take(i as int));
                assert(entries@.take(i + 1).last() == entries@[i as int]);
            }
            if entries[i].0 != self.option.label && !found.knows(&entries[i].0) {
                proof {
                    bad_key_position_prefix(
                        entries@,
                        i + 1,
                        self@.option.label@,
                        found@.known_names(),
                    );
                }
                return Some(i);
            }
            i += 1;
        }
        assert(entries@.take(entries@.len() as int) =~= entries@);
        None
    }

    /// Puts what replaces each token into the text of a template.
    fn fill(&self, entries: &Vec<(String, Value)>, found: &TemplateIndex, depth: usize) -> (out:
        Result<Vec<char>, TemplateNestError>)
        requires
            self.wf(),
            found@.wf(),
        ensures
            match out {
                Ok(text) => replacements(self@, entries@, found@.tokens, depth as nat) matches Ok(
                    parts,
                ) && text@ == filled(found@.contents, found@.tokens, parts),
                Err(error) => replacements(self@, entries@, found@.tokens, depth as nat) == Err::<
                    Seq<Seq<char>>,
                    Failure,
                >(error@),
            },
        decreases depth, entries, 1nat,
    {
        let count: usize = found.tokens.len();
        let size: usize = found.contents.len();
        let ghost tokens = found@.tokens;
        let ghost mut parts: Seq<Seq<char>> = Seq::empty();
        let mut tail: Vec<char> = Vec::new();
        let mut k: usize = count;
        assert(tokens.skip(k as int) =~= Seq::empty());
        while k > 0
            invariant
                k <= count == found.tokens@.len(),
                self.wf(),
                size == found.contents@.len(),
                tokens == found@.tokens,
                found@.wf(),
                replacements(self@, entries@, tokens.skip(k as int), depth as nat) == Ok::<
                    Seq<Seq<char>>,
                    Failure,
                >(parts),
                parts.len() == count - k,
                tail@ == spliced(found@.contents, tokens.skip(k as int), parts),
            decreases k,
        {
            let token = &found.tokens[k - 1];
            let ghost rest = tokens.skip(k as int);
            let ghost here = tokens.skip(k - 1);
            proof {
                assert(here.drop_first() =~= rest);
                assert(here.first() == token@);
                assert(tokens[k - 1] == token@);
            }
            let next: usize = if k < count {
                assert(tokens[k as int] == found.tokens@[k as int]@);
                found.tokens[k].start
            } else {
                size
            };
            match self.replace(entries, token, depth) {
                Ok(part) => {
                    let ghost first = part@;
                    let mut piece = part;
                    push_range(&mut piece, &found.contents, token.end, next);
                    push_range(&mut piece, &tail, 0, tail.len());
                    proof {
                        assert(tail@.subrange(0, tail@.len() as int) =~= tail@);
                        let longer = seq![first] + parts;
                        assert(longer.first() == first);
                        assert(longer.drop_first() =~= parts);
                        assert(here.len() > 1 ==> here[1] == tokens[k as int]);
                        parts = longer;
                    }
                    tail = piece;
                },
                Err(error) => {
                    proof {
                        failure_comes_out(
                            self@,
                            entries@,
                            tokens,
                            0,
                            k - 1,
                            depth as nat,
                            error@,
                        );
                        assert(tokens.skip(0) =~= tokens);
                    }
                    return Err(error);
                },
            }
            k -= 1;
        }
        let first: usize = if count > 0 {
            assert(tokens[0] == found.tokens@[0]@);
            found.tokens[0].start
        } else {
            size
        };
        let mut out: Vec<char> = Vec::new();
        push_range(&mut out, &found.contents, 0, first);
        push_range(&mut out, &tail, 0, tail.len());
        proof {
            assert(tokens.skip(0) =~= tokens);
            assert(tail@.subrange(0, tail@.len() as int) =~= tail@);
        }
        Ok(out)
    }

    /// Builds an engine from the settings and from what was found in the
    /// template directory: `None` where the directory does not exist, else
    /// its files. Every file whose path ends with a dot and the extension
    /// is indexed under its path without them; where the extension is empty,
    /// every file under its path.
    pub fn new(option: TemplateNestOption, found: Option<Vec<TemplateFile>>) -> (made: Result<
        Self,
        TemplateNestError,
    >)
        ensures
            match made {
                Ok(nest) => found matches Some(files) && nest.wf() && nest@.option == option
                    && nest@.templates == loaded(option, files@),
                Err(error) => found is None && error@ == Failure::TemplateDirNotFound(
                    option.directory@,
                ),
            },
    {
        let files = match found {
            Some(files) => files,
            None => {
                return Err(TemplateNestError::TemplateDirNotFound(option.directory.clone()));
            },
        };
        let mut cache: Vec<(String, TemplateIndex)> = Vec::new();
        let mut i: usize = 0;
        while i < files.len()
            invariant
                i <= files.len(),
                all_wf(cache@),
                cache_map(cache@) == loaded(option, files@.take(i as int)),
            decreases files.len() - i,
        {
            proof {
                assert(files@.take(i + 1).drop_last() =~= files@.take(i as int));
                assert(files@.take(i + 1).last() == files@[i as int]);
            }
            let file = &files[i];
            match template_name_of(file.path.as_str(), option.extension.as_str()) {
                Some(name) => {
                    let indexed = index(&option, file.contents.as_str(), file.modified);
                    put(&mut cache, name, indexed);
                },
                None => {},
            }
            i += 1;
        }
        assert(files@.take(files@.len() as int) =~= files@);
        Ok(TemplateNest { option, cache })
    }

    /// The settings of the engine.
    pub fn option(&self) -> (option: &TemplateNestOption)
        ensures
            *option == self@.option,
    {
        &self.option
    }

    /// The index that the engine holds of a template, if it holds one.
    pub fn template(&self, name: &String) -> (held: Option<&TemplateIndex>)
        requires
            self.wf(),
        ensures
            match held {
                Some(found) => self@.templates.dom().contains(name@) && found@
                    == self@.templates[name@] && found@.wf(),
                None => !self@.templates.dom().contains(name@),
            },
    {
        match position_of(&self.cache, name) {
            Some(held) => Some(&self.cache[held].1),
            None => None,
        }
    }

    /// Whether the template must be indexed anew: the engine does not hold
    /// it, or holds an index older than `modified`, the time at which the
    /// template's file was last modified.
    pub fn is_stale(&self, name: &String, modified: u64) -> (old: bool)
        ensures
            old == stale(self@, name@, modified),
    {
        match position_of(&self.cache, name) {
            Some(held) => self.cache[held].1.last_modified < modified,
            None => true,
        }
    }

    /// Indexes the template anew from the text of its file where the engine
    /// does not hold it or holds an older index, and leaves the engine as it
    /// is otherwise. Tells whether it indexed.
    pub fn update(&mut self, name: String, contents: &str, modified: u64) -> (indexed_anew: bool)
        requires
            old(self).wf(),
        ensures
            final(self).wf(),
            indexed_anew == stale(old(self)@, name@, modified),
            final(self)@.option == old(self)@.option,
            final(self)@.templates == if indexed_anew {
                old(self)@.templates.insert(
                    name@,
                    indexed(contents@, old(self)@.option.syntax(), modified),
                )
            } else {
                old(self)@.templates
            },
    {
        if !self.is_stale(&name, modified) {
            return false;
        }
        let found = index(&self.option, contents, modified);
        put(&mut self.cache, name, found);
        true
    }

    /// Renders a value: a text as it is, a list as the texts of its values
    /// one after the other, a keyed value as the text of its template with
    /// each token replaced, without trailing white space.
    ///
    /// Defaults that are no texts are rendered one inside the other at most
    /// as many deep as the settings hold defaults. A deeper nesting would
    /// render one default inside itself, and so without end: it fails with
    /// `RecursiveDefaults`.
    pub fn render(&self, to_render: &Value) -> (out: Result<String, TemplateNestError>)
        requires
            self.wf(),
        ensures
            match out {
                Ok(text) => rendered(self@, *to_render, self@.option.defaults@.len()) == Ok::<
                    Seq<char>,
                    Failure,
                >(text@),
                Err(error) => rendered(self@, *to_render, self@.option.defaults@.len()) == Err::<
                    Seq<char>,
                    Failure,
                >(error@),
            },
    {
        match self.render_value(to_render, self.option.defaults.len()) {
            Ok(text) => Ok(string_of(&text)),
            Err(error) => Err(error),
        }
    }

    /// The name of the file that holds a template: the template's name, then
    /// a dot and the extension unless the extension is empty.
    pub fn template_name_to_file(option: &TemplateNestOption, template_name: &str) -> (file:
        String)
        ensures
            file@ == file_name(template_name@, option.extension@),
    {
        let mut file = chars_of(template_name);
        let extension = chars_of(option.extension.as_str());
        if extension.len() > 0 {
            file.push('.');
            push_range(&mut file, &extension, 0, extension.len());
            assert(extension@.subrange(0, extension@.len() as int) =~= extension@);
        }
        string_of(&file)
    }
}

/// Where one of the first `n` values fails, rendering all of them fails in
/// the same way.
proof fn rendered_all_fails(nest: NestView, items: Seq<Value>, n: int, depth: nat)
    requires
        0 <= n <= items.len(),
        rendered_all(nest, items.take(n), depth) is Err,
    ensures
        rendered_all(nest, items, depth) == rendered_all(nest, items.take(n), depth),
    decreases items.len() - n,
{
    if n < items.len() {
        assert(items.take(n + 1).drop_last() =~= items.take(n));
        rendered_all_fails(nest, items, n + 1, depth);
    } else {
        assert(items.take(n) =~= items);
    }
}

/// An entry refused among the first `n` entries is the one refused among
/// all.
proof fn bad_key_position_prefix(
    entries: Seq<(String, Value)>,
    n: int,
    label: Seq<char>,
    known: Set<Seq<char>>,
)
    requires
        0 <= n <= entries.len(),
        bad_key_position(entries.take(n), label, known) >= 0,
    ensures
        bad_key_position(entries, label, known) == bad_key_position(entries.take(n), label, known),
    decreases entries.len() - n,
{
    if n < entries.len() {
        assert(entries.take(n + 1).drop_last() =~= entries.take(n));
        bad_key_position_prefix(entries, n + 1, label, known);
    } else {
        assert(entries.take(n) =~= entries);
    }
}

} // verus!
