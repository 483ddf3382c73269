//! What holds of rendering for all engines and values.

use crate::error::Failure;
use crate::index::{
    closing, indexed, is_escaped, one_line, spans_ordered, steps_to, steps_to_is_first, token_at,
    tokens_from, Syntax, TokenView,
};
use crate::nest::stale;
use crate::option::TemplateNestOption;
use crate::render::{
    bad_key_position, filled, indented, label_line, labelled, leaf, rendered, rendered_all,
    replaced_backwards, replacement, replacements, splice, spliced, text_before, text_behind,
    NestView,
};
use crate::text::{is_white_space, leading_white, matches_at, trim_end, trimmed_len};
use crate::value::{key_position, key_position_is_first, Value};
use vstd::prelude::*;

verus! {

/// A text renders as itself.
pub proof fn text_renders_as_itself(nest: NestView, text: String, depth: nat)
    ensures
        rendered(nest, Value::Text(text), depth) == Ok::<Seq<char>, Failure>(text@),
{
}

/// A list of two values renders as the text of the first followed by the
/// text of the second. Where the first fails, the list fails as it does;
/// where only the second fails, as the second does.
pub proof fn pair_renders_as_concatenation(
    nest: NestView,
    items: Vec<Value>,
    first: Value,
    second: Value,
    depth: nat,
)
    requires
        items@ == seq![first, second],
    ensures
        rendered(nest, Value::List(items), depth) == match rendered(nest, first, depth) {
            Ok(a) => match rendered(nest, second, depth) {
                Ok(b) => Ok::<Seq<char>, Failure>(a + b),
                Err(failure) => Err(failure),
            },
            Err(failure) => Err(failure),
        },
{
    let one = items@.drop_last();
    assert(one =~= seq![first]);
    assert(one.drop_last() =~= Seq::<Value>::empty());
    assert(one.last() == first);
    assert(items@.last() == second);
    reveal_with_fuel(rendered_all, 3);
    match rendered(nest, first, depth) {
        Ok(a) => {
            assert(Seq::<char>::empty() + a =~= a);
            assert(rendered_all(nest, one, depth) == Ok::<Seq<char>, Failure>(a));
        },
        Err(failure) => {
            assert(rendered_all(nest, one, depth) == Err::<Seq<char>, Failure>(failure));
        },
    }
}

/// Values one after the other render as the text of the first of them
/// followed by the text of the rest, whatever the place at which they are
/// parted. Where one of the first fails, all fail as the first do; where only
/// one of the rest fails, as the rest do.
pub proof fn lists_render_as_concatenation(
    nest: NestView,
    first: Seq<Value>,
    rest: Seq<Value>,
    depth: nat,
)
    ensures
        rendered_all(nest, first + rest, depth) == match rendered_all(nest, first, depth) {
            Ok(a) => match rendered_all(nest, rest, depth) {
                Ok(b) => Ok::<Seq<char>, Failure>(a + b),
                Err(failure) => Err(failure),
            },
            Err(failure) => Err(failure),
        },
    decreases rest.len(),
{
    if rest.len() == 0 {
        assert(first + rest =~= first);
        match rendered_all(nest, first, depth) {
            Ok(a) => {
                assert(a + Seq::<char>::empty() =~= a);
            },
            Err(failure) => {},
        }
    } else {
        let all = first + rest;
        assert(all.drop_last() =~= first + rest.drop_last());
        assert(all.last() == rest.last());
        lists_render_as_concatenation(nest, first, rest.drop_last(), depth);
        match rendered_all(nest, first, depth) {
            Ok(a) => match rendered_all(nest, rest.drop_last(), depth) {
                Ok(b) => match rendered(nest, rest.last(), depth) {
                    Ok(c) => {
                        assert((a + b) + c =~= a + (b + c));
                    },
                    Err(failure) => {},
                },
                Err(failure) => {},
            },
            Err(failure) => {},
        }
    }
}

/// A token for which the keyed value has no entry and the settings have no
/// default is replaced by nothing.
pub proof fn missing_token_is_replaced_by_nothing(
    nest: NestView,
    entries: Seq<(String, Value)>,
    token: TokenView,
    depth: nat,
)
    requires
        key_position(entries, token.name) < 0,
        key_position(nest.option.defaults@, token.name) < 0,
    ensures
        replacement(nest, entries, token, depth) == Ok::<Seq<char>, Failure>(Seq::empty()),
{
}

/// A token for which the keyed value has no entry is replaced by the default
/// under its name: a text as it is (escaped and indented as the settings
/// say), another value as it renders.
pub proof fn default_replaces_missing_entry(
    nest: NestView,
    entries: Seq<(String, Value)>,
    token: TokenView,
    depth: nat,
)
    requires
        !token.escaped,
        key_position(entries, token.name) < 0,
        0 <= key_position(nest.option.defaults@, token.name) < nest.option.defaults@.len(),
        depth > 0,
    ensures
        replacement(nest, entries, token, depth) == match nest.option.defaults@[key_position(
            nest.option.defaults@,
            token.name,
        )].1 {
            Value::Text(text) => Ok::<Seq<char>, Failure>(
                indented(nest.option, token, leaf(nest.option, text@)),
            ),
            value => match rendered(nest, value, (depth - 1) as nat) {
                Ok(text) => Ok(indented(nest.option, token, text)),
                Err(failure) => Err(failure),
            },
        },
{
}

/// A token for which the keyed value has an entry is replaced by that entry,
/// whatever the defaults hold.
pub proof fn given_entry_wins_over_default(
    nest: NestView,
    entries: Seq<(String, Value)>,
    token: TokenView,
    depth: nat,
)
    requires
        !token.escaped,
        0 <= key_position(entries, token.name) < entries.len(),
    ensures
        replacement(nest, entries, token, depth) == match entries[key_position(
            entries,
            token.name,
        )].1 {
            Value::Text(text) => Ok::<Seq<char>, Failure>(
                indented(nest.option, token, leaf(nest.option, text@)),
            ),
            value => match rendered(nest, value, depth) {
                Ok(text) => Ok(indented(nest.option, token, text)),
                Err(failure) => Err(failure),
            },
        },
{
}

/// An escaped token stands for the escape text in front of it, and is
/// replaced by nothing, whatever the keyed value and the defaults hold: the
/// token's own text stays as it is.
pub proof fn escaped_token_keeps_its_text(
    nest: NestView,
    entries: Seq<(String, Value)>,
    text: Seq<char>,
    syntax: Syntax,
    floor: int,
    pos: int,
    close: int,
    depth: nat,
)
    requires
        is_escaped(text, syntax, floor, pos),
    ensures
        token_at(text, syntax, floor, pos, close).escaped,
        token_at(text, syntax, floor, pos, close).end == pos,
        text.subrange(
            token_at(text, syntax, floor, pos, close).start,
            token_at(text, syntax, floor, pos, close).end,
        ) == syntax.escape,
        replacement(nest, entries, token_at(text, syntax, floor, pos, close), depth) == Ok::<
            Seq<char>,
            Failure,
        >(Seq::empty()),
{
}

/// With strict validation, a keyed value that holds a key which is neither
/// the name label nor a token of its template fails, and the failure names
/// the first such key.
pub proof fn unknown_key_is_refused(
    nest: NestView,
    entries: Vec<(String, Value)>,
    name: String,
    unknown: int,
    depth: nat,
)
    requires
        nest.option.die_on_bad_params,
        0 <= key_position(entries@, nest.option.label@) < entries@.len(),
        entries@[key_position(entries@, nest.option.label@)].1 == Value::Text(name),
        nest.templates.dom().contains(name@),
        0 <= unknown < entries@.len(),
        entries@[unknown].0@ != nest.option.label@,
        !nest.templates[name@].known_names().contains(entries@[unknown].0@),
    ensures
        0 <= bad_key_position(entries@, nest.option.label@, nest.templates[name@].known_names())
            <= unknown,
        rendered(nest, Value::Keyed(entries), depth) == Err::<Seq<char>, Failure>(
            Failure::BadParams(
                entries@[bad_key_position(
                    entries@,
                    nest.option.label@,
                    nest.templates[name@].known_names(),
                )].0@,
            ),
        ),
{
    bad_key_position_is_first(
        entries@,
        nest.option.label@,
        nest.templates[name@].known_names(),
        unknown,
    );
}

/// `bad_key_position` is at or before every entry that validation refuses.
pub proof fn bad_key_position_is_first(
    entries: Seq<(String, Value)>,
    label: Seq<char>,
    known: Set<Seq<char>>,
    unknown: int,
)
    requires
        0 <= unknown < entries.len(),
        entries[unknown].0@ != label,
        !known.contains(entries[unknown].0@),
    ensures
        0 <= bad_key_position(entries, label, known) <= unknown,
    decreases entries.len(),
{
    if unknown < entries.len() - 1 {
        assert(entries.drop_last()[unknown] == entries[unknown]);
        bad_key_position_is_first(entries.drop_last(), label, known, unknown);
    } else {
        bad_key_position_bounds(entries.drop_last(), label, known);
    }
}

/// `bad_key_position` gives -1 or a position among the entries.
proof fn bad_key_position_bounds(
    entries: Seq<(String, Value)>,
    label: Seq<char>,
    known: Set<Seq<char>>,
)
    ensures
        -1 <= bad_key_position(entries, label, known) < entries.len(),
    decreases entries.len(),
{
    if entries.len() > 0 {
        bad_key_position_bounds(entries.drop_last(), label, known);
    }
}

/// An entry whose key is no token of the template changes nothing of what
/// replaces the tokens.
pub proof fn unknown_key_is_ignored(
    nest: NestView,
    entries: Seq<(String, Value)>,
    extra: (String, Value),
    tokens: Seq<TokenView>,
    depth: nat,
)
    requires
        forall|i: int|
            0 <= i < tokens.len() ==> (#[trigger] tokens[i]).escaped || tokens[i].name != extra.0@,
    ensures
        replacements(nest, entries.push(extra), tokens, depth) == replacements(
            nest,
            entries,
            tokens,
            depth,
        ),
    decreases tokens.len(),
{
    if tokens.len() > 0 {
        let rest = tokens.drop_first();
        assert forall|i: int| 0 <= i < rest.len() implies (#[trigger] rest[i]).escaped
            || rest[i].name != extra.0@ by {
            assert(rest[i] == tokens[i + 1]);
        }
        unknown_key_is_ignored(nest, entries, extra, rest, depth);
        let token = tokens.first();
        assert(token == tokens[0]);
        let more = entries.push(extra);
        assert(more.drop_last() =~= entries);
        assert(more.last() == extra);
        key_position_is_first(entries, token.name);
        let at = key_position(entries, token.name);
        if !token.escaped {
            assert(key_position(more, token.name) == at);
        }
        if at >= 0 {
            assert(more[at] == entries[at]);
        }
        assert(replacement(nest, more, token, depth) == replacement(nest, entries, token, depth));
        assert(replacements(nest, more, rest, depth) == replacements(nest, entries, rest, depth));
    }
}

/// Without strict validation, a keyed value renders as it does without an
/// entry whose key is neither the name label nor a token of its template.
pub proof fn unknown_entry_changes_nothing(
    nest: NestView,
    entries: Vec<(String, Value)>,
    more: Vec<(String, Value)>,
    extra: (String, Value),
    name: String,
    depth: nat,
)
    requires
        !nest.option.die_on_bad_params,
        more@ == entries@.push(extra),
        extra.0@ != nest.option.label@,
        0 <= key_position(entries@, nest.option.label@) < entries@.len(),
        entries@[key_position(entries@, nest.option.label@)].1 == Value::Text(name),
        nest.templates.dom().contains(name@),
        !nest.templates[name@].known_names().contains(extra.0@),
    ensures
        rendered(nest, Value::Keyed(more), depth) == rendered(nest, Value::Keyed(entries), depth),
{
    let label = nest.option.label@;
    assert(more@.drop_last() =~= entries@);
    assert(more@.last() == extra);
    key_position_is_first(entries@, label);
    let at = key_position(entries@, label);
    assert(key_position(more@, label) == at);
    assert(more@[at] == entries@[at]);
    let tokens = nest.templates[name@].tokens;
    assert forall|i: int| 0 <= i < tokens.len() implies (#[trigger] tokens[i]).escaped
        || tokens[i].name != extra.0@ by {
        if !tokens[i].escaped && tokens[i].name == extra.0@ {
            assert(nest.templates[name@].known_names().contains(extra.0@));
        }
    }
    unknown_key_is_ignored(nest, entries@, extra, tokens, depth);
}

/// With labels, the text of a template stands between two comment lines that
/// name it; without them it is the same text without those two lines.
pub proof fn labels_wrap_the_text(
    with: TemplateNestOption,
    without: TemplateNestOption,
    name: Seq<char>,
    text: Seq<char>,
)
    requires
        with.show_labels,
        !without.show_labels,
        with.comment_delimiters == without.comment_delimiters,
    ensures
        labelled(without, name, text) == text,
        labelled(with, name, text) == label_line(with, "BEGIN"@, name) + labelled(
            without,
            name,
            text,
        ) + label_line(with, "END"@, name),
{
}

/// Once an engine has indexed a template anew, a keyed value that names the
/// template renders from the new text.
pub proof fn update_is_rendered(
    before: NestView,
    after: NestView,
    name: String,
    contents: Seq<char>,
    modified: u64,
    entries: Vec<(String, Value)>,
    depth: nat,
)
    requires
        after.option == before.option,
        stale(before, name@, modified),
        after.templates == before.templates.insert(
            name@,
            indexed(contents, before.option.syntax(), modified),
        ),
        !after.option.die_on_bad_params,
        0 <= key_position(entries@, after.option.label@) < entries@.len(),
        entries@[key_position(entries@, after.option.label@)].1 == Value::Text(name),
    ensures
        !stale(after, name@, modified),
        rendered(after, Value::Keyed(entries), depth) == match replacements(
            after,
            entries@,
            indexed(contents, after.option.syntax(), modified).tokens,
            depth,
        ) {
            Ok(parts) => Ok::<Seq<char>, Failure>(
                trim_end(
                    labelled(
                        after.option,
                        name@,
                        filled(
                            contents,
                            indexed(contents, after.option.syntax(), modified).tokens,
                            parts,
                        ),
                    ),
                ),
            ),
            Err(failure) => Err(failure),
        },
{
}

/// Behind a single token stands the rest of the text.
proof fn spliced_one(contents: Seq<char>, tokens: Seq<TokenView>, parts: Seq<Seq<char>>)
    requires
        tokens.len() == 1,
        parts.len() == 1,
    ensures
        spliced(contents, tokens, parts) == parts[0] + contents.subrange(
            tokens[0].end,
            contents.len() as int,
        ),
{
    assert(spliced(contents, tokens.drop_first(), parts.drop_first()) =~= Seq::<char>::empty());
    assert(spliced(contents, tokens, parts) =~= parts[0] + contents.subrange(
        tokens[0].end,
        contents.len() as int,
    ));
}

/// Replacing the span of a token that lies behind all of `tokens` changes
/// nothing of the text that they give but its end.
proof fn spliced_with_one_more(
    contents: Seq<char>,
    tokens: Seq<TokenView>,
    parts: Seq<Seq<char>>,
    token: TokenView,
    part: Seq<char>,
)
    requires
        tokens.len() > 0,
        parts.len() == tokens.len(),
        spans_ordered(tokens, 0, token.start),
        token.start <= token.end <= contents.len(),
    ensures
        spliced(splice(contents, token.start, token.end, part), tokens, parts) == spliced(
            contents,
            tokens.push(token),
            parts.push(part),
        ),
    decreases tokens.len(),
{
    let changed = splice(contents, token.start, token.end, part);
    let more = tokens.push(token);
    let more_parts = parts.push(part);
    assert(more.drop_first() =~= tokens.drop_first().push(token));
    assert(more_parts.drop_first() =~= parts.drop_first().push(part));
    assert(more[0] == tokens[0]);
    assert(more_parts.first() == parts.first());
    if tokens.len() > 1 {
        let rest = tokens.drop_first();
        assert forall|i: int| 0 <= i < rest.len() implies 0 <= (#[trigger] rest[i]).start
            <= rest[i].end <= token.start by {
            assert(rest[i] == tokens[i + 1]);
        }
        assert forall|i: int, j: int| 0 <= i < j < rest.len() implies (#[trigger] rest[i]).end <= (
        #[trigger] rest[j]).start by {
            assert(rest[i] == tokens[i + 1]);
            assert(rest[j] == tokens[j + 1]);
        }
        spliced_with_one_more(contents, rest, parts.drop_first(), token, part);
        assert(more[1] == tokens[1]);
        assert(tokens[0].end <= tokens[1].start);
        assert(changed.subrange(tokens[0].end, tokens[1].start) =~= contents.subrange(
            tokens[0].end,
            tokens[1].start,
        ));
    } else {
        assert(more[1] == token);
        assert(tokens.drop_first() =~= Seq::<TokenView>::empty());
        let last = more.drop_first();
        assert(last =~= seq![token]);
        assert(last.drop_first() =~= Seq::<TokenView>::empty());
        assert(more_parts.drop_first() =~= seq![part]);
        spliced_one(contents, last, more_parts.drop_first());
        spliced_one(changed, tokens, parts);
        assert(changed.subrange(tokens[0].end, changed.len() as int) =~= contents.subrange(
            tokens[0].end,
            token.start,
        ) + part + contents.subrange(token.end, contents.len() as int));
        assert(spliced(changed, tokens, parts) =~= spliced(contents, more, more_parts));
    }
}

/// Replacing the spans in the text itself, from the last token to the first,
/// gives the text in which the parts stand in place of the tokens: no
/// replacement moves a span that is still to be replaced.
pub proof fn replacing_backwards_fills(
    contents: Seq<char>,
    tokens: Seq<TokenView>,
    parts: Seq<Seq<char>>,
)
    requires
        spans_ordered(tokens, 0, contents.len() as int),
        parts.len() == tokens.len(),
    ensures
        replaced_backwards(contents, tokens, parts) == filled(contents, tokens, parts),
    decreases tokens.len(),
{
    if tokens.len() == 0 {
        assert(filled(contents, tokens, parts) =~= contents);
    } else {
        let token = tokens.last();
        let part = parts.last();
        let before = tokens.drop_last();
        let before_parts = parts.drop_last();
        let changed = splice(contents, token.start, token.end, part);
        assert(token == tokens[tokens.len() - 1]);
        assert forall|i: int| 0 <= i < before.len() implies 0 <= (#[trigger] before[i]).start
            <= before[i].end <= token.start by {
            assert(before[i] == tokens[i]);
        }
        assert forall|i: int, j: int| 0 <= i < j < before.len() implies (
        #[trigger] before[i]).end <= (#[trigger] before[j]).start by {
            assert(before[i] == tokens[i]);
            assert(before[j] == tokens[j]);
        }
        replacing_backwards_fills(changed, before, before_parts);
        assert(before.push(token) =~= tokens);
        assert(before_parts.push(part) =~= parts);
        if before.len() == 0 {
            assert(tokens.drop_first() =~= Seq::<TokenView>::empty());
            assert(filled(changed, before, before_parts) =~= changed);
            spliced_one(contents, tokens, parts);
            assert(filled(contents, tokens, parts) =~= changed);
        } else {
            spliced_with_one_more(contents, before, before_parts, token, part);
            assert(before[0] == tokens[0]);
            assert(changed.subrange(0, tokens[0].start) =~= contents.subrange(0, tokens[0].start));
        }
    }
}

/// The text that the tokens from `from` on give is the text that those
/// before token `at` give within the text up to that token, followed by the
/// text that the tokens from `at` on give.
proof fn spliced_splits(
    contents: Seq<char>,
    tokens: Seq<TokenView>,
    parts: Seq<Seq<char>>,
    from: int,
    at: int,
)
    requires
        spans_ordered(tokens, 0, contents.len() as int),
        parts.len() == tokens.len(),
        0 <= from <= at < tokens.len(),
    ensures
        spliced(contents, tokens.skip(from), parts.skip(from)) == spliced(
            contents.take(tokens[at].start),
            tokens.take(at).skip(from),
            parts.take(at).skip(from),
        ) + spliced(contents, tokens.skip(at), parts.skip(at)),
    decreases at - from,
{
    let front = contents.take(tokens[at].start);
    let all = tokens.skip(from);
    let some = tokens.take(at).skip(from);
    if from == at {
        assert(spliced(front, some, parts.take(at).skip(from)) =~= Seq::<char>::empty());
        assert(Seq::<char>::empty() + spliced(contents, all, parts.skip(from)) =~= spliced(
            contents,
            all,
            parts.skip(from),
        ));
    } else {
        spliced_splits(contents, tokens, parts, from + 1, at);
        assert(all.drop_first() =~= tokens.skip(from + 1));
        assert(parts.skip(from).drop_first() =~= parts.skip(from + 1));
        assert(some.drop_first() =~= tokens.take(at).skip(from + 1));
        assert(parts.take(at).skip(from).drop_first() =~= parts.take(at).skip(from + 1));
        assert(all[0] == tokens[from] && all[1] == tokens[from + 1]);
        assert(some[0] == tokens[from]);
        assert(parts.skip(from).first() == parts.take(at).skip(from).first());
        assert(tokens[from].end <= tokens[from + 1].start);
        if from + 1 < at {
            assert(some[1] == tokens[from + 1]);
            assert(tokens[from + 1].end <= tokens[at].start);
        }
        assert(front.subrange(tokens[from].end, tokens[from + 1].start) =~= contents.subrange(
            tokens[from].end,
            tokens[from + 1].start,
        ));
        let head = parts[from] + contents.subrange(tokens[from].end, tokens[from + 1].start);
        assert(spliced(contents, all, parts.skip(from)) =~= head + spliced(
            contents,
            tokens.skip(from + 1),
            parts.skip(from + 1),
        ));
        assert(spliced(front, some, parts.take(at).skip(from)) =~= head + spliced(
            front,
            tokens.take(at).skip(from + 1),
            parts.take(at).skip(from + 1),
        ));
        assert(spliced(contents, all, parts.skip(from)) =~= spliced(
            front,
            some,
            parts.take(at).skip(from),
        ) + spliced(contents, tokens.skip(at), parts.skip(at)));
    }
}

/// The filled text of a template is, for each token: the filled text in
/// front of it, what replaces it, and the filled text behind it. What stands
/// in front and behind does not depend on what replaces the token: a token
/// replaced by nothing leaves the text around it as it is.
pub proof fn filled_around_token(
    contents: Seq<char>,
    tokens: Seq<TokenView>,
    parts: Seq<Seq<char>>,
    other: Seq<char>,
    at: int,
)
    requires
        spans_ordered(tokens, 0, contents.len() as int),
        parts.len() == tokens.len(),
        0 <= at < tokens.len(),
    ensures
        filled(contents, tokens, parts) == text_before(contents, tokens, parts, at) + parts[at]
            + text_behind(contents, tokens, parts, at),
        text_before(contents, tokens, parts.update(at, other), at) == text_before(
            contents,
            tokens,
            parts,
            at,
        ),
        text_behind(contents, tokens, parts.update(at, other), at) == text_behind(
            contents,
            tokens,
            parts,
            at,
        ),
        at == 0 ==> text_before(contents, tokens, parts, at) == contents.take(tokens[at].start),
{
    let front = contents.take(tokens[at].start);
    spliced_splits(contents, tokens, parts, 0, at);
    assert(tokens.skip(0) =~= tokens);
    assert(parts.skip(0) =~= parts);
    assert(tokens.take(at).skip(0) =~= tokens.take(at));
    assert(parts.take(at).skip(0) =~= parts.take(at));
    let here = tokens.skip(at);
    assert(here[0] == tokens[at]);
    assert(here.drop_first() =~= tokens.skip(at + 1));
    assert(parts.skip(at).drop_first() =~= parts.skip(at + 1));
    assert(parts.skip(at).first() == parts[at]);
    if at + 1 < tokens.len() {
        assert(here[1] == tokens[at + 1]);
    }
    assert(spliced(contents, here, parts.skip(at)) =~= parts[at] + text_behind(
        contents,
        tokens,
        parts,
        at,
    ));
    if at > 0 {
        assert(tokens.take(at)[0] == tokens[0]);
        assert(tokens[0].end <= tokens[at].start);
        assert(front.subrange(0, tokens[0].start) =~= contents.subrange(0, tokens[0].start));
    } else {
        assert(front.subrange(0, front.len() as int) =~= contents.subrange(0, tokens[0].start));
        assert(spliced(front, tokens.take(at), parts.take(at)) =~= Seq::<char>::empty());
        assert(text_before(contents, tokens, parts, at) =~= front);
    }
    assert(filled(contents, tokens, parts) =~= text_before(contents, tokens, parts, at) + parts[at]
        + text_behind(contents, tokens, parts, at));
    assert(parts.update(at, other).take(at) =~= parts.take(at));
    assert(parts.update(at, other).skip(at + 1) =~= parts.skip(at + 1));
}

/// Where the pattern first stands at `at` from `from` on, `steps_to` counts
/// the positions up to `at`.
proof fn steps_to_first(text: Seq<char>, pattern: Seq<char>, from: int, at: int)
    requires
        from <= at,
        matches_at(text, pattern, at),
        forall|k: int| from <= k < at ==> !matches_at(text, pattern, k),
    ensures
        from + steps_to(text, pattern, from) == at,
    decreases at - from,
{
    if from < at {
        steps_to_first(text, pattern, from + 1, at);
    }
}

/// A token opens at `pos` and closes at `close` exactly where the opening
/// text stands at `pos`, the closing text stands at `close`, at least one
/// character lies between the two, the closing text stands nowhere between
/// the first of those characters and `close`, and no line feed lies between
/// the two delimiters.
pub proof fn closing_is_the_first(text: Seq<char>, syntax: Syntax, pos: int, close: int)
    ensures
        closing(text, syntax, pos) == Some(close) <==> {
            &&& matches_at(text, syntax.open, pos)
            &&& pos + syntax.open.len() < close
            &&& matches_at(text, syntax.close, close)
            &&& forall|k: int|
                pos + syntax.open.len() < k < close ==> !matches_at(text, syntax.close, k)
            &&& one_line(text, pos + syntax.open.len(), close)
        },
{
    let inside = pos + syntax.open.len();
    steps_to_is_first(text, syntax.close, inside + 1);
    if matches_at(text, syntax.open, pos) && inside < close && matches_at(text, syntax.close, close)
        && (forall|k: int| inside < k < close ==> !matches_at(text, syntax.close, k)) {
        steps_to_first(text, syntax.close, inside + 1, close);
    }
}

/// A result that rendering gives within a bound on the defaults rendered one
/// inside the other is the result within every larger bound.
pub proof fn deeper_renders_the_same(nest: NestView, value: Value, depth: nat)
    requires
        rendered(nest, value, depth) is Ok,
    ensures
        rendered(nest, value, depth + 1) == rendered(nest, value, depth),
    decreases depth, value, 0nat,
{
    match value {
        Value::Text(text) => {},
        Value::List(items) => {
            deeper_renders_all_the_same(nest, items@, depth);
        },
        Value::Keyed(entries) => {
            let at = key_position(entries@, nest.option.label@);
            if 0 <= at < entries@.len() {
                match entries@[at].1 {
                    Value::Text(name) => {
                        if nest.templates.dom().contains(name@) {
                            deeper_replaces_all_the_same(
                                nest,
                                entries@,
                                nest.templates[name@].tokens,
                                depth,
                            );
                        }
                    },
                    _ => {},
                }
            }
        },
    }
}

/// Values that render one after the other within a bound render to the same
/// text within every larger bound.
pub proof fn deeper_renders_all_the_same(nest: NestView, items: Seq<Value>, depth: nat)
    requires
        rendered_all(nest, items, depth) is Ok,
    ensures
        rendered_all(nest, items, depth + 1) == rendered_all(nest, items, depth),
    decreases depth, items, items.len(),
{
    if items.len() > 0 {
        deeper_renders_all_the_same(nest, items.drop_last(), depth);
        deeper_renders_the_same(nest, items.last(), depth);
    }
}

/// What replaces the tokens within a bound replaces them within every larger
/// bound.
pub proof fn deeper_replaces_all_the_same(
    nest: NestView,
    entries: Seq<(String, Value)>,
    tokens: Seq<TokenView>,
    depth: nat,
)
    requires
        replacements(nest, entries, tokens, depth) is Ok,
    ensures
        replacements(nest, entries, tokens, depth + 1) == replacements(
            nest,
            entries,
            tokens,
            depth,
        ),
    decreases depth, entries, tokens.len(),
{
    if tokens.len() > 0 {
        deeper_replaces_all_the_same(nest, entries, tokens.drop_first(), depth);
        deeper_replaces_the_same(nest, entries, tokens.first(), depth);
    }
}

/// What replaces a token within a bound replaces it within every larger
/// bound.
pub proof fn deeper_replaces_the_same(
    nest: NestView,
    entries: Seq<(String, Value)>,
    token: TokenView,
    depth: nat,
)
    requires
        replacement(nest, entries, token, depth) is Ok,
    ensures
        replacement(nest, entries, token, depth + 1) == replacement(nest, entries, token, depth),
    decreases depth, entries, 0nat,
{
    let given = key_position(entries, token.name);
    let fallback = key_position(nest.option.defaults@, token.name);
    if token.escaped {
    } else if 0 <= given < entries.len() {
        match entries[given].1 {
            Value::Text(text) => {},
            _ => {
                deeper_renders_the_same(nest, entries[given].1, depth);
            },
        }
    } else if 0 <= fallback < nest.option.defaults@.len() {
        match nest.option.defaults@[fallback].1 {
            Value::Text(text) => {},
            _ => {
                deeper_renders_the_same(
                    nest,
                    nest.option.defaults@[fallback].1,
                    (depth - 1) as nat,
                );
            },
        }
    }
}

/// The tokens of a text begin with the leftmost token that opens, and go on
/// with the tokens behind its end.
pub proof fn leftmost_token_comes_first(
    text: Seq<char>,
    syntax: Syntax,
    floor: int,
    cursor: int,
    pos: int,
    close: int,
)
    requires
        0 <= cursor <= pos,
        closing(text, syntax, pos) == Some(close),
        forall|p: int| cursor <= p < pos ==> closing(text, syntax, p) is None,
    ensures
        tokens_from(text, syntax, floor, cursor) == seq![
            token_at(text, syntax, floor, pos, close),
        ] + tokens_from(
            text,
            syntax,
            close + syntax.close.len(),
            close + syntax.close.len(),
        ),
    decreases pos - cursor,
{
    if cursor < pos {
        leftmost_token_comes_first(text, syntax, floor, cursor + 1, pos, close);
    }
}

/// A text in which no token opens from `cursor` on has no tokens there.
pub proof fn no_token_where_none_opens(text: Seq<char>, syntax: Syntax, floor: int, cursor: int)
    requires
        forall|p: int| cursor <= p < text.len() ==> closing(text, syntax, p) is None,
    ensures
        tokens_from(text, syntax, floor, cursor) == Seq::<TokenView>::empty(),
    decreases text.len() - cursor,
{
    if 0 <= cursor < text.len() {
        no_token_where_none_opens(text, syntax, floor, cursor + 1);
    }
}

/// Trimming at the end takes away white space only, and all of it: what is
/// left does not end with white space, and what is taken away is white space.
pub proof fn trimmed_len_bounds(text: Seq<char>)
    ensures
        0 <= trimmed_len(text) <= text.len(),
        trimmed_len(text) > 0 ==> !is_white_space(text[trimmed_len(text) - 1]),
        forall|k: int| trimmed_len(text) <= k < text.len() ==> is_white_space(text[k]),
    decreases text.len(),
{
    if text.len() > 0 && is_white_space(text.last()) {
        let rest = text.drop_last();
        trimmed_len_bounds(rest);
        assert forall|k: int| trimmed_len(text) <= k < text.len() implies is_white_space(
            text[k],
        ) by {
            if k < rest.len() {
                assert(text[k] == rest[k]);
            }
        }
    }
}

/// The leading white space of a text is white space only, and all of it:
/// what follows it does not begin with white space.
pub proof fn leading_white_bounds(text: Seq<char>)
    ensures
        0 <= leading_white(text) <= text.len(),
        leading_white(text) < text.len() ==> !is_white_space(text[leading_white(text)]),
        forall|k: int| 0 <= k < leading_white(text) ==> is_white_space(text[k]),
    decreases text.len(),
{
    if text.len() > 0 && is_white_space(text.first()) {
        leading_white_bounds(text.drop_first());
        let rest = text.drop_first();
        assert forall|k: int| 0 <= k < leading_white(text) implies is_white_space(text[k]) by {
            if k > 0 {
                assert(text[k] == rest[k - 1]);
            }
        }
    }
}

} // verus!
