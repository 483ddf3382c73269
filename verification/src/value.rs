//! The tree of values that is rendered.

use vstd::prelude::*;

verus! {

/// What can be rendered: a text, a list of values, or a keyed value, which
/// names a template and holds what goes in place of the template's tokens.
#[derive(Debug)]
pub enum Value {
    /// A text, rendered as it is.
    Text(String),
    /// Values rendered one after the other.
    List(Vec<Value>),
    /// Entries of a key and a value, in the order in which they are checked.
    /// Of two entries with one key the first counts.
    Keyed(Vec<(String, Value)>),
}

/// The position of the first entry under `key`, or -1 where there is none.
pub open spec fn key_position(entries: Seq<(String, Value)>, key: Seq<char>) -> int
    decreases entries.len(),
{
    if entries.len() == 0 {
        -1
    } else if entries.last().0@ == key && key_position(entries.drop_last(), key) < 0 {
        entries.len() - 1
    } else {
        key_position(entries.drop_last(), key)
    }
}

/// `key_position` gives an entry under the key, the first one, where there is
/// one, and -1 where there is none.
pub proof fn key_position_is_first(entries: Seq<(String, Value)>, key: Seq<char>)
    ensures
        -1 <= key_position(entries, key) < entries.len(),
        key_position(entries, key) >= 0 ==> entries[key_position(entries, key)].0@ == key,
        forall|k: int|
            0 <= k < entries.len() && (k < key_position(entries, key) || key_position(
                entries,
                key,
            ) < 0) ==> (#[trigger] entries[k]).0@ != key,
    decreases entries.len(),
{
    if entries.len() > 0 {
        let rest = entries.drop_last();
        key_position_is_first(rest, key);
        assert forall|k: int|
            0 <= k < entries.len() && (k < key_position(entries, key) || key_position(
                entries,
                key,
            ) < 0) implies (#[trigger] entries[k]).0@ != key by {
            if k < rest.len() {
                assert(entries[k] == rest[k]);
            }
        }
    }
}

/// Finds the first entry under `key`.
pub fn find_key(entries: &Vec<(String, Value)>, key: &String) -> (found: Option<usize>)
    ensures
        match found {
            Some(i) => i < entries@.len() && i == key_position(entries@, key@),
            None => key_position(entries@, key@) < 0,
        },
{
    let mut i: usize = 0;
    while i < entries.len()
        invariant
            i <= entries.len(),
            key_position(entries@.take(i as int), key@) < 0,
        decreases entries.len() - i,
    {
        proof {
            assert(entries@.take(i + 1).drop_last() =~= entries@.take(i as int));
            assert(entries@.take(i + 1).last() == entries@[i as int]);
        }
        if entries[i].0 == *key {
            proof {
                key_position_prefix(entries@, i + 1, key@);
            }
            return Some(i);
        }
        i += 1;
    }
    assert(entries@.take(entries.len() as int) =~= entries@);
    None
}

/// An entry found among the first `n` entries is the one found among all.
proof fn key_position_prefix(entries: Seq<(String, Value)>, n: int, key: Seq<char>)
    requires
        0 <= n <= entries.len(),
        key_position(entries.take(n), key) >= 0,
    ensures
        key_position(entries, key) == key_position(entries.take(n), key),
    decreases entries.len() - n,
{
    if n < entries.len() {
        assert(entries.take(n + 1).drop_last() =~= entries.take(n));
        key_position_prefix(entries, n + 1, key);
    } else {
        assert(entries.take(n) =~= entries);
    }
}

} // verus!
