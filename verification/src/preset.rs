//! Preset naming: the device pair of a preset and the file name it is stored under.

use vstd::prelude::*;
use crate::text::{char_is_alphanumeric, chars_of, is_alphanumeric, push_char, string_from_chars};
use crate::order::{is_permutation_of_range, plain_keys, sorted_order, sorted_stably};

verus! {

/// The character that `sanitize_filename` puts in place of `c`.
pub open spec fn sanitized_char(c: char) -> char {
    if char_is_alphanumeric(c) || c == '-' || c == '_' {
        c
    } else if c == ' ' {
        '-'
    } else {
        '_'
    }
}

/// The whole sanitized name, character by character.
pub open spec fn sanitized(s: Seq<char>) -> Seq<char> {
    s.map_values(|c: char| sanitized_char(c))
}

/// A character that can stand in a file name unchanged.
pub open spec fn is_safe_char(c: char) -> bool {
    char_is_alphanumeric(c) || c == '-' || c == '_'
}

/// Law: sanitizing keeps the length, leaves only letters, digits, `-` and
/// `_`, and a sanitized name is left as it is by a second sanitizing.
pub proof fn lemma_sanitized_is_safe_and_stable(s: Seq<char>)
    ensures
        sanitized(s).len() == s.len(),
        forall|i: int| 0 <= i < s.len() ==> is_safe_char(#[trigger] sanitized(s)[i]),
        sanitized(sanitized(s)) == sanitized(s),
{
    assert forall|i: int| 0 <= i < s.len() implies is_safe_char(#[trigger] sanitized(s)[i]) by {
        let c = s[i];
        if !(char_is_alphanumeric(c) || c == '-' || c == '_') {
            // the replacement characters are themselves safe
        }
    }
    assert(sanitized(sanitized(s)) =~= sanitized(s));
}

/// Makes a preset name safe to use as a file name: letters, digits, `-` and
/// `_` stay, a space becomes `-`, anything else becomes `_`.
pub fn sanitize_filename(name: &str) -> (res: String)
    ensures
        res@ == sanitized(name@),
{
    let mut res = String::new();
    for c in it: name.chars()
        invariant
            it.seq() == name@,
            res@ == sanitized(name@.take(it.index() as int)),
    {
        let out = if is_alphanumeric(c) || c == '-' || c == '_' {
            c
        } else if c == ' ' {
            '-'
        } else {
            '_'
        };
        proof {
            assert(name@.take(it.index() as int + 1) == name@.take(it.index() as int).push(c));
        }
        push_char(&mut res, out);
    }
    proof {
        assert(name@.take(name@.len() as int) == name@);
    }
    res
}


/// The device pair a preset was made for, by identifier.
#[derive(Debug, Clone)]
pub struct PresetDevices {
    pub source: String,
    pub target: String,
}

/// The file a preset named `name` is stored in, inside the presets directory.
pub fn preset_file_name(name: &str) -> (f: String)
    ensures
        f@ == sanitized(name@) + ".toml"@,
{
    let mut f = sanitize_filename(name);
    f.append(".toml");
    f
}

/// Position of the last `.` in `s`, or -1 when there is none.
pub open spec fn last_dot(s: Seq<char>) -> int
    decreases s.len(),
{
    if s.len() == 0 {
        -1
    } else if s.last() == '.' {
        s.len() - 1
    } else {
        last_dot(s.drop_last())
    }
}

/// The preset a directory entry named `file_name` holds: the part before
/// the last `.` when the part after it is `toml`.  A name whose only `.`
/// is its first character has no extension.
pub open spec fn preset_name_spec(file_name: Seq<char>) -> Option<Seq<char>> {
    let k = last_dot(file_name);
    if k > 0 && file_name.subrange(k + 1, file_name.len() as int) == "toml"@ {
        Some(file_name.subrange(0, k))
    } else {
        None
    }
}

proof fn lemma_last_dot(s: Seq<char>)
    ensures
        -1 <= last_dot(s) < s.len(),
        last_dot(s) >= 0 ==> s[last_dot(s)] == '.',
        forall|i: int| last_dot(s) < i < s.len() ==> #[trigger] s[i] != '.',
    decreases s.len(),
{
    if s.len() > 0 {
        lemma_last_dot(s.drop_last());
        assert forall|i: int| last_dot(s) < i < s.len() implies #[trigger] s[i] != '.' by {
            if i < s.len() - 1 {
                assert(s.drop_last()[i] == s[i]);
            }
        }
    }
}

/// The name of the preset stored in the directory entry `file_name`, if it
/// is a preset file.
pub fn preset_name_from_file(file_name: &str) -> (r: Option<String>)
    ensures
        match r {
            Some(name) => preset_name_spec(file_name@) == Some(name@),
            None => preset_name_spec(file_name@) is None,
        },
{
    let chars = chars_of(file_name);
    let ghost s = file_name@;
    let mut k: usize = chars.len();
    assert(s.take(k as int) =~= s);
    while k > 0 && chars[k - 1] != '.'
        invariant
            k <= chars.len(),
            chars@ == s,
            last_dot(s) == last_dot(s.take(k as int)),
        decreases k,
    {
        proof {
            assert(s.take(k as int).drop_last() =~= s.take(k as int - 1));
        }
        k = k - 1;
    }
    proof {
        lemma_last_dot(s);
        if k > 0 {
            assert(s.take(k as int).last() == '.');
        } else {
            assert(s.take(0) =~= Seq::<char>::empty());
        }
        assert(last_dot(s) == k - 1);
        reveal_strlit("toml");
        assert("toml"@.len() == 4);
    }
    // `k` is one past the last dot (0 when there is none)
    if k < 2 || chars.len() - k != 4 {
        proof {
            if k >= 2 {
                assert(s.subrange(k as int, s.len() as int).len() != "toml"@.len());
            }
        }
        return None;
    }
    if !(chars[k] == 't' && chars[k + 1] == 'o' && chars[k + 2] == 'm' && chars[k + 3] == 'l') {
        proof {
            assert(s.subrange(k as int, s.len() as int)[0] == chars[k as int]);
            assert(s.subrange(k as int, s.len() as int)[1] == chars[k + 1]);
            assert(s.subrange(k as int, s.len() as int)[2] == chars[k + 2]);
            assert(s.subrange(k as int, s.len() as int)[3] == chars[k + 3]);
        }
        return None;
    }
    let mut stem: Vec<char> = Vec::new();
    let mut i: usize = 0;
    while i < k - 1
        invariant
            k >= 2,
            k <= chars.len(),
            i <= k - 1,
            stem@ == chars@.take(i as int),
        decreases k - 1 - i,
    {
        proof {
            assert(chars@.take(i as int + 1) =~= chars@.take(i as int).push(chars@[i as int]));
        }
        stem.push(chars[i]);
        i = i + 1;
    }
    proof {
        assert(s.subrange(k as int, s.len() as int) =~= "toml"@);
        assert(chars@.take(k - 1) =~= s.subrange(0, k - 1));
    }
    Some(string_from_chars(&stem))
}

/// Law: a preset saved under a non-empty name is found again, under its
/// sanitized name, when the presets directory is listed.
pub proof fn lemma_saved_preset_is_listed(name: Seq<char>)
    requires
        name.len() > 0,
    ensures
        preset_name_spec(sanitized(name) + ".toml"@) == Some(sanitized(name)),
{
    let s = sanitized(name);
    reveal_strlit(".toml");
    reveal_strlit("toml");
    let t = s + ".toml"@;
    lemma_last_dot(t);
    let k = last_dot(t);
    // the dot before "toml" is the last one
    assert(t[s.len() as int] == '.');
    assert(forall|i: int| s.len() < i < t.len() ==> #[trigger] t[i] != '.');
    assert(k == s.len());
    assert(t.subrange(k + 1, t.len() as int) =~= "toml"@);
    assert(t.subrange(0, k) =~= s);
}

/// The sort keys of preset names: the name itself.
pub open spec fn name_keys(names: Seq<String>) -> Seq<(Seq<char>, Seq<char>)> {
    names.map_values(|n: String| (n@, Seq::<char>::empty()))
}

/// The preset names found in the presets directory, in sorted order.
pub fn sort_preset_names(names: Vec<String>) -> (sorted: Vec<String>)
    ensures
        exists|order: Seq<usize>| #[trigger] is_permutation_of_range(order, names.len() as nat)
            && sorted_stably(name_keys(names@), order)
            && sorted@.len() == names.len()
            && forall|i: int| 0 <= i < sorted@.len() ==> (#[trigger] sorted@[i])@ == names@[order[i] as int]@,
{
    let mut keys: Vec<(Vec<char>, Vec<char>)> = Vec::new();
    let mut i: usize = 0;
    while i < names.len()
        invariant
            i <= names.len(),
            keys.len() == i,
            forall|m: int| 0 <= m < i ==> (#[trigger] keys@[m]).0@ == names@[m]@ && keys@[m].1@ == Seq::<char>::empty(),
        decreases names.len() - i,
    {
        let k = chars_of(names[i].as_str());
        keys.push((k, Vec::new()));
        i = i + 1;
    }
    let order = sorted_order(&keys);
    proof {
        assert(plain_keys(keys@) =~= name_keys(names@));
    }
    let mut sorted: Vec<String> = Vec::new();
    let mut j: usize = 0;
    while j < order.len()
        invariant
            j <= order.len(),
            is_permutation_of_range(order@, names.len() as nat),
            sorted@.len() == j,
            forall|m: int| 0 <= m < j ==> (#[trigger] sorted@[m])@ == names@[order@[m] as int]@,
        decreases order.len() - j,
    {
        sorted.push(names[order[j]].clone());
        j = j + 1;
    }
    proof {
        assert(is_permutation_of_range(order@, names.len() as nat));
    }
    sorted
}

} // verus!
