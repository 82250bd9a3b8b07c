//! Display-string resolution.
//!
//! A node or category holds only ids; the words live in the catalog. A missing key falls back to
//! the key itself, so a missing string is visible in the UI.
use crate::catalog::{
    ends_with, key_at, law_keys_are_distinct, law_parameter_labels_are_described, starts_with,
    string_at, CATALOG, CATALOG_LEN,
};
use crate::catalog_laws::{law_labels_are_described, law_texts_begin_like_no_key};
use crate::text::{chars_of, same_text, uppercase, uppercase_of};
use vstd::prelude::*;

verus! {

/// The catalog holds `key`.
pub open spec fn is_catalogued(key: Seq<char>) -> bool {
    exists|i: int| 0 <= i < CATALOG_LEN && #[trigger] key_at(i) == key
}

/// The display string of a key, where the catalog has one.
pub open spec fn catalogued(key: Seq<char>) -> Option<Seq<char>> {
    if is_catalogued(key) {
        Some(string_at(choose|i: int| 0 <= i < CATALOG_LEN && #[trigger] key_at(i) == key))
    } else {
        None
    }
}

/// Every entry of the catalog is the string of its own key.
pub proof fn law_entries_resolve(i: int)
    requires
        0 <= i < CATALOG_LEN,
    ensures
        catalogued(key_at(i)) == Some(string_at(i)),
{
    let j = choose|j: int| 0 <= j < CATALOG_LEN && #[trigger] key_at(j) == key_at(i);
    law_keys_are_distinct(i, j);
}

/// The display string of `key`, or `None` when the catalog has no entry for it.
pub fn lookup(key: &str) -> (r: Option<&'static str>)
    ensures
        match r {
            Some(v) => catalogued(key@) == Some(v@),
            None => catalogued(key@) is None,
        },
{
    let mut i: usize = 0;
    while i < CATALOG_LEN
        invariant
            i <= CATALOG_LEN,
            forall|j: int| 0 <= j < i ==> #[trigger] key_at(j) != key@,
        decreases CATALOG_LEN - i,
    {
        proof {
            reveal(key_at);
            reveal(string_at);
        }
        if same_text(key, CATALOG[i].0) {
            assert(key_at(i as int) == key@);
            proof {
                law_entries_resolve(i as int);
            }
            return Some(CATALOG[i].1);
        }
        assert(key_at(i as int) != key@);
        i += 1;
    }
    None
}

/// The text shown for a key: its display string, or the key unchanged.
pub open spec fn translated(key: Seq<char>) -> Seq<char> {
    match catalogued(key) {
        Some(text) => text,
        None => key,
    }
}

/// Resolves a display key to its English string, or returns the key unchanged if unknown.
pub fn tr(key: &str) -> (r: &str)
    ensures
        r@ == translated(key@),
{
    match lookup(key) {
        Some(text) => text,
        None => key,
    }
}

/// The label of an id from position `i` on: words are separated by underscores, each is
/// capitalised, and one space stands between two. `written` says whether a word was written
/// before, `inside` whether position `i - 1` is part of a word.
pub open spec fn prettified_from(s: Seq<char>, i: int, written: bool, inside: bool) -> Seq<char>
    decreases s.len() - i,
{
    if i < 0 || i >= s.len() {
        Seq::empty()
    } else if s[i] == '_' {
        prettified_from(s, i + 1, written, false)
    } else if inside {
        seq![s[i]] + prettified_from(s, i + 1, true, true)
    } else if written {
        seq![' '] + uppercase_of(s[i]) + prettified_from(s, i + 1, true, true)
    } else {
        uppercase_of(s[i]) + prettified_from(s, i + 1, true, true)
    }
}

/// The Title-Case label of a `snake_case` id.
pub open spec fn prettified(s: Seq<char>) -> Seq<char> {
    prettified_from(s, 0, false, false)
}

/// Turns a `snake_case` parameter id into a friendly Title-Case label (`offset_x` to `Offset X`):
/// underscores become spaces and each word is capitalised; empty words are dropped.
pub fn prettify_param(name: &str) -> (r: String)
    ensures
        r@ == prettified(name@),
{
    let chars: Vec<char> = chars_of(name);
    let mut out: String = String::new();
    let mut written: bool = false;
    let mut inside: bool = false;
    let mut i: usize = 0;
    assert(out@ + prettified(name@) =~= prettified(name@));
    while i < chars.len()
        invariant
            chars@ == name@,
            i <= chars.len(),
            inside ==> written,
            out@ + prettified_from(name@, i as int, written, inside) == prettified(name@),
        decreases chars.len() - i,
    {
        let c: char = chars[i];
        let ghost rest = prettified_from(name@, i + 1, true, true);
        let ghost was = out@;
        if c == '_' {
            inside = false;
        } else if inside {
            out.push(c);
            assert(was + (seq![c] + rest) =~= out@ + rest);
        } else {
            if written {
                out.push(' ');
            }
            let ghost spaced = out@;
            let upper: Vec<char> = uppercase(c);
            let mut k: usize = 0;
            assert(upper@.take(0) =~= Seq::empty());
            while k < upper.len()
                invariant
                    k <= upper.len(),
                    out@ == spaced + upper@.take(k as int),
                decreases upper.len() - k,
            {
                out.push(upper[k]);
                assert(upper@.take(k as int).push(upper@[k as int]) =~= upper@.take(k + 1));
                k += 1;
            }
            proof {
                assert(upper@.take(k as int) =~= upper@);
                if written {
                    assert(was + (seq![' '] + uppercase_of(c) + rest) =~= out@ + rest);
                } else {
                    assert(was + (uppercase_of(c) + rest) =~= out@ + rest);
                }
            }
            written = true;
            inside = true;
        }
        i += 1;
    }
    assert(out@ =~= prettified(name@));
    out
}

/// Which tier of the catalog produced a resolved label.
#[derive(Clone, Copy, Debug, PartialEq, Eq, Structural)]
pub enum ParamSource {
    /// A node-specific `param-<type_id>-<name>` entry.
    Override,
    /// A shared `param-<name>` entry, permitted only for meaning-invariant parameters.
    Shared,
    /// No catalog entry: the label is the prettified id and there is no description.
    Prettified,
}

/// A parameter's resolved display strings and the catalog tier that produced them.
#[derive(Clone, Debug, PartialEq, Eq)]
pub struct ResolvedParam {
    /// The display label.
    pub label: String,
    /// The one-line description; `None` when no catalog entry exists.
    pub description: Option<String>,
    /// Which catalog tier produced the label.
    pub source: ParamSource,
}

/// What a [`ResolvedParam`] holds, over character sequences.
pub ghost struct Resolution {
    pub label: Seq<char>,
    pub description: Option<Seq<char>>,
    pub source: ParamSource,
}

impl View for ResolvedParam {
    type V = Resolution;

    open spec fn view(&self) -> Resolution {
        Resolution {
            label: self.label@,
            description: match self.description {
                Some(text) => Some(text@),
                None => None,
            },
            source: self.source,
        }
    }
}

/// The key of a parameter's node-specific entry.
pub open spec fn override_key(type_id: Seq<char>, name: Seq<char>) -> Seq<char> {
    "param-"@ + type_id + "-"@ + name
}

/// The key of a parameter's shared entry.
pub open spec fn shared_key(name: Seq<char>) -> Seq<char> {
    "param-"@ + name
}

/// The key of the description that goes with a key.
pub open spec fn description_key(key: Seq<char>) -> Seq<char> {
    key + "-desc"@
}

/// A parameter's display strings: the node-specific entry wins, else the shared one, else the
/// prettified id; the description comes from the same tier as the label.
pub open spec fn resolution(type_id: Seq<char>, name: Seq<char>) -> Resolution {
    let own = override_key(type_id, name);
    let shared = shared_key(name);
    if catalogued(own) is Some {
        Resolution {
            label: catalogued(own)->0,
            description: catalogued(description_key(own)),
            source: ParamSource::Override,
        }
    } else if catalogued(shared) is Some {
        Resolution {
            label: catalogued(shared)->0,
            description: catalogued(description_key(shared)),
            source: ParamSource::Shared,
        }
    } else {
        Resolution { label: prettified(name), description: None, source: ParamSource::Prettified }
    }
}

/// The description that goes with a key.
fn describe(key: String) -> (r: Option<String>)
    ensures
        match r {
            Some(text) => catalogued(description_key(key@)) == Some(text@),
            None => catalogued(description_key(key@)) is None,
        },
{
    match lookup(key.concat("-desc").as_str()) {
        Some(text) => Some(text.to_owned()),
        None => None,
    }
}

/// Resolves a parameter's display strings by the generic-with-override rule, and reports the tier,
/// so that a parameter that fell through to the prettified fallback can be caught.
pub fn resolve_param(type_id: &str, name: &str) -> (r: ResolvedParam)
    ensures
        r@ == resolution(type_id@, name@),
{
    let own: String = "param-".to_owned().concat(type_id).concat("-").concat(name);
    if let Some(label) = lookup(own.as_str()) {
        return ResolvedParam {
            label: label.to_owned(),
            description: describe(own),
            source: ParamSource::Override,
        };
    }
    let shared: String = "param-".to_owned().concat(name);
    if let Some(label) = lookup(shared.as_str()) {
        return ResolvedParam {
            label: label.to_owned(),
            description: describe(shared),
            source: ParamSource::Shared,
        };
    }
    ResolvedParam {
        label: prettify_param(name),
        description: None,
        source: ParamSource::Prettified,
    }
}

/// A catalogued parameter key that is not a description has a description.
proof fn lemma_described(key: Seq<char>)
    requires
        catalogued(key) is Some,
        starts_with(key, "param-"@),
        !ends_with(key, "-desc"@),
    ensures
        catalogued(description_key(key)) is Some,
{
    let i = choose|i: int| 0 <= i < CATALOG_LEN && #[trigger] key_at(i) == key;
    law_parameter_labels_are_described(i);
    assert(key_at(i + 1) == description_key(key));
}

/// A key that ends in a dash and a name ends in `-desc` only where the dash and the name do.
proof fn lemma_tail(head: Seq<char>, name: Seq<char>)
    requires
        ends_with(head + "-"@ + name, "-desc"@),
    ensures
        ends_with("-"@ + name, "-desc"@),
{
    reveal_strlit("-");
    reveal_strlit("-desc");
    let key = head + "-"@ + name;
    let tail = "-"@ + name;
    let last = key.skip(key.len() - 5);
    assert(key =~= head + tail);
    if tail.len() < 5 {
        // The dash would stand where `-desc` has a letter.
        let at = 5 - tail.len();
        assert(last[at] == tail[0]);
        assert(last[at] == "-desc"@[at]);
    } else {
        assert(tail.skip(tail.len() - 5) =~= last);
    }
}

/// Every authored parameter label comes with a description, whichever tier it is from. A parameter
/// whose name itself reads as a description key is the exception.
pub proof fn law_authored_labels_are_described(type_id: Seq<char>, name: Seq<char>)
    requires
        !ends_with("-"@ + name, "-desc"@),
    ensures
        resolution(type_id, name).source != ParamSource::Prettified ==> resolution(
            type_id,
            name,
        ).description is Some,
{
    let own = override_key(type_id, name);
    let shared = shared_key(name);
    reveal_strlit("param-");
    reveal_strlit("-");
    if ends_with(own, "-desc"@) {
        lemma_tail("param-"@ + type_id, name);
    }
    if ends_with(shared, "-desc"@) {
        reveal_strlit("param");
        assert(shared =~= "param"@ + "-"@ + name);
        lemma_tail("param"@, name);
    }
    assert(own.take(6) =~= "param-"@);
    assert(shared.take(6) =~= "param-"@);
    if catalogued(own) is Some {
        lemma_described(own);
    } else if catalogued(shared) is Some {
        lemma_described(shared);
    }
}

/// Every catalogued node or parameter label has its one-line description, which is not empty.
pub proof fn law_labels_have_descriptions(key: Seq<char>)
    requires
        starts_with(key, "node-"@) || starts_with(key, "param-"@),
        !ends_with(key, "-desc"@),
        catalogued(key) is Some,
    ensures
        catalogued(description_key(key)) matches Some(text) && text.len() > 0,
{
    let i = choose|i: int| 0 <= i < CATALOG_LEN && #[trigger] key_at(i) == key;
    law_labels_are_described(i);
    law_entries_resolve(i + 1);
    assert(key_at(i + 1) == description_key(key));
}

/// Translating twice is translating once: no display string is itself a key.
pub proof fn law_translation_settles(key: Seq<char>)
    ensures
        translated(translated(key)) == translated(key),
{
    if is_catalogued(key) {
        let text = translated(key);
        let i = choose|i: int| 0 <= i < CATALOG_LEN && #[trigger] key_at(i) == key;
        law_texts_begin_like_no_key(i);
        if is_catalogued(text) {
            let j = choose|j: int| 0 <= j < CATALOG_LEN && #[trigger] key_at(j) == text;
            law_texts_begin_like_no_key(j);
        }
    }
}

} // verus!
