//! How ids read as labels, and which catalog entry a parameter goes by.
use crate::strings::{catalogued, prettified, prettified_from, resolution, ParamSource};
use crate::text::uppercase_of;
use vstd::prelude::*;

verus! {

/// A word: some characters, none of them an underscore.
pub open spec fn is_word(w: Seq<char>) -> bool {
    w.len() > 0 && forall|i: int| 0 <= i < w.len() ==> #[trigger] w[i] != '_'
}

/// Inside a word the characters are kept up to an underscore or the end.
proof fn lemma_inside(s: Seq<char>, i: int, j: int)
    requires
        0 <= i <= j <= s.len(),
        forall|k: int| i <= k < j ==> #[trigger] s[k] != '_',
    ensures
        prettified_from(s, i, true, true) == s.subrange(i, j) + prettified_from(s, j, true, true),
    decreases j - i,
{
    if i < j {
        lemma_inside(s, i + 1, j);
        assert(s.subrange(i, j) =~= seq![s[i]] + s.subrange(i + 1, j));
        assert(seq![s[i]] + (s.subrange(i + 1, j) + prettified_from(s, j, true, true))
            =~= s.subrange(i, j) + prettified_from(s, j, true, true));
    } else {
        assert(s.subrange(i, j) =~= Seq::<char>::empty());
        assert(Seq::<char>::empty() + prettified_from(s, j, true, true) =~= prettified_from(
            s,
            j,
            true,
            true,
        ));
    }
}

/// What follows depends on what is left alone.
proof fn lemma_moved(s: Seq<char>, t: Seq<char>, i: int, j: int, written: bool, inside: bool)
    requires
        0 <= i <= s.len(),
        0 <= j <= t.len(),
        s.len() - i == t.len() - j,
        forall|k: int| 0 <= k < s.len() - i ==> #[trigger] s[i + k] == t[j + k],
    ensures
        prettified_from(s, i, written, inside) == prettified_from(t, j, written, inside),
    decreases s.len() - i,
{
    if i < s.len() {
        assert(s[i + 0] == t[j + 0]);
        assert forall|k: int| 0 <= k < s.len() - (i + 1) implies #[trigger] s[i + 1 + k] == t[j + 1
            + k] by {
            assert(s[i + (k + 1)] == t[j + (k + 1)]);
        }
        if s[i] == '_' {
            lemma_moved(s, t, i + 1, j + 1, written, false);
        } else {
            lemma_moved(s, t, i + 1, j + 1, true, true);
        }
    }
}

/// A word reads with its first character in upper case and the others as they are.
pub proof fn law_word_is_capitalised(w: Seq<char>)
    requires
        is_word(w),
    ensures
        prettified(w) == uppercase_of(w[0]) + w.skip(1),
{
    let n = w.len() as int;
    lemma_inside(w, 1, n);
    assert(prettified_from(w, n, true, true) =~= Seq::<char>::empty());
    assert(w.subrange(1, n) + Seq::<char>::empty() =~= w.skip(1));
}

/// Words are read one by one, with one space between two: a word, an underscore and another word
/// with whatever follows it read as the first word, a space, and what the rest reads as.
pub proof fn law_words_read_with_spaces_between(w: Seq<char>, rest: Seq<char>)
    requires
        is_word(w),
        rest.len() > 0,
        rest[0] != '_',
    ensures
        prettified(w + seq!['_'] + rest) == prettified(w) + seq![' '] + prettified(rest),
{
    let s = w + seq!['_'] + rest;
    let n = w.len() as int;
    assert(s[0] == w[0]);
    assert forall|k: int| 1 <= k < n implies #[trigger] s[k] != '_' by {
        assert(s[k] == w[k]);
    }
    lemma_inside(s, 1, n);
    assert(s.subrange(1, n) =~= w.skip(1));
    law_word_is_capitalised(w);
    assert(s[n] == '_');
    assert(s[n + 1] == rest[0]);
    assert(prettified_from(s, n, true, true) == prettified_from(s, n + 1, true, false));
    let tail = prettified_from(s, n + 2, true, true);
    assert(prettified_from(s, n + 1, true, false) == seq![' '] + uppercase_of(rest[0]) + tail);
    assert forall|k: int| 0 <= k < s.len() - (n + 2) implies #[trigger] s[n + 2 + k] == rest[1
        + k] by {}
    lemma_moved(s, rest, n + 2, 1, true, true);
    assert(prettified(rest) == uppercase_of(rest[0]) + tail);
    assert(prettified(s) =~= prettified(w) + seq![' '] + prettified(rest));
}

/// Underscores before a name and behind it, and more than one between two words, change nothing.
pub proof fn law_extra_underscores_change_nothing(w: Seq<char>, rest: Seq<char>)
    ensures
        prettified(seq!['_'] + rest) == prettified(rest),
        prettified(w + seq!['_']) == prettified(w),
        prettified(w + seq!['_', '_'] + rest) == prettified(w + seq!['_'] + rest),
{
    let s = seq!['_'] + rest;
    assert forall|k: int| 0 <= k < s.len() - 1 implies #[trigger] s[1 + k] == rest[0 + k] by {}
    lemma_moved(s, rest, 1, 0, false, false);
    lemma_trailing(w, 0, false, false);
    lemma_doubled(w, rest, 0, false, false);
}

proof fn lemma_trailing(w: Seq<char>, i: int, written: bool, inside: bool)
    requires
        0 <= i <= w.len(),
    ensures
        prettified_from(w + seq!['_'], i, written, inside) == prettified_from(
            w,
            i,
            written,
            inside,
        ),
    decreases w.len() - i,
{
    let s = w + seq!['_'];
    if i < w.len() {
        assert(s[i] == w[i]);
        if w[i] == '_' {
            lemma_trailing(w, i + 1, written, false);
        } else {
            lemma_trailing(w, i + 1, true, true);
        }
    } else {
        assert(s[i] == '_');
        assert(prettified_from(s, i + 1, written, false) =~= Seq::<char>::empty());
    }
}

proof fn lemma_doubled(w: Seq<char>, rest: Seq<char>, i: int, written: bool, inside: bool)
    requires
        0 <= i <= w.len(),
    ensures
        prettified_from(w + seq!['_', '_'] + rest, i, written, inside) == prettified_from(
            w + seq!['_'] + rest,
            i,
            written,
            inside,
        ),
    decreases w.len() - i,
{
    let s = w + seq!['_', '_'] + rest;
    let t = w + seq!['_'] + rest;
    let n = w.len() as int;
    if i < n {
        assert(s[i] == w[i] && t[i] == w[i]);
        if w[i] == '_' {
            lemma_doubled(w, rest, i + 1, written, false);
        } else {
            lemma_doubled(w, rest, i + 1, true, true);
        }
    } else {
        assert(s[n] == '_' && s[n + 1] == '_' && t[n] == '_');
        assert(prettified_from(s, n, written, inside) == prettified_from(s, n + 1, written, false));
        assert(prettified_from(s, n + 1, written, false) == prettified_from(
            s,
            n + 2,
            written,
            false,
        ));
        assert forall|k: int| 0 <= k < s.len() - (n + 2) implies #[trigger] s[n + 2 + k] == t[n + 1
            + k] by {}
        lemma_moved(s, t, n + 2, n + 1, written, false);
    }
}

/// A parameter goes by the most specific entry there is: a node's own entry hides the shared one,
/// the shared one hides the name itself, and label and description are of one entry.
pub proof fn law_most_specific_entry_wins(type_id: Seq<char>, name: Seq<char>)
    ensures
        ({
            let own = "param-"@ + type_id + "-"@ + name;
            let shared = "param-"@ + name;
            let r = resolution(type_id, name);
            &&& catalogued(own) matches Some(text) ==> r.label == text && r.description
                == catalogued(own + "-desc"@) && r.source == ParamSource::Override
            &&& catalogued(own) is None ==> {
                &&& catalogued(shared) matches Some(text) ==> r.label == text && r.description
                    == catalogued(shared + "-desc"@) && r.source == ParamSource::Shared
                &&& catalogued(shared) is None ==> r.label == prettified(name) && r.description
                    is None && r.source == ParamSource::Prettified
            }
        }),
{
}

} // verus!
