//! String utilities shared by the extractor and the downloader: character
//! sequence equality, first-occurrence substring search and removal, and
//! extension derivation from a URL.

use vstd::prelude::*;

verus! {

/// `pat` occurs in `s` at position `i`.
pub open spec fn is_match(s: Seq<char>, pat: Seq<char>, i: int) -> bool {
    0 <= i && i + pat.len() <= s.len() && s.subrange(i, i + pat.len()) == pat
}

/// `pat` occurs somewhere in `s`.
pub open spec fn contains_token(s: Seq<char>, pat: Seq<char>) -> bool {
    exists|i: int| is_match(s, pat, i)
}

/// The first position at or after `i` where `pat` occurs in `s`, if any.
pub open spec fn first_match_from(s: Seq<char>, pat: Seq<char>, i: int) -> Option<int>
    decreases s.len() + 1 - i,
{
    if i + pat.len() > s.len() {
        None
    } else if is_match(s, pat, i) {
        Some(i)
    } else {
        first_match_from(s, pat, i + 1)
    }
}

/// The first position where `pat` occurs in `s`, if any.
pub open spec fn first_match(s: Seq<char>, pat: Seq<char>) -> Option<int> {
    first_match_from(s, pat, 0)
}

/// `s` with the first occurrence of `pat` removed; `s` itself when `pat`
/// does not occur.
pub open spec fn remove_first(s: Seq<char>, pat: Seq<char>) -> Seq<char> {
    match first_match(s, pat) {
        Some(i) => s.subrange(0, i) + s.subrange(i + pat.len(), s.len() as int),
        None => s,
    }
}

/// A found first match is a match, and nothing before it matches.
pub proof fn lemma_first_match_some(s: Seq<char>, pat: Seq<char>, start: int, i: int)
    requires
        0 <= start,
        first_match_from(s, pat, start) == Some(i),
    ensures
        start <= i,
        i + pat.len() <= s.len(),
        is_match(s, pat, i),
        forall|j: int| start <= j < i ==> !is_match(s, pat, j),
    decreases s.len() + 1 - start,
{
    if start + pat.len() > s.len() {
        assert(false);
    } else if is_match(s, pat, start) {
    } else {
        lemma_first_match_some(s, pat, start + 1, i);
    }
}

/// When the search from `start` finds nothing, nothing at or after `start`
/// matches.
pub proof fn lemma_first_match_none(s: Seq<char>, pat: Seq<char>, start: int)
    requires
        0 <= start,
        first_match_from(s, pat, start) is None,
    ensures
        forall|j: int| start <= j ==> !is_match(s, pat, j),
    decreases s.len() + 1 - start,
{
    if start + pat.len() > s.len() {
        assert forall|j: int| start <= j implies !is_match(s, pat, j) by {
            assert(j + pat.len() > s.len());
        }
    } else {
        lemma_first_match_none(s, pat, start + 1);
    }
}

/// A string without the token is left unchanged by the removal.
pub proof fn lemma_remove_first_absent(s: Seq<char>, pat: Seq<char>)
    requires
        !contains_token(s, pat),
    ensures
        remove_first(s, pat) == s,
{
    if first_match(s, pat) is Some {
        let i = first_match(s, pat)->Some_0;
        lemma_first_match_some(s, pat, 0, i);
        assert(contains_token(s, pat));
    }
}

/// A string with the token has exactly one occurrence removed: the earliest
/// one, with everything around it kept in place.
pub proof fn lemma_remove_first_present(s: Seq<char>, pat: Seq<char>)
    requires
        contains_token(s, pat),
    ensures
        first_match(s, pat) is Some,
        ({
            let i = first_match(s, pat)->Some_0;
            &&& is_match(s, pat, i)
            &&& forall|j: int| 0 <= j < i ==> !is_match(s, pat, j)
            &&& remove_first(s, pat) == s.subrange(0, i) + s.subrange(
                i + pat.len(),
                s.len() as int,
            )
            &&& remove_first(s, pat).len() == s.len() - pat.len()
        }),
{
    if first_match(s, pat) is None {
        lemma_first_match_none(s, pat, 0);
        let w = choose|i: int| is_match(s, pat, i);
        assert(!is_match(s, pat, w));
    }
    let i = first_match(s, pat)->Some_0;
    lemma_first_match_some(s, pat, 0, i);
}

/// Executable equality of two string slices, by character.
pub fn str_eq(a: &str, b: &str) -> (r: bool)
    ensures
        r == (a@ == b@),
{
    let a_len = a.unicode_len();
    let b_len = b.unicode_len();
    if a_len != b_len {
        assert(a@ != b@) by {
            assert(a@.len() != b@.len());
        }
        return false;
    }
    let mut i: usize = 0;
    while i < a_len
        invariant
            i <= a_len,
            a_len == a@.len(),
            a_len == b@.len(),
            forall|j: int| 0 <= j < i ==> a@[j] == b@[j],
        decreases a_len - i,
    {
        if a.get_char(i) != b.get_char(i) {
            return false;
        }
        i += 1;
    }
    proof {
        assert(a@ =~= b@);
    }
    true
}

/// `pat` occurs in `s` at position `i`, decided character by character.
fn match_at(s: &str, pat: &str, i: usize) -> (r: bool)
    requires
        i + pat@.len() <= s@.len(),
        s@.len() <= usize::MAX,
    ensures
        r == is_match(s@, pat@, i as int),
{
    let p_len = pat.unicode_len();
    let mut j: usize = 0;
    while j < p_len
        invariant
            j <= p_len,
            p_len == pat@.len(),
            i + p_len <= s@.len() <= usize::MAX,
            forall|k: int| 0 <= k < j ==> s@[i + k] == pat@[k],
        decreases p_len - j,
    {
        if s.get_char(i + j) != pat.get_char(j) {
            assert(!is_match(s@, pat@, i as int)) by {
                assert(s@.subrange(i as int, i + pat@.len())[j as int] == s@[i + j]);
            }
            return false;
        }
        j += 1;
    }
    proof {
        assert(s@.subrange(i as int, i + pat@.len()) =~= pat@);
    }
    true
}

/// The first position where `pat` occurs in `s`, if any.
pub fn find_first(s: &str, pat: &str) -> (r: Option<usize>)
    ensures
        r matches Some(i) ==> first_match(s@, pat@) == Some(i as int),
        r is None ==> first_match(s@, pat@) is None,
{
    let s_len = s.unicode_len();
    let p_len = pat.unicode_len();
    if p_len > s_len {
        return None;
    }
    if p_len == 0 {
        proof {
            assert(s@.subrange(0, 0) =~= pat@);
        }
        return Some(0);
    }
    let mut i: usize = 0;
    while i <= s_len - p_len
        invariant
            p_len == pat@.len(),
            s_len == s@.len(),
            0 < p_len <= s_len,
            i <= s_len - p_len + 1,
            first_match(s@, pat@) == first_match_from(s@, pat@, i as int),
        decreases s_len - i,
    {
        if match_at(s, pat, i) {
            return Some(i);
        }
        i += 1;
    }
    None
}

/// `s` with the first occurrence of `pat` removed; a copy of `s` when `pat`
/// does not occur.
pub fn remove_first_str(s: &str, pat: &str) -> (r: String)
    ensures
        r@ == remove_first(s@, pat@),
{
    match find_first(s, pat) {
        Some(i) => {
            proof {
                lemma_first_match_some(s@, pat@, 0, i as int);
            }
            let s_len = s.unicode_len();
            let p_len = pat.unicode_len();
            let prefix = s.substring_char(0, i);
            let suffix = s.substring_char(i + p_len, s_len);
            prefix.to_owned().concat(suffix)
        },
        None => s.to_owned(),
    }
}

/// The position of the last occurrence of `c` in `s`, if any.
pub open spec fn last_index_of(s: Seq<char>, c: char) -> Option<int>
    decreases s.len(),
{
    if s.len() == 0 {
        None
    } else if s[s.len() - 1] == c {
        Some(s.len() - 1)
    } else {
        last_index_of(s.subrange(0, s.len() - 1), c)
    }
}

/// The extension a URL names: everything after its last `.`, and `jpg` for
/// a URL without one.
pub open spec fn extension_of(url: Seq<char>) -> Seq<char> {
    match last_index_of(url, '.') {
        Some(i) => url.subrange(i + 1, url.len() as int),
        None => "jpg"@,
    }
}

/// A string without `c` has no last occurrence of it.
proof fn lemma_last_index_none(s: Seq<char>, c: char)
    requires
        forall|i: int| 0 <= i < s.len() ==> s[i] != c,
    ensures
        last_index_of(s, c) is None,
    decreases s.len(),
{
    if s.len() > 0 {
        let t = s.subrange(0, s.len() - 1);
        lemma_last_index_none(t, c);
    }
}

/// A URL without a dot anywhere falls back to the `jpg` extension.
pub proof fn lemma_extension_without_dot(url: Seq<char>)
    requires
        forall|i: int| 0 <= i < url.len() ==> url[i] != '.',
    ensures
        extension_of(url) == "jpg"@,
{
    lemma_last_index_none(url, '.');
}

/// What remains of the last occurrence of `c` once a suffix without `c` is
/// cut off.
proof fn lemma_last_index_step(s: Seq<char>, c: char, i: int)
    requires
        0 <= i < s.len(),
    ensures
        last_index_of(s.subrange(0, i + 1), c) == (if s[i] == c {
            Some(i)
        } else {
            last_index_of(s.subrange(0, i), c)
        }),
{
    let t = s.subrange(0, i + 1);
    assert(t[t.len() - 1] == s[i]);
    assert(t.subrange(0, t.len() - 1) =~= s.subrange(0, i));
}

/// The extension of `url`, derived as `extension_of` says.
pub fn extension_str(url: &str) -> (r: String)
    ensures
        r@ == extension_of(url@),
{
    let len = url.unicode_len();
    proof {
        assert(url@.subrange(0, len as int) =~= url@);
    }
    let mut i: usize = len;
    while i > 0
        invariant
            i <= len,
            len == url@.len(),
            last_index_of(url@, '.') == last_index_of(url@.subrange(0, i as int), '.'),
        decreases i,
    {
        proof {
            lemma_last_index_step(url@, '.', i - 1);
        }
        if url.get_char(i - 1) == '.' {
            proof {
                assert(url@.subrange(0, i as int)[i - 1] == url@[i - 1]);
            }
            return url.substring_char(i, len).to_owned();
        }
        i -= 1;
    }
    proof {
        assert(url@.subrange(0, 0) =~= Seq::<char>::empty());
    }
    String::from_str("jpg")
}

} // verus!
