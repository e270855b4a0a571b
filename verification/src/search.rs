//! Word-stem tokenization and full-text matching for the search index.
//!
//! A token is a maximal run of ASCII letters and digits, folded to lower
//! case and reduced to a root form by stripping a small set of common
//! suffixes (so that, for example, "eggs" and "egg" share a token). A
//! query matches a piece of indexed text when every query token occurs
//! among the tokens of that text's title or content.

use vstd::prelude::*;

verus! {

/// A character that can be part of a token: an ASCII letter or digit.
pub open spec fn is_word_char(c: char) -> bool {
    ('a' <= c && c <= 'z') || ('A' <= c && c <= 'Z') || ('0' <= c && c <= '9')
}

/// ASCII lower-case folding; characters outside 'A'..'Z' are unchanged.
pub open spec fn to_lower(c: char) -> char {
    if 'A' <= c && c <= 'Z' {
        (((c as u8) + 32) as char)
    } else {
        c
    }
}

/// Lower-case folding of a whole word.
pub open spec fn lower_all(w: Seq<char>) -> Seq<char> {
    w.map_values(|c: char| to_lower(c))
}

/// Reduces a lower-case word to its root form by stripping one common
/// suffix: "ing" from words longer than five characters, "ed" or "es"
/// from words longer than four, and a trailing non-doubled "s" from words
/// longer than two.
pub open spec fn stem(w: Seq<char>) -> Seq<char> {
    let n = w.len() as int;
    if n > 5 && w[n - 3] == 'i' && w[n - 2] == 'n' && w[n - 1] == 'g' {
        w.take(n - 3)
    } else if n > 4 && w[n - 2] == 'e' && w[n - 1] == 'd' {
        w.take(n - 2)
    } else if n > 3 && w[n - 2] == 'e' && w[n - 1] == 's' {
        w.take(n - 2)
    } else if n > 2 && w[n - 1] == 's' && w[n - 2] != 's' {
        w.take(n - 1)
    } else {
        w
    }
}

/// The position just past the run of word characters starting at `i`.
pub open spec fn word_end(s: Seq<char>, i: int) -> int
    decreases s.len() - i when 0 <= i <= s.len()
{
    if i == s.len() || !is_word_char(s[i]) {
        i
    } else {
        word_end(s, i + 1)
    }
}

/// Position `i` begins a token: a word character not preceded by one.
pub open spec fn word_start(s: Seq<char>, i: int) -> bool {
    0 <= i < s.len() && is_word_char(s[i]) && (i == 0 || !is_word_char(s[i - 1]))
}

/// The tokens of `s` whose words start at or after position `i`, in
/// order of appearance.
pub open spec fn tokens_from(s: Seq<char>, i: int) -> Seq<Seq<char>>
    decreases s.len() - i when 0 <= i <= s.len()
{
    if i >= s.len() {
        Seq::empty()
    } else if word_start(s, i) {
        seq![stem(lower_all(s.subrange(i, word_end(s, i))))] + tokens_from(s, i + 1)
    } else {
        tokens_from(s, i + 1)
    }
}

/// The tokens of a text, in order of appearance.
pub open spec fn tokens(s: Seq<char>) -> Seq<Seq<char>> {
    tokens_from(s, 0)
}

/// The token pool of an index entry: title tokens then content tokens.
pub open spec fn entry_tokens(title: Seq<char>, content: Seq<char>) -> Seq<Seq<char>> {
    tokens(title) + tokens(content)
}

/// Every token of the query occurs among the entry's tokens. A query
/// with no tokens matches every entry.
pub open spec fn query_matches(title: Seq<char>, content: Seq<char>, query: Seq<char>) -> bool {
    forall|k: int|
        0 <= k < tokens(query).len() ==> entry_tokens(title, content).contains(tokens(query)[k])
}

/// The views of a list of executable tokens.
pub open spec fn token_views(ts: Seq<Vec<char>>) -> Seq<Seq<char>> {
    ts.map_values(|v: Vec<char>| v@)
}

/// The run of word characters starting at `i` stays within bounds, is
/// made of word characters throughout, and stops at a non-word character
/// or the end of the text.
pub proof fn lemma_word_end(s: Seq<char>, i: int)
    requires
        0 <= i <= s.len(),
    ensures
        i <= word_end(s, i) <= s.len(),
        forall|j: int| i <= j < word_end(s, i) ==> is_word_char(s[j]),
        word_end(s, i) == s.len() || !is_word_char(s[word_end(s, i)]),
    decreases s.len() - i,
{
    if i == s.len() || !is_word_char(s[i]) {
    } else {
        lemma_word_end(s, i + 1);
    }
}

fn char_is_word(c: char) -> (r: bool)
    ensures
        r == is_word_char(c),
{
    ('a' <= c && c <= 'z') || ('A' <= c && c <= 'Z') || ('0' <= c && c <= '9')
}

fn char_lower(c: char) -> (r: char)
    ensures
        r == to_lower(c),
{
    if 'A' <= c && c <= 'Z' {
        ((c as u8) + 32) as char
    } else {
        c
    }
}

fn stem_vec(w: Vec<char>) -> (r: Vec<char>)
    ensures
        r@ == stem(w@),
{
    let n = w.len();
    let mut w = w;
    if n > 5 && w[n - 3] == 'i' && w[n - 2] == 'n' && w[n - 1] == 'g' {
        w.truncate(n - 3);
    } else if n > 4 && w[n - 2] == 'e' && w[n - 1] == 'd' {
        w.truncate(n - 2);
    } else if n > 3 && w[n - 2] == 'e' && w[n - 1] == 's' {
        w.truncate(n - 2);
    } else if n > 2 && w[n - 1] == 's' && w[n - 2] != 's' {
        w.truncate(n - 1);
    }
    w
}

/// Splits a text into its tokens, in order of appearance.
pub fn tokenize(s: &str) -> (r: Vec<Vec<char>>)
    ensures
        token_views(r@) == tokens(s@),
{
    let n = s.unicode_len();
    let mut r: Vec<Vec<char>> = Vec::new();
    let mut i: usize = 0;
    let mut prev_word = false;
    while i < n
        invariant
            n == s@.len(),
            i <= n,
            prev_word == (i > 0 && is_word_char(s@[i as int - 1])),
            token_views(r@) + tokens_from(s@, i as int) == tokens(s@),
        decreases n - i,
    {
        let c = s.get_char(i);
        if char_is_word(c) && !prev_word {
            proof {
                lemma_word_end(s@, i as int);
            }
            let ghost e = word_end(s@, i as int);
            let mut w: Vec<char> = Vec::new();
            let mut j: usize = i;
            while j < n && char_is_word(s.get_char(j))
                invariant
                    n == s@.len(),
                    i <= j <= e,
                    e == word_end(s@, i as int),
                    i as int <= e <= n,
                    forall|m: int| i <= m < e ==> is_word_char(s@[m]),
                    e == s@.len() || !is_word_char(s@[e]),
                    w@ == lower_all(s@.subrange(i as int, j as int)),
                decreases n - j,
            {
                let lc = char_lower(s.get_char(j));
                w.push(lc);
                proof {
                    assert(s@.subrange(i as int, j + 1 as int)
                        =~= s@.subrange(i as int, j as int).push(s@[j as int]));
                    assert(lower_all(s@.subrange(i as int, j + 1 as int))
                        =~= lower_all(s@.subrange(i as int, j as int)).push(to_lower(s@[j as int])));
                }
                j += 1;
            }
            proof {
                assert(j == e);
            }
            let t = stem_vec(w);
            r.push(t);
            proof {
                assert(token_views(r@) =~= token_views(r@.drop_last()).push(t@));
            }
            i += 1;
            prev_word = true;
        } else {
            i += 1;
            prev_word = char_is_word(c);
        }
    }
    r
}

fn vec_char_eq(a: &Vec<char>, b: &Vec<char>) -> (r: bool)
    ensures
        r == (a@ == b@),
{
    if a.len() != b.len() {
        return false;
    }
    let mut k: usize = 0;
    while k < a.len()
        invariant
            a@.len() == b@.len(),
            k <= a@.len(),
            forall|m: int| 0 <= m < k ==> a@[m] == b@[m],
        decreases a@.len() - k,
    {
        if a[k] != b[k] {
            return false;
        }
        k += 1;
    }
    proof {
        assert(a@ =~= b@);
    }
    true
}

fn has_token(ts: &Vec<Vec<char>>, t: &Vec<char>) -> (r: bool)
    ensures
        r == token_views(ts@).contains(t@),
{
    let mut k: usize = 0;
    while k < ts.len()
        invariant
            k <= ts@.len(),
            forall|m: int| 0 <= m < k ==> token_views(ts@)[m] != t@,
        decreases ts@.len() - k,
    {
        if vec_char_eq(&ts[k], t) {
            assert(token_views(ts@)[k as int] == t@);
            return true;
        }
        k += 1;
    }
    false
}

/// Whether a query matches a (title, content) pair of indexed text:
/// every token of the query occurs among the tokens of the title or of
/// the content.
pub fn text_matches(title: &str, content: &str, query: &str) -> (r: bool)
    ensures
        r == query_matches(title@, content@, query@),
{
    let qt = tokenize(query);
    let mut pool = tokenize(title);
    let mut ct = tokenize(content);
    pool.append(&mut ct);
    proof {
        assert(token_views(pool@) =~= entry_tokens(title@, content@));
    }
    let mut k: usize = 0;
    while k < qt.len()
        invariant
            token_views(qt@) == tokens(query@),
            token_views(pool@) == entry_tokens(title@, content@),
            k <= qt@.len(),
            forall|m: int| 0 <= m < k ==> entry_tokens(title@, content@).contains(tokens(query@)[m]),
        decreases qt@.len() - k,
    {
        if !has_token(&pool, &qt[k]) {
            proof {
                assert(token_views(qt@)[k as int] == tokens(query@)[k as int]);
            }
            return false;
        }
        proof {
            assert(token_views(qt@)[k as int] == tokens(query@)[k as int]);
        }
        k += 1;
    }
    true
}

} // verus!
