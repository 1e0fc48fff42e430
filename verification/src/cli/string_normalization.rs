//! Canonical names without transliteration.
//!
//! A name is stripped of whitespace at both ends and put in lower case;
//! every run of whitespace inside it becomes one space. Beyond that, the
//! articles and the ASCII punctuation can be taken out.

use crate::string_normalization::lowercase;
use crate::string_normalization::lowercased;
use crate::string_normalization::string_of_chars;
use crate::string_normalization::trim;
use crate::string_normalization::trimmed;
use vstd::prelude::*;
use vstd::string::StrSliceExecFns;

verus! {

/// Whether `char::is_whitespace` holds of a character.
pub uninterp spec fn is_whitespace(c: char) -> bool;

/// `char::is_whitespace`: whether the character has the Unicode property
/// `White_Space`.
#[verifier::external_body]
fn char_is_whitespace(c: char) -> (r: bool)
    ensures
        r == is_whitespace(c),
{
    c.is_whitespace()
}

/// A string without whitespace at its ends, every run of whitespace inside
/// it turned into one space.
pub open spec fn squeezed(s: Seq<char>) -> Seq<char>
    decreases s.len(),
{
    if s.len() == 0 {
        Seq::empty()
    } else {
        let before = squeezed(s.drop_last());
        let c = s.last();
        if is_whitespace(c) {
            before
        } else if before.len() > 0 && s.len() >= 2 && is_whitespace(s[s.len() - 2]) {
            before.push(' ').push(c)
        } else {
            before.push(c)
        }
    }
}

/// The canonical form of a name.
pub open spec fn cleaned(s: Seq<char>) -> Seq<char> {
    squeezed(lowercased(trimmed(s)))
}

/// The characters of a string.
fn chars_of(s: &str) -> (r: Vec<char>)
    ensures
        r@ == s@,
{
    let n = s.unicode_len();
    let mut out: Vec<char> = Vec::new();
    let mut i: usize = 0;
    while i < n
        invariant
            i <= n,
            n == s@.len(),
            out@ == s@.take(i as int),
        decreases n - i,
    {
        out.push(s.get_char(i));
        assert(s@.take(i + 1) =~= s@.take(i as int).push(s@[i as int]));
        i = i + 1;
    }
    assert(s@.take(n as int) =~= s@);
    out
}

/// Turns every run of whitespace into one space and drops the whitespace at
/// the ends.
fn squeeze(chars: &Vec<char>) -> (r: Vec<char>)
    ensures
        r@ == squeezed(chars@),
{
    let mut out: Vec<char> = Vec::new();
    let mut after_space = false;
    let mut i: usize = 0;
    while i < chars.len()
        invariant
            i <= chars.len(),
            out@ == squeezed(chars@.take(i as int)),
            after_space == (i >= 1 && is_whitespace(chars@[i - 1])),
        decreases chars.len() - i,
    {
        let c = chars[i];
        proof {
            let upto = chars@.take(i + 1);
            assert(upto.drop_last() =~= chars@.take(i as int));
            assert(upto.last() == c);
            if i >= 1 {
                assert(upto[upto.len() - 2] == chars@[i - 1]);
            }
        }
        let space = char_is_whitespace(c);
        if !space {
            if out.len() > 0 && after_space {
                out.push(' ');
            }
            out.push(c);
        }
        after_space = space;
        i = i + 1;
    }
    assert(chars@.take(chars.len() as int) =~= chars@);
    out
}

/// Brings a name into its canonical form.
pub fn clean_str(input: &str) -> (r: String)
    ensures
        r@ == cleaned(input@),
{
    let stripped = trim(input);
    let lowered = lowercase(stripped.as_str());
    let chars = chars_of(lowered.as_str());
    let out = squeeze(&chars);
    string_of_chars(&out)
}

/// Whether a character is ASCII punctuation.
pub open spec fn is_punctuation(c: char) -> bool {
    let code = c as u32;
    (33 <= code <= 47) || (58 <= code <= 64) || (91 <= code <= 96) || (123 <= code <= 126)
}

/// A string without its ASCII punctuation.
pub open spec fn without_punctuation(s: Seq<char>) -> Seq<char>
    decreases s.len(),
{
    if s.len() == 0 {
        Seq::empty()
    } else if is_punctuation(s.last()) {
        without_punctuation(s.drop_last())
    } else {
        without_punctuation(s.drop_last()).push(s.last())
    }
}

/// Takes the ASCII punctuation out of a name in canonical form.
pub fn remove_punctuation(input: &str) -> (r: String)
    ensures
        r@ == without_punctuation(cleaned(input@)),
{
    let clean = clean_str(input);
    let chars = chars_of(clean.as_str());
    let mut out: Vec<char> = Vec::new();
    let mut i: usize = 0;
    while i < chars.len()
        invariant
            i <= chars.len(),
            out@ == without_punctuation(chars@.take(i as int)),
        decreases chars.len() - i,
    {
        let c = chars[i];
        proof {
            let upto = chars@.take(i + 1);
            assert(upto.drop_last() =~= chars@.take(i as int));
            assert(upto.last() == c);
        }
        let code = c as u32;
        let punctuation = (33 <= code && code <= 47) || (58 <= code && code <= 64) || (91 <= code
            && code <= 96) || (123 <= code && code <= 126);
        if !punctuation {
            out.push(c);
        }
        i = i + 1;
    }
    assert(chars@.take(chars.len() as int) =~= chars@);
    string_of_chars(&out)
}

/// Whether a word is an article.
pub open spec fn is_article(word: Seq<char>) -> bool {
    word == seq!['a'] || word == seq!['a', 'n'] || word == seq!['t', 'h', 'e']
}

/// The words kept so far with a word added, unless the word is empty or an
/// article.
pub open spec fn with_word(kept: Seq<char>, word: Seq<char>) -> Seq<char> {
    if word.len() == 0 || is_article(word) {
        kept
    } else if kept.len() == 0 {
        word
    } else {
        kept.push(' ') + word
    }
}

/// The words of a string that have been kept, and the word that is being
/// read at its end.
pub open spec fn words_read(s: Seq<char>) -> (Seq<char>, Seq<char>)
    decreases s.len(),
{
    if s.len() == 0 {
        (Seq::empty(), Seq::empty())
    } else {
        let (kept, word) = words_read(s.drop_last());
        if is_whitespace(s.last()) {
            (with_word(kept, word), Seq::empty())
        } else {
            (kept, word.push(s.last()))
        }
    }
}

/// The words of a string that are no articles, with one space between them.
pub open spec fn without_articles(s: Seq<char>) -> Seq<char> {
    with_word(words_read(s).0, words_read(s).1)
}

/// Whether a word is an article.
fn word_is_article(word: &Vec<char>) -> (r: bool)
    ensures
        r == is_article(word@),
{
    let n = word.len();
    let r = (n == 1 && word[0] == 'a') || (n == 2 && word[0] == 'a' && word[1] == 'n') || (n == 3
        && word[0] == 't' && word[1] == 'h' && word[2] == 'e');
    proof {
        if r {
            if n == 1 {
                assert(word@ =~= seq!['a']);
            } else if n == 2 {
                assert(word@ =~= seq!['a', 'n']);
            } else {
                assert(word@ =~= seq!['t', 'h', 'e']);
            }
        } else {
            if word@ == seq!['a'] {
                assert(word@[0] == 'a');
            }
            if word@ == seq!['a', 'n'] {
                assert(word@[0] == 'a' && word@[1] == 'n');
            }
            if word@ == seq!['t', 'h', 'e'] {
                assert(word@[0] == 't' && word@[1] == 'h' && word@[2] == 'e');
            }
        }
    }
    r
}

/// Adds a word to the words kept, unless it is empty or an article.
fn keep_word(kept: &mut Vec<char>, word: &Vec<char>)
    ensures
        final(kept)@ == with_word(old(kept)@, word@),
{
    if word.len() == 0 || word_is_article(word) {
        return ;
    }
    if kept.len() > 0 {
        kept.push(' ');
    }
    let ghost head = kept@;
    let mut i: usize = 0;
    while i < word.len()
        invariant
            i <= word.len(),
            kept@ == head + word@.take(i as int),
        decreases word.len() - i,
    {
        kept.push(word[i]);
        assert(word@.take(i + 1) =~= word@.take(i as int).push(word@[i as int]));
        assert(kept@ =~= head + word@.take(i + 1));
        i = i + 1;
    }
    proof {
        assert(word@.take(word.len() as int) =~= word@);
        if old(kept)@.len() == 0 {
            assert(head + word@ =~= word@);
        }
    }
}

/// Takes the articles out of a name in canonical form.
pub fn remove_articles(input: &str) -> (r: String)
    ensures
        r@ == without_articles(cleaned(input@)),
{
    let clean = clean_str(input);
    let chars = chars_of(clean.as_str());
    let mut kept: Vec<char> = Vec::new();
    let mut word: Vec<char> = Vec::new();
    let mut i: usize = 0;
    while i < chars.len()
        invariant
            i <= chars.len(),
            (kept@, word@) == words_read(chars@.take(i as int)),
        decreases chars.len() - i,
    {
        let c = chars[i];
        proof {
            let upto = chars@.take(i + 1);
            assert(upto.drop_last() =~= chars@.take(i as int));
            assert(upto.last() == c);
        }
        if char_is_whitespace(c) {
            keep_word(&mut kept, &word);
            word = Vec::new();
        } else {
            word.push(c);
        }
        i = i + 1;
    }
    assert(chars@.take(chars.len() as int) =~= chars@);
    keep_word(&mut kept, &word);
    string_of_chars(&kept)
}

/// Brings a name into its canonical form and takes out its articles and its
/// punctuation.
pub fn normalize_str(input: &str) -> (r: String)
    ensures
        r@ == without_punctuation(
            cleaned(without_articles(cleaned(cleaned(input@)))),
        ),
{
    let clean = clean_str(input);
    let bare = remove_articles(clean.as_str());
    remove_punctuation(bare.as_str())
}

} // verus!
