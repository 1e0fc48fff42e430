//! Canonical artist names.
//!
//! A name is brought into ASCII, put in lower case, and stripped of
//! whitespace at both ends; every run of whitespace inside it becomes one
//! space. Punctuation stays, and so does every word.

use unidecode::unidecode;
use vstd::prelude::*;

verus! {

/// What `unidecode::unidecode` makes of a string.
pub uninterp spec fn unidecoded(s: Seq<char>) -> Seq<char>;

/// Whether a character is ASCII.
pub open spec fn is_ascii_char(c: char) -> bool {
    (c as u32) < 128
}

/// Whether every character of a string is ASCII.
pub open spec fn all_ascii(s: Seq<char>) -> bool {
    forall|i: int| 0 <= i < s.len() ==> is_ascii_char(#[trigger] s[i])
}

/// A string brought into ASCII: itself, where it is ASCII, and else its
/// transliteration.
pub open spec fn transliterated(s: Seq<char>) -> Seq<char> {
    if all_ascii(s) {
        s
    } else {
        unidecoded(s).filter(|d: char| is_ascii_char(d))
    }
}

/// `unidecode::unidecode`: the ASCII transliteration of a string. The crate
/// maps every ASCII character to itself and yields nothing but ASCII.
#[verifier::external_body]
fn transliterate(input: &str) -> (r: Vec<char>)
    ensures
        r@ == (if all_ascii(input@) {
            input@
        } else {
            unidecoded(input@).filter(|d: char| is_ascii_char(d))
        }),
{
    unidecode(input).chars().collect()
}

/// What `str::to_lowercase` makes of a string.
pub uninterp spec fn lowercased(s: Seq<char>) -> Seq<char>;

/// `str::to_lowercase`: the lowercase equivalent of the string.
#[verifier::external_body]
pub(crate) fn lowercase(s: &str) -> (r: String)
    ensures
        r@ == lowercased(s@),
{
    s.to_lowercase()
}

/// What `str::trim` leaves of a string.
pub uninterp spec fn trimmed(s: Seq<char>) -> Seq<char>;

/// `str::trim`: the string without the whitespace at its ends.
#[verifier::external_body]
pub(crate) fn trim(s: &str) -> (r: String)
    ensures
        r@ == trimmed(s@),
{
    s.trim().to_string()
}

/// `String::push`: afterwards the string ends in the character.
#[verifier::external_body]
fn push_char(s: &mut String, c: char)
    ensures
        final(s)@ == old(s)@.push(c),
{
    s.push(c);
}

/// The string made of the characters.
pub(crate) fn string_of_chars(chars: &Vec<char>) -> (r: String)
    ensures
        r@ == chars@,
{
    let mut out = String::new();
    let mut i: usize = 0;
    while i < chars.len()
        invariant
            i <= chars.len(),
            out@ == chars@.take(i as int),
        decreases chars.len() - i,
    {
        push_char(&mut out, chars[i]);
        assert(chars@.take(i + 1) =~= chars@.take(i as int).push(chars@[i as int]));
        i = i + 1;
    }
    assert(chars@.take(chars.len() as int) =~= chars@);
    out
}

/// Whether an ASCII character is whitespace: a space, a tab, a line feed, a
/// vertical tab, a form feed or a carriage return.
pub open spec fn is_space(c: char) -> bool {
    c == ' ' || (9 <= c as u32 <= 13)
}

/// Whether a character is an ASCII capital.
pub open spec fn is_upper(c: char) -> bool {
    65 <= c as u32 <= 90
}

/// An ASCII capital in lower case; every other character as it is.
pub open spec fn lower(c: char) -> char {
    if is_upper(c) {
        ((c as u32 + 32) as u8) as char
    } else {
        c
    }
}

/// A string in lower case without whitespace at its ends, every run of
/// whitespace inside it turned into one space.
pub open spec fn squeezed(s: Seq<char>) -> Seq<char>
    decreases s.len(),
{
    if s.len() == 0 {
        Seq::empty()
    } else {
        let before = squeezed(s.drop_last());
        let c = s.last();
        if is_space(c) {
            before
        } else if before.len() > 0 && s.len() >= 2 && is_space(s[s.len() - 2]) {
            before.push(' ').push(lower(c))
        } else {
            before.push(lower(c))
        }
    }
}

/// The canonical form of a name.
pub open spec fn cleaned(s: Seq<char>) -> Seq<char> {
    squeezed(transliterated(s))
}

/// Whether an ASCII character is whitespace.
fn ascii_is_space(c: char) -> (r: bool)
    ensures
        r == is_space(c),
{
    let code = c as u32;
    code == 32 || (9 <= code && code <= 13)
}

/// Puts an ASCII capital in lower case.
fn ascii_lower(c: char) -> (r: char)
    ensures
        r == lower(c),
{
    let code = c as u32;
    if 65 <= code && code <= 90 {
        ((code + 32) as u8) as char
    } else {
        c
    }
}

/// Brings a name into its canonical form.
pub fn clean_str(input: &str) -> (r: String)
    ensures
        r@ == cleaned(input@),
{
    let ascii = transliterate(input);
    let mut out: Vec<char> = Vec::new();
    let mut i: usize = 0;
    while i < ascii.len()
        invariant
            i <= ascii.len(),
            out@ == squeezed(ascii@.take(i as int)),
        decreases ascii.len() - i,
    {
        let c = ascii[i];
        proof {
            let upto = ascii@.take(i + 1);
            assert(upto.drop_last() =~= ascii@.take(i as int));
            assert(upto.last() == c);
            if i >= 1 {
                assert(upto[upto.len() - 2] == ascii@[i - 1]);
            }
        }
        if !ascii_is_space(c) {
            if out.len() > 0 && i >= 1 && ascii_is_space(ascii[i - 1]) {
                out.push(' ');
            }
            out.push(ascii_lower(c));
        }
        i = i + 1;
    }
    assert(ascii@.take(ascii.len() as int) =~= ascii@);
    string_of_chars(&out)
}

/// Whether a string is in lower case, does not begin with whitespace, and
/// holds whitespace only as single spaces.
pub open spec fn is_tidy(s: Seq<char>) -> bool {
    &&& forall|i: int| 0 <= i < s.len() ==> !is_upper(#[trigger] s[i])
    &&& forall|i: int| 0 <= i < s.len() && is_space(#[trigger] s[i]) ==> s[i] == ' ' && i > 0
        && !is_space(s[i - 1])
}

/// A string without the space at its end, where it ends in one.
pub open spec fn stripped(s: Seq<char>) -> Seq<char> {
    if s.len() > 0 && is_space(s.last()) {
        s.drop_last()
    } else {
        s
    }
}

/// A squeezed string is tidy and does not end in whitespace.
pub proof fn lemma_squeezed_is_tidy(s: Seq<char>)
    ensures
        is_tidy(squeezed(s)),
        squeezed(s).len() > 0 ==> !is_space(squeezed(s).last()),
        all_ascii(s) ==> all_ascii(squeezed(s)),
    decreases s.len(),
{
    if s.len() > 0 {
        let p = s.drop_last();
        lemma_squeezed_is_tidy(p);
        let before = squeezed(p);
        let c = s.last();
        let r = squeezed(s);
        if all_ascii(s) {
            assert forall|i: int| 0 <= i < p.len() implies is_ascii_char(#[trigger] p[i]) by {
                assert(p[i] == s[i]);
            }
            assert(is_ascii_char(s[s.len() - 1]));
            assert(is_ascii_char(lower(c)));
            assert forall|i: int| 0 <= i < r.len() implies is_ascii_char(#[trigger] r[i]) by {
                if i < before.len() {
                    assert(r[i] == before[i]);
                }
            }
        }
        if !is_space(c) {
            assert(!is_space(lower(c)) && !is_upper(lower(c)));
            assert forall|i: int| 0 <= i < r.len() implies !is_upper(#[trigger] r[i]) by {
                if i < before.len() {
                    assert(r[i] == before[i]);
                }
            }
            assert forall|i: int| 0 <= i < r.len() && is_space(#[trigger] r[i]) implies r[i] == ' '
                && i > 0 && !is_space(r[i - 1]) by {
                if i < before.len() {
                    assert(r[i] == before[i]);
                    if i > 0 {
                        assert(r[i - 1] == before[i - 1]);
                    }
                } else if i == before.len() {
                    assert(r[i - 1] == before[i - 1]);
                }
            }
        }
    }
}

/// Squeezing a tidy string takes nothing from it but a space at its end.
pub proof fn lemma_squeezed_of_tidy(s: Seq<char>)
    requires
        is_tidy(s),
    ensures
        squeezed(s) == stripped(s),
    decreases s.len(),
{
    if s.len() > 0 {
        let p = s.drop_last();
        let c = s.last();
        assert forall|i: int| 0 <= i < p.len() implies !is_upper(#[trigger] p[i]) by {
            assert(p[i] == s[i]);
        }
        assert forall|i: int| 0 <= i < p.len() && is_space(#[trigger] p[i]) implies p[i] == ' '
            && i > 0 && !is_space(p[i - 1]) by {
            assert(p[i] == s[i]);
            if i > 0 {
                assert(p[i - 1] == s[i - 1]);
            }
        }
        lemma_squeezed_of_tidy(p);
        assert(s[s.len() - 1] == c);
        if is_space(c) {
            assert(!is_space(s[s.len() - 2]));
            assert(p.last() == s[s.len() - 2]);
            assert(squeezed(s) =~= stripped(s));
        } else {
            assert(lower(c) == c);
            if p.len() > 0 && is_space(p.last()) {
                assert(p[p.len() - 1] == p.last());
                assert(p.len() >= 2);
                assert(s[s.len() - 2] == p.last());
                assert(squeezed(s) =~= s);
            } else {
                if s.len() >= 2 {
                    assert(s[s.len() - 2] == p.last());
                }
                assert(squeezed(s) =~= s);
            }
        }
    }
}

/// A string brought into ASCII is ASCII.
pub proof fn lemma_transliterated_is_ascii(s: Seq<char>)
    ensures
        all_ascii(transliterated(s)),
{
    if !all_ascii(s) {
        let keep = |d: char| is_ascii_char(d);
        let r = unidecoded(s).filter(keep);
        assert forall|i: int| 0 <= i < r.len() implies is_ascii_char(#[trigger] r[i]) by {
            unidecoded(s).lemma_filter_pred(keep, i);
        }
    }
}

/// The canonical form of a canonical form is that form again.
pub proof fn lemma_clean_twice(x: Seq<char>)
    ensures
        cleaned(cleaned(x)) == cleaned(x),
{
    let t = transliterated(x);
    let y = cleaned(x);
    lemma_transliterated_is_ascii(x);
    lemma_squeezed_is_tidy(t);
    assert(transliterated(y) == y);
    lemma_squeezed_of_tidy(y);
}

} // verus!
