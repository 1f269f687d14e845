use vstd::prelude::*;
use vstd::utf8::is_ascii_chars;

verus! {

/// Whether `c` has the Unicode `White_Space` property, the definition of
/// whitespace that trimming and word splitting use.
pub open spec fn white_space(c: char) -> bool {
    ||| '\u{9}' <= c <= '\u{d}'
    ||| c == ' '
    ||| c == '\u{85}'
    ||| c == '\u{a0}'
    ||| c == '\u{1680}'
    ||| '\u{2000}' <= c <= '\u{200a}'
    ||| c == '\u{2028}'
    ||| c == '\u{2029}'
    ||| c == '\u{202f}'
    ||| c == '\u{205f}'
    ||| c == '\u{3000}'
}

/// Whether `c` is whitespace in the sense of [`white_space`].
pub fn is_whitespace(c: char) -> (b: bool)
    ensures
        b == white_space(c),
{
    ('\u{9}' <= c && c <= '\u{d}') || c == ' ' || c == '\u{85}' || c == '\u{a0}' || c
        == '\u{1680}' || ('\u{2000}' <= c && c <= '\u{200a}') || c == '\u{2028}' || c
        == '\u{2029}' || c == '\u{202f}' || c == '\u{205f}' || c == '\u{3000}'
}

/// What `str::to_lowercase` gives for a string of these characters (the
/// full Unicode lowercase mapping).
pub uninterp spec fn lowercase(s: Seq<char>) -> Seq<char>;

/// What `char::to_uppercase` yields for `c` (the full Unicode uppercase
/// mapping, one or more characters).
pub uninterp spec fn uppercase(c: char) -> Seq<char>;

/// The lower-case form of an ASCII character: `'A'` to `'Z'` become `'a'`
/// to `'z'`, every other character stays as it is.
pub open spec fn ascii_lower(c: char) -> char {
    if 'A' <= c <= 'Z' {
        ((c as u32) + 32) as char
    } else {
        c
    }
}

/// Lowercasing ASCII text gives ASCII text just as long.
pub proof fn lemma_ascii_lower_ascii(s: Seq<char>)
    requires
        is_ascii_chars(s),
    ensures
        is_ascii_chars(s.map_values(|c: char| ascii_lower(c))),
        s.map_values(|c: char| ascii_lower(c)).len() == s.len(),
{
    let m = s.map_values(|c: char| ascii_lower(c));
    assert forall|i: int| 0 <= i < m.len() implies '\0' <= #[trigger] m[i] <= '\u{7f}' by {
        let c = s[i];
        assert(m[i] == ascii_lower(c));
        if 'A' <= c <= 'Z' {
            let u = c as u32;
            assert(65 <= u <= 90);
            assert(((u + 32) as u32) as char == m[i]);
        }
    }
}

/// Calls `str::to_lowercase`. Claimed: the result is the function
/// [`lowercase`] of the characters of `s`; and for ASCII text, each
/// character's one lower-case form (the Unicode mapping of `'A'` to `'Z'`
/// onto `'a'` to `'z'`, with no mapping for the other ASCII characters, so
/// that they stay as they are).
#[verifier::external_body]
pub(crate) fn to_lowercase(s: &str) -> (r: String)
    ensures
        r@ == lowercase(s@),
        is_ascii_chars(s@) ==> r@ == s@.map_values(|c: char| ascii_lower(c)),
{
    s.to_lowercase()
}

/// The upper-case form of an ASCII character: `'a'` to `'z'` become `'A'`
/// to `'Z'`, every other character stays as it is.
pub open spec fn ascii_upper(c: char) -> char {
    if 'a' <= c <= 'z' {
        ((c as u32) - 32) as char
    } else {
        c
    }
}

/// Calls `char::to_uppercase` and collects what it yields. Claimed: the
/// result is [`uppercase`] of `c`; (as its documentation says) it holds
/// at least one character; and for an ASCII character it is that
/// character's one upper-case form (the Unicode mapping of `'a'` to `'z'`
/// onto `'A'` to `'Z'`, with no mapping for the other ASCII characters, so
/// that they stay as they are).
#[verifier::external_body]
pub(crate) fn to_uppercase(c: char) -> (r: String)
    ensures
        r@ == uppercase(c),
        r@.len() >= 1,
        c <= '\u{7f}' ==> r@ == seq![ascii_upper(c)],
{
    c.to_uppercase().collect()
}

} // verus!
