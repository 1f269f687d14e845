use vstd::prelude::*;
use vstd::utf8::{char_is_scalar, char_u32_cast, is_scalar};

use crate::chars::{chars_of, string_of};
use crate::text::{trim, trim_chars};

verus! {

broadcast use char_is_scalar, char_u32_cast;

/// The UTF-16 code units of `c`: one below U+10000, else a surrogate pair.
pub open spec fn utf16_units(c: char) -> Seq<u16> {
    let u = c as u32;
    if u < 0x10000 {
        seq![u as u16]
    } else {
        seq![(0xD800 + (u - 0x10000) / 0x400) as u16, (0xDC00 + (u - 0x10000) % 0x400) as u16]
    }
}

/// The UTF-16 encoding of `s`.
pub open spec fn utf16(s: Seq<char>) -> Seq<u16>
    decreases s.len(),
{
    if s.len() == 0 {
        Seq::empty()
    } else {
        utf16_units(s[0]) + utf16(s.drop_first())
    }
}

/// The unit is a high (leading) surrogate.
pub open spec fn is_high_surrogate(u: u16) -> bool {
    0xD800 <= u <= 0xDBFF
}

/// The unit is a low (trailing) surrogate.
pub open spec fn is_low_surrogate(u: u16) -> bool {
    0xDC00 <= u <= 0xDFFF
}

/// The character that a surrogate pair stands for.
pub open spec fn pair_char(hi: u16, lo: u16) -> char {
    ((hi - 0xD800) * 0x400 + (lo - 0xDC00) + 0x10000) as char
}

/// UTF-16 units read as text, with U+FFFD in place of each unit that is
/// not part of a well-formed character (a lone surrogate); what
/// `String::from_utf16_lossy` gives.
pub open spec fn decode_utf16_lossy(u: Seq<u16>) -> Seq<char>
    decreases u.len(),
{
    if u.len() == 0 {
        Seq::empty()
    } else if !(0xD800 <= u[0] <= 0xDFFF) {
        seq![u[0] as char] + decode_utf16_lossy(u.drop_first())
    } else if is_high_surrogate(u[0]) && u.len() >= 2 && is_low_surrogate(u[1]) {
        seq![pair_char(u[0], u[1])] + decode_utf16_lossy(u.skip(2))
    } else {
        seq!['\u{FFFD}'] + decode_utf16_lossy(u.drop_first())
    }
}

/// The units before the first NUL (all of them where there is none).
pub open spec fn before_nul(u: Seq<u16>) -> Seq<u16>
    decreases u.len(),
{
    if u.len() == 0 {
        u
    } else if u[0] == 0 {
        Seq::empty()
    } else {
        seq![u[0]] + before_nul(u.drop_first())
    }
}

/// Calls `char::from_u32`. Claimed, as its documentation says: a
/// character exactly where `v` is a Unicode scalar value (at most
/// U+10FFFF and not a surrogate), and then the character with that code.
#[verifier::external_body]
fn char_from_u32(v: u32) -> (r: Option<char>)
    ensures
        r is Some <==> is_scalar(v),
        r matches Some(c) ==> c as u32 == v && c == v as char,
{
    char::from_u32(v)
}

proof fn lemma_utf16_push(s: Seq<char>, c: char)
    ensures
        utf16(s.push(c)) == utf16(s) + utf16_units(c),
    decreases s.len(),
{
    if s.len() == 0 {
        assert(s.push(c).drop_first() =~= Seq::<char>::empty());
        assert(utf16(s.push(c).drop_first()) == Seq::<u16>::empty());
        assert(utf16(s) == Seq::<u16>::empty());
        assert(utf16(s.push(c)) =~= utf16_units(c));
    } else {
        lemma_utf16_push(s.drop_first(), c);
        assert(s.push(c).drop_first() =~= s.drop_first().push(c));
        assert(utf16(s.push(c)) =~= utf16(s) + utf16_units(c));
    }
}

proof fn lemma_decode_units(c: char, t: Seq<u16>)
    ensures
        decode_utf16_lossy(utf16_units(c) + t) == seq![c] + decode_utf16_lossy(t),
{
    let u = c as u32;
    let x = utf16_units(c) + t;
    if u < 0x10000 {
        assert(x.drop_first() =~= t);
        assert((u as u16) as char == c);
    } else {
        let v = u - 0x10000;
        assert(v / 0x400 < 0x400 && v % 0x400 < 0x400);
        assert(x.skip(2) =~= t);
        assert((v / 0x400) * 0x400 + v % 0x400 == v);
        assert(pair_char(x[0], x[1]) == c);
    }
}

proof fn lemma_utf16_no_nul(s: Seq<char>, t: Seq<u16>)
    requires
        forall|i: int| 0 <= i < s.len() ==> s[i] != '\0',
    ensures
        before_nul(utf16(s) + seq![0u16] + t) == utf16(s),
    decreases s.len(),
{
    if s.len() == 0 {
        assert(utf16(s) == Seq::<u16>::empty());
        assert((utf16(s) + seq![0u16] + t)[0] == 0);
        assert(before_nul(utf16(s) + seq![0u16] + t) == Seq::<u16>::empty());
    } else {
        let rest = s.drop_first();
        lemma_utf16_no_nul(rest, t);
        let units = utf16_units(s[0]);
        let all = utf16(s) + seq![0u16] + t;
        assert(all =~= units + (utf16(rest) + seq![0u16] + t));
        if s[0] as u32 == 0 {
            char_u32_cast(s[0], 0);
            char_u32_cast('\0', 0);
        }
        assert(s[0] as u32 != 0);
        if units.len() == 1 {
            let w = s[0] as u32;
            assert(w != 0 && w < 0x10000);
            assert((w as u16) != 0u16) by (bit_vector)
                requires
                    w != 0 && w < 0x10000,
            ;
            assert(all[0] == units[0] && units[0] != 0);
            assert(all.drop_first() =~= utf16(rest) + seq![0u16] + t);
            assert(utf16(s) =~= seq![units[0]] + utf16(rest));
        } else {
            let tail = seq![units[1]] + (utf16(rest) + seq![0u16] + t);
            assert(all.drop_first() =~= tail);
            assert(tail.drop_first() =~= utf16(rest) + seq![0u16] + t);
            let w = s[0] as u32;
            char_is_scalar(s[0]);
            assert(is_scalar(w));
            let v = w - 0x10000;
            assert(0 <= v <= 0xFFFFF);
            assert(v / 0x400 <= 0x3FF);
            let h = 0xD800 + v / 0x400;
            assert(0xD800 <= h < 0x10000);
            assert(units[0] == h as u16);
            assert(units[0] != 0u16);
            assert(all[0] == units[0]);
            assert(units[1] != 0u16);
            assert(before_nul(tail) == seq![units[1]] + utf16(rest));
            assert(utf16(s) =~= seq![units[0]] + (seq![units[1]] + utf16(rest)));
        }
    }
}

proof fn lemma_decode_utf16(s: Seq<char>)
    ensures
        decode_utf16_lossy(utf16(s)) == s,
    decreases s.len(),
{
    if s.len() > 0 {
        lemma_decode_utf16(s.drop_first());
        lemma_decode_units(s[0], utf16(s.drop_first()));
        assert(seq![s[0]] + s.drop_first() =~= s);
    }
}

/// Law: text that holds no NUL character, put on the clipboard in the form
/// that [`TextInjector::wide_nul_terminated`] gives, reads back unchanged
/// through [`TextInjector::nul_terminated_len`] and
/// [`TextInjector::decode_utf16`]; so the clipboard text saved before a
/// paste is restored as it was.
pub proof fn law_clipboard_text_reads_back(s: Seq<char>, rest: Seq<u16>)
    requires
        forall|i: int| 0 <= i < s.len() ==> s[i] != '\0',
    ensures
        decode_utf16_lossy(before_nul(utf16(s).push(0) + rest)) == s,
{
    lemma_utf16_no_nul(s, rest);
    assert(utf16(s).push(0) + rest =~= utf16(s) + seq![0u16] + rest);
    lemma_decode_utf16(s);
}

/// Virtual-key code of the Ctrl key.
pub const VK_CONTROL: u16 = 0x11;

/// Virtual-key code of the V key.
pub const VK_V: u16 = 0x56;

/// One synthesized key event: a key going down or coming up.
#[derive(Clone, Copy, Debug, PartialEq, Eq, Structural)]
pub struct KeyStroke {
    pub vk: u16,
    pub key_up: bool,
}

/// Pastes text into the window that has the focus, through the clipboard
/// and a synthesized Ctrl+V. What it decides and the data it hands the
/// system are here; the system calls are the application's.
pub struct TextInjector;

impl TextInjector {
    /// Text is pasted only where it holds something besides whitespace.
    pub fn should_paste(text: &str) -> (b: bool)
        ensures
            b == (trim(text@).len() > 0),
    {
        let c = chars_of(text);
        let t = trim_chars(&c);
        t.len() > 0
    }

    /// The clipboard's earlier text is put back after a paste only where it
    /// was not empty.
    pub fn should_restore(previous: &str) -> (b: bool)
        ensures
            b == (previous@.len() > 0),
    {
        !previous.is_empty()
    }

    /// `text` in UTF-16 followed by a NUL unit: the form in which the
    /// clipboard takes Unicode text.
    pub fn wide_nul_terminated(text: &str) -> (r: Vec<u16>)
        ensures
            r@ == utf16(text@).push(0),
    {
        let c = chars_of(text);
        let mut r: Vec<u16> = Vec::new();
        let mut i: usize = 0;
        assert(c@.take(0) =~= Seq::<char>::empty());
        while i < c.len()
            invariant
                c@ == text@,
                i <= c.len(),
                r@ == utf16(c@.take(i as int)),
            decreases c.len() - i,
        {
            let u = c[i] as u32;
            let ghost before = r@;
            proof {
                lemma_utf16_push(c@.take(i as int), c@[i as int]);
                assert(c@.take(i + 1) =~= c@.take(i as int).push(c@[i as int]));
            }
            if u < 0x10000 {
                r.push(u as u16);
            } else {
                let v = u - 0x10000;
                r.push((0xD800 + v / 0x400) as u16);
                r.push((0xDC00 + v % 0x400) as u16);
            }
            assert(r@ =~= before + utf16_units(c@[i as int]));
            i += 1;
        }
        assert(c@.take(c.len() as int) =~= c@);
        r.push(0);
        r
    }

    /// The number of units before the first NUL in a buffer of UTF-16
    /// text (all of them where there is none).
    pub fn nul_terminated_len(buf: &[u16]) -> (n: usize)
        ensures
            n <= buf@.len(),
            buf@.take(n as int) == before_nul(buf@),
    {
        let mut i: usize = 0;
        assert(buf@.skip(0) =~= buf@);
        assert(buf@.take(0) + before_nul(buf@) =~= before_nul(buf@));
        while i < buf.len()
            invariant
                i <= buf@.len(),
                forall|j: int| 0 <= j < i ==> buf@[j] != 0,
                before_nul(buf@) == buf@.take(i as int) + before_nul(buf@.skip(i as int)),
            decreases buf@.len() - i,
        {
            let ghost rest = buf@.skip(i as int);
            assert(rest.drop_first() =~= buf@.skip(i + 1));
            if buf[i] == 0 {
                assert(buf@.take(i as int) + Seq::<u16>::empty() =~= buf@.take(i as int));
                return i;
            }
            assert(buf@.take(i as int) + (seq![buf@[i as int]] + before_nul(buf@.skip(i + 1)))
                =~= buf@.take(i + 1) + before_nul(buf@.skip(i + 1)));
            i += 1;
        }
        assert(buf@.skip(i as int) =~= Seq::<u16>::empty());
        assert(buf@.take(i as int) + Seq::<u16>::empty() =~= buf@.take(i as int));
        i
    }

    /// Reads UTF-16 units as text, with U+FFFD in place of each lone
    /// surrogate.
    pub fn decode_utf16(units: &[u16]) -> (r: String)
        ensures
            r@ == decode_utf16_lossy(units@),
    {
        let mut out: Vec<char> = Vec::new();
        let mut i: usize = 0;
        assert(units@.skip(0) =~= units@);
        assert(out@ + decode_utf16_lossy(units@) =~= decode_utf16_lossy(units@));
        while i < units.len()
            invariant
                i <= units@.len(),
                decode_utf16_lossy(units@) == out@ + decode_utf16_lossy(units@.skip(i as int)),
            decreases units@.len() - i,
        {
            let a = units[i];
            let ghost rest = units@.skip(i as int);
            let ghost before = out@;
            if a < 0xD800 || a > 0xDFFF {
                assert(rest.drop_first() =~= units@.skip(i + 1));
                let c = match char_from_u32(a as u32) {
                    Some(c) => c,
                    None => '\u{FFFD}',
                };
                out.push(c);
                assert(before + (seq![a as char] + decode_utf16_lossy(units@.skip(i + 1))) =~= out@
                    + decode_utf16_lossy(units@.skip(i + 1)));
                i += 1;
            } else if a <= 0xDBFF && i + 1 < units.len() && 0xDC00 <= units[i + 1] && units[i + 1]
                <= 0xDFFF {
                let b = units[i + 1];
                assert(rest.skip(2) =~= units@.skip(i + 2));
                let v: u32 = (a as u32 - 0xD800) * 0x400 + (b as u32 - 0xDC00) + 0x10000;
                let c = match char_from_u32(v) {
                    Some(c) => c,
                    None => '\u{FFFD}',
                };
                out.push(c);
                assert(before + (seq![pair_char(a, b)] + decode_utf16_lossy(units@.skip(i + 2)))
                    =~= out@ + decode_utf16_lossy(units@.skip(i + 2)));
                i += 2;
            } else {
                assert(rest.drop_first() =~= units@.skip(i + 1));
                out.push('\u{FFFD}');
                assert(before + (seq!['\u{FFFD}'] + decode_utf16_lossy(units@.skip(i + 1)))
                    =~= out@ + decode_utf16_lossy(units@.skip(i + 1)));
                i += 1;
            }
        }
        assert(units@.skip(i as int) =~= Seq::<u16>::empty());
        assert(out@ + Seq::<char>::empty() =~= out@);
        string_of(&out)
    }

    /// The key events that paste: Ctrl down, V down, V up, Ctrl up.
    pub fn ctrl_v_keystrokes() -> (r: Vec<KeyStroke>)
        ensures
            r@ == seq![
                KeyStroke { vk: VK_CONTROL, key_up: false },
                KeyStroke { vk: VK_V, key_up: false },
                KeyStroke { vk: VK_V, key_up: true },
                KeyStroke { vk: VK_CONTROL, key_up: true },
            ],
    {
        let mut r: Vec<KeyStroke> = Vec::new();
        r.push(KeyStroke { vk: VK_CONTROL, key_up: false });
        r.push(KeyStroke { vk: VK_V, key_up: false });
        r.push(KeyStroke { vk: VK_V, key_up: true });
        r.push(KeyStroke { vk: VK_CONTROL, key_up: true });
        assert(r@ =~= seq![
            KeyStroke { vk: VK_CONTROL, key_up: false },
            KeyStroke { vk: VK_V, key_up: false },
            KeyStroke { vk: VK_V, key_up: true },
            KeyStroke { vk: VK_CONTROL, key_up: true },
        ]);
        r
    }
}

} // verus!
