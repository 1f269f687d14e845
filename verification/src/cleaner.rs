use vstd::prelude::*;
use vstd::utf8::{
    decode_utf8, encode_utf8, encode_utf8_decode_utf8, encode_utf8_valid_utf8, is_ascii_chars,
    is_ascii_chars_encode_utf8, is_char_boundary, is_char_boundary_iff_not_is_continuation_byte,
    is_char_boundary_start_end_of_seq, valid_utf8, valid_utf8_split, encode_scalar,
    has_width_1_encoding, leading_byte_width_2, leading_byte_width_3, leading_byte_width_4,
};

use crate::chars::{append_chars, chars_of, string_of, sub_chars};
use crate::text::{
    collapse_ws, collapse_ws_chars, law_collapse_single_spaced, law_trim_no_outer_whitespace,
    law_tidy_drops_space_before_punct, lemma_collapse_fixed, lemma_collapse_nonempty, lemma_tighten_fixed, lemma_trim_ascii, lemma_trim_fixed,
    single_spaced, tight_before_punct, tighten_punct, tighten_punct_chars, trim, trim_chars,
};
use crate::unicode::{ascii_upper, lemma_ascii_lower_ascii, lowercase, to_lowercase, to_uppercase, uppercase, white_space};

verus! {

/// A dictionary entry as plain values: the word to look for and the text
/// that replaces it.
pub type EntryView = (Seq<char>, Seq<char>);

/// The plain values of a list of dictionary entries.
pub open spec fn entry_views(v: Seq<(String, String)>) -> Seq<EntryView> {
    v.map_values(|e: (String, String)| (e.0@, e.1@))
}

/// No two entries have the same key.
pub open spec fn keys_distinct(s: Seq<EntryView>) -> bool {
    forall|i: int, j: int| 0 <= i < s.len() && 0 <= j < s.len() && i != j ==> s[i].0 != s[j].0
}

/// Every key is non-empty.
pub open spec fn keys_nonempty(s: Seq<EntryView>) -> bool {
    forall|i: int| 0 <= i < s.len() ==> (#[trigger] s[i]).0.len() > 0
}

/// The map from key to replacement that the entries describe (a later entry
/// wins over an earlier one with the same key).
pub open spec fn entries_map(s: Seq<EntryView>) -> Map<Seq<char>, Seq<char>>
    decreases s.len(),
{
    if s.len() == 0 {
        Map::empty()
    } else {
        entries_map(s.drop_last()).insert(s.last().0, s.last().1)
    }
}

/// The length in bytes of the UTF-8 encoding of `k` (what `str::len`
/// returns).
pub open spec fn byte_len(k: Seq<char>) -> usize {
    encode_utf8(k).len() as usize
}

/// `sorted` with `x` put after every entry whose key is at least as long as
/// the key of `x` (in bytes), and before the others.
pub open spec fn insert_by_len(sorted: Seq<EntryView>, x: EntryView) -> Seq<EntryView>
    decreases sorted.len(),
{
    if sorted.len() == 0 {
        seq![x]
    } else if byte_len(sorted.last().0) >= byte_len(x.0) {
        sorted.push(x)
    } else {
        insert_by_len(sorted.drop_last(), x).push(sorted.last())
    }
}

/// The entries ordered by key length in bytes, longest first; entries
/// whose keys are equally long keep their order (a stable sort).
pub open spec fn sort_by_len(s: Seq<EntryView>) -> Seq<EntryView>
    decreases s.len(),
{
    if s.len() == 0 {
        s
    } else {
        insert_by_len(sort_by_len(s.drop_last()), s.last())
    }
}

/// The first position at or after `start` where the bytes `p` occur in
/// `h` (what `str::find` gives, counted from the start of `h`).
pub open spec fn byte_find(h: Seq<u8>, p: Seq<u8>, start: int) -> Option<int>
    decreases h.len() - start,
{
    if start < 0 || start + p.len() > h.len() {
        None
    } else if h.subrange(start, start + p.len()) =~= p {
        Some(start)
    } else {
        proof {
            if p.len() == 0 {
                assert(h.subrange(start, start + p.len()) =~= p);
            }
        }
        byte_find(h, p, start + 1)
    }
}

/// Where [`byte_find`] finds the bytes, they occur, at or after the start.
pub proof fn lemma_byte_find(h: Seq<u8>, p: Seq<u8>, start: int)
    ensures
        byte_find(h, p, start) matches Some(a) ==> start <= a && a + p.len() <= h.len()
            && h.subrange(a, a + p.len()) =~= p,
    decreases h.len() - start,
{
    if start >= 0 && start + p.len() <= h.len() && !(h.subrange(start, start + p.len()) =~= p) {
        if p.len() == 0 {
            assert(h.subrange(start, start + p.len()) =~= p);
        }
        lemma_byte_find(h, p, start + 1);
    }
}

/// The bytes that a case-insensitive replacement writes, or `None` where
/// it stops with a panic. `t` is the text, `lt` its lowercase form, `lf`
/// the lowercase form of the word, `flen` the word's own length, `r` the
/// replacement, all in UTF-8, and `last` where the text not yet copied
/// starts. The next occurrence of `lf` is looked for in `lt` from `last`
/// on; the bytes of `t` from `last` up to that position are copied, then
/// `r`, and the search goes on `flen` bytes after the occurrence; at the
/// end the rest of `t` is copied. Byte positions found in `lt` are used in
/// `t` as they are: slicing `t` or `lt` between characters panics.
pub open spec fn replace_bytes(
    t: Seq<u8>,
    lt: Seq<u8>,
    lf: Seq<u8>,
    flen: int,
    r: Seq<u8>,
    last: int,
) -> Option<Seq<u8>>
    decreases lt.len() - last,
{
    if flen <= 0 || last < 0 || last > lt.len() || !is_char_boundary(lt, last) {
        None
    } else {
        match byte_find(lt, lf, last) {
            None => if is_char_boundary(t, last) {
                Some(t.subrange(last, t.len() as int))
            } else {
                None
            },
            Some(a) => {
                proof {
                    lemma_byte_find(lt, lf, last);
                }
                if is_char_boundary(t, last) && is_char_boundary(t, a) && a + flen <= lt.len() {
                    match replace_bytes(t, lt, lf, flen, r, a + flen) {
                        Some(rest) => Some(t.subrange(last, a) + r + rest),
                        None => None,
                    }
                } else {
                    None
                }
            },
        }
    }
}

/// The UTF-8 bytes of the case-insensitive replacement of `from` by `to`
/// in `t`, given the lowercase forms `lt` of `t` and `lf` of `from` (see
/// [`replace_bytes`]); `None` where it panics.
pub open spec fn ci_replace(
    t: Seq<char>,
    lt: Seq<char>,
    from: Seq<char>,
    lf: Seq<char>,
    to: Seq<char>,
) -> Option<Seq<u8>> {
    replace_bytes(
        encode_utf8(t),
        encode_utf8(lt),
        encode_utf8(lf),
        encode_utf8(from).len() as int,
        encode_utf8(to),
        0,
    )
}

/// Every byte is an ASCII byte (below 0x80).
pub open spec fn ascii_bytes(b: Seq<u8>) -> bool {
    forall|i: int| 0 <= i < b.len() ==> #[trigger] b[i] < 0x80
}

/// The UTF-8 encoding of ASCII text is one ASCII byte per character.
proof fn lemma_encode_ascii(s: Seq<char>)
    requires
        is_ascii_chars(s),
    ensures
        encode_utf8(s).len() == s.len(),
        ascii_bytes(encode_utf8(s)),
        valid_utf8(encode_utf8(s)),
{
    is_ascii_chars_encode_utf8(s);
    encode_utf8_valid_utf8(s);
    assert forall|i: int| 0 <= i < encode_utf8(s).len() implies #[trigger] encode_utf8(s)[i]
        < 0x80 by {
        let c = s[i];
        assert('\0' <= c <= '\u{7f}');
        let u = c as u32;
        assert(u < 0x80);
        assert(c as u8 == encode_utf8(s)[i]);
        assert((u as u8) < 0x80) by (bit_vector)
            requires
                u < 0x80,
        ;
    }
}

proof fn lemma_char_ascii(c: char)
    requires
        (c as u32) <= 0x7f,
    ensures
        '\0' <= c <= '\u{7f}',
{
}

/// Text whose UTF-8 encoding is all ASCII bytes is ASCII text.
proof fn lemma_ascii_bytes_chars(s: Seq<char>)
    requires
        ascii_bytes(encode_utf8(s)),
    ensures
        is_ascii_chars(s),
    decreases s.len(),
{
    if s.len() > 0 {
        let u = s[0] as u32;
        let e = encode_scalar(u);
        let rest = encode_utf8(s.drop_first());
        assert(encode_utf8(s) == e + rest);
        assert(encode_utf8(s)[0] == e[0]);
        assert(e[0] < 0x80);
        if !has_width_1_encoding(u) {
            let b2 = leading_byte_width_2(u);
            let b3 = leading_byte_width_3(u);
            let b4 = leading_byte_width_4(u);
            assert(b2 >= 0x80 && b3 >= 0x80 && b4 >= 0x80) by (bit_vector)
                requires
                    b2 == 0xC0u8 | ((u >> 6u32) & 0x1Fu32) as u8,
                    b3 == 0xE0u8 | ((u >> 12u32) & 0x0Fu32) as u8,
                    b4 == 0xF0u8 | ((u >> 18u32) & 0x7u32) as u8,
            ;
            assert(e[0] == b2 || e[0] == b3 || e[0] == b4);
        }
        assert(has_width_1_encoding(u));
        lemma_char_ascii(s[0]);
        assert forall|i: int| 0 <= i < rest.len() implies #[trigger] rest[i] < 0x80 by {
            assert(encode_utf8(s)[e.len() + i] == rest[i]);
        }
        lemma_ascii_bytes_chars(s.drop_first());
        assert forall|i: int| 0 <= i < s.len() implies '\0' <= #[trigger] s[i] <= '\u{7f}' by {
            if i > 0 {
                assert(s[i] == s.drop_first()[i - 1]);
            }
        }
    }
}

/// In valid UTF-8 made of ASCII bytes, every position is a character
/// boundary.
proof fn lemma_ascii_boundary(b: Seq<u8>, i: int)
    requires
        valid_utf8(b),
        ascii_bytes(b),
        0 <= i <= b.len(),
    ensures
        is_char_boundary(b, i),
{
    if i == b.len() {
        is_char_boundary_start_end_of_seq(b);
    } else {
        is_char_boundary_iff_not_is_continuation_byte(b, i);
        assert(b[i] < 0x80);
    }
}

/// On ASCII text whose lowercase form is just as long, the byte-level
/// replacement never slices between characters: it always goes through.
proof fn lemma_replace_bytes_ascii(
    t: Seq<u8>,
    lt: Seq<u8>,
    lf: Seq<u8>,
    flen: int,
    r: Seq<u8>,
    last: int,
)
    requires
        valid_utf8(t),
        valid_utf8(lt),
        ascii_bytes(t),
        ascii_bytes(lt),
        t.len() == lt.len(),
        flen == lf.len(),
        flen > 0,
        0 <= last <= lt.len(),
    ensures
        replace_bytes(t, lt, lf, flen, r, last) is Some,
        ascii_bytes(r) ==> ascii_bytes(replace_bytes(t, lt, lf, flen, r, last)->0),
    decreases lt.len() - last,
{
    lemma_ascii_boundary(lt, last);
    lemma_ascii_boundary(t, last);
    lemma_byte_find(lt, lf, last);
    if let Some(a) = byte_find(lt, lf, last) {
        lemma_ascii_boundary(t, a);
        lemma_replace_bytes_ascii(t, lt, lf, flen, r, a + flen);
    }
}

/// Law: on ASCII text and an ASCII word whose lowercase forms are ASCII
/// and just as long, the case-insensitive replacement always goes through,
/// and with an ASCII replacement it writes only ASCII bytes.
pub proof fn law_ci_replace_ascii(
    t: Seq<char>,
    lt: Seq<char>,
    from: Seq<char>,
    lf: Seq<char>,
    to: Seq<char>,
)
    requires
        is_ascii_chars(t),
        is_ascii_chars(lt),
        is_ascii_chars(from),
        is_ascii_chars(lf),
        lt.len() == t.len(),
        lf.len() == from.len(),
        from.len() > 0,
    ensures
        ci_replace(t, lt, from, lf, to) is Some,
        is_ascii_chars(to) ==> ascii_bytes(ci_replace(t, lt, from, lf, to)->0),
{
    lemma_encode_ascii(t);
    lemma_encode_ascii(lt);
    lemma_encode_ascii(from);
    lemma_encode_ascii(lf);
    if is_ascii_chars(to) {
        lemma_encode_ascii(to);
    }
    lemma_replace_bytes_ascii(
        encode_utf8(t),
        encode_utf8(lt),
        encode_utf8(lf),
        encode_utf8(from).len() as int,
        encode_utf8(to),
        0,
    );
}

/// Every key and every replacement of the entries is ASCII text.
pub open spec fn dict_ascii(d: Seq<EntryView>) -> bool {
    forall|i: int| 0 <= i < d.len() ==> is_ascii_chars(#[trigger] d[i].0) && is_ascii_chars(d[i].1)
}

/// Ordering the entries by key length keeps them ASCII.
proof fn lemma_sort_ascii(d: Seq<EntryView>)
    requires
        dict_ascii(d),
    ensures
        dict_ascii(sort_by_len(d)),
{
    broadcast use vstd::seq_lib::to_multiset_contains;

    law_sort_by_len(d);
    let s = sort_by_len(d);
    assert forall|i: int| 0 <= i < s.len() implies is_ascii_chars(#[trigger] s[i].0)
        && is_ascii_chars(s[i].1) by {
        assert(s.contains(s[i]));
        assert(s.to_multiset().count(s[i]) > 0);
        assert(d.contains(s[i]));
        let j = choose|j: int| 0 <= j < d.len() && d[j] == s[i];
        assert(is_ascii_chars(d[j].0));
    }
}

/// One case-insensitive replacement of `from` by `to` in `t` (see
/// [`ci_replace`]): the text whose UTF-8 bytes it writes, or `None` where
/// it panics.
pub open spec fn fold_replace(t: Seq<char>, from: Seq<char>, to: Seq<char>) -> Option<Seq<char>> {
    match ci_replace(t, lowercase(t), from, lowercase(from), to) {
        Some(b) => Some(decode_utf8(b)),
        None => None,
    }
}

/// The text after the replacements of `rules`, applied one after the other
/// in their order, or `None` where one of them panics.
pub open spec fn apply_rules(rules: Seq<EntryView>, t: Seq<char>) -> Option<Seq<char>>
    decreases rules.len(),
{
    if rules.len() == 0 {
        Some(t)
    } else {
        match apply_rules(rules.drop_last(), t) {
            Some(u) => fold_replace(u, rules.last().0, rules.last().1),
            None => None,
        }
    }
}

/// Where all the replacements of `rules` go through, so do those of each
/// of its first `k` rules.
proof fn lemma_apply_rules_prefix(rules: Seq<EntryView>, t: Seq<char>, k: int)
    requires
        0 <= k <= rules.len(),
        apply_rules(rules, t) is Some,
    ensures
        apply_rules(rules.take(k), t) is Some,
    decreases rules.len(),
{
    if k == rules.len() {
        assert(rules.take(k) =~= rules);
    } else {
        assert(rules.take(k) =~= rules.drop_last().take(k));
        lemma_apply_rules_prefix(rules.drop_last(), t, k);
    }
}

/// One more rule: the replacements of the first `k + 1` rules are those
/// of the first `k`, then that of rule `k`.
proof fn lemma_apply_rules_step(rules: Seq<EntryView>, t: Seq<char>, k: int)
    requires
        0 <= k < rules.len(),
    ensures
        apply_rules(rules.take(k + 1), t) == (match apply_rules(rules.take(k), t) {
            Some(u) => fold_replace(u, rules[k].0, rules[k].1),
            None => None,
        }),
{
    assert(rules.take(k + 1).drop_last() =~= rules.take(k));
    assert(rules.take(k + 1).last() == rules[k]);
}

/// Where the replacements of the first `k` rules do not go through, those
/// of all the rules do not either.
proof fn lemma_apply_rules_stops(rules: Seq<EntryView>, t: Seq<char>, k: int)
    requires
        0 <= k <= rules.len(),
        apply_rules(rules.take(k), t) is None,
    ensures
        apply_rules(rules, t) is None,
{
    if apply_rules(rules, t) is Some {
        lemma_apply_rules_prefix(rules, t, k);
    }
}

/// `input` trimmed, with the dictionary `rules` applied to it (longest
/// keys first), or `None` where a replacement panics.
pub open spec fn replaced_text(rules: Seq<EntryView>, input: Seq<char>) -> Option<Seq<char>> {
    apply_rules(sort_by_len(rules), trim(input))
}

/// `u` with each space before a closing punctuation mark dropped and its
/// words joined by single spaces.
pub open spec fn tidy(u: Seq<char>) -> Seq<char> {
    collapse_ws(tighten_punct(u))
}

/// `m` with its first character written in upper case.
pub open spec fn capitalized(m: Seq<char>) -> Seq<char> {
    if m.len() == 0 {
        m
    } else {
        uppercase(m[0]) + m.drop_first()
    }
}

/// With an empty dictionary, text that is not blank goes through the
/// replacements as it is and keeps at least one character when tidied.
proof fn lemma_merged_without_rules(input: Seq<char>)
    requires
        trim(input).len() > 0,
    ensures
        replaced_text(Seq::<EntryView>::empty(), input) == Some(trim(input)),
        tidy(trim(input)).len() > 0,
{
    let t = trim(input);
    law_trim_no_outer_whitespace(input);
    assert(sort_by_len(Seq::<EntryView>::empty()) == Seq::<EntryView>::empty());
    assert(apply_rules(Seq::<EntryView>::empty(), t) == Some(t));
    assert(t[0] != ' ');
    let u = tighten_punct(t);
    assert(u == seq![t[0]] + tighten_punct(t.drop_first()));
    assert(u[0] == t[0]);
    lemma_collapse_nonempty(u, 0);
}

/// Text that cleaning finds nothing to tidy in: no whitespace at either
/// end, only single spaces between words, and no space before a closing
/// punctuation mark.
pub open spec fn already_clean(r: Seq<char>) -> bool {
    single_spaced(r) && tight_before_punct(r)
}

/// Law: with no dictionary, every step of cleaning before the upper-casing
/// of the first character leaves text that is already clean as it is.
pub proof fn law_clean_text_merges_to_itself(r: Seq<char>)
    requires
        already_clean(r),
    ensures
        trim(r) == r,
        replaced_text(Seq::<EntryView>::empty(), r) == Some(r),
        tidy(r) == r,
{
    lemma_trim_fixed(r);
    assert(sort_by_len(Seq::<EntryView>::empty()) == Seq::<EntryView>::empty());
    assert(apply_rules(Seq::<EntryView>::empty(), r) == Some(r));
    lemma_tighten_fixed(r);
    lemma_collapse_fixed(r);
}

/// What cleaning gives for `input` with the dictionary `rules`: trim; if
/// nothing is left, the empty text; else apply the dictionary, longest keys
/// first; drop each space before a closing punctuation mark; join the words
/// by single spaces; and write the first character in upper case. `None`
/// where a replacement panics (a byte position falls inside a character).
pub open spec fn cleaned(rules: Seq<EntryView>, input: Seq<char>) -> Option<Seq<char>> {
    if trim(input).len() == 0 {
        Some(Seq::empty())
    } else {
        match replaced_text(rules, input) {
            Some(u) => Some(capitalized(tidy(u))),
            None => None,
        }
    }
}

/// The key occurs in `t`, case-insensitively: the UTF-8 bytes of its
/// lowercase form occur in those of the lowercase form of `t` (where
/// `str::find` on the lowercase strings finds it).
pub open spec fn key_occurs(t: Seq<char>, key: Seq<char>) -> bool {
    byte_find(encode_utf8(lowercase(t)), encode_utf8(lowercase(key)), 0) is Some
}

proof fn lemma_encode_nonempty(k: Seq<char>)
    requires
        k.len() > 0,
    ensures
        encode_utf8(k).len() > 0,
{
    assert(encode_utf8(k) == encode_scalar(k[0] as u32) + encode_utf8(k.drop_first()));
    assert(encode_scalar(k[0] as u32).len() > 0);
}

/// A replacement whose key does not occur in the text leaves the text as
/// it is.
proof fn lemma_fold_without_match(t: Seq<char>, k: Seq<char>, v: Seq<char>)
    requires
        k.len() > 0,
        !key_occurs(t, k),
    ensures
        fold_replace(t, k, v) == Some(t),
{
    let tb = encode_utf8(t);
    let lb = encode_utf8(lowercase(t));
    encode_utf8_valid_utf8(t);
    encode_utf8_valid_utf8(lowercase(t));
    lemma_encode_nonempty(k);
    is_char_boundary_start_end_of_seq(tb);
    is_char_boundary_start_end_of_seq(lb);
    assert(tb.subrange(0, tb.len() as int) =~= tb);
    assert(ci_replace(t, lowercase(t), k, lowercase(k), v) == Some(tb));
    encode_utf8_decode_utf8(t);
}

/// Rules none of whose keys occurs in the text leave it as it is.
proof fn lemma_apply_without_match(s: Seq<EntryView>, t: Seq<char>)
    requires
        keys_nonempty(s),
        forall|i: int| 0 <= i < s.len() ==> !key_occurs(t, #[trigger] s[i].0),
    ensures
        apply_rules(s, t) == Some(t),
    decreases s.len(),
{
    if s.len() > 0 {
        let d = s.drop_last();
        assert forall|i: int| 0 <= i < d.len() implies (#[trigger] d[i]).0.len() > 0 by {
            assert(d[i] == s[i]);
        }
        assert forall|i: int| 0 <= i < d.len() implies !key_occurs(t, #[trigger] d[i].0) by {
            assert(d[i] == s[i]);
        }
        lemma_apply_without_match(d, t);
        assert(s.last() == s[s.len() - 1]);
        lemma_fold_without_match(t, s.last().0, s.last().1);
    }
}

/// Law: the dictionary acts only through its replacements. With a
/// dictionary none of whose keys occurs (case-insensitively) in the
/// trimmed input, cleaning gives exactly what cleaning with no dictionary
/// gives: the spacing before punctuation, the joining of words and the
/// capital letter are the same with any dictionary.
pub proof fn law_unmatched_dictionary_cleans_as_none(rules: Seq<EntryView>, input: Seq<char>)
    requires
        keys_nonempty(rules),
        forall|i: int| 0 <= i < rules.len() ==> !key_occurs(trim(input), #[trigger] rules[i].0),
    ensures
        cleaned(rules, input) == cleaned(Seq::<EntryView>::empty(), input),
{
    broadcast use vstd::seq_lib::to_multiset_contains;

    let t = trim(input);
    let s = sort_by_len(rules);
    law_sort_by_len(rules);
    lemma_sort_keys_nonempty(rules);
    assert forall|i: int| 0 <= i < s.len() implies !key_occurs(t, #[trigger] s[i].0) by {
        assert(s.contains(s[i]));
        assert(s.to_multiset().count(s[i]) > 0);
        assert(rules.contains(s[i]));
        let j = choose|j: int| 0 <= j < rules.len() && rules[j] == s[i];
        assert(!key_occurs(t, rules[j].0));
    }
    lemma_apply_without_match(s, t);
    assert(sort_by_len(Seq::<EntryView>::empty()) == Seq::<EntryView>::empty());
    assert(apply_rules(Seq::<EntryView>::empty(), t) == Some(t));
}

/// Law: whatever the dictionary, where the text after its replacements
/// has its words joined by single spaces, the cleaned text is that text
/// with every space before a closing punctuation mark dropped and its
/// first character written in upper case; no space before such a mark is
/// left.
pub proof fn law_clean_drops_space_before_punct(rules: Seq<EntryView>, input: Seq<char>, u: Seq<char>)
    requires
        trim(input).len() > 0,
        replaced_text(rules, input) == Some(u),
        single_spaced(u),
        u.len() > 0,
    ensures
        tight_before_punct(tighten_punct(u)),
        single_spaced(tighten_punct(u)),
        cleaned(rules, input) == Some(
            uppercase(tighten_punct(u)[0]) + tighten_punct(u).drop_first(),
        ),
{
    law_tidy_drops_space_before_punct(u);
}

/// Law: cleaning text that is blank gives the empty text; any other
/// result is a text with no whitespace at either end and no whitespace but
/// single spaces between words, with its first character written in upper
/// case.
pub proof fn law_cleaned_shape(rules: Seq<EntryView>, input: Seq<char>)
    ensures
        trim(input).len() == 0 ==> cleaned(rules, input) == Some(Seq::<char>::empty()),
        cleaned(rules, input) is Some && cleaned(rules, input)->0.len() > 0 ==> exists|m: Seq<char>|
            single_spaced(m) && m.len() > 0 && cleaned(rules, input)->0 == uppercase(m[0])
                + m.drop_first(),
{
    if trim(input).len() > 0 {
        if let Some(u) = replaced_text(rules, input) {
            let m = tidy(u);
            law_collapse_single_spaced(tighten_punct(u));
            if m.len() > 0 {
                assert(single_spaced(m) && m.len() > 0 && capitalized(m) == uppercase(m[0])
                    + m.drop_first());
            }
        }
    }
}

proof fn lemma_insert_by_len(s: Seq<EntryView>, x: EntryView, j: int)
    requires
        0 <= j <= s.len(),
        forall|q: int| j <= q < s.len() ==> byte_len(#[trigger] s[q].0) < byte_len(x.0),
        j == 0 || byte_len(s[j - 1].0) >= byte_len(x.0),
    ensures
        insert_by_len(s, x) == s.insert(j, x),
    decreases s.len(),
{
    if s.len() == 0 {
        assert(s.insert(j, x) =~= seq![x]);
    } else if j == s.len() {
        assert(s.insert(j, x) =~= s.push(x));
    } else {
        let d = s.drop_last();
        assert forall|q: int| j <= q < d.len() implies byte_len(#[trigger] d[q].0) < byte_len(
            x.0,
        ) by {
            assert(d[q] == s[q]);
        }
        lemma_insert_by_len(d, x, j);
        assert(d.insert(j, x).push(s.last()) =~= s.insert(j, x));
    }
}

/// Keys come in order of non-increasing length in bytes.
pub open spec fn longest_first(s: Seq<EntryView>) -> bool {
    forall|i: int, j: int| 0 <= i < j < s.len() ==> byte_len(s[i].0) >= byte_len(s[j].0)
}

/// Where [`insert_by_len`] puts `x`: after the entries of `sorted`, read
/// from the back, whose keys are shorter than that of `x`.
pub open spec fn insert_pos(sorted: Seq<EntryView>, x: EntryView) -> int
    decreases sorted.len(),
{
    if sorted.len() == 0 {
        0
    } else if byte_len(sorted.last().0) >= byte_len(x.0) {
        sorted.len() as int
    } else {
        insert_pos(sorted.drop_last(), x)
    }
}

proof fn lemma_insert_pos(s: Seq<EntryView>, x: EntryView)
    ensures
        0 <= insert_pos(s, x) <= s.len(),
        forall|q: int| insert_pos(s, x) <= q < s.len() ==> byte_len(#[trigger] s[q].0) < byte_len(x.0),
        insert_pos(s, x) == 0 || byte_len(s[insert_pos(s, x) - 1].0) >= byte_len(x.0),
    decreases s.len(),
{
    if s.len() > 0 && byte_len(s.last().0) < byte_len(x.0) {
        let d = s.drop_last();
        lemma_insert_pos(d, x);
        assert forall|q: int| insert_pos(s, x) <= q < s.len() implies byte_len(#[trigger] s[q].0)
            < byte_len(x.0) by {
            if q < d.len() {
                assert(s[q] == d[q]);
            }
        }
    }
}

/// Law: the order in which the dictionary is applied holds every entry
/// once (it is a permutation of the dictionary) and puts longer keys (in
/// bytes) first.
pub proof fn law_sort_by_len(s: Seq<EntryView>)
    ensures
        sort_by_len(s).to_multiset() == s.to_multiset(),
        sort_by_len(s).len() == s.len(),
        longest_first(sort_by_len(s)),
    decreases s.len(),
{
    broadcast use vstd::seq_lib::to_multiset_insert, vstd::seq_lib::to_multiset_build;

    if s.len() > 0 {
        let d = s.drop_last();
        let x = s.last();
        law_sort_by_len(d);
        let sd = sort_by_len(d);
        lemma_insert_pos(sd, x);
        let j = insert_pos(sd, x);
        lemma_insert_by_len(sd, x, j);
        let r = sd.insert(j, x);
        assert(s =~= d.push(x));
        assert(r.to_multiset() == sd.to_multiset().insert(x));
        assert(s.to_multiset() == d.to_multiset().insert(x));
        assert forall|a: int, b: int| 0 <= a < b < r.len() implies byte_len(r[a].0) >= byte_len(
            r[b].0,
        ) by {
            if b < j {
                assert(r[a] == sd[a] && r[b] == sd[b]);
            } else if b == j {
                assert(r[b] == x && r[a] == sd[a]);
                if a < j - 1 {
                    assert(byte_len(sd[a].0) >= byte_len(sd[j - 1].0));
                }
            } else if a < j {
                assert(r[a] == sd[a] && r[b] == sd[b - 1]);
            } else if a == j {
                assert(r[a] == x && r[b] == sd[b - 1]);
            } else {
                assert(r[a] == sd[a - 1] && r[b] == sd[b - 1]);
            }
        }
    }
}

proof fn lemma_insert_keys_nonempty(s: Seq<EntryView>, x: EntryView)
    requires
        keys_nonempty(s),
        x.0.len() > 0,
    ensures
        keys_nonempty(insert_by_len(s, x)),
    decreases s.len(),
{
    if s.len() > 0 && byte_len(s.last().0) < byte_len(x.0) {
        let d = s.drop_last();
        assert forall|i: int| 0 <= i < d.len() implies (#[trigger] d[i]).0.len() > 0 by {
            assert(d[i] == s[i]);
        }
        lemma_insert_keys_nonempty(d, x);
        let r = insert_by_len(d, x).push(s.last());
        assert forall|i: int| 0 <= i < r.len() implies (#[trigger] r[i]).0.len() > 0 by {
            if i < r.len() - 1 {
                assert(r[i] == insert_by_len(d, x)[i]);
            }
        }
    }
}

proof fn lemma_sort_keys_nonempty(s: Seq<EntryView>)
    requires
        keys_nonempty(s),
    ensures
        keys_nonempty(sort_by_len(s)),
    decreases s.len(),
{
    if s.len() > 0 {
        let d = s.drop_last();
        assert forall|i: int| 0 <= i < d.len() implies (#[trigger] d[i]).0.len() > 0 by {
            assert(d[i] == s[i]);
        }
        lemma_sort_keys_nonempty(d);
        lemma_insert_keys_nonempty(sort_by_len(d), s.last());
    }
}


/// No two keys have the same length in bytes.
pub open spec fn key_lengths_distinct(s: Seq<EntryView>) -> bool {
    forall|i: int, j: int|
        0 <= i < s.len() && 0 <= j < s.len() && i != j ==> byte_len(s[i].0) != byte_len(s[j].0)
}

/// With distinct keys, an entry is in the list exactly when the map that
/// the list describes sends its key to its replacement.
proof fn lemma_entries_map_pairs(d: Seq<EntryView>)
    requires
        keys_distinct(d),
    ensures
        forall|x: EntryView| d.contains(x) <==> entries_map(d).contains_pair(x.0, x.1),
    decreases d.len(),
{
    if d.len() > 0 {
        let p = d.drop_last();
        let l = d.last();
        assert forall|i: int, j: int| 0 <= i < p.len() && 0 <= j < p.len() && i != j implies p[i].0
            != p[j].0 by {
            assert(p[i] == d[i] && p[j] == d[j]);
        }
        lemma_entries_map_pairs(p);
        assert forall|x: EntryView| d.contains(x) <==> entries_map(d).contains_pair(x.0, x.1) by {
            if d.contains(x) {
                let i = choose|i: int| 0 <= i < d.len() && d[i] == x;
                if i < d.len() - 1 {
                    assert(p[i] == x);
                    assert(p.contains(x));
                    assert(entries_map(p).contains_pair(x.0, x.1));
                    assert(d[d.len() - 1] == l);
                    assert(x.0 != l.0);
                }
            }
            if entries_map(d).contains_pair(x.0, x.1) {
                if x.0 == l.0 {
                    assert(x == l);
                    assert(d[d.len() - 1] == x);
                } else {
                    assert(entries_map(p).contains_pair(x.0, x.1));
                    assert(p.contains(x));
                    let i = choose|i: int| 0 <= i < p.len() && p[i] == x;
                    assert(d[i] == p[i]);
                }
            }
        }
    }
}

/// Two lists with distinct keys that describe the same map hold the same
/// entries, each once.
proof fn lemma_same_map_same_entries(d1: Seq<EntryView>, d2: Seq<EntryView>)
    requires
        keys_distinct(d1),
        keys_distinct(d2),
        entries_map(d1) == entries_map(d2),
    ensures
        d1.to_multiset() == d2.to_multiset(),
{
    broadcast use vstd::seq_lib::to_multiset_contains;

    lemma_entries_map_pairs(d1);
    lemma_entries_map_pairs(d2);
    assert(d1.no_duplicates());
    assert(d2.no_duplicates());
    d1.lemma_multiset_has_no_duplicates();
    d2.lemma_multiset_has_no_duplicates();
    assert forall|x: EntryView| d1.to_multiset().count(x) == d2.to_multiset().count(x) by {
        assert(d1.contains(x) == d2.contains(x));
    }
    assert(d1.to_multiset() =~= d2.to_multiset());
}

/// Ordering by key length keeps the key lengths distinct.
proof fn lemma_sort_lengths_distinct(d: Seq<EntryView>)
    requires
        key_lengths_distinct(d),
    ensures
        key_lengths_distinct(sort_by_len(d)),
    decreases d.len(),
{
    broadcast use vstd::seq_lib::to_multiset_contains;

    if d.len() > 0 {
        let p = d.drop_last();
        let x = d.last();
        assert forall|i: int, j: int| 0 <= i < p.len() && 0 <= j < p.len() && i != j implies byte_len(
            p[i].0,
        ) != byte_len(p[j].0) by {
            assert(p[i] == d[i] && p[j] == d[j]);
        }
        lemma_sort_lengths_distinct(p);
        law_sort_by_len(p);
        let sp = sort_by_len(p);
        lemma_insert_pos(sp, x);
        let j = insert_pos(sp, x);
        lemma_insert_by_len(sp, x, j);
        let r = sp.insert(j, x);
        assert forall|q: int| 0 <= q < sp.len() implies byte_len(#[trigger] sp[q].0) != byte_len(
            x.0,
        ) by {
            assert(sp.contains(sp[q]));
            assert(sp.to_multiset().count(sp[q]) > 0);
            assert(p.contains(sp[q]));
            let i = choose|i: int| 0 <= i < p.len() && p[i] == sp[q];
            assert(d[i] == sp[q]);
        }
        assert forall|a: int, b: int| 0 <= a < r.len() && 0 <= b < r.len() && a != b implies byte_len(
            r[a].0,
        ) != byte_len(r[b].0) by {
            let ia = if a < j { a } else { a - 1 };
            let ib = if b < j { b } else { b - 1 };
            if a == j {
                assert(r[a] == x && r[b] == sp[ib]);
            } else if b == j {
                assert(r[b] == x && r[a] == sp[ia]);
            } else {
                assert(r[a] == sp[ia] && r[b] == sp[ib]);
            }
        }
    }
}

/// Two lists ordered longest key first, the first with keys of distinct
/// lengths, that hold the same entries are the same list.
proof fn lemma_sorted_unique(s1: Seq<EntryView>, s2: Seq<EntryView>)
    requires
        longest_first(s1),
        longest_first(s2),
        key_lengths_distinct(s1),
        s1.to_multiset() == s2.to_multiset(),
    ensures
        s1 == s2,
    decreases s1.len(),
{
    broadcast use vstd::seq_lib::to_multiset_contains, vstd::seq_lib::to_multiset_build;

    vstd::seq_lib::to_multiset_len(s1);
    vstd::seq_lib::to_multiset_len(s2);
    assert(s1.len() == s2.len());
    if s1.len() == 0 {
        assert(s1 =~= s2);
    } else {
        let n = s1.len() - 1;
        let l1 = s1.last();
        let l2 = s2.last();
        assert(s2.to_multiset().count(l2) > 0);
        assert(s1.contains(l2));
        let k = choose|k: int| 0 <= k < s1.len() && s1[k] == l2;
        assert(s1.to_multiset().count(l1) > 0);
        assert(s2.contains(l1));
        let k2 = choose|k: int| 0 <= k < s2.len() && s2[k] == l1;
        if k < n {
            assert(byte_len(s1[k].0) >= byte_len(s1[n].0));
        }
        if k2 < n {
            assert(byte_len(s2[k2].0) >= byte_len(s2[n].0));
        }
        assert(k == n);
        assert(l1 == l2);
        let p1 = s1.drop_last();
        let p2 = s2.drop_last();
        assert(p1.push(l1) =~= s1);
        assert(p2.push(l2) =~= s2);
        assert(p1.to_multiset().insert(l1) == p2.to_multiset().insert(l1));
        assert forall|y: EntryView| p1.to_multiset().count(y) == p2.to_multiset().count(y) by {
            assert(p1.to_multiset().insert(l1).count(y) == p2.to_multiset().insert(l1).count(y));
        }
        assert(p1.to_multiset() =~= p2.to_multiset());
        assert forall|i: int, j: int| 0 <= i < j < p1.len() implies byte_len(p1[i].0) >= byte_len(
            p1[j].0,
        ) by {
            assert(p1[i] == s1[i] && p1[j] == s1[j]);
        }
        assert forall|i: int, j: int| 0 <= i < j < p2.len() implies byte_len(p2[i].0) >= byte_len(
            p2[j].0,
        ) by {
            assert(p2[i] == s2[i] && p2[j] == s2[j]);
        }
        assert forall|i: int, j: int| 0 <= i < p1.len() && 0 <= j < p1.len() && i != j implies byte_len(
            p1[i].0,
        ) != byte_len(p1[j].0) by {
            assert(p1[i] == s1[i] && p1[j] == s1[j]);
        }
        lemma_sorted_unique(p1, p2);
        assert(s1 =~= s2);
    }
}

/// Law: two dictionaries with distinct keys that describe the same map,
/// where no two keys have the same length in bytes, clean every text
/// alike: the order in which the entries were listed does not matter.
pub proof fn law_same_dictionary_cleans_alike(
    d1: Seq<EntryView>,
    d2: Seq<EntryView>,
    input: Seq<char>,
)
    requires
        keys_distinct(d1),
        keys_distinct(d2),
        entries_map(d1) == entries_map(d2),
        key_lengths_distinct(d1),
    ensures
        cleaned(d1, input) == cleaned(d2, input),
{
    lemma_same_map_same_entries(d1, d2);
    law_sort_by_len(d1);
    law_sort_by_len(d2);
    lemma_sort_lengths_distinct(d1);
    lemma_sorted_unique(sort_by_len(d1), sort_by_len(d2));
}

proof fn lemma_encode_concat(a: Seq<char>, b: Seq<char>)
    ensures
        encode_utf8(a + b) == encode_utf8(a) + encode_utf8(b),
    decreases a.len(),
{
    if a.len() == 0 {
        assert(a + b =~= b);
        assert(encode_utf8(a) + encode_utf8(b) =~= encode_utf8(b));
    } else {
        lemma_encode_concat(a.drop_first(), b);
        assert((a + b).drop_first() =~= a.drop_first() + b);
        assert((a + b)[0] == a[0]);
        assert(encode_utf8(a + b) =~= encode_utf8(a) + encode_utf8(b));
    }
}

proof fn lemma_boundary_in_prefix(b: Seq<u8>, i: int, j: int)
    requires
        valid_utf8(b),
        0 <= i <= j,
        is_char_boundary(b, i),
        is_char_boundary(b, j),
    ensures
        valid_utf8(b.subrange(0, j)),
        is_char_boundary(b.subrange(0, j), i),
{
    valid_utf8_split(b, j);
    let p = b.subrange(0, j);
    if i == j {
        is_char_boundary_start_end_of_seq(p);
    } else if i > 0 {
        is_char_boundary_iff_not_is_continuation_byte(b, i);
        is_char_boundary_iff_not_is_continuation_byte(p, i);
        assert(p[i] == b[i]);
    }
}

fn find_bytes(h: &[u8], p: &[u8], start: usize) -> (r: Option<usize>)
    ensures
        r matches Some(a) ==> byte_find(h@, p@, start as int) == Some(a as int),
        r is None ==> byte_find(h@, p@, start as int) is None,
{
    let mut i: usize = start;
    while i <= h.len() && p.len() <= h.len() - i
        invariant
            start <= i,
            byte_find(h@, p@, start as int) == byte_find(h@, p@, i as int),
        decreases h.len() + 1 - i,
    {
        let mut k: usize = 0;
        let mut same = true;
        while k < p.len()
            invariant
                i + p.len() <= h.len(),
                k <= p.len(),
                same == forall|q: int| 0 <= q < k ==> h@[i + q] == p@[q],
            decreases p.len() - k,
        {
            if h[i + k] != p[k] {
                same = false;
            }
            k += 1;
        }
        if same {
            assert(h@.subrange(i as int, i + p.len()) =~= p@);
            return Some(i);
        }
        assert(!(h@.subrange(i as int, i + p.len()) =~= p@)) by {
            let q = choose|q: int| 0 <= q < p.len() && h@[i + q] != p@[q];
            assert(h@.subrange(i as int, i + p.len())[q] != p@[q]);
        }
        i += 1;
    }
    None
}

/// The case-insensitive replacement of `from` by `to` in `text`, given the
/// lowercase forms `lower_text` of `text` and `lower_from` of `from`: the
/// string whose UTF-8 bytes [`ci_replace`] gives, or `None` where the
/// replacement would slice a text between characters.
pub fn replace_with_lowercase(
    text: &str,
    lower_text: &str,
    from: &str,
    lower_from: &str,
    to: &str,
) -> (r: Option<String>)
    ensures
        ci_replace(text@, lower_text@, from@, lower_from@, to@) matches Some(b) ==> (r matches Some(
            s,
        ) && encode_utf8(s@) == b),
        ci_replace(text@, lower_text@, from@, lower_from@, to@) is None ==> r is None,
{
    broadcast use encode_utf8_valid_utf8;

    let tb = text.as_bytes();
    let lb = lower_text.as_bytes();
    let pb = lower_from.as_bytes();
    let flen = from.as_bytes().len();
    let ghost rb = encode_utf8(to@);
    let ghost total = ci_replace(text@, lower_text@, from@, lower_from@, to@);
    if flen == 0 {
        return None;
    }
    let mut out = String::new();
    let mut last: usize = 0;
    assert(encode_utf8(out@) =~= Seq::<u8>::empty());
    assert(total == (match replace_bytes(tb@, lb@, pb@, flen as int, rb, last as int) {
        Some(rest) => Some(encode_utf8(out@) + rest),
        None => None,
    })) by {
        match replace_bytes(tb@, lb@, pb@, flen as int, rb, 0) {
            Some(rest) => {
                assert(Seq::<u8>::empty() + rest =~= rest);
            },
            None => {},
        }
    }
    loop
        invariant
            tb@ == encode_utf8(text@),
            lb@ == encode_utf8(lower_text@),
            pb@ == encode_utf8(lower_from@),
            flen == encode_utf8(from@).len(),
            rb == encode_utf8(to@),
            flen > 0,
            last <= lb@.len(),
            total == ci_replace(text@, lower_text@, from@, lower_from@, to@),
            total == (match replace_bytes(tb@, lb@, pb@, flen as int, rb, last as int) {
                Some(rest) => Some(encode_utf8(out@) + rest),
                None => None,
            }),
        decreases lb@.len() - last,
    {
        if !lower_text.is_char_boundary(last) {
            return None;
        }
        match find_bytes(lb, pb, last) {
            None => {
                if !text.is_char_boundary(last) {
                    return None;
                }
                let (_, tail) = text.split_at(last);
                let ghost before = out@;
                out.append(tail);
                proof {
                    lemma_encode_concat(before, tail@);
                }
                return Some(out);
            },
            Some(a) => {
                proof {
                    lemma_byte_find(lb@, pb@, last as int);
                }
                if !text.is_char_boundary(last) || !text.is_char_boundary(a) {
                    return None;
                }
                if flen > lb.len() || a > lb.len() - flen {
                    return None;
                }
                proof {
                    encode_utf8_valid_utf8(text@);
                    lemma_boundary_in_prefix(tb@, last as int, a as int);
                }
                let (head, _) = text.split_at(a);
                assert(encode_utf8(head@) =~= tb@.subrange(0, a as int));
                let (_, piece) = head.split_at(last);
                assert(encode_utf8(piece@) =~= tb@.subrange(last as int, a as int));
                let ghost before = out@;
                out.append(piece);
                let ghost mid = out@;
                out.append(to);
                proof {
                    lemma_encode_concat(before, piece@);
                    lemma_encode_concat(mid, to@);
                    match replace_bytes(tb@, lb@, pb@, flen as int, rb, a + flen) {
                        Some(rest) => {
                            assert(encode_utf8(before) + (tb@.subrange(last as int, a as int) + rb
                                + rest) =~= encode_utf8(out@) + rest);
                        },
                        None => {},
                    }
                }
                last = a + flen;
            },
        }
    }
}

/// Replaces every case-insensitive occurrence of `from` in `text` by `to`:
/// occurrences are looked for in the lowercase form of `text` (leftmost
/// first, not overlapping), and the byte positions found there are used in
/// `text` itself, so that the text between occurrences keeps its case (see
/// [`ci_replace`]). Where lowercasing changes byte widths so that such a
/// position falls inside a character or past the end of `text`, the
/// replacement panics: such text is left out here, and
/// [`try_replace_case_insensitive`] tells it apart.
pub fn replace_case_insensitive(text: &str, from: &str, to: &str) -> (r: String)
    requires
        from@.len() > 0,
        fold_replace(text@, from@, to@) is Some,
    ensures
        fold_replace(text@, from@, to@) == Some(r@),
{
    let lower_text = to_lowercase(text);
    let lower_from = to_lowercase(from);
    match replace_with_lowercase(text, lower_text.as_str(), from, lower_from.as_str(), to) {
        Some(s) => {
            proof {
                encode_utf8_decode_utf8(s@);
            }
            s
        },
        None => {
            proof {
                assert(false);
            }
            String::new()
        },
    }
}

/// The case-insensitive replacement of [`replace_case_insensitive`], or
/// `None` where it would panic. ASCII text and an ASCII word always go
/// through.
pub fn try_replace_case_insensitive(text: &str, from: &str, to: &str) -> (r: Option<String>)
    requires
        from@.len() > 0,
    ensures
        r matches Some(s) ==> fold_replace(text@, from@, to@) == Some(s@),
        r is None <==> fold_replace(text@, from@, to@) is None,
        is_ascii_chars(text@) && is_ascii_chars(from@) ==> r is Some,
{
    let lower_text = to_lowercase(text);
    let lower_from = to_lowercase(from);
    proof {
        if is_ascii_chars(text@) && is_ascii_chars(from@) {
            lemma_ascii_lower_ascii(text@);
            lemma_ascii_lower_ascii(from@);
            law_ci_replace_ascii(text@, lower_text@, from@, lower_from@, to@);
        }
    }
    match replace_with_lowercase(text, lower_text.as_str(), from, lower_from.as_str(), to) {
        Some(_) => Some(replace_case_insensitive(text, from, to)),
        None => None,
    }
}

/// What `serde_json::from_str::<HashMap<String, String>>` gives for a text
/// of these characters: the map it reads, or `None` where it returns an
/// error.
pub uninterp spec fn json_string_map(text: Seq<char>) -> Option<Map<Seq<char>, Seq<char>>>;

/// Calls `serde_json::from_str` to read a JSON object of strings into a
/// `HashMap<String, String>`, and lists its entries. Claimed: the call
/// succeeds exactly where [`json_string_map`] is `Some`, and then the
/// entries have distinct keys (they come from a map) and describe that map.
/// Their order is the map's iteration order, which nothing here states.
#[verifier::external_body]
fn parse_string_map(text: &str) -> (r: Option<Vec<(String, String)>>)
    ensures
        r is Some <==> json_string_map(text@) is Some,
        r matches Some(v) ==> keys_distinct(entry_views(v@)) && entries_map(entry_views(v@))
            == json_string_map(text@)->0,
{
    match serde_json::from_str::<std::collections::HashMap<String, String>>(text) {
        Ok(m) => Some(m.into_iter().collect()),
        Err(_) => None,
    }
}

/// Calls `serde_json::to_string_pretty` on the entries gathered in a
/// `HashMap` (a later entry wins over an earlier one with the same key).
/// Claimed: it succeeds, as its documentation says it does for a map with
/// string keys; and the JSON text it writes reads back, through
/// `serde_json::from_str::<HashMap<String, String>>` (the name
/// [`json_string_map`]), as that map: every string is written as a JSON
/// string that reads back as itself. The text itself, whose key order
/// follows the map's iteration order, is not stated.
#[verifier::external_body]
fn encode_string_map(dict: &Vec<(String, String)>) -> (r: Result<String, String>)
    ensures
        r is Ok,
        r matches Ok(t) ==> json_string_map(t@) == Some(entries_map(entry_views(dict@))),
{
    let map: std::collections::HashMap<&str, &str> = dict.iter().map(
        |e| (e.0.as_str(), e.1.as_str()),
    ).collect();
    serde_json::to_string_pretty(&map).map_err(|e| e.to_string())
}

/// Cleans up transcribed text, with a dictionary of user replacements.
pub struct TextCleaner {
    custom_dict: Vec<(String, String)>,
}

impl View for TextCleaner {
    type V = Seq<EntryView>;

    closed spec fn view(&self) -> Seq<EntryView> {
        entry_views(self.custom_dict@)
    }
}

impl Default for TextCleaner {
    /// A cleaner with an empty dictionary.
    fn default() -> (r: TextCleaner)
        ensures
            r@ == Seq::<EntryView>::empty(),
    {
        TextCleaner::new()
    }
}

impl TextCleaner {
    #[verifier::type_invariant]
    closed spec fn inv(self) -> bool {
        keys_distinct(entry_views(self.custom_dict@))
    }

    /// The dictionary as a map from key to replacement.
    pub open spec fn dict_map(&self) -> Map<Seq<char>, Seq<char>> {
        entries_map(self@)
    }

    /// A cleaner with an empty dictionary.
    pub fn new() -> (r: TextCleaner)
        ensures
            r@ == Seq::<EntryView>::empty(),
    {
        let r = TextCleaner { custom_dict: Vec::new() };
        assert(r@ =~= Seq::<EntryView>::empty());
        r
    }

    /// The entries of the dictionary.
    pub fn get_custom_dict(&self) -> (r: Vec<(String, String)>)
        ensures
            entry_views(r@) == self@,
    {
        let mut r: Vec<(String, String)> = Vec::new();
        let mut i: usize = 0;
        while i < self.custom_dict.len()
            invariant
                i <= self.custom_dict.len(),
                entry_views(r@) == self@.take(i as int),
            decreases self.custom_dict.len() - i,
        {
            let k = self.custom_dict[i].0.clone();
            let v = self.custom_dict[i].1.clone();
            let ghost old_r = r@;
            r.push((k, v));
            assert(self@[i as int] == (k@, v@));
            assert(entry_views(r@) =~= entry_views(old_r).push((k@, v@)));
            assert(entry_views(r@) =~= self@.take(i + 1));
            i += 1;
        }
        assert(self@.take(self.custom_dict.len() as int) =~= self@);
        r
    }

    /// Puts `dict` in place of the dictionary.
    pub fn set_custom_dict(&mut self, dict: Vec<(String, String)>)
        requires
            keys_distinct(entry_views(dict@)),
        ensures
            final(self)@ == entry_views(dict@),
    {
        self.custom_dict = dict;
    }

    /// Reads a dictionary stored as a JSON object of strings and puts it in
    /// place of the dictionary; text that is not such an object leaves the
    /// dictionary as it was.
    pub fn load_custom_dict_json(&mut self, content: &str)
        ensures
            json_string_map(content@) matches Some(m) ==> final(self).dict_map() == m,
            json_string_map(content@) is None ==> final(self)@ == old(self)@,
    {
        match parse_string_map(content) {
            Some(entries) => {
                self.custom_dict = entries;
            },
            None => {},
        }
    }

    /// The JSON text under which the dictionary `dict` is stored: a text
    /// that reads back (see [`Self::load_custom_dict_json`]) as the map that
    /// the entries describe.
    pub fn encode_custom_dict(dict: &Vec<(String, String)>) -> (r: String)
        ensures
            json_string_map(r@) == Some(entries_map(entry_views(dict@))),
    {
        match encode_string_map(dict) {
            Ok(text) => text,
            Err(e) => {
                proof {
                    assert(false);
                }
                e
            },
        }
    }

    /// Whether some key of the dictionary is empty.
    pub fn has_empty_key(&self) -> (b: bool)
        ensures
            b == !keys_nonempty(self@),
    {
        let mut i: usize = 0;
        while i < self.custom_dict.len()
            invariant
                i <= self.custom_dict.len(),
                forall|j: int| 0 <= j < i ==> (#[trigger] self@[j]).0.len() > 0,
            decreases self.custom_dict.len() - i,
        {
            if self.custom_dict[i].0.as_str().is_empty() {
                assert(self@[i as int].0.len() == 0);
                return true;
            }
            i += 1;
        }
        false
    }

    /// The entries ordered by key length in bytes, longest first, keeping
    /// the order of equally long keys.
    fn entries_by_len(&self) -> (r: Vec<(String, String)>)
        ensures
            entry_views(r@) == sort_by_len(self@),
    {
        let mut out: Vec<(String, String)> = Vec::new();
        let mut i: usize = 0;
        assert(self@.take(0) =~= Seq::<EntryView>::empty());
        assert(entry_views(out@) =~= Seq::<EntryView>::empty());
        while i < self.custom_dict.len()
            invariant
                i <= self.custom_dict.len(),
                entry_views(out@) == sort_by_len(self@.take(i as int)),
            decreases self.custom_dict.len() - i,
        {
            let k = self.custom_dict[i].0.clone();
            let v = self.custom_dict[i].1.clone();
            let kl = k.as_str().len();
            let ghost x: EntryView = (k@, v@);
            let ghost before = entry_views(out@);
            let mut j: usize = out.len();
            while j > 0 && out[j - 1].0.as_str().len() < kl
                invariant
                    j <= out.len(),
                    before == entry_views(out@),
                    kl == byte_len(x.0),
                    forall|q: int| j <= q < before.len() ==> byte_len(#[trigger] before[q].0)
                        < byte_len(x.0),
                decreases j,
            {
                j -= 1;
            }
            proof {
                lemma_insert_by_len(before, x, j as int);
                assert(self@.take(i + 1).drop_last() =~= self@.take(i as int));
                assert(self@.take(i + 1).last() == x);
            }
            out.insert(j, (k, v));
            assert(entry_views(out@) =~= before.insert(j as int, x));
            i += 1;
        }
        assert(self@.take(self.custom_dict.len() as int) =~= self@);
        out
    }

    /// Cleans `input`: trims it; applies the dictionary, longest keys
    /// first (see [`replace_case_insensitive`]); drops each space before
    /// `,` `.` `?` `!` `:` `;`; joins the words by single spaces; and writes
    /// the first character in upper case. Text that is empty after trimming
    /// gives the empty text. Replacing an empty key would never end, so
    /// text that is not blank is cleaned only with non-empty keys; and text
    /// on which a replacement would panic is left out ([`try_clean`] tells
    /// it apart).
    ///
    /// With no dictionary, text that is not blank never comes out empty,
    /// and text that is already clean (see [`already_clean`]) and starts
    /// with an ASCII character other than a lower-case letter comes out as
    /// it went in. A result whose first character before the upper-casing
    /// was ASCII is itself single-spaced and starts with no lower-case
    /// letter.
    pub fn clean(&self, input: &str) -> (r: String)
        requires
            trim(input@).len() > 0 ==> keys_nonempty(self@),
            cleaned(self@, input@) is Some,
        ensures
            cleaned(self@, input@) == Some(r@),
            self@.len() == 0 && trim(input@).len() > 0 ==> r@.len() > 0,
            self@.len() == 0 && already_clean(input@) && (input@.len() > 0 ==> input@[0]
                <= '\u{7f}' && !('a' <= input@[0] <= 'z')) ==> r@ == input@,
            trim(input@).len() > 0 && (replaced_text(self@, input@) matches Some(u) && tidy(u).len()
                > 0 && tidy(u)[0] <= '\u{7f}') ==> single_spaced(r@) && r@[0] <= '\u{7f}' && !('a'
                <= r@[0] <= 'z'),
    {
        proof {
            if self@.len() == 0 && already_clean(input@) {
                assert(self@ =~= Seq::<EntryView>::empty());
                law_clean_text_merges_to_itself(input@);
            }
            if self@.len() == 0 && trim(input@).len() > 0 {
                assert(self@ =~= Seq::<EntryView>::empty());
                lemma_merged_without_rules(input@);
            }
        }
        let chars = chars_of(input);
        let t = trim_chars(&chars);
        if t.len() == 0 {
            return String::new();
        }
        let rules = self.entries_by_len();
        let ghost sorted = sort_by_len(self@);
        proof {
            lemma_sort_keys_nonempty(self@);
        }
        let mut text = string_of(&t);
        let mut k: usize = 0;
        assert(sorted.take(0) =~= Seq::<EntryView>::empty());
        while k < rules.len()
            invariant
                k <= rules.len(),
                entry_views(rules@) == sorted,
                keys_nonempty(sorted),
                apply_rules(sorted, t@) is Some,
                apply_rules(sorted.take(k as int), t@) == Some(text@),
            decreases rules.len() - k,
        {
            assert(sorted[k as int].0.len() > 0);
            assert(sorted.take(k + 1).drop_last() =~= sorted.take(k as int));
            assert(sorted.take(k + 1).last() == sorted[k as int]);
            proof {
                lemma_apply_rules_prefix(sorted, t@, k + 1);
            }
            text = replace_case_insensitive(text.as_str(), rules[k].0.as_str(), rules[k].1.as_str());
            k += 1;
        }
        assert(sorted.take(rules.len() as int) =~= sorted);
        let replaced = chars_of(text.as_str());
        let tightened = tighten_punct_chars(&replaced);
        let merged = collapse_ws_chars(&tightened);
        if merged.len() == 0 {
            return String::new();
        }
        let mut out = to_uppercase(merged[0]);
        let rest = sub_chars(&merged, 1, merged.len());
        assert(rest@ =~= merged@.drop_first());
        append_chars(&mut out, &rest);
        proof {
            if merged@[0] <= '\u{7f}' {
                law_collapse_single_spaced(tightened@);
                let m = merged@;
                let o = out@;
                assert(o == seq![ascii_upper(m[0])] + m.drop_first());
                assert(!white_space(o[0]));
                assert forall|i: int| 0 <= i < o.len() && white_space(#[trigger] o[i]) implies o[i]
                    == ' ' && 0 < i < o.len() - 1 && !white_space(o[i - 1]) && !white_space(
                    o[i + 1],
                ) by {
                    assert(i > 0);
                    assert(o[i] == m[i]);
                    assert(o[i + 1] == m[i + 1]);
                    if i > 1 {
                        assert(o[i - 1] == m[i - 1]);
                    }
                }
                assert(o.len() > 1 ==> o.last() == m.last());
            }
        }
        out
    }

    /// Whether every replacement of the dictionary goes through on
    /// `input`, so that [`clean`](TextCleaner::clean) can clean it.
    #[verifier::rlimit(30)]
    fn cleans_through(&self, input: &str) -> (b: bool)
        requires
            trim(input@).len() > 0 ==> keys_nonempty(self@),
        ensures
            b == (cleaned(self@, input@) is Some),
            is_ascii_chars(input@) && dict_ascii(self@) ==> b,
    {
        let ghost ascii = is_ascii_chars(input@) && dict_ascii(self@);
        let chars = chars_of(input);
        let t = trim_chars(&chars);
        if t.len() == 0 {
            return true;
        }
        let rules = self.entries_by_len();
        let ghost sorted = sort_by_len(self@);
        proof {
            lemma_sort_keys_nonempty(self@);
            if ascii {
                lemma_trim_ascii(input@);
                lemma_sort_ascii(self@);
            }
        }
        let mut text = string_of(&t);
        let mut k: usize = 0;
        assert(sorted.take(0) =~= Seq::<EntryView>::empty());
        while k < rules.len()
            invariant
                k <= rules.len(),
                entry_views(rules@) == sorted,
                keys_nonempty(sorted),
                apply_rules(sorted.take(k as int), t@) == Some(text@),
                t@ == trim(input@),
                t@.len() > 0,
                sorted == sort_by_len(self@),
                ascii == (is_ascii_chars(input@) && dict_ascii(self@)),
                ascii ==> dict_ascii(sorted) && is_ascii_chars(text@),
            decreases rules.len() - k,
        {
            proof {
                lemma_apply_rules_step(sorted, t@, k as int);
            }
            assert(sorted[k as int].0.len() > 0);
            assert(rules@[k as int].0@ == sorted[k as int].0 && rules@[k as int].1@ == sorted[
                k as int].1);
            let from = rules[k].0.as_str();
            let lower_text = to_lowercase(text.as_str());
            let lower_from = to_lowercase(from);
            let ghost to_view = rules@[k as int].1@;
            proof {
                if ascii {
                    assert(is_ascii_chars(sorted[k as int].0) && is_ascii_chars(sorted[k as int].1));
                    lemma_ascii_lower_ascii(text@);
                    lemma_ascii_lower_ascii(from@);
                    law_ci_replace_ascii(text@, lower_text@, from@, lower_from@, to_view);
                }
            }
            match replace_with_lowercase(
                text.as_str(),
                lower_text.as_str(),
                from,
                lower_from.as_str(),
                rules[k].1.as_str(),
            ) {
                Some(s) => {
                    proof {
                        encode_utf8_decode_utf8(s@);
                        if ascii {
                            lemma_ascii_bytes_chars(s@);
                        }
                    }
                    text = s;
                },
                None => {
                    proof {
                        assert(ci_replace(text@, lower_text@, from@, lower_from@, rules@[k as int].1@)
                            is None);
                        assert(apply_rules(sorted.take(k + 1), t@) is None);
                        lemma_apply_rules_stops(sorted, t@, k + 1);
                        assert(replaced_text(self@, input@) is None);
                    }
                    return false;
                },
            }
            k += 1;
        }
        assert(sorted.take(rules.len() as int) =~= sorted);
        true
    }

    /// Cleans `input` as [`clean`](TextCleaner::clean) does, or gives
    /// `None` where a replacement of the dictionary would panic (a byte
    /// position from the lowercase text falls inside a character or past
    /// the end of the text). ASCII text with a dictionary of ASCII keys and
    /// replacements always goes through.
    pub fn try_clean(&self, input: &str) -> (r: Option<String>)
        requires
            trim(input@).len() > 0 ==> keys_nonempty(self@),
        ensures
            r matches Some(s) ==> cleaned(self@, input@) == Some(s@),
            r is None <==> cleaned(self@, input@) is None,
            is_ascii_chars(input@) && dict_ascii(self@) ==> r is Some,
    {
        if self.cleans_through(input) {
            Some(self.clean(input))
        } else {
            None
        }
    }
}

} // verus!
