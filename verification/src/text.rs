use vstd::prelude::*;
use vstd::utf8::is_ascii_chars;

use crate::chars::{sub_chars, push_all};
use crate::unicode::{is_whitespace, white_space};

verus! {

// ---------------------------------------------------------------- trimming

/// `s` without its leading whitespace.
pub open spec fn trim_start(s: Seq<char>) -> Seq<char>
    decreases s.len(),
{
    if s.len() > 0 && white_space(s[0]) {
        trim_start(s.drop_first())
    } else {
        s
    }
}

/// `s` without its trailing whitespace.
pub open spec fn trim_end(s: Seq<char>) -> Seq<char>
    decreases s.len(),
{
    if s.len() > 0 && white_space(s.last()) {
        trim_end(s.drop_last())
    } else {
        s
    }
}

/// `s` without leading and trailing whitespace (what `str::trim` gives).
pub open spec fn trim(s: Seq<char>) -> Seq<char> {
    trim_end(trim_start(s))
}

proof fn lemma_trim_start(s: Seq<char>)
    ensures
        trim_start(s).len() > 0 ==> !white_space(trim_start(s)[0]),
    decreases s.len(),
{
    if s.len() > 0 && white_space(s[0]) {
        lemma_trim_start(s.drop_first());
    }
}

proof fn lemma_trim_end(s: Seq<char>)
    ensures
        trim_end(s).len() > 0 ==> !white_space(trim_end(s).last()),
        trim_end(s).len() > 0 && s.len() > 0 && !white_space(s[0]) ==> trim_end(s)[0] == s[0],
    decreases s.len(),
{
    if s.len() > 0 && white_space(s.last()) {
        lemma_trim_end(s.drop_last());
        if trim_end(s).len() > 0 && !white_space(s[0]) {
            assert(s.drop_last()[0] == s[0]);
        }
    }
}

/// Law: trimmed text is empty or starts and ends with a character that is
/// not whitespace.
pub proof fn law_trim_no_outer_whitespace(s: Seq<char>)
    ensures
        trim(s).len() > 0 ==> !white_space(trim(s)[0]) && !white_space(trim(s).last()),
{
    lemma_trim_start(s);
    lemma_trim_end(trim_start(s));
}

/// `s` without leading and trailing whitespace.
pub fn trim_chars(s: &Vec<char>) -> (r: Vec<char>)
    ensures
        r@ == trim(s@),
{
    let mut lo: usize = 0;
    assert(s@.skip(0) =~= s@);
    while lo < s.len() && is_whitespace(s[lo])
        invariant
            lo <= s.len(),
            trim_start(s@) == trim_start(s@.skip(lo as int)),
        decreases s.len() - lo,
    {
        assert(s@.skip(lo as int).drop_first() =~= s@.skip(lo + 1));
        lo += 1;
    }
    assert(trim_start(s@) == s@.skip(lo as int));
    assert(s@.skip(lo as int) =~= s@.subrange(lo as int, s.len() as int));
    let mut hi: usize = s.len();
    while hi > lo && is_whitespace(s[hi - 1])
        invariant
            lo <= hi <= s.len(),
            trim(s@) == trim_end(s@.subrange(lo as int, hi as int)),
        decreases hi,
    {
        assert(s@.subrange(lo as int, hi as int).drop_last() =~= s@.subrange(lo as int, hi - 1));
        hi -= 1;
    }
    sub_chars(s, lo, hi)
}

// ------------------------------------------- spacing before punctuation

/// The punctuation marks before which a space is dropped.
pub open spec fn closing_punct(c: char) -> bool {
    c == ',' || c == '.' || c == '?' || c == '!' || c == ':' || c == ';'
}

/// `s` with every space (U+0020) that stands right before one of the
/// [`closing_punct`] marks removed ("halo , apa kabar ?" becomes
/// "halo, apa kabar?").
pub open spec fn tighten_punct(s: Seq<char>) -> Seq<char>
    decreases s.len(),
{
    if s.len() == 0 {
        s
    } else if s[0] == ' ' && s.len() > 1 && closing_punct(s[1]) {
        tighten_punct(s.drop_first())
    } else {
        seq![s[0]] + tighten_punct(s.drop_first())
    }
}

/// `s` with every space that stands right before a closing punctuation mark
/// removed.
pub fn tighten_punct_chars(s: &Vec<char>) -> (r: Vec<char>)
    ensures
        r@ == tighten_punct(s@),
{
    let mut out: Vec<char> = Vec::new();
    let mut i: usize = 0;
    assert(s@.skip(0) =~= s@);
    while i < s.len()
        invariant
            i <= s.len(),
            tighten_punct(s@) == out@ + tighten_punct(s@.skip(i as int)),
        decreases s.len() - i,
    {
        let c = s[i];
        assert(s@.skip(i as int).drop_first() =~= s@.skip(i + 1));
        let drop = c == ' ' && i + 1 < s.len() && {
            let n = s[i + 1];
            n == ',' || n == '.' || n == '?' || n == '!' || n == ':' || n == ';'
        };
        if !drop {
            assert(out@.push(c) + tighten_punct(s@.skip(i + 1)) =~= out@ + (seq![c]
                + tighten_punct(s@.skip(i + 1))));
            out.push(c);
        }
        i += 1;
    }
    assert(s@.skip(s.len() as int) =~= Seq::<char>::empty());
    assert(out@ + Seq::<char>::empty() =~= out@);
    out
}

// ------------------------------------------------ whitespace collapsing

/// `s` with leading and trailing whitespace dropped and every inner run of
/// whitespace replaced by one space: the words of `s`, joined by single
/// spaces (what `s.split_whitespace().collect::<Vec<_>>().join(" ")`
/// gives).
pub open spec fn collapse_ws(s: Seq<char>) -> Seq<char>
    decreases s.len(),
{
    if s.len() == 0 {
        s
    } else {
        let prev = collapse_ws(s.drop_last());
        let c = s.last();
        if white_space(c) {
            prev
        } else if prev.len() == 0 {
            seq![c]
        } else if white_space(s.drop_last().last()) {
            prev + seq![' ', c]
        } else {
            prev.push(c)
        }
    }
}

/// `r` has no whitespace at either end, and its only whitespace is single
/// spaces (U+0020) between two other characters.
pub open spec fn single_spaced(r: Seq<char>) -> bool {
    &&& r.len() > 0 ==> !white_space(r[0]) && !white_space(r.last())
    &&& forall|i: int|
        0 <= i < r.len() && white_space(#[trigger] r[i]) ==> r[i] == ' ' && 0 < i < r.len() - 1
            && !white_space(r[i - 1]) && !white_space(r[i + 1])
}

/// Law: joining the words of any text by single spaces leaves no
/// whitespace at either end, and no whitespace but single spaces between
/// words.
pub proof fn law_collapse_single_spaced(s: Seq<char>)
    ensures
        single_spaced(collapse_ws(s)),
    decreases s.len(),
{
    if s.len() > 0 {
        law_collapse_single_spaced(s.drop_last());
        let prev = collapse_ws(s.drop_last());
        let c = s.last();
        let r = collapse_ws(s);
        if !white_space(c) && prev.len() > 0 {
            if white_space(s.drop_last().last()) {
                assert(r == prev + seq![' ', c]);
                assert forall|i: int| 0 <= i < r.len() && white_space(#[trigger] r[i]) implies r[i]
                    == ' ' && 0 < i < r.len() - 1 && !white_space(r[i - 1]) && !white_space(
                    r[i + 1],
                ) by {
                    if i < prev.len() {
                        assert(r[i] == prev[i]);
                        assert(r[i - 1] == prev[i - 1]);
                        if i + 1 < prev.len() {
                            assert(r[i + 1] == prev[i + 1]);
                        }
                    } else if i == prev.len() {
                        assert(r[i - 1] == prev.last());
                    }
                }
            } else {
                assert(r == prev.push(c));
                assert forall|i: int| 0 <= i < r.len() && white_space(#[trigger] r[i]) implies r[i]
                    == ' ' && 0 < i < r.len() - 1 && !white_space(r[i - 1]) && !white_space(
                    r[i + 1],
                ) by {
                    assert(i < prev.len());
                    assert(r[i] == prev[i]);
                    assert(r[i - 1] == prev[i - 1]);
                    if i + 1 < prev.len() {
                        assert(r[i + 1] == prev[i + 1]);
                    }
                }
            }
        }
    }
}

/// Text with a character that is not whitespace keeps at least one
/// character when its words are joined by single spaces.
pub(crate) proof fn lemma_collapse_nonempty(s: Seq<char>, i: int)
    requires
        0 <= i < s.len(),
        !white_space(s[i]),
    ensures
        collapse_ws(s).len() > 0,
    decreases s.len(),
{
    if white_space(s.last()) {
        assert(s.drop_last()[i] == s[i]);
        lemma_collapse_nonempty(s.drop_last(), i);
    }
}


/// Trimming ASCII text leaves ASCII text.
pub proof fn lemma_trim_ascii(s: Seq<char>)
    requires
        is_ascii_chars(s),
    ensures
        is_ascii_chars(trim(s)),
{
    lemma_trim_start_ascii(s);
    lemma_trim_end_ascii(trim_start(s));
}

proof fn lemma_trim_start_ascii(s: Seq<char>)
    requires
        is_ascii_chars(s),
    ensures
        is_ascii_chars(trim_start(s)),
    decreases s.len(),
{
    if s.len() > 0 && white_space(s[0]) {
        let d = s.drop_first();
        assert forall|i: int| 0 <= i < d.len() implies '\0' <= #[trigger] d[i] <= '\u{7f}' by {
            assert(d[i] == s[i + 1]);
        }
        lemma_trim_start_ascii(d);
    }
}

proof fn lemma_trim_end_ascii(s: Seq<char>)
    requires
        is_ascii_chars(s),
    ensures
        is_ascii_chars(trim_end(s)),
    decreases s.len(),
{
    if s.len() > 0 && white_space(s.last()) {
        let d = s.drop_last();
        assert forall|i: int| 0 <= i < d.len() implies '\0' <= #[trigger] d[i] <= '\u{7f}' by {
            assert(d[i] == s[i]);
        }
        lemma_trim_end_ascii(d);
    }
}

/// No space (U+0020) stands right before a closing punctuation mark.
pub open spec fn tight_before_punct(r: Seq<char>) -> bool {
    forall|i: int| 0 <= i < r.len() - 1 && #[trigger] r[i] == ' ' ==> !closing_punct(r[i + 1])
}

/// Text with no whitespace at either end is its own trimmed form.
pub proof fn lemma_trim_fixed(r: Seq<char>)
    requires
        r.len() > 0 ==> !white_space(r[0]) && !white_space(r.last()),
    ensures
        trim(r) == r,
{
}

/// Text with no space before a closing punctuation mark is left as it is
/// by [`tighten_punct`].
pub proof fn lemma_tighten_fixed(r: Seq<char>)
    requires
        tight_before_punct(r),
    ensures
        tighten_punct(r) == r,
    decreases r.len(),
{
    if r.len() > 0 {
        let d = r.drop_first();
        assert forall|i: int| 0 <= i < d.len() - 1 && #[trigger] d[i] == ' ' implies !closing_punct(
            d[i + 1],
        ) by {
            assert(r[i + 1] == d[i] && r[i + 2] == d[i + 1]);
        }
        lemma_tighten_fixed(d);
        if r.len() > 1 && r[0] == ' ' {
            assert(!closing_punct(r[1]));
        }
        assert(seq![r[0]] + d =~= r);
    }
}

proof fn lemma_collapse_prefix(r: Seq<char>, k: int)
    requires
        single_spaced(r),
        0 <= k <= r.len(),
    ensures
        collapse_ws(r.take(k)) == (if k > 0 && white_space(r[k - 1]) {
            r.take(k - 1)
        } else {
            r.take(k)
        }),
    decreases k,
{
    if k > 0 {
        let s = r.take(k);
        let c = r[k - 1];
        assert(s.drop_last() =~= r.take(k - 1));
        assert(s.last() == c);
        lemma_collapse_prefix(r, k - 1);
        if white_space(c) {
            assert(0 < k - 1 && !white_space(r[k - 2]));
        } else if k >= 2 {
            assert(s.drop_last().last() == r[k - 2]);
            if white_space(r[k - 2]) {
                assert(r[k - 2] == ' ' && 0 < k - 2);
                assert(r.take(k - 2) + seq![' ', c] =~= s);
            } else {
                assert(r.take(k - 1).push(c) =~= s);
            }
        } else {
            assert(seq![c] =~= s);
        }
    }
}

/// Text whose words are already joined by single spaces is left as it is
/// by [`collapse_ws`].
pub proof fn lemma_collapse_fixed(r: Seq<char>)
    requires
        single_spaced(r),
    ensures
        collapse_ws(r) == r,
{
    lemma_collapse_prefix(r, r.len() as int);
    assert(r.take(r.len() as int) =~= r);
}

/// Text whose only whitespace is spaces, never two in a row, and that does
/// not end in whitespace.
pub open spec fn spaced_words(s: Seq<char>) -> bool {
    &&& forall|i: int| 0 <= i < s.len() && white_space(#[trigger] s[i]) ==> s[i] == ' '
    &&& forall|i: int| 0 <= i < s.len() - 1 && #[trigger] s[i] == ' ' ==> s[i + 1] != ' '
    &&& s.len() > 0 ==> !white_space(s.last())
}

proof fn lemma_tighten_spaced(s: Seq<char>)
    requires
        spaced_words(s),
    ensures
        spaced_words(tighten_punct(s)),
        tight_before_punct(tighten_punct(s)),
        s.len() > 0 && s[0] != ' ' ==> tighten_punct(s).len() > 0 && tighten_punct(s)[0] == s[0],
    decreases s.len(),
{
    if s.len() > 0 {
        let d = s.drop_first();
        assert forall|i: int| 0 <= i < d.len() && white_space(#[trigger] d[i]) implies d[i] == ' ' by {
            assert(d[i] == s[i + 1]);
        }
        assert forall|i: int| 0 <= i < d.len() - 1 && #[trigger] d[i] == ' ' implies d[i + 1] != ' ' by {
            assert(d[i] == s[i + 1] && d[i + 1] == s[i + 2]);
        }
        if d.len() > 0 {
            assert(d.last() == s.last());
        }
        lemma_tighten_spaced(d);
        let td = tighten_punct(d);
        if s[0] == ' ' && s.len() > 1 && closing_punct(s[1]) {
        } else {
            let r = tighten_punct(s);
            assert(r == seq![s[0]] + td);
            if s[0] == ' ' {
                assert(s.len() > 1);
                assert(s[1] != ' ');
                assert(d[0] == s[1]);
                assert(td[0] == s[1]);
            }
            assert forall|i: int| 0 <= i < r.len() && white_space(#[trigger] r[i]) implies r[i]
                == ' ' by {
                if i > 0 {
                    assert(r[i] == td[i - 1]);
                }
            }
            assert forall|i: int| 0 <= i < r.len() - 1 && #[trigger] r[i] == ' ' implies r[i + 1]
                != ' ' by {
                assert(r[i + 1] == td[i]);
                if i > 0 {
                    assert(r[i] == td[i - 1]);
                }
            }
            assert forall|i: int| 0 <= i < r.len() - 1 && #[trigger] r[i] == ' ' implies !closing_punct(
                r[i + 1],
            ) by {
                assert(r[i + 1] == td[i]);
                if i > 0 {
                    assert(r[i] == td[i - 1]);
                }
            }
            if td.len() > 0 {
                assert(r.last() == td.last());
            }
        }
    }
}

/// Law: in text whose words are joined by single spaces, tidying drops
/// every space that stands before a closing punctuation mark, and leaves
/// the words joined by single spaces ("halo , apa kabar ?" becomes
/// "halo, apa kabar?").
pub proof fn law_tidy_drops_space_before_punct(u: Seq<char>)
    requires
        single_spaced(u),
    ensures
        single_spaced(collapse_ws(tighten_punct(u))),
        tight_before_punct(collapse_ws(tighten_punct(u))),
        collapse_ws(tighten_punct(u)) == tighten_punct(u),
        u.len() > 0 ==> tighten_punct(u).len() > 0 && tighten_punct(u)[0] == u[0],
{
    assert forall|i: int| 0 <= i < u.len() - 1 && #[trigger] u[i] == ' ' implies u[i + 1] != ' ' by {
        assert(white_space(u[i]));
    }
    lemma_tighten_spaced(u);
    let r = tighten_punct(u);
    if u.len() > 0 {
        assert(!white_space(u[0]));
    }
    assert forall|i: int| 0 <= i < r.len() && white_space(#[trigger] r[i]) implies r[i] == ' ' && 0
        < i < r.len() - 1 && !white_space(r[i - 1]) && !white_space(r[i + 1]) by {
        assert(i != 0);
        assert(i != r.len() - 1);
        assert(r[i + 1] != ' ');
        if white_space(r[i + 1]) {
            assert(r[i + 1] == ' ');
        }
        if white_space(r[i - 1]) {
            assert(r[i - 1] == ' ');
        }
    }
    lemma_collapse_fixed(r);
}

/// The words of `s` joined by single spaces.
pub fn collapse_ws_chars(s: &Vec<char>) -> (r: Vec<char>)
    ensures
        r@ == collapse_ws(s@),
{
    let mut out: Vec<char> = Vec::new();
    let mut i: usize = 0;
    while i < s.len()
        invariant
            i <= s.len(),
            out@ == collapse_ws(s@.take(i as int)),
        decreases s.len() - i,
    {
        let c = s[i];
        let ghost pre = s@.take(i as int);
        assert(s@.take(i + 1).drop_last() =~= pre);
        assert(s@.take(i + 1).last() == c);
        if is_whitespace(c) {
        } else if out.len() == 0 {
            out.push(c);
            assert(out@ =~= seq![c]);
        } else if is_whitespace(s[i - 1]) {
            assert(pre.last() == s@[i - 1]);
            out.push(' ');
            out.push(c);
            assert(out@ =~= collapse_ws(pre) + seq![' ', c]);
        } else {
            assert(pre.last() == s@[i - 1]);
            out.push(c);
        }
        i += 1;
    }
    assert(s@.take(s.len() as int) =~= s@);
    out
}

// ---------------------------------------------------------- replacement

/// `p` occurs in `m` at position `i`.
pub open spec fn matches_at(m: Seq<char>, p: Seq<char>, i: int) -> bool {
    0 <= i && i + p.len() <= m.len() && m.subrange(i, i + p.len()) =~= p
}

/// The text `t` from position `i` on, with each occurrence of `p` replaced
/// by `r`, where occurrences are looked for in `m`, a text of the same
/// length whose position `k` stands for position `k` of `t` (for a
/// case-insensitive search, the lowercase form of `t`). Occurrences are
/// taken leftmost first and do not overlap.
pub open spec fn replace_from(
    t: Seq<char>,
    m: Seq<char>,
    p: Seq<char>,
    r: Seq<char>,
    i: int,
) -> Seq<char>
    decreases t.len() - i,
{
    if p.len() == 0 || i < 0 || i >= t.len() {
        Seq::empty()
    } else if i + p.len() <= t.len() && matches_at(m, p, i) {
        r + replace_from(t, m, p, r, i + p.len())
    } else {
        seq![t[i]] + replace_from(t, m, p, r, i + 1)
    }
}

/// `t` with each occurrence of `p` in `m` replaced by `r` (see
/// [`replace_from`]).
pub open spec fn replace_all(t: Seq<char>, m: Seq<char>, p: Seq<char>, r: Seq<char>) -> Seq<
    char,
> {
    replace_from(t, m, p, r, 0)
}

/// Whether `p` occurs in `m` at position `i`.
pub fn occurs_at(m: &Vec<char>, p: &Vec<char>, i: usize) -> (b: bool)
    ensures
        b == matches_at(m@, p@, i as int),
{
    if p.len() > m.len() || i > m.len() - p.len() {
        return false;
    }
    let mut k: usize = 0;
    while k < p.len()
        invariant
            i + p.len() <= m.len(),
            k <= p.len(),
            forall|j: int| 0 <= j < k ==> m@[i + j] == p@[j],
        decreases p.len() - k,
    {
        if m[i + k] != p[k] {
            assert(m@.subrange(i as int, i + p.len())[k as int] != p@[k as int]);
            return false;
        }
        k += 1;
    }
    assert(m@.subrange(i as int, i + p.len()) =~= p@);
    true
}

/// `t` with each occurrence of `p` replaced by `r`, where occurrences are
/// looked for in `m` (leftmost first, not overlapping) and position `k` of
/// `m` stands for position `k` of `t`.
pub fn replace_matching(t: &Vec<char>, m: &Vec<char>, p: &Vec<char>, r: &Vec<char>) -> (out: Vec<
    char,
>)
    requires
        m.len() == t.len(),
        p.len() > 0,
    ensures
        out@ == replace_all(t@, m@, p@, r@),
{
    let mut out: Vec<char> = Vec::new();
    let mut i: usize = 0;
    while i < t.len()
        invariant
            m.len() == t.len(),
            p.len() > 0,
            i <= t.len(),
            out@ + replace_from(t@, m@, p@, r@, i as int) == replace_all(t@, m@, p@, r@),
        decreases t.len() - i,
    {
        if p.len() <= t.len() - i && occurs_at(m, p, i) {
            let ghost before = out@;
            push_all(&mut out, r);
            assert(before + (r@ + replace_from(t@, m@, p@, r@, i + p.len())) =~= out@
                + replace_from(t@, m@, p@, r@, i + p.len()));
            i = i + p.len();
        } else {
            let ghost before = out@;
            out.push(t[i]);
            assert(before + (seq![t@[i as int]] + replace_from(t@, m@, p@, r@, i + 1)) =~= out@
                + replace_from(t@, m@, p@, r@, i + 1));
            i = i + 1;
        }
    }
    assert(out@ + Seq::<char>::empty() =~= out@);
    out
}

/// Law: where `p` occurs nowhere in `m`, replacing leaves the text as it
/// is.
pub proof fn law_replace_without_match(t: Seq<char>, m: Seq<char>, p: Seq<char>, r: Seq<char>)
    requires
        p.len() > 0,
        forall|i: int| !#[trigger] matches_at(m, p, i),
    ensures
        replace_all(t, m, p, r) == t,
{
    lemma_replace_without_match(t, m, p, r, 0);
    assert(t.skip(0) =~= t);
}

proof fn lemma_replace_without_match(t: Seq<char>, m: Seq<char>, p: Seq<char>, r: Seq<char>, i: int)
    requires
        p.len() > 0,
        0 <= i <= t.len(),
        forall|k: int| !#[trigger] matches_at(m, p, k),
    ensures
        replace_from(t, m, p, r, i) == t.skip(i),
    decreases t.len() - i,
{
    if i < t.len() {
        assert(!matches_at(m, p, i));
        lemma_replace_without_match(t, m, p, r, i + 1);
        assert(seq![t[i]] + t.skip(i + 1) =~= t.skip(i));
    } else {
        assert(t.skip(i) =~= Seq::<char>::empty());
    }
}

/// `p` occurs somewhere in `m`.
pub open spec fn occurs_in(m: Seq<char>, p: Seq<char>) -> bool {
    exists|i: int| matches_at(m, p, i)
}

/// Whether `p` occurs somewhere in `m` (what `str::contains` gives for a
/// string pattern).
pub fn contains_chars(m: &Vec<char>, p: &Vec<char>) -> (b: bool)
    ensures
        b == occurs_in(m@, p@),
{
    if p.len() > m.len() {
        assert forall|i: int| !matches_at(m@, p@, i) by {}
        return false;
    }
    let mut i: usize = 0;
    while i <= m.len() - p.len()
        invariant
            p.len() <= m.len(),
            i <= m.len() - p.len() + 1,
            forall|j: int| 0 <= j < i ==> !matches_at(m@, p@, j),
        decreases m.len() - p.len() + 1 - i,
    {
        if occurs_at(m, p, i) {
            return true;
        }
        i += 1;
    }
    assert forall|j: int| !matches_at(m@, p@, j) by {}
    false
}

} // verus!
