//! Character-sequence scanning: substring search, separator splitting and
//! joining, whitespace classification, ASCII case folding, and the text
//! statistics used by the document engine.

use vstd::prelude::*;

verus! {

/// Splits `s` at every occurrence of `c`; always at least one segment,
/// and no segment contains `c`.
pub open spec fn split_char(s: Seq<char>, c: char) -> Seq<Seq<char>>
    decreases s.len(),
{
    if s.len() == 0 {
        seq![Seq::<char>::empty()]
    } else if s[0] == c {
        seq![Seq::<char>::empty()] + split_char(s.drop_first(), c)
    } else {
        let rest = split_char(s.drop_first(), c);
        seq![seq![s[0]] + rest[0]] + rest.drop_first()
    }
}

/// Joins segments with `c` between each pair.
pub open spec fn join_char(segs: Seq<Seq<char>>, c: char) -> Seq<char>
    decreases segs.len(),
{
    if segs.len() == 0 {
        Seq::<char>::empty()
    } else if segs.len() == 1 {
        segs[0]
    } else {
        segs[0] + seq![c] + join_char(segs.drop_first(), c)
    }
}

pub open spec fn has_no_char(s: Seq<char>, c: char) -> bool {
    forall|i: int| 0 <= i < s.len() ==> s[i] != c
}

pub proof fn lemma_split_char_nonempty(s: Seq<char>, c: char)
    ensures
        split_char(s, c).len() >= 1,
    decreases s.len(),
{
    if s.len() > 0 {
        lemma_split_char_nonempty(s.drop_first(), c);
    }
}

/// Prefixing text free of the separator extends the first segment.
pub proof fn lemma_split_prepend(a: Seq<char>, t: Seq<char>, c: char)
    requires
        has_no_char(a, c),
    ensures
        split_char(a + t, c) =~= seq![a + split_char(t, c)[0]] + split_char(t, c).drop_first(),
    decreases a.len(),
{
    lemma_split_char_nonempty(t, c);
    if a.len() == 0 {
        assert(a + t =~= t);
        assert(a + split_char(t, c)[0] =~= split_char(t, c)[0]);
        assert(seq![split_char(t, c)[0]] + split_char(t, c).drop_first() =~= split_char(t, c));
    } else {
        let a1 = a.drop_first();
        assert(has_no_char(a1, c)) by {
            assert(forall|i: int| 0 <= i < a1.len() ==> a1[i] == a[i + 1]);
        }
        lemma_split_prepend(a1, t, c);
        let s = a + t;
        assert(s.len() > 0 && s[0] == a[0] && a[0] != c);
        assert(s.drop_first() =~= a1 + t);
        let rest = split_char(a1 + t, c);
        lemma_split_char_nonempty(a1 + t, c);
        assert(split_char(s, c) =~= seq![seq![s[0]] + rest[0]] + rest.drop_first());
        assert(rest[0] =~= a1 + split_char(t, c)[0]);
        assert(rest.drop_first() =~= split_char(t, c).drop_first());
        assert(seq![s[0]] + rest[0] =~= a + split_char(t, c)[0]);
    }
}

/// A leading separator contributes an empty first segment.
pub proof fn lemma_split_sep(t: Seq<char>, c: char)
    ensures
        split_char(seq![c] + t, c) =~= seq![Seq::<char>::empty()] + split_char(t, c),
{
    let s = seq![c] + t;
    assert(s.len() > 0 && s[0] == c);
    assert(s.drop_first() =~= t);
}

/// Splitting inverts joining when no segment contains the separator.
pub proof fn lemma_split_join(segs: Seq<Seq<char>>, c: char)
    requires
        segs.len() >= 1,
        forall|i: int| 0 <= i < segs.len() ==> has_no_char(#[trigger] segs[i], c),
    ensures
        split_char(join_char(segs, c), c) =~= segs,
    decreases segs.len(),
{
    if segs.len() == 1 {
        lemma_split_prepend(segs[0], Seq::<char>::empty(), c);
        assert(segs[0] + Seq::<char>::empty() =~= segs[0]);
        assert(join_char(segs, c) =~= segs[0]);
        assert(split_char(Seq::<char>::empty(), c) =~= seq![Seq::<char>::empty()]);
        assert(segs[0] + Seq::<char>::empty() =~= segs[0]);
        assert(split_char(segs[0], c) =~= seq![segs[0]]);
        assert(segs =~= seq![segs[0]]);
    } else {
        let rest = segs.drop_first();
        assert(forall|i: int|
            0 <= i < rest.len() ==> has_no_char(#[trigger] rest[i], c)) by {
            assert(forall|i: int| 0 <= i < rest.len() ==> rest[i] == segs[i + 1]);
        }
        lemma_split_join(rest, c);
        let jr = join_char(rest, c);
        lemma_split_sep(jr, c);
        lemma_split_prepend(segs[0], seq![c] + jr, c);
        assert(join_char(segs, c) =~= segs[0] + (seq![c] + jr));
        let inner = split_char(seq![c] + jr, c);
        assert(inner =~= seq![Seq::<char>::empty()] + split_char(jr, c));
        assert(inner[0] =~= Seq::<char>::empty());
        assert(segs[0] + inner[0] =~= segs[0]);
        assert(inner.drop_first() =~= split_char(jr, c));
        assert(split_char(join_char(segs, c), c) =~= seq![segs[0]] + split_char(jr, c));
        assert(seq![segs[0]] + rest =~= segs);
    }
}

/// Splits `s` at `sep`, returning the character range of each segment.
pub fn split_ranges(s: &str, sep: char) -> (r: Vec<(usize, usize)>)
    ensures
        r@.len() == split_char(s@, sep).len(),
        forall|k: int|
            0 <= k < r@.len() ==> {
                &&& #[trigger] r@[k].0 <= r@[k].1 <= s@.len()
                &&& s@.subrange(r@[k].0 as int, r@[k].1 as int) =~= split_char(s@, sep)[k]
            },
{
    let n = s.unicode_len();
    let mut r: Vec<(usize, usize)> = Vec::new();
    let mut seg_start: usize = 0;
    let mut i: usize = 0;
    let ghost total = split_char(s@, sep);
    proof {
        assert(s@.skip(0) =~= s@);
        assert(split_char_parts(r@, s@) =~= Seq::<Seq<char>>::empty());
        assert(split_char_parts(r@, s@) + split_char(s@, sep) =~= split_char(s@, sep));
    }
    while i < n
        invariant
            seg_start <= i <= n == s@.len(),
            total =~= split_char(s@, sep),
            has_no_char(s@.subrange(seg_start as int, i as int), sep),
            total =~= split_char_parts(r@, s@) + split_char(s@.skip(seg_start as int), sep),
            forall|k: int|
                0 <= k < r@.len() ==> {
                    &&& #[trigger] r@[k].0 <= r@[k].1 <= s@.len()
                    &&& s@.subrange(r@[k].0 as int, r@[k].1 as int) =~= split_char(s@, sep)[k]
                },
            r@.len() + split_char(s@.skip(seg_start as int), sep).len() == total.len(),
        decreases n - i,
    {
        let ch = s.get_char(i);
        if ch == sep {
            proof {
                let pre = s@.subrange(seg_start as int, i as int);
                let tail = s@.skip(i as int + 1);
                assert(s@.skip(seg_start as int) =~= pre + (seq![sep] + tail));
                lemma_split_sep(tail, sep);
                lemma_split_prepend(pre, seq![sep] + tail, sep);
                lemma_split_char_nonempty(tail, sep);
                let inner = split_char(seq![sep] + tail, sep);
                assert(inner[0] =~= Seq::<char>::empty());
                assert(pre + inner[0] =~= pre);
                assert(inner.drop_first() =~= split_char(tail, sep));
                assert(split_char(s@.skip(seg_start as int), sep) =~= seq![pre] + split_char(
                    tail,
                    sep,
                ));
                assert(split_char_parts(r@.push((seg_start, i)), s@) =~= split_char_parts(r@, s@)
                    + seq![pre]);
                assert(total[r@.len() as int] =~= pre);
            }
            r.push((seg_start, i));
            seg_start = i + 1;
        } else {
            proof {
                let pre1 = s@.subrange(seg_start as int, i as int + 1);
                assert(forall|j: int|
                    0 <= j < pre1.len() ==> pre1[j] == s@[seg_start + j]);
                assert(has_no_char(pre1, sep));
            }
        }
        i = i + 1;
    }
    proof {
        let pre = s@.subrange(seg_start as int, n as int);
        assert(s@.skip(seg_start as int) =~= pre);
        lemma_split_prepend(pre, Seq::<char>::empty(), sep);
        assert(pre + Seq::<char>::empty() =~= pre);
        assert(split_char(Seq::<char>::empty(), sep) =~= seq![Seq::<char>::empty()]);
        assert(split_char(pre, sep) =~= seq![pre]);
        assert(split_char_parts(r@.push((seg_start, n)), s@) =~= split_char_parts(r@, s@) + seq![
            pre,
        ]);
        assert(total[r@.len() as int] =~= pre);
    }
    r.push((seg_start, n));
    proof {
        assert(split_char_parts(r@, s@).len() == r@.len());
        assert(total =~= split_char_parts(r@, s@));
    }
    r
}

/// The segments named by a list of character ranges.
pub open spec fn split_char_parts(rs: Seq<(usize, usize)>, s: Seq<char>) -> Seq<Seq<char>> {
    Seq::new(rs.len(), |k: int| s.subrange(rs[k].0 as int, rs[k].1 as int))
}

/// The first index at or after `from` where `pat` occurs in `s`.
pub open spec fn find_from(s: Seq<char>, pat: Seq<char>, from: int) -> Option<int>
    decreases s.len() + 1 - from when 0 <= from
{
    if from + pat.len() > s.len() {
        None
    } else if s.subrange(from, from + pat.len()) == pat {
        Some(from)
    } else {
        find_from(s, pat, from + 1)
    }
}

/// Searches `s` for `pat`, starting at character index `from`.
pub fn find_in_str(s: &str, pat: &str, from: usize) -> (r: Option<usize>)
    ensures
        match r {
            Some(i) => find_from(s@, pat@, from as int) == Some(i as int),
            None => find_from(s@, pat@, from as int) is None,
        },
{
    let n = s.unicode_len();
    let m = pat.unicode_len();
    if from > n || m > n - from {
        return None;
    }
    if m == 0 {
        proof {
            assert(s@.subrange(from as int, from as int) =~= pat@);
        }
        return Some(from);
    }
    let mut i: usize = from;
    while i <= n - m
        invariant
            from <= i,
            1 <= m <= n,
            i <= n - m + 1,
            n == s@.len(),
            m == pat@.len(),
            find_from(s@, pat@, from as int) == find_from(s@, pat@, i as int),
        decreases n - i,
    {
        let mut k: usize = 0;
        let mut matched = true;
        while k < m
            invariant
                i + m <= n == s@.len(),
                m == pat@.len(),
                k <= m,
                matched ==> forall|j: int| 0 <= j < k ==> s@[i + j] == pat@[j],
                !matched ==> s@.subrange(i as int, i + m) != pat@,
            decreases m - k,
        {
            let a = s.get_char(i + k);
            let b = pat.get_char(k);
            if a != b {
                proof {
                    assert(s@.subrange(i as int, i + m)[k as int] == s@[i + k]);
                }
                matched = false;
                k = m;
            } else {
                k = k + 1;
            }
        }
        if matched {
            proof {
                assert(s@.subrange(i as int, i + m) =~= pat@);
                assert(find_from(s@, pat@, i as int) == Some(i as int));
            }
            return Some(i);
        }
        proof {
            assert(find_from(s@, pat@, i as int) == find_from(s@, pat@, i as int + 1));
        }
        i = i + 1;
    }
    proof {
        assert(i + m > n);
        assert(find_from(s@, pat@, i as int) is None);
    }
    None
}

/// A found occurrence lies inside the text.
pub proof fn lemma_find_from_in_range(s: Seq<char>, pat: Seq<char>, from: int, i: int)
    requires
        0 <= from,
        find_from(s, pat, from) == Some(i),
    ensures
        from <= i,
        i + pat.len() <= s.len(),
        s.subrange(i, i + pat.len()) == pat,
    decreases s.len() + 1 - from,
{
    if from + pat.len() > s.len() {
    } else if s.subrange(from, from + pat.len()) == pat {
    } else {
        lemma_find_from_in_range(s, pat, from + 1, i);
    }
}

/// The Unicode white-space characters.
pub open spec fn is_ws_char(c: char) -> bool {
    ||| c == ' '
    ||| c == '\t'
    ||| c == '\n'
    ||| c == '\u{000B}'
    ||| c == '\u{000C}'
    ||| c == '\r'
    ||| c == '\u{0085}'
    ||| c == '\u{00A0}'
    ||| c == '\u{1680}'
    ||| ('\u{2000}' <= c && c <= '\u{200A}')
    ||| c == '\u{2028}'
    ||| c == '\u{2029}'
    ||| c == '\u{202F}'
    ||| c == '\u{205F}'
    ||| c == '\u{3000}'
}

/// White-space test matching `char::is_whitespace`.
pub fn is_ws(c: char) -> (r: bool)
    ensures
        r == is_ws_char(c),
{
    c == ' ' || c == '\t' || c == '\n' || c == '\u{000B}' || c == '\u{000C}' || c == '\r' || c
        == '\u{0085}' || c == '\u{00A0}' || c == '\u{1680}' || ('\u{2000}' <= c && c
        <= '\u{200A}') || c == '\u{2028}' || c == '\u{2029}' || c == '\u{202F}' || c == '\u{205F}'
        || c == '\u{3000}'
}

/// ASCII case folding of a character's code point: upper-case letters map
/// to their lower-case counterpart, everything else to itself.
pub open spec fn ascii_fold(c: char) -> int {
    if 'A' <= c && c <= 'Z' {
        c as int + 32
    } else {
        c as int
    }
}

/// Character sequences equal up to ASCII case.
pub open spec fn eq_ignore_ascii(a: Seq<char>, b: Seq<char>) -> bool {
    a.len() == b.len() && forall|i: int| 0 <= i < a.len() ==> ascii_fold(a[i]) == ascii_fold(b[i])
}

/// Compares two strings ignoring ASCII case, as `str::eq_ignore_ascii_case`
/// does.
pub fn str_eq_ignore_ascii_case(a: &str, b: &str) -> (r: bool)
    ensures
        r == eq_ignore_ascii(a@, b@),
{
    let n = a.unicode_len();
    if n != b.unicode_len() {
        return false;
    }
    let mut i: usize = 0;
    while i < n
        invariant
            i <= n,
            n == a@.len() == b@.len(),
            forall|j: int| 0 <= j < i ==> ascii_fold(a@[j]) == ascii_fold(b@[j]),
        decreases n - i,
    {
        let ca = a.get_char(i);
        let cb = b.get_char(i);
        let fa: u32 = if 'A' <= ca && ca <= 'Z' {
            ca as u32 + 32
        } else {
            ca as u32
        };
        let fb: u32 = if 'A' <= cb && cb <= 'Z' {
            cb as u32 + 32
        } else {
            cb as u32
        };
        if fa != fb {
            return false;
        }
        i = i + 1;
    }
    true
}

/// Length of the white-space prefix of `s`.
pub open spec fn ws_prefix_len(s: Seq<char>) -> int
    decreases s.len(),
{
    if s.len() == 0 {
        0
    } else if is_ws_char(s[0]) {
        1 + ws_prefix_len(s.drop_first())
    } else {
        0
    }
}

pub proof fn lemma_ws_prefix(s: Seq<char>)
    ensures
        0 <= ws_prefix_len(s) <= s.len(),
        forall|i: int| 0 <= i < ws_prefix_len(s) ==> is_ws_char(s[i]),
        ws_prefix_len(s) < s.len() ==> !is_ws_char(s[ws_prefix_len(s)]),
    decreases s.len(),
{
    if s.len() > 0 && is_ws_char(s[0]) {
        let t = s.drop_first();
        lemma_ws_prefix(t);
        assert(forall|i: int| 0 <= i < t.len() ==> t[i] == s[i + 1]);
        assert forall|i: int| 0 <= i < ws_prefix_len(s) implies is_ws_char(s[i]) by {
            if i > 0 {
                assert(t[i - 1] == s[i]);
                assert(is_ws_char(t[i - 1]));
            }
        }
        if ws_prefix_len(s) < s.len() {
            assert(s[ws_prefix_len(s)] == t[ws_prefix_len(t)]);
        }
    }
}

/// The character range left after trimming white space from both ends:
/// the trimmed text is `s.subrange(r.0, r.1)`.
pub open spec fn trim_range(s: Seq<char>) -> (int, int) {
    let lead = ws_prefix_len(s);
    if lead == s.len() {
        (lead, lead)
    } else {
        (lead, s.len() - ws_prefix_len(s.reverse()))
    }
}

/// Trims white space from both ends, as `str::trim` does; returns the
/// character range of the remaining text.
pub fn trim_in_str(s: &str) -> (r: (usize, usize))
    ensures
        r.0 <= r.1 <= s@.len(),
        (r.0 as int, r.1 as int) == trim_range(s@),
{
    let n = s.unicode_len();
    let mut lead: usize = 0;
    proof {
        lemma_ws_prefix(s@);
    }
    while lead < n && is_ws(s.get_char(lead))
        invariant
            lead <= n == s@.len(),
            forall|i: int| 0 <= i < lead ==> is_ws_char(s@[i]),
            ws_prefix_len(s@) >= lead,
        decreases n - lead,
    {
        proof {
            lemma_ws_prefix_step(s@, lead as int);
        }
        lead = lead + 1;
    }
    proof {
        lemma_ws_prefix(s@);
    }
    if lead == n {
        return (lead, lead);
    }
    let mut trail: usize = 0;
    let ghost rev = s@.reverse();
    proof {
        lemma_ws_prefix(rev);
    }
    while trail < n && is_ws(s.get_char(n - 1 - trail))
        invariant
            trail <= n == s@.len(),
            rev =~= s@.reverse(),
            forall|i: int| 0 <= i < trail ==> is_ws_char(rev[i]),
            ws_prefix_len(rev) >= trail,
        decreases n - trail,
    {
        proof {
            assert(rev[trail as int] == s@[n - 1 - trail]);
            lemma_ws_prefix_step(rev, trail as int);
        }
        trail = trail + 1;
    }
    proof {
        lemma_ws_prefix(rev);
        assert(ws_prefix_len(rev) == trail) by {
            if ws_prefix_len(rev) > trail {
                assert(is_ws_char(rev[trail as int]));
                assert(rev[trail as int] == s@[n - 1 - trail]);
            }
        }
        assert(ws_prefix_len(s@) == lead) by {
            if ws_prefix_len(s@) > lead {
                assert(is_ws_char(s@[lead as int]));
            }
        }
        assert(!is_ws_char(s@[lead as int]));
        assert(lead + trail < n) by {
            if lead + trail >= n {
                let i = n - 1 - lead;
                assert(0 <= i < trail);
                assert(rev[i as int] == s@[lead as int]);
                assert(is_ws_char(s@[lead as int]));
            }
        }
    }
    (lead, n - trail)
}

/// A word begins at `i` when `i` holds non-white-space preceded by nothing
/// or by white space.
pub open spec fn is_word_start(s: Seq<char>, i: int) -> bool {
    !is_ws_char(s[i]) && (i == 0 || is_ws_char(s[i - 1]))
}

/// The number of white-space-separated words, as `str::split_whitespace`
/// counts them.
pub open spec fn count_words(s: Seq<char>) -> int
    decreases s.len(),
{
    if s.len() == 0 {
        0
    } else {
        count_words(s.drop_last()) + if is_word_start(s, s.len() - 1) {
            1int
        } else {
            0int
        }
    }
}

/// The number of non-white-space characters.
pub open spec fn count_non_ws(s: Seq<char>) -> int
    decreases s.len(),
{
    if s.len() == 0 {
        0
    } else {
        count_non_ws(s.drop_last()) + if !is_ws_char(s.last()) {
            1int
        } else {
            0int
        }
    }
}

pub proof fn lemma_count_non_ws_bound(s: Seq<char>)
    ensures
        0 <= count_non_ws(s) <= s.len(),
    decreases s.len(),
{
    if s.len() > 0 {
        lemma_count_non_ws_bound(s.drop_last());
    }
}

/// Counts the characters that are not white space.
pub fn non_ws_in_str(s: &str) -> (r: usize)
    ensures
        r == count_non_ws(s@),
{
    let n = s.unicode_len();
    let mut acc: usize = 0;
    let mut i: usize = 0;
    while i < n
        invariant
            i <= n == s@.len(),
            acc == count_non_ws(s@.take(i as int)),
            0 <= acc <= i,
        decreases n - i,
    {
        let c = s.get_char(i);
        proof {
            let p = s@.take(i as int + 1);
            assert(p.drop_last() =~= s@.take(i as int));
            assert(p.last() == s@[i as int]);
            lemma_count_non_ws_bound(s@.take(i as int));
        }
        if !is_ws(c) {
            acc = acc + 1;
        }
        i = i + 1;
    }
    proof {
        assert(s@.take(n as int) =~= s@);
    }
    acc
}

/// The number of occurrences of `c` in `s`.
pub open spec fn count_char(s: Seq<char>, c: char) -> int
    decreases s.len(),
{
    if s.len() == 0 {
        0
    } else {
        count_char(s.drop_last(), c) + if s.last() == c {
            1int
        } else {
            0int
        }
    }
}

pub proof fn lemma_count_words_bound(s: Seq<char>)
    ensures
        0 <= count_words(s) <= s.len(),
    decreases s.len(),
{
    if s.len() > 0 {
        lemma_count_words_bound(s.drop_last());
    }
}

pub proof fn lemma_count_char_bound(s: Seq<char>, c: char)
    ensures
        0 <= count_char(s, c) <= s.len(),
    decreases s.len(),
{
    if s.len() > 0 {
        lemma_count_char_bound(s.drop_last(), c);
    }
}

/// Counts the white-space-separated words of `s`.
pub fn words_in_str(s: &str) -> (r: usize)
    ensures
        r == count_words(s@),
{
    let n = s.unicode_len();
    let mut acc: usize = 0;
    let mut i: usize = 0;
    let mut prev_ws = true;
    proof {
        lemma_count_words_bound(s@);
    }
    while i < n
        invariant
            i <= n == s@.len(),
            acc == count_words(s@.take(i as int)),
            0 <= acc <= i,
            prev_ws == (i == 0 || is_ws_char(s@[i - 1])),
        decreases n - i,
    {
        let c = s.get_char(i);
        let ws = is_ws(c);
        proof {
            let p = s@.take(i as int + 1);
            assert(p.drop_last() =~= s@.take(i as int));
            assert(p.last() == s@[i as int]);
            assert(is_word_start(p, i as int) == (!ws && prev_ws));
            lemma_count_words_bound(s@.take(i as int));
        }
        if !ws && prev_ws {
            acc = acc + 1;
        }
        prev_ws = ws;
        i = i + 1;
    }
    proof {
        assert(s@.take(n as int) =~= s@);
    }
    acc
}

/// Counts the occurrences of `c` in `s`.
pub fn count_char_in_str(s: &str, c: char) -> (r: usize)
    ensures
        r == count_char(s@, c),
{
    let n = s.unicode_len();
    let mut acc: usize = 0;
    let mut i: usize = 0;
    while i < n
        invariant
            i <= n == s@.len(),
            acc == count_char(s@.take(i as int), c),
            0 <= acc <= i,
        decreases n - i,
    {
        let ch = s.get_char(i);
        proof {
            let p = s@.take(i as int + 1);
            assert(p.drop_last() =~= s@.take(i as int));
            assert(p.last() == s@[i as int]);
            lemma_count_char_bound(s@.take(i as int), c);
        }
        if ch == c {
            acc = acc + 1;
        }
        i = i + 1;
    }
    proof {
        assert(s@.take(n as int) =~= s@);
    }
    acc
}

/// The number of non-overlapping occurrences of a doubled `'\n'`, scanned
/// left to right; `str::split` on `"\n\n"` yields one more segment.
pub open spec fn count_blank_seps(s: Seq<char>) -> int
    decreases s.len(),
{
    if s.len() < 2 {
        0
    } else if s[0] == '\n' && s[1] == '\n' {
        1 + count_blank_seps(s.skip(2))
    } else {
        count_blank_seps(s.skip(1))
    }
}

pub proof fn lemma_count_blank_seps_bound(s: Seq<char>)
    ensures
        0 <= count_blank_seps(s) <= s.len() / 2,
    decreases s.len(),
{
    if s.len() >= 2 {
        if s[0] == '\n' && s[1] == '\n' {
            lemma_count_blank_seps_bound(s.skip(2));
        } else {
            lemma_count_blank_seps_bound(s.skip(1));
        }
    }
}

/// Counts non-overlapping `"\n\n"` separators, left to right.
pub fn blank_seps_in_str(s: &str) -> (r: usize)
    ensures
        r == count_blank_seps(s@),
{
    let n = s.unicode_len();
    let mut acc: usize = 0;
    let mut i: usize = 0;
    proof {
        lemma_count_blank_seps_bound(s@);
        assert(s@.skip(0) =~= s@);
    }
    while i < n
        invariant
            i <= n == s@.len(),
            count_blank_seps(s@) == acc + count_blank_seps(s@.skip(i as int)),
            0 <= acc <= i,
        decreases n - i,
    {
        let ghost rest = s@.skip(i as int);
        proof {
            lemma_count_blank_seps_bound(rest);
            assert(rest.len() == n - i);
            assert(forall|j: int| 0 <= j < rest.len() ==> rest[j] == s@[i + j]);
        }
        if i + 1 < n && s.get_char(i) == '\n' && s.get_char(i + 1) == '\n' {
            proof {
                assert(rest[0] == '\n' && rest[1] == '\n');
                assert(rest.skip(2) =~= s@.skip(i as int + 2));
                lemma_count_blank_seps_bound(s@.skip(i as int + 2));
            }
            acc = acc + 1;
            i = i + 2;
        } else {
            proof {
                if rest.len() >= 2 {
                    assert(rest[0] == s@[i as int] && rest[1] == s@[i + 1]);
                }
                assert(rest.skip(1) =~= s@.skip(i as int + 1));
                if rest.len() < 2 {
                    assert(count_blank_seps(rest) == 0);
                    lemma_count_blank_seps_bound(s@.skip(i as int + 1));
                    assert(s@.skip(i as int + 1).len() <= 1);
                }
            }
            i = i + 1;
        }
    }
    proof {
        assert(s@.skip(i as int).len() == 0);
    }
    acc
}

/// Joins segments with an arbitrary separator between each pair.
pub open spec fn join_seq(segs: Seq<Seq<char>>, sep: Seq<char>) -> Seq<char>
    decreases segs.len(),
{
    if segs.len() == 0 {
        Seq::<char>::empty()
    } else if segs.len() == 1 {
        segs[0]
    } else {
        segs[0] + sep + join_seq(segs.drop_first(), sep)
    }
}

/// Joining one more segment appends the separator and the segment.
pub proof fn lemma_join_seq_push(segs: Seq<Seq<char>>, x: Seq<char>, sep: Seq<char>)
    requires
        segs.len() >= 1,
    ensures
        join_seq(segs.push(x), sep) =~= join_seq(segs, sep) + sep + x,
    decreases segs.len(),
{
    let p = segs.push(x);
    assert(p[0] == segs[0]);
    if segs.len() == 1 {
        assert(p.drop_first() =~= seq![x]);
        assert(join_seq(seq![x], sep) == x);
    } else {
        assert(p.drop_first() =~= segs.drop_first().push(x));
        lemma_join_seq_push(segs.drop_first(), x, sep);
        assert(join_seq(p, sep) =~= p[0] + sep + join_seq(segs.drop_first().push(x), sep));
    }
}

/// Joins the given strings with the separator, as `[String]::join` does.
pub fn join_strs(fields: &Vec<String>, sep: &str) -> (r: String)
    requires
        fields@.len() >= 1,
    ensures
        r@ == join_seq(fields.deep_view(), sep@),
{
    let ghost dv = fields.deep_view();
    let mut r = fields[0].clone();
    proof {
        assert(dv.take(1) =~= seq![dv[0]]);
        assert(join_seq(dv.take(1), sep@) == dv[0]);
    }
    let n = fields.len();
    let mut i: usize = 1;
    while i < n
        invariant
            1 <= i <= n == fields@.len(),
            dv =~= fields.deep_view(),
            r@ =~= join_seq(dv.take(i as int), sep@),
        decreases n - i,
    {
        r.append(sep);
        r.append(fields[i].as_str());
        proof {
            assert(dv.take(i as int + 1) =~= dv.take(i as int).push(dv[i as int]));
            lemma_join_seq_push(dv.take(i as int), dv[i as int], sep@);
            assert(fields@[i as int]@ == dv[i as int]);
        }
        i = i + 1;
    }
    proof {
        assert(dv.take(n as int) =~= dv);
    }
    r
}

/// The last index where `c` occurs in `s`.
pub open spec fn last_char_idx(s: Seq<char>, c: char) -> Option<int>
    decreases s.len(),
{
    if s.len() == 0 {
        None
    } else if s.last() == c {
        Some(s.len() - 1)
    } else {
        last_char_idx(s.drop_last(), c)
    }
}

/// Searches `s` backwards for `c`, as `str::rfind` does.
pub fn rfind_char_in_str(s: &str, c: char) -> (r: Option<usize>)
    ensures
        match r {
            Some(i) => last_char_idx(s@, c) == Some(i as int),
            None => last_char_idx(s@, c) is None,
        },
{
    let n = s.unicode_len();
    let mut j: usize = n;
    proof {
        assert(s@.take(n as int) =~= s@);
    }
    while j > 0
        invariant
            j <= n == s@.len(),
            last_char_idx(s@, c) == last_char_idx(s@.take(j as int), c),
        decreases j,
    {
        let ch = s.get_char(j - 1);
        proof {
            let p = s@.take(j as int);
            assert(p.last() == s@[j - 1]);
            assert(p.drop_last() =~= s@.take(j as int - 1));
        }
        if ch == c {
            return Some(j - 1);
        }
        j = j - 1;
    }
    proof {
        assert(s@.take(0) =~= Seq::<char>::empty());
    }
    None
}

/// The case folding `str::to_lowercase` applies; a function of the
/// characters alone.
pub uninterp spec fn lowercased(s: Seq<char>) -> Seq<char>;

/// Relies on `str::to_lowercase`: the result depends on the characters
/// alone, and an empty string stays empty.
#[verifier::external_body]
pub(crate) fn to_lowercase(s: &str) -> (r: String)
    ensures
        r@ == lowercased(s@),
        s@.len() == 0 ==> r@.len() == 0,
{
    s.to_lowercase()
}

/// The text left after trimming white space from both ends.
pub open spec fn trimmed(s: Seq<char>) -> Seq<char> {
    let r = trim_range(s);
    s.subrange(r.0, r.1)
}

/// If the first `k` characters are white space and so is `s[k]`, the
/// white-space prefix extends past `k`.
pub proof fn lemma_ws_prefix_step(s: Seq<char>, k: int)
    requires
        0 <= k < s.len(),
        forall|i: int| 0 <= i < k ==> is_ws_char(s[i]),
        is_ws_char(s[k]),
    ensures
        ws_prefix_len(s) >= k + 1,
    decreases k,
{
    let t = s.drop_first();
    if k > 0 {
        assert(forall|i: int| 0 <= i < k - 1 ==> t[i] == s[i + 1]);
        assert(t[k - 1] == s[k]);
        lemma_ws_prefix_step(t, k - 1);
    } else {
        lemma_ws_prefix(t);
    }
}

} // verus!

