//! Verified text utilities for the line-oriented, colon- or
//! whitespace-delimited accounting formats.
//!
//! The specification side models splitting as [`split_if`], a recursive
//! function on sequences, and the executable functions are proved to return
//! exactly that decomposition. Numeric fields are modeled by
//! [`digits_val`], the value of a digit string.

use vstd::prelude::*;

verus! {

/// Ascii whitespace, as the accounting formats use it.
pub open spec fn is_wsp_char(c: char) -> bool {
    c == ' ' || c == '\t' || c == '\n' || c == '\r' || c == '\u{c}'
}

/// Runtime check of [`is_wsp_char`].
pub fn is_wsp(c: char) -> (r: bool)
    ensures
        r == is_wsp_char(c),
{
    c == ' ' || c == '\t' || c == '\n' || c == '\r' || c == '\u{c}'
}

/// A decimal digit.
pub open spec fn is_digit_char(c: char) -> bool {
    48 <= c as u32 && c as u32 <= 57
}

/// Runtime check of [`is_digit_char`].
pub fn is_digit(c: char) -> (r: bool)
    ensures
        r == is_digit_char(c),
{
    let cu = c as u32;
    48 <= cu && cu <= 57
}

/// The numeric value of one decimal digit.
pub open spec fn digit_val(c: char) -> int {
    c as u32 - 48
}

/// Splits a sequence at every element satisfying `p`. The separators are
/// dropped; empty segments are kept, so the result always has one more
/// segment than there are separators.
pub open spec fn split_if<T>(s: Seq<T>, p: spec_fn(T) -> bool) -> Seq<Seq<T>>
    decreases s.len(),
{
    if s.len() == 0 {
        seq![Seq::<T>::empty()]
    } else {
        let rest = split_if(s.drop_first(), p);
        if p(s[0]) {
            seq![Seq::<T>::empty()] + rest
        } else {
            seq![seq![s[0]] + rest[0]] + rest.drop_first()
        }
    }
}

/// A split is never empty.
pub proof fn lemma_split_if_len<T>(s: Seq<T>, p: spec_fn(T) -> bool)
    ensures
        split_if(s, p).len() >= 1,
    decreases s.len(),
{
    if s.len() > 0 {
        lemma_split_if_len(s.drop_first(), p);
    }
}

/// Splitting at the first separator: everything before it is the first
/// segment, and the rest splits independently.
pub proof fn lemma_split_if_first_hit<T>(s: Seq<T>, p: spec_fn(T) -> bool, k: int)
    requires
        0 <= k < s.len(),
        p(s[k]),
        forall|j: int| 0 <= j < k ==> !p(s[j]),
    ensures
        split_if(s, p) == seq![s.take(k)] + split_if(s.skip(k + 1), p),
    decreases k,
{
    if k == 0 {
        assert(s.take(0) =~= Seq::<T>::empty());
        assert(s.skip(1) =~= s.drop_first());
        assert(split_if(s, p) =~= seq![s.take(0)] + split_if(s.skip(1), p));
    } else {
        let t = s.drop_first();
        lemma_split_if_first_hit(t, p, k - 1);
        lemma_split_if_len(t.skip(k), p);
        let rest = split_if(t, p);
        assert(rest[0] =~= t.take(k - 1));
        assert(rest.drop_first() =~= split_if(t.skip(k), p));
        assert(seq![s[0]] + t.take(k - 1) =~= s.take(k));
        assert(t.skip(k) =~= s.skip(k + 1));
        assert(split_if(s, p) =~= seq![s.take(k)] + split_if(s.skip(k + 1), p));
    }
}

/// A sequence with no separator splits into itself alone.
pub proof fn lemma_split_if_no_hit<T>(s: Seq<T>, p: spec_fn(T) -> bool)
    requires
        forall|j: int| 0 <= j < s.len() ==> !p(s[j]),
    ensures
        split_if(s, p) == seq![s],
    decreases s.len(),
{
    if s.len() == 0 {
        assert(s =~= Seq::<T>::empty());
    } else {
        let t = s.drop_first();
        lemma_split_if_no_hit(t, p);
        lemma_split_if_len(t, p);
        let rest = split_if(t, p);
        assert(rest[0] == t);
        assert(rest.drop_first() =~= Seq::<Seq<T>>::empty());
        assert(seq![s[0]] + t =~= s);
        assert(split_if(s, p) =~= seq![s]);
    }
}

/// The lines of a text: the segments between newline characters.
pub open spec fn lines_of(s: Seq<char>) -> Seq<Seq<char>> {
    split_if(s, |c: char| c == '\n')
}

/// The lines of a text as a line iterator reports them: a trailing newline
/// ends the last line instead of opening an empty one.
pub open spec fn text_lines_of(s: Seq<char>) -> Seq<Seq<char>> {
    let ls = lines_of(s);
    if ls.len() > 0 && ls.last().len() == 0 {
        ls.drop_last()
    } else {
        ls
    }
}

/// The segments between colons.
pub open spec fn colon_parts_of(s: Seq<char>) -> Seq<Seq<char>> {
    split_if(s, |c: char| c == ':')
}

/// The whitespace-delimited fields of a line: the non-empty segments
/// between whitespace characters.
pub open spec fn fields_of(s: Seq<char>) -> Seq<Seq<char>> {
    split_if(s, |c: char| is_wsp_char(c)).filter(|t: Seq<char>| t.len() > 0)
}

/// Splits a text into its lines.
pub fn split_lines<'a>(s: &'a str) -> (out: Vec<&'a str>)
    ensures
        out.deep_view() == lines_of(s@),
{
    let ghost p = (|c: char| c == '\n');
    let n = s.unicode_len();
    let mut out: Vec<&'a str> = Vec::new();
    let mut seg_start: usize = 0;
    let mut i: usize = 0;
    proof {
        assert(s@.skip(0) =~= s@);
        assert(out.deep_view() =~= Seq::<Seq<char>>::empty());
        assert(out.deep_view() + split_if(s@, p) =~= split_if(s@, p));
    }
    while i < n
        invariant
            seg_start <= i <= n,
            n == s@.len(),
            forall|j: int| seg_start <= j < i ==> s@[j] != '\n',
            p == (|c: char| c == '\n'),
            out.deep_view() + split_if(s@.skip(seg_start as int), p) == split_if(s@, p),
        decreases n - i,
    {
        let c = s.get_char(i);
        if c == '\n' {
            let seg = s.substring_char(seg_start, i);
            let ghost pre = out.deep_view();
            out.push(seg);
            proof {
                let t = s@.skip(seg_start as int);
                lemma_split_if_first_hit(t, p, i - seg_start as int);
                assert(t.take(i - seg_start as int) =~= s@.subrange(seg_start as int, i as int));
                assert(t.skip(i - seg_start as int + 1) =~= s@.skip(i + 1));
                assert(out.deep_view() =~= pre + seq![seg@]);
                assert((pre + seq![seg@]) + split_if(s@.skip(i + 1), p) =~= pre + (seq![seg@]
                    + split_if(s@.skip(i + 1), p)));
            }
            i = i + 1;
            seg_start = i;
        } else {
            i = i + 1;
        }
    }
    let seg = s.substring_char(seg_start, n);
    let ghost pre = out.deep_view();
    out.push(seg);
    proof {
        let t = s@.skip(seg_start as int);
        lemma_split_if_no_hit(t, p);
        assert(t =~= s@.subrange(seg_start as int, n as int));
        assert(out.deep_view() =~= pre + seq![seg@]);
    }
    out
}

/// Splits a text into its lines, dropping the empty segment a trailing
/// newline would open.
pub fn split_text_lines<'a>(s: &'a str) -> (out: Vec<&'a str>)
    ensures
        out.deep_view() == text_lines_of(s@),
{
    let mut out = split_lines(s);
    let ghost pre = out.deep_view();
    if out.len() > 0 && out[out.len() - 1].is_empty() {
        proof {
            assert(out@[out@.len() - 1]@ == pre.last());
        }
        out.pop();
        proof {
            assert(out.deep_view() =~= pre.drop_last());
        }
    }
    out
}

/// Splits a line at every colon.
pub fn split_colon<'a>(s: &'a str) -> (out: Vec<&'a str>)
    ensures
        out.deep_view() == colon_parts_of(s@),
{
    let ghost p = (|c: char| c == ':');
    let n = s.unicode_len();
    let mut out: Vec<&'a str> = Vec::new();
    let mut seg_start: usize = 0;
    let mut i: usize = 0;
    proof {
        assert(s@.skip(0) =~= s@);
        assert(out.deep_view() =~= Seq::<Seq<char>>::empty());
        assert(out.deep_view() + split_if(s@, p) =~= split_if(s@, p));
    }
    while i < n
        invariant
            seg_start <= i <= n,
            n == s@.len(),
            forall|j: int| seg_start <= j < i ==> s@[j] != ':',
            p == (|c: char| c == ':'),
            out.deep_view() + split_if(s@.skip(seg_start as int), p) == split_if(s@, p),
        decreases n - i,
    {
        let c = s.get_char(i);
        if c == ':' {
            let seg = s.substring_char(seg_start, i);
            let ghost pre = out.deep_view();
            out.push(seg);
            proof {
                let t = s@.skip(seg_start as int);
                lemma_split_if_first_hit(t, p, i - seg_start as int);
                assert(t.take(i - seg_start as int) =~= s@.subrange(seg_start as int, i as int));
                assert(t.skip(i - seg_start as int + 1) =~= s@.skip(i + 1));
                assert(out.deep_view() =~= pre + seq![seg@]);
                assert((pre + seq![seg@]) + split_if(s@.skip(i + 1), p) =~= pre + (seq![seg@]
                    + split_if(s@.skip(i + 1), p)));
            }
            i = i + 1;
            seg_start = i;
        } else {
            i = i + 1;
        }
    }
    let seg = s.substring_char(seg_start, n);
    let ghost pre = out.deep_view();
    out.push(seg);
    proof {
        let t = s@.skip(seg_start as int);
        lemma_split_if_no_hit(t, p);
        assert(t =~= s@.subrange(seg_start as int, n as int));
        assert(out.deep_view() =~= pre + seq![seg@]);
    }
    out
}

/// Splits a line into its whitespace-delimited fields, dropping empty
/// segments.
pub fn fields<'a>(s: &'a str) -> (out: Vec<&'a str>)
    ensures
        out.deep_view() == fields_of(s@),
{
    let ghost p = (|c: char| is_wsp_char(c));
    let ghost keep = (|t: Seq<char>| t.len() > 0);
    let n = s.unicode_len();
    let mut out: Vec<&'a str> = Vec::new();
    let mut seg_start: usize = 0;
    let mut i: usize = 0;
    proof {
        assert(s@.skip(0) =~= s@);
        assert(out.deep_view() =~= Seq::<Seq<char>>::empty());
        assert(out.deep_view() + split_if(s@, p).filter(keep) =~= split_if(s@, p).filter(keep));
    }
    while i < n
        invariant
            seg_start <= i <= n,
            n == s@.len(),
            forall|j: int| seg_start <= j < i ==> !is_wsp_char(s@[j]),
            p == (|c: char| is_wsp_char(c)),
            keep == (|t: Seq<char>| t.len() > 0),
            out.deep_view() + split_if(s@.skip(seg_start as int), p).filter(keep) == split_if(
                s@,
                p,
            ).filter(keep),
        decreases n - i,
    {
        let c = s.get_char(i);
        if is_wsp(c) {
            let ghost pre = out.deep_view();
            let ghost t = s@.skip(seg_start as int);
            let ghost seg_view = s@.subrange(seg_start as int, i as int);
            if seg_start < i {
                let seg = s.substring_char(seg_start, i);
                out.push(seg);
            }
            proof {
                lemma_split_if_first_hit(t, p, i - seg_start as int);
                assert(t.take(i - seg_start as int) =~= seg_view);
                assert(t.skip(i - seg_start as int + 1) =~= s@.skip(i + 1));
                lemma_filter_add(seq![seg_view], split_if(s@.skip(i + 1), p), keep);
                lemma_filter_singleton(seg_view, keep);
                if seg_start < i {
                    assert(seq![seg_view].filter(keep) =~= seq![seg_view]);
                    assert(out.deep_view() =~= pre + seq![seg_view]);
                    assert((pre + seq![seg_view]) + split_if(s@.skip(i + 1), p).filter(keep)
                        =~= pre + (seq![seg_view] + split_if(s@.skip(i + 1), p).filter(keep)));
                } else {
                    assert(seq![seg_view].filter(keep) =~= Seq::<Seq<char>>::empty());
                    assert(Seq::<Seq<char>>::empty() + split_if(s@.skip(i + 1), p).filter(keep)
                        =~= split_if(s@.skip(i + 1), p).filter(keep));
                }
            }
            i = i + 1;
            seg_start = i;
        } else {
            i = i + 1;
        }
    }
    let ghost pre = out.deep_view();
    let ghost t = s@.skip(seg_start as int);
    if seg_start < n {
        let seg = s.substring_char(seg_start, n);
        out.push(seg);
    }
    proof {
        lemma_split_if_no_hit(t, p);
        lemma_filter_singleton(t, keep);
        assert(t =~= s@.subrange(seg_start as int, n as int));
        if seg_start < n {
            assert(seq![t].filter(keep) =~= seq![t]);
            assert(out.deep_view() =~= pre + seq![t]);
        } else {
            assert(seq![t].filter(keep) =~= Seq::<Seq<char>>::empty());
            assert(pre + seq![t].filter(keep) =~= pre);
        }
    }
    out
}

/// Filtering a one-element sequence keeps or drops that element.
proof fn lemma_filter_singleton<T>(x: T, p: spec_fn(T) -> bool)
    ensures
        p(x) ==> seq![x].filter(p) == seq![x],
        !p(x) ==> seq![x].filter(p) == Seq::<T>::empty(),
{
    reveal(Seq::filter);
    assert(seq![x].drop_last() =~= Seq::<T>::empty());
    assert(Seq::<T>::empty().filter(p) =~= Seq::<T>::empty());
    assert(seq![x].last() == x);
    if p(x) {
        assert(Seq::<T>::empty().push(x) =~= seq![x]);
    }
}

/// Filtering a concatenation filters each part.
proof fn lemma_filter_add<T>(a: Seq<T>, b: Seq<T>, p: spec_fn(T) -> bool)
    ensures
        (a + b).filter(p) == a.filter(p) + b.filter(p),
    decreases b.len(),
{
    reveal(Seq::filter);
    if b.len() == 0 {
        assert(a + b =~= a);
        assert(a.filter(p) + b.filter(p) =~= a.filter(p));
    } else {
        lemma_filter_add(a, b.drop_last(), p);
        assert((a + b).drop_last() =~= a + b.drop_last());
        assert((a + b).last() == b.last());
        if p(b.last()) {
            assert(a.filter(p) + b.filter(p) =~= (a.filter(p) + b.drop_last().filter(p)).push(
                b.last(),
            ));
        }
    }
}

/// The sequence with its leading whitespace removed.
pub open spec fn trim_start_of(s: Seq<char>) -> Seq<char>
    decreases s.len(),
{
    if s.len() > 0 && is_wsp_char(s[0]) {
        trim_start_of(s.drop_first())
    } else {
        s
    }
}

/// The sequence with its trailing elements satisfying `p` removed.
pub open spec fn trim_end_if(s: Seq<char>, p: spec_fn(char) -> bool) -> Seq<char>
    decreases s.len(),
{
    if s.len() > 0 && p(s.last()) {
        trim_end_if(s.drop_last(), p)
    } else {
        s
    }
}

/// The sequence with leading and trailing whitespace removed.
pub open spec fn trim_of(s: Seq<char>) -> Seq<char> {
    trim_end_if(trim_start_of(s), |c: char| is_wsp_char(c))
}

/// Removing leading whitespace is taking the suffix from the first
/// non-whitespace position.
proof fn lemma_trim_start_skip(s: Seq<char>, i: int)
    requires
        0 <= i <= s.len(),
        forall|j: int| 0 <= j < i ==> is_wsp_char(s[j]),
        i == s.len() || !is_wsp_char(s[i]),
    ensures
        trim_start_of(s) == s.skip(i),
    decreases i,
{
    if i == 0 {
        assert(s.skip(0) =~= s);
    } else {
        lemma_trim_start_skip(s.drop_first(), i - 1);
        assert(s.drop_first().skip(i - 1) =~= s.skip(i));
    }
}

/// Removing trailing matches is taking the prefix up to the last
/// non-matching position.
proof fn lemma_trim_end_if_take(s: Seq<char>, p: spec_fn(char) -> bool, j: int)
    requires
        0 <= j <= s.len(),
        forall|k: int| j <= k < s.len() ==> p(s[k]),
        j == 0 || !p(s[j - 1]),
    ensures
        trim_end_if(s, p) == s.take(j),
    decreases s.len() - j,
{
    if j == s.len() {
        assert(s.take(j) =~= s);
    } else {
        lemma_trim_end_if_take(s.drop_last(), p, j);
        assert(s.drop_last().take(j) =~= s.take(j));
    }
}

/// Returns the text with leading and trailing ascii whitespace removed.
pub fn trim<'a>(s: &'a str) -> (r: &'a str)
    ensures
        r@ == trim_of(s@),
{
    let ghost pw = (|c: char| is_wsp_char(c));
    let n = s.unicode_len();
    let mut i: usize = 0;
    while i < n && is_wsp(s.get_char(i))
        invariant
            i <= n,
            n == s@.len(),
            forall|j: int| 0 <= j < i ==> is_wsp_char(s@[j]),
        decreases n - i,
    {
        i = i + 1;
    }
    let mut j: usize = n;
    while j > i && is_wsp(s.get_char(j - 1))
        invariant
            i <= j <= n,
            n == s@.len(),
            forall|k: int| j <= k < n ==> is_wsp_char(s@[k]),
        decreases j,
    {
        j = j - 1;
    }
    let r = s.substring_char(i, j);
    proof {
        lemma_trim_start_skip(s@, i as int);
        let t = s@.skip(i as int);
        lemma_trim_end_if_take(t, pw, j - i as int);
        assert(trim_end_if(t, pw) == trim_of(s@)) by {
            assert(pw =~= (|c: char| is_wsp_char(c)));
        }
        assert(t.take(j - i as int) =~= s@.subrange(i as int, j as int));
    }
    r
}

/// Whether every character of `s` is a decimal digit.
pub open spec fn all_digits(s: Seq<char>) -> bool {
    forall|i: int| 0 <= i < s.len() ==> is_digit_char(#[trigger] s[i])
}

/// The numeric value of a digit string.
pub open spec fn digits_val(s: Seq<char>) -> int
    decreases s.len(),
{
    if s.len() == 0 {
        0
    } else {
        digits_val(s.drop_last()) * 10 + digit_val(s.last())
    }
}

/// The value of a non-empty, all-digit string that fits in `u64`; `None`
/// for every other string.
pub open spec fn parse_u64_of(s: Seq<char>) -> Option<u64> {
    if s.len() > 0 && all_digits(s) && digits_val(s) <= u64::MAX {
        Some(digits_val(s) as u64)
    } else {
        None
    }
}

/// The value of a digit string is non-negative.
pub proof fn lemma_digits_val_nonneg(s: Seq<char>)
    requires
        all_digits(s),
    ensures
        digits_val(s) >= 0,
    decreases s.len(),
{
    if s.len() > 0 {
        assert(all_digits(s.drop_last())) by {
            assert(forall|i: int|
                0 <= i < s.len() - 1 ==> s.drop_last()[i] == #[trigger] s[i]);
        }
        lemma_digits_val_nonneg(s.drop_last());
    }
}

/// The value of a digit string is at least the value of any of its
/// prefixes.
pub proof fn lemma_digits_val_prefix(s: Seq<char>, i: int)
    requires
        all_digits(s),
        0 <= i <= s.len(),
    ensures
        digits_val(s.take(i)) <= digits_val(s),
    decreases s.len() - i,
{
    if i == s.len() {
        assert(s.take(i) =~= s);
    } else {
        assert(all_digits(s.drop_last())) by {
            assert(forall|k: int|
                0 <= k < s.len() - 1 ==> s.drop_last()[k] == #[trigger] s[k]);
        }
        lemma_digits_val_prefix(s.drop_last(), i);
        assert(s.drop_last().take(i) =~= s.take(i));
        lemma_digits_val_nonneg(s.drop_last());
    }
}

/// Parses a non-empty decimal digit string into a `u64`. Any other input —
/// empty, a non-digit anywhere (including signs), or a value over
/// `u64::MAX` — yields `None`.
pub fn parse_u64(s: &str) -> (r: Option<u64>)
    ensures
        r == parse_u64_of(s@),
{
    let n = s.unicode_len();
    if n == 0 {
        return None;
    }
    let mut acc: u64 = 0;
    let mut i: usize = 0;
    proof {
        assert(s@.take(0) =~= Seq::<char>::empty());
    }
    while i < n
        invariant
            i <= n,
            n == s@.len(),
            all_digits(s@.take(i as int)),
            acc as int == digits_val(s@.take(i as int)),
        decreases n - i,
    {
        let c = s.get_char(i);
        let cu = c as u32;
        if cu < 48 || cu > 57 {
            assert(!is_digit_char(s@[i as int]));
            return None;
        }
        let d = (cu - 48) as u64;
        let ghost prefix = s@.take(i as int);
        let ghost prefix1 = s@.take(i + 1);
        proof {
            assert(prefix1.drop_last() =~= prefix);
            assert(prefix1.last() == s@[i as int]);
            assert(all_digits(prefix1)) by {
                assert(forall|k: int| 0 <= k < i ==> prefix1[k] == #[trigger] prefix[k]);
            }
        }
        let next = match acc.checked_mul(10) {
            Some(m) => m.checked_add(d),
            None => None,
        };
        match next {
            Some(a) => {
                acc = a;
            },
            None => {
                proof {
                    if all_digits(s@) {
                        lemma_digits_val_prefix(s@, i + 1);
                    }
                }
                return None;
            },
        }
        i = i + 1;
    }
    proof {
        assert(s@.take(n as int) =~= s@);
    }
    Some(acc)
}

/// Whether `p` is a prefix of `s`.
pub open spec fn has_prefix(s: Seq<char>, p: Seq<char>) -> bool {
    p.len() <= s.len() && s.take(p.len() as int) == p
}

/// Whether `p` is a suffix of `s`.
pub open spec fn has_suffix(s: Seq<char>, p: Seq<char>) -> bool {
    p.len() <= s.len() && s.skip(s.len() - p.len()) == p
}

/// Whether the text starts with the given prefix.
pub fn starts_with(s: &str, p: &str) -> (r: bool)
    ensures
        r == has_prefix(s@, p@),
{
    let n = s.unicode_len();
    let m = p.unicode_len();
    if m > n {
        assert(!has_prefix(s@, p@));
        return false;
    }
    let mut i: usize = 0;
    while i < m
        invariant
            i <= m <= n,
            n == s@.len(),
            m == p@.len(),
            forall|j: int| 0 <= j < i ==> s@[j] == p@[j],
        decreases m - i,
    {
        if s.get_char(i) != p.get_char(i) {
            assert(s@.take(m as int)[i as int] != p@[i as int]);
            return false;
        }
        i = i + 1;
    }
    proof {
        assert(s@.take(m as int) =~= p@);
    }
    true
}

/// Whether the text ends with the given suffix.
pub fn ends_with(s: &str, p: &str) -> (r: bool)
    ensures
        r == has_suffix(s@, p@),
{
    let n = s.unicode_len();
    let m = p.unicode_len();
    if m > n {
        assert(!has_suffix(s@, p@));
        return false;
    }
    let base = n - m;
    let mut i: usize = 0;
    while i < m
        invariant
            i <= m <= n,
            base == n - m,
            n == s@.len(),
            m == p@.len(),
            forall|j: int| 0 <= j < i ==> s@[base + j] == p@[j],
        decreases m - i,
    {
        if s.get_char(base + i) != p.get_char(i) {
            assert(s@.skip(base as int)[i as int] != p@[i as int]);
            return false;
        }
        i = i + 1;
    }
    proof {
        assert(s@.skip(base as int) =~= p@);
    }
    true
}

/// Whether two texts are equal character for character.
pub fn str_eq(a: &str, b: &str) -> (r: bool)
    ensures
        r == (a@ == b@),
{
    let n = a.unicode_len();
    if n != b.unicode_len() {
        return false;
    }
    let mut i: usize = 0;
    while i < n
        invariant
            i <= n,
            n == a@.len(),
            n == b@.len(),
            forall|j: int| 0 <= j < i ==> a@[j] == b@[j],
        decreases n - i,
    {
        if a.get_char(i) != b.get_char(i) {
            return false;
        }
        i = i + 1;
    }
    proof {
        assert(a@ =~= b@);
    }
    true
}

/// Returns the text with one trailing occurrence of `p` removed, if present.
pub fn strip_suffix<'a>(s: &'a str, p: &str) -> (r: &'a str)
    ensures
        has_suffix(s@, p@) ==> r@ == s@.take(s@.len() - p@.len()),
        !has_suffix(s@, p@) ==> r@ == s@,
{
    if ends_with(s, p) {
        let n = s.unicode_len();
        let m = p.unicode_len();
        s.substring_char(0, n - m)
    } else {
        s
    }
}

/// A kilobyte field with its unit suffix removed, as the accounting records
/// report sizes.
pub open spec fn kb_stripped(v: Seq<char>) -> Seq<char> {
    if has_suffix(v, " kB"@) {
        v.take(v.len() - " kB"@.len())
    } else {
        v
    }
}

/// The text with every repetition of the prefix `p` removed from the front.
pub open spec fn strip_prefix_all_of(s: Seq<char>, p: Seq<char>) -> Seq<char>
    decreases s.len(),
{
    if p.len() > 0 && has_prefix(s, p) {
        strip_prefix_all_of(s.skip(p.len() as int), p)
    } else {
        s
    }
}

/// Returns the text with every leading repetition of `p` removed.
pub fn strip_prefix_all<'a>(s: &'a str, p: &str) -> (r: &'a str)
    ensures
        r@ == strip_prefix_all_of(s@, p@),
    decreases s@.len(),
{
    let m = p.unicode_len();
    if m > 0 && starts_with(s, p) {
        let n = s.unicode_len();
        let rest = s.substring_char(m, n);
        proof {
            assert(rest@ =~= s@.skip(m as int));
        }
        strip_prefix_all(rest, p)
    } else {
        s
    }
}

/// The text with every trailing character satisfying the predicate removed,
/// specialized to decimal digits.
pub fn trim_end_digits<'a>(s: &'a str) -> (r: &'a str)
    ensures
        r@ == trim_end_if(s@, |c: char| is_digit_char(c)),
{
    let ghost pd = (|c: char| is_digit_char(c));
    let n = s.unicode_len();
    let mut j: usize = n;
    while j > 0 && is_digit(s.get_char(j - 1))
        invariant
            j <= n,
            n == s@.len(),
            forall|k: int| j <= k < n ==> is_digit_char(s@[k]),
        decreases j,
    {
        j = j - 1;
    }
    let r = s.substring_char(0, j);
    proof {
        lemma_trim_end_if_take(s@, pd, j as int);
        assert(s@.take(j as int) =~= r@);
    }
    r
}

/// The text with every trailing `c` removed.
pub fn trim_end_char<'a>(s: &'a str, c: char) -> (r: &'a str)
    ensures
        r@ == trim_end_if(s@, |x: char| x == c),
{
    let ghost pc = (|x: char| x == c);
    let n = s.unicode_len();
    let mut j: usize = n;
    while j > 0 && s.get_char(j - 1) == c
        invariant
            j <= n,
            n == s@.len(),
            forall|k: int| j <= k < n ==> s@[k] == c,
        decreases j,
    {
        j = j - 1;
    }
    let r = s.substring_char(0, j);
    proof {
        lemma_trim_end_if_take(s@, pc, j as int);
        assert(s@.take(j as int) =~= r@);
    }
    r
}

} // verus!
