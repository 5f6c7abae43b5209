//! Small verified helpers over `&str` and its `Seq<char>` view, shared by
//! the parsing modules: character search, trimming, whitespace splitting,
//! line splitting and decimal parsing.
//!
//! Whitespace here is the ASCII set: space, tab, line feed and carriage
//! return.

use vstd::prelude::*;
use vstd::string::StrSliceExecFns;
use vstd::string::StringExecFns;

verus! {

/// ASCII whitespace.
pub open spec fn spec_is_ws(c: char) -> bool {
    c == ' ' || c == '\t' || c == '\n' || c == '\r'
}

/// Exec test for [`spec_is_ws`].
pub fn is_ws_char(c: char) -> (r: bool)
    ensures
        r == spec_is_ws(c),
{
    c == ' ' || c == '\t' || c == '\n' || c == '\r'
}

/// The whitespace predicate as a value, so that every use names the same
/// function.
pub open spec fn ws_pred() -> spec_fn(char) -> bool {
    |c: char| spec_is_ws(c)
}

/// The non-whitespace predicate as a value.
pub open spec fn non_ws_pred() -> spec_fn(char) -> bool {
    |c: char| !spec_is_ws(c)
}

/// The equals-`c` predicate as a value.
pub open spec fn eq_pred(c: char) -> spec_fn(char) -> bool {
    |x: char| x == c
}

/// Index of the first character at or after `from` that satisfies `p`, or
/// `s.len()` if there is none.
pub open spec fn find_if(s: Seq<char>, p: spec_fn(char) -> bool, from: int) -> int
    decreases s.len() - from,
{
    if from < 0 || from >= s.len() {
        s.len() as int
    } else if p(s[from]) {
        from
    } else {
        find_if(s, p, from + 1)
    }
}

/// What [`find_if`] returns: an index in `[from, s.len()]`, satisfying `p`
/// if within the sequence, with nothing before it satisfying `p`.
pub proof fn lemma_find_if(s: Seq<char>, p: spec_fn(char) -> bool, from: int)
    requires
        0 <= from <= s.len(),
    ensures
        from <= find_if(s, p, from) <= s.len(),
        find_if(s, p, from) < s.len() ==> p(s[find_if(s, p, from)]),
        forall|t: int| from <= t < find_if(s, p, from) ==> !p(s[t]),
    decreases s.len() - from,
{
    if from < s.len() && !p(s[from]) {
        lemma_find_if(s, p, from + 1);
    }
}

/// First whitespace character at or after `from`, or the length.
pub fn find_ws_at(s: &str, from: usize) -> (r: usize)
    requires
        from <= s@.len(),
    ensures
        r == find_if(s@, ws_pred(), from as int),
        from <= r <= s@.len(),
{
    proof {
        lemma_find_if(s@, ws_pred(), from as int);
    }
    let n = s.unicode_len();
    let mut i: usize = from;
    while i < n
        invariant
            from <= i <= n,
            n == s@.len(),
            find_if(s@, ws_pred(), from as int) == find_if(s@, ws_pred(), i as int),
        decreases n - i,
    {
        if is_ws_char(s.get_char(i)) {
            return i;
        }
        i += 1;
    }
    n
}

/// First non-whitespace character at or after `from`, or the length.
pub fn find_non_ws_at(s: &str, from: usize) -> (r: usize)
    requires
        from <= s@.len(),
    ensures
        r == find_if(s@, non_ws_pred(), from as int),
        from <= r <= s@.len(),
{
    proof {
        lemma_find_if(s@, non_ws_pred(), from as int);
    }
    let n = s.unicode_len();
    let mut i: usize = from;
    while i < n
        invariant
            from <= i <= n,
            n == s@.len(),
            find_if(s@, non_ws_pred(), from as int) == find_if(s@, non_ws_pred(), i as int),
        decreases n - i,
    {
        if !is_ws_char(s.get_char(i)) {
            return i;
        }
        i += 1;
    }
    n
}

/// First occurrence of `c` at or after `from`, or the length.
pub fn find_char_at(s: &str, c: char, from: usize) -> (r: usize)
    requires
        from <= s@.len(),
    ensures
        r == find_if(s@, eq_pred(c), from as int),
        from <= r <= s@.len(),
{
    proof {
        lemma_find_if(s@, eq_pred(c), from as int);
    }
    let n = s.unicode_len();
    let mut i: usize = from;
    while i < n
        invariant
            from <= i <= n,
            n == s@.len(),
            find_if(s@, eq_pred(c), from as int) == find_if(s@, eq_pred(c), i as int),
        decreases n - i,
    {
        if s.get_char(i) == c {
            return i;
        }
        i += 1;
    }
    n
}

/// Character-wise string equality.
pub fn str_eq(a: &str, b: &str) -> (r: bool)
    ensures
        r == (a@ == b@),
{
    let la = a.unicode_len();
    let lb = b.unicode_len();
    if la != lb {
        return false;
    }
    let mut i: usize = 0;
    while i < la
        invariant
            la == a@.len(),
            la == b@.len(),
            i <= la,
            forall|t: int| 0 <= t < i ==> a@[t] == b@[t],
        decreases la - i,
    {
        if a.get_char(i) != b.get_char(i) {
            return false;
        }
        i += 1;
    }
    proof {
        assert(a@ =~= b@);
    }
    true
}

/// Index of the first occurrence of `pat` at or after `from`, or `-1` if
/// there is none.
pub open spec fn find_sub(s: Seq<char>, pat: Seq<char>, from: int) -> int
    decreases s.len() - from,
{
    if from < 0 || from + pat.len() > s.len() {
        -1
    } else if s.subrange(from, from + pat.len() as int) == pat {
        from
    } else {
        proof {
            if pat.len() == 0 {
                assert(s.subrange(from, from) =~= pat);
            }
        }
        find_sub(s, pat, from + 1)
    }
}

/// First occurrence of `pat` at or after `from`.
pub fn find_sub_at(s: &str, pat: &str, from: usize) -> (r: Option<usize>)
    requires
        from <= s@.len(),
    ensures
        match r {
            Some(i) => find_sub(s@, pat@, from as int) == i && from <= i
                && i + pat@.len() <= s@.len(),
            None => find_sub(s@, pat@, from as int) == -1,
        },
{
    let n = s.unicode_len();
    let m = pat.unicode_len();
    if m > n {
        return None;
    }
    if m == 0 {
        proof {
            assert(s@.subrange(from as int, from as int) =~= pat@);
        }
        return Some(from);
    }
    let mut i: usize = from;
    while i <= n - m
        invariant
            from <= i,
            i <= n,
            n == s@.len(),
            m == pat@.len(),
            1 <= m <= n,
            find_sub(s@, pat@, from as int) == find_sub(s@, pat@, i as int),
        decreases n - i,
    {
        if str_eq(s.substring_char(i, i + m), pat) {
            return Some(i);
        }
        i += 1;
    }
    None
}

/// Whether `s` begins with `pre`.
pub open spec fn spec_has_prefix(s: Seq<char>, pre: Seq<char>) -> bool {
    pre.len() <= s.len() && s.subrange(0, pre.len() as int) == pre
}

/// Exec test for [`spec_has_prefix`].
pub fn has_prefix(s: &str, pre: &str) -> (r: bool)
    ensures
        r == spec_has_prefix(s@, pre@),
{
    let n = s.unicode_len();
    let m = pre.unicode_len();
    if m > n {
        return false;
    }
    str_eq(s.substring_char(0, m), pre)
}

/// Everything of `s` after its prefix `pre`.
pub fn strip_prefix_str(s: &str, pre: &str) -> (r: Option<String>)
    ensures
        match r {
            Some(rest) => spec_has_prefix(s@, pre@) && rest@ == s@.subrange(
                pre@.len() as int,
                s@.len() as int,
            ),
            None => !spec_has_prefix(s@, pre@),
        },
{
    if has_prefix(s, pre) {
        let m = pre.unicode_len();
        let n = s.unicode_len();
        Some(String::from_str(s.substring_char(m, n)))
    } else {
        None
    }
}

/// `s` with leading whitespace removed.
pub open spec fn spec_trim_start(s: Seq<char>) -> Seq<char> {
    s.subrange(find_if(s, non_ws_pred(), 0), s.len() as int)
}

/// Index where the trailing whitespace run of `s` begins, or the length if
/// `s` does not end in whitespace.
pub open spec fn ws_suffix_start(s: Seq<char>) -> int
    decreases s.len(),
{
    if s.len() == 0 {
        0
    } else if spec_is_ws(s[s.len() - 1]) {
        ws_suffix_start(s.drop_last())
    } else {
        s.len() as int
    }
}

/// An index from which on everything is whitespace, with no whitespace
/// right before it, is [`ws_suffix_start`] itself.
pub proof fn lemma_ws_suffix_start_unique(s: Seq<char>, j: int)
    requires
        0 <= j <= s.len(),
        j > 0 ==> !spec_is_ws(s[j - 1]),
        forall|t: int| j <= t < s.len() ==> spec_is_ws(s[t]),
    ensures
        j == ws_suffix_start(s),
    decreases s.len(),
{
    if s.len() > 0 {
        if spec_is_ws(s[s.len() - 1]) {
            assert(j < s.len());
            assert forall|t: int| j <= t < s.len() - 1 implies spec_is_ws(s.drop_last()[t]) by {
                assert(s.drop_last()[t] == s[t]);
            }
            if j > 0 {
                assert(s.drop_last()[j - 1] == s[j - 1]);
            }
            lemma_ws_suffix_start_unique(s.drop_last(), j);
        }
    }
}

/// `s` with trailing whitespace removed.
pub open spec fn spec_trim_end(s: Seq<char>) -> Seq<char> {
    s.subrange(0, ws_suffix_start(s))
}

/// `s` with leading and trailing whitespace removed.
pub open spec fn spec_trim(s: Seq<char>) -> Seq<char> {
    spec_trim_end(spec_trim_start(s))
}

/// Removes leading whitespace.
pub fn trim_start_str<'a>(s: &'a str) -> (r: &'a str)
    ensures
        r@ == spec_trim_start(s@),
{
    proof {
        lemma_find_if(s@, non_ws_pred(), 0);
    }
    let n = s.unicode_len();
    let a = find_non_ws_at(s, 0);
    s.substring_char(a, n)
}

/// Removes trailing whitespace.
pub fn trim_end_str<'a>(s: &'a str) -> (r: &'a str)
    ensures
        r@ == spec_trim_end(s@),
{
    let n = s.unicode_len();
    let mut j: usize = n;
    while j > 0 && is_ws_char(s.get_char(j - 1))
        invariant
            j <= n,
            n == s@.len(),
            forall|t: int| j <= t < n ==> spec_is_ws(s@[t]),
        decreases j,
    {
        j -= 1;
    }
    proof {
        lemma_ws_suffix_start_unique(s@, j as int);
    }
    s.substring_char(0, j)
}

/// Removes leading and trailing whitespace.
pub fn trim_str<'a>(s: &'a str) -> (r: &'a str)
    ensures
        r@ == spec_trim(s@),
{
    trim_end_str(trim_start_str(s))
}

/// Splits `s` at its first `n - 1` whitespace characters, keeping empty
/// pieces, the way `splitn` with a whitespace pattern does.
pub open spec fn spec_splitn_ws(s: Seq<char>, n: int) -> Seq<Seq<char>>
    decreases n,
{
    if n <= 1 {
        seq![s]
    } else {
        let j = find_if(s, ws_pred(), 0);
        if j >= s.len() {
            seq![s]
        } else {
            seq![s.subrange(0, j)] + spec_splitn_ws(s.subrange(j + 1, s.len() as int), n - 1)
        }
    }
}

/// Splits `s` at its first `n - 1` whitespace characters.
pub fn splitn_ws(s: &str, n: usize) -> (r: Vec<String>)
    ensures
        r.deep_view() == spec_splitn_ws(s@, n as int),
    decreases n,
{
    let len = s.unicode_len();
    if n <= 1 {
        let mut r: Vec<String> = Vec::new();
        r.push(String::from_str(s));
        proof {
            assert(r.deep_view() =~= spec_splitn_ws(s@, n as int));
        }
        return r;
    }
    let j = find_ws_at(s, 0);
    if j >= len {
        let mut r: Vec<String> = Vec::new();
        r.push(String::from_str(s));
        proof {
            assert(r.deep_view() =~= spec_splitn_ws(s@, n as int));
        }
        return r;
    }
    let head = s.substring_char(0, j);
    let tail = s.substring_char(j + 1, len);
    let mut rest = splitn_ws(tail, n - 1);
    let mut r: Vec<String> = Vec::new();
    r.push(String::from_str(head));
    r.append(&mut rest);
    proof {
        assert(r.deep_view() =~= spec_splitn_ws(s@, n as int));
    }
    r
}

/// The whitespace-separated tokens of `s` from position `i` on.
pub open spec fn spec_split_ws_from(s: Seq<char>, i: int) -> Seq<Seq<char>>
    decreases s.len() - i,
{
    if i < 0 || i >= s.len() {
        Seq::empty()
    } else if spec_is_ws(s[i]) {
        spec_split_ws_from(s, i + 1)
    } else {
        proof {
            lemma_find_if(s, ws_pred(), i);
        }
        let j = find_if(s, ws_pred(), i);
        seq![s.subrange(i, j)] + spec_split_ws_from(s, j)
    }
}

/// The whitespace-separated tokens of `s`.
pub open spec fn spec_split_ws(s: Seq<char>) -> Seq<Seq<char>> {
    spec_split_ws_from(s, 0)
}

/// The whitespace-separated tokens of `s` from position `i` on.
pub fn split_ws_from(s: &str, i: usize) -> (r: Vec<String>)
    requires
        i <= s@.len(),
    ensures
        r.deep_view() == spec_split_ws_from(s@, i as int),
    decreases s@.len() - i,
{
    let n = s.unicode_len();
    if i >= n {
        let r: Vec<String> = Vec::new();
        proof {
            assert(r.deep_view() =~= spec_split_ws_from(s@, i as int));
        }
        return r;
    }
    if is_ws_char(s.get_char(i)) {
        return split_ws_from(s, i + 1);
    }
    proof {
        lemma_find_if(s@, ws_pred(), i as int);
    }
    let j = find_ws_at(s, i);
    let mut r: Vec<String> = Vec::new();
    r.push(String::from_str(s.substring_char(i, j)));
    let mut rest = split_ws_from(s, j);
    r.append(&mut rest);
    proof {
        assert(r.deep_view() =~= spec_split_ws_from(s@, i as int));
    }
    r
}

/// The whitespace-separated tokens of `s`.
pub fn split_ws(s: &str) -> (r: Vec<String>)
    ensures
        r.deep_view() == spec_split_ws(s@),
{
    split_ws_from(s, 0)
}

/// A piece before a line feed, with one carriage return before that line
/// feed removed.
pub open spec fn strip_trailing_cr(p: Seq<char>) -> Seq<char> {
    if p.len() > 0 && p[p.len() - 1] == '\r' {
        p.drop_last()
    } else {
        p
    }
}

/// The lines of `s`: pieces split at each line feed, a carriage return
/// right before the line feed removed, and no final empty line when `s`
/// ends with a line feed.
pub open spec fn spec_lines(s: Seq<char>) -> Seq<Seq<char>>
    decreases s.len(),
{
    if s.len() == 0 {
        Seq::empty()
    } else {
        let j = find_if(s, eq_pred('\n'), 0);
        if j >= s.len() {
            seq![s]
        } else {
            proof {
                lemma_find_if(s, eq_pred('\n'), 0);
            }
            seq![strip_trailing_cr(s.subrange(0, j))] + spec_lines(
                s.subrange(j + 1, s.len() as int),
            )
        }
    }
}

/// The lines of `s`.
pub fn split_lines(s: &str) -> (r: Vec<String>)
    ensures
        r.deep_view() == spec_lines(s@),
    decreases s@.len(),
{
    let n = s.unicode_len();
    if n == 0 {
        let r: Vec<String> = Vec::new();
        proof {
            assert(r.deep_view() =~= spec_lines(s@));
        }
        return r;
    }
    let j = find_char_at(s, '\n', 0);
    if j >= n {
        let mut r: Vec<String> = Vec::new();
        r.push(String::from_str(s));
        proof {
            assert(r.deep_view() =~= spec_lines(s@));
        }
        return r;
    }
    let line = if j > 0 && s.get_char(j - 1) == '\r' {
        s.substring_char(0, j - 1)
    } else {
        s.substring_char(0, j)
    };
    proof {
        if j > 0 && s@[j - 1] == '\r' {
            assert(s@.subrange(0, j as int).drop_last() =~= s@.subrange(0, j - 1));
        }
    }
    let tail = s.substring_char(j + 1, n);
    let mut r: Vec<String> = Vec::new();
    r.push(String::from_str(line));
    let mut rest = split_lines(tail);
    r.append(&mut rest);
    proof {
        assert(r.deep_view() =~= spec_lines(s@));
    }
    r
}

/// Index of the last occurrence of `c` in `s`, or `-1` if there is none.
pub open spec fn rfind_char(s: Seq<char>, c: char) -> int
    decreases s.len(),
{
    if s.len() == 0 {
        -1
    } else if s[s.len() - 1] == c {
        s.len() - 1
    } else {
        rfind_char(s.drop_last(), c)
    }
}

/// Last occurrence of `c` in `s`.
pub fn rfind_char_at(s: &str, c: char) -> (r: Option<usize>)
    ensures
        match r {
            Some(i) => rfind_char(s@, c) == i && i < s@.len(),
            None => rfind_char(s@, c) == -1,
        },
{
    let n = s.unicode_len();
    let mut j: usize = n;
    proof {
        assert(s@.take(n as int) =~= s@);
    }
    while j > 0
        invariant
            j <= n,
            n == s@.len(),
            rfind_char(s@, c) == rfind_char(s@.take(j as int), c),
        decreases j,
    {
        proof {
            assert(s@.take(j as int).drop_last() =~= s@.take(j - 1));
            assert(s@.take(j as int)[j - 1] == s@[j - 1]);
        }
        if s.get_char(j - 1) == c {
            return Some(j - 1);
        }
        j -= 1;
    }
    None
}

/// Decimal digit.
pub open spec fn spec_is_digit(c: char) -> bool {
    48 <= c as u32 <= 57
}

/// Whether every character of `t` is a decimal digit.
pub open spec fn all_digits(t: Seq<char>) -> bool {
    forall|i: int| 0 <= i < t.len() ==> spec_is_digit(t[i])
}

/// Numeric value of a digit sequence.
pub open spec fn digits_val(t: Seq<char>) -> int
    decreases t.len(),
{
    if t.len() == 0 {
        0
    } else {
        digits_val(t.drop_last()) * 10 + (t[t.len() - 1] as u32 - 48)
    }
}

/// A digit sequence has a non-negative value.
pub proof fn lemma_digits_val_nonneg(t: Seq<char>)
    requires
        all_digits(t),
    ensures
        digits_val(t) >= 0,
    decreases t.len(),
{
    if t.len() > 0 {
        assert forall|i: int| 0 <= i < t.len() - 1 implies spec_is_digit(t.drop_last()[i]) by {
            assert(t.drop_last()[i] == t[i]);
        }
        lemma_digits_val_nonneg(t.drop_last());
    }
}

/// A prefix of a digit sequence has no greater value.
pub proof fn lemma_digits_val_prefix(t: Seq<char>, k: int)
    requires
        all_digits(t),
        0 <= k <= t.len(),
    ensures
        digits_val(t.take(k)) <= digits_val(t),
    decreases t.len(),
{
    if k < t.len() {
        assert forall|i: int| 0 <= i < t.len() - 1 implies spec_is_digit(t.drop_last()[i]) by {
            assert(t.drop_last()[i] == t[i]);
        }
        assert(t.take(k) =~= t.drop_last().take(k));
        lemma_digits_val_prefix(t.drop_last(), k);
        lemma_digits_val_nonneg(t.drop_last());
    } else {
        assert(t.take(k) =~= t);
    }
}

/// The value `u64` parsing gives `t`: an optional leading plus sign, then
/// one or more decimal digits, rejecting anything else and any value over
/// `u64::MAX`.
pub open spec fn spec_parse_u64(t: Seq<char>) -> Option<u64> {
    let digits = if t.len() > 0 && t[0] == '+' {
        t.subrange(1, t.len() as int)
    } else {
        t
    };
    if digits.len() == 0 || !all_digits(digits) {
        None
    } else if digits_val(digits) > u64::MAX {
        None
    } else {
        Some(digits_val(digits) as u64)
    }
}

/// The parsed value of `t`, or zero where parsing fails.
pub open spec fn spec_parse_u64_or_zero(t: Seq<char>) -> u64 {
    match spec_parse_u64(t) {
        Some(v) => v,
        None => 0,
    }
}

/// Parses `t` as a decimal `u64`, yielding zero where parsing fails.
#[verifier::loop_isolation(false)]
pub fn parse_u64_or_zero(t: &str) -> (r: u64)
    ensures
        r == spec_parse_u64_or_zero(t@),
{
    let n = t.unicode_len();
    let start: usize = if n > 0 && t.get_char(0) == '+' {
        1
    } else {
        0
    };
    let ghost digits = if t@.len() > 0 && t@[0] == '+' {
        t@.subrange(1, t@.len() as int)
    } else {
        t@
    };
    proof {
        assert(digits =~= t@.subrange(start as int, n as int));
    }
    if n == start {
        return 0;
    }
    let mut acc: u64 = 0;
    let mut i: usize = start;
    while i < n
        invariant
            start <= i <= n,
            n == t@.len(),
            digits == t@.subrange(start as int, n as int),
            forall|u: int| start <= u < i ==> spec_is_digit(t@[u]),
            acc == digits_val(t@.subrange(start as int, i as int)),
        decreases n - i,
    {
        let c = t.get_char(i);
        let v = c as u32;
        if v < 48 || v > 57 {
            proof {
                assert(digits[i - start] == t@[i as int]);
                assert(!all_digits(digits));
            }
            return 0;
        }
        let d = (v - 48) as u64;
        proof {
            assert(t@.subrange(start as int, i + 1).drop_last() =~= t@.subrange(
                start as int,
                i as int,
            ));
            assert(t@.subrange(start as int, i + 1)[i - start] == t@[i as int]);
        }
        let m = match acc.checked_mul(10) {
            Some(m) => m,
            None => {
                proof {
                    overflow_means_zero(t@, digits, start as int, i as int, acc, d as int);
                }
                return 0;
            },
        };
        acc = match m.checked_add(d) {
            Some(x) => x,
            None => {
                proof {
                    overflow_means_zero(t@, digits, start as int, i as int, acc, d as int);
                }
                return 0;
            },
        };
        i += 1;
    }
    proof {
        assert(t@.subrange(start as int, n as int) =~= digits);
    }
    acc
}

/// When accumulating the next digit would overflow a `u64`, the parse
/// yields zero.
proof fn overflow_means_zero(s: Seq<char>, digits: Seq<char>, start: int, i: int, acc: u64, d: int)
    requires
        0 <= start <= i < s.len(),
        digits == s.subrange(start, s.len() as int),
        forall|u: int| start <= u < i ==> spec_is_digit(s[u]),
        spec_is_digit(s[i]),
        acc == digits_val(s.subrange(start, i)),
        0 <= d <= 9,
        d == s[i] as u32 - 48,
        acc * 10 + d > u64::MAX,
    ensures
        all_digits(digits) ==> digits_val(digits) > u64::MAX,
{
    if all_digits(digits) {
        assert(s.subrange(start, i + 1).drop_last() =~= s.subrange(start, i));
        assert(s.subrange(start, i + 1)[i - start] == s[i]);
        assert(digits_val(s.subrange(start, i + 1)) == acc * 10 + d);
        assert(s.subrange(start, i + 1) =~= digits.take(i + 1 - start));
        lemma_digits_val_prefix(digits, i + 1 - start);
    }
}

/// `t` with every occurrence of `c` removed.
pub open spec fn spec_remove_char(t: Seq<char>, c: char) -> Seq<char>
    decreases t.len(),
{
    if t.len() == 0 {
        Seq::empty()
    } else if t[t.len() - 1] == c {
        spec_remove_char(t.drop_last(), c)
    } else {
        spec_remove_char(t.drop_last(), c) + seq![t[t.len() - 1]]
    }
}

/// Removes every occurrence of `c` from `t`.
pub fn remove_char(t: &str, c: char) -> (r: String)
    ensures
        r@ == spec_remove_char(t@, c),
{
    let n = t.unicode_len();
    let mut r = String::new();
    let mut i: usize = 0;
    while i < n
        invariant
            i <= n,
            n == t@.len(),
            r@ == spec_remove_char(t@.take(i as int), c),
        decreases n - i,
    {
        proof {
            assert(t@.take(i + 1).drop_last() =~= t@.take(i as int));
            assert(t@.take(i + 1)[i as int] == t@[i as int]);
        }
        let ch = t.get_char(i);
        if ch != c {
            r.append(t.substring_char(i, i + 1));
            proof {
                assert(t@.subrange(i as int, i + 1) =~= seq![t@[i as int]]);
            }
        }
        i += 1;
    }
    proof {
        assert(t@.take(n as int) =~= t@);
    }
    r
}

} // verus!
