//! Verified text utilities over `String` and `&str`, with their meaning given
//! by spec functions over `Seq<char>`.

use vstd::prelude::*;

verus! {

/// The pattern `pat` occurs in `s` at position `i`.
pub open spec fn match_at(s: Seq<char>, pat: Seq<char>, i: int) -> bool {
    0 <= i && i + pat.len() <= s.len() && s.subrange(i, i + pat.len() as int) == pat
}

/// The first position at or after `i` where `pat` occurs in `s`, or -1.
pub open spec fn spec_find_from(s: Seq<char>, pat: Seq<char>, i: int) -> int
    decreases s.len() - i,
{
    if pat.len() == 0 {
        if 0 <= i <= s.len() {
            i
        } else {
            -1
        }
    } else if i < 0 || i + pat.len() > s.len() {
        -1
    } else if s.subrange(i, i + pat.len() as int) == pat {
        i
    } else {
        spec_find_from(s, pat, i + 1)
    }
}

/// `pat` occurs somewhere in `s`.
pub open spec fn spec_contains(s: Seq<char>, pat: Seq<char>) -> bool {
    spec_find_from(s, pat, 0) >= 0
}

/// What `spec_find_from` returns: the first match position, or -1 when no
/// position at or after `i` matches.
pub proof fn lemma_find_from_props(s: Seq<char>, pat: Seq<char>, i: int)
    requires
        0 <= i,
        pat.len() > 0,
    ensures
        spec_find_from(s, pat, i) == -1 ==> forall|j: int| i <= j ==> !match_at(s, pat, j),
        spec_find_from(s, pat, i) >= 0 ==> i <= spec_find_from(s, pat, i)
            && match_at(s, pat, spec_find_from(s, pat, i))
            && forall|j: int| i <= j < spec_find_from(s, pat, i) ==> !match_at(s, pat, j),
    decreases s.len() - i,
{
    if i + pat.len() > s.len() {
        assert forall|j: int| i <= j implies !match_at(s, pat, j) by {
            assert(j + pat.len() > s.len());
        }
    } else if s.subrange(i, i + pat.len() as int) == pat {
    } else {
        lemma_find_from_props(s, pat, i + 1);
        assert(!match_at(s, pat, i));
    }
}

/// Character-for-character equality of two string slices.
pub fn str_eq(a: &str, b: &str) -> (r: bool)
    ensures
        r == (a@ == b@),
{
    let la = a.unicode_len();
    let lb = b.unicode_len();
    if la != lb {
        assert(a@ != b@) by {
            assert(a@.len() != b@.len());
        }
        return false;
    }
    let mut i: usize = 0;
    while i < la
        invariant
            la == a@.len(),
            la == b@.len(),
            0 <= i <= la,
            forall|j: int| 0 <= j < i ==> a@[j] == b@[j],
        decreases la - i,
    {
        if a.get_char(i) != b.get_char(i) {
            return false;
        }
        i += 1;
    }
    proof {
        assert(a@ =~= b@);
    }
    true
}

/// The characters of `s` from `i` on equal `pat`.
fn window_eq(s: &str, pat: &str, i: usize) -> (r: bool)
    requires
        i + pat@.len() <= s@.len(),
    ensures
        r == (s@.subrange(i as int, i + pat@.len() as int) == pat@),
{
    let n = s.unicode_len();
    let m = pat.unicode_len();
    let mut j: usize = 0;
    while j < m
        invariant
            n == s@.len(),
            m == pat@.len(),
            i + m <= s@.len(),
            0 <= j <= m,
            forall|k: int| 0 <= k < j ==> s@[i + k] == pat@[k],
        decreases m - j,
    {
        if s.get_char(i + j) != pat.get_char(j) {
            assert(s@.subrange(i as int, i + pat@.len() as int) != pat@) by {
                assert(s@.subrange(i as int, i + pat@.len() as int)[j as int] == s@[i + j]);
            }
            return false;
        }
        j += 1;
    }
    proof {
        assert(s@.subrange(i as int, i + pat@.len() as int) =~= pat@);
    }
    true
}

/// The first position at or after `from` where `pat` occurs in `s`.
pub fn find_from(s: &str, pat: &str, from: usize) -> (r: Option<usize>)
    ensures
        match r {
            Some(k) => spec_find_from(s@, pat@, from as int) == k && match_at(s@, pat@, k as int),
            None => spec_find_from(s@, pat@, from as int) == -1,
        },
{
    let n = s.unicode_len();
    let m = pat.unicode_len();
    if m == 0 {
        if from <= n {
            proof {
                assert(s@.subrange(from as int, from as int) =~= pat@);
            }
            return Some(from);
        } else {
            return None;
        }
    }
    let mut i: usize = from;
    loop
        invariant
            n == s@.len(),
            m == pat@.len(),
            m > 0,
            from <= i,
            0 <= i,
            spec_find_from(s@, pat@, from as int) == spec_find_from(s@, pat@, i as int),
        decreases n + 1 - i,
    {
        if i > n || m > n - i {
            assert(i + pat@.len() > s@.len());
            return None;
        }
        if window_eq(s, pat, i) {
            proof {
                lemma_find_from_props(s@, pat@, i as int);
            }
            return Some(i);
        }
        i += 1;
    }
}

/// `pat` occurs somewhere in `s`.
pub fn contains_str(s: &str, pat: &str) -> (r: bool)
    ensures
        r == spec_contains(s@, pat@),
{
    find_from(s, pat, 0).is_some()
}

/// An owned copy of the characters of `s` from `from` to `to`.
pub fn substring(s: &str, from: usize, to: usize) -> (r: String)
    requires
        from <= to <= s@.len(),
    ensures
        r@ == s@.subrange(from as int, to as int),
{
    String::from_str(s.substring_char(from, to))
}

/// `pre` is a prefix of `s`.
pub fn starts_with_str(s: &str, pre: &str) -> (r: bool)
    ensures
        r == pre@.is_prefix_of(s@),
{
    let n = s.unicode_len();
    let m = pre.unicode_len();
    if m > n {
        return false;
    }
    let r = window_eq(s, pre, 0);
    proof {
        assert(pre@.is_prefix_of(s@) == (s@.subrange(0, pre@.len() as int) == pre@));
    }
    r
}

/// `suf` is a suffix of `s`.
pub fn ends_with_str(s: &str, suf: &str) -> (r: bool)
    ensures
        r == suf@.is_suffix_of(s@),
{
    let n = s.unicode_len();
    let m = suf.unicode_len();
    if m > n {
        return false;
    }
    let r = window_eq(s, suf, n - m);
    proof {
        assert(s@.subrange(s@.len() - suf@.len(), s@.len() as int) == s@.skip(s@.len() - suf@.len()));
        assert(suf@.is_suffix_of(s@) == (s@.skip(s@.len() - suf@.len()) == suf@));
    }
    r
}

/// `s` without the prefix `pre`, or `None` when `pre` is not a prefix.
pub fn strip_prefix_str(s: &str, pre: &str) -> (r: Option<String>)
    ensures
        match r {
            Some(t) => pre@.is_prefix_of(s@) && t@ == s@.skip(pre@.len() as int),
            None => !pre@.is_prefix_of(s@),
        },
{
    if starts_with_str(s, pre) {
        let n = s.unicode_len();
        let m = pre.unicode_len();
        let t = substring(s, m, n);
        proof {
            assert(t@ =~= s@.skip(pre@.len() as int));
        }
        Some(t)
    } else {
        None
    }
}

/// `s` without the suffix `suf`, or `None` when `suf` is not a suffix.
pub fn strip_suffix_str(s: &str, suf: &str) -> (r: Option<String>)
    ensures
        match r {
            Some(t) => suf@.is_suffix_of(s@) && t@ == s@.take(s@.len() - suf@.len()),
            None => !suf@.is_suffix_of(s@),
        },
{
    if ends_with_str(s, suf) {
        let n = s.unicode_len();
        let m = suf.unicode_len();
        let t = substring(s, 0, n - m);
        proof {
            assert(t@ =~= s@.take(s@.len() - suf@.len()));
        }
        Some(t)
    } else {
        None
    }
}

/// The views of a sequence of owned strings.
pub open spec fn seq_views(v: Seq<String>) -> Seq<Seq<char>> {
    v.map_values(|s: String| s@)
}

/// `s` split at every occurrence of `sep`, scanning left to right.
pub open spec fn spec_split(s: Seq<char>, sep: Seq<char>) -> Seq<Seq<char>>
    decreases s.len(),
{
    if sep.len() == 0 {
        seq![s]
    } else {
        let i = spec_find_from(s, sep, 0);
        if i < 0 || i + sep.len() > s.len() {
            seq![s]
        } else {
            seq![s.subrange(0, i)] + spec_split(s.subrange(i + sep.len(), s.len() as int), sep)
        }
    }
}

/// `s` split at every occurrence of `sep`.
pub fn split_str(s: &str, sep: &str) -> (r: Vec<String>)
    requires
        sep@.len() > 0,
    ensures
        seq_views(r@) == spec_split(s@, sep@),
        r@.len() >= 1,
{
    let mut r: Vec<String> = Vec::new();
    let mut rem: String = s.to_owned();
    loop
        invariant_except_break
            sep@.len() > 0,
            spec_split(s@, sep@) == seq_views(r@) + spec_split(rem@, sep@),
        ensures
            seq_views(r@) == spec_split(s@, sep@),
            r@.len() >= 1,
        decreases rem@.len(),
    {
        let ghost prev_r = r@;
        let ghost prev_rem = rem@;
        match find_from(rem.as_str(), sep, 0) {
            None => {
                proof {
                    assert(spec_split(prev_rem, sep@) == seq![prev_rem]);
                }
                r.push(rem);
                proof {
                    assert(seq_views(r@) =~~= seq_views(prev_r) + seq![prev_rem]);
                    assert(seq_views(r@) =~~= spec_split(s@, sep@));
                }
                break;
            },
            Some(i) => {
                let m = sep.unicode_len();
                let n = rem.unicode_len();
                let piece = substring(rem.as_str(), 0, i);
                r.push(piece);
                rem = substring(rem.as_str(), i + m, n);
                proof {
                    assert(spec_split(prev_rem, sep@) == seq![prev_rem.subrange(0, i as int)]
                        + spec_split(prev_rem.subrange(i + m, prev_rem.len() as int), sep@));
                    assert(seq_views(r@) =~~= seq_views(prev_r).push(prev_rem.subrange(0, i as int)));
                    assert(seq_views(r@) + spec_split(rem@, sep@) =~~= seq_views(prev_r) + spec_split(
                        prev_rem,
                        sep@,
                    ));
                }
            },
        }
    }
    r
}

/// The parts joined with `sep` between consecutive parts.
pub open spec fn spec_join(parts: Seq<Seq<char>>, sep: Seq<char>) -> Seq<char>
    decreases parts.len(),
{
    if parts.len() == 0 {
        Seq::empty()
    } else if parts.len() == 1 {
        parts[0]
    } else {
        parts[0] + sep + spec_join(parts.skip(1), sep)
    }
}

/// Joining one more part appends a separator and that part.
pub proof fn lemma_join_push(parts: Seq<Seq<char>>, sep: Seq<char>, x: Seq<char>)
    ensures
        parts.len() == 0 ==> spec_join(parts.push(x), sep) == x,
        parts.len() > 0 ==> spec_join(parts.push(x), sep) == spec_join(parts, sep) + sep + x,
    decreases parts.len(),
{
    if parts.len() == 0 {
        assert(parts.push(x).len() == 1);
        assert(spec_join(parts.push(x), sep) == parts.push(x)[0]);
    } else if parts.len() == 1 {
        assert(parts.push(x).skip(1) =~= seq![x]);
        assert(spec_join(seq![x], sep) == x);
        assert(parts.push(x)[0] == parts[0]);
        assert(spec_join(parts.push(x), sep) == parts[0] + sep + x);
    } else {
        lemma_join_push(parts.skip(1), sep, x);
        assert(parts.push(x).skip(1) =~= parts.skip(1).push(x));
        assert(spec_join(parts.push(x), sep) == parts[0] + sep + spec_join(parts.skip(1).push(x), sep));
        assert(parts[0] + sep + (spec_join(parts.skip(1), sep) + sep + x) =~= (parts[0] + sep
            + spec_join(parts.skip(1), sep)) + sep + x);
    }
}

/// The strings of `v` joined with `sep` between consecutive entries.
pub fn join_str(v: &Vec<String>, sep: &str) -> (r: String)
    ensures
        r@ == spec_join(seq_views(v@), sep@),
{
    let mut r = String::new();
    let mut i: usize = 0;
    while i < v.len()
        invariant
            0 <= i <= v@.len(),
            r@ == spec_join(seq_views(v@).take(i as int), sep@),
        decreases v@.len() - i,
    {
        let ghost prefix = seq_views(v@).take(i as int);
        if i > 0 {
            r.append(sep);
        }
        r.append(v[i].as_str());
        proof {
            lemma_join_push(prefix, sep@, v@[i as int]@);
            assert(seq_views(v@).take(i + 1) =~= prefix.push(v@[i as int]@));
            if i == 0 {
                assert(prefix.len() == 0);
                assert(r@ =~= v@[i as int]@);
            } else {
                assert(r@ =~= spec_join(prefix, sep@) + sep@ + v@[i as int]@);
            }
        }
        i += 1;
    }
    proof {
        assert(seq_views(v@).take(v@.len() as int) =~= seq_views(v@));
    }
    r
}

/// `s` with every occurrence of `from` replaced by `to`, scanning left to
/// right without revisiting replaced text.
pub open spec fn spec_replace(s: Seq<char>, from: Seq<char>, to: Seq<char>) -> Seq<char>
    decreases s.len(),
{
    if from.len() == 0 {
        s
    } else {
        let i = spec_find_from(s, from, 0);
        if i < 0 || i + from.len() > s.len() {
            s
        } else {
            s.subrange(0, i) + to + spec_replace(s.subrange(i + from.len(), s.len() as int), from, to)
        }
    }
}

/// `s` with every occurrence of `from` replaced by `to`.
pub fn replace_str(s: &str, from: &str, to: &str) -> (r: String)
    ensures
        r@ == spec_replace(s@, from@, to@),
{
    if from.unicode_len() == 0 {
        return s.to_owned();
    }
    let mut r = String::new();
    let mut rem: String = s.to_owned();
    loop
        invariant_except_break
            from@.len() > 0,
            spec_replace(s@, from@, to@) == r@ + spec_replace(rem@, from@, to@),
        ensures
            r@ == spec_replace(s@, from@, to@),
        decreases rem@.len(),
    {
        let ghost prev_r = r@;
        let ghost prev_rem = rem@;
        match find_from(rem.as_str(), from, 0) {
            None => {
                proof {
                    assert(spec_replace(prev_rem, from@, to@) == prev_rem);
                }
                r.append(rem.as_str());
                break;
            },
            Some(i) => {
                let m = from.unicode_len();
                let n = rem.unicode_len();
                let piece = substring(rem.as_str(), 0, i);
                r.append(piece.as_str());
                r.append(to);
                rem = substring(rem.as_str(), i + m, n);
                proof {
                    assert(spec_replace(prev_rem, from@, to@) == prev_rem.subrange(0, i as int) + to@
                        + spec_replace(prev_rem.subrange(i + m, prev_rem.len() as int), from@, to@));
                    assert(r@ + spec_replace(rem@, from@, to@) =~= prev_r + spec_replace(
                        prev_rem,
                        from@,
                        to@,
                    ));
                }
            },
        }
    }
    r
}

/// A whitespace character, for trimming.
pub open spec fn is_space(c: char) -> bool {
    c == ' ' || c == '\t' || c == '\r' || c == '\n'
}

/// `s` without its leading whitespace.
pub open spec fn spec_trim_start(s: Seq<char>) -> Seq<char>
    decreases s.len(),
{
    if s.len() > 0 && is_space(s[0]) {
        spec_trim_start(s.skip(1))
    } else {
        s
    }
}

/// `s` without its trailing whitespace.
pub open spec fn spec_trim_end(s: Seq<char>) -> Seq<char>
    decreases s.len(),
{
    if s.len() > 0 && is_space(s[s.len() - 1]) {
        spec_trim_end(s.take(s.len() - 1))
    } else {
        s
    }
}

/// `s` without leading or trailing whitespace.
pub open spec fn spec_trim(s: Seq<char>) -> Seq<char> {
    spec_trim_end(spec_trim_start(s))
}

/// Whether `c` counts as whitespace for trimming.
pub fn is_space_char(c: char) -> (r: bool)
    ensures
        r == is_space(c),
{
    c == ' ' || c == '\t' || c == '\r' || c == '\n'
}

/// `s` without leading or trailing whitespace.
pub fn trim_str(s: &str) -> (r: String)
    ensures
        r@ == spec_trim(s@),
{
    let n = s.unicode_len();
    let mut a: usize = 0;
    proof {
        assert(s@.skip(0) =~= s@);
    }
    while a < n && is_space_char(s.get_char(a))
        invariant
            n == s@.len(),
            0 <= a <= n,
            spec_trim_start(s@) == spec_trim_start(s@.skip(a as int)),
        decreases n - a,
    {
        proof {
            assert(s@.skip(a as int)[0] == s@[a as int]);
            assert(s@.skip(a as int).skip(1) =~= s@.skip(a + 1));
        }
        a += 1;
    }
    proof {
        if a < n {
            assert(s@.skip(a as int)[0] == s@[a as int]);
        }
        assert(spec_trim_start(s@.skip(a as int)) == s@.skip(a as int));
    }
    let mut b: usize = n;
    proof {
        assert(s@.skip(a as int).take(n - a) =~= s@.skip(a as int));
    }
    while b > a && is_space_char(s.get_char(b - 1))
        invariant
            n == s@.len(),
            0 <= a <= b <= n,
            spec_trim_start(s@) == s@.skip(a as int),
            spec_trim_end(s@.skip(a as int)) == spec_trim_end(s@.skip(a as int).take(b - a)),
        decreases b,
    {
        proof {
            let t = s@.skip(a as int).take(b - a);
            assert(t[t.len() - 1] == s@[b - 1]);
            assert(t.take(t.len() - 1) =~= s@.skip(a as int).take(b - 1 - a));
        }
        b -= 1;
    }
    let r = substring(s, a, b);
    proof {
        let t = s@.skip(a as int).take(b - a);
        if b > a {
            assert(t[t.len() - 1] == s@[b - 1]);
        }
        assert(spec_trim_end(t) == t);
        assert(r@ =~= t);
    }
    r
}

/// How many times the character `c` occurs in `s`.
pub open spec fn spec_count_char(s: Seq<char>, c: char) -> nat
    decreases s.len(),
{
    if s.len() == 0 {
        0
    } else {
        spec_count_char(s.drop_last(), c) + if s.last() == c {
            1nat
        } else {
            0
        }
    }
}

/// How many times `c` occurs in `s`.
pub fn count_char(s: &str, c: char) -> (r: usize)
    ensures
        r == spec_count_char(s@, c),
{
    let n = s.unicode_len();
    let mut r: usize = 0;
    let mut i: usize = 0;
    while i < n
        invariant
            n == s@.len(),
            0 <= i <= n,
            r <= i,
            r == spec_count_char(s@.take(i as int), c),
        decreases n - i,
    {
        proof {
            let t = s@.take(i + 1);
            assert(t.drop_last() =~= s@.take(i as int));
            assert(t.last() == s@[i as int]);
        }
        if s.get_char(i) == c {
            r += 1;
        }
        i += 1;
    }
    proof {
        assert(s@.take(n as int) =~= s@);
    }
    r
}

/// `n` space characters.
pub open spec fn spec_spaces(n: nat) -> Seq<char>
    decreases n,
{
    if n == 0 {
        Seq::empty()
    } else {
        spec_spaces((n - 1) as nat).push(' ')
    }
}

/// The length of `spec_spaces(n)` is `n` and every character is a space.
pub proof fn lemma_spaces_len(n: nat)
    ensures
        spec_spaces(n).len() == n,
        forall|j: int| 0 <= j < n ==> spec_spaces(n)[j] == ' ',
    decreases n,
{
    if n > 0 {
        lemma_spaces_len((n - 1) as nat);
    }
}

/// A string of `n` space characters.
pub fn spaces(n: usize) -> (r: String)
    ensures
        r@ == spec_spaces(n as nat),
{
    let mut r = String::new();
    let mut i: usize = 0;
    proof {
        reveal_strlit(" ");
    }
    while i < n
        invariant
            0 <= i <= n,
            r@ == spec_spaces(i as nat),
            " "@ == seq![' '],
        decreases n - i,
    {
        r.append(" ");
        proof {
            assert(r@ =~= spec_spaces((i + 1) as nat));
        }
        i += 1;
    }
    r
}

/// The total character count of a sequence of strings.
pub open spec fn sum_lens(v: Seq<Seq<char>>) -> nat
    decreases v.len(),
{
    if v.len() == 0 {
        0
    } else {
        v[0].len() + sum_lens(v.skip(1))
    }
}

/// Appending one more string adds its length to the total.
pub proof fn lemma_sum_lens_push(v: Seq<Seq<char>>, x: Seq<char>)
    ensures
        sum_lens(v.push(x)) == sum_lens(v) + x.len(),
    decreases v.len(),
{
    if v.len() == 0 {
        assert(v.push(x).skip(1) =~= Seq::<Seq<char>>::empty());
        assert(v.push(x)[0] == x);
        assert(sum_lens(v.push(x)) == x.len() + sum_lens(Seq::<Seq<char>>::empty()));
    } else {
        lemma_sum_lens_push(v.skip(1), x);
        assert(v.push(x).skip(1) =~= v.skip(1).push(x));
        assert(v.push(x)[0] == v[0]);
        assert(sum_lens(v.push(x)) == v[0].len() + sum_lens(v.skip(1).push(x)));
        assert(sum_lens(v) == v[0].len() + sum_lens(v.skip(1)));
    }
}

/// A prefix of the strings is no longer, in total, than all of them.
pub proof fn lemma_sum_lens_take(v: Seq<Seq<char>>, k: int)
    requires
        0 <= k <= v.len(),
    ensures
        sum_lens(v.take(k)) <= sum_lens(v),
    decreases v.len() - k,
{
    if k == v.len() {
        assert(v.take(k) =~= v);
    } else {
        lemma_sum_lens_take(v, k + 1);
        assert(v.take(k + 1) =~= v.take(k).push(v[k]));
        lemma_sum_lens_push(v.take(k), v[k]);
    }
}

/// The split pieces together are no longer than the split string.
pub proof fn lemma_split_sum(s: Seq<char>, sep: Seq<char>)
    requires
        sep.len() > 0,
    ensures
        sum_lens(spec_split(s, sep)) <= s.len(),
    decreases s.len(),
{
    let i = spec_find_from(s, sep, 0);
    if i < 0 || i + sep.len() > s.len() {
        assert(spec_split(s, sep) == seq![s]);
        assert(sum_lens(seq![s]) == s.len() + sum_lens(seq![s].skip(1)));
        assert(seq![s].skip(1) =~= Seq::<Seq<char>>::empty());
    } else {
        let rest = s.subrange(i + sep.len(), s.len() as int);
        lemma_split_sum(rest, sep);
        let pieces = seq![s.subrange(0, i)] + spec_split(rest, sep);
        assert(spec_split(s, sep) == pieces);
        assert(pieces[0] == s.subrange(0, i));
        assert(pieces.skip(1) =~= spec_split(rest, sep));
    }
}

/// A character occurs no more often than the string is long.
pub proof fn lemma_count_le_len(s: Seq<char>, c: char)
    ensures
        spec_count_char(s, c) <= s.len(),
    decreases s.len(),
{
    if s.len() > 0 {
        lemma_count_le_len(s.drop_last(), c);
    }
}

/// `s` without the prefix `p`, or nothing when `p` is not a prefix.
pub open spec fn strip_pre(s: Seq<char>, p: Seq<char>) -> Option<Seq<char>> {
    if p.is_prefix_of(s) {
        Some(s.skip(p.len() as int))
    } else {
        None
    }
}

/// `s` without the suffix `p`, or nothing when `p` is not a suffix.
pub open spec fn strip_suf(s: Seq<char>, p: Seq<char>) -> Option<Seq<char>> {
    if p.is_suffix_of(s) {
        Some(s.take(s.len() - p.len()))
    } else {
        None
    }
}

/// The view of an optional owned string.
pub open spec fn opt_view(o: Option<String>) -> Option<Seq<char>> {
    match o {
        Some(s) => Some(s@),
        None => None,
    }
}

/// An exact copy of an owned string.
pub fn clone_string(s: &String) -> (r: String)
    ensures
        r == *s,
{
    s.clone()
}

/// An exact copy of an optional owned string.
pub fn clone_opt_string(o: &Option<String>) -> (r: Option<String>)
    ensures
        r == *o,
{
    match o {
        Some(s) => Some(clone_string(s)),
        None => None,
    }
}

/// An exact copy of a vector of owned strings.
pub fn clone_string_vec(v: &Vec<String>) -> (r: Vec<String>)
    ensures
        r@ == v@,
{
    let mut r: Vec<String> = Vec::new();
    let mut i: usize = 0;
    while i < v.len()
        invariant
            0 <= i <= v@.len(),
            r@ == v@.take(i as int),
        decreases v@.len() - i,
    {
        r.push(clone_string(&v[i]));
        proof {
            assert(r@ =~= v@.take(i + 1));
        }
        i += 1;
    }
    proof {
        assert(v@.take(v@.len() as int) =~= v@);
    }
    r
}

/// Equality of two optional strings, compared by their characters.
pub fn opt_str_eq(a: &Option<String>, b: &Option<String>) -> (r: bool)
    ensures
        r == (opt_view(*a) == opt_view(*b)),
{
    match (a, b) {
        (Some(x), Some(y)) => str_eq(x.as_str(), y.as_str()),
        (None, None) => true,
        _ => false,
    }
}

/// Equality of two vectors of strings, compared by their characters.
pub fn str_vec_eq(a: &Vec<String>, b: &Vec<String>) -> (r: bool)
    ensures
        r == (seq_views(a@) == seq_views(b@)),
{
    if a.len() != b.len() {
        assert(seq_views(a@).len() != seq_views(b@).len());
        return false;
    }
    let mut i: usize = 0;
    while i < a.len()
        invariant
            a@.len() == b@.len(),
            0 <= i <= a@.len(),
            forall|j: int| 0 <= j < i ==> seq_views(a@)[j] == seq_views(b@)[j],
        decreases a@.len() - i,
    {
        if !str_eq(a[i].as_str(), b[i].as_str()) {
            assert(seq_views(a@)[i as int] != seq_views(b@)[i as int]);
            return false;
        }
        i += 1;
    }
    proof {
        assert(seq_views(a@) =~= seq_views(b@));
    }
    true
}

/// Equality of two optional vectors of strings.
pub fn opt_str_vec_eq(a: &Option<Vec<String>>, b: &Option<Vec<String>>) -> (r: bool)
    ensures
        r == (match (a, b) {
            (Some(x), Some(y)) => seq_views(x@) == seq_views(y@),
            (None, None) => true,
            _ => false,
        }),
{
    match (a, b) {
        (Some(x), Some(y)) => str_vec_eq(x, y),
        (None, None) => true,
        _ => false,
    }
}

/// Lexicographic order on strings, by code point.
pub open spec fn spec_str_le(a: Seq<char>, b: Seq<char>) -> bool
    decreases a.len(),
{
    if a.len() == 0 {
        true
    } else if b.len() == 0 {
        false
    } else if a[0] != b[0] {
        (a[0] as int) < (b[0] as int)
    } else {
        spec_str_le(a.skip(1), b.skip(1))
    }
}

/// The order is total: two strings compare one way or the other.
pub proof fn lemma_str_le_total(a: Seq<char>, b: Seq<char>)
    ensures
        spec_str_le(a, b) || spec_str_le(b, a),
    decreases a.len(),
{
    if a.len() == 0 {
        assert(spec_str_le(a, b));
    } else if b.len() == 0 {
        assert(spec_str_le(b, a));
    } else if a[0] == b[0] {
        lemma_str_le_total(a.skip(1), b.skip(1));
        assert(spec_str_le(a, b) == spec_str_le(a.skip(1), b.skip(1)));
        assert(spec_str_le(b, a) == spec_str_le(b.skip(1), a.skip(1)));
    } else {
        assert((a[0] as int) != (b[0] as int));
        assert(spec_str_le(a, b) || spec_str_le(b, a));
    }
}

/// The order is transitive.
pub proof fn lemma_str_le_trans(a: Seq<char>, b: Seq<char>, c: Seq<char>)
    requires
        spec_str_le(a, b),
        spec_str_le(b, c),
    ensures
        spec_str_le(a, c),
    decreases a.len(),
{
    if a.len() > 0 && b.len() > 0 && c.len() > 0 {
        if a[0] == b[0] && b[0] == c[0] {
            lemma_str_le_trans(a.skip(1), b.skip(1), c.skip(1));
        }
    }
}

/// Whether `a` comes no later than `b` in lexicographic order.
pub fn str_le(a: &str, b: &str) -> (r: bool)
    ensures
        r == spec_str_le(a@, b@),
{
    let na = a.unicode_len();
    let nb = b.unicode_len();
    let mut i: usize = 0;
    proof {
        assert(a@.skip(0) =~= a@);
        assert(b@.skip(0) =~= b@);
    }
    loop
        invariant
            na == a@.len(),
            nb == b@.len(),
            0 <= i <= na,
            0 <= i <= nb,
            spec_str_le(a@, b@) == spec_str_le(a@.skip(i as int), b@.skip(i as int)),
        decreases na + 1 - i,
    {
        proof {
            assert(spec_str_le(a@, b@) == spec_str_le(a@.skip(i as int), b@.skip(i as int)));
        }
        if i >= na {
            proof {
                assert(a@.skip(i as int).len() == 0);
            }
            return true;
        }
        if i >= nb {
            proof {
                assert(a@.skip(i as int).len() > 0);
                assert(b@.skip(i as int).len() == 0);
            }
            return false;
        }
        let ca = a.get_char(i);
        let cb = b.get_char(i);
        proof {
            assert(a@.skip(i as int)[0] == a@[i as int]);
            assert(b@.skip(i as int)[0] == b@[i as int]);
        }
        if ca != cb {
            let r = (ca as u32) < (cb as u32);
            proof {
                assert(r == ((a@[i as int] as int) < (b@[i as int] as int)));
            }
            return r;
        }
        proof {
            assert(a@.skip(i as int).skip(1) =~= a@.skip(i + 1));
            assert(b@.skip(i as int).skip(1) =~= b@.skip(i + 1));
        }
        i += 1;
    }
}

} // verus!
