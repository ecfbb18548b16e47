//! Character-level text helpers over `&str`, specified on the string's
//! sequence of `char`s.

use vstd::prelude::*;

verus! {

/// `pat` occurs in `s` starting at char position `i`.
pub open spec fn occurs_at(s: Seq<char>, pat: Seq<char>, i: int) -> bool {
    &&& 0 <= i
    &&& i + pat.len() <= s.len()
    &&& s.subrange(i, i + pat.len()) == pat
}

/// `s` starts with `pat`.
pub open spec fn has_prefix(s: Seq<char>, pat: Seq<char>) -> bool {
    occurs_at(s, pat, 0)
}

/// `s` starts with `pat` exactly when `pat` is no longer than `s` and each
/// of its characters is the one of `s` at the same position.
pub proof fn lemma_has_prefix_chars(s: Seq<char>, pat: Seq<char>)
    ensures
        has_prefix(s, pat) <==> (pat.len() <= s.len() && forall|i: int|
            0 <= i < pat.len() ==> s[i] == pat[i]),
{
    if pat.len() <= s.len() && forall|i: int| 0 <= i < pat.len() ==> s[i] == pat[i] {
        assert(s.subrange(0, pat.len() as int) =~= pat);
    }
    if has_prefix(s, pat) {
        assert forall|i: int| 0 <= i < pat.len() implies s[i] == pat[i] by {
            assert(s.subrange(0, pat.len() as int)[i] == s[i]);
        }
    }
}

/// Whether `pat` occurs in `s` at char position `i`.
pub fn occurs_at_pos(s: &str, pat: &str, i: usize) -> (r: bool)
    ensures
        r == occurs_at(s@, pat@, i as int),
{
    let n = s.unicode_len();
    let m = pat.unicode_len();
    if i > n || m > n - i {
        return false;
    }
    let mut k: usize = 0;
    while k < m
        invariant
            k <= m,
            i + m <= n,
            n == s@.len(),
            m == pat@.len(),
            forall|j: int| 0 <= j < k ==> s@[i + j] == pat@[j],
        decreases m - k,
    {
        if s.get_char(i + k) != pat.get_char(k) {
            assert(s@.subrange(i as int, i + m)[k as int] != pat@[k as int]);
            return false;
        }
        k = k + 1;
    }
    assert(s@.subrange(i as int, i + m) =~= pat@);
    true
}

/// Whether `s` starts with `pat`.
pub fn starts_with(s: &str, pat: &str) -> (r: bool)
    ensures
        r == has_prefix(s@, pat@),
{
    occurs_at_pos(s, pat, 0)
}

/// Whether `a` and `b` hold the same characters.
pub fn same_text(a: &str, b: &str) -> (r: bool)
    ensures
        r == (a@ == b@),
{
    let n = a.unicode_len();
    let m = b.unicode_len();
    if n != m {
        return false;
    }
    let r = occurs_at_pos(a, b, 0);
    proof {
        if r {
            assert(a@ =~= a@.subrange(0, n as int));
        } else {
            assert(a@.subrange(0, n as int) =~= a@);
        }
    }
    r
}


/// `s` with every leading repetition of `pat` removed; unchanged for an
/// empty `pat`.
pub open spec fn strip_leading(s: Seq<char>, pat: Seq<char>) -> Seq<char>
    decreases s.len(),
{
    if pat.len() > 0 && has_prefix(s, pat) {
        strip_leading(s.subrange(pat.len() as int, s.len() as int), pat)
    } else {
        s
    }
}

/// `s` with every trailing `c` removed.
pub open spec fn strip_trailing(s: Seq<char>, c: char) -> Seq<char>
    decreases s.len(),
{
    if s.len() > 0 && s.last() == c {
        strip_trailing(s.drop_last(), c)
    } else {
        s
    }
}

/// `t` is a contiguous piece of `s`.
pub open spec fn is_infix(t: Seq<char>, s: Seq<char>) -> bool {
    exists|i: int, j: int| 0 <= i <= j <= s.len() && s.subrange(i, j) == t
}

/// Stripping leading copies of `pat` leaves a suffix of `s` that no longer
/// starts with `pat`.
pub proof fn lemma_strip_leading(s: Seq<char>, pat: Seq<char>)
    ensures
        ({
            let t = strip_leading(s, pat);
            &&& t.len() <= s.len()
            &&& t == s.subrange(s.len() - t.len(), s.len() as int)
            &&& pat.len() > 0 ==> !has_prefix(t, pat)
        }),
    decreases s.len(),
{
    if pat.len() > 0 && has_prefix(s, pat) {
        let rest = s.subrange(pat.len() as int, s.len() as int);
        lemma_strip_leading(rest, pat);
        let t = strip_leading(rest, pat);
        assert(t == s.subrange(s.len() - t.len(), s.len() as int));
    } else {
        assert(s == s.subrange(0, s.len() as int));
    }
}

/// Stripping trailing `c` leaves a prefix of `s` that does not end in `c`.
pub proof fn lemma_strip_trailing(s: Seq<char>, c: char)
    ensures
        ({
            let t = strip_trailing(s, c);
            &&& t.len() <= s.len()
            &&& t == s.subrange(0, t.len() as int)
            &&& t.len() > 0 ==> t.last() != c
        }),
    decreases s.len(),
{
    if s.len() > 0 && s.last() == c {
        lemma_strip_trailing(s.drop_last(), c);
        let t = strip_trailing(s.drop_last(), c);
        assert(t == s.subrange(0, t.len() as int));
    } else {
        assert(s == s.subrange(0, s.len() as int));
    }
}

/// `s` with every leading repetition of `pat` removed, as `str`'s
/// `trim_start_matches` does with a string pattern.
pub fn trim_start_matches<'a>(s: &'a str, pat: &str) -> (r: &'a str)
    ensures
        r@ == strip_leading(s@, pat@),
{
    let n = s.unicode_len();
    let m = pat.unicode_len();
    if m == 0 {
        proof {
            assert(s@.subrange(0, n as int) =~= s@);
        }
        return s.substring_char(0, n);
    }
    let mut i: usize = 0;
    proof {
        assert(s@.subrange(0, n as int) =~= s@);
    }
    while occurs_at_pos(s, pat, i)
        invariant
            i <= n,
            n == s@.len(),
            m == pat@.len(),
            m > 0,
            strip_leading(s@, pat@) == strip_leading(s@.subrange(i as int, n as int), pat@),
        decreases n - i,
    {
        proof {
            let rest = s@.subrange(i as int, n as int);
            assert(rest.subrange(0, m as int) =~= s@.subrange(i as int, i + m));
            assert(rest.subrange(m as int, rest.len() as int) =~= s@.subrange(i + m, n as int));
        }
        i = i + m;
    }
    proof {
        let rest = s@.subrange(i as int, n as int);
        if i + m <= n {
            assert(rest.subrange(0, m as int) =~= s@.subrange(i as int, i + m));
        }
    }
    s.substring_char(i, n)
}

/// `s` with every trailing `c` removed, as `str`'s `trim_end_matches` does
/// with a `char` pattern.
pub fn trim_end_matches_char<'a>(s: &'a str, c: char) -> (r: &'a str)
    ensures
        r@ == strip_trailing(s@, c),
{
    let n = s.unicode_len();
    let mut j: usize = n;
    proof {
        assert(s@.subrange(0, n as int) =~= s@);
    }
    while j > 0 && s.get_char(j - 1) == c
        invariant
            j <= n,
            n == s@.len(),
            strip_trailing(s@, c) == strip_trailing(s@.subrange(0, j as int), c),
        decreases j,
    {
        proof {
            assert(s@.subrange(0, j as int).drop_last() =~= s@.subrange(0, j - 1));
        }
        j = j - 1;
    }
    s.substring_char(0, j)
}

/// How a web address reads to a visitor: `https://`, then `www.`, stripped
/// from the front, and trailing slashes from the end, so that
/// `https://www.clavir.io/` reads as `clavir.io`.
pub open spec fn domain_text(url: Seq<char>) -> Seq<char> {
    strip_trailing(strip_leading(strip_leading(url, "https://"@), "www."@), '/')
}

/// The display form drops the scheme `https://` and the prefix `www.` from
/// the front (each as often as it repeats) and slashes from the end; an
/// address without them shows unchanged.
pub proof fn lemma_domain_text_parts(url: Seq<char>)
    ensures
        domain_text(url) == strip_trailing(
            strip_leading(
                strip_leading(url, seq!['h', 't', 't', 'p', 's', ':', '/', '/']),
                seq!['w', 'w', 'w', '.'],
            ),
            '/',
        ),
{
    reveal_strlit("https://");
    reveal_strlit("www.");
    assert("https://"@ =~= seq!['h', 't', 't', 'p', 's', ':', '/', '/']);
    assert("www."@ =~= seq!['w', 'w', 'w', '.']);
}

/// The address `url` as shown on a link: without the scheme `https://`, a
/// leading `www.` or a trailing `/`. The result is a piece of `url`, does not
/// end in `/` and does not start with `www.`.
pub fn display_domain(url: &str) -> (r: &str)
    ensures
        r@ == domain_text(url@),
        is_infix(r@, url@),
        r@.len() > 0 ==> r@.last() != '/',
        !has_prefix(r@, "www."@),
{
    let a = trim_start_matches(url, "https://");
    let b = trim_start_matches(a, "www.");
    let r = trim_end_matches_char(b, '/');
    proof {
        reveal_strlit("www.");
        lemma_strip_leading(url@, "https://"@);
        lemma_strip_leading(a@, "www."@);
        lemma_strip_trailing(b@, '/');
        let i = url@.len() - a@.len();
        let k = a@.len() - b@.len();
        assert(url@.subrange(i + k, i + k + r@.len()) =~= r@);
        if has_prefix(r@, "www."@) {
            assert(b@.subrange(0, 4) =~= r@.subrange(0, 4));
        }
    }
    r
}

} // verus!
