//! Project descriptions with inline `[label](url)` links, and the choices
//! made when contact and project links are laid out.

use vstd::prelude::*;

use crate::text::{has_prefix, occurs_at, occurs_at_pos, starts_with, strip_leading, trim_start_matches};

verus! {

/// A stretch of a project description: text, or a link with its label and
/// its address.
#[derive(Clone, Copy, Debug, PartialEq, Eq)]
pub enum Part<'a> {
    Text(&'a str),
    Link(&'a str, &'a str),
}

/// What a [`Part`] holds, as character sequences.
pub enum PartView {
    Text(Seq<char>),
    Link(Seq<char>, Seq<char>),
}

impl<'a> View for Part<'a> {
    type V = PartView;

    open spec fn view(&self) -> PartView {
        match *self {
            Part::Text(t) => PartView::Text(t@),
            Part::Link(label, href) => PartView::Link(label@, href@),
        }
    }
}

/// The views of a sequence of parts.
pub open spec fn parts_view<'a>(parts: Seq<Part<'a>>) -> Seq<PartView> {
    parts.map_values(|p: Part<'a>| p@)
}

/// The first position at or after `i` where `pat` occurs in `s`.
pub open spec fn find_from(s: Seq<char>, pat: Seq<char>, i: int) -> Option<int>
    decreases s.len() + 1 - i,
{
    if i < 0 || i + pat.len() > s.len() {
        None
    } else if occurs_at(s, pat, i) {
        Some(i)
    } else {
        find_from(s, pat, i + 1)
    }
}

/// `s` split around the first occurrence of `pat`: what comes before it and
/// what comes after it.
pub open spec fn split_once(s: Seq<char>, pat: Seq<char>) -> Option<(Seq<char>, Seq<char>)> {
    match find_from(s, pat, 0) {
        Some(i) => Some((s.subrange(0, i), s.subrange(i + pat.len(), s.len() as int))),
        None => None,
    }
}

/// The position of the last `[` in `t`, or -1 when there is none.
pub open spec fn last_open(t: Seq<char>) -> int
    decreases t.len(),
{
    if t.len() == 0 {
        -1
    } else if t.last() == '[' {
        t.len() - 1
    } else {
        last_open(t.drop_last())
    }
}

/// The first whole `[label](href)` in `s`, with the text before and after
/// it. The first `](` that follows a `[` closes the label, and the label
/// opens at the last `[` before it, so that a label holds no `[` and a stray
/// bracket before the link stays text; the address runs to the first `)`
/// after the `](`.
pub open spec fn first_link(s: Seq<char>) -> Option<(Seq<char>, Seq<char>, Seq<char>, Seq<char>)> {
    match split_once(s, seq!['[']) {
        Some((start, link)) => match split_once(link, seq![']', '(']) {
            Some((inner, link2)) => match split_once(link2, seq![')']) {
                Some((href, after)) => {
                    let k = last_open(inner);
                    Some(
                        (
                            s.subrange(0, start.len() + 1 + k),
                            inner.subrange(k + 1, inner.len() as int),
                            href,
                            after,
                        ),
                    )
                },
                None => None,
            },
            None => None,
        },
        None => None,
    }
}

/// `last_open` finds a `[` (or none), and no `[` comes after it.
pub proof fn lemma_last_open(t: Seq<char>)
    ensures
        -1 <= last_open(t) < t.len(),
        last_open(t) >= 0 ==> t[last_open(t)] == '[',
        forall|i: int| last_open(t) < i < t.len() ==> t[i] != '[',
    decreases t.len(),
{
    if t.len() > 0 && t.last() != '[' {
        lemma_last_open(t.drop_last());
        assert forall|i: int| last_open(t) < i < t.len() implies t[i] != '[' by {
            if i < t.len() - 1 {
                assert(t[i] == t.drop_last()[i]);
            }
        }
    }
}

/// The parts of a description: text up to each whole `[label](href)`, the
/// link, and so on; text that holds no whole link stays text; no part of
/// text is empty.
pub open spec fn link_parts(s: Seq<char>) -> Seq<PartView>
    decreases s.len(),
{
    match first_link(s) {
        Some((before, label, href, after)) => {
            proof {
                lemma_first_link_splits(s);
            }
            (if before.len() > 0 {
                seq![PartView::Text(before)]
            } else {
                Seq::<PartView>::empty()
            }) + seq![PartView::Link(label, href)] + link_parts(after)
        },
        None => if s.len() > 0 {
            seq![PartView::Text(s)]
        } else {
            Seq::<PartView>::empty()
        },
    }
}

/// The first occurrence found from `i` is an occurrence at or after `i`,
/// and there is none between `i` and it; no result means none from `i` on.
pub proof fn lemma_find_from(s: Seq<char>, pat: Seq<char>, i: int)
    requires
        i >= 0,
    ensures
        match find_from(s, pat, i) {
            Some(k) => i <= k && occurs_at(s, pat, k) && forall|j: int|
                i <= j < k ==> !occurs_at(s, pat, j),
            None => forall|j: int| i <= j ==> !occurs_at(s, pat, j),
        },
    decreases s.len() + 1 - i,
{
    if i + pat.len() > s.len() {
    } else if occurs_at(s, pat, i) {
    } else {
        lemma_find_from(s, pat, i + 1);
    }
}

/// Searching a suffix of `s` is searching `s` from where the suffix starts.
pub proof fn lemma_find_in_suffix(s: Seq<char>, pat: Seq<char>, a: int, k: int)
    requires
        0 <= a <= s.len(),
        k >= 0,
    ensures
        find_from(s.subrange(a, s.len() as int), pat, k) == match find_from(s, pat, a + k) {
            Some(i) => Some(i - a),
            None => None::<int>,
        },
    decreases s.len() + 1 - a - k,
{
    let t = s.subrange(a, s.len() as int);
    if k + pat.len() > t.len() {
    } else {
        assert(t.subrange(k, k + pat.len()) =~= s.subrange(a + k, a + k + pat.len()));
        if !occurs_at(t, pat, k) {
            lemma_find_in_suffix(s, pat, a, k + 1);
        }
    }
}

/// How a sequence of parts reads when written back out, links as
/// `[label](href)`.
pub open spec fn rendered(parts: Seq<PartView>) -> Seq<char>
    decreases parts.len(),
{
    if parts.len() == 0 {
        Seq::<char>::empty()
    } else {
        let first = match parts[0] {
            PartView::Text(t) => t,
            PartView::Link(label, href) => seq!['['] + label + seq![']', '('] + href + seq![')'],
        };
        first + rendered(parts.drop_first())
    }
}

/// Writing out two runs of parts is writing out each in turn.
pub proof fn lemma_rendered_concat(a: Seq<PartView>, b: Seq<PartView>)
    ensures
        rendered(a + b) == rendered(a) + rendered(b),
    decreases a.len(),
{
    if a.len() == 0 {
        assert(a + b =~= b);
    } else {
        assert((a + b).drop_first() =~= a.drop_first() + b);
        lemma_rendered_concat(a.drop_first(), b);
    }
}

/// The first link, when there is one, splits `s` as
/// `before [label](href) after`, and its label holds no `[`.
pub proof fn lemma_first_link_splits(s: Seq<char>)
    ensures
        first_link(s) matches Some((before, label, href, after)) ==> {
            &&& s == before + seq!['['] + label + seq![']', '('] + href + seq![')'] + after
            &&& after.len() < s.len()
            &&& forall|i: int| 0 <= i < label.len() ==> label[i] != '['
            &&& forall|i: int| 0 <= i < href.len() ==> href[i] != ')'
        },
{
    let p1 = seq!['['];
    let p2 = seq![']', '('];
    let p3 = seq![')'];
    lemma_find_from(s, p1, 0);
    if let Some(i) = find_from(s, p1, 0) {
        let link = s.subrange(i + 1, s.len() as int);
        lemma_find_from(link, p2, 0);
        if let Some(j) = find_from(link, p2, 0) {
            let link2 = link.subrange(j + 2, link.len() as int);
            lemma_find_from(link2, p3, 0);
            if let Some(k) = find_from(link2, p3, 0) {
                let inner = link.subrange(0, j);
                lemma_last_open(inner);
                let m = last_open(inner);
                let before = s.subrange(0, i + 1 + m);
                let label = inner.subrange(m + 1, inner.len() as int);
                let href = link2.subrange(0, k);
                let after = link2.subrange(k + 1, link2.len() as int);
                assert(s.subrange(i, i + 1) == p1);
                assert(link.subrange(j, j + 2) == p2);
                assert(link2.subrange(k, k + 1) == p3);
                assert(s[i + 1 + m] == '[') by {
                    if m >= 0 {
                        assert(s[i + 1 + m] == inner[m]);
                    } else {
                        assert(s[i] == s.subrange(i, i + 1)[0]);
                    }
                }
                assert(s =~= before + p1 + label + p2 + href + p3 + after);
                assert forall|x: int| 0 <= x < label.len() implies label[x] != '[' by {
                    assert(label[x] == inner[m + 1 + x]);
                }
                assert forall|x: int| 0 <= x < href.len() implies href[x] != ')' by {
                    assert(!occurs_at(link2, p3, x));
                    assert(href[x] == link2[x]);
                    if href[x] == ')' {
                        assert(link2.subrange(x, x + 1) =~= p3);
                    }
                }
            }
        }
    }
}

/// Nothing is lost or added: writing the parts back out gives the
/// description.
pub proof fn lemma_link_parts_reassemble(s: Seq<char>)
    ensures
        rendered(link_parts(s)) == s,
    decreases s.len(),
{
    lemma_first_link_splits(s);
    match first_link(s) {
        Some((before, label, href, after)) => {
            lemma_link_parts_reassemble(after);
            let head = if before.len() > 0 {
                seq![PartView::Text(before)]
            } else {
                Seq::<PartView>::empty()
            };
            let link = seq![PartView::Link(label, href)];
            lemma_rendered_concat(head + link, link_parts(after));
            lemma_rendered_concat(head, link);
            reveal_with_fuel(rendered, 2);
            if before.len() > 0 {
                assert(rendered(head) =~= before);
            } else {
                assert(rendered(head) =~= before);
            }
            assert(rendered(link) =~= seq!['['] + label + seq![']', '('] + href + seq![')']);
            assert(s =~= rendered(head) + rendered(link) + rendered(link_parts(after)));
        },
        None => {
            reveal_with_fuel(rendered, 2);
            if s.len() > 0 {
                assert(rendered(seq![PartView::Text(s)]) =~= s);
            }
        },
    }
}

/// No text part is empty, and no two text parts are next to each other.
pub proof fn lemma_link_parts_text_shape(s: Seq<char>)
    ensures
        forall|i: int|
            0 <= i < link_parts(s).len() ==> (#[trigger] link_parts(s)[i] matches PartView::Text(t)
                ==> t.len() > 0),
        forall|i: int|
            0 <= i < link_parts(s).len() - 1 ==> !(#[trigger] link_parts(s)[i] is Text && link_parts(
                s,
            )[i + 1] is Text),
    decreases s.len(),
{
    lemma_first_link_splits(s);
    match first_link(s) {
        Some((before, label, href, after)) => {
            lemma_link_parts_text_shape(after);
            let head = if before.len() > 0 {
                seq![PartView::Text(before)]
            } else {
                Seq::<PartView>::empty()
            };
            let ps = link_parts(s);
            let rest = link_parts(after);
            assert(ps =~= head + seq![PartView::Link(label, href)] + rest);
            assert forall|i: int| 0 <= i < ps.len() implies (#[trigger] ps[i] matches PartView::Text(
                t,
            ) ==> t.len() > 0) by {
                if i >= head.len() + 1 {
                    assert(ps[i] == rest[i - head.len() - 1]);
                }
            }
            assert forall|i: int| 0 <= i < ps.len() - 1 implies !(#[trigger] ps[i] is Text
                && ps[i + 1] is Text) by {
                if i >= head.len() + 1 {
                    assert(ps[i] == rest[i - head.len() - 1]);
                    assert(ps[i + 1] == rest[i + 1 - head.len() - 1]);
                }
            }
        },
        None => {},
    }
}

/// Every link's label holds no `[` and its address no `)`: text that is not
/// a whole `[label](url)` (a stray bracket before a link) stays text.
pub proof fn lemma_link_parts_links_are_whole(s: Seq<char>)
    ensures
        forall|i: int|
            0 <= i < link_parts(s).len() ==> (#[trigger] link_parts(s)[i] matches PartView::Link(
                label,
                href,
            ) ==> (forall|x: int| 0 <= x < label.len() ==> label[x] != '[') && (forall|x: int|
                0 <= x < href.len() ==> href[x] != ')')),
    decreases s.len(),
{
    lemma_first_link_splits(s);
    match first_link(s) {
        Some((before, label, href, after)) => {
            lemma_link_parts_links_are_whole(after);
            let head = if before.len() > 0 {
                seq![PartView::Text(before)]
            } else {
                Seq::<PartView>::empty()
            };
            let ps = link_parts(s);
            let rest = link_parts(after);
            assert(ps =~= head + seq![PartView::Link(label, href)] + rest);
            assert forall|i: int| 0 <= i < ps.len() implies (#[trigger] ps[i] matches PartView::Link(
                l,
                h,
            ) ==> (forall|x: int| 0 <= x < l.len() ==> l[x] != '[') && (forall|x: int|
                0 <= x < h.len() ==> h[x] != ')')) by {
                if i >= head.len() + 1 {
                    assert(ps[i] == rest[i - head.len() - 1]);
                }
            }
        },
        None => {},
    }
}

/// `](`, which closes a label, occurs in `s` at position `i`.
pub open spec fn label_closes_at(s: Seq<char>, i: int) -> bool {
    occurs_at(s, seq![']', '('], i)
}

/// A description without any `[` is one text part (none when empty).
pub proof fn lemma_no_bracket_is_text(s: Seq<char>)
    requires
        forall|i: int| 0 <= i < s.len() ==> s[i] != '[',
    ensures
        link_parts(s) == if s.len() > 0 {
            seq![PartView::Text(s)]
        } else {
            Seq::<PartView>::empty()
        },
{
    lemma_find_from(s, seq!['['], 0);
    if let Some(k) = find_from(s, seq!['['], 0) {
        assert(s.subrange(k, k + 1)[0] == s[k]);
    }
}

/// An occurrence with none before it is the first one.
proof fn lemma_find_is(s: Seq<char>, pat: Seq<char>, k: int)
    requires
        occurs_at(s, pat, k),
        forall|j: int| 0 <= j < k ==> !occurs_at(s, pat, j),
    ensures
        find_from(s, pat, 0) == Some(k),
{
    lemma_find_from(s, pat, 0);
}

/// Every whole link is found, whatever its label holds besides `[` and
/// `](` and its address besides `)`: text `t` with no `[`, then
/// `[label](href)`, then anything, reads as the text `t` (when not empty),
/// the link, and then the parts of what follows.
pub proof fn lemma_whole_link_found(t: Seq<char>, label: Seq<char>, href: Seq<char>, rest: Seq<char>)
    requires
        forall|i: int| 0 <= i < t.len() ==> t[i] != '[',
        forall|i: int| 0 <= i < label.len() ==> label[i] != '[',
        forall|i: int| !#[trigger] label_closes_at(label, i),
        forall|i: int| 0 <= i < href.len() ==> href[i] != ')',
    ensures
        link_parts(t + seq!['['] + label + seq![']', '('] + href + seq![')'] + rest) == (if t.len()
            > 0 {
            seq![PartView::Text(t)]
        } else {
            Seq::<PartView>::empty()
        }) + seq![PartView::Link(label, href)] + link_parts(rest),
{
    let p1 = seq!['['];
    let p2 = seq![']', '('];
    let p3 = seq![')'];
    let s = t + p1 + label + p2 + href + p3 + rest;
    let a = t.len() as int;
    // the first `[` is right after `t`
    assert(s.subrange(a, a + 1) =~= p1);
    assert forall|j: int| 0 <= j < a implies !occurs_at(s, p1, j) by {
        assert(s.subrange(j, j + 1)[0] == t[j]);
    }
    lemma_find_is(s, p1, a);
    let link = s.subrange(a + 1, s.len() as int);
    assert(link =~= label + p2 + href + p3 + rest);
    let b = label.len() as int;
    assert(link.subrange(b, b + 2) =~= p2);
    assert forall|j: int| 0 <= j < b implies !occurs_at(link, p2, j) by {
        if occurs_at(link, p2, j) {
            assert(link.subrange(j, j + 2)[0] == link[j]);
            assert(link.subrange(j, j + 2)[1] == link[j + 1]);
            if j < b - 1 {
                assert(link.subrange(j, j + 2) =~= label.subrange(j, j + 2));
                assert(label_closes_at(label, j));
            } else {
                assert(link[j + 1] == ']');
            }
        }
    }
    lemma_find_is(link, p2, b);
    let inner = link.subrange(0, b);
    assert(inner =~= label);
    lemma_last_open(inner);
    assert(last_open(inner) == -1);
    let link2 = link.subrange(b + 2, link.len() as int);
    assert(link2 =~= href + p3 + rest);
    let c = href.len() as int;
    assert(link2.subrange(c, c + 1) =~= p3);
    assert forall|j: int| 0 <= j < c implies !occurs_at(link2, p3, j) by {
        assert(link2.subrange(j, j + 1)[0] == href[j]);
    }
    lemma_find_is(link2, p3, c);
    assert(link2.subrange(c + 1, link2.len() as int) =~= rest);
    assert(s.subrange(0, a + 1 + -1) =~= t);
    assert(inner.subrange(0, inner.len() as int) =~= label);
    assert(first_link(s) == Some((t, label, href, rest)));
}

/// Where `pat` first occurs in `s` at or after char position `from`.
fn find_after(s: &str, pat: &str, from: usize) -> (r: Option<usize>)
    requires
        from <= s@.len(),
    ensures
        match r {
            Some(i) => find_from(s@, pat@, from as int) == Some(i as int) && from <= i && i
                + pat@.len() <= s@.len(),
            None => find_from(s@, pat@, from as int) is None,
        },
{
    proof {
        lemma_find_from(s@, pat@, from as int);
    }
    let n = s.unicode_len();
    let m = pat.unicode_len();
    if m > n {
        return None;
    }
    let last = n - m;
    let mut i = from;
    while i <= last
        invariant
            from <= i,
            n == s@.len(),
            m == pat@.len(),
            last == n - m,
            find_from(s@, pat@, from as int) == find_from(s@, pat@, i as int),
        decreases last - i,
    {
        if occurs_at_pos(s, pat, i) {
            return Some(i);
        }
        if i == last {
            assert(find_from(s@, pat@, i + 1) is None);
            return None;
        }
        i = i + 1;
    }
    None
}

/// The position of the last `[` in `s` between `open` (which holds one) and
/// `close`: where the label that `close` ends opens.
fn last_open_between(s: &str, open: usize, close: usize) -> (r: usize)
    requires
        open < close <= s@.len(),
    ensures
        ({
            let k = last_open(s@.subrange(open + 1, close as int));
            r == open + 1 + k
        }),
{
    let ghost inner = s@.subrange(open + 1, close as int);
    let mut j: usize = close;
    proof {
        assert(inner.subrange(0, close - open - 1) =~= inner);
    }
    while j > open + 1
        invariant
            open < j <= close,
            close <= s@.len(),
            inner == s@.subrange(open + 1, close as int),
            last_open(inner) == last_open(inner.subrange(0, j - open - 1)),
        decreases j,
    {
        let ghost part = inner.subrange(0, j - open - 1);
        if s.get_char(j - 1) == '[' {
            assert(part.last() == s@[j - 1]);
            return j - 1;
        }
        proof {
            assert(part.last() == s@[j - 1]);
            assert(part.drop_last() =~= inner.subrange(0, j - 1 - open - 1));
        }
        j = j - 1;
    }
    proof {
        assert(inner.subrange(0, 0) =~= Seq::<char>::empty());
    }
    open
}

/// The parts of a project description: `served by [servio](https://...)`
/// names a project and links to it; anything that is not a whole
/// `[label](url)` stays text, so `[a] and [b](c)` is the text `[a] and `
/// followed by the link `b` to `c`.
pub fn inline_links<'a>(s: &'a str) -> (parts: Vec<Part<'a>>)
    ensures
        parts_view(parts@) == link_parts(s@),
{
    let n = s.unicode_len();
    let mut parts: Vec<Part<'a>> = Vec::new();
    let mut start: usize = 0;
    proof {
        reveal_strlit("[");
        reveal_strlit("](");
        reveal_strlit(")");
        assert("["@ =~= seq!['[']);
        assert("]("@ =~= seq![']', '(']);
        assert(")"@ =~= seq![')']);
        assert(s@.subrange(0, n as int) =~= s@);
    }
    loop
        invariant
            start <= n,
            n == s@.len(),
            "["@ == seq!['['],
            "]("@ == seq![']', '('],
            ")"@ == seq![')'],
            parts_view(parts@) + link_parts(s@.subrange(start as int, n as int)) == link_parts(s@),
        ensures
            start <= n,
            parts_view(parts@) + link_parts(s@.subrange(start as int, n as int)) == link_parts(s@),
            first_link(s@.subrange(start as int, n as int)) is None,
        decreases n - start,
    {
        let ghost rest = s@.subrange(start as int, n as int);
        proof {
            lemma_find_in_suffix(s@, seq!['['], start as int, 0);
        }
        let open = match find_after(s, "[", start) {
            Some(o) => o,
            None => {
                break;
            },
        };
        let ghost link = s@.subrange(open + 1, n as int);
        proof {
            assert(rest.subrange(open - start + 1, rest.len() as int) =~= link);
            lemma_find_in_suffix(s@, seq![']', '('], open + 1, 0);
        }
        let close = match find_after(s, "](", open + 1) {
            Some(c) => c,
            None => {
                break;
            },
        };
        let ghost link2 = s@.subrange(close + 2, n as int);
        proof {
            assert(link.subrange(close - open - 1 + 2, link.len() as int) =~= link2);
            lemma_find_in_suffix(s@, seq![')'], close + 2, 0);
        }
        let end = match find_after(s, ")", close + 2) {
            Some(e) => e,
            None => {
                break;
            },
        };
        let label_open = last_open_between(s, open, close);
        let ghost inner = s@.subrange(open + 1, close as int);
        let ghost k = last_open(inner);
        let ghost before = s@.subrange(start as int, label_open as int);
        let ghost label = s@.subrange(label_open + 1, close as int);
        let ghost href = s@.subrange(close + 2, end as int);
        let ghost after = s@.subrange(end + 1, n as int);
        proof {
            lemma_last_open(inner);
            assert(link.subrange(0, close - open - 1) =~= inner);
            assert(rest.subrange(0, (open - start) + 1 + k) =~= before);
            assert(inner.subrange(k + 1, inner.len() as int) =~= label);
            assert(link2.subrange(0, end - close - 2) =~= href);
            assert(link2.subrange(end - close - 2 + 1, link2.len() as int) =~= after);
            assert(first_link(rest) == Some((before, label, href, after)));
        }
        let ghost old_parts = parts@;
        if label_open > start {
            parts.push(Part::Text(s.substring_char(start, label_open)));
        }
        parts.push(
            Part::Link(s.substring_char(label_open + 1, close), s.substring_char(close + 2, end)),
        );
        proof {
            let head = if before.len() > 0 {
                seq![PartView::Text(before)]
            } else {
                Seq::<PartView>::empty()
            };
            assert(parts_view(parts@) =~= parts_view(old_parts) + head + seq![
                PartView::Link(label, href),
            ]);
            assert(link_parts(rest) == head + seq![PartView::Link(label, href)] + link_parts(after));
        }
        start = end + 1;
    }
    let ghost rest = s@.subrange(start as int, n as int);
    let ghost old_parts = parts@;
    if start < n {
        parts.push(Part::Text(s.substring_char(start, n)));
    }
    proof {
        if start < n {
            assert(parts_view(parts@) =~= parts_view(old_parts) + seq![PartView::Text(rest)]);
        } else {
            assert(parts_view(parts@) =~= parts_view(old_parts));
        }
    }
    parts
}


/// A way to reach the site's owner: its label, its address, and the
/// attributes its anchor carries. A link with a `download` name is the resume,
/// whose address is the bundled document rather than `href`.
#[derive(Clone, Copy, Debug)]
pub struct ContactLink<'a> {
    pub label: &'a str,
    pub href: &'a str,
    pub target: Option<&'a str>,
    pub rel: Option<&'a str>,
    pub download: Option<&'a str>,
}

/// The labels that the masthead shows as quick links (the rest live in the
/// contact section); a link is shown when its label starts with one of them.
pub const MASTHEAD_LABELS: [&'static str; 5] = ["Email", "GitHub", "LinkedIn", "Mastodon", "Resume"];

/// The scheme of e-mail addresses.
pub const MAILTO: &'static str = "mailto:";

/// A link is an e-mail address.
pub open spec fn is_email_href(href: Seq<char>) -> bool {
    has_prefix(href, "mailto:"@)
}

/// The address an anchor for `link` points to: the bundled resume for the
/// download link, its own address otherwise.
pub fn link_href<'a>(link: &ContactLink<'a>, resume_href: &'a str) -> (r: &'a str)
    ensures
        r@ == if link.download is Some {
            resume_href@
        } else {
            link.href@
        },
{
    if link.download.is_some() {
        resume_href
    } else {
        link.href
    }
}

/// A link is an e-mail link exactly when its address starts with the seven
/// characters `mailto:`; an address that merely holds an `@` is not one.
pub proof fn lemma_email_links_are_mailto(href: Seq<char>)
    ensures
        is_email_href(href) <==> (href.len() >= 7 && href.subrange(0, 7) == seq![
            'm',
            'a',
            'i',
            'l',
            't',
            'o',
            ':',
        ]),
{
    reveal_strlit("mailto:");
    assert("mailto:"@ =~= seq!['m', 'a', 'i', 'l', 't', 'o', ':']);
}

/// The masthead shows a link exactly when its label starts with `Email`,
/// `GitHub`, `LinkedIn`, `Mastodon` or `Resume`.
pub proof fn lemma_masthead_labels(label: Seq<char>)
    ensures
        is_masthead_label(label) <==> {
            ||| has_prefix(label, seq!['E', 'm', 'a', 'i', 'l'])
            ||| has_prefix(label, seq!['G', 'i', 't', 'H', 'u', 'b'])
            ||| has_prefix(label, seq!['L', 'i', 'n', 'k', 'e', 'd', 'I', 'n'])
            ||| has_prefix(label, seq!['M', 'a', 's', 't', 'o', 'd', 'o', 'n'])
            ||| has_prefix(label, seq!['R', 'e', 's', 'u', 'm', 'e'])
        },
{
    reveal_strlit("Email");
    reveal_strlit("GitHub");
    reveal_strlit("LinkedIn");
    reveal_strlit("Mastodon");
    reveal_strlit("Resume");
    assert("Email"@ =~= seq!['E', 'm', 'a', 'i', 'l']);
    assert("GitHub"@ =~= seq!['G', 'i', 't', 'H', 'u', 'b']);
    assert("LinkedIn"@ =~= seq!['L', 'i', 'n', 'k', 'e', 'd', 'I', 'n']);
    assert("Mastodon"@ =~= seq!['M', 'a', 's', 't', 'o', 'd', 'o', 'n']);
    assert("Resume"@ =~= seq!['R', 'e', 's', 'u', 'm', 'e']);
}

/// Whether `href` is an e-mail address (starts with `mailto:`).
pub fn is_email_link(href: &str) -> (r: bool)
    ensures
        r == is_email_href(href@),
{
    starts_with(href, MAILTO)
}

/// The e-mail address that a `mailto:` link names: the link with every
/// leading `mailto:` removed.
pub fn email_address(href: &str) -> (r: &str)
    ensures
        r@ == strip_leading(href@, "mailto:"@),
{
    trim_start_matches(href, MAILTO)
}

/// The text and CSS class of a masthead link: an e-mail link shows the
/// address itself and is styled as such; any other shows its label.
pub fn hero_link_text<'a>(link: &ContactLink<'a>) -> (r: (&'a str, &'static str))
    ensures
        is_email_href(link.href@) ==> r.0@ == strip_leading(link.href@, "mailto:"@) && r.1@
            == "hero-link hero-link-email"@,
        !is_email_href(link.href@) ==> r.0@ == link.label@ && r.1@ == "hero-link"@,
{
    if is_email_link(link.href) {
        (email_address(link.href), "hero-link hero-link-email")
    } else {
        (link.label, "hero-link")
    }
}

/// The CSS class of a link in the contact section: the resume download is
/// styled apart.
pub fn contact_link_class(link: &ContactLink) -> (r: &'static str)
    ensures
        r@ == if link.download is Some {
            "contact-resume"@
        } else {
            "contact-link"@
        },
{
    if link.download.is_some() {
        "contact-resume"
    } else {
        "contact-link"
    }
}

/// The first e-mail link among `links`, which the contact section shows on
/// its own.
pub fn contact_email<'b, 'a>(links: &'b [ContactLink<'a>]) -> (r: Option<&'b ContactLink<'a>>)
    ensures
        match r {
            Some(l) => exists|i: int|
                0 <= i < links@.len() && *l == links@[i] && is_email_href(links@[i].href@)
                    && forall|j: int| 0 <= j < i ==> !is_email_href(#[trigger] links@[j].href@),
            None => forall|j: int| 0 <= j < links@.len() ==> !is_email_href(#[trigger] links@[j].href@),
        },
{
    let mut i: usize = 0;
    while i < links.len()
        invariant
            i <= links@.len(),
            forall|j: int| 0 <= j < i ==> !is_email_href(#[trigger] links@[j].href@),
        decreases links@.len() - i,
    {
        if is_email_link(links[i].href) {
            return Some(&links[i]);
        }
        i = i + 1;
    }
    None
}

/// The masthead shows `label`'s link: the label starts with one of
/// [`MASTHEAD_LABELS`].
pub open spec fn is_masthead_label(label: Seq<char>) -> bool {
    ||| has_prefix(label, "Email"@)
    ||| has_prefix(label, "GitHub"@)
    ||| has_prefix(label, "LinkedIn"@)
    ||| has_prefix(label, "Mastodon"@)
    ||| has_prefix(label, "Resume"@)
}

/// Whether the masthead shows `link` among its quick links.
pub fn is_masthead_link(link: &ContactLink) -> (r: bool)
    ensures
        r == is_masthead_label(link.label@),
{
    let labels = MASTHEAD_LABELS;
    let mut i: usize = 0;
    while i < 5
        invariant
            i <= 5,
            labels@ == MASTHEAD_LABELS@,
            forall|j: int| 0 <= j < i ==> !has_prefix(link.label@, #[trigger] labels@[j]@),
        decreases 5 - i,
    {
        if starts_with(link.label, labels[i]) {
            return true;
        }
        i = i + 1;
    }
    false
}

/// Where a project's name links to: its own site when it has one, otherwise
/// its repository.
pub fn project_primary_link<'a>(homepage: Option<&'a str>, url: &'a str) -> (r: &'a str)
    ensures
        r@ == match homepage {
            Some(h) => h@,
            None => url@,
        },
{
    match homepage {
        Some(h) => h,
        None => url,
    }
}

} // verus!
