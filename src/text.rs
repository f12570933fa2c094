//! Character-level text operations: comparison, search, and the clean-up
//! of generated thread titles.

use vstd::prelude::*;
use vstd::string::*;

verus! {

/// Character-wise comparison of two strings.
pub fn same_text(a: &str, b: &str) -> (r: bool)
    ensures
        r == (a@ == b@),
{
    let n = a.unicode_len();
    if n != b.unicode_len() {
        return false;
    }
    let mut i: usize = 0;
    while i < n
        invariant
            n == a@.len(),
            n == b@.len(),
            i <= n,
            forall|k: int| 0 <= k < i ==> a@[k] == b@[k],
        decreases n - i,
    {
        if a.get_char(i) != b.get_char(i) {
            return false;
        }
        i = i + 1;
    }
    assert(a@ =~= b@);
    true
}

/// Whether `p` occurs in `t` starting at `i`.
pub open spec fn occurs_at(t: Seq<char>, p: Seq<char>, i: int) -> bool {
    0 <= i && i + p.len() <= t.len() && t.subrange(i, i + p.len()) == p
}

/// Whether `i` is where `p` first occurs in `t`.
pub open spec fn first_at(t: Seq<char>, p: Seq<char>, i: int) -> bool {
    occurs_at(t, p, i) && forall|j: int| 0 <= j < i ==> !#[trigger] occurs_at(t, p, j)
}

/// Whether `p` occurs in `t` at all.
pub open spec fn occurs(t: Seq<char>, p: Seq<char>) -> bool {
    exists|i: int| #[trigger] occurs_at(t, p, i)
}

/// Where `p` first occurs in `t`; meaningful only when it occurs.
pub open spec fn first_index(t: Seq<char>, p: Seq<char>) -> int {
    choose|i: int| first_at(t, p, i)
}

proof fn lemma_first_unique(t: Seq<char>, p: Seq<char>, i: int)
    requires
        first_at(t, p, i),
    ensures
        occurs(t, p),
        first_index(t, p) == i,
{
    assert(occurs_at(t, p, i));
    let k = first_index(t, p);
    assert(first_at(t, p, k));
    if k < i {
        assert(!occurs_at(t, p, k));
    }
    if i < k {
        assert(!occurs_at(t, p, i));
    }
}

proof fn lemma_no_first(t: Seq<char>, p: Seq<char>)
    requires
        forall|j: int| 0 <= j && j + p.len() <= t.len() ==> !#[trigger] occurs_at(t, p, j),
    ensures
        !occurs(t, p),
{
}

/// Where `pat` first occurs in `text`, counted in characters.
pub fn find_text(text: &str, pat: &str) -> (r: Option<usize>)
    ensures
        match r {
            Some(i) => first_at(text@, pat@, i as int) && occurs(text@, pat@) && first_index(
                text@,
                pat@,
            ) == i as int,
            None => !occurs(text@, pat@),
        },
{
    let n = text.unicode_len();
    let m = pat.unicode_len();
    if m > n {
        proof {
            lemma_no_first(text@, pat@);
        }
        return None;
    }
    let mut i: usize = 0;
    while i <= n - m
        invariant
            n == text@.len(),
            m == pat@.len(),
            m <= n,
            i <= n - m + 1,
            forall|j: int| 0 <= j < i ==> !#[trigger] occurs_at(text@, pat@, j),
        decreases n - m + 1 - i,
    {
        let mut k: usize = 0;
        let mut same = true;
        while k < m
            invariant
                n == text@.len(),
                m == pat@.len(),
                i + m <= n,
                k <= m,
                same == forall|q: int| 0 <= q < k ==> text@[i + q] == pat@[q],
            decreases m - k,
        {
            if text.get_char(i + k) != pat.get_char(k) {
                same = false;
            }
            k = k + 1;
        }
        if same {
            assert(text@.subrange(i as int, i + m) =~= pat@);
            proof {
                lemma_first_unique(text@, pat@, i as int);
            }
            return Some(i);
        }
        assert(!occurs_at(text@, pat@, i as int)) by {
            if occurs_at(text@, pat@, i as int) {
                let q = choose|q: int| 0 <= q < m && text@[i + q] != pat@[q];
                assert(text@.subrange(i as int, i + m)[q] == text@[i + q]);
            }
        }
        i = i + 1;
    }
    proof {
        lemma_no_first(text@, pat@);
    }
    None
}

/// The opening marker of a reasoning trace.
pub open spec fn think_open() -> Seq<char> {
    seq!['<', 't', 'h', 'i', 'n', 'k', '>']
}

/// The closing marker of a reasoning trace.
pub open spec fn think_close() -> Seq<char> {
    seq!['<', '/', 't', 'h', 'i', 'n', 'k', '>']
}

/// `t` with every line break removed.
pub open spec fn without_newlines(t: Seq<char>) -> Seq<char>
    decreases t.len(),
{
    if t.len() == 0 {
        t
    } else {
        without_newlines(t.drop_last()) + if t.last() == '\n' {
            Seq::empty()
        } else {
            seq![t.last()]
        }
    }
}

/// Whether `t` holds an opening or a closing trace marker.
pub open spec fn has_marker(t: Seq<char>) -> bool {
    occurs(t, think_open()) || occurs(t, think_close())
}

/// `t` without its first reasoning trace. When a closing marker occurs, the
/// text from the first opening marker before it (or from the start, when
/// there is none) through the end of the first closing marker is dropped.
/// When only an opening marker occurs, the unterminated trace from it to the
/// end is dropped. Text with no marker is unchanged.
pub open spec fn strip_first_trace(t: Seq<char>) -> Seq<char> {
    if occurs(t, think_close()) {
        let e = first_index(t, think_close());
        let start = if occurs(t, think_open()) && first_index(t, think_open()) <= e {
            first_index(t, think_open())
        } else {
            0
        };
        t.subrange(0, start) + t.subrange(e + think_close().len(), t.len() as int)
    } else if occurs(t, think_open()) {
        t.subrange(0, first_index(t, think_open()))
    } else {
        t
    }
}

/// `t` without any reasoning trace: the first trace is dropped again and
/// again until no marker is left.
pub open spec fn without_think(t: Seq<char>) -> Seq<char>
    decreases t.len(),
{
    if has_marker(t) && strip_first_trace(t).len() < t.len() {
        without_think(strip_first_trace(t))
    } else {
        t
    }
}

/// Whether `t` holds no line break.
pub open spec fn no_newline_char(t: Seq<char>) -> bool {
    forall|k: int| 0 <= k < t.len() ==> t[k] != '\n'
}

proof fn lemma_first_exists(t: Seq<char>, p: Seq<char>, i: int)
    requires
        occurs_at(t, p, i),
    ensures
        first_at(t, p, first_index(t, p)),
        first_index(t, p) <= i,
    decreases i,
{
    if exists|j: int| 0 <= j < i && #[trigger] occurs_at(t, p, j) {
        let j = choose|j: int| 0 <= j < i && #[trigger] occurs_at(t, p, j);
        lemma_first_exists(t, p, j);
    } else {
        assert(first_at(t, p, i));
        lemma_first_unique(t, p, i);
    }
}

proof fn lemma_strip_shrinks(t: Seq<char>)
    requires
        has_marker(t),
    ensures
        strip_first_trace(t).len() < t.len(),
        no_newline_char(t) ==> no_newline_char(strip_first_trace(t)),
{
    if occurs(t, think_close()) {
        let w = choose|i: int| #[trigger] occurs_at(t, think_close(), i);
        lemma_first_exists(t, think_close(), w);
        if occurs(t, think_open()) {
            let o = choose|i: int| #[trigger] occurs_at(t, think_open(), i);
            lemma_first_exists(t, think_open(), o);
        }
    } else {
        let o = choose|i: int| #[trigger] occurs_at(t, think_open(), i);
        lemma_first_exists(t, think_open(), o);
    }
    let r = strip_first_trace(t);
    if no_newline_char(t) {
        assert forall|k: int| 0 <= k < r.len() implies r[k] != '\n' by {
            if occurs(t, think_close()) {
                let e = first_index(t, think_close());
                let start = if occurs(t, think_open()) && first_index(t, think_open()) <= e {
                    first_index(t, think_open())
                } else {
                    0
                };
                if k >= start {
                    assert(r[k] == t[k - start + e + 8]);
                } else {
                    assert(r[k] == t[k]);
                }
            } else {
                assert(r[k] == t[k]);
            }
        }
    }
}

/// What trace removal leaves holds no trace marker, and keeps text free of
/// line breaks.
pub proof fn lemma_without_think(t: Seq<char>)
    ensures
        !has_marker(without_think(t)),
        no_newline_char(t) ==> no_newline_char(without_think(t)),
    decreases t.len(),
{
    if has_marker(t) {
        lemma_strip_shrinks(t);
        lemma_without_think(strip_first_trace(t));
    }
}

fn strip_first(text: &str) -> (r: Option<String>)
    ensures
        has_marker(text@) ==> (r matches Some(s) && s@ == strip_first_trace(text@)),
        !has_marker(text@) ==> r is None,
{
    proof {
        reveal_strlit("<think>");
        reveal_strlit("</think>");
    }
    assert("<think>"@ =~= think_open());
    assert("</think>"@ =~= think_close());
    let n = text.unicode_len();
    let open = find_text(text, "<think>");
    let close = find_text(text, "</think>");
    match close {
        Some(e) => {
            let start = match open {
                Some(s) => if s <= e {
                    s
                } else {
                    0
                },
                None => 0,
            };
            let before = String::from_str(text.substring_char(0, start));
            Some(before.concat(text.substring_char(e + 8, n)))
        },
        None => match open {
            Some(s) => Some(String::from_str(text.substring_char(0, s))),
            None => None,
        },
    }
}

/// Removes every reasoning trace (`<think>` ... `</think>`) from model
/// output; no trace marker is left.
pub fn remove_think_tags(text: &str) -> (r: String)
    ensures
        r@ == without_think(text@),
        !occurs(r@, think_open()),
        !occurs(r@, think_close()),
{
    let mut cur = String::from_str(text);
    let mut done = false;
    while !done
        invariant
            without_think(cur@) == without_think(text@),
            done ==> !has_marker(cur@),
        decreases cur@.len() + if done {
            0int
        } else {
            1int
        },
    {
        match strip_first(cur.as_str()) {
            Some(next) => {
                proof {
                    lemma_strip_shrinks(cur@);
                }
                cur = next;
            },
            None => {
                done = true;
            },
        }
    }
    proof {
        lemma_without_think(text@);
    }
    cur
}

/// Line-break removal leaves no line break.
pub proof fn lemma_without_newlines_clean(t: Seq<char>)
    ensures
        no_newline_char(without_newlines(t)),
    decreases t.len(),
{
    if t.len() > 0 {
        lemma_without_newlines_clean(t.drop_last());
    }
}

proof fn lemma_without_newlines_push(t: Seq<char>, i: int)
    requires
        0 <= i < t.len(),
    ensures
        without_newlines(t.subrange(0, i + 1)) == without_newlines(t.subrange(0, i)) + if t[i]
            == '\n' {
            Seq::empty()
        } else {
            seq![t[i]]
        },
{
    assert(t.subrange(0, i + 1).drop_last() =~= t.subrange(0, i));
}

/// Removes every line break.
pub fn remove_newlines(text: &str) -> (r: String)
    ensures
        r@ == without_newlines(text@),
        no_newline_char(r@),
{
    proof {
        lemma_without_newlines_clean(text@);
    }
    let n = text.unicode_len();
    let mut out = String::new();
    let mut seg: usize = 0;
    let mut i: usize = 0;
    assert(text@.subrange(0, 0).len() == 0);
    while i < n
        invariant
            n == text@.len(),
            seg <= i <= n,
            without_newlines(text@.subrange(0, i as int)) == out@ + text@.subrange(
                seg as int,
                i as int,
            ),
        decreases n - i,
    {
        let c = text.get_char(i);
        proof {
            lemma_without_newlines_push(text@, i as int);
        }
        if c == '\n' {
            out.append(text.substring_char(seg, i));
            seg = i + 1;
            assert(text@.subrange(seg as int, (i + 1) as int).len() == 0);
            assert(out@ + text@.subrange(seg as int, (i + 1) as int) =~= out@);
        } else {
            assert(text@.subrange(seg as int, (i + 1) as int) =~= text@.subrange(
                seg as int,
                i as int,
            ).push(c));
            assert(out@ + text@.subrange(seg as int, (i + 1) as int) =~= out@ + text@.subrange(
                seg as int,
                i as int,
            ) + seq![c]);
        }
        i = i + 1;
    }
    out.append(text.substring_char(seg, n));
    assert(text@.subrange(0, n as int) =~= text@);
    out
}

} // verus!
