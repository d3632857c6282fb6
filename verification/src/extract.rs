//! Recovering the canonical subtitle payload from generated text.
//!
//! Generated text may wrap the payload in a markdown code fence. The
//! deterministic policy implemented here: prefer the first subtitle-tagged
//! opener line; if none exists, fall back to the first generic (bare) fence
//! line; capture everything up to the next bare fence line and trim the
//! capture of surrounding whitespace; later fenced blocks are ignored. If
//! no opener is found, an opener has no closer, or the capture trims to
//! nothing, the input itself is returned, trimmed of surrounding whitespace
//! only. The result of a successful capture contains no fence pair, which
//! makes the extraction idempotent; `lemma_extract_idempotent` proves that
//! for every input.

use vstd::prelude::*;

use crate::text::is_blank;
use crate::text::is_char_trimmed;
use crate::text::is_ws_char;
use crate::text::join_lines;
use crate::text::lemma_blank_prefix_trimmed;
use crate::text::lemma_blank_suffix_trimmed;
use crate::text::lemma_join_lines_append;
use crate::text::lemma_join_lines_of;
use crate::text::lemma_join_lines_push;
use crate::text::lemma_lines_basic;
use crate::text::lemma_lines_concat;
use crate::text::lemma_lines_of_join;
use crate::text::lemma_lines_of_nl_free;
use crate::text::lemma_trimmed_basic;
use crate::text::lemma_trimmed_of_trims;
use crate::text::lemma_trim_idem;
use crate::text::lemma_trimmed_subrange;
use crate::text::lemma_trims_nl_free;
use crate::text::lemma_ws_prefix;
use crate::text::lemma_ws_prefix_unique;
use crate::text::lemma_ws_suffix;
use crate::text::lemma_ws_suffix_unique;
use crate::text::lines_of;
use crate::text::nl_free;
use crate::text::trim_left;
use crate::text::trim_right;
use crate::text::trimmed;
use crate::text::ws_prefix_len;
use crate::text::ws_suffix_len;

verus! {

/// The characters of the bare fence delimiter.
pub open spec fn bare_fence_chars() -> Seq<char> {
    seq!['`', '`', '`']
}

/// The characters of the subtitle-tagged fence opener.
pub open spec fn tagged_fence_chars() -> Seq<char> {
    seq!['`', '`', '`', 's', 'r', 't']
}

/// A line that opens a subtitle-tagged fence: after left-trimming it starts
/// with the tagged delimiter.
pub open spec fn is_tagged_opener(l: Seq<char>) -> bool {
    trim_left(l).len() >= 6 && trim_left(l).subrange(0, 6) == tagged_fence_chars()
}

/// A line that is exactly the bare delimiter up to surrounding whitespace.
pub open spec fn is_bare_fence(l: Seq<char>) -> bool {
    trimmed(l) == bare_fence_chars()
}

/// Index of the first tagged opener at or after `i`, or `ls.len()` if none.
pub open spec fn first_tagged_at(ls: Seq<Seq<char>>, i: int) -> int
    decreases ls.len() - i,
{
    if i >= ls.len() {
        ls.len() as int
    } else if is_tagged_opener(ls[i]) {
        i
    } else {
        first_tagged_at(ls, i + 1)
    }
}

/// Index of the first bare fence at or after `i`, or `ls.len()` if none.
pub open spec fn first_bare_at(ls: Seq<Seq<char>>, i: int) -> int
    decreases ls.len() - i,
{
    if i >= ls.len() {
        ls.len() as int
    } else if is_bare_fence(ls[i]) {
        i
    } else {
        first_bare_at(ls, i + 1)
    }
}

/// Index of the first non-blank line at or after `i`, or `ls.len()` if none.
pub open spec fn first_nonblank_at(ls: Seq<Seq<char>>, i: int) -> int
    decreases ls.len() - i,
{
    if i >= ls.len() {
        ls.len() as int
    } else if !is_blank(ls[i]) {
        i
    } else {
        first_nonblank_at(ls, i + 1)
    }
}

/// Index of the last non-blank line strictly before `i`, or `-1` if none.
pub open spec fn last_nonblank_before(ls: Seq<Seq<char>>, i: int) -> int
    decreases i,
{
    if i <= 0 {
        -1
    } else if !is_blank(ls[i - 1]) {
        i - 1
    } else {
        last_nonblank_before(ls, i - 1)
    }
}

/// The line the extraction policy chooses as opener: the first tagged
/// opener, or, when no tagged opener exists, the first bare fence.
pub open spec fn chosen_opener(ls: Seq<Seq<char>>) -> int {
    let t = first_tagged_at(ls, 0);
    if t < ls.len() {
        t
    } else {
        first_bare_at(ls, 0)
    }
}

/// A sequence of lines, reduced to its trimmed core: blank edge lines are
/// dropped, the first remaining line is left-trimmed and the last remaining
/// line is right-trimmed. Joining the result yields the text trimmed of
/// surrounding whitespace.
pub open spec fn reduce_lines(ls: Seq<Seq<char>>) -> Seq<Seq<char>> {
    let a = first_nonblank_at(ls, 0);
    if a == ls.len() {
        Seq::<Seq<char>>::empty()
    } else {
        let b = last_nonblank_before(ls, ls.len() as int) + 1;
        let w = ls.subrange(a, b);
        let w1 = w.update(0, trim_left(w[0]));
        w1.update(w1.len() - 1, trim_right(w1[w1.len() - 1]))
    }
}

/// The failure result: the whole input, trimmed of surrounding whitespace.
pub open spec fn fallback_of(x: Seq<char>) -> Seq<char> {
    join_lines(reduce_lines(lines_of(x)))
}

/// The extraction policy over mathematical text.
pub open spec fn spec_extract(x: Seq<char>) -> Seq<char> {
    let ls = lines_of(x);
    let o = chosen_opener(ls);
    if o == ls.len() {
        fallback_of(x)
    } else {
        let c = first_bare_at(ls, o + 1);
        if c == ls.len() {
            fallback_of(x)
        } else {
            let r = join_lines(reduce_lines(ls.subrange(o + 1, c)));
            if r.len() == 0 {
                fallback_of(x)
            } else {
                r
            }
        }
    }
}

/// `first_tagged_at` is in bounds, skips only non-openers, and lands on an
/// opener when one exists.
pub proof fn lemma_first_tagged(ls: Seq<Seq<char>>, i: int)
    requires
        0 <= i <= ls.len(),
    ensures
        i <= first_tagged_at(ls, i) <= ls.len(),
        forall|j: int| i <= j < first_tagged_at(ls, i) ==> !is_tagged_opener(#[trigger] ls[j]),
        first_tagged_at(ls, i) < ls.len() ==> is_tagged_opener(ls[first_tagged_at(ls, i)]),
    decreases ls.len() - i,
{
    if i >= ls.len() || is_tagged_opener(ls[i]) {
    } else {
        lemma_first_tagged(ls, i + 1);
    }
}

/// A position with no opener before it (from `i`) and an opener at it is
/// the one `first_tagged_at` finds.
pub proof fn lemma_first_tagged_unique(ls: Seq<Seq<char>>, i: int, k: int)
    requires
        0 <= i <= k <= ls.len(),
        forall|j: int| i <= j < k ==> !is_tagged_opener(#[trigger] ls[j]),
        k < ls.len() ==> is_tagged_opener(ls[k]),
    ensures
        first_tagged_at(ls, i) == k,
    decreases ls.len() - i,
{
    if i >= ls.len() {
    } else if is_tagged_opener(ls[i]) {
        assert(k == i);
    } else {
        lemma_first_tagged_unique(ls, i + 1, k);
    }
}

/// `first_bare_at` is in bounds, skips only non-fences, and lands on a
/// bare fence when one exists.
pub proof fn lemma_first_bare(ls: Seq<Seq<char>>, i: int)
    requires
        0 <= i <= ls.len(),
    ensures
        i <= first_bare_at(ls, i) <= ls.len(),
        forall|j: int| i <= j < first_bare_at(ls, i) ==> !is_bare_fence(#[trigger] ls[j]),
        first_bare_at(ls, i) < ls.len() ==> is_bare_fence(ls[first_bare_at(ls, i)]),
    decreases ls.len() - i,
{
    if i >= ls.len() || is_bare_fence(ls[i]) {
    } else {
        lemma_first_bare(ls, i + 1);
    }
}

/// A position with no bare fence before it (from `i`) and a bare fence at
/// it is the one `first_bare_at` finds.
pub proof fn lemma_first_bare_unique(ls: Seq<Seq<char>>, i: int, k: int)
    requires
        0 <= i <= k <= ls.len(),
        forall|j: int| i <= j < k ==> !is_bare_fence(#[trigger] ls[j]),
        k < ls.len() ==> is_bare_fence(ls[k]),
    ensures
        first_bare_at(ls, i) == k,
    decreases ls.len() - i,
{
    if i >= ls.len() {
    } else if is_bare_fence(ls[i]) {
        assert(k == i);
    } else {
        lemma_first_bare_unique(ls, i + 1, k);
    }
}

/// `first_nonblank_at` is in bounds, skips only blank lines, and lands on
/// a non-blank line when one exists.
pub proof fn lemma_first_nonblank(ls: Seq<Seq<char>>, i: int)
    requires
        0 <= i <= ls.len(),
    ensures
        i <= first_nonblank_at(ls, i) <= ls.len(),
        forall|j: int| i <= j < first_nonblank_at(ls, i) ==> is_blank(#[trigger] ls[j]),
        first_nonblank_at(ls, i) < ls.len() ==> !is_blank(ls[first_nonblank_at(ls, i)]),
    decreases ls.len() - i,
{
    if i >= ls.len() || !is_blank(ls[i]) {
    } else {
        lemma_first_nonblank(ls, i + 1);
    }
}

/// A position preceded (from `i`) only by blank lines and holding a
/// non-blank line is the one `first_nonblank_at` finds.
pub proof fn lemma_first_nonblank_unique(ls: Seq<Seq<char>>, i: int, k: int)
    requires
        0 <= i <= k <= ls.len(),
        forall|j: int| i <= j < k ==> is_blank(#[trigger] ls[j]),
        k < ls.len() ==> !is_blank(ls[k]),
    ensures
        first_nonblank_at(ls, i) == k,
    decreases ls.len() - i,
{
    if i >= ls.len() {
    } else if !is_blank(ls[i]) {
        assert(k == i);
    } else {
        lemma_first_nonblank_unique(ls, i + 1, k);
    }
}

/// `last_nonblank_before` is in bounds, skips only blank lines, and lands
/// on a non-blank line when one exists.
pub proof fn lemma_last_nonblank(ls: Seq<Seq<char>>, i: int)
    requires
        0 <= i <= ls.len(),
    ensures
        -1 <= last_nonblank_before(ls, i) < i,
        forall|j: int| last_nonblank_before(ls, i) < j < i ==> is_blank(#[trigger] ls[j]),
        last_nonblank_before(ls, i) >= 0 ==> !is_blank(ls[last_nonblank_before(ls, i)]),
    decreases i,
{
    if i <= 0 || !is_blank(ls[i - 1]) {
    } else {
        lemma_last_nonblank(ls, i - 1);
    }
}

/// A position followed (up to `i`) only by blank lines and holding a
/// non-blank line is the one `last_nonblank_before` finds.
pub proof fn lemma_last_nonblank_unique(ls: Seq<Seq<char>>, i: int, k: int)
    requires
        0 <= i <= ls.len(),
        -1 <= k < i,
        forall|j: int| k < j < i ==> is_blank(#[trigger] ls[j]),
        k >= 0 ==> !is_blank(ls[k]),
    ensures
        last_nonblank_before(ls, i) == k,
    decreases i,
{
    if i <= 0 {
    } else if !is_blank(ls[i - 1]) {
        assert(k == i - 1);
    } else {
        lemma_last_nonblank_unique(ls, i - 1, k);
    }
}

/// Fence classification depends only on the trimmed form of a line; fence
/// lines are never blank, and a tagged opener is never a bare fence.
pub proof fn lemma_classification(l: Seq<char>)
    ensures
        is_tagged_opener(l) == (trimmed(l).len() >= 6 && trimmed(l).subrange(0, 6)
            == tagged_fence_chars()),
        is_tagged_opener(l) ==> !is_blank(l),
        is_bare_fence(l) ==> !is_blank(l),
        is_tagged_opener(l) ==> !is_bare_fence(l),
{
    lemma_ws_prefix(l);
    lemma_trimmed_basic(l);
    let t = trim_left(l);
    lemma_ws_suffix(t);
    let q = ws_suffix_len(t);
    assert(trimmed(l) == t.take(t.len() - q));
    if is_tagged_opener(l) {
        // the six delimiter characters are not whitespace, so right-trimming
        // keeps them
        assert(!is_ws_char(t[5]));
        assert(q <= t.len() - 6) by {
            if q > t.len() - 6 {
                assert(is_ws_char(t[5])) by {
                    assert(t.len() - q <= 5 < t.len());
                }
            }
        }
        assert(trimmed(l).len() >= 6);
        assert(trimmed(l).subrange(0, 6) =~= t.subrange(0, 6));
        assert(!is_blank(l)) by {
            assert(trimmed(l).len() > 0);
        }
        assert(trimmed(l).len() != 3);
        assert(!is_bare_fence(l)) by {
            if trimmed(l) == bare_fence_chars() {
                assert(trimmed(l).len() == 3);
            }
        }
    }
    if trimmed(l).len() >= 6 && trimmed(l).subrange(0, 6) == tagged_fence_chars() {
        assert(t.len() >= trimmed(l).len());
        assert(t.subrange(0, 6) =~= trimmed(l).subrange(0, 6));
    }
    if is_bare_fence(l) {
        assert(trimmed(l).len() == 3);
        assert(!is_blank(l));
    }
}

/// How the reduced line sequence relates to the original: the window of
/// lines it keeps, how the kept lines look, and that the dropped edge
/// lines are blank.
pub proof fn lemma_reduce_lines(ls: Seq<Seq<char>>)
    ensures
        first_nonblank_at(ls, 0) == ls.len() ==> reduce_lines(ls)
            == Seq::<Seq<char>>::empty(),
        first_nonblank_at(ls, 0) < ls.len() ==> {
            let a = first_nonblank_at(ls, 0);
            let b = last_nonblank_before(ls, ls.len() as int) + 1;
            let w = reduce_lines(ls);
            &&& 0 <= a < b <= ls.len()
            &&& w.len() == b - a
            &&& forall|i: int|
                0 <= i < w.len() ==> trimmed(#[trigger] w[i]) == trimmed(ls[a + i])
            &&& forall|i: int| 1 <= i < w.len() - 1 ==> #[trigger] w[i] == ls[a + i]
            &&& forall|j: int| 0 <= j < a ==> is_blank(#[trigger] ls[j])
            &&& forall|j: int| b <= j < ls.len() ==> is_blank(#[trigger] ls[j])
            &&& !is_blank(w[0])
            &&& !is_blank(w[w.len() - 1])
            &&& w.len() > 1 ==> w[0] == trim_left(ls[a]) && w[w.len() - 1] == trim_right(
                ls[b - 1],
            )
            &&& w.len() == 1 ==> w[0] == trimmed(ls[a])
        },
{
    lemma_first_nonblank(ls, 0);
    lemma_last_nonblank(ls, ls.len() as int);
    let a = first_nonblank_at(ls, 0);
    if a < ls.len() {
        let last = last_nonblank_before(ls, ls.len() as int);
        let b = last + 1;
        assert(last >= 0) by {
            if last < 0 {
                assert(is_blank(ls[a]));
            }
        }
        assert(a <= last) by {
            if last < a {
                assert(is_blank(ls[last]));
            }
        }
        let wnd = ls.subrange(a, b);
        let w1 = wnd.update(0, trim_left(wnd[0]));
        let w = w1.update(w1.len() - 1, trim_right(w1[w1.len() - 1]));
        assert(w == reduce_lines(ls));
        assert(w.len() == b - a);
        assert forall|i: int| 0 <= i < w.len() implies trimmed(#[trigger] w[i]) == trimmed(
            ls[a + i],
        ) by {
            lemma_trimmed_of_trims(ls[a + i]);
            lemma_trimmed_of_trims(trim_left(ls[a + i]));
            if i == 0 && i == w.len() - 1 {
                assert(w[i] == trim_right(trim_left(ls[a])));
            } else if i == 0 {
                assert(w[i] == trim_left(ls[a]));
            } else if i == w.len() - 1 {
                assert(w[i] == trim_right(ls[a + i]));
            } else {
                assert(w[i] == ls[a + i]);
            }
        }
        assert(!is_blank(w[0])) by {
            lemma_trimmed_basic(ls[a]);
            lemma_trimmed_basic(w[0]);
            assert(trimmed(w[0]) == trimmed(ls[a]));
        }
        assert(!is_blank(w[w.len() - 1])) by {
            lemma_trimmed_basic(ls[last]);
            lemma_trimmed_basic(w[w.len() - 1]);
            assert(trimmed(w[w.len() - 1]) == trimmed(ls[a + w.len() - 1]));
        }
        if w.len() == 1 {
            assert(w[0] == trim_right(trim_left(ls[a])));
            assert(w[0] == trimmed(ls[a]));
        } else {
            assert(w[0] == trim_left(ls[a]));
            assert(w1[w1.len() - 1] == wnd[wnd.len() - 1]);
            assert(w[w.len() - 1] == trim_right(ls[b - 1]));
        }
    }
}

/// The lines of a reduced sequence are `'\n'`-free when the original lines
/// are, and joining a non-empty reduced sequence yields non-empty text.
pub proof fn lemma_reduce_lines_join(ls: Seq<Seq<char>>)
    requires
        forall|i: int| 0 <= i < ls.len() ==> nl_free(#[trigger] ls[i]),
    ensures
        forall|i: int|
            0 <= i < reduce_lines(ls).len() ==> nl_free(#[trigger] reduce_lines(ls)[i]),
        reduce_lines(ls).len() > 0 ==> join_lines(reduce_lines(ls)).len() > 0,
        reduce_lines(ls).len() == 0 ==> join_lines(reduce_lines(ls)).len() == 0,
        reduce_lines(ls).len() > 0 ==> lines_of(join_lines(reduce_lines(ls)))
            == reduce_lines(ls),
{
    lemma_reduce_lines(ls);
    lemma_first_nonblank(ls, 0);
    let a = first_nonblank_at(ls, 0);
    let w = reduce_lines(ls);
    if a == ls.len() {
    } else {
        assert forall|i: int| 0 <= i < w.len() implies nl_free(#[trigger] w[i]) by {
            lemma_trims_nl_free(ls[a + i]);
            lemma_trims_nl_free(trim_left(ls[a + i]));
            let b = last_nonblank_before(ls, ls.len() as int) + 1;
            if i == 0 && i == w.len() - 1 {
                assert(w[i] == trimmed(ls[a]));
            } else if i == 0 {
                assert(w[i] == trim_left(ls[a]));
            } else if i == w.len() - 1 {
                assert(w[i] == trim_right(ls[a + i]) || w[i] == trim_right(trim_left(ls[a + i])));
            } else {
                assert(w[i] == ls[a + i]);
            }
        }
        assert(join_lines(w).len() > 0) by {
            assert(!is_blank(w[0]));
            lemma_trimmed_basic(w[0]);
            assert(w[0].len() > 0) by {
                if w[0].len() == 0 {
                    assert(is_blank(w[0]));
                }
            }
            if w.len() == 1 {
                assert(join_lines(w) == w[0]);
            } else {
                assert(join_lines(w) == w[0] + seq!['\n'] + join_lines(w.skip(1)));
            }
        }
        lemma_lines_of_join(w);
    }
}

/// Reducing keeps the fence classification of every kept line, and the
/// dropped edge lines are neither openers nor fences.
pub proof fn lemma_window_classes(ls: Seq<Seq<char>>)
    requires
        first_nonblank_at(ls, 0) < ls.len(),
    ensures
        ({
            let a = first_nonblank_at(ls, 0);
            let w = reduce_lines(ls);
            &&& forall|i: int|
                0 <= i < w.len() ==> is_tagged_opener(#[trigger] w[i]) == is_tagged_opener(
                    ls[a + i],
                )
            &&& forall|i: int|
                0 <= i < w.len() ==> is_bare_fence(#[trigger] w[i]) == is_bare_fence(ls[a + i])
            &&& forall|j: int|
                0 <= j < ls.len() && !(a <= j < a + w.len()) ==> !is_tagged_opener(
                    #[trigger] ls[j],
                ) && !is_bare_fence(ls[j])
        }),
{
    lemma_reduce_lines(ls);
    let a = first_nonblank_at(ls, 0);
    let w = reduce_lines(ls);
    assert forall|i: int| 0 <= i < w.len() implies is_tagged_opener(#[trigger] w[i])
        == is_tagged_opener(ls[a + i]) && is_bare_fence(w[i]) == is_bare_fence(ls[a + i]) by {
        lemma_classification(w[i]);
        lemma_classification(ls[a + i]);
        assert(trimmed(w[i]) == trimmed(ls[a + i]));
    }
    assert forall|j: int| 0 <= j < ls.len() && !(a <= j < a + w.len()) implies !is_tagged_opener(
        #[trigger] ls[j],
    ) && !is_bare_fence(ls[j]) by {
        assert(is_blank(ls[j]));
        lemma_classification(ls[j]);
    }
}

/// Reducing a reduced line sequence changes nothing.
pub proof fn lemma_reduce_idem(ls: Seq<Seq<char>>)
    ensures
        reduce_lines(reduce_lines(ls)) == reduce_lines(ls),
{
    lemma_reduce_lines(ls);
    lemma_first_nonblank(ls, 0);
    let a = first_nonblank_at(ls, 0);
    let w = reduce_lines(ls);
    if a == ls.len() {
        assert(first_nonblank_at(w, 0) == 0 == w.len());
        assert(reduce_lines(w) =~~= w);
    } else {
        let b = last_nonblank_before(ls, ls.len() as int) + 1;
        lemma_first_nonblank_unique(w, 0, 0);
        lemma_last_nonblank_unique(w, w.len() as int, w.len() - 1);
        assert(first_nonblank_at(w, 0) == 0);
        let wnd = w.subrange(0, w.len() as int);
        assert(wnd =~~= w);
        // the first line of w is already left-trimmed, the last already
        // right-trimmed
        let wnd0 = ls.subrange(a, b);
        let w1 = wnd0.update(0, trim_left(wnd0[0]));
        assert(w == w1.update(w1.len() - 1, trim_right(w1[w1.len() - 1])));
        if w.len() == 1 {
            assert(w[0] == trim_right(trim_left(ls[a])));
            lemma_trim_idem(ls[a]);
            assert(trim_left(w[0]) == w[0]) by {
                assert(w[0] == trimmed(ls[a]));
            }
            assert(trim_right(trim_left(w[0])) == w[0]);
            assert(reduce_lines(w) =~~= w);
        } else {
            assert(w[0] == trim_left(ls[a]));
            assert(w[w.len() - 1] == trim_right(ls[b - 1]));
            lemma_trim_idem(ls[a]);
            lemma_trim_idem(ls[b - 1]);
            assert(trim_left(w[0]) == w[0]);
            assert(trim_right(w[w.len() - 1]) == w[w.len() - 1]);
            let v1 = w.update(0, trim_left(w[0]));
            assert(v1 =~~= w);
            assert(reduce_lines(w) == v1.update(v1.len() - 1, trim_right(v1[v1.len() - 1])));
            assert(reduce_lines(w) =~~= w);
        }
    }
}

/// Extracting from empty text yields empty text.
proof fn lemma_extract_empty()
    ensures
        spec_extract(Seq::<char>::empty()) == Seq::<char>::empty(),
{
    let e = Seq::<char>::empty();
    let ls = lines_of(e);
    assert(ls == seq![e]);
    lemma_trimmed_basic(e);
    lemma_classification(e);
    assert(!is_tagged_opener(e)) by {
        lemma_ws_prefix(e);
    }
    assert(!is_bare_fence(e)) by {
        assert(trimmed(e).len() == 0);
    }
    lemma_first_tagged_unique(ls, 0, 1);
    lemma_first_bare_unique(ls, 0, 1);
    assert(chosen_opener(ls) == 1);
    lemma_first_nonblank_unique(ls, 0, 1);
    assert(reduce_lines(ls) == Seq::<Seq<char>>::empty());
    assert(spec_extract(e) == join_lines(Seq::<Seq<char>>::empty()));
}

/// Whether extraction captures a fenced block: an opener was chosen, a
/// closer follows it, and the capture does not trim to nothing.
pub open spec fn extraction_succeeds(x: Seq<char>) -> bool {
    let ls = lines_of(x);
    let o = chosen_opener(ls);
    &&& o < ls.len()
    &&& first_bare_at(ls, o + 1) < ls.len()
    &&& join_lines(reduce_lines(ls.subrange(o + 1, first_bare_at(ls, o + 1)))).len() > 0
}

/// After a successful capture the result re-extracts to itself: it
/// contains no bare fence line at all, so a second pass finds no closer
/// and falls back to trimming, which changes nothing.
proof fn lemma_idempotent_success(x: Seq<char>)
    requires
        extraction_succeeds(x),
    ensures
        spec_extract(spec_extract(x)) == spec_extract(x),
{
    let ls = lines_of(x);
    lemma_lines_basic(x);
    let o = chosen_opener(ls);
    lemma_first_tagged(ls, 0);
    lemma_first_bare(ls, 0);
    lemma_first_bare(ls, o + 1);
    let c = first_bare_at(ls, o + 1);
    let cap = ls.subrange(o + 1, c);
    let m = reduce_lines(cap);
    let r = join_lines(m);
    assert(spec_extract(x) == r);
    assert forall|i: int| 0 <= i < cap.len() implies nl_free(#[trigger] cap[i]) by {
        assert(cap[i] == ls[o + 1 + i]);
    }
    lemma_reduce_lines_join(cap);
    assert(m.len() > 0);
    assert(lines_of(r) == m);
    lemma_reduce_lines(cap);
    lemma_first_nonblank(cap, 0);
    let ac = first_nonblank_at(cap, 0);
    assert(ac < cap.len());
    assert forall|i: int| 0 <= i < m.len() implies !is_bare_fence(#[trigger] m[i]) by {
        lemma_classification(m[i]);
        lemma_classification(cap[ac + i]);
        assert(trimmed(m[i]) == trimmed(cap[ac + i]));
        assert(cap[ac + i] == ls[o + 1 + ac + i]);
        assert(!is_bare_fence(ls[o + 1 + ac + i]));
    }
    let o2 = chosen_opener(m);
    lemma_first_tagged(m, 0);
    lemma_first_bare(m, 0);
    if o2 < m.len() {
        lemma_first_bare_unique(m, o2 + 1, m.len() as int);
        assert(first_bare_at(m, o2 + 1) == m.len());
    }
    assert(spec_extract(r) == fallback_of(r));
    lemma_reduce_idem(cap);
    assert(reduce_lines(m) == m);
    assert(fallback_of(r) == r);
}

/// When no capture succeeds the result is the trimmed input, and a second
/// pass finds the same fence structure again (trimming drops only blank
/// edge lines), so it falls back to trimming once more, which is a
/// fixpoint.
proof fn lemma_idempotent_fallback(x: Seq<char>)
    requires
        !extraction_succeeds(x),
    ensures
        spec_extract(spec_extract(x)) == spec_extract(x),
{
    let ls = lines_of(x);
    lemma_lines_basic(x);
    lemma_first_tagged(ls, 0);
    lemma_first_bare(ls, 0);
    if chosen_opener(ls) < ls.len() {
        lemma_first_bare(ls, chosen_opener(ls) + 1);
    }
    let w = reduce_lines(ls);
    let r = join_lines(w);
    assert(spec_extract(x) == r);
    lemma_reduce_lines(ls);
    lemma_reduce_lines_join(ls);
    lemma_first_nonblank(ls, 0);
    let a = first_nonblank_at(ls, 0);
    if a == ls.len() {
        assert(w.len() == 0);
        assert(r =~= Seq::<char>::empty());
        lemma_extract_empty();
    } else {
        assert(w.len() > 0);
        assert(lines_of(r) == w);
        lemma_window_classes(ls);
        let o = chosen_opener(ls);
        lemma_first_tagged(ls, 0);
        lemma_first_bare(ls, 0);
        let t = first_tagged_at(ls, 0);
        // translate the first tagged opener into the reduced window
        if t < ls.len() {
            assert(!is_blank(ls[t])) by {
                lemma_classification(ls[t]);
            }
            assert(a <= t < a + w.len());
            lemma_first_tagged_unique(w, 0, t - a);
        } else {
            lemma_first_tagged_unique(w, 0, w.len() as int);
        }
        if o == ls.len() {
            // neither a tagged opener nor any bare fence exists, in x or in w
            lemma_first_bare_unique(w, 0, w.len() as int);
            assert(chosen_opener(w) == w.len());
        } else {
            lemma_first_bare(ls, o + 1);
            let c = first_bare_at(ls, o + 1);
            // the chosen opener is never blank, so it lies in the window
            assert(!is_blank(ls[o])) by {
                lemma_classification(ls[o]);
                if t < ls.len() {
                } else {
                    assert(is_bare_fence(ls[o]));
                }
            }
            assert(a <= o < a + w.len());
            // translate the chosen opener
            if t < ls.len() {
                assert(o == t);
                assert(chosen_opener(w) == o - a);
            } else {
                lemma_first_bare_unique(w, 0, o - a);
                assert(chosen_opener(w) == o - a);
            }
            if c == ls.len() {
                // no closer in x, hence none in w
                lemma_first_bare_unique(w, o - a + 1, w.len() as int);
                assert(first_bare_at(w, o - a + 1) == w.len());
            } else {
                // the capture trims to nothing: every captured line is blank
                let cap = ls.subrange(o + 1, c);
                assert forall|i: int| 0 <= i < cap.len() implies nl_free(#[trigger] cap[i]) by {
                    assert(cap[i] == ls[o + 1 + i]);
                }
                lemma_reduce_lines_join(cap);
                assert(reduce_lines(cap).len() == 0);
                lemma_reduce_lines(cap);
                lemma_first_nonblank(cap, 0);
                assert(first_nonblank_at(cap, 0) == cap.len());
                assert forall|i: int| o + 1 <= i < c implies is_blank(#[trigger] ls[i]) by {
                    assert(cap[i - (o + 1)] == ls[i]);
                }
                // the closer is never blank, so it lies in the window too
                assert(!is_blank(ls[c])) by {
                    lemma_classification(ls[c]);
                }
                assert(a <= c < a + w.len());
                lemma_first_bare_unique(w, o - a + 1, c - a);
                assert(first_bare_at(w, o - a + 1) == c - a);
                // the second capture consists of untouched interior lines,
                // all blank
                let cap2 = w.subrange(o - a + 1, c - a);
                assert forall|i: int| 0 <= i < cap2.len() implies is_blank(#[trigger] cap2[i]) by {
                    assert(cap2[i] == w[o - a + 1 + i]);
                    assert(1 <= o - a + 1 + i < w.len() - 1);
                    assert(w[o - a + 1 + i] == ls[o + 1 + i]);
                    assert(is_blank(ls[o + 1 + i]));
                }
                lemma_first_nonblank_unique(cap2, 0, cap2.len() as int);
                assert(reduce_lines(cap2) == Seq::<Seq<char>>::empty());
                assert(join_lines(reduce_lines(cap2)).len() == 0);
            }
        }
        assert(spec_extract(r) == fallback_of(r));
        lemma_reduce_idem(ls);
        assert(reduce_lines(w) == w);
        assert(fallback_of(r) == r);
    }
}

/// A text none of whose lines takes part in fencing.
pub open spec fn fence_free(x: Seq<char>) -> bool {
    forall|i: int|
        0 <= i < lines_of(x).len() ==> !is_tagged_opener(#[trigger] lines_of(x)[i])
            && !is_bare_fence(lines_of(x)[i])
}

/// Without any fence line the extraction only trims: for every input
/// none of whose lines takes part in fencing, the result is the input
/// trimmed of surrounding whitespace.
pub proof fn lemma_extract_fence_free(x: Seq<char>)
    requires
        fence_free(x),
    ensures
        spec_extract(x) == trimmed(x),
{
    let ls = lines_of(x);
    lemma_lines_basic(x);
    lemma_first_tagged_unique(ls, 0, ls.len() as int);
    lemma_first_bare_unique(ls, 0, ls.len() as int);
    assert(chosen_opener(ls) == ls.len());
    lemma_fallback_is_trimmed(x);
}

/// Plain text comes back unchanged: when no line opens or closes a fence
/// and the text carries no surrounding whitespace, extraction returns the
/// input itself. (Text with surrounding whitespace comes back trimmed, so
/// it is excluded here.)
pub proof fn lemma_extract_plain_text(x: Seq<char>)
    requires
        fence_free(x),
        is_char_trimmed(x),
    ensures
        spec_extract(x) == x,
{
    lemma_extract_fence_free(x);
    lemma_trimmed_basic(x);
}

/// Dropping a blank first line does not change the reduced sequence.
proof fn lemma_reduce_drop_first(ls: Seq<Seq<char>>)
    requires
        ls.len() >= 1,
        is_blank(ls[0]),
    ensures
        reduce_lines(ls) == reduce_lines(ls.skip(1)),
{
    let rest = ls.skip(1);
    lemma_first_nonblank(ls, 0);
    let a = first_nonblank_at(ls, 0);
    if a == ls.len() {
        lemma_first_nonblank_unique(rest, 0, rest.len() as int);
        assert forall|j: int| 0 <= j < rest.len() implies is_blank(#[trigger] rest[j]) by {
            assert(rest[j] == ls[j + 1]);
        }
        lemma_first_nonblank_unique(rest, 0, rest.len() as int);
        assert(reduce_lines(ls) =~~= reduce_lines(rest));
    } else {
        assert(a >= 1);
        assert forall|j: int| 0 <= j < a - 1 implies is_blank(#[trigger] rest[j]) by {
            assert(rest[j] == ls[j + 1]);
        }
        assert(rest[a - 1] == ls[a as int]);
        lemma_first_nonblank_unique(rest, 0, a - 1);
        lemma_last_nonblank(ls, ls.len() as int);
        let last = last_nonblank_before(ls, ls.len() as int);
        assert(last >= a) by {
            if last < a {
                assert(is_blank(ls[a as int]));
            }
        }
        assert forall|j: int| last - 1 < j < rest.len() implies is_blank(#[trigger] rest[j]) by {
            assert(rest[j] == ls[j + 1]);
        }
        assert(rest[last - 1] == ls[last]);
        lemma_last_nonblank_unique(rest, rest.len() as int, last - 1);
        assert(ls.subrange(a as int, last + 1) =~~= rest.subrange(a - 1, last));
        assert(reduce_lines(ls) =~~= reduce_lines(rest));
    }
}

/// Dropping a blank last line does not change the reduced sequence.
proof fn lemma_reduce_drop_last(ls: Seq<Seq<char>>)
    requires
        ls.len() >= 1,
        is_blank(ls[ls.len() - 1]),
    ensures
        reduce_lines(ls) == reduce_lines(ls.take(ls.len() - 1)),
{
    let rest = ls.take(ls.len() - 1);
    lemma_first_nonblank(ls, 0);
    let a = first_nonblank_at(ls, 0);
    if a == ls.len() {
        assert forall|j: int| 0 <= j < rest.len() implies is_blank(#[trigger] rest[j]) by {
            assert(rest[j] == ls[j]);
        }
        lemma_first_nonblank_unique(rest, 0, rest.len() as int);
        assert(reduce_lines(ls) =~~= reduce_lines(rest));
    } else {
        assert(a < ls.len() - 1) by {
            if a == ls.len() - 1 {
                assert(is_blank(ls[a as int]));
            }
        }
        assert forall|j: int| 0 <= j < a implies is_blank(#[trigger] rest[j]) by {
            assert(rest[j] == ls[j]);
        }
        assert(rest[a as int] == ls[a as int]);
        lemma_first_nonblank_unique(rest, 0, a as int);
        lemma_last_nonblank(ls, ls.len() as int);
        let last = last_nonblank_before(ls, ls.len() as int);
        assert(last >= a) by {
            if last < a {
                assert(is_blank(ls[a as int]));
            }
        }
        assert(last < ls.len() - 1) by {
            if last == ls.len() - 1 {
                assert(is_blank(ls[last]));
            }
        }
        assert forall|j: int| last < j < rest.len() implies is_blank(#[trigger] rest[j]) by {
            assert(rest[j] == ls[j]);
        }
        assert(rest[last] == ls[last]);
        lemma_last_nonblank_unique(rest, rest.len() as int, last);
        assert(ls.subrange(a as int, last + 1) =~~= rest.subrange(a as int, last + 1));
        assert(reduce_lines(ls) =~~= reduce_lines(rest));
    }
}

/// Joining the reduced lines yields exactly the joined lines trimmed of
/// surrounding whitespace.
proof fn lemma_join_reduce_trimmed(ms: Seq<Seq<char>>)
    requires
        ms.len() >= 1,
        forall|i: int| 0 <= i < ms.len() ==> nl_free(#[trigger] ms[i]),
    ensures
        join_lines(reduce_lines(ms)) == trimmed(join_lines(ms)),
    decreases ms.len(),
{
    lemma_first_nonblank(ms, 0);
    if ms.len() == 1 {
        lemma_trimmed_basic(ms[0]);
        if is_blank(ms[0]) {
            lemma_first_nonblank_unique(ms, 0, 1);
            assert(reduce_lines(ms) == Seq::<Seq<char>>::empty());
            assert(join_lines(reduce_lines(ms)) =~= trimmed(ms[0]));
        } else {
            lemma_first_nonblank_unique(ms, 0, 0);
            lemma_last_nonblank_unique(ms, 1, 0);
            let wnd = ms.subrange(0, 1);
            assert(wnd =~~= ms);
            let w1 = wnd.update(0, trim_left(wnd[0]));
            let w = w1.update(0, trim_right(w1[0]));
            assert(w == reduce_lines(ms));
            assert(w[0] == trimmed(ms[0]));
            assert(join_lines(w) == trimmed(ms[0]));
        }
    } else if is_blank(ms[0]) {
        let rest = ms.skip(1);
        assert forall|i: int| 0 <= i < rest.len() implies nl_free(#[trigger] rest[i]) by {
            assert(rest[i] == ms[i + 1]);
        }
        lemma_reduce_drop_first(ms);
        lemma_join_reduce_trimmed(rest);
        let p = ms[0] + seq!['\n'];
        assert(is_blank(p)) by {
            assert forall|i: int| 0 <= i < p.len() implies is_ws_char(#[trigger] p[i]) by {
                if i < ms[0].len() {
                    assert(p[i] == ms[0][i]);
                }
            }
        }
        lemma_blank_prefix_trimmed(p, join_lines(rest));
        assert(join_lines(ms) =~= p + join_lines(rest));
        assert(trimmed(join_lines(ms)) == trimmed(join_lines(rest)));
    } else if is_blank(ms[ms.len() - 1]) {
        let rest = ms.take(ms.len() - 1);
        assert forall|i: int| 0 <= i < rest.len() implies nl_free(#[trigger] rest[i]) by {
            assert(rest[i] == ms[i]);
        }
        lemma_reduce_drop_last(ms);
        lemma_join_reduce_trimmed(rest);
        let q = seq!['\n'] + ms[ms.len() - 1];
        assert(is_blank(q)) by {
            assert forall|i: int| 0 <= i < q.len() implies is_ws_char(#[trigger] q[i]) by {
                if i >= 1 {
                    assert(q[i] == ms[ms.len() - 1][i - 1]);
                }
            }
        }
        lemma_blank_suffix_trimmed(join_lines(rest), q);
        lemma_join_lines_push(rest, ms[ms.len() - 1]);
        assert(rest.push(ms[ms.len() - 1]) =~~= ms);
        assert(join_lines(ms) =~= join_lines(rest) + q);
        assert(trimmed(join_lines(ms)) == trimmed(join_lines(rest)));
    } else {
        // neither edge line is blank: the reduced sequence keeps every
        // line and only trims the two edges
        let n = ms.len() as int;
        lemma_first_nonblank_unique(ms, 0, 0);
        lemma_last_nonblank_unique(ms, n, n - 1);
        let wnd = ms.subrange(0, n);
        assert(wnd =~~= ms);
        let w1 = wnd.update(0, trim_left(wnd[0]));
        let w = w1.update(w1.len() - 1, trim_right(w1[w1.len() - 1]));
        assert(w == reduce_lines(ms));
        let first = ms[0];
        let last = ms[n - 1];
        lemma_ws_prefix(first);
        lemma_ws_suffix(last);
        lemma_trimmed_basic(first);
        lemma_trimmed_basic(last);
        let p0 = ws_prefix_len(first);
        let q0 = ws_suffix_len(last);
        assert(p0 < first.len()) by {
            if p0 == first.len() {
                assert(is_blank(first));
            }
        }
        assert(q0 < last.len()) by {
            if q0 == last.len() {
                assert forall|i: int| 0 <= i < last.len() implies is_ws_char(
                    #[trigger] last[i],
                ) by {}
                assert(is_blank(last));
            }
        }
        let j = join_lines(ms);
        let mid = ms.subrange(1, n - 1);
        // decompose both joins around the first and last lines
        lemma_join_lines_push(ms.take(n - 1), last);
        assert(ms.take(n - 1).push(last) =~~= ms);
        assert(j == join_lines(ms.take(n - 1)) + seq!['\n'] + last);
        assert(j == ms[0] + seq!['\n'] + join_lines(ms.skip(1)));
        // the whitespace prefix of the join is the first line's
        assert forall|i: int| 0 <= i < p0 implies is_ws_char(#[trigger] j[i]) by {
            assert(j[i] == first[i]);
        }
        assert(j[p0] == first[p0]);
        lemma_ws_prefix_unique(j, p0);
        // the whitespace suffix of the join is the last line's
        assert forall|i: int| j.len() - q0 <= i < j.len() implies is_ws_char(#[trigger] j[i]) by {
            assert(j[i] == last[i - (j.len() - last.len())]);
        }
        assert(j[j.len() - q0 - 1] == last[last.len() - q0 - 1]);
        lemma_ws_suffix_unique(j, q0);
        assert(!is_blank(j)) by {
            assert(j[p0] == first[p0]);
            if is_blank(j) {
                assert(is_ws_char(j[p0]));
            }
        }
        lemma_trimmed_subrange(j);
        assert(trimmed(j) == j.subrange(p0, j.len() - q0));
        // the reduced join is the same subrange, assembled piecewise
        if n == 2 {
            assert(w =~~= seq![trim_left(first)] + seq![trim_right(last)]);
            lemma_join_lines_append(seq![trim_left(first)], seq![trim_right(last)]);
            assert(join_lines(w) == trim_left(first) + seq!['\n'] + trim_right(last));
            assert(join_lines(ms.skip(1)) == last) by {
                assert(ms.skip(1) =~~= seq![last]);
            }
            assert(j =~= first + seq!['\n'] + last);
            assert(join_lines(w) =~= trimmed(j));
        } else {
            assert(w =~~= seq![trim_left(first)] + mid + seq![trim_right(last)]);
            lemma_join_lines_append(seq![trim_left(first)], mid + seq![trim_right(last)]);
            lemma_join_lines_append(mid, seq![trim_right(last)]);
            assert(join_lines(w) == trim_left(first) + seq!['\n'] + (join_lines(mid) + seq!['\n']
                + trim_right(last))) by {
                assert(seq![trim_left(first)] + (mid + seq![trim_right(last)]) =~~= w);
                assert(join_lines(seq![trim_left(first)]) == trim_left(first));
                assert(join_lines(seq![trim_right(last)]) == trim_right(last));
            }
            lemma_join_lines_append(mid, seq![last]);
            assert(join_lines(ms.skip(1)) == join_lines(mid) + seq!['\n'] + last) by {
                assert(mid + seq![last] =~~= ms.skip(1));
                assert(join_lines(seq![last]) == last);
            }
            assert(j =~= first + seq!['\n'] + join_lines(mid) + seq!['\n'] + last);
            assert(join_lines(w) =~= trimmed(j));
        }
    }
}

/// The fallback result is exactly the input trimmed of surrounding
/// whitespace.
pub proof fn lemma_fallback_is_trimmed(x: Seq<char>)
    ensures
        fallback_of(x) == trimmed(x),
{
    lemma_lines_basic(x);
    lemma_join_reduce_trimmed(lines_of(x));
    lemma_join_lines_of(x);
}

/// A successful extraction result is free of fence delimiters: no line of
/// it is a bare fence, so it can never be mistaken for fenced text again.
pub proof fn lemma_extract_success_fence_free(x: Seq<char>)
    requires
        extraction_succeeds(x),
    ensures
        forall|i: int|
            0 <= i < lines_of(spec_extract(x)).len() ==> !is_bare_fence(
                #[trigger] lines_of(spec_extract(x))[i],
            ),
{
    let ls = lines_of(x);
    lemma_lines_basic(x);
    let o = chosen_opener(ls);
    lemma_first_tagged(ls, 0);
    lemma_first_bare(ls, 0);
    lemma_first_bare(ls, o + 1);
    let c = first_bare_at(ls, o + 1);
    let cap = ls.subrange(o + 1, c);
    let m = reduce_lines(cap);
    assert(spec_extract(x) == join_lines(m));
    assert forall|i: int| 0 <= i < cap.len() implies nl_free(#[trigger] cap[i]) by {
        assert(cap[i] == ls[o + 1 + i]);
    }
    lemma_reduce_lines_join(cap);
    assert(m.len() > 0);
    assert(lines_of(spec_extract(x)) == m);
    lemma_reduce_lines(cap);
    lemma_first_nonblank(cap, 0);
    let ac = first_nonblank_at(cap, 0);
    assert forall|i: int| 0 <= i < m.len() implies !is_bare_fence(#[trigger] m[i]) by {
        lemma_classification(m[i]);
        lemma_classification(cap[ac + i]);
        assert(trimmed(m[i]) == trimmed(cap[ac + i]));
        assert(cap[ac + i] == ls[o + 1 + ac + i]);
        assert(!is_bare_fence(ls[o + 1 + ac + i]));
    }
}

/// Extraction is idempotent: applying it to its own output returns that
/// output unchanged, for every input.
pub proof fn lemma_extract_idempotent(x: Seq<char>)
    ensures
        spec_extract(spec_extract(x)) == spec_extract(x),
{
    if extraction_succeeds(x) {
        lemma_idempotent_success(x);
    } else {
        lemma_idempotent_fallback(x);
    }
}

/// Whether `c` counts as whitespace for trimming.
fn is_ws(c: char) -> (r: bool)
    ensures
        r == is_ws_char(c),
{
    c == ' ' || c == '\t' || c == '\r' || c == '\n'
}

/// A span table is faithful to the line decomposition of `s`: one span per
/// line, in order, each holding its line's character range.
pub open spec fn spans_ok(sp: Seq<(usize, usize)>, s: Seq<char>) -> bool {
    &&& sp.len() == lines_of(s).len()
    &&& forall|i: int|
        0 <= i < sp.len() ==> (#[trigger] sp[i]).0 <= sp[i].1 <= s.len() && s.subrange(
            sp[i].0 as int,
            sp[i].1 as int,
        ) == lines_of(s)[i]
}

/// Computes the character range of every line of `s`.
fn line_spans(s: &str) -> (r: Vec<(usize, usize)>)
    ensures
        spans_ok(r@, s@),
{
    let n = s.unicode_len();
    let mut spans: Vec<(usize, usize)> = Vec::new();
    let mut start: usize = 0;
    let mut i: usize = 0;
    proof {
        lemma_lines_basic(s@);
        assert(s@.skip(0) =~= s@);
    }
    while i < n
        invariant
            n == s@.len(),
            start <= i <= n,
            spans@.len() <= lines_of(s@).len(),
            forall|k: int|
                0 <= k < spans@.len() ==> (#[trigger] spans@[k]).0 <= spans@[k].1 <= n
                    && s@.subrange(spans@[k].0 as int, spans@[k].1 as int) == lines_of(s@)[k],
            lines_of(s@).skip(spans@.len() as int) == lines_of(s@.skip(start as int)),
            forall|j: int| start <= j < i ==> s@[j] != '\n',
        decreases n - i,
    {
        let c = s.get_char(i);
        if c == '\n' {
            let ghost cur = s@.subrange(start as int, i as int);
            proof {
                assert(nl_free(cur));
                assert(s@.skip(start as int) =~= cur + seq!['\n'] + s@.skip(i + 1));
                lemma_lines_concat(cur, s@.skip(i + 1));
                lemma_lines_basic(s@.skip(i + 1));
                let l0 = spans@.len() as int;
                assert(lines_of(s@).skip(l0) == seq![cur] + lines_of(s@.skip(i + 1)));
                assert(lines_of(s@).len() == l0 + 1 + lines_of(s@.skip(i + 1)).len());
                assert(lines_of(s@).skip(l0)[0] == lines_of(s@)[l0]);
                assert(lines_of(s@)[l0] == cur);
                assert forall|m: int| 0 <= m < lines_of(s@.skip(i + 1)).len() implies lines_of(
                    s@,
                ).skip(l0 + 1)[m] == #[trigger] lines_of(s@.skip(i + 1))[m] by {
                    assert(lines_of(s@).skip(l0 + 1)[m] == lines_of(s@)[l0 + 1 + m]);
                    assert(lines_of(s@).skip(l0)[m + 1] == lines_of(s@)[l0 + 1 + m]);
                    assert((seq![cur] + lines_of(s@.skip(i + 1)))[m + 1] == lines_of(
                        s@.skip(i + 1),
                    )[m]);
                }
                assert(lines_of(s@).skip(l0 + 1) =~~= lines_of(s@.skip(i + 1)));
            }
            spans.push((start, i));
            start = i + 1;
        }
        i += 1;
    }
    let ghost tail = s@.subrange(start as int, n as int);
    proof {
        assert(tail =~= s@.skip(start as int));
        assert(nl_free(tail));
        lemma_lines_of_nl_free(tail);
        let l0 = spans@.len() as int;
        assert(lines_of(s@).skip(l0) == seq![tail]);
        assert(lines_of(s@).len() == l0 + 1);
        assert(lines_of(s@).skip(l0)[0] == lines_of(s@)[l0]);
        assert(lines_of(s@)[l0] == tail);
    }
    spans.push((start, n));
    spans
}

/// The maximal whitespace prefix and suffix bounds of the line
/// `s[a..b]`: returns `(a + prefix length, b - suffix length)`.
fn trim_bounds(s: &str, a: usize, b: usize) -> (r: (usize, usize))
    requires
        a <= b <= s@.len(),
    ensures
        ({
            let l = s@.subrange(a as int, b as int);
            &&& r.0 == a + ws_prefix_len(l)
            &&& r.1 == b - ws_suffix_len(l)
            &&& a <= r.0 <= b
            &&& a <= r.1 <= b
        }),
{
    let ghost l = s@.subrange(a as int, b as int);
    let mut j: usize = a;
    while j < b && is_ws(s.get_char(j))
        invariant
            a <= j <= b <= s@.len(),
            forall|m: int| a <= m < j ==> is_ws_char(#[trigger] s@[m]),
        decreases b - j,
    {
        j += 1;
    }
    proof {
        assert forall|m: int| 0 <= m < j - a implies is_ws_char(#[trigger] l[m]) by {
            assert(l[m] == s@[a + m]);
        }
        if j < b {
            assert(l[j - a] == s@[j as int]);
        }
        lemma_ws_prefix_unique(l, j - a);
    }
    let mut k: usize = b;
    while k > a && is_ws(s.get_char(k - 1))
        invariant
            a <= k <= b <= s@.len(),
            forall|m: int| k <= m < b ==> is_ws_char(#[trigger] s@[m]),
        decreases k,
    {
        k -= 1;
    }
    proof {
        assert forall|m: int| l.len() - (b - k) <= m < l.len() implies is_ws_char(
            #[trigger] l[m],
        ) by {
            assert(l[m] == s@[a + m]);
        }
        if k > a {
            assert(l[l.len() - (b - k) - 1] == s@[k - 1]);
        }
        lemma_ws_suffix_unique(l, b - k);
    }
    (j, k)
}

/// Whether the line `s[a..b]` consists of whitespace only.
fn blank_line(s: &str, a: usize, b: usize) -> (r: bool)
    requires
        a <= b <= s@.len(),
    ensures
        r == is_blank(s@.subrange(a as int, b as int)),
{
    let ghost l = s@.subrange(a as int, b as int);
    let (j, _k) = trim_bounds(s, a, b);
    proof {
        lemma_ws_prefix(l);
        if j == b {
            assert forall|m: int| 0 <= m < l.len() implies is_ws_char(#[trigger] l[m]) by {
                assert(is_ws_char(l[m]));
            }
        } else {
            assert(!is_ws_char(l[j - a]));
        }
    }
    j == b
}

/// Whether the line `s[a..b]` opens a subtitle-tagged fence.
fn tagged_line(s: &str, a: usize, b: usize) -> (r: bool)
    requires
        a <= b <= s@.len(),
    ensures
        r == is_tagged_opener(s@.subrange(a as int, b as int)),
{
    let ghost l = s@.subrange(a as int, b as int);
    let (j, _k) = trim_bounds(s, a, b);
    proof {
        lemma_ws_prefix(l);
        assert(trim_left(l) =~= s@.subrange(j as int, b as int));
    }
    if b - j >= 6 {
        let r = s.get_char(j) == '`' && s.get_char(j + 1) == '`' && s.get_char(j + 2) == '`'
            && s.get_char(j + 3) == 's' && s.get_char(j + 4) == 'r' && s.get_char(j + 5) == 't';
        proof {
            let t = trim_left(l);
            assert(t.len() >= 6);
            assert(t[0] == s@[j as int]);
            assert(t[1] == s@[j + 1]);
            assert(t[2] == s@[j + 2]);
            assert(t[3] == s@[j + 3]);
            assert(t[4] == s@[j + 4]);
            assert(t[5] == s@[j + 5]);
            if r {
                assert(t.subrange(0, 6) =~= tagged_fence_chars());
            } else {
                assert(t.subrange(0, 6) != tagged_fence_chars()) by {
                    if t.subrange(0, 6) == tagged_fence_chars() {
                        assert(t.subrange(0, 6)[0] == '`');
                        assert(t.subrange(0, 6)[1] == '`');
                        assert(t.subrange(0, 6)[2] == '`');
                        assert(t.subrange(0, 6)[3] == 's');
                        assert(t.subrange(0, 6)[4] == 'r');
                        assert(t.subrange(0, 6)[5] == 't');
                    }
                }
            }
        }
        r
    } else {
        proof {
            assert(trim_left(l).len() < 6);
        }
        false
    }
}

/// Whether the line `s[a..b]` is a bare fence.
fn bare_line(s: &str, a: usize, b: usize) -> (r: bool)
    requires
        a <= b <= s@.len(),
    ensures
        r == is_bare_fence(s@.subrange(a as int, b as int)),
{
    let ghost l = s@.subrange(a as int, b as int);
    let (j, k) = trim_bounds(s, a, b);
    proof {
        lemma_ws_prefix(l);
        lemma_ws_suffix(l);
        lemma_trimmed_subrange(l);
    }
    if k > j && k - j == 3 {
        proof {
            assert(!is_blank(l)) by {
                if is_blank(l) {
                    lemma_ws_prefix_unique(l, l.len() as int);
                    assert(j == b);
                    lemma_ws_suffix_unique(l, l.len() as int);
                    assert(k == a);
                }
            }
            assert(trimmed(l) =~= s@.subrange(j as int, k as int));
        }
        let r = s.get_char(j) == '`' && s.get_char(j + 1) == '`' && s.get_char(j + 2) == '`';
        proof {
            let t = trimmed(l);
            assert(t.len() == 3);
            assert(t[0] == s@[j as int]);
            assert(t[1] == s@[j + 1]);
            assert(t[2] == s@[j + 2]);
            if r {
                assert(t =~= bare_fence_chars());
            } else {
                assert(t != bare_fence_chars()) by {
                    if t == bare_fence_chars() {
                        assert(t[0] == '`' && t[1] == '`' && t[2] == '`');
                    }
                }
            }
        }
        r
    } else {
        proof {
            if is_blank(l) {
                lemma_trimmed_basic(l);
                assert(trimmed(l).len() == 0);
            } else {
                assert(trimmed(l) == s@.subrange(j as int, k as int));
                assert(trimmed(l).len() == k - j);
            }
            assert(trimmed(l).len() != 3);
            assert(!is_bare_fence(l)) by {
                if trimmed(l) == bare_fence_chars() {
                    assert(trimmed(l).len() == 3);
                }
            }
        }
        false
    }
}

/// Finds the first tagged opener line at or after `from`.
fn find_first_tagged(s: &str, spans: &Vec<(usize, usize)>, from: usize) -> (r: usize)
    requires
        spans_ok(spans@, s@),
        from <= spans@.len(),
    ensures
        r == first_tagged_at(lines_of(s@), from as int),
{
    let ghost ls = lines_of(s@);
    let n = spans.len();
    let mut i: usize = from;
    while i < n
        invariant
            spans_ok(spans@, s@),
            n == spans@.len(),
            from <= i <= n,
            forall|j: int| from <= j < i ==> !is_tagged_opener(#[trigger] ls[j]),
            ls == lines_of(s@),
        decreases n - i,
    {
        let (a, b) = (spans[i].0, spans[i].1);
        if tagged_line(s, a, b) {
            proof {
                lemma_first_tagged_unique(ls, from as int, i as int);
            }
            return i;
        }
        i += 1;
    }
    proof {
        lemma_first_tagged_unique(ls, from as int, ls.len() as int);
    }
    n
}

/// Finds the first bare fence line at or after `from`.
fn find_first_bare(s: &str, spans: &Vec<(usize, usize)>, from: usize) -> (r: usize)
    requires
        spans_ok(spans@, s@),
        from <= spans@.len(),
    ensures
        r == first_bare_at(lines_of(s@), from as int),
{
    let ghost ls = lines_of(s@);
    let n = spans.len();
    let mut i: usize = from;
    while i < n
        invariant
            spans_ok(spans@, s@),
            n == spans@.len(),
            from <= i <= n,
            forall|j: int| from <= j < i ==> !is_bare_fence(#[trigger] ls[j]),
            ls == lines_of(s@),
        decreases n - i,
    {
        let (a, b) = (spans[i].0, spans[i].1);
        if bare_line(s, a, b) {
            proof {
                lemma_first_bare_unique(ls, from as int, i as int);
            }
            return i;
        }
        i += 1;
    }
    proof {
        lemma_first_bare_unique(ls, from as int, ls.len() as int);
    }
    n
}

/// Finds the first non-blank line in `lo..hi`, as an absolute index.
fn find_first_nonblank(s: &str, spans: &Vec<(usize, usize)>, lo: usize, hi: usize) -> (r: usize)
    requires
        spans_ok(spans@, s@),
        lo <= hi <= spans@.len(),
    ensures
        lo <= r <= hi,
        r - lo == first_nonblank_at(lines_of(s@).subrange(lo as int, hi as int), 0),
{
    let ghost ls = lines_of(s@);
    let ghost sub = ls.subrange(lo as int, hi as int);
    let mut i: usize = lo;
    while i < hi
        invariant
            spans_ok(spans@, s@),
            lo <= i <= hi <= spans@.len(),
            forall|j: int| 0 <= j < i - lo ==> is_blank(#[trigger] sub[j]),
            ls == lines_of(s@),
            sub == ls.subrange(lo as int, hi as int),
        decreases hi - i,
    {
        let (a, b) = (spans[i].0, spans[i].1);
        if !blank_line(s, a, b) {
            proof {
                assert(sub[i - lo] == ls[i as int]);
                lemma_first_nonblank_unique(sub, 0, i - lo);
            }
            return i;
        }
        proof {
            assert(sub[i - lo] == ls[i as int]);
        }
        i += 1;
    }
    proof {
        lemma_first_nonblank_unique(sub, 0, sub.len() as int);
    }
    hi
}

/// Finds the end of the last non-blank line in `lo..hi`: returns one past
/// its absolute index, or `lo` when every line in the range is blank.
fn find_last_nonblank(s: &str, spans: &Vec<(usize, usize)>, lo: usize, hi: usize) -> (r: usize)
    requires
        spans_ok(spans@, s@),
        lo <= hi <= spans@.len(),
    ensures
        lo <= r <= hi,
        r == lo + last_nonblank_before(
            lines_of(s@).subrange(lo as int, hi as int),
            hi - lo,
        ) + 1,
{
    let ghost ls = lines_of(s@);
    let ghost sub = ls.subrange(lo as int, hi as int);
    let mut i: usize = hi;
    while i > lo
        invariant
            spans_ok(spans@, s@),
            lo <= i <= hi <= spans@.len(),
            forall|j: int| i - lo <= j < hi - lo ==> is_blank(#[trigger] sub[j]),
            ls == lines_of(s@),
            sub == ls.subrange(lo as int, hi as int),
        decreases i,
    {
        let (a, b) = (spans[i - 1].0, spans[i - 1].1);
        if !blank_line(s, a, b) {
            proof {
                assert(sub[i - 1 - lo] == ls[i - 1]);
                lemma_last_nonblank_unique(sub, hi - lo, i - 1 - lo);
            }
            return i;
        }
        proof {
            assert(sub[i - 1 - lo] == ls[i - 1]);
        }
        i -= 1;
    }
    proof {
        lemma_last_nonblank_unique(sub, hi - lo, -1);
    }
    lo
}

/// Joins the lines `lo..hi` of `s` after reducing them: blank edge lines
/// dropped and the surrounding whitespace of the remainder trimmed away.
fn build_reduced(s: &str, spans: &Vec<(usize, usize)>, lo: usize, hi: usize) -> (r: String)
    requires
        spans_ok(spans@, s@),
        lo <= hi <= spans@.len(),
    ensures
        r@ == join_lines(reduce_lines(lines_of(s@).subrange(lo as int, hi as int))),
{
    let ghost ls = lines_of(s@);
    let ghost sub = ls.subrange(lo as int, hi as int);
    let ghost w = reduce_lines(sub);
    proof {
        lemma_reduce_lines(sub);
        lemma_first_nonblank(sub, 0);
    }
    let a2 = find_first_nonblank(s, spans, lo, hi);
    if a2 == hi {
        proof {
            assert(first_nonblank_at(sub, 0) == sub.len());
            assert(w == Seq::<Seq<char>>::empty());
        }
        return String::new();
    }
    let b2 = find_last_nonblank(s, spans, lo, hi);
    proof {
        assert(first_nonblank_at(sub, 0) < sub.len());
        assert(w.len() == b2 - a2);
    }
    let mut out = String::new();
    let mut idx = a2;
    while idx < b2
        invariant
            spans_ok(spans@, s@),
            lo <= a2 <= idx <= b2 <= hi <= spans@.len(),
            ls == lines_of(s@),
            sub == ls.subrange(lo as int, hi as int),
            w == reduce_lines(sub),
            w.len() == b2 - a2,
            a2 - lo == first_nonblank_at(sub, 0),
            b2 - lo == last_nonblank_before(sub, sub.len() as int) + 1,
            idx > a2 ==> out@ == join_lines(w.take(idx - a2)),
            idx == a2 ==> out@ == Seq::<char>::empty(),
        decreases b2 - idx,
    {
        let (a, b) = (spans[idx].0, spans[idx].1);
        let (j, k) = trim_bounds(s, a, b);
        let ghost l = s@.subrange(a as int, b as int);
        let ghost m: int = idx - a2;
        proof {
            lemma_reduce_lines(sub);
            assert(sub[a2 - lo + m] == ls[idx as int]);
            assert(l == ls[idx as int]);
        }
        let from: usize = if idx == a2 {
            j
        } else {
            a
        };
        let to: usize = if idx == b2 - 1 {
            k
        } else {
            b
        };
        proof {
            lemma_ws_prefix(l);
            lemma_ws_suffix(l);
            lemma_trimmed_subrange(l);
            if idx == a2 && idx == b2 - 1 {
                assert(!is_blank(l)) by {
                    assert(trimmed(w[0]) == trimmed(sub[a2 - lo]));
                    lemma_trimmed_basic(w[0]);
                    lemma_trimmed_basic(l);
                }
                assert(w[m as int] == trimmed(l));
                assert(trimmed(l) =~= s@.subrange(j as int, k as int));
                assert(from <= to);
            } else if idx == a2 {
                assert(w[m as int] == trim_left(l));
                assert(trim_left(l) =~= s@.subrange(j as int, b as int));
            } else if idx == b2 - 1 {
                assert(w[m as int] == trim_right(l));
                assert(trim_right(l) =~= s@.subrange(a as int, k as int));
            } else {
                assert(1 <= m < w.len() - 1);
                assert(w[m as int] == sub[a2 - lo + m]);
                assert(w[m as int] == l);
                assert(l =~= s@.subrange(a as int, b as int));
            }
        }
        let piece = s.substring_char(from, to);
        proof {
            assert(piece@ == w[m as int]);
        }
        if idx > a2 {
            out.append("\n");
            proof {
                reveal_strlit("\n");
                assert("\n"@ =~= seq!['\n']);
                lemma_join_lines_push(w.take(m), w[m as int]);
                assert(w.take(m).push(w[m as int]) =~~= w.take(m + 1));
            }
            out.append(piece);
            proof {
                assert(out@ == join_lines(w.take(m)) + seq!['\n'] + w[m as int]);
                assert(out@ == join_lines(w.take(m + 1)));
            }
        } else {
            out.append(piece);
            proof {
                assert(out@ =~= w[0]);
                assert(w.take(1).len() == 1);
                assert(w.take(1)[0] == w[0]);
                assert(join_lines(w.take(1)) == w[0]);
            }
        }
        idx += 1;
    }
    proof {
        assert(w.take(w.len() as int) =~~= w);
        assert(out@ == join_lines(w));
    }
    out
}

/// Recovers the canonical subtitle payload from generated text: the first
/// subtitle-tagged fenced block, else the first generic fenced block, else
/// the input trimmed of surrounding whitespace. `spec_extract` states the
/// exact policy; `lemma_extract_idempotent` and `lemma_extract_plain_text`
/// give its laws.
pub fn extract_srt_content(response: &str) -> (r: String)
    ensures
        r@ == spec_extract(response@),
        !extraction_succeeds(response@) ==> r@ == trimmed(response@),
{
    proof {
        lemma_fallback_is_trimmed(response@);
    }
    let ghost ls = lines_of(response@);
    let spans = line_spans(response);
    let n = spans.len();
    let t = find_first_tagged(response, &spans, 0);
    let o = if t < n {
        t
    } else {
        find_first_bare(response, &spans, 0)
    };
    proof {
        lemma_first_tagged(ls, 0);
        lemma_first_bare(ls, 0);
        assert(o == chosen_opener(ls));
    }
    if o < n {
        proof {
            lemma_first_bare(ls, o + 1 as int);
        }
        let c = find_first_bare(response, &spans, o + 1);
        if c < n {
            let out = build_reduced(response, &spans, o + 1, c);
            if out.unicode_len() > 0 {
                proof {
                    assert(out@ == join_lines(
                        reduce_lines(ls.subrange(o + 1 as int, c as int)),
                    ));
                }
                return out;
            }
        }
    }
    let out = build_reduced(response, &spans, 0, n);
    proof {
        assert(ls.subrange(0, n as int) =~~= ls);
        assert(out@ == fallback_of(response@));
        if o < n {
            let c = first_bare_at(ls, o + 1);
            lemma_first_bare(ls, o + 1);
            if c < ls.len() {
                assert(join_lines(reduce_lines(ls.subrange(o + 1, c))).len() == 0);
            }
        }
    }
    out
}

} // verus!
