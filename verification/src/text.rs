//! Character-level text model: whitespace, trimming, and line splitting.
//!
//! All contracts in this crate speak about text as `Seq<char>`. This module
//! defines the whitespace predicate, left/right trimming, splitting a text
//! into lines at `'\n'`, and joining lines back, together with the lemmas
//! the rest of the crate builds on.

use vstd::prelude::*;

verus! {

/// The whitespace characters recognized by this crate's trimming.
pub open spec fn is_ws_char(c: char) -> bool {
    c == ' ' || c == '\t' || c == '\r' || c == '\n'
}

/// A text is blank when every character is whitespace (the empty text is blank).
pub open spec fn is_blank(s: Seq<char>) -> bool {
    forall|i: int| 0 <= i < s.len() ==> is_ws_char(#[trigger] s[i])
}

/// Length of the maximal whitespace prefix of `s`.
pub open spec fn ws_prefix_len(s: Seq<char>) -> int
    decreases s.len(),
{
    if s.len() == 0 || !is_ws_char(s[0]) {
        0
    } else {
        1 + ws_prefix_len(s.skip(1))
    }
}

/// Length of the maximal whitespace suffix of `s`.
pub open spec fn ws_suffix_len(s: Seq<char>) -> int
    decreases s.len(),
{
    if s.len() == 0 || !is_ws_char(s[s.len() - 1]) {
        0
    } else {
        1 + ws_suffix_len(s.take(s.len() - 1))
    }
}

/// `s` without its maximal whitespace prefix.
pub open spec fn trim_left(s: Seq<char>) -> Seq<char> {
    s.skip(ws_prefix_len(s))
}

/// `s` without its maximal whitespace suffix.
pub open spec fn trim_right(s: Seq<char>) -> Seq<char> {
    s.take(s.len() - ws_suffix_len(s))
}

/// `s` without surrounding whitespace.
pub open spec fn trimmed(s: Seq<char>) -> Seq<char> {
    trim_right(trim_left(s))
}

/// The whitespace prefix is in bounds, consists of whitespace, and is maximal.
pub proof fn lemma_ws_prefix(s: Seq<char>)
    ensures
        0 <= ws_prefix_len(s) <= s.len(),
        forall|i: int| 0 <= i < ws_prefix_len(s) ==> is_ws_char(#[trigger] s[i]),
        ws_prefix_len(s) < s.len() ==> !is_ws_char(s[ws_prefix_len(s)]),
    decreases s.len(),
{
    if s.len() == 0 || !is_ws_char(s[0]) {
    } else {
        lemma_ws_prefix(s.skip(1));
        assert forall|i: int| 0 <= i < ws_prefix_len(s) implies is_ws_char(#[trigger] s[i]) by {
            if i > 0 {
                assert(s.skip(1)[i - 1] == s[i]);
            }
        }
        if ws_prefix_len(s) < s.len() {
            assert(s.skip(1)[ws_prefix_len(s) - 1] == s[ws_prefix_len(s)]);
        }
    }
}

/// A text neither starts nor ends with whitespace.
pub open spec fn is_char_trimmed(s: Seq<char>) -> bool {
    s.len() == 0 || (!is_ws_char(s[0]) && !is_ws_char(s[s.len() - 1]))
}

/// The whitespace suffix is in bounds, consists of whitespace, and is maximal.
pub proof fn lemma_ws_suffix(s: Seq<char>)
    ensures
        0 <= ws_suffix_len(s) <= s.len(),
        forall|i: int| s.len() - ws_suffix_len(s) <= i < s.len() ==> is_ws_char(#[trigger] s[i]),
        ws_suffix_len(s) < s.len() ==> !is_ws_char(s[s.len() - ws_suffix_len(s) - 1]),
    decreases s.len(),
{
    if s.len() == 0 || !is_ws_char(s[s.len() - 1]) {
    } else {
        lemma_ws_suffix(s.take(s.len() - 1));
        assert forall|i: int| s.len() - ws_suffix_len(s) <= i < s.len() implies is_ws_char(
            #[trigger] s[i],
        ) by {
            if i < s.len() - 1 {
                assert(s.take(s.len() - 1)[i] == s[i]);
            }
        }
        if ws_suffix_len(s) < s.len() {
            assert(s.take(s.len() - 1)[s.len() - ws_suffix_len(s) - 1]
                == s[s.len() - ws_suffix_len(s) - 1]);
        }
    }
}

/// Any maximal whitespace prefix has the length `ws_prefix_len` gives.
pub proof fn lemma_ws_prefix_unique(s: Seq<char>, k: int)
    requires
        0 <= k <= s.len(),
        forall|i: int| 0 <= i < k ==> is_ws_char(#[trigger] s[i]),
        k < s.len() ==> !is_ws_char(s[k]),
    ensures
        ws_prefix_len(s) == k,
{
    lemma_ws_prefix(s);
    let p = ws_prefix_len(s);
    if k < p {
        assert(is_ws_char(s[k]));
    } else if p < k {
        assert(is_ws_char(s[p]));
    }
}

/// Any maximal whitespace suffix has the length `ws_suffix_len` gives.
pub proof fn lemma_ws_suffix_unique(s: Seq<char>, k: int)
    requires
        0 <= k <= s.len(),
        forall|i: int| s.len() - k <= i < s.len() ==> is_ws_char(#[trigger] s[i]),
        k < s.len() ==> !is_ws_char(s[s.len() - k - 1]),
    ensures
        ws_suffix_len(s) == k,
{
    lemma_ws_suffix(s);
    let q = ws_suffix_len(s);
    if k < q {
        assert(is_ws_char(s[s.len() - k - 1]));
    } else if q < k {
        assert(is_ws_char(s[s.len() - q - 1]));
    }
}

/// On a blank text trimming leaves nothing; on any other text the trimmed
/// form is the subrange between the maximal whitespace prefix and suffix.
pub proof fn lemma_trimmed_subrange(s: Seq<char>)
    ensures
        is_blank(s) ==> trimmed(s) == Seq::<char>::empty(),
        !is_blank(s) ==> {
            let p = ws_prefix_len(s);
            let q = ws_suffix_len(s);
            &&& 0 <= p
            &&& p + q < s.len()
            &&& trimmed(s) == s.subrange(p, s.len() - q)
        },
{
    lemma_ws_prefix(s);
    lemma_ws_suffix(s);
    let p = ws_prefix_len(s);
    let q = ws_suffix_len(s);
    if is_blank(s) {
        lemma_ws_prefix_unique(s, s.len() as int);
        assert(trim_left(s) =~= Seq::<char>::empty());
        lemma_ws_suffix_unique(Seq::<char>::empty(), 0);
        assert(trimmed(s) =~= Seq::<char>::empty());
    } else {
        let w = choose|i: int| 0 <= i < s.len() && !is_ws_char(s[i]);
        assert(p < s.len()) by {
            if p == s.len() {
                assert(is_ws_char(s[w]));
            }
        }
        assert(p + q < s.len()) by {
            // the first non-whitespace character cannot lie inside the
            // whitespace suffix
            if p + q >= s.len() {
                assert(is_ws_char(s[p]));
            }
        }
        let t = trim_left(s);
        assert(t =~= s.subrange(p, s.len() as int));
        assert forall|i: int| t.len() - q <= i < t.len() implies is_ws_char(#[trigger] t[i]) by {
            assert(t[i] == s[p + i]);
        }
        assert(!is_ws_char(t[t.len() - q - 1])) by {
            assert(t[t.len() - q - 1] == s[s.len() - q - 1]);
        }
        lemma_ws_suffix_unique(t, q);
        assert(trimmed(s) =~= s.subrange(p, s.len() - q));
    }
}

/// The trimmed form of a text neither starts nor ends with whitespace,
/// and trimming a text that already has that shape changes nothing.
pub proof fn lemma_trimmed_basic(s: Seq<char>)
    ensures
        is_char_trimmed(trimmed(s)),
        is_char_trimmed(s) ==> trimmed(s) == s,
        is_blank(s) <==> trimmed(s).len() == 0,
{
    lemma_ws_prefix(s);
    lemma_ws_suffix(s);
    lemma_trimmed_subrange(s);
    if is_blank(s) {
        if is_char_trimmed(s) {
            assert(s.len() == 0) by {
                if s.len() > 0 {
                    assert(is_ws_char(s[0]));
                }
            }
            assert(trimmed(s) =~= s);
        }
    } else {
        let p = ws_prefix_len(s);
        let q = ws_suffix_len(s);
        assert(trimmed(s)[0] == s[p]);
        assert(trimmed(s)[trimmed(s).len() - 1] == s[s.len() - q - 1]);
        let w = choose|i: int| 0 <= i < s.len() && !is_ws_char(s[i]);
        if is_char_trimmed(s) {
            lemma_ws_prefix_unique(s, 0);
            lemma_ws_suffix_unique(s, 0);
            assert(trimmed(s) =~= s);
        }
        assert(trimmed(s).len() > 0);
    }
}

/// Left- or right-trimming first does not change the fully trimmed form.
pub proof fn lemma_trimmed_of_trims(s: Seq<char>)
    ensures
        trimmed(trim_left(s)) == trimmed(s),
        trimmed(trim_right(s)) == trimmed(s),
        is_blank(trim_left(s)) == is_blank(s),
        is_blank(trim_right(s)) == is_blank(s),
{
    lemma_ws_prefix(s);
    lemma_ws_suffix(s);
    lemma_trimmed_subrange(s);
    let p = ws_prefix_len(s);
    let q = ws_suffix_len(s);
    if is_blank(s) {
        lemma_ws_prefix_unique(s, s.len() as int);
        assert(trim_left(s) =~= Seq::<char>::empty());
        lemma_ws_suffix_unique(s, s.len() as int);
        assert(trim_right(s) =~= Seq::<char>::empty());
        lemma_trimmed_subrange(trim_left(s));
        lemma_trimmed_subrange(trim_right(s));
        assert(is_blank(trim_left(s)));
        assert(is_blank(trim_right(s)));
    } else {
        let tl = trim_left(s);
        let tr = trim_right(s);
        assert(tl =~= s.subrange(p, s.len() as int));
        assert(tr =~= s.subrange(0, s.len() - q));
        assert(!is_blank(tl)) by {
            assert(!is_ws_char(tl[0]));
        }
        assert(!is_blank(tr)) by {
            assert(!is_ws_char(tr[tr.len() - 1]));
        }
        // trim_left(s) keeps its maximal whitespace suffix of length q
        lemma_ws_prefix_unique(tl, 0);
        assert forall|i: int| tl.len() - q <= i < tl.len() implies is_ws_char(#[trigger] tl[i]) by {
            assert(tl[i] == s[p + i]);
        }
        assert(tl[tl.len() - q - 1] == s[s.len() - q - 1]);
        lemma_ws_suffix_unique(tl, q);
        lemma_trimmed_subrange(tl);
        assert(trimmed(tl) =~= tl.subrange(0, tl.len() - q));
        assert(trimmed(tl) =~= s.subrange(p, s.len() - q));
        // trim_right(s) keeps its maximal whitespace prefix of length p
        assert forall|i: int| 0 <= i < p implies is_ws_char(#[trigger] tr[i]) by {
            assert(tr[i] == s[i]);
        }
        assert(tr[p] == s[p]);
        lemma_ws_prefix_unique(tr, p);
        lemma_ws_suffix_unique(tr, 0);
        lemma_trimmed_subrange(tr);
        assert(trimmed(tr) =~= tr.subrange(p, tr.len() as int));
        assert(trimmed(tr) =~= s.subrange(p, s.len() - q));
    }
}

/// Splitting a text into its lines at `'\n'`; the result always has at
/// least one line, and no line contains `'\n'`.
pub open spec fn lines_of(s: Seq<char>) -> Seq<Seq<char>>
    decreases s.len(),
{
    if s.len() == 0 {
        seq![Seq::<char>::empty()]
    } else if s[0] == '\n' {
        seq![Seq::<char>::empty()] + lines_of(s.skip(1))
    } else {
        let rest = lines_of(s.skip(1));
        seq![seq![s[0]] + rest[0]] + rest.skip(1)
    }
}

/// Joining lines with `'\n'` separators.
pub open spec fn join_lines(ms: Seq<Seq<char>>) -> Seq<char>
    decreases ms.len(),
{
    if ms.len() == 0 {
        Seq::<char>::empty()
    } else if ms.len() == 1 {
        ms[0]
    } else {
        ms[0] + seq!['\n'] + join_lines(ms.skip(1))
    }
}

/// A line is free of `'\n'`.
pub open spec fn nl_free(l: Seq<char>) -> bool {
    forall|i: int| 0 <= i < l.len() ==> #[trigger] l[i] != '\n'
}

/// Every split yields at least one line, and every line is `'\n'`-free.
pub proof fn lemma_lines_basic(s: Seq<char>)
    ensures
        lines_of(s).len() >= 1,
        forall|i: int| 0 <= i < lines_of(s).len() ==> nl_free(#[trigger] lines_of(s)[i]),
    decreases s.len(),
{
    if s.len() == 0 {
    } else {
        lemma_lines_basic(s.skip(1));
        if s[0] == '\n' {
        } else {
            let rest = lines_of(s.skip(1));
            assert(nl_free(seq![s[0]] + rest[0])) by {
                assert(nl_free(rest[0]));
                assert forall|i: int| 0 <= i < (seq![s[0]] + rest[0]).len() implies #[trigger] (
                seq![s[0]] + rest[0])[i] != '\n' by {
                    if i > 0 {
                        assert((seq![s[0]] + rest[0])[i] == rest[0][i - 1]);
                    }
                }
            }
            assert forall|i: int| 0 <= i < lines_of(s).len() implies nl_free(
                #[trigger] lines_of(s)[i],
            ) by {
                if i > 0 {
                    assert(lines_of(s)[i] == rest[i]);
                }
            }
        }
    }
}

/// A `'\n'`-free text is a single line.
pub proof fn lemma_lines_of_nl_free(s: Seq<char>)
    requires
        nl_free(s),
    ensures
        lines_of(s) == seq![s],
    decreases s.len(),
{
    if s.len() == 0 {
        assert(lines_of(s) =~~= seq![s]);
    } else {
        assert(nl_free(s.skip(1))) by {
            assert forall|i: int| 0 <= i < s.skip(1).len() implies #[trigger] s.skip(1)[i]
                != '\n' by {
                assert(s.skip(1)[i] == s[i + 1]);
            }
        }
        lemma_lines_of_nl_free(s.skip(1));
        assert(seq![s[0]] + s.skip(1) =~= s);
        let rest = lines_of(s.skip(1));
        assert(rest[0] == s.skip(1));
        assert(rest.skip(1) =~~= Seq::<Seq<char>>::empty());
        assert(lines_of(s) =~~= seq![s]);
    }
}

/// Prepending a `'\n'`-free line and a separator prepends one line.
pub proof fn lemma_lines_concat(p: Seq<char>, t: Seq<char>)
    requires
        nl_free(p),
    ensures
        lines_of(p + seq!['\n'] + t) == seq![p] + lines_of(t),
    decreases p.len(),
{
    let s = p + seq!['\n'] + t;
    if p.len() == 0 {
        assert(s =~= seq!['\n'] + t);
        assert(s[0] == '\n');
        assert(s.skip(1) =~= t);
        assert(lines_of(s) =~~= seq![p] + lines_of(t));
    } else {
        assert(nl_free(p.skip(1))) by {
            assert forall|i: int| 0 <= i < p.skip(1).len() implies #[trigger] p.skip(1)[i]
                != '\n' by {
                assert(p.skip(1)[i] == p[i + 1]);
            }
        }
        lemma_lines_concat(p.skip(1), t);
        assert(s[0] == p[0]);
        assert(s[0] != '\n');
        assert(s.skip(1) =~= p.skip(1) + seq!['\n'] + t);
        let rest = lines_of(s.skip(1));
        assert(rest == seq![p.skip(1)] + lines_of(t));
        assert(rest[0] == p.skip(1));
        assert(seq![s[0]] + rest[0] =~= p);
        assert(rest.skip(1) =~~= lines_of(t));
        assert(lines_of(s) =~~= seq![p] + lines_of(t));
    }
}

/// Joining the lines of a text restores the text.
pub proof fn lemma_join_lines_of(s: Seq<char>)
    ensures
        join_lines(lines_of(s)) == s,
    decreases s.len(),
{
    if s.len() == 0 {
    } else if s[0] == '\n' {
        lemma_join_lines_of(s.skip(1));
        lemma_lines_basic(s.skip(1));
        let ls = lines_of(s);
        assert(ls.len() >= 2);
        assert(ls[0] =~= Seq::<char>::empty());
        assert(ls.skip(1) =~~= lines_of(s.skip(1)));
        assert(join_lines(ls) == ls[0] + seq!['\n'] + join_lines(ls.skip(1)));
        assert(join_lines(ls) =~= s);
    } else {
        lemma_join_lines_of(s.skip(1));
        lemma_lines_basic(s.skip(1));
        let rest = lines_of(s.skip(1));
        let ls = lines_of(s);
        if rest.len() == 1 {
            assert(ls =~~= seq![seq![s[0]] + rest[0]]);
            assert(join_lines(ls) == seq![s[0]] + rest[0]);
            assert(join_lines(rest) == rest[0]);
            assert(join_lines(ls) =~= s);
        } else {
            assert(ls.len() >= 2);
            assert(ls[0] == seq![s[0]] + rest[0]);
            assert(ls.skip(1) =~~= rest.skip(1));
            assert(join_lines(rest) == rest[0] + seq!['\n'] + join_lines(rest.skip(1)));
            assert(join_lines(ls) == ls[0] + seq!['\n'] + join_lines(ls.skip(1)));
            assert(join_lines(ls.skip(1)) == join_lines(rest.skip(1)));
            assert(join_lines(ls) == (seq![s[0]] + rest[0]) + seq!['\n'] + join_lines(
                rest.skip(1),
            ));
            assert(s == seq![s[0]] + s.skip(1));
            assert(s.skip(1) == join_lines(rest));
            assert(join_lines(ls) =~= s);
        }
    }
}

/// Splitting a join of `'\n'`-free lines restores the lines.
pub proof fn lemma_lines_of_join(ms: Seq<Seq<char>>)
    requires
        ms.len() >= 1,
        forall|i: int| 0 <= i < ms.len() ==> nl_free(#[trigger] ms[i]),
    ensures
        lines_of(join_lines(ms)) == ms,
    decreases ms.len(),
{
    if ms.len() == 1 {
        lemma_lines_of_nl_free(ms[0]);
        assert(lines_of(join_lines(ms)) =~~= ms);
    } else {
        lemma_lines_of_join(ms.skip(1));
        lemma_lines_concat(ms[0], join_lines(ms.skip(1)));
        assert(lines_of(join_lines(ms)) =~~= seq![ms[0]] + ms.skip(1));
        assert(seq![ms[0]] + ms.skip(1) =~~= ms);
    }
}

/// Each trim operation is a fixpoint on its own output and leaves a fully
/// trimmed text alone.
pub proof fn lemma_trim_idem(s: Seq<char>)
    ensures
        trim_left(trim_left(s)) == trim_left(s),
        trim_right(trim_right(s)) == trim_right(s),
        trim_left(trimmed(s)) == trimmed(s),
        trim_right(trimmed(s)) == trimmed(s),
{
    lemma_ws_prefix(s);
    lemma_ws_suffix(s);
    lemma_trimmed_basic(s);
    let tl = trim_left(s);
    let tr = trim_right(s);
    if tl.len() == 0 {
        lemma_ws_prefix_unique(tl, 0);
        assert(trim_left(tl) =~= tl);
    } else {
        assert(!is_ws_char(tl[0])) by {
            assert(tl[0] == s[ws_prefix_len(s)]);
        }
        lemma_ws_prefix_unique(tl, 0);
        assert(trim_left(tl) =~= tl);
    }
    if tr.len() == 0 {
        lemma_ws_suffix_unique(tr, 0);
        assert(trim_right(tr) =~= tr);
    } else {
        assert(!is_ws_char(tr[tr.len() - 1])) by {
            assert(tr[tr.len() - 1] == s[s.len() - ws_suffix_len(s) - 1]);
        }
        lemma_ws_suffix_unique(tr, 0);
        assert(trim_right(tr) =~= tr);
    }
    let tm = trimmed(s);
    lemma_ws_prefix_unique(tm, 0);
    lemma_ws_suffix_unique(tm, 0);
    assert(trim_left(tm) =~= tm);
    assert(trim_right(tm) =~= tm);
}

/// Trimming cannot introduce `'\n'`.
pub proof fn lemma_trims_nl_free(l: Seq<char>)
    requires
        nl_free(l),
    ensures
        nl_free(trim_left(l)),
        nl_free(trim_right(l)),
        nl_free(trimmed(l)),
{
    lemma_ws_prefix(l);
    lemma_ws_suffix(l);
    assert forall|i: int| 0 <= i < trim_left(l).len() implies #[trigger] trim_left(l)[i]
        != '\n' by {
        assert(trim_left(l)[i] == l[ws_prefix_len(l) + i]);
    }
    assert forall|i: int| 0 <= i < trim_right(l).len() implies #[trigger] trim_right(l)[i]
        != '\n' by {
        assert(trim_right(l)[i] == l[i]);
    }
    let t = trim_left(l);
    lemma_ws_suffix(t);
    assert forall|i: int| 0 <= i < trimmed(l).len() implies #[trigger] trimmed(l)[i] != '\n' by {
        assert(trimmed(l)[i] == t[i]);
    }
}

/// Appending one more line appends a separator and that line.
pub proof fn lemma_join_lines_push(ms: Seq<Seq<char>>, l: Seq<char>)
    requires
        ms.len() >= 1,
    ensures
        join_lines(ms.push(l)) == join_lines(ms) + seq!['\n'] + l,
    decreases ms.len(),
{
    if ms.len() == 1 {
        assert(ms.push(l)[0] == ms[0]);
        assert(ms.push(l).skip(1) =~~= seq![l]);
        assert(join_lines(ms.push(l)) == ms.push(l)[0] + seq!['\n'] + join_lines(
            ms.push(l).skip(1),
        ));
        assert(join_lines(seq![l]) == l);
        assert(join_lines(ms.push(l)) == ms[0] + seq!['\n'] + l);
    } else {
        lemma_join_lines_push(ms.skip(1), l);
        assert(ms.push(l).skip(1) =~~= ms.skip(1).push(l));
        assert(ms.push(l)[0] == ms[0]);
        assert(join_lines(ms.push(l)) == ms[0] + seq!['\n'] + join_lines(ms.skip(1).push(l)));
        assert(join_lines(ms.push(l)) =~= join_lines(ms) + seq!['\n'] + l);
    }
}

/// A blank prefix does not change the trimmed form.
pub proof fn lemma_blank_prefix_trimmed(p: Seq<char>, y: Seq<char>)
    requires
        is_blank(p),
    ensures
        trimmed(p + y) == trimmed(y),
{
    let s = p + y;
    lemma_ws_prefix(y);
    let k = p.len() + ws_prefix_len(y);
    assert forall|i: int| 0 <= i < k implies is_ws_char(#[trigger] s[i]) by {
        if i < p.len() {
            assert(s[i] == p[i]);
        } else {
            assert(s[i] == y[i - p.len()]);
        }
    }
    if k < s.len() {
        assert(s[k] == y[ws_prefix_len(y)]);
    }
    lemma_ws_prefix_unique(s, k as int);
    assert(trim_left(s) =~= trim_left(y));
}

/// A blank suffix does not change the trimmed form.
pub proof fn lemma_blank_suffix_trimmed(y: Seq<char>, q: Seq<char>)
    requires
        is_blank(q),
    ensures
        trimmed(y + q) == trimmed(y),
{
    let s = y + q;
    lemma_ws_prefix(y);
    lemma_ws_suffix(y);
    if is_blank(y) {
        assert(is_blank(s)) by {
            assert forall|i: int| 0 <= i < s.len() implies is_ws_char(#[trigger] s[i]) by {
                if i < y.len() {
                    assert(s[i] == y[i]);
                } else {
                    assert(s[i] == q[i - y.len()]);
                }
            }
        }
        lemma_trimmed_subrange(s);
        lemma_trimmed_subrange(y);
    } else {
        // the whitespace prefixes agree, and the whitespace suffix of the
        // whole is the suffix of `y` extended by all of `q`
        let py = ws_prefix_len(y);
        assert forall|i: int| 0 <= i < py implies is_ws_char(#[trigger] s[i]) by {
            assert(s[i] == y[i]);
        }
        assert(py < y.len());
        assert(s[py] == y[py]);
        lemma_ws_prefix_unique(s, py);
        let qy = ws_suffix_len(y);
        let k = qy + q.len();
        assert forall|i: int| s.len() - k <= i < s.len() implies is_ws_char(#[trigger] s[i]) by {
            if i < y.len() {
                assert(s[i] == y[i]);
            } else {
                assert(s[i] == q[i - y.len()]);
            }
        }
        assert(qy < y.len()) by {
            if qy == y.len() {
                assert(is_ws_char(y[ws_prefix_len(y)]));
            }
        }
        assert(s[s.len() - k - 1] == y[y.len() - qy - 1]);
        lemma_ws_suffix_unique(s, k as int);
        lemma_trimmed_subrange(s);
        lemma_trimmed_subrange(y);
        assert(trimmed(s) =~= trimmed(y));
    }
}

/// Joining a concatenation of two non-empty line sequences joins each
/// and puts one separator between them.
pub proof fn lemma_join_lines_append(a: Seq<Seq<char>>, b: Seq<Seq<char>>)
    requires
        a.len() >= 1,
        b.len() >= 1,
    ensures
        join_lines(a + b) == join_lines(a) + seq!['\n'] + join_lines(b),
    decreases a.len(),
{
    if a.len() == 1 {
        assert((a + b)[0] == a[0]);
        assert((a + b).skip(1) =~~= b);
        assert(join_lines(a + b) == (a + b)[0] + seq!['\n'] + join_lines((a + b).skip(1)));
        assert(join_lines(a) == a[0]);
    } else {
        lemma_join_lines_append(a.skip(1), b);
        assert((a + b)[0] == a[0]);
        assert((a + b).skip(1) =~~= a.skip(1) + b);
        assert(join_lines(a + b) == (a + b)[0] + seq!['\n'] + join_lines((a + b).skip(1)));
        assert(join_lines(a) == a[0] + seq!['\n'] + join_lines(a.skip(1)));
        assert(join_lines(a + b) =~= join_lines(a) + seq!['\n'] + join_lines(b));
    }
}

/// Character-for-character equality of two text slices.
pub fn str_eq(a: &str, b: &str) -> (r: bool)
    ensures
        r == (a@ == b@),
{
    let na = a.unicode_len();
    let nb = b.unicode_len();
    if na != nb {
        return false;
    }
    let mut i: usize = 0;
    while i < na
        invariant
            na == a@.len(),
            nb == b@.len(),
            na == nb,
            i <= na,
            forall|j: int| 0 <= j < i ==> a@[j] == b@[j],
        decreases na - i,
    {
        if a.get_char(i) != b.get_char(i) {
            return false;
        }
        i += 1;
    }
    proof {
        assert(a@ =~= b@);
    }
    true
}

} // verus!
