//! Literal substring replacement and whitespace trimming, stated over `Seq<char>`.
use vstd::prelude::*;

verus! {

/// Whether `c` has the Unicode `White_Space` property.
pub open spec fn is_white_space(c: char) -> bool {
    let u = c as u32;
    ||| 0x09 <= u <= 0x0d
    ||| u == 0x20
    ||| u == 0x85
    ||| u == 0xa0
    ||| u == 0x1680
    ||| 0x2000 <= u <= 0x200a
    ||| u == 0x2028
    ||| u == 0x2029
    ||| u == 0x202f
    ||| u == 0x205f
    ||| u == 0x3000
}

/// `s` without its leading white space.
pub open spec fn trim_start(s: Seq<char>) -> Seq<char>
    decreases s.len(),
{
    if s.len() > 0 && is_white_space(s[0]) {
        trim_start(s.drop_first())
    } else {
        s
    }
}

/// `s` without its trailing white space.
pub open spec fn trim_end(s: Seq<char>) -> Seq<char>
    decreases s.len(),
{
    if s.len() > 0 && is_white_space(s.last()) {
        trim_end(s.drop_last())
    } else {
        s
    }
}

/// `s` without leading and trailing white space.
pub open spec fn trim(s: Seq<char>) -> Seq<char> {
    trim_end(trim_start(s))
}

/// Whether `pat` occurs in `s` at position `i`.
pub open spec fn occurs_at(s: Seq<char>, pat: Seq<char>, i: int) -> bool {
    0 <= i && i + pat.len() <= s.len() && s.subrange(i, i + pat.len()) == pat
}

/// Whether `pat` occurs anywhere in `s` (the empty pattern always does).
pub open spec fn contains(s: Seq<char>, pat: Seq<char>) -> bool {
    exists|i: int| occurs_at(s, pat, i)
}

/// `to` before every character of `s` and once more at its end: what replacing
/// the empty pattern gives.
pub open spec fn interleave(s: Seq<char>, to: Seq<char>) -> Seq<char>
    decreases s.len(),
{
    if s.len() == 0 {
        to
    } else {
        to + seq![s[0]] + interleave(s.drop_first(), to)
    }
}

/// `s` with every occurrence of `pat` replaced by `to`, matches taken from the
/// left and never overlapping.
pub open spec fn replace_all(s: Seq<char>, pat: Seq<char>, to: Seq<char>) -> Seq<char>
    decreases s.len(),
{
    if pat.len() == 0 {
        interleave(s, to)
    } else if s.len() < pat.len() {
        s
    } else if s.subrange(0, pat.len() as int) == pat {
        to + replace_all(s.subrange(pat.len() as int, s.len() as int), pat, to)
    } else {
        seq![s[0]] + replace_all(s.drop_first(), pat, to)
    }
}

/// Relies on `str::replace`: all matches of the literal pattern `from`,
/// leftmost first and without overlap, are replaced by `to`; the empty
/// pattern matches at every character boundary.
#[verifier::external_body]
pub(crate) fn replace_str(s: &str, from: &str, to: &str) -> (r: String)
    ensures
        r@ == replace_all(s@, from@, to@),
{
    s.replace(from, to)
}

/// Relies on `str::trim`: leading and trailing characters with the Unicode
/// `White_Space` property are removed.
#[verifier::external_body]
pub(crate) fn trim_str(s: &str) -> (r: &str)
    ensures
        r@ == trim(s@),
{
    s.trim()
}

/// Replacing a non-empty pattern that does not occur leaves the text as it is.
pub proof fn lemma_replace_absent(s: Seq<char>, pat: Seq<char>, to: Seq<char>)
    requires
        pat.len() > 0,
        !contains(s, pat),
    ensures
        replace_all(s, pat, to) == s,
    decreases s.len(),
{
    if s.len() >= pat.len() {
        assert(!occurs_at(s, pat, 0));
        let rest = s.drop_first();
        assert forall|i: int| !occurs_at(rest, pat, i) by {
            if occurs_at(rest, pat, i) {
                assert(rest.subrange(i, i + pat.len()) =~= s.subrange(i + 1, i + 1 + pat.len()));
                assert(occurs_at(s, pat, i + 1));
            }
        }
        lemma_replace_absent(rest, pat, to);
        assert(seq![s[0]] + rest =~= s);
    }
}

proof fn lemma_trim_start_first(s: Seq<char>)
    ensures
        trim_start(s).len() == 0 || !is_white_space(trim_start(s)[0]),
    decreases s.len(),
{
    if s.len() > 0 && is_white_space(s[0]) {
        lemma_trim_start_first(s.drop_first());
    }
}

proof fn lemma_trim_end_last(s: Seq<char>)
    ensures
        trim_end(s).len() == 0 || !is_white_space(trim_end(s).last()),
    decreases s.len(),
{
    if s.len() > 0 && is_white_space(s.last()) {
        lemma_trim_end_last(s.drop_last());
    }
}

proof fn lemma_trim_end_prefix(s: Seq<char>)
    ensures
        trim_end(s).len() <= s.len(),
        trim_end(s) == s.subrange(0, trim_end(s).len() as int),
    decreases s.len(),
{
    if s.len() > 0 && is_white_space(s.last()) {
        lemma_trim_end_prefix(s.drop_last());
        assert(s.drop_last().subrange(0, trim_end(s).len() as int) =~= s.subrange(
            0,
            trim_end(s).len() as int,
        ));
    } else {
        assert(s.subrange(0, s.len() as int) =~= s);
    }
}

/// Only a non-empty text can trim to a non-empty one.
pub proof fn lemma_trim_nonempty(s: Seq<char>)
    ensures
        trim(s).len() > 0 ==> s.len() > 0,
{
    if s.len() == 0 {
        assert(trim_start(s) == s);
        assert(trim_end(s) == s);
    }
}

/// Trimming twice gives what trimming once gives.
pub proof fn lemma_trim_idempotent(s: Seq<char>)
    ensures
        trim(trim(s)) == trim(s),
{
    let u = trim_start(s);
    let t = trim_end(u);
    lemma_trim_start_first(s);
    lemma_trim_end_prefix(u);
    lemma_trim_end_last(u);
    if t.len() > 0 {
        assert(t[0] == u[0]);
    }
    assert(trim_start(t) == t);
    assert(trim_end(t) == t);
}

/// Whether `a` is `b` with some characters left out.
pub open spec fn is_subsequence(a: Seq<char>, b: Seq<char>) -> bool
    decreases b.len(),
{
    if a.len() == 0 {
        true
    } else if b.len() == 0 {
        false
    } else if a[0] == b[0] {
        is_subsequence(a.drop_first(), b.drop_first())
    } else {
        is_subsequence(a, b.drop_first())
    }
}

proof fn lemma_subsequence_shift(a: Seq<char>, b: Seq<char>)
    ensures
        a.len() > 0 && is_subsequence(a, b) ==> is_subsequence(a.drop_first(), b),
        b.len() > 0 && is_subsequence(a, b.drop_first()) ==> is_subsequence(a, b),
    decreases b.len(),
{
    if b.len() > 0 {
        let b1 = b.drop_first();
        lemma_subsequence_shift(a, b1);
        if a.len() > 0 {
            let a1 = a.drop_first();
            lemma_subsequence_shift(a1, b1);
            if is_subsequence(a1, b1) && a1.len() > 0 && a1[0] == b[0] {
                assert(is_subsequence(a1.drop_first(), b1));
            }
            assert(is_subsequence(a1, b1) ==> is_subsequence(a1, b));
        }
    }
}

/// Leaving out a leading part of the text keeps a subsequence one.
proof fn lemma_subsequence_of_suffix(a: Seq<char>, s: Seq<char>, k: int)
    requires
        0 <= k <= s.len(),
        is_subsequence(a, s.subrange(k, s.len() as int)),
    ensures
        is_subsequence(a, s),
    decreases k,
{
    if k == 0 {
        assert(s.subrange(0, s.len() as int) =~= s);
    } else {
        let t = s.subrange(k - 1, s.len() as int);
        assert(t.drop_first() =~= s.subrange(k, s.len() as int));
        lemma_subsequence_shift(a, t);
        lemma_subsequence_of_suffix(a, s, k - 1);
    }
}

proof fn lemma_subsequence_extend_end(a: Seq<char>, b: Seq<char>)
    requires
        b.len() > 0,
        is_subsequence(a, b.drop_last()),
    ensures
        is_subsequence(a, b),
    decreases b.len(),
{
    if a.len() > 0 {
        let b1 = b.drop_last();
        assert(b1.len() > 0);
        assert(b1[0] == b[0]);
        assert(b1.drop_first() =~= b.drop_first().drop_last());
        if a[0] == b[0] {
            assert(is_subsequence(a.drop_first(), b1.drop_first()));
            if a.drop_first().len() > 0 {
                assert(b1.drop_first().len() > 0);
                lemma_subsequence_extend_end(a.drop_first(), b.drop_first());
            }
            assert(is_subsequence(a.drop_first(), b.drop_first()));
        } else {
            assert(is_subsequence(a, b1.drop_first()));
            assert(b1.drop_first().len() > 0);
            lemma_subsequence_extend_end(a, b.drop_first());
            assert(is_subsequence(a, b.drop_first()));
        }
    }
}

pub proof fn lemma_subsequence_refl(s: Seq<char>)
    ensures
        is_subsequence(s, s),
    decreases s.len(),
{
    if s.len() > 0 {
        lemma_subsequence_refl(s.drop_first());
    }
}

/// Leaving out characters twice is leaving out characters.
pub proof fn lemma_subsequence_trans(a: Seq<char>, b: Seq<char>, c: Seq<char>)
    requires
        is_subsequence(a, b),
        is_subsequence(b, c),
    ensures
        is_subsequence(a, c),
    decreases c.len(),
{
    if a.len() > 0 {
        let c1 = c.drop_first();
        if b[0] == c[0] {
            if a[0] == b[0] {
                lemma_subsequence_trans(a.drop_first(), b.drop_first(), c1);
            } else {
                lemma_subsequence_trans(a, b.drop_first(), c1);
                lemma_subsequence_shift(a, c);
            }
        } else {
            lemma_subsequence_trans(a, b, c1);
            lemma_subsequence_shift(a, c);
        }
    }
}

proof fn lemma_interleave_empty(s: Seq<char>)
    ensures
        interleave(s, Seq::empty()) == s,
    decreases s.len(),
{
    if s.len() > 0 {
        lemma_interleave_empty(s.drop_first());
        assert(Seq::<char>::empty() + seq![s[0]] + s.drop_first() =~= s);
    }
}

/// Deleting a pattern only leaves characters out.
pub proof fn lemma_delete_is_subsequence(s: Seq<char>, pat: Seq<char>)
    ensures
        is_subsequence(replace_all(s, pat, Seq::empty()), s),
    decreases s.len(),
{
    if pat.len() == 0 {
        lemma_interleave_empty(s);
        lemma_subsequence_refl(s);
    } else if s.len() < pat.len() {
        lemma_subsequence_refl(s);
    } else if s.subrange(0, pat.len() as int) == pat {
        let rest = s.subrange(pat.len() as int, s.len() as int);
        lemma_delete_is_subsequence(rest, pat);
        assert(Seq::<char>::empty() + replace_all(rest, pat, Seq::empty()) =~= replace_all(
            rest,
            pat,
            Seq::empty(),
        ));
        lemma_subsequence_of_suffix(replace_all(rest, pat, Seq::empty()), s, pat.len() as int);
    } else {
        let tail = replace_all(s.drop_first(), pat, Seq::empty());
        lemma_delete_is_subsequence(s.drop_first(), pat);
        assert((seq![s[0]] + tail).drop_first() =~= tail);
    }
}

/// Trimming only leaves characters out.
pub proof fn lemma_trim_is_subsequence(s: Seq<char>)
    ensures
        is_subsequence(trim(s), s),
{
    lemma_trim_start_subsequence(s);
    lemma_trim_end_subsequence(trim_start(s));
    lemma_subsequence_trans(trim(s), trim_start(s), s);
}

proof fn lemma_trim_start_subsequence(s: Seq<char>)
    ensures
        is_subsequence(trim_start(s), s),
    decreases s.len(),
{
    if s.len() > 0 && is_white_space(s[0]) {
        lemma_trim_start_subsequence(s.drop_first());
        lemma_subsequence_shift(trim_start(s), s);
    } else {
        lemma_subsequence_refl(s);
    }
}

proof fn lemma_trim_end_subsequence(s: Seq<char>)
    ensures
        is_subsequence(trim_end(s), s),
    decreases s.len(),
{
    if s.len() > 0 && is_white_space(s.last()) {
        lemma_trim_end_subsequence(s.drop_last());
        lemma_subsequence_extend_end(trim_end(s), s);
    } else {
        lemma_subsequence_refl(s);
    }
}

} // verus!
