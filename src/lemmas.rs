//! What holds of every input: idempotent formatting, formatting that only
//! deletes when nothing is replaced, one entry per headword, where definition
//! lines go, how runs of headwords share a definition, and that blank lines
//! change nothing.
use vstd::prelude::*;

use crate::dictionary::EntryModel;
use crate::formatter::{
    build, build_prefix, first_definition_from, formatted, is_blank, is_continuation,
    is_headword, is_metadata, remove_each, replace_each, step, with_definition,
};
use crate::settings::{no_markup_rules, MarkupRules};
use crate::text::{
    contains, is_subsequence, lemma_delete_is_subsequence, lemma_replace_absent,
    lemma_subsequence_refl, lemma_subsequence_trans, lemma_trim_idempotent,
    lemma_trim_is_subsequence, occurs_at,
};

verus! {

proof fn lemma_absent_nonempty(s: Seq<char>, pat: Seq<char>)
    requires
        !contains(s, pat),
    ensures
        pat.len() > 0,
{
    if pat.len() == 0 {
        assert(s.subrange(0, 0) =~= pat);
        assert(occurs_at(s, pat, 0));
    }
}

proof fn lemma_remove_each_absent(s: Seq<char>, removes: Seq<Seq<char>>)
    requires
        forall|k: int| 0 <= k < removes.len() ==> !contains(s, #[trigger] removes[k]),
    ensures
        remove_each(s, removes) == s,
    decreases removes.len(),
{
    if removes.len() > 0 {
        let rest = removes.drop_last();
        assert forall|k: int| 0 <= k < rest.len() implies !contains(s, #[trigger] rest[k]) by {
            assert(rest[k] == removes[k]);
        }
        lemma_remove_each_absent(s, rest);
        lemma_absent_nonempty(s, removes.last());
        lemma_replace_absent(s, removes.last(), Seq::empty());
    }
}

proof fn lemma_replace_each_absent(s: Seq<char>, replaces: Seq<(Seq<char>, Seq<char>)>)
    requires
        forall|k: int| 0 <= k < replaces.len() ==> !contains(s, #[trigger] replaces[k].0),
    ensures
        replace_each(s, replaces) == s,
    decreases replaces.len(),
{
    if replaces.len() > 0 {
        let rest = replaces.drop_last();
        assert forall|k: int| 0 <= k < rest.len() implies !contains(s, #[trigger] rest[k].0) by {
            assert(rest[k] == replaces[k]);
        }
        lemma_replace_each_absent(s, rest);
        lemma_absent_nonempty(s, replaces.last().0);
        lemma_replace_absent(s, replaces.last().0, replaces.last().1);
    }
}

/// Formatting is idempotent for rules whose targets do not come back: when no
/// pattern that the rules delete or search for occurs in a formatted line,
/// formatting it again leaves it unchanged.
pub proof fn lemma_format_idempotent(line: Seq<char>, rules: MarkupRules)
    requires
        forall|k: int|
            0 <= k < rules.removes.len() ==> !contains(
                formatted(line, rules),
                #[trigger] rules.removes[k],
            ),
        forall|k: int|
            0 <= k < rules.replaces.len() ==> !contains(
                formatted(line, rules),
                #[trigger] rules.replaces[k].0,
            ),
    ensures
        formatted(formatted(line, rules), rules) == formatted(line, rules),
{
    let f = formatted(line, rules);
    lemma_remove_each_absent(f, rules.removes);
    lemma_replace_each_absent(f, rules.replaces);
    lemma_trim_idempotent(replace_each(remove_each(line, rules.removes), rules.replaces));
}

proof fn lemma_remove_each_subsequence(s: Seq<char>, removes: Seq<Seq<char>>)
    ensures
        is_subsequence(remove_each(s, removes), s),
    decreases removes.len(),
{
    if removes.len() == 0 {
        lemma_subsequence_refl(s);
    } else {
        let before = remove_each(s, removes.drop_last());
        lemma_remove_each_subsequence(s, removes.drop_last());
        lemma_delete_is_subsequence(before, removes.last());
        lemma_subsequence_trans(remove_each(s, removes), before, s);
    }
}

/// Rules that replace nothing only delete: the formatted line is the line
/// with some of its characters left out, so nothing new, HTML included,
/// appears in it.
pub proof fn lemma_deleting_rules_only_delete(line: Seq<char>, rules: MarkupRules)
    requires
        rules.replaces.len() == 0,
    ensures
        is_subsequence(formatted(line, rules), line),
{
    let removed = remove_each(line, rules.removes);
    lemma_remove_each_subsequence(line, rules.removes);
    assert(replace_each(removed, rules.replaces) == removed);
    lemma_trim_is_subsequence(removed);
    lemma_subsequence_trans(formatted(line, rules), removed, line);
}

/// The rules without markup only delete characters from a line.
pub proof fn lemma_no_markup_only_deletes(line: Seq<char>)
    ensures
        is_subsequence(formatted(line, no_markup_rules()), line),
{
    lemma_deleting_rules_only_delete(line, no_markup_rules());
}

/// The number of headword lines among the first `n` lines.
pub open spec fn headword_count(lines: Seq<Seq<char>>, n: int) -> nat
    decreases n,
{
    if n <= 0 {
        0
    } else {
        headword_count(lines, n - 1) + if is_headword(lines[n - 1]) {
            1nat
        } else {
            0nat
        }
    }
}

proof fn lemma_prefix_headwords(lines: Seq<Seq<char>>, rules: MarkupRules, n: nat)
    requires
        n <= lines.len(),
    ensures
        build_prefix(lines, rules, n).len() == headword_count(lines, n as int),
        forall|i: int|
            0 <= i < n && is_headword(#[trigger] lines[i]) ==> build_prefix(lines, rules, n)[
            headword_count(lines, i) as int].word == formatted(lines[i], rules),
    decreases n,
{
    if n > 0 {
        let m = (n - 1) as nat;
        lemma_prefix_headwords(lines, rules, m);
        let before = build_prefix(lines, rules, m);
        let after = build_prefix(lines, rules, n);
        assert(after == step(before, lines, rules, m as int));
        assert forall|i: int|
            0 <= i < n && is_headword(#[trigger] lines[i]) implies after[headword_count(
            lines,
            i,
        ) as int].word == formatted(lines[i], rules) by {
            if i < m {
                lemma_headword_count_mono(lines, i + 1, m as int);
            }
        }
    }
}

proof fn lemma_headword_count_mono(lines: Seq<Seq<char>>, a: int, b: int)
    requires
        0 <= a <= b,
    ensures
        headword_count(lines, a) <= headword_count(lines, b),
    decreases b - a,
{
    if a < b {
        lemma_headword_count_mono(lines, a, b - 1);
    }
}

/// Each headword line gives exactly one entry, in order: there are as many
/// entries as headword lines, and the entry of the headword at line `i` is the
/// one after all the entries of earlier headwords, with the formatted line as
/// its word.
pub proof fn lemma_one_entry_per_headword(lines: Seq<Seq<char>>, rules: MarkupRules)
    ensures
        build(lines, rules).len() == headword_count(lines, lines.len() as int),
        forall|i: int|
            0 <= i < lines.len() && is_headword(#[trigger] lines[i]) ==> build(lines, rules)[
            headword_count(lines, i) as int].word == formatted(lines[i], rules),
{
    lemma_prefix_headwords(lines, rules, lines.len());
}

/// `b` grows out of `a`: no entry lost, words kept, definitions only appended
/// to, and every entry but the last of `a` unchanged.
pub open spec fn extends(a: Seq<EntryModel>, b: Seq<EntryModel>) -> bool {
    &&& a.len() <= b.len()
    &&& forall|e: int|
        0 <= e < a.len() ==> {
            &&& (#[trigger] b[e]).word == a[e].word
            &&& a[e].definitions.len() <= b[e].definitions.len()
            &&& b[e].definitions.subrange(0, a[e].definitions.len() as int) == a[e].definitions
        }
    &&& forall|e: int| 0 <= e < a.len() - 1 ==> #[trigger] b[e] == a[e]
}

proof fn lemma_extends_refl(a: Seq<EntryModel>)
    ensures
        extends(a, a),
{
    assert forall|e: int| 0 <= e < a.len() implies a[e].definitions.subrange(
        0,
        a[e].definitions.len() as int,
    ) == a[e].definitions by {
        assert(a[e].definitions.subrange(0, a[e].definitions.len() as int)
            =~= a[e].definitions);
    }
}

proof fn lemma_extends_trans(a: Seq<EntryModel>, b: Seq<EntryModel>, c: Seq<EntryModel>)
    requires
        extends(a, b),
        extends(b, c),
    ensures
        extends(a, c),
{
    assert forall|e: int| 0 <= e < a.len() implies c[e].definitions.subrange(
        0,
        a[e].definitions.len() as int,
    ) == a[e].definitions by {
        assert(b[e].word == a[e].word);
        assert(c[e].word == b[e].word);
        let da = a[e].definitions;
        let db = b[e].definitions;
        let dc = c[e].definitions;
        assert(dc.subrange(0, da.len() as int) =~= db.subrange(0, da.len() as int));
    }
    assert forall|e: int| 0 <= e < a.len() - 1 implies #[trigger] c[e] == a[e] by {
        assert(b[e] == a[e]);
        assert(c[e] == b[e]);
    }
}

proof fn lemma_with_definition_extends(es: Seq<EntryModel>, d: Seq<char>)
    requires
        es.len() > 0,
    ensures
        extends(es, with_definition(es, d)),
{
    let w = with_definition(es, d);
    assert forall|e: int| 0 <= e < es.len() implies w[e].definitions.subrange(
        0,
        es[e].definitions.len() as int,
    ) == es[e].definitions by {
        assert(w[e].definitions.subrange(0, es[e].definitions.len() as int)
            =~= es[e].definitions);
    }
}

proof fn lemma_push_extends(es: Seq<EntryModel>, x: EntryModel)
    ensures
        extends(es, es.push(x)),
{
    lemma_extends_refl(es);
    assert forall|e: int| 0 <= e < es.len() implies es.push(x)[e].definitions.subrange(
        0,
        es[e].definitions.len() as int,
    ) == es[e].definitions by {
        assert(es.push(x)[e] == es[e]);
    }
}

proof fn lemma_step_extends(es: Seq<EntryModel>, lines: Seq<Seq<char>>, rules: MarkupRules, i: int)
    ensures
        extends(es, step(es, lines, rules, i)),
{
    let line = lines[i];
    lemma_extends_refl(es);
    if is_continuation(line) {
        if es.len() > 0 {
            lemma_with_definition_extends(es, formatted(line, rules));
        }
    } else if is_headword(line) {
        let grouped = if es.len() > 0 && es.last().definitions.len() == 0 {
            match first_definition_from(lines, i + 1) {
                Some(j) => with_definition(es, formatted(lines[j], rules)),
                None => es,
            }
        } else {
            es
        };
        if es.len() > 0 && es.last().definitions.len() == 0 {
            if let Some(j) = first_definition_from(lines, i + 1) {
                lemma_with_definition_extends(es, formatted(lines[j], rules));
            }
        }
        let x = EntryModel { word: formatted(line, rules), definitions: Seq::empty() };
        lemma_push_extends(grouped, x);
        lemma_extends_trans(es, grouped, grouped.push(x));
    }
}

/// Reading more lines only extends the entries built so far.
proof fn lemma_prefix_extends(lines: Seq<Seq<char>>, rules: MarkupRules, n: nat, m: nat)
    requires
        n <= m,
    ensures
        extends(build_prefix(lines, rules, n), build_prefix(lines, rules, m)),
    decreases m - n,
{
    if n == m {
        lemma_extends_refl(build_prefix(lines, rules, n));
    } else {
        let m1 = (m - 1) as nat;
        lemma_prefix_extends(lines, rules, n, m1);
        lemma_step_extends(build_prefix(lines, rules, m1), lines, rules, m1 as int);
        lemma_extends_trans(
            build_prefix(lines, rules, n),
            build_prefix(lines, rules, m1),
            build_prefix(lines, rules, m),
        );
    }
}

/// A definition line adds its formatted text to the entry of the nearest
/// headword before it, right after the definitions that entry held when the
/// line was reached. With no headword before it, the line changes nothing.
pub proof fn lemma_definition_joins_preceding_entry(
    lines: Seq<Seq<char>>,
    rules: MarkupRules,
    i: int,
)
    requires
        0 <= i < lines.len(),
        is_continuation(lines[i]),
    ensures
        headword_count(lines, i) > 0 ==> {
            let k = headword_count(lines, i) - 1;
            let d = build_prefix(lines, rules, i as nat)[k].definitions.len();
            &&& d < build(lines, rules)[k].definitions.len()
            &&& build(lines, rules)[k].definitions[d as int] == formatted(lines[i], rules)
        },
        headword_count(lines, i) == 0 ==> build_prefix(lines, rules, (i + 1) as nat)
            == build_prefix(lines, rules, i as nat),
{
    lemma_prefix_headwords(lines, rules, i as nat);
    let before = build_prefix(lines, rules, i as nat);
    let after = build_prefix(lines, rules, (i + 1) as nat);
    assert(after == step(before, lines, rules, i));
    if headword_count(lines, i) > 0 {
        let k = headword_count(lines, i) - 1;
        let d = before[k].definitions.len() as int;
        assert(after[k].definitions == before[k].definitions.push(formatted(lines[i], rules)));
        lemma_prefix_extends(lines, rules, (i + 1) as nat, lines.len());
        let fin = build(lines, rules);
        assert(fin[k].definitions.subrange(0, d + 1) == after[k].definitions);
        assert(fin[k].definitions.subrange(0, d + 1)[d] == fin[k].definitions[d]);
    }
}

proof fn lemma_first_definition_found(lines: Seq<Seq<char>>, a: int, j: int)
    requires
        0 <= a,
        first_definition_from(lines, a) == Some(j),
    ensures
        a <= j < lines.len(),
        is_continuation(lines[j]),
        forall|m: int|
            a <= m < j ==> !is_continuation(#[trigger] lines[m]) && first_definition_from(
                lines,
                m + 1,
            ) == Some(j),
    decreases lines.len() - a,
{
    if !is_continuation(lines[a]) {
        lemma_first_definition_found(lines, a + 1, j);
    }
}

proof fn lemma_first_definition_absent(lines: Seq<Seq<char>>, a: int)
    requires
        0 <= a,
        first_definition_from(lines, a) is None,
    ensures
        forall|m: int|
            a <= m < lines.len() ==> !is_continuation(#[trigger] lines[m])
                && first_definition_from(lines, m + 1) is None,
    decreases lines.len() - a,
{
    if a < lines.len() {
        lemma_first_definition_absent(lines, a + 1);
    }
}

/// While a run of headwords waits for its definition line `j`, the last entry
/// has no definition, and the entry `k` of the run already holds that line
/// unless it is the last one.
pub open spec fn run_waiting(es: Seq<EntryModel>, k: int, fj: Seq<char>) -> bool {
    &&& 0 <= k < es.len()
    &&& es.last().definitions.len() == 0
    &&& (es.len() - 1 == k || es[k].definitions == seq![fj])
}

proof fn lemma_run_waits(
    lines: Seq<Seq<char>>,
    rules: MarkupRules,
    i: int,
    j: int,
    m: nat,
)
    requires
        0 <= i,
        i + 1 <= m <= j,
        first_definition_from(lines, i + 1) == Some(j),
        run_waiting(
            build_prefix(lines, rules, (i + 1) as nat),
            headword_count(lines, i) as int,
            formatted(lines[j], rules),
        ),
    ensures
        run_waiting(
            build_prefix(lines, rules, m),
            headword_count(lines, i) as int,
            formatted(lines[j], rules),
        ),
    decreases m,
{
    if m > i + 1 {
        let m1 = (m - 1) as nat;
        lemma_run_waits(lines, rules, i, j, m1);
        lemma_first_definition_found(lines, i + 1, j);
        let k = headword_count(lines, i) as int;
        let es = build_prefix(lines, rules, m1);
        assert(build_prefix(lines, rules, m) == step(es, lines, rules, m1 as int));
        assert(!is_continuation(lines[m1 as int]));
        assert(first_definition_from(lines, m1 as int + 1) == Some(j));
        let fj = formatted(lines[j], rules);
        if is_headword(lines[m1 as int]) {
            let grouped = with_definition(es, fj);
            if es.len() - 1 == k {
                assert(grouped[k].definitions =~= seq![fj]);
            } else {
                assert(grouped[k] == es[k]);
            }
            let x = EntryModel { word: formatted(lines[m1 as int], rules), definitions: Seq::empty() };
            assert(build_prefix(lines, rules, m) == grouped.push(x));
            assert(grouped.push(x)[k] == grouped[k]);
        } else {
            assert(build_prefix(lines, rules, m) == es);
        }
    }
}

proof fn lemma_run_silent(lines: Seq<Seq<char>>, rules: MarkupRules, i: int, k: int, m: nat)
    requires
        0 <= i,
        i + 1 <= m <= lines.len(),
        first_definition_from(lines, i + 1) is None,
        0 <= k < build_prefix(lines, rules, (i + 1) as nat).len(),
        forall|e: int|
            k <= e < build_prefix(lines, rules, (i + 1) as nat).len() ==> (#[trigger] build_prefix(
                lines,
                rules,
                (i + 1) as nat,
            )[e]).definitions.len() == 0,
    ensures
        k < build_prefix(lines, rules, m).len(),
        forall|e: int|
            k <= e < build_prefix(lines, rules, m).len() ==> (#[trigger] build_prefix(
                lines,
                rules,
                m,
            )[e]).definitions.len() == 0,
    decreases m,
{
    if m > i + 1 {
        let m1 = (m - 1) as nat;
        lemma_run_silent(lines, rules, i, k, m1);
        lemma_first_definition_absent(lines, i + 1);
        let es = build_prefix(lines, rules, m1);
        assert(build_prefix(lines, rules, m) == step(es, lines, rules, m1 as int));
        assert(!is_continuation(lines[m1 as int]));
        assert(first_definition_from(lines, m1 as int + 1) is None);
        assert(es.last() == es[es.len() - 1]);
    }
}

/// Headwords in a row share the definition line that follows them. When the
/// headword at line `i` comes after an entry that has no definition yet, that
/// entry ends with the first definition line after `i` as its only
/// definition, and the headword's own entry starts with that same definition.
/// When no definition line follows, both entries stay without definitions.
pub proof fn lemma_headword_run_shares_definition(
    lines: Seq<Seq<char>>,
    rules: MarkupRules,
    i: int,
)
    requires
        0 <= i < lines.len(),
        is_headword(lines[i]),
        headword_count(lines, i) > 0,
        build_prefix(lines, rules, i as nat)[headword_count(lines, i) - 1].definitions.len()
            == 0,
    ensures
        ({
            let k = headword_count(lines, i) as int;
            let fin = build(lines, rules);
            match first_definition_from(lines, i + 1) {
                Some(j) => {
                    &&& fin[k - 1].definitions == seq![formatted(lines[j], rules)]
                    &&& fin[k].definitions.len() > 0
                    &&& fin[k].definitions[0] == formatted(lines[j], rules)
                },
                None => fin[k - 1].definitions.len() == 0 && fin[k].definitions.len() == 0,
            }
        }),
{
    let k = headword_count(lines, i) as int;
    lemma_prefix_headwords(lines, rules, i as nat);
    let before = build_prefix(lines, rules, i as nat);
    let after = build_prefix(lines, rules, (i + 1) as nat);
    assert(after == step(before, lines, rules, i));
    assert(before.last() == before[k - 1]);
    lemma_prefix_extends(lines, rules, (i + 1) as nat, lines.len());
    let fin = build(lines, rules);
    match first_definition_from(lines, i + 1) {
        Some(j) => {
            let fj = formatted(lines[j], rules);
            lemma_first_definition_found(lines, i + 1, j);
            assert(after[k - 1].definitions =~= seq![fj]);
            assert(fin[k - 1] == after[k - 1]);
            lemma_run_waits(lines, rules, i, j, j as nat);
            let es = build_prefix(lines, rules, j as nat);
            let done = build_prefix(lines, rules, (j + 1) as nat);
            assert(done == step(es, lines, rules, j));
            assert(done[k].definitions =~= seq![fj]);
            lemma_prefix_extends(lines, rules, (j + 1) as nat, lines.len());
            assert(fin[k].definitions.subrange(0, 1) == done[k].definitions);
            assert(fin[k].definitions.subrange(0, 1)[0] == fin[k].definitions[0]);
        },
        None => {
            lemma_run_silent(lines, rules, i, k - 1, lines.len());
            assert(fin[k - 1].definitions.len() == 0);
            assert(fin[k].definitions.len() == 0);
        },
    }
}

/// Position of the first headword line at or after `from`, or the number of
/// lines when none follows.
pub open spec fn next_headword(lines: Seq<Seq<char>>, from: int) -> int
    decreases lines.len() - from,
{
    if from >= lines.len() {
        lines.len() as int
    } else if is_headword(lines[from]) {
        from
    } else {
        next_headword(lines, from + 1)
    }
}

/// The formatted definition lines among lines `a` to `m`, in order.
pub open spec fn definitions_between(
    lines: Seq<Seq<char>>,
    rules: MarkupRules,
    a: int,
    m: int,
) -> Seq<Seq<char>>
    decreases m - a,
{
    if m <= a {
        Seq::empty()
    } else if is_continuation(lines[m - 1]) {
        definitions_between(lines, rules, a, m - 1).push(formatted(lines[m - 1], rules))
    } else {
        definitions_between(lines, rules, a, m - 1)
    }
}

proof fn lemma_next_headword(lines: Seq<Seq<char>>, from: int)
    requires
        0 <= from <= lines.len(),
    ensures
        from <= next_headword(lines, from) <= lines.len(),
        next_headword(lines, from) < lines.len() ==> is_headword(
            lines[next_headword(lines, from)],
        ),
        forall|m: int|
            from <= m < next_headword(lines, from) ==> !is_headword(#[trigger] lines[m]),
    decreases lines.len() - from,
{
    if from < lines.len() && !is_headword(lines[from]) {
        lemma_next_headword(lines, from + 1);
    }
}

proof fn lemma_own_definitions_collect(
    lines: Seq<Seq<char>>,
    rules: MarkupRules,
    i: int,
    m: nat,
)
    requires
        0 <= i < lines.len(),
        is_headword(lines[i]),
        i + 1 <= m <= next_headword(lines, i + 1),
    ensures
        build_prefix(lines, rules, m).len() == headword_count(lines, i) + 1,
        build_prefix(lines, rules, m)[headword_count(lines, i) as int].definitions
            == definitions_between(lines, rules, i + 1, m as int),
    decreases m,
{
    let k = headword_count(lines, i) as int;
    lemma_next_headword(lines, i + 1);
    if m == i + 1 {
        lemma_prefix_headwords(lines, rules, i as nat);
        let before = build_prefix(lines, rules, i as nat);
        assert(build_prefix(lines, rules, m) == step(before, lines, rules, i));
    } else {
        let m1 = (m - 1) as nat;
        lemma_own_definitions_collect(lines, rules, i, m1);
        let es = build_prefix(lines, rules, m1);
        assert(build_prefix(lines, rules, m) == step(es, lines, rules, m1 as int));
        assert(!is_headword(lines[m1 as int]));
        assert(es.last() == es[k]);
    }
}

/// An entry whose headword is followed by definition lines of its own, before
/// the next headword, ends with exactly those lines, formatted and in order.
pub proof fn lemma_entry_holds_its_definition_lines(
    lines: Seq<Seq<char>>,
    rules: MarkupRules,
    i: int,
)
    requires
        0 <= i < lines.len(),
        is_headword(lines[i]),
        definitions_between(lines, rules, i + 1, next_headword(lines, i + 1)).len() > 0,
    ensures
        build(lines, rules)[headword_count(lines, i) as int].definitions == definitions_between(
            lines,
            rules,
            i + 1,
            next_headword(lines, i + 1),
        ),
{
    let k = headword_count(lines, i) as int;
    let h = next_headword(lines, i + 1);
    lemma_next_headword(lines, i + 1);
    lemma_own_definitions_collect(lines, rules, i, h as nat);
    let es = build_prefix(lines, rules, h as nat);
    if h < lines.len() {
        let after = build_prefix(lines, rules, (h + 1) as nat);
        assert(after == step(es, lines, rules, h));
        assert(es.last() == es[k]);
        assert(after[k] == es[k]);
        lemma_prefix_extends(lines, rules, (h + 1) as nat, lines.len());
    }
}

/// The lines among the first `n` that are not blank, in order.
pub open spec fn kept_lines(lines: Seq<Seq<char>>, n: int) -> Seq<Seq<char>>
    decreases n,
{
    if n <= 0 {
        Seq::empty()
    } else if is_blank(lines[n - 1]) {
        kept_lines(lines, n - 1)
    } else {
        kept_lines(lines, n - 1).push(lines[n - 1])
    }
}

/// The lines without the blank ones, in order.
pub open spec fn without_blank_lines(lines: Seq<Seq<char>>) -> Seq<Seq<char>> {
    kept_lines(lines, lines.len() as int)
}

proof fn lemma_kept_lines(lines: Seq<Seq<char>>, n: int)
    requires
        0 <= n <= lines.len(),
    ensures
        forall|i: int|
            0 <= i < n && !is_blank(#[trigger] lines[i]) ==> kept_lines(lines, i).len() < kept_lines(
                lines,
                n,
            ).len() && kept_lines(lines, n)[kept_lines(lines, i).len() as int] == lines[i],
        forall|i: int|
            0 <= i <= n ==> #[trigger] kept_lines(lines, i).len() <= kept_lines(lines, n).len(),
    decreases n,
{
    if n > 0 {
        lemma_kept_lines(lines, n - 1);
    }
}

proof fn lemma_lookahead_without_blanks(lines: Seq<Seq<char>>, a: int)
    requires
        0 <= a <= lines.len(),
    ensures
        ({
            let wb = without_blank_lines(lines);
            match first_definition_from(lines, a) {
                Some(j) => first_definition_from(wb, kept_lines(lines, a).len() as int) == Some(
                    kept_lines(lines, j).len() as int,
                ),
                None => first_definition_from(wb, kept_lines(lines, a).len() as int) is None,
            }
        }),
    decreases lines.len() - a,
{
    let wb = without_blank_lines(lines);
    lemma_kept_lines(lines, lines.len() as int);
    if a < lines.len() {
        lemma_lookahead_without_blanks(lines, a + 1);
        if !is_blank(lines[a]) {
            assert(wb[kept_lines(lines, a).len() as int] == lines[a]);
        }
    }
}

proof fn lemma_prefix_without_blanks(lines: Seq<Seq<char>>, rules: MarkupRules, n: nat)
    requires
        n <= lines.len(),
    ensures
        build_prefix(lines, rules, n) == build_prefix(
            without_blank_lines(lines),
            rules,
            kept_lines(lines, n as int).len(),
        ),
    decreases n,
{
    if n > 0 {
        let m = (n - 1) as nat;
        let wb = without_blank_lines(lines);
        lemma_prefix_without_blanks(lines, rules, m);
        lemma_kept_lines(lines, lines.len() as int);
        let es = build_prefix(lines, rules, m);
        assert(build_prefix(lines, rules, n) == step(es, lines, rules, m as int));
        if !is_blank(lines[m as int]) {
            let p = kept_lines(lines, m as int).len();
            assert(wb[p as int] == lines[m as int]);
            assert(build_prefix(wb, rules, p + 1) == step(es, wb, rules, p as int));
            lemma_lookahead_without_blanks(lines, n as int);
            if let Some(j) = first_definition_from(lines, n as int) {
                lemma_first_definition_found(lines, n as int, j);
                assert(wb[kept_lines(lines, j).len() as int] == lines[j]);
            }
        }
    }
}

/// Blank lines change nothing: the entries built without them are the
/// entries built with them.
pub proof fn lemma_blank_lines_change_nothing(lines: Seq<Seq<char>>, rules: MarkupRules)
    ensures
        build(without_blank_lines(lines), rules) == build(lines, rules),
{
    lemma_prefix_without_blanks(lines, rules, lines.len());
}

} // verus!
