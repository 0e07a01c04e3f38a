use crate::book::{def_well_formed, entries_well_formed, extracted_entries, extracted_rules, with_all};
use crate::extract::{
    extracted, extracted_arms, lifted, only_vars, synthesized_def, synthesized_name, well_formed, Env,
    Progress,
};
use crate::lattice::{arm_patterns, classified, inferred, inferred_type, is_extracted, Mismatch, TypeView};
use crate::term::{DefinitionView, PatternView, RuleView, Source, TermView, WarningView};
use crate::text::{decimal, digit_char, is_digit, lemma_decimal_digits, lemma_decimal_injective};
use vstd::prelude::*;

verus! {

/// A synthesized name determines the origin and the sequence number it was
/// made of: different origins, or different numbers, give different names.
pub proof fn law_synthesized_name_injective(o1: Seq<char>, n1: nat, o2: Seq<char>, n2: nat)
    requires
        synthesized_name(o1, n1) == synthesized_name(o2, n2),
    ensures
        o1 == o2,
        n1 == n2,
{
    reveal_strlit("$match$");
    let m = "$match$"@;
    let d1 = decimal(n1);
    let d2 = decimal(n2);
    let s1 = o1 + m + d1;
    let s2 = o2 + m + d2;
    lemma_decimal_digits(n1);
    lemma_decimal_digits(n2);
    assert(m.len() == 7);
    assert(m[6] == '$');
    assert(s1.len() == o1.len() + 7 + d1.len());
    assert(s2.len() == o2.len() + 7 + d2.len());
    assert forall|c: char| is_digit(c) implies c != '$' by {
        let d = choose|d: nat| d < 10 && c == #[trigger] digit_char(d);
    }
    if d1.len() < d2.len() {
        let q = (o1.len() + 6) as int;
        assert(s1[q] == m[6]);
        assert(s2[q] == d2[q - o2.len() - 7]);
        assert(is_digit(d2[q - o2.len() - 7]));
        assert(false);
    }
    if d2.len() < d1.len() {
        let q = (o2.len() + 6) as int;
        assert(s2[q] == m[6]);
        assert(s1[q] == d1[q - o1.len() - 7]);
        assert(is_digit(d1[q - o1.len() - 7]));
        assert(false);
    }
    assert(o1.len() == o2.len());
    assert forall|i: int| 0 <= i < d1.len() implies d1[i] == d2[i] by {
        assert(s1[o1.len() + 7 + i] == d1[i]);
        assert(s2[o2.len() + 7 + i] == d2[i]);
    }
    assert(d1 =~= d2);
    assert forall|i: int| 0 <= i < o1.len() implies o1[i] == o2[i] by {
        assert(s1[i] == o1[i]);
        assert(s2[i] == o2[i]);
    }
    assert(o1 =~= o2);
    lemma_decimal_injective(n1, n2);
}

/// Where the first `n` patterns agree on a shape, each of them is a variable
/// or discriminates that shape.
pub proof fn lemma_inferred_agrees(pats: Seq<PatternView>, ctrs: Map<Seq<char>, Seq<char>>, n: nat)
    requires
        n <= pats.len(),
        inferred(pats, ctrs, n) is Ok,
    ensures
        n > 0 ==> !(inferred(pats, ctrs, n)->Ok_0 is Unknown),
        forall|i: int|
            0 <= i < n ==> classified(#[trigger] pats[i], ctrs) is Any || classified(pats[i], ctrs) == inferred(
                pats,
                ctrs,
                n,
            )->Ok_0,
    decreases n,
{
    if n > 0 {
        lemma_inferred_agrees(pats, ctrs, (n - 1) as nat);
    }
}

/// A match with a tuple pattern and a constructor pattern among its arms
/// fails: its patterns agree on no shape.
pub proof fn law_tuple_and_constructor_mismatch(
    pats: Seq<PatternView>,
    ctrs: Map<Seq<char>, Seq<char>>,
    i: int,
    j: int,
)
    requires
        0 <= i < pats.len(),
        0 <= j < pats.len(),
        pats[i] is Tup,
        pats[j] is Ctr,
    ensures
        inferred_type(pats, ctrs) is Err,
{
    if inferred_type(pats, ctrs) is Ok {
        lemma_inferred_agrees(pats, ctrs, pats.len());
        assert(classified(pats[i], ctrs) is Tuple);
        assert(classified(pats[j], ctrs) is Named);
    }
}

/// A match of two arms, the first with a tuple pattern and the second with a
/// constructor pattern, fails with an error that names both shapes: the
/// constructor's type was found where a tuple was expected.
pub proof fn law_tuple_then_constructor(
    matched: TermView,
    arms: Seq<(PatternView, TermView)>,
    env: Env,
    p: Progress,
)
    requires
        arms.len() == 2,
        arms[0].0 is Tup,
        arms[1].0 is Ctr,
    ensures
        lifted(matched, arms, env, p).1.error == Some(
            Mismatch { found: TypeView::Named(env.ctrs[arms[1].0->Ctr_0]), expected: TypeView::Tuple },
        ),
        lifted(matched, arms, env, p).1.defs == p.defs,
        lifted(matched, arms, env, p).1.warnings == p.warnings,
{
    let pats = arm_patterns(arms);
    reveal_with_fuel(inferred, 3);
    assert(pats[0] == arms[0].0);
    assert(pats[1] == arms[1].0);
    assert(!(arms[0].0 is Var));
}

/// Where every pattern is a variable, the patterns agree on `Any`, or on
/// `Unknown` where there is none.
pub proof fn lemma_inferred_only_vars(pats: Seq<PatternView>, ctrs: Map<Seq<char>, Seq<char>>, n: nat)
    requires
        n <= pats.len(),
        forall|i: int| 0 <= i < pats.len() ==> (#[trigger] pats[i]) is Var,
    ensures
        inferred(pats, ctrs, n) == Ok::<TypeView, Mismatch>(
            if n == 0 {
                TypeView::Unknown
            } else {
                TypeView::Any
            },
        ),
    decreases n,
{
    if n > 0 {
        lemma_inferred_only_vars(pats, ctrs, (n - 1) as nat);
        assert(pats[n - 1] is Var);
    }
}

/// A match whose arms all bind variables is never lifted and never fails. It
/// gets no warning where it has one arm or none, and exactly one, which names
/// the enclosing definition, where it has more.
pub proof fn law_variable_arms_stay(
    matched: TermView,
    arms: Seq<(PatternView, TermView)>,
    env: Env,
    p: Progress,
)
    requires
        only_vars(arms),
    ensures
        lifted(matched, arms, env, p).0 == (TermView::Mat { matched: Box::new(matched), arms }),
        lifted(matched, arms, env, p).1.defs == p.defs,
        lifted(matched, arms, env, p).1.count == p.count,
        lifted(matched, arms, env, p).1.error == p.error,
        arms.len() <= 1 ==> lifted(matched, arms, env, p).1.warnings == p.warnings,
        arms.len() > 1 ==> lifted(matched, arms, env, p).1.warnings == p.warnings.push(
            WarningView::MatchOnlyVars { def_name: env.origin },
        ),
{
    let pats = arm_patterns(arms);
    assert forall|i: int| 0 <= i < pats.len() implies (#[trigger] pats[i]) is Var by {
        assert(arms[i].0 is Var);
    }
    lemma_inferred_only_vars(pats, env.ctrs, pats.len());
}

/// Whether `q` continues `p` for one origin: the sequence number has grown
/// by the number of definitions added, those that were there stay, and the
/// added ones are named after the origin and the numbers in between, in
/// order.
pub open spec fn numbered(p: Progress, q: Progress, origin: Seq<char>) -> bool {
    &&& q.count >= p.count
    &&& q.defs.len() == p.defs.len() + (q.count - p.count)
    &&& forall|k: int| 0 <= k < p.defs.len() ==> #[trigger] q.defs[k] == p.defs[k]
    &&& forall|k: int|
        p.defs.len() <= k < q.defs.len() ==> (#[trigger] q.defs[k]).name == synthesized_name(
            origin,
            (p.count + 1 + k - p.defs.len()) as nat,
        )
}

proof fn lemma_numbered_chain(p: Progress, q: Progress, r: Progress, origin: Seq<char>)
    requires
        numbered(p, q, origin),
        numbered(q, r, origin),
    ensures
        numbered(p, r, origin),
{
    assert forall|k: int| 0 <= k < p.defs.len() implies #[trigger] r.defs[k] == p.defs[k] by {
        assert(r.defs[k] == q.defs[k]);
    }
    assert forall|k: int| p.defs.len() <= k < r.defs.len() implies (#[trigger] r.defs[k]).name
        == synthesized_name(origin, (p.count + 1 + k - p.defs.len()) as nat) by {
        if k < q.defs.len() {
            assert(r.defs[k] == q.defs[k]);
        }
    }
}

/// The definitions that the rewrite of a term adds are numbered in order,
/// from the number after the last one on.
pub proof fn lemma_numbered(t: TermView, env: Env, p: Progress)
    ensures
        numbered(p, extracted(t, env, p).1, env.origin),
    decreases t, 0nat,
{
    if p.error is Some {
        return ;
    }
    match t {
        TermView::Lam { bod, .. } => {
            lemma_numbered(*bod, env, p);
        },
        TermView::Chn { bod, .. } => {
            lemma_numbered(*bod, env, p);
        },
        TermView::Let { val, nxt, .. } => {
            lemma_numbered(*val, env, p);
            let p1 = extracted(*val, env, p).1;
            lemma_numbered(*nxt, env, p1);
            lemma_numbered_chain(p, p1, extracted(*nxt, env, p1).1, env.origin);
        },
        TermView::App { fun, arg, .. } => {
            lemma_numbered(*fun, env, p);
            let p1 = extracted(*fun, env, p).1;
            lemma_numbered(*arg, env, p1);
            lemma_numbered_chain(p, p1, extracted(*arg, env, p1).1, env.origin);
        },
        TermView::Tup { fst, snd, .. } => {
            lemma_numbered(*fst, env, p);
            let p1 = extracted(*fst, env, p).1;
            lemma_numbered(*snd, env, p1);
            lemma_numbered_chain(p, p1, extracted(*snd, env, p1).1, env.origin);
        },
        TermView::Dup { val, nxt, .. } => {
            lemma_numbered(*val, env, p);
            let p1 = extracted(*val, env, p).1;
            lemma_numbered(*nxt, env, p1);
            lemma_numbered_chain(p, p1, extracted(*nxt, env, p1).1, env.origin);
        },
        TermView::Sup { fst, snd, .. } => {
            lemma_numbered(*fst, env, p);
            let p1 = extracted(*fst, env, p).1;
            lemma_numbered(*snd, env, p1);
            lemma_numbered_chain(p, p1, extracted(*snd, env, p1).1, env.origin);
        },
        TermView::Opx { fst, snd, .. } => {
            lemma_numbered(*fst, env, p);
            let p1 = extracted(*fst, env, p).1;
            lemma_numbered(*snd, env, p1);
            lemma_numbered_chain(p, p1, extracted(*snd, env, p1).1, env.origin);
        },
        TermView::Mat { matched, arms } => {
            lemma_numbered_arms(arms, env, p, arms.len());
            let (done, p1) = extracted_arms(arms, env, p, arms.len());
            if p1.error is None {
                let p2 = lifted(*matched, done, env, p1).1;
                assert(numbered(p1, p2, env.origin));
                lemma_numbered_chain(p, p1, p2, env.origin);
            }
        },
        _ => {},
    }
}

/// The same for the first `n` arms of a match.
pub proof fn lemma_numbered_arms(arms: Seq<(PatternView, TermView)>, env: Env, p: Progress, n: nat)
    ensures
        numbered(p, extracted_arms(arms, env, p, n).1, env.origin),
    decreases arms, n,
{
    if n == 0 || n > arms.len() {
    } else {
        lemma_numbered_arms(arms, env, p, (n - 1) as nat);
        let p1 = extracted_arms(arms, env, p, (n - 1) as nat).1;
        lemma_numbered(arms[n - 1].1, env, p1);
        lemma_numbered_chain(p, p1, extracted(arms[n - 1].1, env, p1).1, env.origin);
    }
}

/// The same for the first `n` rules of a definition.
pub proof fn lemma_numbered_rules(rules: Seq<RuleView>, env: Env, p: Progress, n: nat)
    ensures
        numbered(p, extracted_rules(rules, env, p, n).1, env.origin),
    decreases n,
{
    if n == 0 || n > rules.len() {
    } else {
        lemma_numbered_rules(rules, env, p, (n - 1) as nat);
        let p1 = extracted_rules(rules, env, p, (n - 1) as nat).1;
        lemma_numbered(rules[n - 1].body, env, p1);
        lemma_numbered_chain(p, p1, extracted(rules[n - 1].body, env, p1).1, env.origin);
    }
}

/// Whether no two of the definitions have the same name.
pub open spec fn distinct_names(defs: Seq<DefinitionView>) -> bool {
    forall|a: int, b: int| 0 <= a < b < defs.len() ==> (#[trigger] defs[a]).name != (#[trigger] defs[b]).name
}

/// Whether no two entries of the table stand under the same name.
pub open spec fn distinct_keys(entries: Seq<(Seq<char>, DefinitionView)>) -> bool {
    forall|i: int, j: int| 0 <= i < j < entries.len() ==> (#[trigger] entries[i]).0 != (#[trigger] entries[j]).0
}

/// Whether the name is made of the name of one of the first `n` entries and
/// a sequence number.
pub open spec fn named_after(name: Seq<char>, entries: Seq<(Seq<char>, DefinitionView)>, n: nat) -> bool {
    exists|i: int, c: nat|
        0 <= i < n && i < entries.len() && #[trigger] synthesized_name(entries[i].0, c) == name
}

/// Whether each of the definitions is named after one of the first `n`
/// entries and a sequence number.
pub open spec fn made_for(defs: Seq<DefinitionView>, entries: Seq<(Seq<char>, DefinitionView)>, n: nat) -> bool {
    forall|a: int| 0 <= a < defs.len() ==> named_after((#[trigger] defs[a]).name, entries, n)
}

proof fn lemma_entries_names(
    entries: Seq<(Seq<char>, DefinitionView)>,
    ctrs: Map<Seq<char>, Seq<char>>,
    warnings: Seq<WarningView>,
    n: nat,
)
    requires
        distinct_keys(entries),
        n <= entries.len(),
    ensures
        distinct_names(extracted_entries(entries, ctrs, warnings, n).defs),
        made_for(extracted_entries(entries, ctrs, warnings, n).defs, entries, n),
    decreases n,
{
    if n > 0 {
        lemma_entries_names(entries, ctrs, warnings, (n - 1) as nat);
        let b = extracted_entries(entries, ctrs, warnings, (n - 1) as nat);
        let out = extracted_entries(entries, ctrs, warnings, n);
        if b.error is Some {
            assert(out == b);
            assert forall|a: int| 0 <= a < out.defs.len() implies named_after(
                (#[trigger] out.defs[a]).name,
                entries,
                n,
            ) by {
                assert(named_after(b.defs[a].name, entries, (n - 1) as nat));
                let (i, c) = choose|i: int, c: nat|
                    0 <= i < n - 1 && i < entries.len() && #[trigger] synthesized_name(entries[i].0, c)
                        == b.defs[a].name;
                assert(0 <= i < n && synthesized_name(entries[i].0, c) == out.defs[a].name);
            }
        } else {
            let name = entries[n - 1].0;
            let d = entries[n - 1].1;
            let env = Env { origin: name, builtin: d.builtin, ctrs };
            let start = Progress { defs: b.defs, count: 0, warnings: b.warnings, error: None };
            lemma_numbered_rules(d.rules, env, start, d.rules.len());
            let p = extracted_rules(d.rules, env, start, d.rules.len()).1;
            assert(out.defs == p.defs);
            assert(numbered(start, p, name));
            let old_len = b.defs.len();
            assert forall|a: int| 0 <= a < out.defs.len() implies named_after(
                (#[trigger] out.defs[a]).name,
                entries,
                n,
            ) by {
                if a < old_len {
                    assert(p.defs[a] == b.defs[a]);
                    assert(named_after(b.defs[a].name, entries, (n - 1) as nat));
                    let (i, c) = choose|i: int, c: nat|
                        0 <= i < n - 1 && i < entries.len() && #[trigger] synthesized_name(entries[i].0, c)
                            == b.defs[a].name;
                    assert(0 <= i < n && synthesized_name(entries[i].0, c) == out.defs[a].name);
                } else {
                    let c = (1 + a - old_len) as nat;
                    assert(synthesized_name(entries[n - 1].0, c) == out.defs[a].name);
                }
            }
            assert forall|a: int, z: int| 0 <= a < z < out.defs.len() implies (#[trigger] out.defs[a]).name != (
            #[trigger] out.defs[z]).name by {
                if z < old_len {
                    assert(p.defs[a] == b.defs[a]);
                    assert(p.defs[z] == b.defs[z]);
                } else if a < old_len {
                    assert(p.defs[a] == b.defs[a]);
                    assert(named_after(b.defs[a].name, entries, (n - 1) as nat));
                    let (i, c) = choose|i: int, c: nat|
                        0 <= i < n - 1 && i < entries.len() && #[trigger] synthesized_name(entries[i].0, c)
                            == b.defs[a].name;
                    let cz = (1 + z - old_len) as nat;
                    if out.defs[a].name == out.defs[z].name {
                        law_synthesized_name_injective(entries[i].0, c, name, cz);
                        assert(entries[i].0 != entries[n - 1].0);
                    }
                } else {
                    let ca = (1 + a - old_len) as nat;
                    let cz = (1 + z - old_len) as nat;
                    if out.defs[a].name == out.defs[z].name {
                        law_synthesized_name_injective(name, ca, name, cz);
                    }
                }
            }
        }
    }
}

/// The definitions that the rewrite of a program creates have pairwise
/// different names, whatever the number of definitions it started from and
/// the number each of them gives rise to.
pub proof fn law_synthesized_names_distinct(
    entries: Seq<(Seq<char>, DefinitionView)>,
    ctrs: Map<Seq<char>, Seq<char>>,
    warnings: Seq<WarningView>,
)
    requires
        distinct_keys(entries),
    ensures
        distinct_names(extracted_entries(entries, ctrs, warnings, entries.len()).defs),
{
    lemma_entries_names(entries, ctrs, warnings, entries.len());
}

/// Whether a rewrite of the term, for whatever definition, leaves it as it
/// is, creates no definition and does not fail.
pub open spec fn settled(t: TermView, ctrs: Map<Seq<char>, Seq<char>>) -> bool {
    forall|env: Env, q: Progress|
        env.ctrs == ctrs && q.error is None ==> ({
            let r = #[trigger] extracted(t, env, q);
            r.0 == t && r.1.defs == q.defs && r.1.count == q.count && r.1.error is None
        })
}

/// Whether every rule body of the definition is settled.
pub open spec fn def_settled(d: DefinitionView, ctrs: Map<Seq<char>, Seq<char>>) -> bool {
    forall|j: int| 0 <= j < d.rules.len() ==> settled((#[trigger] d.rules[j]).body, ctrs)
}

/// Whether the definitions that `q` has and `p` had not are settled.
pub open spec fn new_defs_settled(p: Progress, q: Progress, ctrs: Map<Seq<char>, Seq<char>>) -> bool {
    forall|k: int| p.defs.len() <= k < q.defs.len() ==> def_settled(#[trigger] q.defs[k], ctrs)
}

proof fn lemma_settled_defs_chain(p: Progress, q: Progress, r: Progress, env: Env)
    requires
        numbered(p, q, env.origin),
        numbered(q, r, env.origin),
        new_defs_settled(p, q, env.ctrs),
        new_defs_settled(q, r, env.ctrs),
    ensures
        new_defs_settled(p, r, env.ctrs),
{
    assert forall|k: int| p.defs.len() <= k < r.defs.len() implies def_settled(
        #[trigger] r.defs[k],
        env.ctrs,
    ) by {
        if k < q.defs.len() {
            assert(r.defs[k] == q.defs[k]);
        }
    }
}

/// Arms whose bodies are settled come out of a rewrite as they went in.
proof fn lemma_arms_fixed(done: Seq<(PatternView, TermView)>, env: Env, q: Progress, m: nat)
    requires
        m <= done.len(),
        forall|k: int| 0 <= k < m ==> settled((#[trigger] done[k]).1, env.ctrs),
        q.error is None,
    ensures
        extracted_arms(done, env, q, m).0 == done,
        extracted_arms(done, env, q, m).1.defs == q.defs,
        extracted_arms(done, env, q, m).1.count == q.count,
        extracted_arms(done, env, q, m).1.error is None,
    decreases m,
{
    if m > 0 {
        lemma_arms_fixed(done, env, q, (m - 1) as nat);
        let r = extracted_arms(done, env, q, (m - 1) as nat);
        assert(settled(done[m - 1].1, env.ctrs));
        let s = extracted(done[m - 1].1, env, r.1);
        assert(extracted_arms(done, env, q, m).0 =~= done);
    }
}

/// What a rewrite that did not fail leaves behind is settled: the term, and
/// the rule bodies of the definitions it created.
pub proof fn lemma_settled(t: TermView, env: Env, p: Progress)
    requires
        well_formed(t, env.ctrs),
        p.error is None,
        extracted(t, env, p).1.error is None,
    ensures
        settled(extracted(t, env, p).0, env.ctrs),
        new_defs_settled(p, extracted(t, env, p).1, env.ctrs),
    decreases t, 0nat,
{
    let t2 = extracted(t, env, p).0;
    match t {
        TermView::Lam { bod, .. } => {
            let r1 = extracted(*bod, env, p);
            lemma_settled(*bod, env, p);
            assert forall|env2: Env, q: Progress| env2.ctrs == env.ctrs && q.error is None implies ({
                let r = #[trigger] extracted(t2, env2, q);
                r.0 == t2 && r.1.defs == q.defs && r.1.count == q.count && r.1.error is None
            }) by {
                let s1 = extracted(r1.0, env2, q);
            }
        },
        TermView::Chn { bod, .. } => {
            let r1 = extracted(*bod, env, p);
            lemma_settled(*bod, env, p);
            assert forall|env2: Env, q: Progress| env2.ctrs == env.ctrs && q.error is None implies ({
                let r = #[trigger] extracted(t2, env2, q);
                r.0 == t2 && r.1.defs == q.defs && r.1.count == q.count && r.1.error is None
            }) by {
                let s1 = extracted(r1.0, env2, q);
            }
        },
        TermView::Let { val, nxt, .. } => {
            let r1 = extracted(*val, env, p);
            if r1.1.error is Some {
                assert(extracted(*nxt, env, r1.1) == (*nxt, r1.1));
            }
            let r2 = extracted(*nxt, env, r1.1);
            lemma_settled(*val, env, p);
            lemma_settled(*nxt, env, r1.1);
            lemma_numbered(*val, env, p);
            lemma_numbered(*nxt, env, r1.1);
            lemma_settled_defs_chain(p, r1.1, r2.1, env);
            assert forall|env2: Env, q: Progress| env2.ctrs == env.ctrs && q.error is None implies ({
                let r = #[trigger] extracted(t2, env2, q);
                r.0 == t2 && r.1.defs == q.defs && r.1.count == q.count && r.1.error is None
            }) by {
                let s1 = extracted(r1.0, env2, q);
                let s2 = extracted(r2.0, env2, s1.1);
            }
        },
        TermView::App { fun, arg, .. } => {
            let r1 = extracted(*fun, env, p);
            if r1.1.error is Some {
                assert(extracted(*arg, env, r1.1) == (*arg, r1.1));
            }
            let r2 = extracted(*arg, env, r1.1);
            lemma_settled(*fun, env, p);
            lemma_settled(*arg, env, r1.1);
            lemma_numbered(*fun, env, p);
            lemma_numbered(*arg, env, r1.1);
            lemma_settled_defs_chain(p, r1.1, r2.1, env);
            assert forall|env2: Env, q: Progress| env2.ctrs == env.ctrs && q.error is None implies ({
                let r = #[trigger] extracted(t2, env2, q);
                r.0 == t2 && r.1.defs == q.defs && r.1.count == q.count && r.1.error is None
            }) by {
                let s1 = extracted(r1.0, env2, q);
                let s2 = extracted(r2.0, env2, s1.1);
            }
        },
        TermView::Tup { fst, snd, .. } => {
            let r1 = extracted(*fst, env, p);
            if r1.1.error is Some {
                assert(extracted(*snd, env, r1.1) == (*snd, r1.1));
            }
            let r2 = extracted(*snd, env, r1.1);
            lemma_settled(*fst, env, p);
            lemma_settled(*snd, env, r1.1);
            lemma_numbered(*fst, env, p);
            lemma_numbered(*snd, env, r1.1);
            lemma_settled_defs_chain(p, r1.1, r2.1, env);
            assert forall|env2: Env, q: Progress| env2.ctrs == env.ctrs && q.error is None implies ({
                let r = #[trigger] extracted(t2, env2, q);
                r.0 == t2 && r.1.defs == q.defs && r.1.count == q.count && r.1.error is None
            }) by {
                let s1 = extracted(r1.0, env2, q);
                let s2 = extracted(r2.0, env2, s1.1);
            }
        },
        TermView::Dup { val, nxt, .. } => {
            let r1 = extracted(*val, env, p);
            if r1.1.error is Some {
                assert(extracted(*nxt, env, r1.1) == (*nxt, r1.1));
            }
            let r2 = extracted(*nxt, env, r1.1);
            lemma_settled(*val, env, p);
            lemma_settled(*nxt, env, r1.1);
            lemma_numbered(*val, env, p);
            lemma_numbered(*nxt, env, r1.1);
            lemma_settled_defs_chain(p, r1.1, r2.1, env);
            assert forall|env2: Env, q: Progress| env2.ctrs == env.ctrs && q.error is None implies ({
                let r = #[trigger] extracted(t2, env2, q);
                r.0 == t2 && r.1.defs == q.defs && r.1.count == q.count && r.1.error is None
            }) by {
                let s1 = extracted(r1.0, env2, q);
                let s2 = extracted(r2.0, env2, s1.1);
            }
        },
        TermView::Sup { fst, snd, .. } => {
            let r1 = extracted(*fst, env, p);
            if r1.1.error is Some {
                assert(extracted(*snd, env, r1.1) == (*snd, r1.1));
            }
            let r2 = extracted(*snd, env, r1.1);
            lemma_settled(*fst, env, p);
            lemma_settled(*snd, env, r1.1);
            lemma_numbered(*fst, env, p);
            lemma_numbered(*snd, env, r1.1);
            lemma_settled_defs_chain(p, r1.1, r2.1, env);
            assert forall|env2: Env, q: Progress| env2.ctrs == env.ctrs && q.error is None implies ({
                let r = #[trigger] extracted(t2, env2, q);
                r.0 == t2 && r.1.defs == q.defs && r.1.count == q.count && r.1.error is None
            }) by {
                let s1 = extracted(r1.0, env2, q);
                let s2 = extracted(r2.0, env2, s1.1);
            }
        },
        TermView::Opx { fst, snd, .. } => {
            let r1 = extracted(*fst, env, p);
            if r1.1.error is Some {
                assert(extracted(*snd, env, r1.1) == (*snd, r1.1));
            }
            let r2 = extracted(*snd, env, r1.1);
            lemma_settled(*fst, env, p);
            lemma_settled(*snd, env, r1.1);
            lemma_numbered(*fst, env, p);
            lemma_numbered(*snd, env, r1.1);
            lemma_settled_defs_chain(p, r1.1, r2.1, env);
            assert forall|env2: Env, q: Progress| env2.ctrs == env.ctrs && q.error is None implies ({
                let r = #[trigger] extracted(t2, env2, q);
                r.0 == t2 && r.1.defs == q.defs && r.1.count == q.count && r.1.error is None
            }) by {
                let s1 = extracted(r1.0, env2, q);
                let s2 = extracted(r2.0, env2, s1.1);
            }
        },
        TermView::Mat { matched, arms } => {
            lemma_settled_match(*matched, arms, env, p);
        },
        _ => {},
    }
}

proof fn lemma_settled_match(matched: TermView, arms: Seq<(PatternView, TermView)>, env: Env, p: Progress)
    requires
        well_formed(TermView::Mat { matched: Box::new(matched), arms }, env.ctrs),
        p.error is None,
        extracted(TermView::Mat { matched: Box::new(matched), arms }, env, p).1.error is None,
    ensures
        settled(extracted(TermView::Mat { matched: Box::new(matched), arms }, env, p).0, env.ctrs),
        new_defs_settled(
            p,
            extracted(TermView::Mat { matched: Box::new(matched), arms }, env, p).1,
            env.ctrs,
        ),
    decreases arms, arms.len() + 1,
{
    let t = TermView::Mat { matched: Box::new(matched), arms };
    let t2 = extracted(t, env, p).0;
    let (done, p1) = extracted_arms(arms, env, p, arms.len());
    lemma_settled_arms(arms, env, p, arms.len());
    lemma_numbered_arms(arms, env, p, arms.len());
    let r = lifted(matched, done, env, p1);
    assert(extracted(t, env, p) == r);
    let pats = arm_patterns(done);
    let ty = inferred_type(pats, env.ctrs)->Ok_0;
    if is_extracted(ty) {
        let name = synthesized_name(env.origin, p1.count + 1);
        let def = synthesized_def(done, env.origin, env.builtin, p1.count + 1);
        assert forall|env2: Env, q: Progress| env2.ctrs == env.ctrs && q.error is None implies ({
            let r = #[trigger] extracted(t2, env2, q);
            r.0 == t2 && r.1.defs == q.defs && r.1.count == q.count && r.1.error is None
        }) by {
            assert(extracted(TermView::Ref { nam: name }, env2, q) == (TermView::Ref { nam: name }, q));
            assert(extracted(matched, env2, q) == (matched, q));
        }
        assert forall|j: int| 0 <= j < def.rules.len() implies settled(
            (#[trigger] def.rules[j]).body,
            env.ctrs,
        ) by {
            assert(def.rules[j].body == done[j].1);
        }
        assert forall|k: int| p.defs.len() <= k < r.1.defs.len() implies def_settled(
            #[trigger] r.1.defs[k],
            env.ctrs,
        ) by {
            if k < p1.defs.len() {
                assert(r.1.defs[k] == p1.defs[k]);
            } else {
                assert(r.1.defs[k] == def);
            }
        }
    } else {
        assert forall|env2: Env, q: Progress| env2.ctrs == env.ctrs && q.error is None implies ({
            let r = #[trigger] extracted(t2, env2, q);
            r.0 == t2 && r.1.defs == q.defs && r.1.count == q.count && r.1.error is None
        }) by {
            lemma_arms_fixed(done, env2, q, done.len());
            let s = extracted_arms(done, env2, q, done.len());
            let l = lifted(matched, done, env2, s.1);
            assert(extracted(t2, env2, q) == l);
        }
        assert(r.1.defs == p1.defs);
    }
}

/// The same for the first `n` arms of a match: their bodies are settled, and
/// the patterns and the other arms are as they were.
proof fn lemma_settled_arms(arms: Seq<(PatternView, TermView)>, env: Env, p: Progress, n: nat)
    requires
        n <= arms.len(),
        forall|k: int| 0 <= k < arms.len() ==> well_formed((#[trigger] arms[k]).1, env.ctrs),
        p.error is None,
        extracted_arms(arms, env, p, n).1.error is None,
    ensures
        extracted_arms(arms, env, p, n).0.len() == arms.len(),
        forall|k: int|
            0 <= k < arms.len() ==> (#[trigger] extracted_arms(arms, env, p, n).0[k]).0 == arms[k].0,
        forall|k: int| 0 <= k < n ==> settled((#[trigger] extracted_arms(arms, env, p, n).0[k]).1, env.ctrs),
        new_defs_settled(p, extracted_arms(arms, env, p, n).1, env.ctrs),
    decreases arms, n,
{
    if n > 0 {
        let r = extracted_arms(arms, env, p, (n - 1) as nat);
        if r.1.error is Some {
            assert(extracted(arms[n - 1].1, env, r.1) == (arms[n - 1].1, r.1));
        }
        lemma_settled_arms(arms, env, p, (n - 1) as nat);
        lemma_settled(arms[n - 1].1, env, r.1);
        lemma_numbered_arms(arms, env, p, (n - 1) as nat);
        lemma_numbered(arms[n - 1].1, env, r.1);
        lemma_settled_defs_chain(p, r.1, extracted(arms[n - 1].1, env, r.1).1, env);
    }
}

/// Rewriting what a rewrite has left performs no further extraction: the
/// term stays as it is, no definition is created, the sequence number stays,
/// and nothing fails. Only warnings are given again.
pub proof fn law_second_pass_extracts_nothing(t: TermView, env: Env, p: Progress, q: Progress)
    requires
        well_formed(t, env.ctrs),
        p.error is None,
        extracted(t, env, p).1.error is None,
        q.error is None,
    ensures
        extracted(extracted(t, env, p).0, env, q).0 == extracted(t, env, p).0,
        extracted(extracted(t, env, p).0, env, q).1.defs == q.defs,
        extracted(extracted(t, env, p).0, env, q).1.count == q.count,
        extracted(extracted(t, env, p).0, env, q).1.error is None,
{
    lemma_settled(t, env, p);
}

/// Rules whose bodies are settled come out of a rewrite as they went in.
proof fn lemma_rules_fixed(rules: Seq<RuleView>, env: Env, q: Progress, m: nat)
    requires
        m <= rules.len(),
        forall|k: int| 0 <= k < m ==> settled((#[trigger] rules[k]).body, env.ctrs),
        q.error is None,
    ensures
        extracted_rules(rules, env, q, m).0 == rules,
        extracted_rules(rules, env, q, m).1.defs == q.defs,
        extracted_rules(rules, env, q, m).1.count == q.count,
        extracted_rules(rules, env, q, m).1.error is None,
    decreases m,
{
    if m > 0 {
        lemma_rules_fixed(rules, env, q, (m - 1) as nat);
        let r = extracted_rules(rules, env, q, (m - 1) as nat);
        assert(settled(rules[m - 1].body, env.ctrs));
        let s = extracted(rules[m - 1].body, env, r.1);
        assert(extracted_rules(rules, env, q, m).0 =~= rules);
    }
}

/// After the rewrite of the first `n` rules, their bodies are settled, and
/// so are the definitions created.
proof fn lemma_settled_rules(rules: Seq<RuleView>, env: Env, p: Progress, n: nat)
    requires
        n <= rules.len(),
        forall|k: int| 0 <= k < rules.len() ==> well_formed((#[trigger] rules[k]).body, env.ctrs),
        p.error is None,
        extracted_rules(rules, env, p, n).1.error is None,
    ensures
        extracted_rules(rules, env, p, n).0.len() == rules.len(),
        forall|k: int| 0 <= k < n ==> settled((#[trigger] extracted_rules(rules, env, p, n).0[k]).body, env.ctrs),
        forall|k: int| n <= k < rules.len() ==> #[trigger] extracted_rules(rules, env, p, n).0[k] == rules[k],
        new_defs_settled(p, extracted_rules(rules, env, p, n).1, env.ctrs),
    decreases n,
{
    if n > 0 {
        let r = extracted_rules(rules, env, p, (n - 1) as nat);
        if r.1.error is Some {
            assert(extracted(rules[n - 1].body, env, r.1) == (rules[n - 1].body, r.1));
        }
        lemma_settled_rules(rules, env, p, (n - 1) as nat);
        lemma_settled(rules[n - 1].body, env, r.1);
        lemma_numbered_rules(rules, env, p, (n - 1) as nat);
        lemma_numbered(rules[n - 1].body, env, r.1);
        lemma_settled_defs_chain(p, r.1, extracted(rules[n - 1].body, env, r.1).1, env);
    }
}

/// Whether every definition of the table is settled.
pub open spec fn entries_settled(entries: Seq<(Seq<char>, DefinitionView)>, ctrs: Map<Seq<char>, Seq<char>>) -> bool {
    forall|i: int| 0 <= i < entries.len() ==> def_settled((#[trigger] entries[i]).1, ctrs)
}

/// Whether every one of the definitions is settled.
pub open spec fn defs_settled(defs: Seq<DefinitionView>, ctrs: Map<Seq<char>, Seq<char>>) -> bool {
    forall|k: int| 0 <= k < defs.len() ==> def_settled(#[trigger] defs[k], ctrs)
}

proof fn lemma_entries_settled(
    entries: Seq<(Seq<char>, DefinitionView)>,
    ctrs: Map<Seq<char>, Seq<char>>,
    warnings: Seq<WarningView>,
    n: nat,
)
    requires
        entries_well_formed(entries, ctrs),
        n <= entries.len(),
        extracted_entries(entries, ctrs, warnings, n).error is None,
    ensures
        extracted_entries(entries, ctrs, warnings, n).entries.len() == entries.len(),
        forall|i: int|
            0 <= i < n ==> def_settled((#[trigger] extracted_entries(entries, ctrs, warnings, n).entries[i]).1, ctrs),
        forall|i: int|
            n <= i < entries.len() ==> #[trigger] extracted_entries(entries, ctrs, warnings, n).entries[i]
                == entries[i],
        defs_settled(extracted_entries(entries, ctrs, warnings, n).defs, ctrs),
    decreases n,
{
    if n > 0 {
        let b = extracted_entries(entries, ctrs, warnings, (n - 1) as nat);
        lemma_entries_settled(entries, ctrs, warnings, (n - 1) as nat);
        let name = entries[n - 1].0;
        let d = entries[n - 1].1;
        let env = Env { origin: name, builtin: d.builtin, ctrs };
        let start = Progress { defs: b.defs, count: 0, warnings: b.warnings, error: None };
        assert(def_well_formed(d, ctrs));
        lemma_settled_rules(d.rules, env, start, d.rules.len());
        lemma_numbered_rules(d.rules, env, start, d.rules.len());
        let r = extracted_rules(d.rules, env, start, d.rules.len());
        let out = extracted_entries(entries, ctrs, warnings, n);
        assert(out.defs == r.1.defs);
        assert forall|k: int| 0 <= k < out.defs.len() implies def_settled(#[trigger] out.defs[k], ctrs) by {
            if k < b.defs.len() {
                assert(r.1.defs[k] == b.defs[k]);
            }
        }
        assert(def_settled(out.entries[n - 1].1, ctrs));
    }
}

proof fn lemma_with_all_settled(
    entries: Seq<(Seq<char>, DefinitionView)>,
    defs: Seq<DefinitionView>,
    ctrs: Map<Seq<char>, Seq<char>>,
    n: nat,
)
    requires
        entries_settled(entries, ctrs),
        defs_settled(defs, ctrs),
        n <= defs.len(),
    ensures
        entries_settled(with_all(entries, defs, n), ctrs),
    decreases n,
{
    if n > 0 {
        lemma_with_all_settled(entries, defs, ctrs, (n - 1) as nat);
        assert(def_settled(defs[n - 1], ctrs));
    }
}

proof fn lemma_entries_fixed(
    table: Seq<(Seq<char>, DefinitionView)>,
    ctrs: Map<Seq<char>, Seq<char>>,
    warnings: Seq<WarningView>,
    n: nat,
)
    requires
        entries_settled(table, ctrs),
        n <= table.len(),
    ensures
        extracted_entries(table, ctrs, warnings, n).entries == table,
        extracted_entries(table, ctrs, warnings, n).defs == Seq::<DefinitionView>::empty(),
        extracted_entries(table, ctrs, warnings, n).error is None,
    decreases n,
{
    if n > 0 {
        lemma_entries_fixed(table, ctrs, warnings, (n - 1) as nat);
        let b = extracted_entries(table, ctrs, warnings, (n - 1) as nat);
        let name = table[n - 1].0;
        let d = table[n - 1].1;
        let env = Env { origin: name, builtin: d.builtin, ctrs };
        let start = Progress { defs: b.defs, count: 0, warnings: b.warnings, error: None };
        assert(def_settled(d, ctrs));
        lemma_rules_fixed(d.rules, env, start, d.rules.len());
        let out = extracted_entries(table, ctrs, warnings, n);
        assert(out.entries =~= table);
    }
}

/// Rewriting a program that was rewritten performs no further extraction:
/// the second pass fails nowhere, creates no definition, and leaves the
/// table of definitions as the first pass left it.
pub proof fn law_second_pass_keeps_the_table(
    entries: Seq<(Seq<char>, DefinitionView)>,
    ctrs: Map<Seq<char>, Seq<char>>,
    warnings: Seq<WarningView>,
    later: Seq<WarningView>,
)
    requires
        entries_well_formed(entries, ctrs),
        extracted_entries(entries, ctrs, warnings, entries.len()).error is None,
    ensures
        ({
            let first = extracted_entries(entries, ctrs, warnings, entries.len());
            let table = with_all(first.entries, first.defs, first.defs.len());
            let second = extracted_entries(table, ctrs, later, table.len());
            &&& second.error is None
            &&& second.defs.len() == 0
            &&& with_all(second.entries, second.defs, second.defs.len()) == table
        }),
{
    let first = extracted_entries(entries, ctrs, warnings, entries.len());
    lemma_entries_settled(entries, ctrs, warnings, entries.len());
    lemma_with_all_settled(first.entries, first.defs, ctrs, first.defs.len());
    let table = with_all(first.entries, first.defs, first.defs.len());
    lemma_entries_fixed(table, ctrs, later, table.len());
}

/// A match that is lifted keeps its arms: the new definition has one rule
/// for each arm, in order, whose only pattern is the arm's pattern and whose
/// body is the arm's body, and the call that replaces the match applies that
/// definition to what the match looked at. So whatever picks a rule by its
/// pattern picks the rule of the arm that the match would have picked.
pub proof fn law_lifted_match_keeps_its_arms(
    matched: TermView,
    arms: Seq<(PatternView, TermView)>,
    env: Env,
    p: Progress,
)
    requires
        inferred_type(arm_patterns(arms), env.ctrs) is Ok,
        is_extracted(inferred_type(arm_patterns(arms), env.ctrs)->Ok_0),
    ensures
        ({
            let (t, q) = lifted(matched, arms, env, p);
            let d = q.defs.last();
            &&& q.defs == p.defs.push(d)
            &&& d.name == synthesized_name(env.origin, p.count + 1)
            &&& d.builtin == env.builtin
            &&& d.source == Source::Generated
            &&& d.rules.len() == arms.len()
            &&& forall|i: int|
                0 <= i < arms.len() ==> (#[trigger] d.rules[i]).pats == seq![arms[i].0] && d.rules[i].body
                    == arms[i].1
            &&& t == (TermView::App { fun: Box::new(TermView::Ref { nam: d.name }), arg: Box::new(matched) })
        }),
{
}

/// A value that a match can look at.
pub enum Value {
    Num(u64),
    Tup(Box<Value>, Box<Value>),
    Ctr(Seq<char>, Seq<Value>),
}

/// Whether the value has the shape that the pattern asks for.
pub open spec fn pattern_matches(p: PatternView, v: Value) -> bool
    decreases p,
{
    match p {
        PatternView::Var(_) => true,
        PatternView::Num(n) => v == Value::Num(n),
        PatternView::Tup(a, b) => v is Tup && pattern_matches(*a, *v->Tup_0) && pattern_matches(*b, *v->Tup_1),
        PatternView::Ctr(name, args) => v is Ctr && v->Ctr_0 == name && v->Ctr_1.len() == args.len() && forall|
            i: int,
        |
            0 <= i < args.len() ==> pattern_matches(#[trigger] args[i], v->Ctr_1[i]),
    }
}

/// The arm that a match takes on the value: the first, from arm `i` on,
/// whose pattern the value matches.
pub open spec fn taken_arm(arms: Seq<(PatternView, TermView)>, v: Value, i: int) -> Option<int>
    decreases arms.len() - i,
{
    if i < 0 || i >= arms.len() {
        None
    } else if pattern_matches(arms[i].0, v) {
        Some(i)
    } else {
        taken_arm(arms, v, i + 1)
    }
}

/// The rule that a call of a definition on one value takes: the first, from
/// rule `i` on, that has one pattern, which the value matches.
pub open spec fn taken_rule(rules: Seq<RuleView>, v: Value, i: int) -> Option<int>
    decreases rules.len() - i,
{
    if i < 0 || i >= rules.len() {
        None
    } else if rules[i].pats.len() == 1 && pattern_matches(rules[i].pats[0], v) {
        Some(i)
    } else {
        taken_rule(rules, v, i + 1)
    }
}

proof fn lemma_taken_alike(
    arms: Seq<(PatternView, TermView)>,
    origin: Seq<char>,
    builtin: bool,
    n: nat,
    v: Value,
    i: int,
)
    requires
        0 <= i,
    ensures
        taken_rule(synthesized_def(arms, origin, builtin, n).rules, v, i) == taken_arm(arms, v, i),
    decreases arms.len() - i,
{
    if i < arms.len() {
        lemma_taken_alike(arms, origin, builtin, n, v, i + 1);
    }
}

/// The call that replaces a match takes, on every value, the rule of the arm
/// that the match takes on it, and that rule has the arm's pattern and the
/// arm's body: the same variables are bound and the same term is evaluated,
/// and no rule is taken where no arm is.
pub proof fn law_call_takes_the_arm_of_the_match(
    arms: Seq<(PatternView, TermView)>,
    origin: Seq<char>,
    builtin: bool,
    n: nat,
    v: Value,
)
    ensures
        taken_rule(synthesized_def(arms, origin, builtin, n).rules, v, 0) == taken_arm(arms, v, 0),
        forall|i: int|
            0 <= i < arms.len() ==> (#[trigger] synthesized_def(arms, origin, builtin, n).rules[i]) == (RuleView {
                pats: seq![arms[i].0],
                body: arms[i].1,
            }),
{
    lemma_taken_alike(arms, origin, builtin, n, v, 0);
}

} // verus!