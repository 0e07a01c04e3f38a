use crate::extract::{extracted, progress_of, well_formed, Env, Progress};
use crate::imports::Imports;
use crate::lattice::{mismatch_message, MatchError, Mismatch};
use crate::table::{ctr_owners, def_at, def_at_mut, def_entries, defs_insert, defs_len, entry_names, with_entry};
use crate::term::{
    definitions_view, warnings_view, Definition, DefinitionView, Name, Rule, RuleView, Source, Warning,
    WarningView,
};
use indexmap::IndexMap;
use vstd::prelude::*;
use vstd::string::StringExecFns;

verus! {

/// A program: its definitions by name, the table that gives each constructor
/// the type that owns it, and its imports.
pub struct Book {
    pub defs: IndexMap<Name, Definition>,
    pub ctrs: IndexMap<Name, Name>,
    pub imports: Imports,
}

/// What the rewrite of a program has produced so far.
pub struct BookProgress {
    /// The entries of the table, those already visited rewritten.
    pub entries: Seq<(Seq<char>, DefinitionView)>,
    /// The definitions created, oldest first.
    pub defs: Seq<DefinitionView>,
    /// The warnings given, oldest first.
    pub warnings: Seq<WarningView>,
    /// The definition in which the rewrite stopped, and why, if it did.
    pub error: Option<(Seq<char>, Mismatch)>,
}

/// Whether the rewrite accepts every rule body of the definition.
pub open spec fn def_well_formed(d: DefinitionView, ctrs: Map<Seq<char>, Seq<char>>) -> bool {
    forall|j: int| 0 <= j < d.rules.len() ==> well_formed((#[trigger] d.rules[j]).body, ctrs)
}

/// Whether the rewrite accepts every definition of the table.
pub open spec fn entries_well_formed(
    entries: Seq<(Seq<char>, DefinitionView)>,
    ctrs: Map<Seq<char>, Seq<char>>,
) -> bool {
    forall|i: int| 0 <= i < entries.len() ==> def_well_formed((#[trigger] entries[i]).1, ctrs)
}

/// The rules after the bodies of the first `n` of them were rewritten, in
/// order, and what that produced.
pub open spec fn extracted_rules(rules: Seq<RuleView>, env: Env, p: Progress, n: nat) -> (
    Seq<RuleView>,
    Progress,
)
    decreases n,
{
    if n == 0 || n > rules.len() {
        (rules, p)
    } else {
        let (done, p1) = extracted_rules(rules, env, p, (n - 1) as nat);
        let (b, p2) = extracted(rules[n - 1].body, env, p1);
        (done.update(n - 1, RuleView { pats: rules[n - 1].pats, body: b }), p2)
    }
}

/// The definition that stands under `name` after the rewrite of all its
/// rules, and what that produced. The sequence numbers of the definitions
/// created for it start at one.
pub open spec fn extracted_def(
    name: Seq<char>,
    d: DefinitionView,
    ctrs: Map<Seq<char>, Seq<char>>,
    defs: Seq<DefinitionView>,
    warnings: Seq<WarningView>,
) -> (DefinitionView, Progress) {
    let env = Env { origin: name, builtin: d.builtin, ctrs };
    let start = Progress { defs, count: 0, warnings, error: None };
    let (rules, end) = extracted_rules(d.rules, env, start, d.rules.len());
    (DefinitionView { rules, ..d }, end)
}

/// The state after the first `n` entries were rewritten, in the table's
/// order. The rewrite stops at the first definition that fails.
pub open spec fn extracted_entries(
    entries: Seq<(Seq<char>, DefinitionView)>,
    ctrs: Map<Seq<char>, Seq<char>>,
    warnings: Seq<WarningView>,
    n: nat,
) -> BookProgress
    decreases n,
{
    if n == 0 || n > entries.len() {
        BookProgress { entries, defs: Seq::empty(), warnings, error: None }
    } else {
        let b = extracted_entries(entries, ctrs, warnings, (n - 1) as nat);
        if b.error is Some {
            b
        } else {
            let name = entries[n - 1].0;
            let (d, p) = extracted_def(name, entries[n - 1].1, ctrs, b.defs, b.warnings);
            BookProgress {
                entries: b.entries.update(n - 1, (name, d)),
                defs: p.defs,
                warnings: p.warnings,
                error: match p.error {
                    Some(m) => Some((name, m)),
                    None => None,
                },
            }
        }
    }
}

/// The entries after the first `n` of `defs` were put into the table, each
/// under its own name.
pub open spec fn with_all(entries: Seq<(Seq<char>, DefinitionView)>, defs: Seq<DefinitionView>, n: nat) -> Seq<
    (Seq<char>, DefinitionView),
>
    decreases n,
{
    if n == 0 || n > defs.len() {
        entries
    } else {
        with_entry(with_all(entries, defs, (n - 1) as nat), defs[n - 1].name, defs[n - 1])
    }
}

/// The text of the error for a rewrite that stopped in definition `name`.
pub open spec fn failure_text(name: Seq<char>, m: Mismatch) -> Seq<char> {
    "In definition '"@ + name + "': "@ + mismatch_message(m)
}

/// The rules that the rewrite has not reached yet are as they were.
pub proof fn lemma_rules_untouched(rules: Seq<RuleView>, env: Env, p: Progress, n: nat)
    requires
        n <= rules.len(),
    ensures
        extracted_rules(rules, env, p, n).0.len() == rules.len(),
        forall|k: int| n <= k < rules.len() ==> #[trigger] extracted_rules(rules, env, p, n).0[k] == rules[k],
    decreases n,
{
    if n > 0 {
        lemma_rules_untouched(rules, env, p, (n - 1) as nat);
    }
}

/// Once a mismatch has stopped the rewrite, further rules change nothing.
pub proof fn lemma_rules_stopped(rules: Seq<RuleView>, env: Env, p: Progress, n: nat, m: nat)
    requires
        n <= m <= rules.len(),
        extracted_rules(rules, env, p, n).1.error is Some,
    ensures
        extracted_rules(rules, env, p, m) == extracted_rules(rules, env, p, n),
    decreases m,
{
    if n < m {
        lemma_rules_stopped(rules, env, p, n, (m - 1) as nat);
        lemma_rules_untouched(rules, env, p, n);
        let r = extracted_rules(rules, env, p, (m - 1) as nat);
        assert(extracted(rules[m - 1].body, env, r.1) == (rules[m - 1].body, r.1));
        assert(extracted_rules(rules, env, p, m).0 =~= r.0);
    }
}

/// Once a definition has failed, further entries change nothing.
pub proof fn lemma_entries_stopped(
    entries: Seq<(Seq<char>, DefinitionView)>,
    ctrs: Map<Seq<char>, Seq<char>>,
    warnings: Seq<WarningView>,
    n: nat,
    m: nat,
)
    requires
        n <= m <= entries.len(),
        extracted_entries(entries, ctrs, warnings, n).error is Some,
    ensures
        extracted_entries(entries, ctrs, warnings, m) == extracted_entries(entries, ctrs, warnings, n),
    decreases m,
{
    if n < m {
        lemma_entries_stopped(entries, ctrs, warnings, n, (m - 1) as nat);
    }
}

/// The views of a list of rules, in order.
pub open spec fn rules_view(rules: Seq<Rule>) -> Seq<RuleView> {
    rules.map_values(|r: Rule| r@)
}

/// Rewrites every rule body of one definition, numbering the definitions
/// created for it from one.
pub fn extract_def_matches(
    def: &mut Definition,
    name: &Name,
    ctrs: &IndexMap<Name, Name>,
    new_defs: &mut Vec<Definition>,
    warnings: &mut Vec<Warning>,
) -> (r: Result<(), MatchError>)
    requires
        def_well_formed(old(def)@, ctr_owners(*ctrs)),
    ensures
        ({
            let (d, end) = extracted_def(
                name@,
                old(def)@,
                ctr_owners(*ctrs),
                definitions_view(old(new_defs)@),
                warnings_view(old(warnings)@),
            );
            &&& warnings_view(final(warnings)@) == end.warnings
            &&& definitions_view(final(new_defs)@) == end.defs
            &&& final(def)@ == d
            &&& match end.error {
                None => r is Ok,
                Some(m) => r is Err && r->Err_0 is Infer && r->Err_0->Infer_0@ == mismatch_message(m),
            }
        }),
{
    let ghost env = Env { origin: name@, builtin: def.builtin, ctrs: ctr_owners(*ctrs) };
    let ghost start = progress_of(new_defs@, 0, warnings@);
    let ghost before = def@.rules;
    let builtin = def.builtin;
    let mut count: u128 = 0;
    let n: usize = def.rules.len();
    let mut j: usize = 0;
    while j < n
        invariant
            j <= n,
            n == def.rules@.len(),
            n == before.len(),
            before == old(def)@.rules,
            builtin == old(def).builtin,
            def.builtin == old(def).builtin,
            def.name == old(def).name,
            def.source == old(def).source,
            env == (Env { origin: name@, builtin, ctrs: ctr_owners(*ctrs) }),
            start == progress_of(old(new_defs)@, 0, old(warnings)@),
            forall|k: int| j <= k < n ==> (#[trigger] def.rules@[k])@ == before[k],
            forall|k: int| 0 <= k < n ==> well_formed((#[trigger] before[k]).body, env.ctrs),
            count <= new_defs@.len() + usize::MAX,
            extracted_rules(before, env, start, j as nat) == (
                rules_view(def.rules@),
                progress_of(new_defs@, count, warnings@),
            ),
        decreases n - j,
    {
        let ghost p1 = progress_of(new_defs@, count, warnings@);
        let ghost done = rules_view(def.rules@);
        match def.rules[j].body.extract_adt_matches(name, builtin, ctrs, new_defs, &mut count, warnings) {
            Err(e) => {
                proof {
                    let b = extracted(before[j as int].body, env, p1).0;
                    assert(def.rules@[j as int]@.pats == before[j as int].pats);
                    assert(rules_view(def.rules@) =~= done.update(
                        j as int,
                        RuleView { pats: before[j as int].pats, body: b },
                    ));
                    assert(extracted_rules(before, env, start, (j + 1) as nat).1 == extracted(
                        before[j as int].body,
                        env,
                        p1,
                    ).1);
                    lemma_rules_stopped(before, env, start, (j + 1) as nat, n as nat);
                }
                return Err(e);
            },
            Ok(()) => {},
        }
        proof {
            let b = extracted(before[j as int].body, env, p1).0;
            assert(def.rules@[j as int]@.pats == before[j as int].pats);
            assert(rules_view(def.rules@) =~= done.update(
                j as int,
                RuleView { pats: before[j as int].pats, body: b },
            ));
        }
        j += 1;
    }
    Ok(())
}

/// Whether the rewrite accepts every rule body of the definition.
pub fn def_is_well_formed(def: &Definition, ctrs: &IndexMap<Name, Name>) -> (r: bool)
    ensures
        r == def_well_formed(def@, ctr_owners(*ctrs)),
{
    let n: usize = def.rules.len();
    let mut j: usize = 0;
    while j < n
        invariant
            j <= n,
            n == def.rules@.len(),
            forall|k: int| 0 <= k < j ==> well_formed((#[trigger] def@.rules[k]).body, ctr_owners(*ctrs)),
        decreases n - j,
    {
        if !def.rules[j].body.is_well_formed(ctrs) {
            assert(!well_formed(def@.rules[j as int].body, ctr_owners(*ctrs)));
            return false;
        }
        j += 1;
    }
    true
}

impl Book {
    /// Whether the rewrite accepts every definition of the program.
    pub fn is_well_formed(&self) -> (r: bool)
        ensures
            r == entries_well_formed(def_entries(self.defs), ctr_owners(self.ctrs)),
    {
        let n: usize = defs_len(&self.defs);
        let mut i: usize = 0;
        while i < n
            invariant
                i <= n,
                n == def_entries(self.defs).len(),
                forall|k: int|
                    0 <= k < i ==> def_well_formed((#[trigger] def_entries(self.defs)[k]).1, ctr_owners(self.ctrs)),
            decreases n - i,
        {
            let (_, def) = def_at(&self.defs, i);
            if !def_is_well_formed(def, &self.ctrs) {
                assert(!def_well_formed(def_entries(self.defs)[i as int].1, ctr_owners(self.ctrs)));
                return false;
            }
            i += 1;
        }
        true
    }

    /// Extracts the matches on tuples and algebraic types of every definition
    /// into definitions of their own, and adds those to the table once all the
    /// definitions were visited. Fails at the first definition with a match
    /// whose patterns do not agree; the table then has the names it had, and
    /// its definitions are left as far as the rewrite had got.
    pub fn extract_adt_matches(&mut self, warnings: &mut Vec<Warning>) -> (r: Result<(), String>)
        requires
            entries_well_formed(def_entries(old(self).defs), ctr_owners(old(self).ctrs)),
        ensures
            final(self).ctrs == old(self).ctrs,
            final(self).imports == old(self).imports,
            ({
                let entries = def_entries(old(self).defs);
                let out = extracted_entries(
                    entries,
                    ctr_owners(old(self).ctrs),
                    warnings_view(old(warnings)@),
                    entries.len(),
                );
                &&& warnings_view(final(warnings)@) == out.warnings
                &&& match out.error {
                    None => r is Ok && def_entries(final(self).defs) == with_all(
                        out.entries,
                        out.defs,
                        out.defs.len(),
                    ),
                    Some(e) => {
                        &&& r is Err
                        &&& r->Err_0@ == failure_text(e.0, e.1)
                        &&& def_entries(final(self).defs) == out.entries
                        &&& entry_names(def_entries(final(self).defs)) == entry_names(entries)
                    },
                }
            }),
    {
        let ghost entries = def_entries(self.defs);
        let ghost owners = ctr_owners(self.ctrs);
        let ghost w0 = warnings_view(warnings@);
        let mut new_defs: Vec<Definition> = Vec::new();
        let n: usize = defs_len(&self.defs);
        let mut i: usize = 0;
        proof {
            assert(definitions_view(new_defs@) =~= Seq::empty());
        }
        while i < n
            invariant
                i <= n,
                n == entries.len(),
                self.ctrs == old(self).ctrs,
                self.imports == old(self).imports,
                entries == def_entries(old(self).defs),
                owners == ctr_owners(old(self).ctrs),
                w0 == warnings_view(old(warnings)@),
                entries_well_formed(entries, owners),
                def_entries(self.defs).len() == n,
                forall|k: int| i <= k < n ==> def_entries(self.defs)[k] == entries[k],
                forall|k: int| 0 <= k < n ==> (#[trigger] def_entries(self.defs)[k]).0 == entries[k].0,
                extracted_entries(entries, owners, w0, i as nat) == (BookProgress {
                    entries: def_entries(self.defs),
                    defs: definitions_view(new_defs@),
                    warnings: warnings_view(warnings@),
                    error: None,
                }),
            decreases n - i,
        {
            let ghost here = def_entries(self.defs);
            let (name, def) = def_at_mut(&mut self.defs, i);
            match extract_def_matches(def, name, &self.ctrs, &mut new_defs, warnings) {
                Err(e) => {
                    let mut s = String::from_str("In definition '");
                    s.append(name.as_str());
                    s.append("': ");
                    s.append(e.to_string().as_str());
                    proof {
                        lemma_entries_stopped(entries, owners, w0, (i + 1) as nat, n as nat);
                        assert(entry_names(def_entries(self.defs)) =~= entry_names(entries));
                    }
                    return Err(s);
                },
                Ok(()) => {},
            }
            i += 1;
        }
        let ghost out = extracted_entries(entries, owners, w0, n as nat);
        let ghost fresh = definitions_view(new_defs@);
        let m: usize = new_defs.len();
        let mut k: usize = 0;
        while k < m
            invariant
                k <= m,
                m == new_defs@.len(),
                m == fresh.len(),
                self.ctrs == old(self).ctrs,
                self.imports == old(self).imports,
                forall|t: int| k <= t < m ==> (#[trigger] new_defs@[t])@ == fresh[t],
                def_entries(self.defs) == with_all(out.entries, fresh, k as nat),
            decreases m - k,
        {
            let mut def = Definition {
                name: String::new(),
                rules: Vec::new(),
                builtin: false,
                source: Source::Generated,
            };
            core::mem::swap(&mut new_defs[k], &mut def);
            let name = def.name.clone();
            defs_insert(&mut self.defs, name, def);
            k += 1;
        }
        Ok(())
    }
}

impl Book {
    /// Extracts the matches as `extract_adt_matches` does where that accepts
    /// the program; else gives `None` and changes nothing.
    pub fn try_extract_adt_matches(&mut self, warnings: &mut Vec<Warning>) -> (r: Option<Result<(), String>>)
        ensures
            r is Some <==> entries_well_formed(def_entries(old(self).defs), ctr_owners(old(self).ctrs)),
            r is None ==> *final(self) == *old(self) && *final(warnings) == *old(warnings),
            final(self).ctrs == old(self).ctrs,
            final(self).imports == old(self).imports,
            r is Some ==> ({
                let entries = def_entries(old(self).defs);
                let out = extracted_entries(
                    entries,
                    ctr_owners(old(self).ctrs),
                    warnings_view(old(warnings)@),
                    entries.len(),
                );
                &&& warnings_view(final(warnings)@) == out.warnings
                &&& match out.error {
                    None => r->Some_0 is Ok && def_entries(final(self).defs) == with_all(
                        out.entries,
                        out.defs,
                        out.defs.len(),
                    ),
                    Some(e) => {
                        &&& r->Some_0 is Err
                        &&& r->Some_0->Err_0@ == failure_text(e.0, e.1)
                        &&& def_entries(final(self).defs) == out.entries
                        &&& entry_names(def_entries(final(self).defs)) == entry_names(entries)
                    },
                }
            }),
    {
        if self.is_well_formed() {
            Some(self.extract_adt_matches(warnings))
        } else {
            None
        }
    }
}

/// What a check of a program has to say: the warnings, and the errors that
/// stopped it.
pub struct Diagnostics {
    pub warnings: Vec<Warning>,
    pub errors: Vec<String>,
}

/// Checks a program by running the extraction of matches on it. The
/// diagnostics come back as `Ok` with the warnings where it went through, and
/// as `Err` with the warnings given before the failure and the one error
/// where it did not.
pub fn check_book(book: &mut Book) -> (r: Result<Diagnostics, Diagnostics>)
    requires
        entries_well_formed(def_entries(old(book).defs), ctr_owners(old(book).ctrs)),
    ensures
        final(book).ctrs == old(book).ctrs,
        final(book).imports == old(book).imports,
        ({
            let entries = def_entries(old(book).defs);
            let out = extracted_entries(entries, ctr_owners(old(book).ctrs), Seq::empty(), entries.len());
            match out.error {
                None => {
                    &&& r is Ok
                    &&& warnings_view(r->Ok_0.warnings@) == out.warnings
                    &&& r->Ok_0.errors@.len() == 0
                    &&& def_entries(final(book).defs) == with_all(out.entries, out.defs, out.defs.len())
                },
                Some(e) => {
                    &&& r is Err
                    &&& warnings_view(r->Err_0.warnings@) == out.warnings
                    &&& r->Err_0.errors@.len() == 1
                    &&& r->Err_0.errors@[0]@ == failure_text(e.0, e.1)
                    &&& def_entries(final(book).defs) == out.entries
                    &&& entry_names(def_entries(final(book).defs)) == entry_names(entries)
                },
            }
        }),
{
    let mut warnings: Vec<Warning> = Vec::new();
    proof {
        assert(warnings_view(warnings@) =~= Seq::empty());
    }
    match book.extract_adt_matches(&mut warnings) {
        Ok(()) => Ok(Diagnostics { warnings, errors: Vec::new() }),
        Err(e) => {
            let mut errors: Vec<String> = Vec::new();
            errors.push(e);
            Err(Diagnostics { warnings, errors })
        },
    }
}

} // verus!
