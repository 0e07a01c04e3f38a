use crate::book::{Book, Diagnostics};
use crate::imports::{bindings_view, import_definition, imported_def, visible, visible_name};
use crate::subst::renamed;
use crate::table::{def_at_mut, def_entries, defs_drain, defs_insert, defs_len, entry_defs, with_entry};
use crate::term::{definitions_view, Definition, DefinitionView, Name, RuleView, Source, Term, TermView};
use indexmap::IndexMap;
use vstd::prelude::*;

verus! {

/// The renamings that the bindings of a program ask for: each bound name
/// becomes the name under which the main program sees what it stands for.
pub open spec fn renames(map: Seq<(Name, Name)>, main_imports: Seq<(Name, Name)>) -> Seq<
    (Seq<char>, Seq<char>),
> {
    map.map_values(|e: (Name, Name)| (e.0@, visible_name(main_imports, e.1@)))
}

/// The term after the first `n` renamings, one after the other.
pub open spec fn renamed_by(t: TermView, rs: Seq<(Seq<char>, Seq<char>)>, n: nat) -> TermView
    decreases n,
{
    if n == 0 || n > rs.len() {
        t
    } else {
        renamed(renamed_by(t, rs, (n - 1) as nat), rs[n - 1].0, rs[n - 1].1)
    }
}

/// The rule with the renamings applied to its body.
pub open spec fn renamed_rule(r: RuleView, rs: Seq<(Seq<char>, Seq<char>)>) -> RuleView {
    RuleView { pats: r.pats, body: renamed_by(r.body, rs, rs.len()) }
}

/// The definition with the renamings applied to every rule body.
pub open spec fn renamed_def(d: DefinitionView, rs: Seq<(Seq<char>, Seq<char>)>) -> DefinitionView {
    DefinitionView { rules: d.rules.map_values(|r: RuleView| renamed_rule(r, rs)), ..d }
}

/// The table with the renamings applied to every definition.
pub open spec fn renamed_entries(entries: Seq<(Seq<char>, DefinitionView)>, rs: Seq<(Seq<char>, Seq<char>)>) -> Seq<
    (Seq<char>, DefinitionView),
> {
    entries.map_values(|e: (Seq<char>, DefinitionView)| (e.0, renamed_def(e.1, rs)))
}

/// The table after the first `k` definitions of the package `src` were taken
/// in, each under the name that the importing program gives it.
pub open spec fn with_imported(
    entries: Seq<(Seq<char>, DefinitionView)>,
    defs: Seq<DefinitionView>,
    src: Seq<char>,
    main_imports: Seq<(Name, Name)>,
    k: nat,
) -> Seq<(Seq<char>, DefinitionView)>
    decreases k,
{
    if k == 0 || k > defs.len() {
        entries
    } else {
        let d = imported_def(defs[k - 1], src, main_imports);
        with_entry(with_imported(entries, defs, src, main_imports, (k - 1) as nat), d.name, d)
    }
}

/// The table of a program after its imports were applied: the definitions
/// of its packages, each with its own imports applied first, are taken in,
/// and then the bound names are renamed in every rule body.
pub open spec fn applied(book: Book, main_imports: Seq<(Name, Name)>) -> Seq<(Seq<char>, DefinitionView)>
    decreases book, 0nat,
{
    renamed_entries(
        merged(def_entries(book.defs), book.imports.pkgs, main_imports, book.imports.pkgs@.len()),
        renames(book.imports.map@, main_imports),
    )
}

/// The table after the definitions of the first `n` packages were taken in.
pub open spec fn merged(
    entries: Seq<(Seq<char>, DefinitionView)>,
    pkgs: Vec<(Name, Book)>,
    main_imports: Seq<(Name, Name)>,
    n: nat,
) -> Seq<(Seq<char>, DefinitionView)>
    decreases pkgs, n,
{
    if n == 0 || n > pkgs@.len() {
        entries
    } else {
        let sub = entry_defs(applied(pkgs@[n - 1].1, main_imports));
        with_imported(
            merged(entries, pkgs, main_imports, (n - 1) as nat),
            sub,
            pkgs@[n - 1].0@,
            main_imports,
            sub.len(),
        )
    }
}

/// Builds the renamings that the bindings ask for.
pub fn visible_bindings(map: &Vec<(Name, Name)>, main_imports: &Vec<(Name, Name)>) -> (r: Vec<(Name, Name)>)
    ensures
        bindings_view(r@) == renames(map@, main_imports@),
{
    let mut out: Vec<(Name, Name)> = Vec::new();
    let n: usize = map.len();
    let mut i: usize = 0;
    while i < n
        invariant
            i <= n,
            n == map@.len(),
            out@.len() == i,
            forall|j: int|
                0 <= j < i ==> (#[trigger] bindings_view(out@)[j]) == (
                    map@[j].0@,
                    visible_name(main_imports@, map@[j].1@),
                ),
        decreases n - i,
    {
        let ghost done = bindings_view(out@);
        out.push((map[i].0.clone(), visible(main_imports, map[i].1.clone())));
        proof {
            assert forall|j: int| 0 <= j < i implies (#[trigger] bindings_view(out@)[j]) == done[j] by {}
        }
        i += 1;
    }
    proof {
        assert(bindings_view(out@) =~= renames(map@, main_imports@));
    }
    out
}

/// Applies the renamings to a term, one after the other.
pub fn rename_bound(term: &mut Term, rs: &Vec<(Name, Name)>)
    ensures
        final(term)@ == renamed_by(old(term)@, bindings_view(rs@), rs@.len()),
{
    let n: usize = rs.len();
    let mut k: usize = 0;
    while k < n
        invariant
            k <= n,
            n == rs@.len(),
            term@ == renamed_by(old(term)@, bindings_view(rs@), k as nat),
        decreases n - k,
    {
        term.rename_var(&rs[k].0, &rs[k].1);
        k += 1;
    }
}

/// Applies the renamings to every rule body of a definition.
pub fn rename_in_def(def: &mut Definition, rs: &Vec<(Name, Name)>)
    ensures
        final(def)@ == renamed_def(old(def)@, bindings_view(rs@)),
{
    let ghost before = def@.rules;
    let n: usize = def.rules.len();
    let mut j: usize = 0;
    while j < n
        invariant
            j <= n,
            n == def.rules@.len(),
            before == old(def)@.rules,
            def.name == old(def).name,
            def.builtin == old(def).builtin,
            def.source == old(def).source,
            forall|k: int| j <= k < n ==> (#[trigger] def.rules@[k])@ == before[k],
            forall|k: int| 0 <= k < j ==> (#[trigger] def.rules@[k])@ == renamed_rule(before[k], bindings_view(rs@)),
        decreases n - j,
    {
        rename_bound(&mut def.rules[j].body, rs);
        j += 1;
    }
    proof {
        assert(def@.rules =~= renamed_def(old(def)@, bindings_view(rs@)).rules);
    }
}

/// Takes the definitions of the package `src` into the table.
fn merge_package(
    defs: &mut IndexMap<Name, Definition>,
    taken: Vec<Definition>,
    src: &Name,
    main_imports: &Vec<(Name, Name)>,
)
    ensures
        def_entries(*final(defs)) == with_imported(
            def_entries(*old(defs)),
            definitions_view(taken@),
            src@,
            main_imports@,
            taken@.len(),
        ),
{
    let ghost sub = definitions_view(taken@);
    let mut taken = taken;
    let m: usize = taken.len();
    let mut k: usize = 0;
    while k < m
        invariant
            k <= m,
            m == taken@.len(),
            m == sub.len(),
            forall|t: int| k <= t < m ==> (#[trigger] taken@[t])@ == sub[t],
            def_entries(*defs) == with_imported(def_entries(*old(defs)), sub, src@, main_imports@, k as nat),
        decreases m - k,
    {
        let mut def = Definition {
            name: String::new(),
            rules: Vec::new(),
            builtin: false,
            source: Source::Generated,
        };
        core::mem::swap(&mut taken[k], &mut def);
        import_definition(&mut def, src, main_imports);
        let name = def.name.clone();
        defs_insert(defs, name, def);
        k += 1;
    }
}

/// Applies the imports to the parts of a program.
fn apply_all(
    defs: &mut IndexMap<Name, Definition>,
    map: &Vec<(Name, Name)>,
    pkgs: &mut Vec<(Name, Book)>,
    main_imports: &Vec<(Name, Name)>,
    Ghost(parent): Ghost<Book>,
) -> (r: Result<(), Diagnostics>)
    requires
        decreases_to!(parent => *old(pkgs)),
    ensures
        r is Ok,
        final(pkgs)@.len() == old(pkgs)@.len(),
        forall|j: int|
            0 <= j < old(pkgs)@.len() ==> (#[trigger] final(pkgs)@[j]).0 == old(pkgs)@[j].0 && def_entries(
                final(pkgs)@[j].1.defs,
            ).len() == 0,
        def_entries(*final(defs)) == renamed_entries(
            merged(def_entries(*old(defs)), *old(pkgs), main_imports@, old(pkgs)@.len()),
            renames(map@, main_imports@),
        ),
    decreases parent, 0nat,
{
    let ghost whole = *pkgs;
    let ghost start = def_entries(*defs);
    let n: usize = pkgs.len();
    let mut i: usize = 0;
    while i < n
        invariant
            i <= n,
            n == pkgs@.len(),
            n == whole@.len(),
            whole == *old(pkgs),
            start == def_entries(*old(defs)),
            decreases_to!(parent => whole),
            forall|j: int| i <= j < n ==> pkgs@[j] == whole@[j],
            forall|j: int|
                0 <= j < i ==> (#[trigger] pkgs@[j]).0 == whole@[j].0 && def_entries(pkgs@[j].1.defs).len() == 0,
            def_entries(*defs) == merged(start, whole, main_imports@, i as nat),
        decreases n - i,
    {
        assert(decreases_to!(whole => whole[i as int]));
        match pkgs[i].1.apply_imports(Some(main_imports)) {
            Err(e) => {
                return Err(e);
            },
            Ok(()) => {},
        }
        let taken = defs_drain(&mut pkgs[i].1.defs);
        merge_package(defs, taken, &pkgs[i].0, main_imports);
        i += 1;
    }
    let rs = visible_bindings(map, main_imports);
    let ghost merged_entries = def_entries(*defs);
    let m: usize = defs_len(defs);
    let mut k: usize = 0;
    while k < m
        invariant
            k <= m,
            m == merged_entries.len(),
            def_entries(*defs).len() == m,
            pkgs@.len() == old(pkgs)@.len(),
            forall|j: int|
                0 <= j < pkgs@.len() ==> (#[trigger] pkgs@[j]).0 == old(pkgs)@[j].0 && def_entries(
                    pkgs@[j].1.defs,
                ).len() == 0,
            merged_entries == merged(def_entries(*old(defs)), *old(pkgs), main_imports@, old(pkgs)@.len()),
            bindings_view(rs@) == renames(map@, main_imports@),
            forall|t: int| k <= t < m ==> def_entries(*defs)[t] == merged_entries[t],
            forall|t: int|
                0 <= t < k ==> (#[trigger] def_entries(*defs)[t]) == (
                    merged_entries[t].0,
                    renamed_def(merged_entries[t].1, bindings_view(rs@)),
                ),
        decreases m - k,
    {
        let (_, def) = def_at_mut(defs, k);
        rename_in_def(def, &rs);
        k += 1;
    }
    proof {
        assert(def_entries(*defs) =~= renamed_entries(merged_entries, bindings_view(rs@)));
    }
    Ok(())
}

impl Book {
    /// Applies the imports: the definitions of the loaded packages come
    /// into the table, those written in a package under their full name,
    /// hidden between `__` unless the main program imports them, and in every
    /// rule body each bound name is renamed to what it stands for. The main
    /// program passes `None`; its bindings then decide what is visible. The
    /// tables of the packages are left empty.
    pub fn apply_imports(&mut self, main_imports: Option<&Vec<(Name, Name)>>) -> (r: Result<(), Diagnostics>)
        ensures
            r is Ok,
            final(self).ctrs == old(self).ctrs,
            final(self).imports.names == old(self).imports.names,
            final(self).imports.map == old(self).imports.map,
            final(self).imports.pkgs@.len() == old(self).imports.pkgs@.len(),
            forall|j: int|
                0 <= j < old(self).imports.pkgs@.len() ==> (#[trigger] final(self).imports.pkgs@[j]).0 == old(
                    self,
                ).imports.pkgs@[j].0 && def_entries(final(self).imports.pkgs@[j].1.defs).len() == 0,
            def_entries(final(self).defs) == applied(
                *old(self),
                match main_imports {
                    Some(m) => m@,
                    None => old(self).imports.map@,
                },
            ),
        decreases *old(self), 1nat,
    {
        let ghost parent = *self;
        match main_imports {
            Some(main) => apply_all(&mut self.defs, &self.imports.map, &mut self.imports.pkgs, main, Ghost(parent)),
            None => apply_all(
                &mut self.defs,
                &self.imports.map,
                &mut self.imports.pkgs,
                &self.imports.map,
                Ghost(parent),
            ),
        }
    }
}

} // verus!
