use crate::term::{definitions_view, Definition, DefinitionView, Name};
use indexmap::IndexMap;
use vstd::prelude::*;

verus! {

/// The insertion-ordered map of the `indexmap` crate, declared so that it can
/// stand in fields and signatures. Nothing of its inside is known; what the
/// code says of a table goes through `ctr_owners` and `def_entries`.
#[verifier::external_type_specification]
#[verifier::external_body]
#[verifier::reject_recursive_types(K)]
#[verifier::reject_recursive_types(V)]
#[verifier::reject_recursive_types(S)]
pub struct ExIndexMap<K, V, S>(IndexMap<K, V, S>);

/// The constructor table as a map from a constructor's name to the name of
/// the type that owns it.
pub uninterp spec fn ctr_owners(ctrs: IndexMap<Name, Name>) -> Map<Seq<char>, Seq<char>>;

/// The definition table as the sequence of its entries, in the table's order.
pub uninterp spec fn def_entries(defs: IndexMap<Name, Definition>) -> Seq<(Seq<char>, DefinitionView)>;

/// The names under which the entries stand, in order.
pub open spec fn entry_names(entries: Seq<(Seq<char>, DefinitionView)>) -> Seq<Seq<char>> {
    entries.map_values(|e: (Seq<char>, DefinitionView)| e.0)
}

/// Whether some entry stands under `name`.
pub open spec fn has_name(entries: Seq<(Seq<char>, DefinitionView)>, name: Seq<char>) -> bool {
    exists|i: int| 0 <= i < entries.len() && (#[trigger] entries[i]).0 == name
}

/// The entries after `def` was put under `name`: an entry of that name keeps
/// its place and takes the new definition, a new name goes last.
pub open spec fn with_entry(
    entries: Seq<(Seq<char>, DefinitionView)>,
    name: Seq<char>,
    def: DefinitionView,
) -> Seq<(Seq<char>, DefinitionView)> {
    if has_name(entries, name) {
        let i = choose|i: int| 0 <= i < entries.len() && (#[trigger] entries[i]).0 == name;
        entries.update(i, (name, def))
    } else {
        entries.push((name, def))
    }
}

/// `IndexMap::get` on the constructor table: the owner stored for `ctr`, or
/// `None` where the table has no such constructor.
#[verifier::external_body]
pub(crate) fn ctr_owner<'a>(ctrs: &'a IndexMap<Name, Name>, ctr: &Name) -> (r: Option<&'a Name>)
    ensures
        match r {
            Some(owner) => ctr_owners(*ctrs).contains_key(ctr@) && ctr_owners(*ctrs)[ctr@] == owner@,
            None => !ctr_owners(*ctrs).contains_key(ctr@),
        },
{
    ctrs.get(ctr)
}

/// `IndexMap::len` on the definition table: the number of its entries.
#[verifier::external_body]
pub(crate) fn defs_len(defs: &IndexMap<Name, Definition>) -> (r: usize)
    ensures
        r == def_entries(*defs).len(),
{
    defs.len()
}

/// `IndexMap::get_index` on the definition table: the name of the entry at
/// `index` and its definition.
#[verifier::external_body]
pub(crate) fn def_at(defs: &IndexMap<Name, Definition>, index: usize) -> (r: (&Name, &Definition))
    requires
        index < def_entries(*defs).len(),
    ensures
        r.0@ == def_entries(*defs)[index as int].0,
        (*r.1)@ == def_entries(*defs)[index as int].1,
{
    defs.get_index(index).unwrap()
}

/// `IndexMap::get_index_mut` on the definition table: the name of the entry
/// at `index` and its definition, which the caller may change in place; no
/// other entry changes, and the name stays.
#[verifier::external_body]
pub(crate) fn def_at_mut(defs: &mut IndexMap<Name, Definition>, index: usize) -> (r: (&Name, &mut Definition))
    requires
        index < def_entries(*old(defs)).len(),
    ensures
        r.0@ == def_entries(*old(defs))[index as int].0,
        (*r.1)@ == def_entries(*old(defs))[index as int].1,
        def_entries(*final(defs)) == def_entries(*old(defs)).update(
            index as int,
            (r.0@, (*final(r.1))@),
        ),
{
    defs.get_index_mut(index).unwrap()
}

/// The definitions of the entries, in order.
pub open spec fn entry_defs(entries: Seq<(Seq<char>, DefinitionView)>) -> Seq<DefinitionView> {
    entries.map_values(|e: (Seq<char>, DefinitionView)| e.1)
}

/// `IndexMap::drain` over the whole definition table: the table is left
/// empty, and its definitions come back in the table's order.
#[verifier::external_body]
pub(crate) fn defs_drain(defs: &mut IndexMap<Name, Definition>) -> (r: Vec<Definition>)
    ensures
        def_entries(*final(defs)).len() == 0,
        definitions_view(r@) == entry_defs(def_entries(*old(defs))),
{
    defs.drain(..).map(|(_, def)| def).collect()
}

/// `IndexMap::insert` on the definition table: an entry of that name keeps
/// its place and takes the new definition, a new name goes last.
#[verifier::external_body]
pub(crate) fn defs_insert(defs: &mut IndexMap<Name, Definition>, name: Name, def: Definition)
    ensures
        def_entries(*final(defs)) == with_entry(def_entries(*old(defs)), name@, def@),
{
    defs.insert(name, def);
}

} // verus!
