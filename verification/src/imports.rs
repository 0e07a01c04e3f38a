use crate::book::Book;
use crate::term::{Definition, DefinitionView, Name, Source};
use itertools::Itertools;
use vstd::prelude::*;
use vstd::string::{StrSliceExecFns, StringExecFns};

verus! {

/// The imports of a program.
pub struct Imports {
    /// The imports declared in the source: a package and the names taken from it.
    pub names: Vec<(Name, Vec<Name>)>,
    /// The bound names, each with the definition it stands for. No name is
    /// bound twice.
    pub map: Vec<(Name, Name)>,
    /// The packages that were loaded, each with its source.
    pub pkgs: Vec<(Name, Book)>,
}

/// Whether the character occurs in the text.
pub fn has_char(s: &str, c: char) -> (r: bool)
    ensures
        r == s@.contains(c),
{
    let n: usize = s.unicode_len();
    let mut i: usize = 0;
    while i < n
        invariant
            i <= n,
            n == s@.len(),
            forall|j: int| 0 <= j < i ==> s@[j] != c,
        decreases n - i,
    {
        if s.get_char(i) == c {
            return true;
        }
        i += 1;
    }
    false
}

/// Whether the name is one that no import can have: the name of an online
/// package, with `@`, that lacks the `/` before the package's own name.
pub open spec fn is_bad_import(name: Seq<char>) -> bool {
    name.contains('@') && !name.contains('/')
}

impl Default for Imports {
    fn default() -> (r: Imports)
        ensures
            r.names@.len() == 0,
            r.map@.len() == 0,
            r.pkgs@.len() == 0,
            r.well_formed(),
    {
        Imports { names: Vec::new(), map: Vec::new(), pkgs: Vec::new() }
    }
}

impl Imports {
    /// Whether no name is bound twice.
    pub open spec fn well_formed(&self) -> bool {
        bound_once(bindings_view(self.map@))
    }

    /// Declares an import. A name with `@` and without `/` is handed back as
    /// the error, and nothing is declared.
    pub fn add_import(&mut self, import: Name, sub_imports: Vec<Name>) -> (r: Result<(), Name>)
        ensures
            final(self).map == old(self).map,
            final(self).pkgs == old(self).pkgs,
            is_bad_import(import@) ==> r == Err::<(), Name>(import) && final(self).names == old(self).names,
            !is_bad_import(import@) ==> r is Ok && final(self).names@ == old(self).names@.push(
                (import, sub_imports),
            ),
    {
        if has_char(import.as_str(), '@') && !has_char(import.as_str(), '/') {
            return Err(import);
        }
        self.names.push((import, sub_imports));
        Ok(())
    }

    /// The imports declared so far, in order.
    pub fn imports(&self) -> (r: &[(Name, Vec<Name>)])
        ensures
            r@ == self.names@,
    {
        self.names.as_slice()
    }
}

/// Whether `i` is the place of the first `/` of the text.
pub open spec fn first_slash(s: Seq<char>, i: int) -> bool {
    &&& 0 <= i < s.len()
    &&& s[i] == '/'
    &&& forall|j: int| 0 <= j < i ==> s[j] != '/'
}

/// What follows the first `/` of the text.
pub open spec fn after_slash(s: Seq<char>) -> Seq<char> {
    s.skip((choose|i: int| first_slash(s, i)) + 1)
}

/// The text after the first `/`: the name of a package without its namespace.
pub fn package_name(s: &str) -> (r: String)
    requires
        s@.contains('/'),
    ensures
        r@ == after_slash(s@),
{
    let n: usize = s.unicode_len();
    let mut i: usize = 0;
    while i < n && s.get_char(i) != '/'
        invariant
            i <= n,
            n == s@.len(),
            s@.contains('/'),
            forall|j: int| 0 <= j < i ==> s@[j] != '/',
        decreases n - i,
    {
        i += 1;
    }
    proof {
        if i == n {
            let k = choose|k: int| 0 <= k < s@.len() && s@[k] == '/';
            assert(s@[k] != '/');
        }
        assert(first_slash(s@, i as int));
        let c = choose|c: int| first_slash(s@, c);
        assert(c == i) by {
            if c < i {
                assert(s@[c] != '/');
            }
            if i < c {
                assert(s@[i as int] != '/');
            }
        }
        assert(s@.subrange(i + 1, n as int) =~= s@.skip(i + 1));
    }
    String::from_str(s.substring_char(i + 1, n))
}

/// The full name of `name` in the package `src`.
pub open spec fn qualified(src: Seq<char>, name: Seq<char>) -> Seq<char> {
    src + "/"@ + name
}

/// Builds the full name of `name` in the package `src`.
pub fn qualify(src: &Name, name: &str) -> (r: Name)
    ensures
        r@ == qualified(src@, name@),
{
    let mut s = src.clone();
    s.append("/");
    s.append(name);
    s
}

/// The bindings, each name and what it stands for taken by its view.
pub open spec fn bindings_view(map: Seq<(Name, Name)>) -> Seq<(Seq<char>, Seq<char>)> {
    map.map_values(|e: (Name, Name)| (e.0@, e.1@))
}

/// Whether the name is bound already.
pub open spec fn is_bound(map: Seq<(Seq<char>, Seq<char>)>, bind: Seq<char>) -> bool {
    exists|i: int| 0 <= i < map.len() && (#[trigger] map[i]).0 == bind
}

/// The bindings after `bind` was bound to `target`: a name that is bound
/// already keeps what it stands for.
pub open spec fn bound(map: Seq<(Seq<char>, Seq<char>)>, bind: Seq<char>, target: Seq<char>) -> Seq<
    (Seq<char>, Seq<char>),
> {
    if is_bound(map, bind) {
        map
    } else {
        map.push((bind, target))
    }
}

/// Whether no name is bound twice.
pub open spec fn bound_once(map: Seq<(Seq<char>, Seq<char>)>) -> bool {
    forall|i: int, j: int| 0 <= i < j < map.len() ==> (#[trigger] map[i]).0 != (#[trigger] map[j]).0
}

/// Binding a name keeps every name bound once.
pub proof fn lemma_bound_once(map: Seq<(Seq<char>, Seq<char>)>, bind: Seq<char>, target: Seq<char>)
    requires
        bound_once(map),
    ensures
        bound_once(bound(map, bind, target)),
{
    let after = bound(map, bind, target);
    if !is_bound(map, bind) {
        assert forall|i: int, j: int| 0 <= i < j < after.len() implies (#[trigger] after[i]).0 != (
        #[trigger] after[j]).0 by {
            if j == map.len() {
                assert(map[i].0 != bind);
            }
        }
    }
}

/// The bindings after the first `n` of the names taken from `src` were bound.
pub open spec fn bound_subs(
    map: Seq<(Seq<char>, Seq<char>)>,
    src: Seq<char>,
    subs: Seq<Name>,
    n: nat,
) -> Seq<(Seq<char>, Seq<char>)>
    decreases n,
{
    if n == 0 || n > subs.len() {
        map
    } else {
        bound(bound_subs(map, src, subs, (n - 1) as nat), subs[n - 1]@, qualified(src, subs[n - 1]@))
    }
}

/// The bindings after one import: the names taken from the package, or,
/// where none is named, the package's own name.
pub open spec fn bound_import(map: Seq<(Seq<char>, Seq<char>)>, import: (Name, Vec<Name>)) -> Seq<
    (Seq<char>, Seq<char>),
> {
    if import.1@.len() == 0 {
        bound(map, after_slash(import.0@), qualified(import.0@, after_slash(import.0@)))
    } else {
        bound_subs(map, import.0@, import.1@, import.1@.len())
    }
}

/// The bindings after the first `n` imports.
pub open spec fn bound_imports(map: Seq<(Seq<char>, Seq<char>)>, names: Seq<(Name, Vec<Name>)>, n: nat) -> Seq<
    (Seq<char>, Seq<char>),
>
    decreases n,
{
    if n == 0 || n > names.len() {
        map
    } else {
        bound_import(bound_imports(map, names, (n - 1) as nat), names[n - 1])
    }
}

/// Whether every import that names nothing has a `/` in the package's name.
pub open spec fn packages_named(names: Seq<(Name, Vec<Name>)>) -> bool {
    forall|i: int| 0 <= i < names.len() ==> (#[trigger] names[i]).1@.len() == 0 ==> names[i].0@.contains('/')
}

/// Binds `bind` to `target`, unless it is bound already.
pub fn bind_name(map: &mut Vec<(Name, Name)>, bind: Name, target: Name)
    ensures
        bindings_view(final(map)@) == bound(bindings_view(old(map)@), bind@, target@),
        bound_once(bindings_view(old(map)@)) ==> bound_once(bindings_view(final(map)@)),
{
    proof {
        if bound_once(bindings_view(map@)) {
            lemma_bound_once(bindings_view(map@), bind@, target@);
        }
    }
    let n: usize = map.len();
    let mut i: usize = 0;
    while i < n
        invariant
            i <= n,
            n == map@.len(),
            forall|j: int| 0 <= j < i ==> (#[trigger] bindings_view(map@)[j]).0 != bind@,
        decreases n - i,
    {
        if map[i].0 == bind {
            assert(bindings_view(map@)[i as int].0 == bind@);
            return ;
        }
        i += 1;
    }
    map.push((bind, target));
    proof {
        assert(bindings_view(map@) =~= bindings_view(old(map)@).push((bind@, target@)));
    }
}

impl Imports {
    /// Whether every import that names nothing has a `/` in the package's
    /// name, as `load_imports` asks.
    pub fn can_load(&self) -> (r: bool)
        ensures
            r == packages_named(self.names@),
    {
        let n: usize = self.names.len();
        let mut i: usize = 0;
        while i < n
            invariant
                i <= n,
                n == self.names@.len(),
                forall|j: int|
                    0 <= j < i ==> (#[trigger] self.names@[j]).1@.len() == 0 ==> self.names@[j].0@.contains('/'),
            decreases n - i,
        {
            if self.names[i].1.len() == 0 && !has_char(self.names[i].0.as_str(), '/') {
                return false;
            }
            i += 1;
        }
        true
    }

    /// Takes in the packages that were loaded for the declared imports, in
    /// the order in which they were loaded, and binds the imported names.
    pub fn load_imports(&mut self, loaded: Vec<(Name, Book)>)
        requires
            packages_named(old(self).names@),
        ensures
            final(self).names == old(self).names,
            old(self).well_formed() ==> final(self).well_formed(),
            final(self).pkgs@ == old(self).pkgs@ + loaded@,
            bindings_view(final(self).map@) == bound_imports(
                bindings_view(old(self).map@),
                old(self).names@,
                old(self).names@.len(),
            ),
    {
        let mut rest = loaded;
        self.pkgs.append(&mut rest);
        let n: usize = self.names.len();
        let mut i: usize = 0;
        while i < n
            invariant
                i <= n,
                n == self.names@.len(),
                self.names == old(self).names,
                self.pkgs@ == old(self).pkgs@ + loaded@,
                packages_named(self.names@),
                old(self).well_formed() ==> self.well_formed(),
                bindings_view(self.map@) == bound_imports(
                    bindings_view(old(self).map@),
                    old(self).names@,
                    i as nat,
                ),
            decreases n - i,
        {
            let ghost start = bindings_view(self.map@);
            let m: usize = self.names[i].1.len();
            if m == 0 {
                let name = package_name(self.names[i].0.as_str());
                let target = qualify(&self.names[i].0, name.as_str());
                bind_name(&mut self.map, name, target);
            } else {
                let mut k: usize = 0;
                while k < m
                    invariant
                        k <= m,
                        i < n,
                        n == self.names@.len(),
                        m == self.names@[i as int].1@.len(),
                        self.names == old(self).names,
                        self.pkgs@ == old(self).pkgs@ + loaded@,
                        old(self).well_formed() ==> self.well_formed(),
                        bindings_view(self.map@) == bound_subs(
                            start,
                            self.names@[i as int].0@,
                            self.names@[i as int].1@,
                            k as nat,
                        ),
                    decreases m - k,
                {
                    let sub = self.names[i].1[k].clone();
                    let target = qualify(&self.names[i].0, sub.as_str());
                    bind_name(&mut self.map, sub, target);
                    k += 1;
                }
            }
            i += 1;
        }
    }
}

/// Loads the source text of packages.
pub trait PackageLoader {
    /// Loads a package. Gives `Ok(None)` only if the package is loaded already.
    fn load(&mut self, name: Name) -> Result<Option<(Name, String)>, String>;

    /// Loads the package `name`, or the parts of it that `sub_names` lists.
    fn load_multiple(&mut self, name: Name, sub_names: &[Name]) -> Result<Vec<(Name, String)>, String>;

    /// Whether the package was loaded before.
    fn is_loaded(&self, name: &Name) -> bool;
}

/// A loader that fetches a package with a function of the caller, and that
/// remembers what it has loaded.
pub struct DefaultLoader<T: Fn(&str) -> Result<String, String>> {
    /// The file of the program that imports, if it has one.
    pub local_path: Option<String>,
    /// The packages that were loaded. None occurs twice.
    pub loaded: Vec<Name>,
    /// Fetches the source text of a package by its name.
    pub load_fn: T,
}

/// The names, each taken by its view.
pub open spec fn names_view(names: Seq<Name>) -> Seq<Seq<char>> {
    names.map_values(|n: Name| n@)
}

/// The packages that an import from an online package asks for: the package
/// itself where no part is named, else each named part of it.
pub open spec fn wanted_packages(name: Seq<char>, subs: Seq<Name>) -> Seq<Seq<char>> {
    if subs.len() == 0 {
        seq![name]
    } else {
        Seq::new(subs.len(), |i: int| qualified(name, subs[i]@))
    }
}

/// The error for a local import where the program has no file of its own.
pub open spec fn local_import_text(name: Seq<char>) -> Seq<char> {
    "Can not import local '"@ + name + "'. Use 'version@"@ + name
        + "' if you wish to import a online package."@
}

/// Whether no name occurs twice.
pub open spec fn listed_once(names: Seq<Seq<char>>) -> bool {
    forall|i: int, j: int| 0 <= i < j < names.len() ==> names[i] != names[j]
}

impl<T: Fn(&str) -> Result<String, String>> DefaultLoader<T> {
    /// Whether no package is remembered twice.
    pub open spec fn well_formed(&self) -> bool {
        listed_once(names_view(self.loaded@))
    }

    /// Whether the package was loaded before.
    pub fn is_loaded(&self, name: &Name) -> (r: bool)
        ensures
            r == names_view(self.loaded@).contains(name@),
    {
        let n: usize = self.loaded.len();
        let mut i: usize = 0;
        while i < n
            invariant
                i <= n,
                n == self.loaded@.len(),
                forall|j: int| 0 <= j < i ==> names_view(self.loaded@)[j] != name@,
            decreases n - i,
        {
            if self.loaded[i] == *name {
                assert(names_view(self.loaded@)[i as int] == name@);
                return true;
            }
            i += 1;
        }
        false
    }

    /// Remembers the package as loaded. Says whether it was new.
    pub fn mark_loaded(&mut self, name: &Name) -> (r: bool)
        ensures
            r == !names_view(old(self).loaded@).contains(name@),
            final(self).local_path == old(self).local_path,
            final(self).load_fn == old(self).load_fn,
            r ==> names_view(final(self).loaded@) == names_view(old(self).loaded@).push(name@),
            !r ==> final(self).loaded == old(self).loaded,
            old(self).well_formed() ==> final(self).well_formed(),
    {
        if self.is_loaded(name) {
            false
        } else {
            self.loaded.push(name.clone());
            proof {
                assert(names_view(self.loaded@) =~= names_view(old(self).loaded@).push(name@));
            }
            true
        }
    }

    /// Loads a package, unless it was loaded before: `Ok(None)` says that it
    /// was. A package is remembered as loaded even where fetching it fails.
    pub fn load(&mut self, name: Name) -> (r: Result<Option<(Name, String)>, String>)
        requires
            forall|s: &str| old(self).load_fn.requires((s,)),
        ensures
            final(self).local_path == old(self).local_path,
            final(self).load_fn == old(self).load_fn,
            old(self).well_formed() ==> final(self).well_formed(),
            names_view(old(self).loaded@).contains(name@) ==> r == Ok::<Option<(Name, String)>, String>(None)
                && final(self).loaded == old(self).loaded,
            !names_view(old(self).loaded@).contains(name@) ==> {
                &&& names_view(final(self).loaded@) == names_view(old(self).loaded@).push(name@)
                &&& match r {
                    Ok(Some(p)) => p.0 == name && exists|s: &str|
                        s@ == name@ && old(self).load_fn.ensures((s,), Ok::<String, String>(p.1)),
                    Ok(None) => false,
                    Err(e) => exists|s: &str|
                        s@ == name@ && old(self).load_fn.ensures((s,), Err::<String, String>(e)),
                }
            },
    {
        if self.mark_loaded(&name) {
            match (self.load_fn)(name.as_str()) {
                Ok(pack) => Ok(Some((name, pack))),
                Err(e) => Err(e),
            }
        } else {
            Ok(None)
        }
    }

    /// Loads what an import from the online package `name` asks for: the
    /// package itself where no part is named, else each named part, in
    /// order. What was loaded before is left out. The first failure ends the
    /// loading: what was asked for by then is remembered, the failing one too.
    pub fn load_online(&mut self, name: &Name, sub_names: &Vec<Name>) -> (r: Result<Vec<(Name, String)>, String>)
        requires
            forall|s: &str| old(self).load_fn.requires((s,)),
        ensures
            final(self).local_path == old(self).local_path,
            final(self).load_fn == old(self).load_fn,
            old(self).well_formed() ==> final(self).well_formed(),
            r is Ok ==> forall|i: int|
                0 <= i < r->Ok_0@.len() ==> names_view(final(self).loaded@).contains((#[trigger] r->Ok_0@[i]).0@)
                    && !names_view(old(self).loaded@).contains(r->Ok_0@[i].0@),
            (forall|i: int|
                0 <= i < wanted_packages(name@, sub_names@).len() ==> names_view(old(self).loaded@).contains(
                    #[trigger] wanted_packages(name@, sub_names@)[i],
                )) ==> r is Ok && r->Ok_0@.len() == 0 && final(self).loaded == old(self).loaded,
            ({
                let wanted = wanted_packages(name@, sub_names@);
                let before = names_view(old(self).loaded@);
                match r {
                    Ok(packages) => {
                        &&& names_view(final(self).loaded@) == marked(before, wanted, wanted.len())
                        &&& loaded_names(packages@) == marked(before, wanted, wanted.len()).skip(
                            before.len() as int,
                        )
                        &&& forall|k: int|
                            0 <= k < packages@.len() ==> may_give(
                                old(self).load_fn,
                                (#[trigger] packages@[k]).0@,
                                Ok::<String, String>(packages@[k].1),
                            )
                    },
                    Err(e) => exists|i: int|
                        {
                            &&& 0 <= i < wanted.len()
                            &&& !(#[trigger] marked(before, wanted, i as nat)).contains(wanted[i])
                            &&& names_view(final(self).loaded@) == marked(before, wanted, (i + 1) as nat)
                            &&& may_give(old(self).load_fn, wanted[i], Err::<String, String>(e))
                        },
                }
            }),
    {
        let ghost want = wanted_packages(name@, sub_names@);
        let ghost first = names_view(self.loaded@);
        let wanted = Self::package_names(name, sub_names);
        proof {
            assert(loaded_names(Seq::<(Name, String)>::empty()) =~= first.skip(first.len() as int));
        }
        let ghost all_known = forall|i: int|
            0 <= i < wanted_packages(name@, sub_names@).len() ==> names_view(old(self).loaded@).contains(
                #[trigger] wanted_packages(name@, sub_names@)[i],
            );
        let mut packages: Vec<(Name, String)> = Vec::new();
        let n: usize = wanted.len();
        let mut i: usize = 0;
        while i < n
            invariant
                i <= n,
                n == wanted@.len(),
                forall|s: &str| self.load_fn.requires((s,)),
                self.local_path == old(self).local_path,
                self.load_fn == old(self).load_fn,
                old(self).well_formed() ==> self.well_formed(),
                names_view(wanted@) == wanted_packages(name@, sub_names@),
                all_known == (forall|i: int|
                    0 <= i < wanted_packages(name@, sub_names@).len() ==> names_view(old(self).loaded@).contains(
                        #[trigger] wanted_packages(name@, sub_names@)[i],
                    )),
                all_known ==> packages@.len() == 0 && self.loaded == old(self).loaded,
                want == wanted_packages(name@, sub_names@),
                first == names_view(old(self).loaded@),
                names_view(self.loaded@) == marked(first, want, i as nat),
                loaded_names(packages@) == marked(first, want, i as nat).skip(first.len() as int),
                forall|k: int|
                    0 <= k < packages@.len() ==> may_give(
                        old(self).load_fn,
                        (#[trigger] packages@[k]).0@,
                        Ok::<String, String>(packages@[k].1),
                    ),
                forall|k: int|
                    0 <= k < old(self).loaded@.len() ==> names_view(self.loaded@).contains(
                        #[trigger] names_view(old(self).loaded@)[k],
                    ),
                forall|k: int|
                    0 <= k < packages@.len() ==> names_view(self.loaded@).contains((#[trigger] packages@[k]).0@)
                        && !names_view(old(self).loaded@).contains(packages@[k].0@),
            decreases n - i,
        {
            let ghost before = names_view(self.loaded@);
            let ghost got = packages@;
            proof {
                assert(names_view(wanted@)[i as int] == wanted@[i as int]@);
                if all_known {
                    assert(names_view(old(self).loaded@).contains(wanted_packages(name@, sub_names@)[i as int]));
                }
            }
            proof {
                lemma_marked_extends(first, want, i as nat);
                assert(want[i as int] == wanted@[i as int]@);
            }
            match self.load(wanted[i].clone()) {
                Ok(Some(p)) => {
                    packages.push(p);
                    proof {
                        assert(p.0@ == want[i as int]);
                        assert(may_give(old(self).load_fn, p.0@, Ok::<String, String>(p.1)));
                        assert(loaded_names(packages@) =~= loaded_names(got).push(p.0@));
                        assert(before.push(p.0@).skip(first.len() as int) =~= before.skip(first.len() as int).push(
                            p.0@,
                        ));
                    }
                },
                Ok(None) => {},
                Err(e) => {
                    proof {
                        assert(!marked(first, want, i as nat).contains(want[i as int]));
                        assert(names_view(self.loaded@) == marked(first, want, (i + 1) as nat));
                        assert(may_give(old(self).load_fn, want[i as int], Err::<String, String>(e)));
                    }
                    return Err(e);
                },
            }
            proof {
                assert(names_view(self.loaded@) == marked(first, want, (i + 1) as nat));
                assert forall|k: int| 0 <= k < packages@.len() implies may_give(
                    old(self).load_fn,
                    (#[trigger] packages@[k]).0@,
                    Ok::<String, String>(packages@[k].1),
                ) by {
                    if k < got.len() {
                        assert(packages@[k] == got[k]);
                    }
                }
                assert forall|x: Seq<char>| before.contains(x) implies names_view(self.loaded@).contains(x) by {
                    let k = choose|k: int| 0 <= k < before.len() && before[k] == x;
                    if names_view(self.loaded@) != before {
                        assert(names_view(self.loaded@)[k] == x);
                    }
                }
                assert forall|k: int| 0 <= k < packages@.len() implies names_view(self.loaded@).contains(
                    (#[trigger] packages@[k]).0@,
                ) && !names_view(old(self).loaded@).contains(packages@[k].0@) by {
                    if k < got.len() {
                        assert(packages@[k] == got[k]);
                    } else {
                        let x = packages@[k].0@;
                        assert(names_view(self.loaded@).last() == x);
                        if names_view(old(self).loaded@).contains(x) {
                            let t = choose|t: int|
                                0 <= t < old(self).loaded@.len() && names_view(old(self).loaded@)[t] == x;
                            assert(before.contains(names_view(old(self).loaded@)[t]));
                        }
                    }
                }
            }
            i += 1;
        }
        Ok(packages)
    }

    /// The packages to ask for when `sub_names` are imported from the online
    /// package `name`.
    pub fn package_names(name: &Name, sub_names: &Vec<Name>) -> (r: Vec<Name>)
        ensures
            names_view(r@) == wanted_packages(name@, sub_names@),
    {
        let mut out: Vec<Name> = Vec::new();
        let n: usize = sub_names.len();
        if n == 0 {
            out.push(name.clone());
            proof {
                assert(names_view(out@) =~= wanted_packages(name@, sub_names@));
            }
            return out;
        }
        let mut i: usize = 0;
        while i < n
            invariant
                i <= n,
                n == sub_names@.len(),
                out@.len() == i,
                forall|j: int| 0 <= j < i ==> (#[trigger] out@[j])@ == qualified(name@, sub_names@[j]@),
            decreases n - i,
        {
            out.push(qualify(name, sub_names[i].as_str()));
            i += 1;
        }
        proof {
            assert(names_view(out@) =~= wanted_packages(name@, sub_names@));
        }
        out
    }

    /// The error for the local import `name` where the program has no file.
    pub fn local_import_error(name: &Name) -> (r: String)
        ensures
            r@ == local_import_text(name@),
    {
        let mut s = String::from_str("Can not import local '");
        s.append(name.as_str());
        s.append("'. Use 'version@");
        s.append(name.as_str());
        s.append("' if you wish to import a online package.");
        s
    }
}

/// Whether some binding stands for `name`.
pub open spec fn is_target(map: Seq<(Name, Name)>, name: Seq<char>) -> bool {
    exists|i: int| 0 <= i < map.len() && (#[trigger] map[i]).1@ == name
}

/// `Itertools::contains` on what the bindings stand for: whether one of them
/// equals `name`.
#[verifier::external_body]
fn targets_contain(map: &Vec<(Name, Name)>, name: &Name) -> (r: bool)
    ensures
        r == is_target(map@, name@),
{
    map.iter().map(|e| &e.1).contains(name)
}

/// The name under which something is seen from the main program: its own
/// where the main program imports it, and hidden between `__` where not.
pub open spec fn visible_name(main_imports: Seq<(Name, Name)>, name: Seq<char>) -> Seq<char> {
    if is_target(main_imports, name) {
        name
    } else {
        "__"@ + name + "__"@
    }
}

/// Gives a name the form under which the main program sees it.
pub fn visible(main_imports: &Vec<(Name, Name)>, name: Name) -> (r: Name)
    ensures
        r@ == visible_name(main_imports@, name@),
{
    if targets_contain(main_imports, &name) {
        name
    } else {
        let mut s = String::from_str("__");
        s.append(name.as_str());
        s.append("__");
        s
    }
}

/// What a definition of the package `src` becomes in a program that imports
/// the package: one written in the package is marked as imported and named
/// by its full name, hidden unless the main program imports it; the others
/// stay as they are.
pub open spec fn imported_def(d: DefinitionView, src: Seq<char>, main_imports: Seq<(Name, Name)>) -> DefinitionView {
    if d.source == Source::Normal {
        DefinitionView {
            name: visible_name(main_imports, qualified(src, d.name)),
            source: Source::Imported,
            ..d
        }
    } else {
        d
    }
}

/// Prepares a definition of the package `src` for the program that imports
/// the package.
pub fn import_definition(def: &mut Definition, src: &Name, main_imports: &Vec<(Name, Name)>)
    ensures
        final(def)@ == imported_def(old(def)@, src@, main_imports@),
{
    match def.source {
        Source::Normal => {
            def.source = Source::Imported;
            def.name = visible(main_imports, qualify(src, def.name.as_str()));
        },
        _ => {},
    }
}

/// The names remembered after the first `n` of `wanted` were marked as
/// loaded, in order: one that is remembered already is not added again.
pub open spec fn marked(loaded: Seq<Seq<char>>, wanted: Seq<Seq<char>>, n: nat) -> Seq<Seq<char>>
    decreases n,
{
    if n == 0 || n > wanted.len() {
        loaded
    } else {
        let prev = marked(loaded, wanted, (n - 1) as nat);
        if prev.contains(wanted[n - 1]) {
            prev
        } else {
            prev.push(wanted[n - 1])
        }
    }
}

/// Marking only adds names at the end.
pub proof fn lemma_marked_extends(loaded: Seq<Seq<char>>, wanted: Seq<Seq<char>>, n: nat)
    ensures
        marked(loaded, wanted, n).len() >= loaded.len(),
        marked(loaded, wanted, n).subrange(0, loaded.len() as int) == loaded,
    decreases n,
{
    if n == 0 || n > wanted.len() {
        assert(loaded.subrange(0, loaded.len() as int) =~= loaded);
    } else {
        lemma_marked_extends(loaded, wanted, (n - 1) as nat);
        let prev = marked(loaded, wanted, (n - 1) as nat);
        assert(marked(loaded, wanted, n).subrange(0, loaded.len() as int) =~= prev.subrange(
            0,
            loaded.len() as int,
        ));
    }
}

/// The names of the packages, in order.
pub open spec fn loaded_names(packages: Seq<(Name, String)>) -> Seq<Seq<char>> {
    packages.map_values(|p: (Name, String)| p.0@)
}

/// Whether the fetch function may answer `result` when asked for `name`.
pub open spec fn may_give<T: Fn(&str) -> Result<String, String>>(
    load_fn: T,
    name: Seq<char>,
    result: Result<String, String>,
) -> bool {
    exists|s: &str| s@ == name && load_fn.ensures((s,), result)
}

} // verus!
