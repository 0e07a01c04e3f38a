use adt_matches::apply::{rename_bound, rename_in_def, visible_bindings};
use adt_matches::book::Book;
use adt_matches::imports::{import_definition, Imports};
use adt_matches::subst::is_binder;
use adt_matches::term::{Definition, Op, Pattern, Rule, Source, Term};
use indexmap::IndexMap;

fn s(x: &str) -> String {
    x.to_string()
}

fn var(n: &str) -> Term {
    Term::Var { nam: s(n) }
}

fn pvar(n: &str) -> Pattern {
    Pattern::Var(Some(s(n)))
}

fn app(a: Term, b: Term) -> Term {
    Term::App { fun: Box::new(a), arg: Box::new(b) }
}

fn def(name: &str, source: Source, body: Term) -> Definition {
    Definition { name: s(name), rules: vec![Rule { pats: vec![], body }], builtin: false, source }
}

fn book(defs: Vec<Definition>, map: Vec<(&str, &str)>, pkgs: Vec<(&str, Book)>) -> Book {
    let mut table = IndexMap::new();
    for d in defs {
        table.insert(d.name.clone(), d);
    }
    Book {
        defs: table,
        ctrs: IndexMap::new(),
        imports: Imports {
            names: vec![],
            map: map.into_iter().map(|(a, b)| (s(a), s(b))).collect(),
            pkgs: pkgs.into_iter().map(|(n, b)| (s(n), b)).collect(),
        },
    }
}

fn renamed(mut t: Term, from: &str, to: &str) -> Term {
    t.rename_var(&s(from), &s(to));
    t
}

#[test]
fn free_variables_are_renamed() {
    assert_eq!(renamed(var("x"), "x", "y"), var("y"));
    assert_eq!(renamed(var("z"), "x", "y"), var("z"));
    assert_eq!(renamed(Term::Ref { nam: s("x") }, "x", "y"), Term::Ref { nam: s("x") });
    assert_eq!(renamed(Term::Lnk { nam: s("x") }, "x", "y"), Term::Lnk { nam: s("x") });
    assert_eq!(renamed(app(var("x"), var("x")), "x", "y"), app(var("y"), var("y")));
    assert_eq!(
        renamed(Term::Opx { op: Op::Mul, fst: Box::new(var("x")), snd: Box::new(var("a")) }, "x", "y"),
        Term::Opx { op: Op::Mul, fst: Box::new(var("y")), snd: Box::new(var("a")) }
    );
    assert_eq!(
        renamed(Term::Tup { fst: Box::new(var("a")), snd: Box::new(var("x")) }, "x", "y"),
        Term::Tup { fst: Box::new(var("a")), snd: Box::new(var("y")) }
    );
    assert_eq!(
        renamed(Term::Sup { fst: Box::new(var("x")), snd: Box::new(var("x")) }, "x", "y"),
        Term::Sup { fst: Box::new(var("y")), snd: Box::new(var("y")) }
    );
    assert_eq!(
        renamed(Term::Chn { nam: s("x"), bod: Box::new(var("x")) }, "x", "y"),
        Term::Chn { nam: s("x"), bod: Box::new(var("y")) }
    );
    assert_eq!(
        renamed(Term::Lst { els: vec![var("x"), var("a"), var("x")] }, "x", "y"),
        Term::Lst { els: vec![var("y"), var("a"), var("y")] }
    );
}

#[test]
fn bound_variables_are_kept() {
    let lam = |n: &str, b: Term| Term::Lam { nam: Some(s(n)), bod: Box::new(b) };
    assert_eq!(renamed(lam("x", var("x")), "x", "y"), lam("x", var("x")));
    assert_eq!(renamed(lam("z", var("x")), "x", "y"), lam("z", var("y")));
    assert_eq!(
        renamed(Term::Lam { nam: None, bod: Box::new(var("x")) }, "x", "y"),
        Term::Lam { nam: None, bod: Box::new(var("y")) }
    );
    let let_ = |p: Pattern, v: Term, n: Term| Term::Let { pat: p, val: Box::new(v), nxt: Box::new(n) };
    assert_eq!(renamed(let_(pvar("x"), var("x"), var("x")), "x", "y"), let_(pvar("x"), var("y"), var("x")));
    assert_eq!(renamed(let_(pvar("a"), var("x"), var("x")), "x", "y"), let_(pvar("a"), var("y"), var("y")));
    let dup = |a: Option<&str>, b: Option<&str>| Term::Dup {
        fst: a.map(s),
        snd: b.map(s),
        val: Box::new(var("x")),
        nxt: Box::new(var("x")),
    };
    let dup_after = |a: Option<&str>, b: Option<&str>, n: &str| Term::Dup {
        fst: a.map(s),
        snd: b.map(s),
        val: Box::new(var("y")),
        nxt: Box::new(var(n)),
    };
    assert_eq!(renamed(dup(Some("x"), None), "x", "y"), dup_after(Some("x"), None, "x"));
    assert_eq!(renamed(dup(Some("a"), Some("x")), "x", "y"), dup_after(Some("a"), Some("x"), "x"));
    assert_eq!(renamed(dup(Some("a"), None), "x", "y"), dup_after(Some("a"), None, "y"));
}

#[test]
fn arms_bind_their_pattern_variables() {
    let arms = |b1: &str, b2: &str, b3: &str| {
        vec![
            (Pattern::Ctr(s("C"), vec![Pattern::Num(1), pvar("x")]), var(b1)),
            (Pattern::Tup(Box::new(pvar("a")), Box::new(pvar("b"))), var(b2)),
            (Pattern::Tup(Box::new(pvar("a")), Box::new(pvar("x"))), var(b3)),
        ]
    };
    let before = Term::Mat { matched: Box::new(var("x")), arms: arms("x", "x", "x") };
    let after = Term::Mat { matched: Box::new(var("y")), arms: arms("x", "y", "x") };
    assert_eq!(renamed(before, "x", "y"), after);
}

#[test]
fn patterns_know_their_binders() {
    assert!(pvar("x").binds(&s("x")));
    assert!(!pvar("x").binds(&s("y")));
    assert!(!Pattern::Var(None).binds(&s("x")));
    assert!(!Pattern::Num(3).binds(&s("x")));
    assert!(Pattern::Ctr(s("C"), vec![pvar("a"), Pattern::Ctr(s("D"), vec![pvar("x")])]).binds(&s("x")));
    assert!(!Pattern::Ctr(s("x"), vec![pvar("a")]).binds(&s("x")));
    assert!(Pattern::Tup(Box::new(pvar("a")), Box::new(pvar("x"))).binds(&s("x")));
    assert!(is_binder(&Some(s("x")), &s("x")));
    assert!(!is_binder(&Some(s("x")), &s("y")));
    assert!(!is_binder(&None, &s("x")));
}

#[test]
fn renamings_apply_in_order() {
    let rs = vec![(s("a"), s("b")), (s("b"), s("c"))];
    let mut t = app(var("a"), var("b"));
    rename_bound(&mut t, &rs);
    assert_eq!(t, app(var("c"), var("c")));
    let mut d = Definition {
        name: s("f"),
        rules: vec![Rule { pats: vec![pvar("a")], body: var("a") }, Rule { pats: vec![], body: var("z") }],
        builtin: true,
        source: Source::Normal,
    };
    rename_in_def(&mut d, &rs);
    assert_eq!(
        d,
        Definition {
            name: s("f"),
            rules: vec![Rule { pats: vec![pvar("a")], body: var("c") }, Rule { pats: vec![], body: var("z") }],
            builtin: true,
            source: Source::Normal,
        }
    );
}

#[test]
fn bindings_become_visible_names() {
    let map = vec![(s("f"), s("pkg/f")), (s("g"), s("pkg/g"))];
    let main = vec![(s("other"), s("pkg/g"))];
    assert_eq!(visible_bindings(&map, &main), vec![(s("f"), s("__pkg/f__")), (s("g"), s("pkg/g"))]);
    assert_eq!(visible_bindings(&map, &map), vec![(s("f"), s("pkg/f")), (s("g"), s("pkg/g"))]);
}

#[test]
fn only_written_definitions_are_renamed_on_import() {
    let main = vec![(s("f"), s("pkg/f"))];
    let mut d = def("f", Source::Normal, Term::Era);
    import_definition(&mut d, &s("pkg"), &main);
    assert_eq!(d, def("pkg/f", Source::Imported, Term::Era));
    let mut d = def("g", Source::Normal, Term::Era);
    import_definition(&mut d, &s("pkg"), &main);
    assert_eq!(d, def("__pkg/g__", Source::Imported, Term::Era));
    for source in [Source::Builtin, Source::Generated, Source::Inaccessible, Source::Imported] {
        let mut d = def("f", source, Term::Era);
        import_definition(&mut d, &s("pkg"), &main);
        assert_eq!(d, def("f", source, Term::Era));
    }
}

#[test]
fn imports_are_applied() {
    let package = book(
        vec![
            def("f", Source::Normal, var("g")),
            def("g", Source::Normal, Term::Num { val: 1 }),
            def("h", Source::Builtin, Term::Era),
        ],
        vec![],
        vec![],
    );
    let mut main = book(
        vec![def("main", Source::Normal, app(var("f"), var("g")))],
        vec![("f", "pkg/f")],
        vec![("pkg", package)],
    );
    assert!(main.apply_imports(None).is_ok());
    let names: Vec<&str> = main.defs.keys().map(|k| k.as_str()).collect();
    assert_eq!(names, vec!["main", "pkg/f", "__pkg/g__", "h"]);
    assert_eq!(main.defs["main"], def("main", Source::Normal, app(var("pkg/f"), var("g"))));
    assert_eq!(main.defs["pkg/f"], def("pkg/f", Source::Imported, var("g")));
    assert_eq!(main.defs["__pkg/g__"], def("__pkg/g__", Source::Imported, Term::Num { val: 1 }));
    assert_eq!(main.defs["h"], def("h", Source::Builtin, Term::Era));
    assert_eq!(main.imports.pkgs.len(), 1);
    assert_eq!(main.imports.pkgs[0].1.defs.len(), 0);
    assert_eq!(main.imports.map, vec![(s("f"), s("pkg/f"))]);
}

#[test]
fn nested_imports_are_applied_first() {
    let inner = book(vec![def("leaf", Source::Normal, Term::Era)], vec![], vec![]);
    let middle = book(
        vec![def("mid", Source::Normal, var("leaf"))],
        vec![("leaf", "inner/leaf")],
        vec![("inner", inner)],
    );
    let mut main = book(
        vec![def("main", Source::Normal, var("mid"))],
        vec![("mid", "middle/mid")],
        vec![("middle", middle)],
    );
    assert!(main.apply_imports(None).is_ok());
    let names: Vec<&str> = main.defs.keys().map(|k| k.as_str()).collect();
    assert_eq!(names, vec!["main", "middle/mid", "__inner/leaf__"]);
    assert_eq!(main.defs["main"], def("main", Source::Normal, var("middle/mid")));
    assert_eq!(main.defs["middle/mid"], def("middle/mid", Source::Imported, var("__inner/leaf__")));
    assert_eq!(main.defs["__inner/leaf__"], def("__inner/leaf__", Source::Imported, Term::Era));
}

#[test]
fn a_program_without_imports_stays() {
    let mut main = book(vec![def("main", Source::Normal, var("x"))], vec![], vec![]);
    assert!(main.apply_imports(None).is_ok());
    assert_eq!(main.defs.len(), 1);
    assert_eq!(main.defs["main"], def("main", Source::Normal, var("x")));
}
