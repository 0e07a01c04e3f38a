use adt_matches::book::Book;
use adt_matches::extract::{all_var_arms, match_to_def, synthesize_name};
use adt_matches::imports::Imports;
use adt_matches::lattice::{infer_match_type, MatchError, Type};
use adt_matches::term::{Definition, Op, Pattern, Rule, Source, Term, Warning};
use indexmap::IndexMap;

fn var(n: &str) -> Term {
    Term::Var { nam: n.to_string() }
}

fn pvar(n: &str) -> Pattern {
    Pattern::Var(Some(n.to_string()))
}

fn ptup(a: &str, b: &str) -> Pattern {
    Pattern::Tup(Box::new(pvar(a)), Box::new(pvar(b)))
}

fn mat(x: &str, arms: Vec<(Pattern, Term)>) -> Term {
    Term::Mat { matched: Box::new(var(x)), arms }
}

fn call(name: &str, x: &str) -> Term {
    Term::App { fun: Box::new(Term::Ref { nam: name.to_string() }), arg: Box::new(var(x)) }
}

fn list_ctrs() -> IndexMap<String, String> {
    let mut ctrs = IndexMap::new();
    ctrs.insert("Nil".to_string(), "List".to_string());
    ctrs.insert("Cons".to_string(), "List".to_string());
    ctrs.insert("C".to_string(), "T".to_string());
    ctrs
}

fn generated(name: &str, rules: Vec<(Pattern, Term)>) -> Definition {
    Definition {
        name: name.to_string(),
        rules: rules.into_iter().map(|(p, b)| Rule { pats: vec![p], body: b }).collect(),
        builtin: false,
        source: Source::Generated,
    }
}

fn run(term: &mut Term, count: &mut u128) -> (Result<(), MatchError>, Vec<Definition>, Vec<Warning>) {
    let mut new_defs = Vec::new();
    let mut warnings = Vec::new();
    let r = term.extract_adt_matches(&"orig".to_string(), false, &list_ctrs(), &mut new_defs, count, &mut warnings);
    (r, new_defs, warnings)
}

fn tuple_match() -> Term {
    mat("x", vec![(ptup("a", "b"), var("a")), (ptup("c", "d"), var("d"))])
}

fn list_match() -> Term {
    mat(
        "x",
        vec![
            (Pattern::Ctr("Nil".to_string(), vec![]), Term::Num { val: 0 }),
            (Pattern::Ctr("Cons".to_string(), vec![pvar("h"), pvar("t")]), var("h")),
        ],
    )
}

fn book_of(defs: Vec<Definition>) -> Book {
    let mut table = IndexMap::new();
    for d in defs {
        table.insert(d.name.clone(), d);
    }
    Book { defs: table, ctrs: list_ctrs(), imports: Imports::default() }
}

fn normal(name: &str, bodies: Vec<Term>) -> Definition {
    Definition {
        name: name.to_string(),
        rules: bodies.into_iter().map(|b| Rule { pats: vec![], body: b }).collect(),
        builtin: false,
        source: Source::Normal,
    }
}

#[test]
fn tuple_arms_are_lifted() {
    let mut term = tuple_match();
    let mut count = 0;
    let (r, new_defs, warnings) = run(&mut term, &mut count);
    assert_eq!(r, Ok(()));
    assert_eq!(term, call("orig$match$1", "x"));
    assert_eq!(
        new_defs,
        vec![generated("orig$match$1", vec![(ptup("a", "b"), var("a")), (ptup("c", "d"), var("d"))])]
    );
    assert_eq!(warnings, vec![]);
    assert_eq!(count, 1);
}

#[test]
fn constructor_arms_are_lifted() {
    let mut term = list_match();
    let mut count = 0;
    let (r, new_defs, warnings) = run(&mut term, &mut count);
    assert_eq!(r, Ok(()));
    assert_eq!(term, call("orig$match$1", "x"));
    assert_eq!(
        new_defs,
        vec![generated(
            "orig$match$1",
            vec![
                (Pattern::Ctr("Nil".to_string(), vec![]), Term::Num { val: 0 }),
                (Pattern::Ctr("Cons".to_string(), vec![pvar("h"), pvar("t")]), var("h")),
            ]
        )]
    );
    assert_eq!(warnings, vec![]);
}

#[test]
fn constructor_arms_infer_the_owner() {
    let arms = match list_match() {
        Term::Mat { arms, .. } => arms,
        _ => unreachable!(),
    };
    assert_eq!(infer_match_type(&arms, &list_ctrs()), Ok(Type::Named("List".to_string())));
}

#[test]
fn single_variable_arm_stays() {
    let mut term = mat("x", vec![(pvar("a"), var("a"))]);
    let mut count = 0;
    let (r, new_defs, warnings) = run(&mut term, &mut count);
    assert_eq!(r, Ok(()));
    assert_eq!(term, mat("x", vec![(pvar("a"), var("a"))]));
    assert_eq!(new_defs, vec![]);
    assert_eq!(warnings, vec![]);
    assert_eq!(count, 0);
}

#[test]
fn two_variable_arms_warn_once() {
    let arms = || vec![(pvar("a"), Term::Num { val: 1 }), (pvar("b"), Term::Num { val: 2 })];
    let mut term = mat("x", arms());
    let mut count = 0;
    let (r, new_defs, warnings) = run(&mut term, &mut count);
    assert_eq!(r, Ok(()));
    assert_eq!(term, mat("x", arms()));
    assert_eq!(new_defs, vec![]);
    assert_eq!(warnings, vec![Warning::MatchOnlyVars { def_name: "orig".to_string() }]);
}

#[test]
fn tuple_against_constructor_fails() {
    let mut term = mat("x", vec![(ptup("a", "b"), var("a")), (Pattern::Ctr("C".to_string(), vec![pvar("v")]), var("v"))]);
    let mut count = 0;
    let (r, new_defs, warnings) = run(&mut term, &mut count);
    assert_eq!(r, Err(MatchError::Infer("Type mismatch. Found 'Named(T)' expected Tuple.".to_string())));
    assert_eq!(new_defs, vec![]);
    assert_eq!(warnings, vec![]);
    assert_eq!(count, 0);
}

#[test]
fn numeric_match_stays() {
    let arms = || vec![(Pattern::Num(0), var("a")), (pvar("n"), var("n"))];
    let mut term = mat("x", arms());
    let mut count = 0;
    let (r, new_defs, warnings) = run(&mut term, &mut count);
    assert_eq!(r, Ok(()));
    assert_eq!(term, mat("x", arms()));
    assert_eq!(new_defs, vec![]);
    assert_eq!(warnings, vec![]);
}

#[test]
fn match_without_arms_stays() {
    let mut term = mat("x", vec![]);
    let mut count = 0;
    let (r, new_defs, warnings) = run(&mut term, &mut count);
    assert_eq!(r, Ok(()));
    assert_eq!(term, mat("x", vec![]));
    assert_eq!(new_defs, vec![]);
    assert_eq!(warnings, vec![]);
}

#[test]
fn variable_arm_does_not_constrain() {
    let mut term = mat("x", vec![(pvar("a"), var("a")), (ptup("c", "d"), var("d"))]);
    let mut count = 0;
    let (r, new_defs, _) = run(&mut term, &mut count);
    assert_eq!(r, Ok(()));
    assert_eq!(term, call("orig$match$1", "x"));
    assert_eq!(new_defs.len(), 1);
}

#[test]
fn nested_match_is_lifted_first() {
    let mut term = mat("x", vec![(ptup("a", "b"), tuple_match()), (ptup("c", "d"), var("d"))]);
    let mut count = 0;
    let (r, new_defs, warnings) = run(&mut term, &mut count);
    assert_eq!(r, Ok(()));
    assert_eq!(term, call("orig$match$2", "x"));
    assert_eq!(
        new_defs,
        vec![
            generated("orig$match$1", vec![(ptup("a", "b"), var("a")), (ptup("c", "d"), var("d"))]),
            generated(
                "orig$match$2",
                vec![(ptup("a", "b"), call("orig$match$1", "x")), (ptup("c", "d"), var("d"))]
            ),
        ]
    );
    assert_eq!(warnings, vec![]);
    assert_eq!(count, 2);
}

#[test]
fn left_operand_before_right() {
    let mut term = Term::Opx { op: Op::Add, fst: Box::new(tuple_match()), snd: Box::new(list_match()) };
    let mut count = 0;
    let (r, new_defs, _) = run(&mut term, &mut count);
    assert_eq!(r, Ok(()));
    assert_eq!(
        term,
        Term::Opx {
            op: Op::Add,
            fst: Box::new(call("orig$match$1", "x")),
            snd: Box::new(call("orig$match$2", "x")),
        }
    );
    assert_eq!(new_defs[0].rules[0].pats, vec![ptup("a", "b")]);
    assert_eq!(new_defs[1].rules[0].pats, vec![Pattern::Ctr("Nil".to_string(), vec![])]);
}

#[test]
fn every_compound_shape_is_walked() {
    let shapes: Vec<Box<dyn Fn(Term) -> Term>> = vec![
        Box::new(|t| Term::Lam { nam: Some("v".to_string()), bod: Box::new(t) }),
        Box::new(|t| Term::Chn { nam: "v".to_string(), bod: Box::new(t) }),
        Box::new(|t| Term::Let { pat: pvar("v"), val: Box::new(Term::Era), nxt: Box::new(t) }),
        Box::new(|t| Term::App { fun: Box::new(t), arg: Box::new(Term::Era) }),
        Box::new(|t| Term::Tup { fst: Box::new(Term::Era), snd: Box::new(t) }),
        Box::new(|t| Term::Dup { fst: None, snd: None, val: Box::new(t), nxt: Box::new(Term::Era) }),
        Box::new(|t| Term::Sup { fst: Box::new(t), snd: Box::new(Term::Era) }),
    ];
    for shape in shapes {
        let mut term = shape(tuple_match());
        let mut count = 0;
        let (r, new_defs, _) = run(&mut term, &mut count);
        assert_eq!(r, Ok(()));
        assert_eq!(term, shape(call("orig$match$1", "x")));
        assert_eq!(new_defs.len(), 1);
    }
}

#[test]
fn leaves_are_left_alone() {
    let leaves = || {
        vec![
            var("x"),
            Term::Lnk { nam: "x".to_string() },
            Term::Num { val: 7 },
            Term::Str { val: "s".to_string() },
            Term::Ref { nam: "f".to_string() },
            Term::Era,
        ]
    };
    for (mut term, same) in leaves().into_iter().zip(leaves()) {
        let mut count = 0;
        let (r, new_defs, warnings) = run(&mut term, &mut count);
        assert_eq!(r, Ok(()));
        assert_eq!(term, same);
        assert_eq!(new_defs, vec![]);
        assert_eq!(warnings, vec![]);
    }
}

#[test]
fn second_pass_lifts_nothing() {
    let mut term = mat("x", vec![(ptup("a", "b"), tuple_match()), (ptup("c", "d"), list_match())]);
    let mut count = 0;
    let (r, new_defs, _) = run(&mut term, &mut count);
    assert_eq!(r, Ok(()));
    assert_eq!(new_defs.len(), 3);
    let after = call("orig$match$3", "x");
    assert_eq!(term, after);
    let (r, again, _) = run(&mut term, &mut count);
    assert_eq!(r, Ok(()));
    assert_eq!(term, after);
    assert_eq!(again, vec![]);
    assert_eq!(count, 3);
    for def in new_defs {
        for rule in def.rules {
            let mut body = rule.body;
            let mut c = 0;
            let (r, again, _) = run(&mut body, &mut c);
            assert_eq!(r, Ok(()));
            assert_eq!(again, vec![]);
        }
    }
}

#[test]
fn failure_keeps_earlier_warnings() {
    let warn = mat("x", vec![(pvar("a"), Term::Num { val: 1 }), (pvar("b"), Term::Num { val: 2 })]);
    let bad = mat("y", vec![(Pattern::Num(1), var("a")), (ptup("a", "b"), var("v"))]);
    let mut term = Term::Tup { fst: Box::new(warn), snd: Box::new(bad) };
    let mut count = 0;
    let (r, _, warnings) = run(&mut term, &mut count);
    assert_eq!(r, Err(MatchError::Infer("Type mismatch. Found 'Tuple' expected Numeric.".to_string())));
    assert_eq!(warnings, vec![Warning::MatchOnlyVars { def_name: "orig".to_string() }]);
}

#[test]
fn names_carry_origin_and_number() {
    assert_eq!(synthesize_name(&"orig".to_string(), 1), "orig$match$1");
    assert_eq!(synthesize_name(&"f".to_string(), 0), "f$match$0");
    assert_eq!(synthesize_name(&"f".to_string(), 10), "f$match$10");
    assert_eq!(synthesize_name(&"a/b".to_string(), 12345), "a/b$match$12345");
    assert_eq!(
        synthesize_name(&"".to_string(), u128::MAX),
        "$match$340282366920938463463374607431768211455"
    );
}

#[test]
fn names_of_one_origin_differ() {
    let mut seen = std::collections::HashSet::new();
    for origin in ["f", "g", "f$match$1"] {
        for n in 0..120u128 {
            assert!(seen.insert(synthesize_name(&origin.to_string(), n)));
        }
    }
}

#[test]
fn match_to_def_records_the_definition() {
    let mut new_defs = vec![];
    let arms = vec![(ptup("a", "b"), var("a"))];
    let term = match_to_def("x".to_string(), arms, &"main".to_string(), true, &mut new_defs, 4);
    assert_eq!(term, call("main$match$4", "x"));
    assert_eq!(
        new_defs,
        vec![Definition {
            name: "main$match$4".to_string(),
            rules: vec![Rule { pats: vec![ptup("a", "b")], body: var("a") }],
            builtin: true,
            source: Source::Generated,
        }]
    );
}

#[test]
fn all_var_arms_looks_at_every_arm() {
    assert!(all_var_arms(&vec![]));
    assert!(all_var_arms(&vec![(pvar("a"), Term::Era), (Pattern::Var(None), Term::Era)]));
    assert!(!all_var_arms(&vec![(pvar("a"), Term::Era), (Pattern::Num(1), Term::Era)]));
}

#[test]
fn book_gains_the_new_definitions_last() {
    let mut book = book_of(vec![normal("orig", vec![tuple_match()]), normal("other", vec![list_match(), tuple_match()])]);
    let mut warnings = vec![];
    assert_eq!(book.extract_adt_matches(&mut warnings), Ok(()));
    let names: Vec<&str> = book.defs.keys().map(|k| k.as_str()).collect();
    assert_eq!(names, vec!["orig", "other", "orig$match$1", "other$match$1", "other$match$2"]);
    assert_eq!(book.defs["orig"], normal("orig", vec![call("orig$match$1", "x")]));
    assert_eq!(
        book.defs["other"],
        normal("other", vec![call("other$match$1", "x"), call("other$match$2", "x")])
    );
    assert_eq!(
        book.defs["orig$match$1"],
        generated("orig$match$1", vec![(ptup("a", "b"), var("a")), (ptup("c", "d"), var("d"))])
    );
    assert_eq!(book.defs["other$match$2"].source, Source::Generated);
    assert_eq!(warnings, vec![]);
}

#[test]
fn book_second_pass_changes_nothing() {
    let mut book = book_of(vec![normal("orig", vec![tuple_match()]), normal("other", vec![list_match()])]);
    let mut warnings = vec![];
    assert_eq!(book.extract_adt_matches(&mut warnings), Ok(()));
    let first: Vec<(String, Vec<Term>)> = book
        .defs
        .iter()
        .map(|(k, d)| (k.clone(), d.rules.iter().map(|r| match_free_copy(&r.body)).collect()))
        .collect();
    assert_eq!(book.extract_adt_matches(&mut warnings), Ok(()));
    let second: Vec<(String, Vec<Term>)> = book
        .defs
        .iter()
        .map(|(k, d)| (k.clone(), d.rules.iter().map(|r| match_free_copy(&r.body)).collect()))
        .collect();
    assert_eq!(first, second);
    assert_eq!(book.defs.len(), 4);
}

fn match_free_copy(t: &Term) -> Term {
    match t {
        Term::Var { nam } => Term::Var { nam: nam.clone() },
        Term::Ref { nam } => Term::Ref { nam: nam.clone() },
        Term::Num { val } => Term::Num { val: *val },
        Term::App { fun, arg } => {
            Term::App { fun: Box::new(match_free_copy(fun)), arg: Box::new(match_free_copy(arg)) }
        }
        _ => panic!("a match is left"),
    }
}

#[test]
fn book_failure_names_the_definition() {
    let bad = mat("x", vec![(ptup("a", "b"), var("a")), (Pattern::Ctr("C".to_string(), vec![pvar("v")]), var("v"))]);
    let mut book = book_of(vec![normal("fine", vec![tuple_match()]), normal("orig", vec![bad])]);
    let mut warnings = vec![];
    assert_eq!(
        book.extract_adt_matches(&mut warnings),
        Err("In definition 'orig': Type mismatch. Found 'Named(T)' expected Tuple.".to_string())
    );
    let names: Vec<&str> = book.defs.keys().map(|k| k.as_str()).collect();
    assert_eq!(names, vec!["fine", "orig"]);
}

#[test]
fn book_warning_names_the_definition() {
    let two = mat("x", vec![(pvar("a"), Term::Num { val: 1 }), (pvar("b"), Term::Num { val: 2 })]);
    let mut book = book_of(vec![normal("orig", vec![two])]);
    let mut warnings = vec![];
    assert_eq!(book.extract_adt_matches(&mut warnings), Ok(()));
    assert_eq!(warnings, vec![Warning::MatchOnlyVars { def_name: "orig".to_string() }]);
    assert_eq!(book.defs.len(), 1);
}

#[test]
fn builtin_flag_is_inherited() {
    let mut def = normal("orig", vec![tuple_match()]);
    def.builtin = true;
    let mut book = book_of(vec![def]);
    let mut warnings = vec![];
    assert_eq!(book.extract_adt_matches(&mut warnings), Ok(()));
    assert!(book.defs["orig$match$1"].builtin);
}

#[test]
fn unaccepted_terms_are_left_alone() {
    let mut term = Term::Lam { nam: None, bod: Box::new(Term::Invalid) };
    let mut new_defs = vec![];
    let mut warnings = vec![];
    let mut count = 0;
    let r = term.try_extract_adt_matches(&"orig".to_string(), false, &list_ctrs(), &mut new_defs, &mut count, &mut warnings);
    assert_eq!(r, None);
    assert_eq!(term, Term::Lam { nam: None, bod: Box::new(Term::Invalid) });
    assert_eq!(new_defs, vec![]);
    assert_eq!(count, 0);

    let mut term = tuple_match();
    let mut count = u128::MAX;
    let r = term.try_extract_adt_matches(&"orig".to_string(), false, &list_ctrs(), &mut new_defs, &mut count, &mut warnings);
    assert_eq!(r, None);
    assert_eq!(term, tuple_match());
    assert_eq!(count, u128::MAX);

    let mut count = 7;
    let r = term.try_extract_adt_matches(&"orig".to_string(), false, &list_ctrs(), &mut new_defs, &mut count, &mut warnings);
    assert_eq!(r, Some(Ok(())));
    assert_eq!(term, call("orig$match$8", "x"));
    assert_eq!(count, 8);
    assert_eq!(new_defs.len(), 1);
}

#[test]
fn unaccepted_programs_are_left_alone() {
    let mut book = book_of(vec![normal("orig", vec![tuple_match()]), normal("bad", vec![Term::Lst { els: vec![] }])]);
    let mut warnings = vec![];
    assert_eq!(book.try_extract_adt_matches(&mut warnings), None);
    assert_eq!(book.defs.len(), 2);
    assert_eq!(book.defs["orig"], normal("orig", vec![tuple_match()]));
    let mut book = book_of(vec![normal("orig", vec![tuple_match()])]);
    assert_eq!(book.try_extract_adt_matches(&mut warnings), Some(Ok(())));
    assert_eq!(book.defs.len(), 2);
    assert_eq!(book.defs["orig"], normal("orig", vec![call("orig$match$1", "x")]));
}

#[test]
fn failure_leaves_what_was_done() {
    let bad = || mat("y", vec![(Pattern::Num(1), var("a")), (ptup("a", "b"), var("v"))]);
    let mut term = Term::Tup { fst: Box::new(tuple_match()), snd: Box::new(app_of(bad(), list_match())) };
    let mut count = 0;
    let (r, new_defs, warnings) = run(&mut term, &mut count);
    assert_eq!(r, Err(MatchError::Infer("Type mismatch. Found 'Tuple' expected Numeric.".to_string())));
    assert_eq!(
        term,
        Term::Tup { fst: Box::new(call("orig$match$1", "x")), snd: Box::new(app_of(bad(), list_match())) }
    );
    assert_eq!(
        new_defs,
        vec![generated("orig$match$1", vec![(ptup("a", "b"), var("a")), (ptup("c", "d"), var("d"))])]
    );
    assert_eq!(warnings, vec![]);
    assert_eq!(count, 1);
}

fn app_of(fun: Term, arg: Term) -> Term {
    Term::App { fun: Box::new(fun), arg: Box::new(arg) }
}

#[test]
fn book_failure_leaves_what_was_done() {
    let bad = || mat("y", vec![(Pattern::Num(1), var("a")), (ptup("a", "b"), var("v"))]);
    let mut book = book_of(vec![
        normal("fine", vec![tuple_match()]),
        normal("orig", vec![list_match(), bad(), tuple_match()]),
        normal("later", vec![tuple_match()]),
    ]);
    let mut warnings = vec![];
    assert_eq!(
        book.extract_adt_matches(&mut warnings),
        Err("In definition 'orig': Type mismatch. Found 'Tuple' expected Numeric.".to_string())
    );
    assert_eq!(book.defs.len(), 3);
    assert_eq!(book.defs["fine"], normal("fine", vec![call("fine$match$1", "x")]));
    assert_eq!(book.defs["orig"], normal("orig", vec![call("orig$match$1", "x"), bad(), tuple_match()]));
    assert_eq!(book.defs["later"], normal("later", vec![tuple_match()]));
}
