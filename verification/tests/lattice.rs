use adt_matches::errors::join_names;
use adt_matches::extract::{arms_are_registered, classify, pattern_is_registered, try_infer_match_type};
use adt_matches::imports::{has_char, Imports};
use adt_matches::lattice::{infer_match_type, MatchError, Type};
use adt_matches::term::{Pattern, Term};
use adt_matches::text::{decimal_text, strip_newline};
use indexmap::IndexMap;

fn named(n: &str) -> Type {
    Type::Named(n.to_string())
}

fn owners() -> IndexMap<String, String> {
    let mut ctrs = IndexMap::new();
    ctrs.insert("Some".to_string(), "Option".to_string());
    ctrs.insert("Leaf".to_string(), "Tree".to_string());
    ctrs
}

#[test]
fn unknown_is_the_identity() {
    assert_eq!(Type::Unknown.unify(Type::Tuple), Ok(Type::Tuple));
    assert_eq!(Type::Unknown.unify(Type::Any), Ok(Type::Any));
    assert_eq!(Type::Unknown.unify(named("A")), Ok(named("A")));
    assert_eq!(Type::Numeric.unify(Type::Unknown), Ok(Type::Numeric));
    assert_eq!(Type::Unknown.unify(Type::Unknown), Ok(Type::Unknown));
}

#[test]
fn any_yields_the_other() {
    assert_eq!(Type::Any.unify(Type::Tuple), Ok(Type::Tuple));
    assert_eq!(Type::Tuple.unify(Type::Any), Ok(Type::Tuple));
    assert_eq!(Type::Any.unify(Type::Numeric), Ok(Type::Numeric));
    assert_eq!(named("A").unify(Type::Any), Ok(named("A")));
    assert_eq!(Type::Any.unify(Type::Any), Ok(Type::Any));
}

#[test]
fn equal_shapes_unify() {
    assert_eq!(Type::Tuple.unify(Type::Tuple), Ok(Type::Tuple));
    assert_eq!(Type::Numeric.unify(Type::Numeric), Ok(Type::Numeric));
    assert_eq!(named("A").unify(named("A")), Ok(named("A")));
}

#[test]
fn different_shapes_fail() {
    assert_eq!(
        Type::Tuple.unify(Type::Numeric),
        Err(MatchError::Infer("Type mismatch. Found 'Numeric' expected Tuple.".to_string()))
    );
    assert_eq!(
        named("A").unify(named("B")),
        Err(MatchError::Infer("Type mismatch. Found 'Named(B)' expected Named(A).".to_string()))
    );
    assert_eq!(
        Type::Numeric.unify(named("A")),
        Err(MatchError::Infer("Type mismatch. Found 'Named(A)' expected Numeric.".to_string()))
    );
}

#[test]
fn shapes_have_names() {
    assert_eq!(Type::Unknown.name(), "Unknown");
    assert_eq!(Type::Any.name(), "Any");
    assert_eq!(Type::Numeric.name(), "Numeric");
    assert_eq!(Type::Tuple.name(), "Tuple");
    assert_eq!(named("List").name(), "Named(List)");
    assert!(named("A").same(&named("A")));
    assert!(!named("A").same(&named("B")));
    assert!(!Type::Tuple.same(&Type::Any));
}

#[test]
fn patterns_are_classified() {
    let ctrs = owners();
    assert_eq!(Pattern::Var(None).to_type(&ctrs), Type::Any);
    assert_eq!(Pattern::Num(3).to_type(&ctrs), Type::Numeric);
    assert_eq!(
        Pattern::Tup(Box::new(Pattern::Num(1)), Box::new(Pattern::Var(None))).to_type(&ctrs),
        Type::Tuple
    );
    assert_eq!(Pattern::Ctr("Some".to_string(), vec![Pattern::Var(None)]).to_type(&ctrs), named("Option"));
    assert_eq!(Pattern::Ctr("Leaf".to_string(), vec![]).to_type(&ctrs), named("Tree"));
}

#[test]
fn inference_folds_over_all_arms() {
    let ctrs = owners();
    let arm = |p: Pattern| (p, Term::Era);
    assert_eq!(infer_match_type(&vec![], &ctrs), Ok(Type::Unknown));
    assert_eq!(infer_match_type(&vec![arm(Pattern::Var(None))], &ctrs), Ok(Type::Any));
    assert_eq!(
        infer_match_type(&vec![arm(Pattern::Var(None)), arm(Pattern::Num(1)), arm(Pattern::Num(2))], &ctrs),
        Ok(Type::Numeric)
    );
    assert_eq!(
        infer_match_type(
            &vec![arm(Pattern::Ctr("Some".to_string(), vec![])), arm(Pattern::Ctr("Leaf".to_string(), vec![]))],
            &ctrs
        ),
        Err(MatchError::Infer("Type mismatch. Found 'Named(Tree)' expected Named(Option).".to_string()))
    );
}

#[test]
fn errors_have_messages() {
    assert_eq!(MatchError::Empty.to_string(), "Empty match block found");
    assert_eq!(MatchError::Infer("some text".to_string()).to_string(), "some text");
    assert_eq!(
        MatchError::Repeated("x".to_string()).to_string(),
        "Repeated var name in a match block: x"
    );
    assert_eq!(
        MatchError::Missing(vec!["A".to_string()]).to_string(),
        "Missing a constructor in a match block: A"
    );
    assert_eq!(
        MatchError::Missing(vec!["A".to_string(), "B".to_string(), "C".to_string()]).to_string(),
        "Missing constructors in a match block: A, B, C"
    );
    assert_eq!(
        MatchError::Linearize("v".to_string()).to_string(),
        "Unable to linearize variable v in a match block."
    );
}

#[test]
fn let_errors_are_reworded() {
    assert_eq!(
        MatchError::LetPat(Box::new(MatchError::Repeated("x".to_string()))).to_string(),
        "Repeated var name in a let bind: x"
    );
    assert_eq!(
        MatchError::LetPat(Box::new(MatchError::Missing(vec!["A".to_string()]))).to_string(),
        "Missing a constructor in a let bind: A\nConsider using a match block instead"
    );
    assert_eq!(
        MatchError::LetPat(Box::new(MatchError::Infer("match block match block".to_string()))).to_string(),
        "let bind let bind"
    );
    assert_eq!(MatchError::LetPat(Box::new(MatchError::Empty)).to_string(), "Empty let bind found");
}

#[test]
fn names_are_joined() {
    assert_eq!(join_names(&vec![], ", "), "");
    assert_eq!(join_names(&vec!["a".to_string()], ", "), "a");
    assert_eq!(join_names(&vec!["a".to_string(), "b".to_string()], "-"), "a-b");
}

#[test]
fn online_import_needs_a_slash() {
    let mut imports = Imports::default();
    assert_eq!(imports.add_import("pkg@1".to_string(), vec![]), Err("pkg@1".to_string()));
    assert_eq!(imports.imports().len(), 0);
    assert_eq!(imports.add_import("user@1/pkg".to_string(), vec!["f".to_string()]), Ok(()));
    assert_eq!(imports.add_import("local".to_string(), vec![]), Ok(()));
    assert_eq!(
        imports.imports().to_vec(),
        vec![("user@1/pkg".to_string(), vec!["f".to_string()]), ("local".to_string(), vec![])]
    );
}

#[test]
fn characters_are_found() {
    assert!(has_char("a@b", '@'));
    assert!(!has_char("ab", '@'));
    assert!(!has_char("", '/'));
    assert!(has_char("héllo/", '/'));
}

#[test]
fn unregistered_constructors_are_told_apart() {
    let ctrs = owners();
    let known = Pattern::Ctr("Some".to_string(), vec![]);
    let unknown = Pattern::Ctr("Other".to_string(), vec![]);
    assert!(pattern_is_registered(&known, &ctrs));
    assert!(!pattern_is_registered(&unknown, &ctrs));
    assert!(pattern_is_registered(&Pattern::Num(1), &ctrs));
    assert_eq!(classify(&known, &ctrs), Some(named("Option")));
    assert_eq!(classify(&unknown, &ctrs), None);
    assert_eq!(classify(&Pattern::Var(None), &ctrs), Some(Type::Any));
    let arms = vec![(Pattern::Num(1), Term::Era), (known, Term::Era)];
    assert!(arms_are_registered(&arms, &ctrs));
    assert_eq!(
        try_infer_match_type(&arms, &ctrs),
        Some(Err(MatchError::Infer("Type mismatch. Found 'Named(Option)' expected Numeric.".to_string())))
    );
    let arms = vec![(Pattern::Num(1), Term::Era), (unknown, Term::Era)];
    assert!(!arms_are_registered(&arms, &ctrs));
    assert_eq!(try_infer_match_type(&arms, &ctrs), None);
    assert_eq!(try_infer_match_type(&vec![], &ctrs), Some(Ok(Type::Unknown)));
}

#[test]
fn lines_lose_their_newline() {
    assert_eq!(strip_newline("abc\n"), "abc");
    assert_eq!(strip_newline("abc"), "abc");
    assert_eq!(strip_newline("abc\n\n"), "abc\n");
    assert_eq!(strip_newline("\n"), "");
    assert_eq!(strip_newline(""), "");
    assert_eq!(strip_newline("a\nb"), "a\nb");
}

#[test]
fn numbers_are_written_in_decimal() {
    assert_eq!(decimal_text(0), "0");
    assert_eq!(decimal_text(9), "9");
    assert_eq!(decimal_text(10), "10");
    assert_eq!(decimal_text(1234567890), "1234567890");
}
