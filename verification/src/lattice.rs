use crate::table::{ctr_owner, ctr_owners};
use crate::term::{arms_view, Name, Pattern, PatternView, Term, TermView};
use indexmap::IndexMap;
use vstd::prelude::*;
use vstd::string::StringExecFns;

verus! {

/// What the patterns of a match discriminate.
#[derive(Debug, PartialEq)]
pub enum Type {
    /// No pattern was seen yet.
    Unknown,
    /// Only variable binders were seen.
    Any,
    Numeric,
    Tuple,
    /// The algebraic type of that name.
    Named(Name),
}

/// The mathematical value of a [`Type`].
pub enum TypeView {
    Unknown,
    Any,
    Numeric,
    Tuple,
    Named(Seq<char>),
}

impl View for Type {
    type V = TypeView;

    open spec fn view(&self) -> TypeView {
        match self {
            Type::Unknown => TypeView::Unknown,
            Type::Any => TypeView::Any,
            Type::Numeric => TypeView::Numeric,
            Type::Tuple => TypeView::Tuple,
            Type::Named(a) => TypeView::Named(a@),
        }
    }
}

/// Two shapes that do not go together: the one just found and the one that
/// the patterns before it had settled.
pub struct Mismatch {
    pub found: TypeView,
    pub expected: TypeView,
}

/// How a shape is written in a message.
pub open spec fn shape_name(t: TypeView) -> Seq<char> {
    match t {
        TypeView::Unknown => "Unknown"@,
        TypeView::Any => "Any"@,
        TypeView::Numeric => "Numeric"@,
        TypeView::Tuple => "Tuple"@,
        TypeView::Named(a) => "Named("@ + a + ")"@,
    }
}

/// The text of a type-inference error.
pub open spec fn mismatch_message(m: Mismatch) -> Seq<char> {
    "Type mismatch. Found '"@ + shape_name(m.found) + "' expected "@ + shape_name(m.expected) + "."@
}

/// The shape that `acc` and `next` agree on. `Unknown` is the identity, a
/// variable binder constrains nothing, and two settled shapes must be equal.
pub open spec fn unified(acc: TypeView, next: TypeView) -> Result<TypeView, Mismatch> {
    if acc is Unknown {
        Ok(next)
    } else if next is Unknown {
        Ok(acc)
    } else if acc is Any {
        Ok(next)
    } else if next is Any {
        Ok(acc)
    } else if acc == next {
        Ok(acc)
    } else {
        Err(Mismatch { found: next, expected: acc })
    }
}

/// Whether a shape is worth a definition of its own: tuples and algebraic
/// types are, the others stay inline.
pub open spec fn is_extracted(t: TypeView) -> bool {
    t is Tuple || t is Named
}

/// Whether the pattern can be classified: a constructor must be in the table.
pub open spec fn is_registered(p: PatternView, ctrs: Map<Seq<char>, Seq<char>>) -> bool {
    match p {
        PatternView::Ctr(name, _) => ctrs.contains_key(name),
        _ => true,
    }
}

/// The shape that one pattern discriminates.
pub open spec fn classified(p: PatternView, ctrs: Map<Seq<char>, Seq<char>>) -> TypeView {
    match p {
        PatternView::Var(_) => TypeView::Any,
        PatternView::Num(_) => TypeView::Numeric,
        PatternView::Tup(_, _) => TypeView::Tuple,
        PatternView::Ctr(name, _) => TypeView::Named(ctrs[name]),
    }
}

/// The patterns of the arms, in order.
pub open spec fn arm_patterns(arms: Seq<(PatternView, TermView)>) -> Seq<PatternView> {
    arms.map_values(|a: (PatternView, TermView)| a.0)
}

/// The shape that the first `n` patterns agree on, or the first mismatch
/// among them.
pub open spec fn inferred(pats: Seq<PatternView>, ctrs: Map<Seq<char>, Seq<char>>, n: nat) -> Result<
    TypeView,
    Mismatch,
>
    decreases n,
{
    if n == 0 {
        Ok(TypeView::Unknown)
    } else {
        match inferred(pats, ctrs, (n - 1) as nat) {
            Ok(acc) => unified(acc, classified(pats[n - 1], ctrs)),
            Err(m) => Err(m),
        }
    }
}

/// The shape that all the patterns agree on.
pub open spec fn inferred_type(pats: Seq<PatternView>, ctrs: Map<Seq<char>, Seq<char>>) -> Result<
    TypeView,
    Mismatch,
> {
    inferred(pats, ctrs, pats.len())
}

/// A mismatch among the first `n` patterns is the result for every longer
/// prefix.
pub proof fn lemma_mismatch_stays(pats: Seq<PatternView>, ctrs: Map<Seq<char>, Seq<char>>, n: nat, m: nat)
    requires
        n <= m,
        inferred(pats, ctrs, n) is Err,
    ensures
        inferred(pats, ctrs, m) == inferred(pats, ctrs, n),
    decreases m,
{
    if n < m {
        lemma_mismatch_stays(pats, ctrs, n, (m - 1) as nat);
    }
}

/// What went wrong in a match.
#[derive(Debug, PartialEq)]
pub enum MatchError {
    Empty,
    Infer(String),
    Repeated(Name),
    Missing(Vec<Name>),
    LetPat(Box<MatchError>),
    Linearize(Name),
}

impl Type {
    /// The shape as messages write it.
    pub fn name(&self) -> (r: String)
        ensures
            r@ == shape_name(self@),
    {
        match self {
            Type::Unknown => String::from_str("Unknown"),
            Type::Any => String::from_str("Any"),
            Type::Numeric => String::from_str("Numeric"),
            Type::Tuple => String::from_str("Tuple"),
            Type::Named(a) => {
                let mut s = String::from_str("Named(");
                s.append(a.as_str());
                s.append(")");
                s
            },
        }
    }

    /// Whether both are the same shape.
    pub fn same(&self, other: &Type) -> (r: bool)
        ensures
            r == (self@ == other@),
    {
        match self {
            Type::Named(a) => match other {
                Type::Named(b) => *a == *b,
                _ => false,
            },
            Type::Unknown => match other {
                Type::Unknown => true,
                _ => false,
            },
            Type::Any => match other {
                Type::Any => true,
                _ => false,
            },
            Type::Numeric => match other {
                Type::Numeric => true,
                _ => false,
            },
            Type::Tuple => match other {
                Type::Tuple => true,
                _ => false,
            },
        }
    }

    /// Combines the shape settled so far with the shape of the next pattern.
    pub fn unify(self, next: Type) -> (r: Result<Type, MatchError>)
        ensures
            match unified(self@, next@) {
                Ok(t) => r is Ok && r->Ok_0@ == t,
                Err(m) => r is Err && r->Err_0 is Infer && r->Err_0->Infer_0@ == mismatch_message(m),
            },
    {
        if matches!(self, Type::Unknown) {
            Ok(next)
        } else if matches!(next, Type::Unknown) {
            Ok(self)
        } else if matches!(self, Type::Any) {
            Ok(next)
        } else if matches!(next, Type::Any) {
            Ok(self)
        } else if self.same(&next) {
            Ok(self)
        } else {
            let mut s = String::from_str("Type mismatch. Found '");
            s.append(next.name().as_str());
            s.append("' expected ");
            s.append(self.name().as_str());
            s.append(".");
            Err(MatchError::Infer(s))
        }
    }
}

impl Pattern {
    /// The shape that this pattern discriminates, by the constructor table.
    pub fn to_type(&self, ctrs: &IndexMap<Name, Name>) -> (r: Type)
        requires
            is_registered(self@, ctr_owners(*ctrs)),
        ensures
            r@ == classified(self@, ctr_owners(*ctrs)),
    {
        match self {
            Pattern::Var(_) => Type::Any,
            Pattern::Num(_) => Type::Numeric,
            Pattern::Tup(_, _) => Type::Tuple,
            Pattern::Ctr(name, _) => {
                match ctr_owner(ctrs, name) {
                    Some(owner) => Type::Named(owner.clone()),
                    None => Type::Unknown,
                }
            },
        }
    }
}

/// Finds the shape that the patterns of all the arms agree on. Fails with an
/// `Infer` error at the first pattern that does not go with those before it.
pub fn infer_match_type(arms: &Vec<(Pattern, Term)>, ctrs: &IndexMap<Name, Name>) -> (r: Result<
    Type,
    MatchError,
>)
    requires
        forall|i: int| 0 <= i < arms@.len() ==> is_registered(#[trigger] arms@[i].0@, ctr_owners(*ctrs)),
    ensures
        match inferred_type(arm_patterns(arms_view(arms@)), ctr_owners(*ctrs)) {
            Ok(t) => r is Ok && r->Ok_0@ == t,
            Err(m) => r is Err && r->Err_0 is Infer && r->Err_0->Infer_0@ == mismatch_message(m),
        },
{
    let ghost pats = arm_patterns(arms_view(arms@));
    let ghost owners = ctr_owners(*ctrs);
    let n: usize = arms.len();
    let mut match_type = Type::Unknown;
    let mut i: usize = 0;
    while i < n
        invariant
            i <= n,
            n == arms@.len(),
            pats == arm_patterns(arms_view(arms@)),
            owners == ctr_owners(*ctrs),
            forall|j: int| 0 <= j < arms@.len() ==> is_registered(#[trigger] arms@[j].0@, ctr_owners(*ctrs)),
            inferred(pats, owners, i as nat) == Ok::<TypeView, Mismatch>(match_type@),
        decreases n - i,
    {
        assert(pats[i as int] == arms@[i as int].0@);
        let new_type = arms[i].0.to_type(ctrs);
        match match_type.unify(new_type) {
            Ok(t) => {
                match_type = t;
            },
            Err(e) => {
                proof {
                    lemma_mismatch_stays(pats, owners, (i + 1) as nat, n as nat);
                }
                return Err(e);
            },
        }
        i += 1;
    }
    Ok(match_type)
}

} // verus!
