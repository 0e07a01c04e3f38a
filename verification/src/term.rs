use vstd::prelude::*;

verus! {

/// Names of variables, constructors and definitions.
pub type Name = String;

/// A pattern of a match arm or of a rule.
#[derive(Debug, PartialEq)]
pub enum Pattern {
    Var(Option<Name>),
    Ctr(Name, Vec<Pattern>),
    Num(u64),
    Tup(Box<Pattern>, Box<Pattern>),
}

/// The mathematical value of a [`Pattern`].
pub enum PatternView {
    Var(Option<Seq<char>>),
    Ctr(Seq<char>, Seq<PatternView>),
    Num(u64),
    Tup(Box<PatternView>, Box<PatternView>),
}

/// Binary operators of the language.
#[derive(Clone, Copy, Debug, PartialEq, Eq, Structural)]
pub enum Op {
    Add,
    Sub,
    Mul,
    Div,
    Mod,
    Eq,
    Ne,
    Lt,
    Gt,
    And,
    Or,
    Xor,
}

/// An expression of the language.
#[allow(inconsistent_fields)]
#[derive(Debug, PartialEq)]
pub enum Term {
    Lam { nam: Option<Name>, bod: Box<Term> },
    Var { nam: Name },
    Chn { nam: Name, bod: Box<Term> },
    Lnk { nam: Name },
    Let { pat: Pattern, val: Box<Term>, nxt: Box<Term> },
    App { fun: Box<Term>, arg: Box<Term> },
    Tup { fst: Box<Term>, snd: Box<Term> },
    Dup { fst: Option<Name>, snd: Option<Name>, val: Box<Term>, nxt: Box<Term> },
    Sup { fst: Box<Term>, snd: Box<Term> },
    Num { val: u64 },
    Str { val: String },
    Lst { els: Vec<Term> },
    Opx { op: Op, fst: Box<Term>, snd: Box<Term> },
    Mat { matched: Box<Term>, arms: Vec<(Pattern, Term)> },
    Ref { nam: Name },
    Era,
    Invalid,
}

/// The mathematical value of a [`Term`].
#[allow(inconsistent_fields)]
pub enum TermView {
    Lam { nam: Option<Seq<char>>, bod: Box<TermView> },
    Var { nam: Seq<char> },
    Chn { nam: Seq<char>, bod: Box<TermView> },
    Lnk { nam: Seq<char> },
    Let { pat: PatternView, val: Box<TermView>, nxt: Box<TermView> },
    App { fun: Box<TermView>, arg: Box<TermView> },
    Tup { fst: Box<TermView>, snd: Box<TermView> },
    Dup { fst: Option<Seq<char>>, snd: Option<Seq<char>>, val: Box<TermView>, nxt: Box<TermView> },
    Sup { fst: Box<TermView>, snd: Box<TermView> },
    Num { val: u64 },
    Str { val: Seq<char> },
    Lst { els: Seq<TermView> },
    Opx { op: Op, fst: Box<TermView>, snd: Box<TermView> },
    Mat { matched: Box<TermView>, arms: Seq<(PatternView, TermView)> },
    Ref { nam: Seq<char> },
    Era,
    Invalid,
}

pub open spec fn name_opt_view(n: Option<Name>) -> Option<Seq<char>> {
    match n {
        Some(s) => Some(s@),
        None => None,
    }
}

/// The value of a pattern, with every name and sequence taken by its view.
pub open spec fn pattern_view(p: Pattern) -> PatternView
    decreases p,
{
    match p {
        Pattern::Var(n) => PatternView::Var(name_opt_view(n)),
        Pattern::Ctr(n, args) => PatternView::Ctr(
            n@,
            Seq::new(
                args@.len(),
                |i: int| if 0 <= i < args@.len() { pattern_view(args@[i]) } else { PatternView::Num(0) },
            ),
        ),
        Pattern::Num(v) => PatternView::Num(v),
        Pattern::Tup(a, b) => PatternView::Tup(Box::new(pattern_view(*a)), Box::new(pattern_view(*b))),
    }
}

impl View for Pattern {
    type V = PatternView;

    open spec fn view(&self) -> PatternView {
        pattern_view(*self)
    }
}

/// The value of a term, with every name and sequence taken by its view.
pub open spec fn term_view(t: Term) -> TermView
    decreases t,
{
    match t {
        Term::Lam { nam, bod } => TermView::Lam { nam: name_opt_view(nam), bod: Box::new(term_view(*bod)) },
        Term::Var { nam } => TermView::Var { nam: nam@ },
        Term::Chn { nam, bod } => TermView::Chn { nam: nam@, bod: Box::new(term_view(*bod)) },
        Term::Lnk { nam } => TermView::Lnk { nam: nam@ },
        Term::Let { pat, val, nxt } => TermView::Let {
            pat: pattern_view(pat),
            val: Box::new(term_view(*val)),
            nxt: Box::new(term_view(*nxt)),
        },
        Term::App { fun, arg } => TermView::App {
            fun: Box::new(term_view(*fun)),
            arg: Box::new(term_view(*arg)),
        },
        Term::Tup { fst, snd } => TermView::Tup {
            fst: Box::new(term_view(*fst)),
            snd: Box::new(term_view(*snd)),
        },
        Term::Dup { fst, snd, val, nxt } => TermView::Dup {
            fst: name_opt_view(fst),
            snd: name_opt_view(snd),
            val: Box::new(term_view(*val)),
            nxt: Box::new(term_view(*nxt)),
        },
        Term::Sup { fst, snd } => TermView::Sup {
            fst: Box::new(term_view(*fst)),
            snd: Box::new(term_view(*snd)),
        },
        Term::Num { val } => TermView::Num { val },
        Term::Str { val } => TermView::Str { val: val@ },
        Term::Lst { els } => TermView::Lst {
            els: Seq::new(
                els@.len(),
                |i: int| if 0 <= i < els@.len() { term_view(els@[i]) } else { TermView::Era },
            ),
        },
        Term::Opx { op, fst, snd } => TermView::Opx {
            op,
            fst: Box::new(term_view(*fst)),
            snd: Box::new(term_view(*snd)),
        },
        Term::Mat { matched, arms } => TermView::Mat {
            matched: Box::new(term_view(*matched)),
            arms: arms_view(arms@),
        },
        Term::Ref { nam } => TermView::Ref { nam: nam@ },
        Term::Era => TermView::Era,
        Term::Invalid => TermView::Invalid,
    }
}

/// The arms of a match, each taken by its view.
pub open spec fn arms_view(arms: Seq<(Pattern, Term)>) -> Seq<(PatternView, TermView)>
    decreases arms,
{
    Seq::new(
        arms.len(),
        |i: int| if 0 <= i < arms.len() { (pattern_view(arms[i].0), term_view(arms[i].1)) } else { (PatternView::Num(0), TermView::Era) },
    )
}

impl View for Term {
    type V = TermView;

    open spec fn view(&self) -> TermView {
        term_view(*self)
    }
}

/// One clause of a definition: the patterns of its arguments and its body.
#[derive(Debug, PartialEq)]
pub struct Rule {
    pub pats: Vec<Pattern>,
    pub body: Term,
}

/// The mathematical value of a [`Rule`].
pub struct RuleView {
    pub pats: Seq<PatternView>,
    pub body: TermView,
}

impl View for Rule {
    type V = RuleView;

    open spec fn view(&self) -> RuleView {
        RuleView { pats: self.pats@.map_values(|p: Pattern| p@), body: self.body@ }
    }
}

/// Where a definition comes from.
#[derive(Clone, Copy, Debug, PartialEq, Eq, Structural)]
pub enum Source {
    Normal,
    Imported,
    Builtin,
    Generated,
    Inaccessible,
}

/// A top-level definition: a name and its rules.
#[derive(Debug, PartialEq)]
pub struct Definition {
    pub name: Name,
    pub rules: Vec<Rule>,
    pub builtin: bool,
    pub source: Source,
}

/// The mathematical value of a [`Definition`].
pub struct DefinitionView {
    pub name: Seq<char>,
    pub rules: Seq<RuleView>,
    pub builtin: bool,
    pub source: Source,
}

impl View for Definition {
    type V = DefinitionView;

    open spec fn view(&self) -> DefinitionView {
        DefinitionView {
            name: self.name@,
            rules: self.rules@.map_values(|r: Rule| r@),
            builtin: self.builtin,
            source: self.source,
        }
    }
}

/// A diagnostic that does not stop the compilation.
#[derive(Debug, PartialEq)]
pub enum Warning {
    /// Every arm of a match with several arms binds a plain variable.
    MatchOnlyVars { def_name: Name },
}

/// The mathematical value of a [`Warning`].
pub enum WarningView {
    MatchOnlyVars { def_name: Seq<char> },
}

impl View for Warning {
    type V = WarningView;

    open spec fn view(&self) -> WarningView {
        match self {
            Warning::MatchOnlyVars { def_name } => WarningView::MatchOnlyVars { def_name: def_name@ },
        }
    }
}

/// The views of a list of warnings, in order.
pub open spec fn warnings_view(ws: Seq<Warning>) -> Seq<WarningView> {
    ws.map_values(|w: Warning| w@)
}

/// The views of a list of definitions, in order.
pub open spec fn definitions_view(ds: Seq<Definition>) -> Seq<DefinitionView> {
    ds.map_values(|d: Definition| d@)
}

impl Term {
    /// The call of `fun` on the variable `arg`.
    pub fn arg_call(fun: Term, arg: Name) -> (r: Term)
        ensures
            r@ == (TermView::App { fun: Box::new(fun@), arg: Box::new(TermView::Var { nam: arg@ }) }),
    {
        proof {
            reveal_with_fuel(term_view, 3);
        }
        Term::App { fun: Box::new(fun), arg: Box::new(Term::Var { nam: arg }) }
    }
}

} // verus!
