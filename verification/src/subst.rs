use crate::term::{
    arms_view, name_opt_view, pattern_view, term_view, Name, Pattern, PatternView, Term, TermView,
};
use vstd::prelude::*;

verus! {

/// Whether the pattern binds the name.
pub open spec fn pattern_binds(p: PatternView, name: Seq<char>) -> bool
    decreases p,
{
    match p {
        PatternView::Var(n) => n == Some(name),
        PatternView::Ctr(_, args) => exists|i: int| 0 <= i < args.len() && pattern_binds(#[trigger] args[i], name),
        PatternView::Num(_) => false,
        PatternView::Tup(a, b) => pattern_binds(*a, name) || pattern_binds(*b, name),
    }
}

/// Whether the optional binder is the name.
pub open spec fn binder_is(n: Option<Seq<char>>, name: Seq<char>) -> bool {
    n == Some(name)
}

/// The term with every free occurrence of the variable `from` renamed to
/// `to`. An occurrence below a binder of `from` is not free.
pub open spec fn renamed(t: TermView, from: Seq<char>, to: Seq<char>) -> TermView
    decreases t, 0nat,
{
    match t {
        TermView::Var { nam } => if nam == from {
            TermView::Var { nam: to }
        } else {
            t
        },
        TermView::Lam { nam, bod } => if binder_is(nam, from) {
            t
        } else {
            TermView::Lam { nam, bod: Box::new(renamed(*bod, from, to)) }
        },
        TermView::Chn { nam, bod } => TermView::Chn { nam, bod: Box::new(renamed(*bod, from, to)) },
        TermView::Let { pat, val, nxt } => TermView::Let {
            pat,
            val: Box::new(renamed(*val, from, to)),
            nxt: if pattern_binds(pat, from) {
                nxt
            } else {
                Box::new(renamed(*nxt, from, to))
            },
        },
        TermView::App { fun, arg } => TermView::App {
            fun: Box::new(renamed(*fun, from, to)),
            arg: Box::new(renamed(*arg, from, to)),
        },
        TermView::Tup { fst, snd } => TermView::Tup {
            fst: Box::new(renamed(*fst, from, to)),
            snd: Box::new(renamed(*snd, from, to)),
        },
        TermView::Dup { fst, snd, val, nxt } => TermView::Dup {
            fst,
            snd,
            val: Box::new(renamed(*val, from, to)),
            nxt: if binder_is(fst, from) || binder_is(snd, from) {
                nxt
            } else {
                Box::new(renamed(*nxt, from, to))
            },
        },
        TermView::Sup { fst, snd } => TermView::Sup {
            fst: Box::new(renamed(*fst, from, to)),
            snd: Box::new(renamed(*snd, from, to)),
        },
        TermView::Opx { op, fst, snd } => TermView::Opx {
            op,
            fst: Box::new(renamed(*fst, from, to)),
            snd: Box::new(renamed(*snd, from, to)),
        },
        TermView::Lst { els } => TermView::Lst {
            els: Seq::new(els.len(), |i: int| if 0 <= i < els.len() { renamed(els[i], from, to) } else { els[i] }),
        },
        TermView::Mat { matched, arms } => TermView::Mat {
            matched: Box::new(renamed(*matched, from, to)),
            arms: Seq::new(
                arms.len(),
                |i: int|
                    if 0 <= i < arms.len() && !pattern_binds(arms[i].0, from) {
                        (arms[i].0, renamed(arms[i].1, from, to))
                    } else {
                        arms[i]
                    },
            ),
        },
        _ => t,
    }
}

/// Whether one of the patterns binds the name.
fn any_binds(pats: &Vec<Pattern>, name: &Name, Ghost(parent): Ghost<Pattern>) -> (r: bool)
    requires
        decreases_to!(parent => *pats),
    ensures
        r == exists|i: int| 0 <= i < pats@.len() && pattern_binds(#[trigger] pattern_view(pats@[i]), name@),
    decreases parent, 0nat,
{
    let n: usize = pats.len();
    let mut i: usize = 0;
    while i < n
        invariant
            i <= n,
            n == pats@.len(),
            decreases_to!(parent => *pats),
            forall|j: int| 0 <= j < i ==> !pattern_binds(#[trigger] pattern_view(pats@[j]), name@),
        decreases n - i,
    {
        assert(decreases_to!(*pats => pats[i as int]));
        if pats[i].binds(name) {
            return true;
        }
        i += 1;
    }
    false
}

impl Pattern {
    /// Whether the pattern binds the name.
    pub fn binds(&self, name: &Name) -> (r: bool)
        ensures
            r == pattern_binds(self@, name@),
        decreases self, 1nat,
    {
        match self {
            Pattern::Var(n) => match n {
                Some(s) => *s == *name,
                None => false,
            },
            Pattern::Ctr(_, args) => {
                let r = any_binds(args, name, Ghost(*self));
                proof {
                    let av = self@->Ctr_1;
                    assert(av.len() == args@.len());
                    assert forall|i: int| 0 <= i < av.len() implies #[trigger] av[i] == pattern_view(args@[i]) by {}
                    if r {
                        let i = choose|i: int|
                            0 <= i < args@.len() && pattern_binds(#[trigger] pattern_view(args@[i]), name@);
                        assert(pattern_binds(av[i], name@));
                    }
                }
                r
            },
            Pattern::Num(_) => false,
            Pattern::Tup(a, b) => a.binds(name) || b.binds(name),
        }
    }
}

/// Whether the optional binder is the name.
pub fn is_binder(n: &Option<Name>, name: &Name) -> (r: bool)
    ensures
        r == binder_is(name_opt_view(*n), name@),
{
    match n {
        Some(s) => *s == *name,
        None => false,
    }
}

/// Renames the variable in every term of the list.
fn rename_all(els: &mut Vec<Term>, from: &Name, to: &Name, Ghost(parent): Ghost<Term>)
    requires
        decreases_to!(parent => *old(els)),
    ensures
        final(els)@.len() == old(els)@.len(),
        forall|i: int|
            0 <= i < old(els)@.len() ==> term_view(#[trigger] final(els)@[i]) == renamed(
                term_view(old(els)@[i]),
                from@,
                to@,
            ),
    decreases parent, 0nat,
{
    let ghost whole = *els;
    let n: usize = els.len();
    let mut i: usize = 0;
    while i < n
        invariant
            i <= n,
            n == els@.len(),
            n == whole@.len(),
            whole == *old(els),
            decreases_to!(parent => whole),
            forall|j: int| i <= j < n ==> els@[j] == whole@[j],
            forall|j: int|
                0 <= j < i ==> term_view(#[trigger] els@[j]) == renamed(term_view(whole@[j]), from@, to@),
        decreases n - i,
    {
        assert(decreases_to!(whole => whole[i as int]));
        els[i].rename_var(from, to);
        i += 1;
    }
}

/// Renames the variable in the body of every arm whose pattern does not bind it.
fn rename_arms(arms: &mut Vec<(Pattern, Term)>, from: &Name, to: &Name, Ghost(parent): Ghost<Term>)
    requires
        decreases_to!(parent => *old(arms)),
    ensures
        final(arms)@.len() == old(arms)@.len(),
        forall|i: int|
            0 <= i < old(arms)@.len() ==> (#[trigger] arms_view(final(arms)@)[i]) == (if pattern_binds(
                arms_view(old(arms)@)[i].0,
                from@,
            ) {
                arms_view(old(arms)@)[i]
            } else {
                (arms_view(old(arms)@)[i].0, renamed(arms_view(old(arms)@)[i].1, from@, to@))
            }),
    decreases parent, 0nat,
{
    let ghost whole = *arms;
    let ghost before = arms_view(arms@);
    let n: usize = arms.len();
    let mut i: usize = 0;
    while i < n
        invariant
            i <= n,
            n == arms@.len(),
            n == whole@.len(),
            whole == *old(arms),
            before == arms_view(whole@),
            decreases_to!(parent => whole),
            forall|j: int| i <= j < n ==> arms@[j] == whole@[j],
            forall|j: int|
                0 <= j < i ==> (#[trigger] arms_view(arms@)[j]) == (if pattern_binds(before[j].0, from@) {
                    before[j]
                } else {
                    (before[j].0, renamed(before[j].1, from@, to@))
                }),
        decreases n - i,
    {
        assert(decreases_to!(whole => whole[i as int]));
        assert(before[i as int] == (pattern_view(arms@[i as int].0), term_view(arms@[i as int].1)));
        let ghost done = arms_view(arms@);
        if !arms[i].0.binds(from) {
            arms[i].1.rename_var(from, to);
        }
        proof {
            assert forall|j: int| 0 <= j < i implies (#[trigger] arms_view(arms@)[j]) == done[j] by {}
        }
        i += 1;
    }
}

impl Term {
    /// Renames every free occurrence of the variable `from` to `to`, in place.
    pub fn rename_var(&mut self, from: &Name, to: &Name)
        ensures
            final(self)@ == renamed(old(self)@, from@, to@),
        decreases *old(self), 1nat,
    {
        let ghost parent = *self;
        match self {
            Term::Var { nam } => {
                if *nam == *from {
                    *nam = to.clone();
                }
            },
            Term::Lam { nam, bod } => {
                if !is_binder(nam, from) {
                    bod.rename_var(from, to);
                }
            },
            Term::Chn { bod, .. } => {
                bod.rename_var(from, to);
            },
            Term::Let { pat, val, nxt } => {
                val.rename_var(from, to);
                if !pat.binds(from) {
                    nxt.rename_var(from, to);
                }
            },
            Term::Dup { fst, snd, val, nxt } => {
                val.rename_var(from, to);
                if !is_binder(fst, from) && !is_binder(snd, from) {
                    nxt.rename_var(from, to);
                }
            },
            Term::App { fun, arg, .. } => {
                fun.rename_var(from, to);
                arg.rename_var(from, to);
            },
            Term::Tup { fst, snd, .. } => {
                fst.rename_var(from, to);
                snd.rename_var(from, to);
            },
            Term::Sup { fst, snd, .. } => {
                fst.rename_var(from, to);
                snd.rename_var(from, to);
            },
            Term::Opx { fst, snd, .. } => {
                fst.rename_var(from, to);
                snd.rename_var(from, to);
            },
            Term::Lst { els } => {
                rename_all(els, from, to, Ghost(parent));
                proof {
                    let want = renamed(parent@, from@, to@)->Lst_els;
                    assert(term_view(Term::Lst { els: *els })->Lst_els =~= want);
                }
            },
            Term::Mat { matched, arms } => {
                matched.rename_var(from, to);
                rename_arms(arms, from, to, Ghost(parent));
                proof {
                    let want = renamed(parent@, from@, to@)->Mat_arms;
                    assert(arms_view(arms@) =~= want);
                }
            },
            _ => {},
        }
    }
}

} // verus!