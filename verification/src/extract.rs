use crate::lattice::{
    arm_patterns, classified, infer_match_type, inferred_type, is_extracted, is_registered, mismatch_message, MatchError,
    Mismatch, Type,
};
use crate::table::{ctr_owner, ctr_owners};
use crate::term::{
    arms_view, definitions_view, term_view, warnings_view, Definition, DefinitionView, Name,
    Pattern, PatternView, Rule, RuleView, Source, Term, TermView, Warning, WarningView,
};
use crate::text::{decimal, decimal_text};
use indexmap::IndexMap;
use vstd::prelude::*;
use vstd::string::StringExecFns;

verus! {

/// What stays fixed while one definition is rewritten.
pub struct Env {
    /// The name of the definition that is being rewritten.
    pub origin: Seq<char>,
    /// Whether that definition is a builtin.
    pub builtin: bool,
    /// The constructor table.
    pub ctrs: Map<Seq<char>, Seq<char>>,
}

/// What a rewrite has produced so far.
pub struct Progress {
    /// The definitions created, oldest first.
    pub defs: Seq<DefinitionView>,
    /// The sequence number of the last definition created for this origin.
    pub count: nat,
    /// The warnings given, oldest first.
    pub warnings: Seq<WarningView>,
    /// The mismatch that stopped the rewrite, if one did.
    pub error: Option<Mismatch>,
}

/// Whether the rewrite accepts the term: no list literal, no error
/// placeholder, no destructuring `let`, every match looks at a plain variable,
/// and every constructor that heads an arm's pattern is in the table.
pub open spec fn well_formed(t: TermView, ctrs: Map<Seq<char>, Seq<char>>) -> bool
    decreases t,
{
    match t {
        TermView::Lam { bod, .. } => well_formed(*bod, ctrs),
        TermView::Chn { bod, .. } => well_formed(*bod, ctrs),
        TermView::Let { pat, val, nxt } => pat is Var && well_formed(*val, ctrs) && well_formed(*nxt, ctrs),
        TermView::App { fun, arg } => well_formed(*fun, ctrs) && well_formed(*arg, ctrs),
        TermView::Tup { fst, snd } => well_formed(*fst, ctrs) && well_formed(*snd, ctrs),
        TermView::Dup { val, nxt, .. } => well_formed(*val, ctrs) && well_formed(*nxt, ctrs),
        TermView::Sup { fst, snd } => well_formed(*fst, ctrs) && well_formed(*snd, ctrs),
        TermView::Opx { fst, snd, .. } => well_formed(*fst, ctrs) && well_formed(*snd, ctrs),
        TermView::Mat { matched, arms } => *matched is Var && forall|i: int|
            0 <= i < arms.len() ==> is_registered((#[trigger] arms[i]).0, ctrs) && well_formed(arms[i].1, ctrs),
        TermView::Lst { .. } => false,
        TermView::Invalid => false,
        _ => true,
    }
}

/// Whether every arm binds a plain variable.
pub open spec fn only_vars(arms: Seq<(PatternView, TermView)>) -> bool {
    forall|i: int| 0 <= i < arms.len() ==> (#[trigger] arms[i]).0 is Var
}

/// The name of the `n`-th definition created for `origin`.
pub open spec fn synthesized_name(origin: Seq<char>, n: nat) -> Seq<char> {
    origin + "$match$"@ + decimal(n)
}

/// The rule that an arm becomes: its pattern alone, and its body.
pub open spec fn arm_rule(arm: (PatternView, TermView)) -> RuleView {
    RuleView { pats: seq![arm.0], body: arm.1 }
}

/// The definition that the arms of a match become.
pub open spec fn synthesized_def(
    arms: Seq<(PatternView, TermView)>,
    origin: Seq<char>,
    builtin: bool,
    n: nat,
) -> DefinitionView {
    DefinitionView {
        name: synthesized_name(origin, n),
        rules: arms.map_values(|a: (PatternView, TermView)| arm_rule(a)),
        builtin,
        source: Source::Generated,
    }
}

/// The call that stands where the match stood.
pub open spec fn call_site(name: Seq<char>, matched: TermView) -> TermView {
    TermView::App { fun: Box::new(TermView::Ref { nam: name }), arg: Box::new(matched) }
}

/// The warning that a match with several arms gets when all of them bind
/// plain variables.
pub open spec fn warned(arms: Seq<(PatternView, TermView)>, env: Env, warnings: Seq<WarningView>) -> Seq<
    WarningView,
> {
    if only_vars(arms) && arms.len() > 1 {
        warnings.push(WarningView::MatchOnlyVars { def_name: env.origin })
    } else {
        warnings
    }
}

/// What becomes of a match whose arms are already rewritten: it warns where
/// all arms are variables, then the match is lifted into a definition where
/// its patterns discriminate a tuple or an algebraic type, stays where they
/// do not, and stops the rewrite where they do not agree.
pub open spec fn lifted(matched: TermView, arms: Seq<(PatternView, TermView)>, env: Env, p: Progress) -> (
    TermView,
    Progress,
) {
    let kept = TermView::Mat { matched: Box::new(matched), arms };
    let warnings = warned(arms, env, p.warnings);
    match inferred_type(arm_patterns(arms), env.ctrs) {
        Err(m) => (kept, Progress { warnings, error: Some(m), ..p }),
        Ok(t) => if is_extracted(t) {
            let n = p.count + 1;
            (
                call_site(synthesized_name(env.origin, n), matched),
                Progress { defs: p.defs.push(synthesized_def(arms, env.origin, env.builtin, n)), count: n, warnings, ..p },
            )
        } else {
            (kept, Progress { warnings, ..p })
        },
    }
}

/// The rewritten term and what the rewrite produced, children before
/// parents and left before right. After a mismatch nothing more happens.
pub open spec fn extracted(t: TermView, env: Env, p: Progress) -> (TermView, Progress)
    decreases t, 0nat,
{
    if p.error is Some {
        (t, p)
    } else {
        match t {
            TermView::Lam { nam, bod } => {
                let (b, p1) = extracted(*bod, env, p);
                (TermView::Lam { nam, bod: Box::new(b) }, p1)
            },
            TermView::Chn { nam, bod } => {
                let (b, p1) = extracted(*bod, env, p);
                (TermView::Chn { nam, bod: Box::new(b) }, p1)
            },
            TermView::Let { pat, val, nxt } => {
                let (a, p1) = extracted(*val, env, p);
                let (b, p2) = extracted(*nxt, env, p1);
                (TermView::Let { pat, val: Box::new(a), nxt: Box::new(b) }, p2)
            },
            TermView::App { fun, arg } => {
                let (a, p1) = extracted(*fun, env, p);
                let (b, p2) = extracted(*arg, env, p1);
                (TermView::App { fun: Box::new(a), arg: Box::new(b) }, p2)
            },
            TermView::Tup { fst, snd } => {
                let (a, p1) = extracted(*fst, env, p);
                let (b, p2) = extracted(*snd, env, p1);
                (TermView::Tup { fst: Box::new(a), snd: Box::new(b) }, p2)
            },
            TermView::Dup { fst, snd, val, nxt } => {
                let (a, p1) = extracted(*val, env, p);
                let (b, p2) = extracted(*nxt, env, p1);
                (TermView::Dup { fst, snd, val: Box::new(a), nxt: Box::new(b) }, p2)
            },
            TermView::Sup { fst, snd } => {
                let (a, p1) = extracted(*fst, env, p);
                let (b, p2) = extracted(*snd, env, p1);
                (TermView::Sup { fst: Box::new(a), snd: Box::new(b) }, p2)
            },
            TermView::Opx { op, fst, snd } => {
                let (a, p1) = extracted(*fst, env, p);
                let (b, p2) = extracted(*snd, env, p1);
                (TermView::Opx { op, fst: Box::new(a), snd: Box::new(b) }, p2)
            },
            TermView::Mat { matched, arms } => {
                let (done, p1) = extracted_arms(arms, env, p, arms.len());
                if p1.error is Some {
                    (TermView::Mat { matched, arms: done }, p1)
                } else {
                    lifted(*matched, done, env, p1)
                }
            },
            _ => (t, p),
        }
    }
}

/// The arms after the bodies of the first `n` of them were rewritten, in
/// order, and what that produced.
pub open spec fn extracted_arms(arms: Seq<(PatternView, TermView)>, env: Env, p: Progress, n: nat) -> (
    Seq<(PatternView, TermView)>,
    Progress,
)
    decreases arms, n,
{
    if n == 0 || n > arms.len() {
        (arms, p)
    } else {
        let (done, p1) = extracted_arms(arms, env, p, (n - 1) as nat);
        let (b, p2) = extracted(arms[n - 1].1, env, p1);
        (done.update(n - 1, (arms[n - 1].0, b)), p2)
    }
}

/// The arms that the rewrite has not reached yet are as they were.
pub proof fn lemma_arms_untouched(arms: Seq<(PatternView, TermView)>, env: Env, p: Progress, n: nat)
    requires
        n <= arms.len(),
    ensures
        extracted_arms(arms, env, p, n).0.len() == arms.len(),
        forall|k: int| n <= k < arms.len() ==> #[trigger] extracted_arms(arms, env, p, n).0[k] == arms[k],
    decreases n,
{
    if n > 0 {
        lemma_arms_untouched(arms, env, p, (n - 1) as nat);
    }
}

/// Once a mismatch has stopped the rewrite, further arms change nothing.
pub proof fn lemma_arms_stopped(arms: Seq<(PatternView, TermView)>, env: Env, p: Progress, n: nat, m: nat)
    requires
        n <= m <= arms.len(),
        extracted_arms(arms, env, p, n).1.error is Some,
    ensures
        extracted_arms(arms, env, p, m) == extracted_arms(arms, env, p, n),
    decreases m,
{
    if n < m {
        lemma_arms_stopped(arms, env, p, n, (m - 1) as nat);
        lemma_arms_untouched(arms, env, p, n);
        let r = extracted_arms(arms, env, p, (m - 1) as nat);
        assert(extracted(arms[m - 1].1, env, r.1) == (arms[m - 1].1, r.1));
        assert(extracted_arms(arms, env, p, m).0 =~= r.0);
    }
}

/// Builds the name of the `n`-th definition created for `origin`.
pub fn synthesize_name(origin: &Name, n: u128) -> (r: Name)
    ensures
        r@ == synthesized_name(origin@, n as nat),
{
    let mut s = origin.clone();
    s.append("$match$");
    s.append(decimal_text(n).as_str());
    s
}

/// Turns a match into a new definition with every arm as a rule, records it
/// in `new_defs`, and returns the call of that definition on the variable
/// that the match looked at.
pub fn match_to_def(
    matched_var: Name,
    arms: Vec<(Pattern, Term)>,
    def_name: &Name,
    builtin: bool,
    new_defs: &mut Vec<Definition>,
    match_count: u128,
) -> (r: Term)
    ensures
        r@ == call_site(synthesized_name(def_name@, match_count as nat), TermView::Var { nam: matched_var@ }),
        definitions_view(final(new_defs)@) == definitions_view(old(new_defs)@).push(
            synthesized_def(arms_view(arms@), def_name@, builtin, match_count as nat),
        ),
        final(new_defs)@.len() == old(new_defs)@.len() + 1,
{
    let ghost before = arms@;
    let ghost wanted = arms_view(before).map_values(|a: (PatternView, TermView)| arm_rule(a));
    let mut arms = arms;
    let n: usize = arms.len();
    let mut rules: Vec<Rule> = Vec::new();
    let mut i: usize = 0;
    while i < n
        invariant
            i <= n,
            n == arms@.len(),
            n == before.len(),
            rules@.len() == i,
            forall|j: int| i <= j < n ==> arms@[j] == before[j],
            forall|j: int| 0 <= j < i ==> (#[trigger] rules@[j])@ == arm_rule(arms_view(before)[j]),
        decreases n - i,
    {
        let mut arm = (Pattern::Num(0), Term::Era);
        core::mem::swap(&mut arms[i], &mut arm);
        let (pat, body) = arm;
        let mut pats: Vec<Pattern> = Vec::new();
        pats.push(pat);
        let rule = Rule { pats, body };
        assert(rule@.pats =~= seq![pat@]);
        rules.push(rule);
        i += 1;
    }
    let new_name = synthesize_name(def_name, match_count);
    let def = Definition { name: new_name.clone(), rules, builtin, source: Source::Generated };
    proof {
        assert(def@.rules =~= wanted);
    }
    new_defs.push(def);
    proof {
        assert(definitions_view(new_defs@) =~= definitions_view(old(new_defs)@).push(def@));
    }
    Term::arg_call(Term::Ref { nam: new_name }, matched_var)
}

/// The progress that stands for the state of a running rewrite.
pub open spec fn progress_of(new_defs: Seq<Definition>, match_count: u128, warnings: Seq<Warning>) -> Progress {
    Progress {
        defs: definitions_view(new_defs),
        count: match_count as nat,
        warnings: warnings_view(warnings),
        error: None,
    }
}

/// Whether every arm binds a plain variable.
pub fn all_var_arms(arms: &Vec<(Pattern, Term)>) -> (r: bool)
    ensures
        r == only_vars(arms_view(arms@)),
{
    let n: usize = arms.len();
    let mut i: usize = 0;
    while i < n
        invariant
            i <= n,
            n == arms@.len(),
            forall|j: int| 0 <= j < i ==> (#[trigger] arms_view(arms@)[j]).0 is Var,
        decreases n - i,
    {
        match &arms[i].0 {
            Pattern::Var(_) => {},
            _ => {
                assert(!(arms_view(arms@)[i as int].0 is Var));
                return false;
            },
        }
        i += 1;
    }
    true
}

/// Rewrites two sibling terms, the left one first.
fn extract_both(
    fst: &mut Term,
    snd: &mut Term,
    def_name: &Name,
    builtin: bool,
    ctrs: &IndexMap<Name, Name>,
    new_defs: &mut Vec<Definition>,
    match_count: &mut u128,
    warnings: &mut Vec<Warning>,
    Ghost(parent): Ghost<Term>,
) -> (r: Result<(), MatchError>)
    requires
        decreases_to!(parent => *old(fst)),
        decreases_to!(parent => *old(snd)),
        well_formed(old(fst)@, ctr_owners(*ctrs)),
        well_formed(old(snd)@, ctr_owners(*ctrs)),
        *old(match_count) <= old(new_defs)@.len() + usize::MAX,
    ensures
        ({
            let env = Env { origin: def_name@, builtin, ctrs: ctr_owners(*ctrs) };
            let start = progress_of(old(new_defs)@, *old(match_count), old(warnings)@);
            let (a, p1) = extracted(old(fst)@, env, start);
            let (b, end) = extracted(old(snd)@, env, p1);
            &&& warnings_view(final(warnings)@) == end.warnings
            &&& definitions_view(final(new_defs)@) == end.defs
            &&& *final(match_count) == end.count
            &&& *final(match_count) <= final(new_defs)@.len() + usize::MAX
            &&& final(fst)@ == a
            &&& final(snd)@ == b
            &&& match end.error {
                None => r is Ok && p1.error is None,
                Some(m) => r is Err && r->Err_0 is Infer && r->Err_0->Infer_0@ == mismatch_message(m),
            }
        }),
    decreases parent, 0nat,
{
    match fst.extract_adt_matches(def_name, builtin, ctrs, new_defs, match_count, warnings) {
        Err(e) => {
            return Err(e);
        },
        Ok(()) => {},
    }
    snd.extract_adt_matches(def_name, builtin, ctrs, new_defs, match_count, warnings)
}

/// Rewrites the body of every arm, in order.
fn extract_arms(
    arms: &mut Vec<(Pattern, Term)>,
    def_name: &Name,
    builtin: bool,
    ctrs: &IndexMap<Name, Name>,
    new_defs: &mut Vec<Definition>,
    match_count: &mut u128,
    warnings: &mut Vec<Warning>,
    Ghost(parent): Ghost<Term>,
) -> (r: Result<(), MatchError>)
    requires
        decreases_to!(parent => *old(arms)),
        forall|j: int|
            0 <= j < old(arms)@.len() ==> well_formed(
                (#[trigger] arms_view(old(arms)@)[j]).1,
                ctr_owners(*ctrs),
            ),
        *old(match_count) <= old(new_defs)@.len() + usize::MAX,
    ensures
        ({
            let env = Env { origin: def_name@, builtin, ctrs: ctr_owners(*ctrs) };
            let start = progress_of(old(new_defs)@, *old(match_count), old(warnings)@);
            let before = arms_view(old(arms)@);
            let (done, end) = extracted_arms(before, env, start, before.len());
            &&& warnings_view(final(warnings)@) == end.warnings
            &&& definitions_view(final(new_defs)@) == end.defs
            &&& *final(match_count) == end.count
            &&& *final(match_count) <= final(new_defs)@.len() + usize::MAX
            &&& arms_view(final(arms)@) == done
            &&& done.len() == before.len()
            &&& forall|j: int| 0 <= j < done.len() ==> (#[trigger] done[j]).0 == before[j].0
            &&& match end.error {
                None => r is Ok,
                Some(m) => r is Err && r->Err_0 is Infer && r->Err_0->Infer_0@ == mismatch_message(m),
            }
        }),
    decreases parent, 0nat,
{
    let ghost env = Env { origin: def_name@, builtin, ctrs: ctr_owners(*ctrs) };
    let ghost start = progress_of(new_defs@, *match_count, warnings@);
    let ghost whole = *arms;
    let ghost before = arms_view(arms@);
    let n: usize = arms.len();
    let mut i: usize = 0;
    while i < n
        invariant
            i <= n,
            n == arms@.len(),
            n == whole@.len(),
            before == arms_view(whole@),
            before == arms_view(old(arms)@),
            start == progress_of(old(new_defs)@, *old(match_count), old(warnings)@),
            decreases_to!(parent => whole),
            env == (Env { origin: def_name@, builtin, ctrs: ctr_owners(*ctrs) }),
            forall|j: int| i <= j < n ==> arms@[j] == whole@[j],
            forall|j: int| 0 <= j < n ==> (#[trigger] arms@[j]).0 == whole@[j].0,
            forall|j: int| 0 <= j < n ==> well_formed((#[trigger] before[j]).1, env.ctrs),
            *match_count <= new_defs@.len() + usize::MAX,
            extracted_arms(before, env, start, i as nat) == (
                arms_view(arms@),
                progress_of(new_defs@, *match_count, warnings@),
            ),
        decreases n - i,
    {
        assert(decreases_to!(whole => whole[i as int]));
        let ghost p1 = progress_of(new_defs@, *match_count, warnings@);
        let ghost done = arms_view(arms@);
        assert(before[i as int].1 == term_view(arms@[i as int].1));
        match arms[i].1.extract_adt_matches(def_name, builtin, ctrs, new_defs, match_count, warnings) {
            Err(e) => {
                proof {
                    assert(extracted_arms(before, env, start, i as nat).1 == p1);
                    assert(extracted_arms(before, env, start, (i + 1) as nat).1 == extracted(
                        before[i as int].1,
                        env,
                        p1,
                    ).1);
                    lemma_arms_stopped(before, env, start, (i + 1) as nat, n as nat);
                }
                return Err(e);
            },
            Ok(()) => {},
        }
        proof {
            let b = extracted(before[i as int].1, env, p1).0;
            assert(arms_view(arms@) =~= done.update(i as int, (before[i as int].0, b)));
        }
        i += 1;
    }
    Ok(())
}

/// Decides what becomes of a match whose arms are rewritten: warns where all
/// of several arms bind variables, and says whether the match is to be
/// lifted into a definition.
fn settle_match(
    arms: &Vec<(Pattern, Term)>,
    def_name: &Name,
    ctrs: &IndexMap<Name, Name>,
    warnings: &mut Vec<Warning>,
) -> (r: Result<bool, MatchError>)
    requires
        forall|i: int|
            0 <= i < arms@.len() ==> is_registered((#[trigger] arms_view(arms@)[i]).0, ctr_owners(*ctrs)),
    ensures
        ({
            let env = Env { origin: def_name@, builtin: false, ctrs: ctr_owners(*ctrs) };
            &&& warnings_view(final(warnings)@) == warned(arms_view(arms@), env, warnings_view(old(warnings)@))
            &&& match inferred_type(arm_patterns(arms_view(arms@)), ctr_owners(*ctrs)) {
                Ok(t) => r == Ok::<bool, MatchError>(is_extracted(t)),
                Err(m) => r is Err && r->Err_0 is Infer && r->Err_0->Infer_0@ == mismatch_message(m),
            }
        }),
{
    if arms.len() > 1 && all_var_arms(arms) {
        warnings.push(Warning::MatchOnlyVars { def_name: def_name.clone() });
    }
    proof {
        let env = Env { origin: def_name@, builtin: false, ctrs: ctr_owners(*ctrs) };
        assert(warnings_view(warnings@) =~= warned(arms_view(arms@), env, warnings_view(old(warnings)@)));
        assert forall|j: int| 0 <= j < arms@.len() implies is_registered(
            #[trigger] arms@[j].0@,
            ctr_owners(*ctrs),
        ) by {
            assert(arms_view(arms@)[j].0 == arms@[j].0@);
        }
    }
    match infer_match_type(arms, ctrs) {
        Err(e) => Err(e),
        Ok(ty) => Ok(
            match ty {
                Type::Tuple => true,
                Type::Named(_) => true,
                _ => false,
            },
        ),
    }
}

/// Replaces a match on a variable by the call of a new definition made of
/// its arms.
fn lift_match(
    term: &mut Term,
    def_name: &Name,
    builtin: bool,
    new_defs: &mut Vec<Definition>,
    match_count: &mut u128,
)
    requires
        old(term)@ is Mat,
        *old(term)@->Mat_matched is Var,
        *old(match_count) <= old(new_defs)@.len() + usize::MAX,
    ensures
        *final(match_count) == *old(match_count) + 1,
        *final(match_count) <= final(new_defs)@.len() + usize::MAX,
        final(term)@ == call_site(
            synthesized_name(def_name@, *final(match_count) as nat),
            *old(term)@->Mat_matched,
        ),
        definitions_view(final(new_defs)@) == definitions_view(old(new_defs)@).push(
            synthesized_def(old(term)@->Mat_arms, def_name@, builtin, *final(match_count) as nat),
        ),
{
    proof {
        reveal_with_fuel(term_view, 2);
    }
    // The number of recorded definitions fits a machine word, and so the next
    // sequence number is far from the end of its type.
    let recorded: usize = new_defs.len();
    assert(*match_count + 1 <= recorded + usize::MAX + 1);
    let mut taken = Term::Era;
    core::mem::swap(term, &mut taken);
    match taken {
        Term::Mat { matched, arms } => {
            match *matched {
                Term::Var { nam } => {
                    *match_count = *match_count + 1;
                    *term = match_to_def(nam, arms, def_name, builtin, new_defs, *match_count);
                },
                _ => {},
            }
        },
        _ => {},
    }
}

impl Term {
    /// Rewrites the term in place, children before parents: every match on a
    /// variable whose patterns discriminate a tuple or an algebraic type
    /// becomes a call of a new definition, which is added to `new_defs` under
    /// the next sequence number of `def_name`. A match with several arms that
    /// all bind variables gets a warning. The first match whose patterns do
    /// not agree stops the rewrite with an `Infer` error; the definitions and
    /// warnings recorded by then stay, and the term is left as far as the
    /// rewrite had got.
    ///
    /// The sequence number has to leave room for the definitions to come: it
    /// may exceed the number of definitions recorded by a machine word at
    /// most, which every number up to `usize::MAX` does.
    pub fn extract_adt_matches(
        &mut self,
        def_name: &Name,
        builtin: bool,
        ctrs: &IndexMap<Name, Name>,
        new_defs: &mut Vec<Definition>,
        match_count: &mut u128,
        warnings: &mut Vec<Warning>,
    ) -> (r: Result<(), MatchError>)
        requires
            well_formed(old(self)@, ctr_owners(*ctrs)),
            *old(match_count) <= old(new_defs)@.len() + usize::MAX,
        ensures
            ({
                let env = Env { origin: def_name@, builtin, ctrs: ctr_owners(*ctrs) };
                let start = progress_of(old(new_defs)@, *old(match_count), old(warnings)@);
                let (term, end) = extracted(old(self)@, env, start);
                &&& warnings_view(final(warnings)@) == end.warnings
                &&& definitions_view(final(new_defs)@) == end.defs
                &&& *final(match_count) == end.count
                &&& *final(match_count) <= final(new_defs)@.len() + usize::MAX
                &&& final(self)@ == term
                &&& match end.error {
                    None => r is Ok,
                    Some(m) => r is Err && r->Err_0 is Infer && r->Err_0->Infer_0@ == mismatch_message(m),
                }
            }),
        decreases *old(self), 1nat,
    {
        let ghost parent = *self;
        let mut lift = false;
        match self {
            Term::Lam { bod, .. } => {
                return bod.extract_adt_matches(def_name, builtin, ctrs, new_defs, match_count, warnings);
            },
            Term::Chn { bod, .. } => {
                return bod.extract_adt_matches(def_name, builtin, ctrs, new_defs, match_count, warnings);
            },
            Term::Let { val, nxt, .. } => {
                return extract_both(val, nxt, def_name, builtin, ctrs, new_defs, match_count, warnings, Ghost(parent));
            },
            Term::App { fun, arg, .. } => {
                return extract_both(fun, arg, def_name, builtin, ctrs, new_defs, match_count, warnings, Ghost(parent));
            },
            Term::Tup { fst, snd, .. } => {
                return extract_both(fst, snd, def_name, builtin, ctrs, new_defs, match_count, warnings, Ghost(parent));
            },
            Term::Dup { val, nxt, .. } => {
                return extract_both(val, nxt, def_name, builtin, ctrs, new_defs, match_count, warnings, Ghost(parent));
            },
            Term::Sup { fst, snd, .. } => {
                return extract_both(fst, snd, def_name, builtin, ctrs, new_defs, match_count, warnings, Ghost(parent));
            },
            Term::Opx { fst, snd, .. } => {
                return extract_both(fst, snd, def_name, builtin, ctrs, new_defs, match_count, warnings, Ghost(parent));
            },
            Term::Mat { matched, arms } => {
                match extract_arms(arms, def_name, builtin, ctrs, new_defs, match_count, warnings, Ghost(parent)) {
                    Err(e) => {
                        return Err(e);
                    },
                    Ok(()) => {},
                }
                proof {
                    assert forall|i: int| 0 <= i < arms@.len() implies is_registered(
                        (#[trigger] arms_view(arms@)[i]).0,
                        ctr_owners(*ctrs),
                    ) by {
                        assert(is_registered(parent@->Mat_arms[i].0, ctr_owners(*ctrs)));
                    }
                }
                match settle_match(arms, def_name, ctrs, warnings) {
                    Err(e) => {
                        return Err(e);
                    },
                    Ok(b) => {
                        lift = b;
                    },
                }
            },
            _ => {},
        }
        if lift {
            lift_match(self, def_name, builtin, new_defs, match_count);
        }
        Ok(())
    }
}

/// Whether the pattern can be classified by the table.
pub fn pattern_is_registered(pat: &Pattern, ctrs: &IndexMap<Name, Name>) -> (r: bool)
    ensures
        r == is_registered(pat@, ctr_owners(*ctrs)),
{
    match pat {
        Pattern::Ctr(name, _) => ctr_owner(ctrs, name).is_some(),
        _ => true,
    }
}

/// Whether the rewrite accepts the arms of a match.
fn arms_are_well_formed(arms: &Vec<(Pattern, Term)>, ctrs: &IndexMap<Name, Name>, Ghost(parent): Ghost<Term>) -> (r:
    bool)
    requires
        decreases_to!(parent => *arms),
    ensures
        r == forall|i: int|
            0 <= i < arms@.len() ==> is_registered((#[trigger] arms_view(arms@)[i]).0, ctr_owners(*ctrs))
                && well_formed(arms_view(arms@)[i].1, ctr_owners(*ctrs)),
    decreases parent, 0nat,
{
    let n: usize = arms.len();
    let mut i: usize = 0;
    while i < n
        invariant
            i <= n,
            n == arms@.len(),
            decreases_to!(parent => *arms),
            forall|j: int|
                0 <= j < i ==> is_registered((#[trigger] arms_view(arms@)[j]).0, ctr_owners(*ctrs))
                    && well_formed(arms_view(arms@)[j].1, ctr_owners(*ctrs)),
        decreases n - i,
    {
        assert(decreases_to!(*arms => arms[i as int]));
        if !pattern_is_registered(&arms[i].0, ctrs) || !arms[i].1.is_well_formed(ctrs) {
            assert(!(is_registered(arms_view(arms@)[i as int].0, ctr_owners(*ctrs)) && well_formed(
                arms_view(arms@)[i as int].1,
                ctr_owners(*ctrs),
            )));
            return false;
        }
        i += 1;
    }
    true
}

impl Term {
    /// Whether the rewrite accepts the term.
    pub fn is_well_formed(&self, ctrs: &IndexMap<Name, Name>) -> (r: bool)
        ensures
            r == well_formed(self@, ctr_owners(*ctrs)),
        decreases self, 1nat,
    {
        match self {
            Term::Lam { bod, .. } => bod.is_well_formed(ctrs),
            Term::Chn { bod, .. } => bod.is_well_formed(ctrs),
            Term::Let { pat, val, nxt } => {
                let is_var = match pat {
                    Pattern::Var(_) => true,
                    _ => false,
                };
                is_var && val.is_well_formed(ctrs) && nxt.is_well_formed(ctrs)
            },
            Term::App { fun, arg, .. } => fun.is_well_formed(ctrs) && arg.is_well_formed(ctrs),
            Term::Tup { fst, snd, .. } => fst.is_well_formed(ctrs) && snd.is_well_formed(ctrs),
            Term::Dup { val, nxt, .. } => val.is_well_formed(ctrs) && nxt.is_well_formed(ctrs),
            Term::Sup { fst, snd, .. } => fst.is_well_formed(ctrs) && snd.is_well_formed(ctrs),
            Term::Opx { fst, snd, .. } => fst.is_well_formed(ctrs) && snd.is_well_formed(ctrs),
            Term::Mat { matched, arms } => {
                let on_var = match &**matched {
                    Term::Var { .. } => true,
                    _ => false,
                };
                let arms_ok = arms_are_well_formed(arms, ctrs, Ghost(*self));
                proof {
                    let av = arms_view(arms@);
                    let owners = ctr_owners(*ctrs);
                    assert(on_var == (term_view(**matched) is Var));
                    assert(self@->Mat_arms == av);
                    if arms_ok {
                        assert forall|i: int| 0 <= i < av.len() implies is_registered(
                            (#[trigger] av[i]).0,
                            owners,
                        ) && well_formed(av[i].1, owners) by {}
                    } else {
                        let i = choose|i: int|
                            0 <= i < av.len() && !(is_registered((#[trigger] av[i]).0, owners) && well_formed(
                                av[i].1,
                                owners,
                            ));
                        assert(!(is_registered(av[i].0, owners) && well_formed(av[i].1, owners)));
                        assert(!well_formed(self@, owners));
                    }
                }
                on_var && arms_ok
            },
            Term::Lst { .. } => false,
            Term::Invalid => false,
            _ => true,
        }
    }
}

/// Whether every arm's pattern can be classified by the table.
pub fn arms_are_registered(arms: &Vec<(Pattern, Term)>, ctrs: &IndexMap<Name, Name>) -> (r: bool)
    ensures
        r == forall|i: int| 0 <= i < arms@.len() ==> is_registered(#[trigger] arms@[i].0@, ctr_owners(*ctrs)),
{
    let n: usize = arms.len();
    let mut i: usize = 0;
    while i < n
        invariant
            i <= n,
            n == arms@.len(),
            forall|j: int| 0 <= j < i ==> is_registered(#[trigger] arms@[j].0@, ctr_owners(*ctrs)),
        decreases n - i,
    {
        if !pattern_is_registered(&arms[i].0, ctrs) {
            return false;
        }
        i += 1;
    }
    true
}

/// Classifies the pattern where the table allows it: `None` for a
/// constructor that the table does not have.
pub fn classify(pat: &Pattern, ctrs: &IndexMap<Name, Name>) -> (r: Option<Type>)
    ensures
        is_registered(pat@, ctr_owners(*ctrs)) ==> r is Some && r->Some_0@ == classified(pat@, ctr_owners(*ctrs)),
        !is_registered(pat@, ctr_owners(*ctrs)) ==> r is None,
{
    if pattern_is_registered(pat, ctrs) {
        Some(pat.to_type(ctrs))
    } else {
        None
    }
}

/// Infers the shape that the arms discriminate where the table allows it:
/// `None` where a pattern has a constructor that the table does not have.
pub fn try_infer_match_type(arms: &Vec<(Pattern, Term)>, ctrs: &IndexMap<Name, Name>) -> (r: Option<
    Result<Type, MatchError>,
>)
    ensures
        r is Some <==> forall|i: int|
            0 <= i < arms@.len() ==> is_registered(#[trigger] arms@[i].0@, ctr_owners(*ctrs)),
        r is Some ==> match inferred_type(arm_patterns(arms_view(arms@)), ctr_owners(*ctrs)) {
            Ok(t) => r->Some_0 is Ok && r->Some_0->Ok_0@ == t,
            Err(m) => r->Some_0 is Err && r->Some_0->Err_0 is Infer && r->Some_0->Err_0->Infer_0@
                == mismatch_message(m),
        },
{
    if arms_are_registered(arms, ctrs) {
        Some(infer_match_type(arms, ctrs))
    } else {
        None
    }
}

impl Term {
    /// Rewrites the term as `extract_adt_matches` does where that accepts the
    /// term and the sequence number; else gives `None` and changes nothing.
    pub fn try_extract_adt_matches(
        &mut self,
        def_name: &Name,
        builtin: bool,
        ctrs: &IndexMap<Name, Name>,
        new_defs: &mut Vec<Definition>,
        match_count: &mut u128,
        warnings: &mut Vec<Warning>,
    ) -> (r: Option<Result<(), MatchError>>)
        ensures
            r is Some <==> well_formed(old(self)@, ctr_owners(*ctrs)) && *old(match_count) <= old(new_defs)@.len()
                + usize::MAX,
            r is None ==> *final(self) == *old(self) && *final(new_defs) == *old(new_defs) && *final(match_count)
                == *old(match_count) && *final(warnings) == *old(warnings),
            r is Some ==> ({
                let env = Env { origin: def_name@, builtin, ctrs: ctr_owners(*ctrs) };
                let start = progress_of(old(new_defs)@, *old(match_count), old(warnings)@);
                let (term, end) = extracted(old(self)@, env, start);
                &&& warnings_view(final(warnings)@) == end.warnings
                &&& definitions_view(final(new_defs)@) == end.defs
                &&& *final(match_count) == end.count
                &&& final(self)@ == term
                &&& match end.error {
                    None => r->Some_0 is Ok,
                    Some(m) => r->Some_0 is Err && r->Some_0->Err_0 is Infer && r->Some_0->Err_0->Infer_0@
                        == mismatch_message(m),
                }
            }),
    {
        let len: usize = new_defs.len();
        let fits = if *match_count <= usize::MAX as u128 {
            true
        } else {
            *match_count - usize::MAX as u128 <= len as u128
        };
        if fits && self.is_well_formed(ctrs) {
            Some(self.extract_adt_matches(def_name, builtin, ctrs, new_defs, match_count, warnings))
        } else {
            None
        }
    }
}

} // verus!