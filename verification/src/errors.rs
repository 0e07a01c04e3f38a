use crate::lattice::MatchError;
use crate::term::Name;
use vstd::prelude::*;
use vstd::string::StringExecFns;

verus! {

/// The text `s` with every occurrence of `from` replaced by `to`, found from
/// the left, an occurrence beginning only after the one before it has ended.
pub open spec fn replaced(s: Seq<char>, from: Seq<char>, to: Seq<char>) -> Seq<char>
    decreases s.len(),
{
    if from.len() == 0 || s.len() < from.len() {
        s
    } else if s.subrange(0, from.len() as int) == from {
        to + replaced(s.skip(from.len() as int), from, to)
    } else {
        seq![s[0]] + replaced(s.skip(1), from, to)
    }
}

/// The first `n` names, with `sep` between each two.
pub open spec fn joined(names: Seq<Name>, sep: Seq<char>, n: nat) -> Seq<char>
    decreases n,
{
    if n == 0 || n > names.len() {
        Seq::empty()
    } else if n == 1 {
        names[0]@
    } else {
        joined(names, sep, (n - 1) as nat) + sep + names[n - 1]@
    }
}

/// What the error says to the user.
pub open spec fn error_message(e: MatchError) -> Seq<char>
    decreases e,
{
    match e {
        MatchError::Empty => "Empty match block found"@,
        MatchError::Infer(text) => text@,
        MatchError::Repeated(bind) => "Repeated var name in a match block: "@ + bind@,
        MatchError::Missing(names) => "Missing "@ + (if names@.len() > 1 {
            "constructors"@
        } else {
            "a constructor"@
        }) + " in a match block: "@ + joined(names@, ", "@, names@.len()),
        MatchError::LetPat(inner) => replaced(error_message(*inner), "match block"@, "let bind"@) + (if *inner is Missing {
            "\nConsider using a match block instead"@
        } else {
            Seq::empty()
        }),
        MatchError::Linearize(var) => "Unable to linearize variable "@ + var@ + " in a match block."@,
    }
}

/// `str::replace`: a new string in which every match of `from` in `s` is
/// replaced by `to`. `from` is not empty.
#[verifier::external_body]
fn replace_text(s: &str, from: &str, to: &str) -> (r: String)
    requires
        from@.len() > 0,
    ensures
        r@ == replaced(s@, from@, to@),
{
    s.replace(from, to)
}

/// Joins the names with `sep` between each two.
pub fn join_names(names: &Vec<Name>, sep: &str) -> (r: String)
    ensures
        r@ == joined(names@, sep@, names@.len()),
{
    let n: usize = names.len();
    let mut out = String::new();
    let mut i: usize = 0;
    while i < n
        invariant
            i <= n,
            n == names@.len(),
            out@ == joined(names@, sep@, i as nat),
        decreases n - i,
    {
        if i > 0 {
            out.append(sep);
        }
        out.append(names[i].as_str());
        proof {
            assert(out@ =~= joined(names@, sep@, (i + 1) as nat));
        }
        i += 1;
    }
    out
}

impl MatchError {
    /// The message of the error.
    pub fn to_string(&self) -> (r: String)
        ensures
            r@ == error_message(*self),
        decreases self,
    {
        match self {
            MatchError::Empty => String::from_str("Empty match block found"),
            MatchError::Infer(text) => text.clone(),
            MatchError::Repeated(bind) => {
                let mut s = String::from_str("Repeated var name in a match block: ");
                s.append(bind.as_str());
                s
            },
            MatchError::Missing(names) => {
                let mut s = String::from_str("Missing ");
                if names.len() > 1 {
                    s.append("constructors");
                } else {
                    s.append("a constructor");
                }
                s.append(" in a match block: ");
                s.append(join_names(names, ", ").as_str());
                s
            },
            MatchError::LetPat(inner) => {
                proof {
                    reveal_strlit("match block");
                }
                let text = inner.to_string();
                let mut s = replace_text(text.as_str(), "match block", "let bind");
                match **inner {
                    MatchError::Missing(_) => {
                        s.append("\nConsider using a match block instead");
                    },
                    _ => {
                        assert(s@ + Seq::<char>::empty() =~= s@);
                    },
                }
                s
            },
            MatchError::Linearize(var) => {
                let mut s = String::from_str("Unable to linearize variable ");
                s.append(var.as_str());
                s.append(" in a match block.");
                s
            },
        }
    }
}

} // verus!
