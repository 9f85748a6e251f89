use vstd::prelude::*;
use crate::book::{Function, FunctionView};
use crate::text::is_blank_char;

verus! {

/// How a function's body is to be run.
#[derive(Clone, Debug, PartialEq, Eq)]
pub enum ExecutionFlavor {
    /// A bare command sequence for the default shell.
    ShellScript,
    /// A script for the named interpreter.
    InterpretedScript { interpreter: String },
}

/// Why a function's body cannot be given a flavor.
#[derive(Clone, Debug, PartialEq, Eq)]
pub enum ResolveError {
    /// The block names an interpreter that is not supported.
    UnsupportedFlavor(String),
    /// The block names no interpreter and holds no command.
    AmbiguousFlavor,
}

pub enum FlavorView {
    ShellScript,
    InterpretedScript(Seq<char>),
}

pub enum ResolveErrorView {
    UnsupportedFlavor(Seq<char>),
    AmbiguousFlavor,
}

impl View for ExecutionFlavor {
    type V = FlavorView;

    open spec fn view(&self) -> FlavorView {
        match self {
            ExecutionFlavor::ShellScript => FlavorView::ShellScript,
            ExecutionFlavor::InterpretedScript { interpreter } => FlavorView::InterpretedScript(
                interpreter@,
            ),
        }
    }
}

impl View for ResolveError {
    type V = ResolveErrorView;

    open spec fn view(&self) -> ResolveErrorView {
        match self {
            ResolveError::UnsupportedFlavor(t) => ResolveErrorView::UnsupportedFlavor(t@),
            ResolveError::AmbiguousFlavor => ResolveErrorView::AmbiguousFlavor,
        }
    }
}

pub open spec fn result_view(r: Result<ExecutionFlavor, ResolveError>) -> Result<
    FlavorView,
    ResolveErrorView,
> {
    match r {
        Ok(f) => Ok(f@),
        Err(e) => Err(e@),
    }
}

/// The interpreters that a block may name.
pub open spec fn known_interpreter(t: Seq<char>) -> bool {
    ||| t == "python"@
    ||| t == "python3"@
    ||| t == "node"@
    ||| t == "ruby"@
    ||| t == "perl"@
    ||| t == "bash"@
    ||| t == "sh"@
}

/// The body holds at least one character that is not white space.
pub open spec fn has_command(s: Seq<char>) -> bool {
    exists|i: int| 0 <= i < s.len() && !is_blank_char(#[trigger] s[i])
}

/// The flavor of a function, first rule that applies: a named interpreter
/// (which must be known), then a non-blank body for the shell, else ambiguity.
pub open spec fn resolve(f: FunctionView) -> Result<FlavorView, ResolveErrorView> {
    match f.interpreter {
        Some(t) => if known_interpreter(t) {
            Ok(FlavorView::InterpretedScript(t))
        } else {
            Err(ResolveErrorView::UnsupportedFlavor(t))
        },
        None => if has_command(f.script) {
            Ok(FlavorView::ShellScript)
        } else {
            Err(ResolveErrorView::AmbiguousFlavor)
        },
    }
}

fn is_known_interpreter(t: &String) -> (r: bool)
    ensures
        r == known_interpreter(t@),
{
    let names = ["python", "python3", "node", "ruby", "perl", "bash", "sh"];
    let mut i: usize = 0;
    while i < 7
        invariant
            i <= 7,
            names@ == seq!["python", "python3", "node", "ruby", "perl", "bash", "sh"],
            forall|j: int| 0 <= j < i ==> t@ != (#[trigger] names@[j])@,
        decreases 7 - i,
    {
        let candidate = names[i].to_owned();
        if *t == candidate {
            return true;
        }
        i = i + 1;
    }
    proof {
        assert(t@ != names@[0]@);
        assert(t@ != names@[1]@);
        assert(t@ != names@[2]@);
        assert(t@ != names@[3]@);
        assert(t@ != names@[4]@);
        assert(t@ != names@[5]@);
        assert(t@ != names@[6]@);
    }
    false
}

fn script_has_command(s: &String) -> (r: bool)
    ensures
        r == has_command(s@),
{
    let cs = crate::text::chars_of(s.as_str());
    let mut i: usize = 0;
    while i < cs.len()
        invariant
            i <= cs.len(),
            cs@ == s@,
            forall|j: int| 0 <= j < i ==> is_blank_char(#[trigger] cs@[j]),
        decreases cs.len() - i,
    {
        if !crate::text::blank_char(cs[i]) {
            return true;
        }
        i = i + 1;
    }
    false
}

impl ExecutionFlavor {
    /// Classifies a function by its body; the same function always gets the same answer.
    pub fn for_function(f: &Function) -> (r: Result<ExecutionFlavor, ResolveError>)
        ensures
            result_view(r) == resolve(f@),
    {
        match &f.interpreter {
            Some(t) => {
                if is_known_interpreter(t) {
                    Ok(ExecutionFlavor::InterpretedScript { interpreter: t.clone() })
                } else {
                    Err(ResolveError::UnsupportedFlavor(t.clone()))
                }
            },
            None => {
                if script_has_command(&f.script) {
                    Ok(ExecutionFlavor::ShellScript)
                } else {
                    Err(ResolveError::AmbiguousFlavor)
                }
            },
        }
    }
}


/// Resolving an unchanged function twice gives the same flavor, or the same error.
pub proof fn lemma_resolve_repeatable(f1: FunctionView, f2: FunctionView)
    requires
        f1 == f2,
    ensures
        resolve(f1) == resolve(f2),
{
}


/// Every function gets a flavor or one of the two resolution errors: an
/// unsupported interpreter is the one the block names, and ambiguity comes only
/// from a block that names no interpreter and holds no command.
pub proof fn lemma_resolve_total(f: FunctionView)
    ensures
        match resolve(f) {
            Ok(_) => true,
            Err(ResolveErrorView::UnsupportedFlavor(t)) => f.interpreter == Some(t)
                && !known_interpreter(t),
            Err(ResolveErrorView::AmbiguousFlavor) => f.interpreter is None && !has_command(
                f.script,
            ),
        },
{
}

} // verus!
