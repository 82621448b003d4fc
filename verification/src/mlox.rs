//! The top-level handle an embedding program drives: it owns the
//! command-line arguments, the persistent root environment reused across
//! interactive units, and the scanning-fault collector.

use vstd::prelude::*;
use crate::environ::{Environment, root_env};
use crate::error::{ParseIssue, ScanError, ScannerError};
use crate::eval::{RunState, StepOut, StepResult, exec_stmts, sp_exec_stmts};
use crate::parser::{Parser, issues_view, sp_program};
use crate::scanner::{Scanner, scan_spec, toks_view};

verus! {

/// Copies a list of scanning faults.
fn copy_scan_errors(v: &Vec<ScanError>) -> (r: Vec<ScanError>)
    ensures
        r@ == v@,
{
    let mut r: Vec<ScanError> = Vec::new();
    let mut i: usize = 0;
    while i < v.len()
        invariant
            i <= v@.len(),
            r@ == v@.subrange(0, i as int),
        decreases v@.len() - i,
    {
        r.push(v[i]);
        proof {
            assert(v@.subrange(0, i as int).push(v@[i as int]) =~= v@.subrange(0, i + 1));
        }
        i = i + 1;
    }
    proof {
        assert(v@.subrange(0, v@.len() as int) =~= v@);
    }
    r
}

/// What one source unit came to: ran to completion, was rejected before
/// evaluation (any scanning or parse fault blocks evaluation), stopped at
/// a runtime fault (output written so far stands), or exhausted the step
/// budget.
#[derive(Debug)]
pub enum UnitResult {
    Finished,
    ScanOrParseFailed(Vec<ScanError>, Vec<ParseIssue>),
    RuntimeFailed(crate::error::RuntimeError),
    Spent,
}

/// How the interpreter should run, decided from the argument count: no
/// argument starts an interactive prompt, one names a script file, and
/// anything more is a usage error.
#[derive(Clone, Copy, Debug, PartialEq, Eq, Structural)]
pub enum RunMode {
    Prompt,
    File,
    Usage,
}

/// The interpreter handle.
pub struct Mlox {
    /// The process arguments, program name first.
    pub args: Vec<String>,
    /// The persistent root environment: variables defined by one
    /// interactive unit stay visible to the next.
    pub env: Environment,
    /// Scanning faults of the current unit.
    pub error_handler: ScannerError,
}

impl Mlox {
    /// A fresh interpreter over the given arguments.
    pub fn new(args: Vec<String>) -> (m: Mlox)
        ensures
            m.args@ == args@,
            m.env@ == root_env(),
            !m.error_handler.had_err,
            m.error_handler.errors@ == Seq::<crate::error::ScanError>::empty(),
    {
        Mlox { args, env: Environment::new(), error_handler: ScannerError::new() }
    }

    /// Runs one source unit against the persistent environment: scans,
    /// parses, and — only when the unit has no scanning or parse fault at
    /// all — evaluates, appending print output to `out`.  A rejected unit
    /// writes nothing and leaves the environment untouched; a runtime
    /// fault keeps the effects up to it.
    #[verifier::spinoff_prover]
    #[verifier::rlimit(100)]
    pub fn run_unit(&mut self, source: Vec<u8>, out: &mut Vec<u8>, fuel: u64) -> (r: UnitResult)
        requires
            old(self).env@.len() >= 1,
            source@.len() < usize::MAX,
        ensures
            final(self).args == old(self).args,
            final(self).env@.len() == old(self).env@.len(),
            final(self).error_handler.errors@ == scan_spec(source@).1,
            final(self).error_handler.had_err == (scan_spec(source@).1.len() > 0),
            ({
                let serrs = scan_spec(source@).1;
                let prog = sp_program(scan_spec(source@).0, 0);
                if serrs.len() > 0 || prog.issues.len() > 0 {
                    &&& match r {
                        UnitResult::ScanOrParseFailed(se, pe) => se@ == serrs && issues_view(pe@)
                            == prog.issues,
                        _ => false,
                    }
                    &&& final(self).env@ == old(self).env@
                    &&& final(out)@ == old(out)@
                } else {
                    match sp_exec_stmts(
                        prog.stmts,
                        RunState { env: old(self).env@, out: old(out)@ },
                        fuel as nat,
                    ) {
                        StepOut::Done(st2) => r is Finished && final(self).env@ == st2.env
                            && final(out)@ == st2.out,
                        StepOut::Fault(st2, er) => (match r {
                            UnitResult::RuntimeFailed(e) => e@ == er,
                            _ => false,
                        }) && final(self).env@ == st2.env && final(out)@ == st2.out,
                        StepOut::Spent => r is Spent,
                    }
                }
            }),
    {
        let mut scanner = Scanner::new(source);
        scanner.scan_tokens();
        let scan_errs = copy_scan_errors(&scanner.error.errors);
        let had_scan = scanner.error.had_err;
        self.error_handler = scanner.error;
        let ghost tv = toks_view(scanner.tokens@);
        let mut parser = Parser::new(scanner.tokens);
        let stmts = parser.parse();
        proof {
            assert(parser.toks() == tv);
        }
        if had_scan || parser.error.had_err {
            return UnitResult::ScanOrParseFailed(scan_errs, parser.error.issues);
        }
        match exec_stmts(&stmts, &mut self.env, out, fuel) {
            StepResult::Done => UnitResult::Finished,
            StepResult::Fault(er) => UnitResult::RuntimeFailed(er),
            StepResult::Spent => UnitResult::Spent,
        }
    }

    /// What the argument count asks for: the first argument is the program
    /// name, one more names a script, none means a prompt.
    pub fn mode(&self) -> (m: RunMode)
        ensures
            m == (if self.args@.len() <= 1 {
                RunMode::Prompt
            } else if self.args@.len() == 2 {
                RunMode::File
            } else {
                RunMode::Usage
            }),
    {
        if self.args.len() <= 1 {
            RunMode::Prompt
        } else if self.args.len() == 2 {
            RunMode::File
        } else {
            RunMode::Usage
        }
    }
}

} // verus!
