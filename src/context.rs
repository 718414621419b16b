//! The execution context: the capability surface, the shared runtime, and at
//! most one active script, which is replaced whole or not at all.
use std::sync::Arc;

use vstd::prelude::*;

use rune::diagnostics::EmitError;
use rune::runtime::{RuntimeContext, VmError};
use rune::{BuildError, Context, ContextError, Diagnostics, Module, Sources, Unit, Value, Vm};

use crate::engine::{
    build_unit, diagnostic_count, diagnostic_is_fatal, entry_hash, fatal_flags, function_hash,
    insert_source,
    install_module, new_vm, render_diagnostics, run_to_completion, source_from_text,
};

verus! {

/// How grave a compiler message is.
#[derive(Debug, Clone, Copy, PartialEq, Eq, Structural)]
pub enum Severity {
    Error,
    Warning,
}

/// What the compiler said about one source: the grade of each message, in
/// order, and the messages rendered as text.
#[derive(Debug)]
pub struct DiagnosticReport {
    pub severities: Vec<Severity>,
    pub text: String,
}

/// At least one message is an error.
pub open spec fn has_error(severities: Seq<Severity>) -> bool {
    exists|i: int| 0 <= i < severities.len() && severities[i] == Severity::Error
}

/// The grades of a collection of diagnostics.
pub open spec fn severities_of(flags: Seq<bool>) -> Seq<Severity> {
    flags.map_values(|f: bool| if f { Severity::Error } else { Severity::Warning })
}

/// Whether a report holds an error: the one test that decides whether a
/// compilation fails on its diagnostics.
pub fn report_has_error(severities: &Vec<Severity>) -> (r: bool)
    ensures
        r == has_error(severities@),
{
    let mut i: usize = 0;
    while i < severities.len()
        invariant
            i <= severities@.len(),
            forall|j: int| 0 <= j < i ==> severities@[j] != Severity::Error,
        decreases severities@.len() - i,
    {
        if severities[i] == Severity::Error {
            return true;
        }
        i = i + 1;
    }
    false
}

/// Why a context could not be built or a script could not be compiled.
#[derive(Debug)]
pub enum RuneheartError {
    /// The script was empty; the compiler was not called.
    EmptyScript,
    RuneContextError(ContextError),
    RuneAllocError(rune::alloc::Error),
    RuneBuildError(BuildError),
    RuneEmitError(EmitError),
    /// The compiler reported at least one error.
    RuneDiagnosticError(DiagnosticReport),
    /// A script file could not be read.
    RunePathError(String),
}

/// Why a tick did not run to its end.
#[derive(Debug)]
pub enum RuneheartExecutionError {
    /// There is no active script to run.
    NoActiveScript,
    RuneVmError(VmError),
}

/// What one compilation comes to, given what the compiler built and what it
/// reported: a unit exactly when no message is an error and a unit was
/// built.
pub fn conclude_build(built: Result<Unit, BuildError>, report: DiagnosticReport) -> (r: Result<
    Unit,
    RuneheartError,
>)
    ensures
        has_error(report.severities@) ==> r == Err::<Unit, RuneheartError>(
            RuneheartError::RuneDiagnosticError(report),
        ),
        !has_error(report.severities@) ==> r == match built {
            Ok(u) => Ok::<Unit, RuneheartError>(u),
            Err(e) => Err(RuneheartError::RuneBuildError(e)),
        },
{
    if report_has_error(&report.severities) {
        return Err(RuneheartError::RuneDiagnosticError(report));
    }
    match built {
        Ok(u) => Ok(u),
        Err(e) => Err(RuneheartError::RuneBuildError(e)),
    }
}

fn collect_severities(d: &Diagnostics) -> (r: Vec<Severity>)
    ensures
        r@ == severities_of(fatal_flags(*d)),
{
    let n = diagnostic_count(d);
    let mut out: Vec<Severity> = Vec::new();
    let mut i: usize = 0;
    while i < n
        invariant
            n == fatal_flags(*d).len(),
            i <= n,
            out@ == severities_of(fatal_flags(*d).take(i as int)),
        decreases n - i,
    {
        let s = if diagnostic_is_fatal(d, i) {
            Severity::Error
        } else {
            Severity::Warning
        };
        out.push(s);
        i = i + 1;
        assert(out@ =~= severities_of(fatal_flags(*d).take(i as int)));
    }
    assert(fatal_flags(*d).take(n as int) =~= fatal_flags(*d));
    out
}

/// What a call of `set_active_script` with `script` may come to: on failure
/// the context is exactly as before; on success `script` is the active
/// script, not yet ticked, while the capability surface, the runtime and the
/// tick entry point stay as they were; the call is refused as empty exactly
/// when the script is empty; a failure on diagnostics carries a report that
/// holds an error.
pub open spec fn replacement_outcome(
    before: RuneheartContext,
    script: Seq<char>,
    r: Result<(), RuneheartError>,
    after: RuneheartContext,
) -> bool {
    &&& r is Err ==> after == before
    &&& r is Ok ==> {
        &&& after.active_source() == Some(script)
        &&& after.ticks_run() == Seq::<(rune::Hash, Seq<Value>)>::empty()
        &&& after.surface() == before.surface()
        &&& after.tick_entry() == before.tick_entry()
    }
    &&& (script.len() == 0 <==> (r matches Err(RuneheartError::EmptyScript)))
    &&& (r matches Err(RuneheartError::RuneDiagnosticError(report)) ==> has_error(
        report.severities@,
    ))
}

/// What a call of `callback_tick` with `args` may come to: the active
/// script, the surface and the tick entry point stay the same; with an
/// active script its machine runs the tick entry point once, with `args`;
/// the call fails for want of a script exactly when there is none.
pub open spec fn tick_outcome(
    before: RuneheartContext,
    args: Seq<Value>,
    r: Result<Value, RuneheartExecutionError>,
    after: RuneheartContext,
) -> bool {
    &&& after.active_source() == before.active_source()
    &&& after.surface() == before.surface()
    &&& after.tick_entry() == before.tick_entry()
    &&& before.active_source() is Some ==> after.ticks_run() == before.ticks_run().push(
        (before.tick_entry(), args),
    )
    &&& (before.active_source() is None <==> (r matches Err(
        RuneheartExecutionError::NoActiveScript,
    )))
}

/// A replacement that fails leaves the script that was active in place, and
/// the tick that follows runs that script.
pub proof fn lemma_failed_replacement_then_tick(
    c0: RuneheartContext,
    script: Seq<char>,
    r: Result<(), RuneheartError>,
    c1: RuneheartContext,
    args: Seq<Value>,
    t: Result<Value, RuneheartExecutionError>,
    c2: RuneheartContext,
)
    requires
        replacement_outcome(c0, script, r, c1),
        r is Err,
        tick_outcome(c1, args, t, c2),
    ensures
        c1 == c0,
        c2.active_source() == c0.active_source(),
        c0.active_source() is Some ==> c2.ticks_run() == c0.ticks_run().push(
            (c0.tick_entry(), args),
        ),
        c0.active_source() is Some ==> !(t matches Err(RuneheartExecutionError::NoActiveScript)),
{
}

/// Of two replacements in a row where the first succeeds and the second
/// fails, the first script is the active one afterwards, and the next tick
/// runs its tick entry point, the one fixed when the context was made.
pub proof fn lemma_second_failure_keeps_first(
    c0: RuneheartContext,
    first: Seq<char>,
    r1: Result<(), RuneheartError>,
    c1: RuneheartContext,
    second: Seq<char>,
    r2: Result<(), RuneheartError>,
    c2: RuneheartContext,
)
    requires
        replacement_outcome(c0, first, r1, c1),
        r1 is Ok,
        replacement_outcome(c1, second, r2, c2),
        r2 is Err,
    ensures
        c2.active_source() == Some(first),
        c2.tick_entry() == c0.tick_entry(),
        forall|args: Seq<Value>, t: Result<Value, RuneheartExecutionError>, c3: RuneheartContext|
            #[trigger] tick_outcome(c2, args, t, c3) ==> c3.ticks_run() == seq![
                (c0.tick_entry(), args),
            ] && !(t matches Err(RuneheartExecutionError::NoActiveScript)),
{
    assert forall|args: Seq<Value>, t: Result<Value, RuneheartExecutionError>, c3: RuneheartContext|
        #[trigger] tick_outcome(c2, args, t, c3) implies c3.ticks_run() == seq![
            (c0.tick_entry(), args),
        ] && !(t matches Err(RuneheartExecutionError::NoActiveScript)) by {
        assert(Seq::<(rune::Hash, Seq<Value>)>::empty().push((c0.tick_entry(), args)) =~= seq![
            (c0.tick_entry(), args),
        ]);
    }
}

/// A compiled unit together with the machine that runs it.
pub struct ActiveScript {
    unit: Arc<Unit>,
    vm: Vm,
    source: Ghost<Seq<char>>,
    runs: Ghost<Seq<(rune::Hash, Seq<Value>)>>,
}

/// One long-lived execution context.
pub struct RuneheartContext {
    tick_hash: rune::Hash,
    context: Context,
    runtime: Arc<RuntimeContext>,
    active_script: Option<ActiveScript>,
}

impl RuneheartContext {
    /// The text of the active script, if there is one.
    pub closed spec fn active_source(&self) -> Option<Seq<char>> {
        match self.active_script {
            Some(s) => Some(s.source@),
            None => None,
        }
    }

    /// The entry points that the active script's machine was run with, and
    /// the arguments of each run, oldest first.
    pub closed spec fn ticks_run(&self) -> Seq<(rune::Hash, Seq<Value>)> {
        match self.active_script {
            Some(s) => s.runs@,
            None => Seq::empty(),
        }
    }

    /// The capability surface and the runtime derived from it.
    pub closed spec fn surface(&self) -> (Context, Arc<RuntimeContext>) {
        (self.context, self.runtime)
    }

    /// The hash of the tick entry point, fixed when the context is made.
    pub closed spec fn tick_entry(&self) -> rune::Hash {
        self.tick_hash
    }

    /// A context whose capability surface is the language's own modules and
    /// `module`, with no active script and `tick` as its tick entry point.
    /// It fails only when installing a module or building the runtime does.
    pub fn new(module: Module) -> (r: Result<Self, RuneheartError>)
        ensures
            r matches Ok(c) ==> c.active_source() is None && c.tick_entry() == entry_hash("tick"@),
            r matches Err(e) ==> (e matches RuneheartError::RuneContextError(_)) || (e matches RuneheartError::RuneAllocError(_)),
    {
        let mut context = match Context::with_default_modules() {
            Ok(c) => c,
            Err(e) => {
                return Err(RuneheartError::RuneContextError(e));
            },
        };
        match install_module(&mut context, module) {
            Ok(()) => {},
            Err(e) => {
                return Err(RuneheartError::RuneContextError(e));
            },
        }
        let runtime = match context.runtime() {
            Ok(rt) => Arc::new(rt),
            Err(e) => {
                return Err(RuneheartError::RuneAllocError(e));
            },
        };
        Ok(RuneheartContext {
            tick_hash: function_hash("tick"),
            context,
            runtime,
            active_script: None,
        })
    }

    /// Compiles `script` against the capability surface. An empty script is
    /// refused before the compiler is reached; a script on which the
    /// compiler reports an error gives that report and no unit.
    pub fn compile_unit(&self, script: &str) -> (r: Result<Unit, RuneheartError>)
        ensures
            script@.len() == 0 <==> r matches Err(RuneheartError::EmptyScript),
            r matches Err(RuneheartError::RuneDiagnosticError(report)) ==> has_error(
                report.severities@,
            ),
    {
        if script.is_empty() {
            return Err(RuneheartError::EmptyScript);
        }
        let source = match source_from_text(script) {
            Ok(s) => s,
            Err(e) => {
                return Err(RuneheartError::RuneAllocError(e));
            },
        };
        let mut sources = Sources::new();
        match insert_source(&mut sources, source) {
            Ok(()) => {},
            Err(e) => {
                return Err(RuneheartError::RuneAllocError(e));
            },
        }
        let mut diagnostics = Diagnostics::new();
        let built = build_unit(&mut sources, &self.context, &mut diagnostics);
        let severities = collect_severities(&diagnostics);
        let text = if report_has_error(&severities) {
            match render_diagnostics(&diagnostics, &sources) {
                Ok(t) => t,
                Err(e) => {
                    return Err(RuneheartError::RuneEmitError(e));
                },
            }
        } else {
            String::new()
        };
        conclude_build(built, DiagnosticReport { severities, text })
    }

    /// Compiles `script` and, only if that succeeds, makes it the active
    /// script. On any failure the context is left exactly as it was.
    pub fn set_active_script(&mut self, script: &str) -> (r: Result<(), RuneheartError>)
        ensures
            replacement_outcome(*old(self), script@, r, *final(self)),
    {
        let unit = match self.compile_unit(script) {
            Ok(u) => Arc::new(u),
            Err(e) => {
                return Err(e);
            },
        };
        let vm = new_vm(self.runtime.clone(), unit.clone());
        self.active_script = Some(
            ActiveScript { unit, vm, source: Ghost(script@), runs: Ghost(Seq::empty()) },
        );
        Ok(())
    }

    /// Runs the tick entry point of the active script with `args` and hands
    /// back what it returned. Without an active script this is reported as
    /// an error. A tick never replaces or drops the active script.
    pub fn callback_tick(&mut self, args: Vec<Value>) -> (r: Result<Value, RuneheartExecutionError>)
        ensures
            tick_outcome(*old(self), args@, r, *final(self)),
    {
        let hash = self.tick_hash;
        let ghost given = args@;
        match &mut self.active_script {
            None => Err(RuneheartExecutionError::NoActiveScript),
            Some(script) => {
                proof {
                    script.runs = Ghost(script.runs@.push((hash, given)));
                }
                match run_to_completion(&mut script.vm, hash, args) {
                    Ok(v) => Ok(v),
                    Err(e) => Err(RuneheartExecutionError::RuneVmError(e)),
                }
            },
        }
    }
}

} // verus!
