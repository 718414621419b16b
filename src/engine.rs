//! The script language runtime as the rest of the library sees it: its types,
//! and one trusted item for each of its functions that the library calls.
use vstd::prelude::*;

use std::sync::Arc;

use rune::diagnostics::{Diagnostic, EmitError};
use rune::runtime::{RuntimeContext, VmError};
use rune::{BuildError, Context, ContextError, Diagnostics, Module, Source, Sources, Unit, Value, Vm};

verus! {

#[verifier::external_type_specification]
#[verifier::external_body]
pub struct ExContext(Context);

#[verifier::external_type_specification]
#[verifier::external_body]
pub struct ExRuntimeContext(RuntimeContext);

#[verifier::external_type_specification]
#[verifier::external_body]
#[verifier::reject_recursive_types(S)]
pub struct ExUnit<S>(rune::runtime::Unit<S>);

#[verifier::external_type_specification]
#[verifier::external_body]
pub struct ExArrayUnit(rune::runtime::unit::ArrayUnit);

#[verifier::external_type_specification]
#[verifier::external_body]
pub struct ExVm(Vm);

#[verifier::external_type_specification]
#[verifier::external_body]
pub struct ExDiagnostics(Diagnostics);

#[verifier::external_type_specification]
#[verifier::external_body]
pub struct ExSources(Sources);

#[verifier::external_type_specification]
#[verifier::external_body]
pub struct ExSource(Source);

#[verifier::external_type_specification]
#[verifier::external_body]
pub struct ExHash(rune::Hash);

#[verifier::external_type_specification]
#[verifier::external_body]
pub struct ExValue(Value);

#[verifier::external_type_specification]
#[verifier::external_body]
pub struct ExModule(Module);

#[verifier::external_type_specification]
#[verifier::external_body]
pub struct ExContextError(ContextError);

#[verifier::external_type_specification]
#[verifier::external_body]
pub struct ExAllocError(rune::alloc::Error);

#[verifier::external_type_specification]
#[verifier::external_body]
pub struct ExBuildError(BuildError);

#[verifier::external_type_specification]
#[verifier::external_body]
pub struct ExEmitError(EmitError);

#[verifier::external_type_specification]
#[verifier::external_body]
pub struct ExVmError(VmError);

/// For each diagnostic that a collection holds, in order: whether it is an
/// error (a fatal diagnostic) rather than a warning.
pub uninterp spec fn fatal_flags(d: Diagnostics) -> Seq<bool>;

/// The hash under which a function named by the single path segment
/// `name` is found.
pub uninterp spec fn entry_hash(name: Seq<char>) -> rune::Hash;

/// How many sources a source set holds.
pub uninterp spec fn source_count(s: Sources) -> nat;

/// Relies on `rune::Context::with_default_modules`: a compile context with
/// the language's own modules installed, or the error that installing them
/// raised.
pub assume_specification[ Context::with_default_modules ]() -> Result<Context, ContextError>;

/// Relies on `rune::Context::runtime`: the runtime part of a compile
/// context, or an allocation error.
pub assume_specification[ Context::runtime ](c: &Context) -> Result<RuntimeContext, rune::alloc::Error>;

/// Relies on `rune::Sources::new`: a source set that holds nothing.
pub assume_specification[ Sources::new ]() -> (r: Sources)
    ensures
        source_count(r) == 0,
;

/// Relies on `rune::Diagnostics::new`: a collection that holds no
/// diagnostic.
pub assume_specification[ Diagnostics::new ]() -> (r: Diagnostics)
    ensures
        fatal_flags(r) == Seq::<bool>::empty(),
;

/// Relies on `rune::Context::install`: adds a module's items to the context,
/// or reports why they clash with what is there.
#[verifier::external_body]
pub(crate) fn install_module(context: &mut Context, module: Module) -> Result<(), ContextError> {
    context.install(module)
}

/// Relies on `rune::Source::memory`: a nameless source holding `text`, or an
/// allocation error.
#[verifier::external_body]
pub(crate) fn source_from_text(text: &str) -> Result<Source, rune::alloc::Error> {
    Source::memory(text)
}

/// Relies on `rune::Sources::insert`, which adds one source. It panics when
/// the set already holds more sources than a `u32` counts.
#[verifier::external_body]
pub(crate) fn insert_source(sources: &mut Sources, source: Source) -> (r: Result<(), rune::alloc::Error>)
    requires
        source_count(*old(sources)) <= u32::MAX,
    ensures
        r is Ok ==> source_count(*final(sources)) == source_count(*old(sources)) + 1,
{
    sources.insert(source).map(|_| ())
}

/// Relies on `rune::prepare(..).with_context(..).with_diagnostics(..).build()`:
/// compiles the sources against the context and adds what it finds to
/// `diagnostics`. It returns a unit only when no fatal diagnostic was
/// recorded.
#[verifier::external_body]
pub(crate) fn build_unit(
    sources: &mut Sources,
    context: &Context,
    diagnostics: &mut Diagnostics,
) -> (r: Result<Unit, BuildError>)
    ensures
        r is Ok ==> !fatal_flags(*final(diagnostics)).contains(true),
{
    rune::prepare(sources).with_context(context).with_diagnostics(diagnostics).build()
}

/// Relies on `rune::Diagnostics::diagnostics`: how many diagnostics the
/// collection holds.
#[verifier::external_body]
pub(crate) fn diagnostic_count(d: &Diagnostics) -> (r: usize)
    ensures
        r == fatal_flags(*d).len(),
{
    d.diagnostics().len()
}

/// Relies on `rune::Diagnostics::diagnostics`: whether the diagnostic at
/// `index` is fatal.
#[verifier::external_body]
pub(crate) fn diagnostic_is_fatal(d: &Diagnostics, index: usize) -> (r: bool)
    requires
        index < fatal_flags(*d).len(),
    ensures
        r == fatal_flags(*d)[index as int],
{
    matches!(d.diagnostics()[index], Diagnostic::Fatal(_))
}

/// Relies on `rune::Diagnostics::emit`, written into a buffer without
/// colour: the diagnostics as text, or the error raised while writing them.
#[verifier::external_body]
pub(crate) fn render_diagnostics(d: &Diagnostics, sources: &Sources) -> Result<String, EmitError> {
    let mut writer = rune::termcolor::Buffer::no_color();
    d.emit(&mut writer, sources)?;
    Ok(String::from_utf8_lossy(writer.as_slice()).into_owned())
}

/// Relies on `rune::Hash::type_hash`: the hash under which a function that
/// is named by a single path segment is found.
#[verifier::external_body]
pub(crate) fn function_hash(name: &str) -> (r: rune::Hash)
    ensures
        r == entry_hash(name@),
{
    rune::Hash::type_hash([name])
}

/// Relies on `rune::Vm::new`: a virtual machine over a runtime and a unit.
#[verifier::external_body]
pub(crate) fn new_vm(runtime: Arc<RuntimeContext>, unit: Arc<Unit>) -> Vm {
    Vm::new(runtime, unit)
}

/// Relies on `rune::Vm::execute` and `VmExecution::complete`: runs the
/// function with the given hash to its end, and hands back what it returned
/// or the fault that stopped it.
#[verifier::external_body]
pub(crate) fn run_to_completion(vm: &mut Vm, hash: rune::Hash, args: Vec<Value>) -> Result<Value, VmError> {
    vm.execute(hash, args)?.complete().into_result()
}

} // verus!
