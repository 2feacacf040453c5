//! Extensions that are JavaScript source: what may be compiled, how an attempt
//! proceeds, and what a program sees of its server.

use rquickjs::{CatchResultExt, Context, Module, Runtime, WriteOptions};
use vstd::prelude::*;
use vstd::string::StringSliceAdditionalSpecFns;
use vstd::utf8::valid_utf8;

use crate::extension::exit::{AttemptFailure, AttemptOutcome, FailureKind};
use crate::extension::protocol::ObjectHash;
use crate::text::{concat, concat3, from_utf8, hex, push_digit, texts, utf8_fault};

verus! {

/// The name under which source is compiled.
pub const SOURCE_NAME: &'static str = "extension.js";

/// The most random bytes that a program gets at once.
pub const RANDOM_MAX_BYTES: usize = 16_777_216;

/// The limits of a program's host.
pub struct WasmiHostConfig {
    pub memory_bytes: usize,
    pub table_elements: usize,
    pub value_stack_bytes: usize,
    pub call_depth: usize,
    pub native_stack_bytes: usize,
    pub fuel_slice: u64,
    /// Why these limits cannot be used, where the host said so.
    pub fault: Option<String>,
}

impl Default for WasmiHostConfig {
    fn default() -> (c: WasmiHostConfig)
        ensures
            c.memory_bytes == 134_217_728,
            c.table_elements == 65_536,
            c.value_stack_bytes == 131_072,
            c.call_depth == 1_024,
            c.native_stack_bytes == 2_097_152,
            c.fuel_slice == 1_000_000,
            c.fault is None,
    {
        WasmiHostConfig {
            memory_bytes: 134_217_728,
            table_elements: 65_536,
            value_stack_bytes: 131_072,
            call_depth: 1_024,
            native_stack_bytes: 2_097_152,
            fuel_slice: 1_000_000,
            fault: None,
        }
    }
}

/// The most that the engine takes for a bound on its stack.
pub const ENGINE_STACK_MAX: usize = 16_777_216;

/// Whether the engine keeps its stack within `bytes`. It takes nothing, and more
/// than its most, for no bound at all.
pub open spec fn stack_bounded(bytes: usize) -> bool {
    0 < bytes <= ENGINE_STACK_MAX
}

impl WasmiHostConfig {
    /// Whether the engine's stack has a bound, and the thread that it runs on has
    /// more stack than that.
    pub open spec fn stack_fits(self) -> bool {
        stack_bounded(self.value_stack_bytes) && self.value_stack_bytes < self.native_stack_bytes
    }

    /// Limits under which the engine could use up the stack of its thread are not to
    /// be used.
    pub open spec fn wf(self) -> bool {
        self.fault is None ==> self.stack_fits()
    }

    /// The limits as they are, and where the engine could use up the stack of its
    /// thread under them, that they cannot be used.
    pub fn checked(self) -> (c: WasmiHostConfig)
        ensures
            c.wf(),
            c == (WasmiHostConfig { fault: c.fault, ..self }),
            self.wf() ==> c == self,
            !self.wf() ==> (c.fault matches Some(t) && t@
                == (if stack_bounded(self.value_stack_bytes) {
                "value stack must be smaller than the native stack"@
            } else {
                "value stack must be between 1 byte and 16 MiB"@
            })),
    {
        let mut c = self;
        if c.fault.is_none() {
            if c.value_stack_bytes == 0 || c.value_stack_bytes > ENGINE_STACK_MAX {
                c.fault = Some("value stack must be between 1 byte and 16 MiB".to_owned());
            } else if c.value_stack_bytes >= c.native_stack_bytes {
                c.fault = Some("value stack must be smaller than the native stack".to_owned());
            }
        }
        c
    }
}

/// An attempt to run source.
pub struct AttemptSpec {
    pub source: Vec<u8>,
    pub module_hash: ObjectHash,
    pub extension_id: u64,
    pub label: Option<String>,
    pub config: WasmiHostConfig,
}

/// Why an attempt was not spawned.
pub enum SpawnError {
    InvalidConfig(String),
    InvalidExtensionId,
    Thread(String),
}

/// What a [`SpawnError`] says.
pub open spec fn spawn_error_text(e: SpawnError) -> Seq<char> {
    match e {
        SpawnError::InvalidConfig(t) => "invalid QuickJS host configuration: "@ + t@,
        SpawnError::InvalidExtensionId => "extension ID must be non-zero"@,
        SpawnError::Thread(t) => "failed to spawn extension thread: "@ + t@,
    }
}

impl SpawnError {
    /// The text of the error.
    pub fn text(&self) -> (r: String)
        ensures
            r@ == spawn_error_text(*self),
    {
        match self {
            SpawnError::InvalidConfig(t) => concat(
                "invalid QuickJS host configuration: ",
                t.as_str(),
            ),
            SpawnError::InvalidExtensionId => "extension ID must be non-zero".to_owned(),
            SpawnError::Thread(t) => concat("failed to spawn extension thread: ", t.as_str()),
        }
    }
}

/// Whether an attempt may be spawned: its limits can be used, and it has an id.
pub fn check_spawn(spec: &AttemptSpec) -> (r: Result<(), SpawnError>)
    ensures
        match spec.config.fault {
            Some(t) => r matches Err(SpawnError::InvalidConfig(x)) && x@ == t@,
            None => if spec.extension_id == 0 {
                r matches Err(SpawnError::InvalidExtensionId)
            } else {
                r is Ok
            },
        },
{
    match &spec.config.fault {
        Some(t) => {
            return Err(SpawnError::InvalidConfig(t.as_str().to_owned()));
        },
        None => {},
    }
    if spec.extension_id == 0 {
        Err(SpawnError::InvalidExtensionId)
    } else {
        Ok(())
    }
}

/// `rquickjs::Runtime`, held as it is.
#[verifier::external_type_specification]
#[verifier::external_body]
pub struct ExRuntime(rquickjs::Runtime);

/// `rquickjs::Context`, held as it is.
#[verifier::external_type_specification]
#[verifier::external_body]
pub struct ExContext(rquickjs::Context);

/// `rquickjs::Runtime::new`: a runtime without limits. Whether there is one to
/// be had depends on the memory of the machine, so nothing is claimed.
#[verifier::external_body]
fn new_runtime() -> (r: Result<Runtime, String>) {
    Runtime::new().map_err(|e| e.to_string())
}

/// `rquickjs::Runtime::set_memory_limit`: bounds what the runtime allocates
/// from here on. Nothing is claimed of the runtime, which is opaque.
#[verifier::external_body]
fn limit_memory(runtime: &Runtime, bytes: usize) {
    runtime.set_memory_limit(bytes);
}

/// `rquickjs::Runtime::set_max_stack_size`: bounds the stack of the runtime
/// from here on. It takes 0 and values over 16 MiB for no bound, and source that
/// is nested deeply can then use up the stack of the thread, so those are left
/// out. Nothing is claimed of the runtime, which is opaque.
#[verifier::external_body]
fn limit_stack(runtime: &Runtime, bytes: usize)
    requires
        stack_bounded(bytes),
{
    runtime.set_max_stack_size(bytes);
}

/// `rquickjs::Context::full`: a context with every intrinsic. Whether there is
/// one to be had depends on the memory of the machine, so nothing is claimed.
#[verifier::external_body]
fn new_context(runtime: &Runtime) -> (r: Result<Context, String>) {
    Context::full(runtime).map_err(|e| e.to_string())
}

/// `rquickjs::Module::declare` and `rquickjs::Module::write`: the bytecode of
/// `source`, compiled and not evaluated, or the text of the exception that the
/// compiler threw. What comes out depends on the limits of the runtime and on
/// how the machine counts against them, so nothing is claimed.
#[verifier::external_body]
fn compile_module(context: &Context, name: &str, source: &str) -> (r: Result<Vec<u8>, String>) {
    context.with(|ctx| {
        let declared = Module::declare(ctx.clone(), name, source);
        let written = declared.and_then(|module| module.write(WriteOptions::default()));
        written.catch(&ctx).map_err(|e| e.to_string())
    })
}

/// Whether a failure is this one.
pub open spec fn failure_is(f: AttemptFailure, kind: FailureKind, detail: Seq<char>) -> bool {
    f.kind == kind && f.detail@ == detail
}

/// At which step source could not be made ready.
#[derive(Clone, Copy, Debug, PartialEq, Eq, Structural)]
pub enum PrepareStep {
    Runtime,
    Context,
    Compile,
}

/// How a failed step is told.
pub open spec fn step_failure(step: PrepareStep, text: Seq<char>) -> (FailureKind, Seq<char>) {
    match step {
        PrepareStep::Runtime => (
            FailureKind::Instantiation,
            "create QuickJS runtime: "@ + text,
        ),
        PrepareStep::Context => (
            FailureKind::Instantiation,
            "create QuickJS context: "@ + text,
        ),
        PrepareStep::Compile => (FailureKind::Validation, "compile QuickJS source: "@ + text),
    }
}

/// Tells a failed step.
pub fn prepare_failure(step: PrepareStep, text: &str) -> (f: AttemptFailure)
    ensures
        failure_is(f, step_failure(step, text@).0, step_failure(step, text@).1),
{
    match step {
        PrepareStep::Runtime => AttemptFailure {
            kind: FailureKind::Instantiation,
            detail: concat("create QuickJS runtime: ", text),
        },
        PrepareStep::Context => AttemptFailure {
            kind: FailureKind::Instantiation,
            detail: concat("create QuickJS context: ", text),
        },
        PrepareStep::Compile => AttemptFailure {
            kind: FailureKind::Validation,
            detail: concat("compile QuickJS source: ", text),
        },
    }
}

/// Whether a failure tells of this step.
pub open spec fn told(f: AttemptFailure, step: PrepareStep, text: Seq<char>) -> bool {
    failure_is(f, step_failure(step, text).0, step_failure(step, text).1)
}

/// What a step gave, or how its failure is told.
pub fn at_step<T>(step: PrepareStep, given: Result<T, String>) -> (r: Result<T, AttemptFailure>)
    ensures
        match given {
            Ok(t) => r == Ok::<T, AttemptFailure>(t),
            Err(e) => r matches Err(f) && told(f, step, e@),
        },
{
    match given {
        Ok(t) => Ok(t),
        Err(e) => Err(prepare_failure(step, e.as_str())),
    }
}

/// What the engine is set to before it compiles.
#[derive(Clone, Copy, Debug, PartialEq, Eq)]
pub struct EngineSetup {
    /// The most that it may allocate.
    pub memory_bytes: usize,
    /// The most stack that it may use.
    pub stack_bytes: usize,
    /// The name of what it compiles.
    pub name: &'static str,
}

/// What the engine is set to under the limits of a host.
pub open spec fn setup_of(config: WasmiHostConfig) -> EngineSetup {
    EngineSetup {
        memory_bytes: config.memory_bytes,
        stack_bytes: config.value_stack_bytes,
        name: SOURCE_NAME,
    }
}

/// Sets the engine up for the limits of a host.
pub fn engine_setup(config: &WasmiHostConfig) -> (s: EngineSetup)
    ensures
        s == setup_of(*config),
{
    EngineSetup {
        memory_bytes: config.memory_bytes,
        stack_bytes: config.value_stack_bytes,
        name: SOURCE_NAME,
    }
}

/// What was made of source: the runtime, the context in it and the bytecode.
pub type Made = (Runtime, Context, Vec<u8>);

/// Whether `r` is what came of asking the engine, step by step, for a runtime, for
/// these limits on it, for a context in it, and to compile `source` there under
/// this name. The first step that fails is told, as that step.
pub closed spec fn engine_gave(
    source: &str,
    setup: EngineSetup,
    r: Result<Made, AttemptFailure>,
) -> bool {
    exists|made: Result<Runtime, String>| #[trigger]
        call_ensures(new_runtime, (), made) && match made {
            Err(e) => r matches Err(f) && told(f, PrepareStep::Runtime, e@),
            Ok(runtime) => {
                &&& call_ensures(limit_memory, (&runtime, setup.memory_bytes), ())
                &&& call_ensures(limit_stack, (&runtime, setup.stack_bytes), ())
                &&& context_gave(source, setup, runtime, r)
            },
        }
}

/// As [`engine_gave`], from the context on.
spec fn context_gave(
    source: &str,
    setup: EngineSetup,
    runtime: Runtime,
    r: Result<Made, AttemptFailure>,
) -> bool {
    exists|opened: Result<Context, String>| #[trigger]
        call_ensures(new_context, (&runtime,), opened) && match opened {
            Err(e) => r matches Err(f) && told(f, PrepareStep::Context, e@),
            Ok(context) => exists|compiled: Result<Vec<u8>, String>| #[trigger]
                call_ensures(compile_module, (&context, setup.name, source), compiled)
                    && match compiled {
                    Err(e) => r matches Err(f) && told(f, PrepareStep::Compile, e@),
                    Ok(bytecode) => r == Ok::<Made, AttemptFailure>((runtime, context, bytecode)),
                },
        }
}

/// Makes source ready to run, under the limits of its host, or tells the step
/// that failed. Which sources compile is the compiler's to say.
fn prepare_runtime(source: &str, config: &WasmiHostConfig) -> (r: Result<Made, AttemptFailure>)
    requires
        config.stack_fits(),
    ensures
        engine_gave(source, setup_of(*config), r),
{
    let setup = engine_setup(config);
    let made = new_runtime();
    let runtime = match at_step(PrepareStep::Runtime, made) {
        Ok(rt) => rt,
        Err(f) => {
            return Err(f);
        },
    };
    limit_memory(&runtime, setup.memory_bytes);
    limit_stack(&runtime, setup.stack_bytes);
    let context = match at_step(PrepareStep::Context, new_context(&runtime)) {
        Ok(c) => c,
        Err(f) => {
            return Err(f);
        },
    };
    match at_step(PrepareStep::Compile, compile_module(&context, setup.name, source)) {
        Ok(bytecode) => Ok((runtime, context, bytecode)),
        Err(f) => Err(f),
    }
}

/// The text of source, which must be UTF-8.
pub fn source_text(source: &[u8]) -> (r: Result<&str, AttemptFailure>)
    ensures
        match r {
            Ok(s) => valid_utf8(source@) && s.spec_bytes() == source@,
            Err(f) => !valid_utf8(source@) && failure_is(
                f,
                FailureKind::Validation,
                "QuickJS source is not UTF-8: "@ + utf8_fault(source@),
            ),
        },
{
    match from_utf8(source) {
        Ok(s) => Ok(s),
        Err(e) => Err(
            AttemptFailure {
                kind: FailureKind::Validation,
                detail: concat("QuickJS source is not UTF-8: ", e.as_str()),
            },
        ),
    }
}

/// What came of making source ready, without what was made.
pub open spec fn outcome<T>(r: Result<T, AttemptFailure>) -> Result<(), AttemptFailure> {
    match r {
        Ok(_) => Ok(()),
        Err(f) => Err(f),
    }
}

/// Whether the text of `source` was handed to the engine, and `made` came of it.
pub open spec fn engine_made(
    source: Seq<u8>,
    config: WasmiHostConfig,
    made: Result<Made, AttemptFailure>,
) -> bool {
    exists|text: &str|
        text.spec_bytes() == source && #[trigger] engine_gave(text, setup_of(config), made)
}

/// Whether source was told for what it is: limits that cannot be used and bytes
/// that are no text are refused, and of the rest it is the engine that says.
pub open spec fn judged(
    source: Seq<u8>,
    config: WasmiHostConfig,
    made: Result<Made, AttemptFailure>,
) -> bool {
    match config.fault {
        Some(t) => made matches Err(f) && failure_is(f, FailureKind::Validation, t@),
        None => if valid_utf8(source) {
            engine_made(source, config, made)
        } else {
            made matches Err(f) && failure_is(
                f,
                FailureKind::Validation,
                "QuickJS source is not UTF-8: "@ + utf8_fault(source),
            )
        },
    }
}

/// The forms that the outcome for a text takes: it compiled, or a step failed
/// with some text and is told as that step.
pub open spec fn compiled_or_told(r: Result<(), AttemptFailure>) -> bool {
    match r {
        Ok(_) => true,
        Err(f) => exists|step: PrepareStep, text: Seq<char>| #[trigger] told(f, step, text),
    }
}

/// Makes source ready to run: a runtime with the limits of the host, a context
/// in it, and the bytecode of the source, which is not evaluated. Limits that
/// cannot be used and bytes that are no text are refused before the engine is
/// asked. The thread that calls it has `native_stack_bytes` of stack.
pub fn prepare_source(source: &[u8], config: &WasmiHostConfig) -> (r: Result<Made, AttemptFailure>)
    requires
        config.wf(),
    ensures
        judged(source@, *config, r),
        config.fault is None && valid_utf8(source@) ==> compiled_or_told(outcome(r)),
{
    match &config.fault {
        Some(t) => {
            return Err(
                AttemptFailure {
                    kind: FailureKind::Validation,
                    detail: t.as_str().to_owned(),
                },
            );
        },
        None => {},
    }
    let text = match source_text(source) {
        Ok(s) => s,
        Err(f) => {
            return Err(f);
        },
    };
    let r = prepare_runtime(text, config);
    assert(engine_gave(text, setup_of(*config), r));
    r
}

/// Whether source compiles. It is not evaluated. Limits that cannot be used and
/// bytes that are no text are refused before the compiler sees them. The thread
/// that calls it has `native_stack_bytes` of stack.
pub fn validate_source(source: &[u8], config: &WasmiHostConfig) -> (r: Result<(), AttemptFailure>)
    requires
        config.wf(),
    ensures
        exists|made: Result<Made, AttemptFailure>| #[trigger]
            judged(source@, *config, made) && outcome(made) == r,
        config.fault is None && valid_utf8(source@) ==> compiled_or_told(r),
{
    let made = prepare_source(source, config);
    assert(judged(source@, *config, made));
    match made {
        Ok(_) => Ok(()),
        Err(f) => Err(f),
    }
}

/// What the owner of an attempt has done with it.
#[derive(Clone, Copy, Debug, PartialEq, Eq, Structural)]
pub struct AttemptState {
    /// Whether its preparation was waited for.
    pub observed: bool,
    /// Whether it is prepared.
    pub prepared: bool,
    pub started: bool,
    /// Whether its end was waited for.
    pub joined: bool,
}

/// What the owner of an attempt did out of turn.
#[derive(Clone, Copy, Debug, PartialEq, Eq, Structural)]
pub enum LifecycleError {
    PreparationAlreadyObserved,
    NotPrepared,
    AlreadyStarted,
    JoinAlreadyTaken,
}

impl AttemptState {
    pub fn new() -> (s: AttemptState)
        ensures
            s == (AttemptState {
                observed: false,
                prepared: false,
                started: false,
                joined: false,
            }),
    {
        AttemptState { observed: false, prepared: false, started: false, joined: false }
    }

    /// Waits for the preparation, which can be done once.
    pub fn observe(&mut self) -> (r: Result<(), LifecycleError>)
        ensures
            old(self).observed ==> r == Err::<(), LifecycleError>(
                LifecycleError::PreparationAlreadyObserved,
            ) && *final(self) == *old(self),
            !old(self).observed ==> r is Ok && *final(self) == (AttemptState {
                observed: true,
                ..*old(self)
            }),
    {
        if self.observed {
            return Err(LifecycleError::PreparationAlreadyObserved);
        }
        self.observed = true;
        Ok(())
    }

    /// Takes note of how the preparation ended.
    pub fn note_prepared(&mut self, ok: bool)
        ensures
            *final(self) == (AttemptState {
                prepared: old(self).prepared || ok,
                ..*old(self)
            }),
    {
        if ok {
            self.prepared = true;
        }
    }

    /// Starts a prepared attempt, which can be done once.
    pub fn start(&mut self) -> (r: Result<(), LifecycleError>)
        ensures
            (r, *final(self)) == start_of(*old(self)),
    {
        if !self.prepared {
            return Err(LifecycleError::NotPrepared);
        }
        if self.started {
            return Err(LifecycleError::AlreadyStarted);
        }
        self.started = true;
        Ok(())
    }

    /// Waits for the end of an attempt, which can be done once.
    pub fn join(&mut self) -> (r: Result<(), LifecycleError>)
        ensures
            old(self).joined ==> r == Err::<(), LifecycleError>(LifecycleError::JoinAlreadyTaken)
                && *final(self) == *old(self),
            !old(self).joined ==> r is Ok && *final(self) == (AttemptState {
                joined: true,
                ..*old(self)
            }),
    {
        if self.joined {
            return Err(LifecycleError::JoinAlreadyTaken);
        }
        self.joined = true;
        Ok(())
    }

    /// Whether an attempt whose owner drops it is cancelled: unless its end was
    /// waited for.
    pub fn cancelled_on_drop(&self) -> (r: bool)
        ensures
            r == !self.joined,
    {
        !self.joined
    }
}

/// What a program's module exports and what came of calling it.
#[derive(Clone, Copy, Debug, PartialEq, Eq, Structural)]
pub enum Exported {
    /// There is no default export.
    Nothing,
    /// The default export returned nothing.
    Undefined,
    Int(i32),
    /// The default export returned something else.
    Other,
}

/// The code that a program ends with: that of its default export, or zero.
pub fn exit_code(e: Exported) -> (r: Result<i32, &'static str>)
    ensures
        match e {
            Exported::Nothing => r == Ok::<i32, &'static str>(0),
            Exported::Undefined => r == Ok::<i32, &'static str>(0),
            Exported::Int(n) => r == Ok::<i32, &'static str>(n),
            Exported::Other => r matches Err(t) && t@
                == "default export must return an i32 or undefined"@,
        },
{
    match e {
        Exported::Nothing => Ok(0),
        Exported::Undefined => Ok(0),
        Exported::Int(n) => Ok(n),
        Exported::Other => Err("default export must return an i32 or undefined"),
    }
}

/// Whether an outcome tells how a program ended: a cancelled one is told as
/// cancelled, whatever it came to.
pub open spec fn ended_as(o: AttemptOutcome, result: Result<i32, String>, cancelled: bool) -> bool {
    if cancelled {
        o is Cancelled
    } else {
        match result {
            Ok(code) => o == AttemptOutcome::Returned(code),
            Err(t) => o matches AttemptOutcome::Failed(f) && failure_is(
                f,
                FailureKind::Trap,
                "QuickJS exception: "@ + t@,
            ),
        }
    }
}

/// Tells how a program ended.
pub fn run_outcome(result: Result<i32, String>, cancelled: bool) -> (o: AttemptOutcome)
    ensures
        ended_as(o, result, cancelled),
{
    if cancelled {
        return AttemptOutcome::Cancelled;
    }
    match result {
        Ok(code) => AttemptOutcome::Returned(code),
        Err(t) => AttemptOutcome::Failed(
            AttemptFailure {
                kind: FailureKind::Trap,
                detail: concat("QuickJS exception: ", t.as_str()),
            },
        ),
    }
}

/// Tells that a program could not join the protocol.
pub fn bootstrap_failed(text: &str) -> (o: AttemptOutcome)
    ensures
        o matches AttemptOutcome::Failed(f) && failure_is(
            f,
            FailureKind::AbiMisuse,
            "QuickJS bootstrap failed: "@ + text@,
        ),
{
    AttemptOutcome::Failed(
        AttemptFailure {
            kind: FailureKind::AbiMisuse,
            detail: concat("QuickJS bootstrap failed: ", text),
        },
    )
}

/// What becomes of a program's packet queues when it ends.
#[derive(Clone, Copy, Debug, PartialEq, Eq, Structural)]
pub enum Handoff {
    /// What it sent is still delivered; it receives no more.
    Seal,
    /// Both queues are given up.
    Abort,
}

pub fn handoff_after(o: &AttemptOutcome) -> (h: Handoff)
    ensures
        h == if *o is Returned {
            Handoff::Seal
        } else {
            Handoff::Abort
        },
{
    match o {
        AttemptOutcome::Returned(_) => Handoff::Seal,
        _ => Handoff::Abort,
    }
}

/// Why a wait ended.
#[derive(Clone, Copy, Debug, PartialEq, Eq, Structural)]
pub enum WaitOutcome {
    Deadline,
    Packet,
    Closed,
}

/// The number that a program sees for why its wait ended.
pub fn wait_code(o: WaitOutcome) -> (n: i32)
    ensures
        n == match o {
            WaitOutcome::Deadline => 0i32,
            WaitOutcome::Packet => 1i32,
            WaitOutcome::Closed => 2i32,
        },
{
    match o {
        WaitOutcome::Deadline => 0,
        WaitOutcome::Packet => 1,
        WaitOutcome::Closed => 2,
    }
}

/// The message of the exception that a failed operation throws.
pub fn error_message(operation: &str, error: &str) -> (t: String)
    ensures
        t@ == "blit."@ + operation@ + ": "@ + error@,
{
    let head = concat3("blit.", operation, ": ");
    concat(head.as_str(), error)
}

/// How many random bytes a program gets, or why it gets none.
pub fn random_length(length: u32) -> (r: Result<usize, &'static str>)
    ensures
        if length > RANDOM_MAX_BYTES {
            r matches Err(t) && t@ == "random length exceeds 16 MiB"@
        } else {
            r == Ok::<usize, &'static str>(length as usize)
        },
{
    if length as u64 > RANDOM_MAX_BYTES as u64 {
        Err("random length exceeds 16 MiB")
    } else {
        Ok(length as usize)
    }
}

/// A hash as text.
pub fn hex_hash(hash: &ObjectHash) -> (t: String)
    ensures
        t@ == hex(hash@),
{
    let mut t: String = "".to_owned();
    let mut i: usize = 0;
    let ghost all = hash@;
    proof {
        reveal_strlit("");
        assert(all.take(0) =~= Seq::empty());
        assert(t@ =~= Seq::empty());
    }
    while i < 32
        invariant
            i <= 32,
            all == hash@,
            all.len() == 32,
            t@ == hex(all.take(i as int)),
        decreases 32 - i,
    {
        let b: u8 = hash[i];
        proof {
            assert(all.take(i + 1).drop_last() =~= all.take(i as int));
            assert(all.take(i + 1).last() == b);
        }
        push_digit(&mut t, b / 16);
        push_digit(&mut t, b % 16);
        i = i + 1;
    }
    proof {
        assert(all.take(32) =~= all);
    }
    t
}

/// What a program is told of itself and its server.
pub struct GuestInfo {
    pub extension_id: u64,
    pub definition_revision: u64,
    pub attempt: u64,
    pub task_id: u32,
    pub module_hash: ObjectHash,
    pub name: String,
    pub args: Vec<String>,
    pub detached: bool,
    pub persistent: bool,
    pub enabled: bool,
    pub desired_running: bool,
    pub protocol_version: u16,
    pub features: u32,
    pub boot_generation: Option<u64>,
    pub server_version: Option<String>,
}

/// A value as a program sees it.
pub enum Seen {
    /// A number of any size.
    Big(u64),
    /// A number of any size, or nothing.
    MaybeBig(Option<u64>),
    Number(u32),
    Text(String),
    MaybeText(Option<String>),
    Texts(Vec<String>),
    Flag(bool),
}

/// What a [`Seen`] says.
pub ghost enum SeenView {
    Big(u64),
    MaybeBig(Option<u64>),
    Number(u32),
    Text(Seq<char>),
    MaybeText(Option<Seq<char>>),
    Texts(Seq<Seq<char>>),
    Flag(bool),
}

pub open spec fn maybe_text(t: Option<String>) -> Option<Seq<char>> {
    match t {
        Some(s) => Some(s@),
        None => None,
    }
}

impl View for Seen {
    type V = SeenView;

    open spec fn view(&self) -> SeenView {
        match self {
            Seen::Big(n) => SeenView::Big(*n),
            Seen::MaybeBig(n) => SeenView::MaybeBig(*n),
            Seen::Number(n) => SeenView::Number(*n),
            Seen::Text(t) => SeenView::Text(t@),
            Seen::MaybeText(t) => SeenView::MaybeText(maybe_text(*t)),
            Seen::Texts(v) => SeenView::Texts(texts(v@)),
            Seen::Flag(b) => SeenView::Flag(*b),
        }
    }
}

/// One property of `blit.context`.
pub struct Field {
    pub name: &'static str,
    pub value: Seen,
}

/// The properties of `blit.context`, in the order in which they are set.
pub open spec fn context_of(i: GuestInfo) -> Seq<(Seq<char>, SeenView)> {
    seq![
        ("extensionId"@, SeenView::Big(i.extension_id)),
        ("definitionRevision"@, SeenView::Big(i.definition_revision)),
        ("attempt"@, SeenView::Big(i.attempt)),
        ("taskId"@, SeenView::Number(i.task_id)),
        ("moduleHash"@, SeenView::Text(hex(i.module_hash@))),
        ("name"@, SeenView::Text(i.name@)),
        ("args"@, SeenView::Texts(texts(i.args@))),
        ("detached"@, SeenView::Flag(i.detached)),
        ("persistent"@, SeenView::Flag(i.persistent)),
        ("enabled"@, SeenView::Flag(i.enabled)),
        ("desiredRunning"@, SeenView::Flag(i.desired_running)),
        ("protocolVersion"@, SeenView::Number(i.protocol_version as u32)),
        ("features"@, SeenView::Number(i.features)),
        ("bootGeneration"@, SeenView::MaybeBig(i.boot_generation)),
        ("serverVersion"@, SeenView::MaybeText(maybe_text(i.server_version))),
    ]
}

/// What a list of properties says.
pub open spec fn fields_view(v: Seq<Field>) -> Seq<(Seq<char>, SeenView)> {
    Seq::new(v.len(), |k: int| (v[k].name@, v[k].value@))
}

/// The properties of `blit.context`.
pub fn context_fields(info: GuestInfo) -> (v: Vec<Field>)
    ensures
        fields_view(v@) == context_of(info),
{
    let hash = hex_hash(&info.module_hash);
    let mut v: Vec<Field> = Vec::new();
    v.push(Field { name: "extensionId", value: Seen::Big(info.extension_id) });
    v.push(Field { name: "definitionRevision", value: Seen::Big(info.definition_revision) });
    v.push(Field { name: "attempt", value: Seen::Big(info.attempt) });
    v.push(Field { name: "taskId", value: Seen::Number(info.task_id) });
    v.push(Field { name: "moduleHash", value: Seen::Text(hash) });
    v.push(Field { name: "name", value: Seen::Text(info.name) });
    v.push(Field { name: "args", value: Seen::Texts(info.args) });
    v.push(Field { name: "detached", value: Seen::Flag(info.detached) });
    v.push(Field { name: "persistent", value: Seen::Flag(info.persistent) });
    v.push(Field { name: "enabled", value: Seen::Flag(info.enabled) });
    v.push(Field { name: "desiredRunning", value: Seen::Flag(info.desired_running) });
    v.push(Field { name: "protocolVersion", value: Seen::Number(info.protocol_version as u32) });
    v.push(Field { name: "features", value: Seen::Number(info.features) });
    v.push(Field { name: "bootGeneration", value: Seen::MaybeBig(info.boot_generation) });
    v.push(Field { name: "serverVersion", value: Seen::MaybeText(info.server_version) });
    proof {
        assert(fields_view(v@) =~= context_of(info));
    }
    v
}

/// The program that runs before an extension's own: its console writes to the
/// log, and its context cannot be changed.
pub fn prelude_script() -> (s: &'static str)
    ensures
        s@ == "globalThis.console = Object.freeze({\nlog: (...values) => blit.log(values.map(String).join(' ')),\nerror: (...values) => blit.log(values.map(String).join(' '))\n}); Object.freeze(blit.context);"@,
{
    "globalThis.console = Object.freeze({\nlog: (...values) => blit.log(values.map(String).join(' ')),\nerror: (...values) => blit.log(values.map(String).join(' '))\n}); Object.freeze(blit.context);"
}

/// What starting an attempt comes to.
pub open spec fn start_of(s: AttemptState) -> (Result<(), LifecycleError>, AttemptState) {
    if !s.prepared {
        (Err(LifecycleError::NotPrepared), s)
    } else if s.started {
        (Err(LifecycleError::AlreadyStarted), s)
    } else {
        (Ok(()), AttemptState { started: true, ..s })
    }
}

/// An attempt starts only after it was prepared, and once.
pub proof fn law_starts_once(s: AttemptState)
    ensures
        start_of(s).0 is Ok ==> s.prepared,
        start_of(s).0 is Ok ==> start_of(start_of(s).1).0 == Err::<(), LifecycleError>(
            LifecycleError::AlreadyStarted,
        ),
{
}

} // verus!
