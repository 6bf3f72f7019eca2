//! Plain-value session data: what a debug back end reports about threads,
//! frames, modules, registers, breakpoints, processes and events, stripped
//! down to values the rest of the library can reason about.

#![allow(non_snake_case)]

use vstd::prelude::*;

verus! {

/// Why the debuggee stopped, as the back end classifies it.
#[derive(Clone, Copy, PartialEq, Eq, Structural, Debug)]
pub enum BNDebugStopReason {
    UnknownReason,
    InitialBreakpoint,
    ProcessExited,
    AccessViolation,
    SingleStep,
    Calculation,
    Breakpoint,
    IllegalInstruction,
    SignalHup,
    SignalInt,
    SignalQuit,
    SignalIll,
    SignalAbrt,
    SignalEmt,
    SignalFpe,
    SignalKill,
    SignalBus,
    SignalSegv,
    SignalSys,
    SignalPipe,
    SignalAlrm,
    SignalTerm,
    SignalUrg,
    SignalStop,
    SignalTstp,
    SignalCont,
    SignalChld,
    SignalTtin,
    SignalTtou,
    SignalIo,
    SignalXcpu,
    SignalXfsz,
    SignalVtalrm,
    SignalProf,
    SignalWinch,
    SignalInfo,
    SignalUsr1,
    SignalUsr2,
    SignalStkflt,
    SignalBux,
    SignalPoll,
    ExcEmulation,
    ExcSoftware,
    ExcSyscall,
    ExcMachSyscall,
    ExcRpcAlert,
    ExcCrash,
    InternalError,
    InvalidStatusOrOperation,
    UserRequestedBreak,
    OperationNotSupported,
}

/// Connection state of the debug adapter.
#[derive(Clone, Copy, PartialEq, Eq, Structural, Debug)]
pub enum BNDebugAdapterConnectionStatus {
    DebugAdapterNotConnectedStatus,
    DebugAdapterConnectingStatus,
    DebugAdapterConnectedStatus,
}

/// Run state of the debug target.
#[derive(Clone, Copy, PartialEq, Eq, Structural, Debug)]
pub enum BNDebugAdapterTargetStatus {
    DebugAdapterInvalidStatus,
    DebugAdapterRunningStatus,
    DebugAdapterPausedStatus,
}

/// The kinds of events a debugger session can raise.
#[derive(Clone, Copy, PartialEq, Eq, Structural, Debug)]
pub enum BNDebuggerEventType {
    LaunchEventType,
    ResumeEventType,
    StepIntoEventType,
    StepOverEventType,
    StepReturnEventType,
    StepToEventType,
    RestartEventType,
    AttachEventType,
    DetachEventType,
    ConnectEventType,
    AdapterStoppedEventType,
    AdapterTargetExitedEventType,
    InvalidOperationEventType,
    InternalErrorEventType,
    TargetStoppedEventType,
    ErrorEventType,
    GeneralEventType,
    LaunchFailureEventType,
    StdoutMessageEventType,
    BackendMessageEventType,
    TargetExitedEventType,
    DetachedEventType,
    AbsoluteBreakpointAddedEvent,
    RelativeBreakpointAddedEvent,
    AbsoluteBreakpointRemovedEvent,
    RelativeBreakpointRemovedEvent,
    AbsoluteBreakpointEnabledEvent,
    RelativeBreakpointEnabledEvent,
    AbsoluteBreakpointDisabledEvent,
    RelativeBreakpointDisabledEvent,
    ActiveThreadChangedEvent,
    DebuggerAdapterChangedEvent,
    RegisterChangedEvent,
    ThreadStateChangedEvent,
    ForceMemoryCacheUpdateEvent,
}

/// Low-level operations a debug adapter can be asked to perform.
#[derive(Clone, Copy, PartialEq, Eq, Structural, Debug)]
pub enum BNDebuggerAdapterOperation {
    DebugAdapterLaunch,
    DebugAdapterAttach,
    DebugAdapterConnect,
    DebugAdapterGo,
    DebugAdapterStepInto,
    DebugAdapterStepOver,
    DebugAdapterStepReturn,
    DebugAdapterPause,
    DebugAdapterQuit,
    DebugAdapterDetach,
    DebugAdapterStepIntoReverse,
    DebugAdapterStepOverReverse,
    DebugAdapterGoReverse,
    DebugAdapterStepReturnReverse,
}

/// Raw thread record as the back end hands it over.
#[derive(Clone, Copy, PartialEq, Eq, Structural, Debug)]
pub struct BNDebugThread {
    pub m_tid: u32,
    pub m_rip: u64,
    pub m_isFrozen: bool,
}

/// Payload of a target-exited event: the exit code.
#[derive(Clone, Copy, PartialEq, Eq, Structural, Debug)]
pub struct BNTargetExitedEventData {
    pub exitCode: u64,
}

/// One thread of the debuggee.
#[derive(Clone, Copy, PartialEq, Eq, Structural, Debug)]
pub struct DebugThread {
    pub tid: u32,
    pub rip: u64,
    pub is_frozen: bool,
}

impl DebugThread {
    /// The plain-value form of a raw thread record.
    pub fn from_raw(raw: &BNDebugThread) -> (t: DebugThread)
        ensures
            t.tid == raw.m_tid,
            t.rip == raw.m_rip,
            t.is_frozen == raw.m_isFrozen,
    {
        DebugThread { tid: raw.m_tid, rip: raw.m_rip, is_frozen: raw.m_isFrozen }
    }

    /// The raw record a plain-value thread stands for.
    pub fn to_raw(&self) -> (r: BNDebugThread)
        ensures
            r.m_tid == self.tid,
            r.m_rip == self.rip,
            r.m_isFrozen == self.is_frozen,
    {
        BNDebugThread { m_tid: self.tid, m_rip: self.rip, m_isFrozen: self.is_frozen }
    }
}

/// One stack frame of a stopped thread.
#[derive(Clone, Debug)]
pub struct DebugFrame {
    pub index: usize,
    pub pc: u64,
    pub sp: u64,
    pub fp: u64,
    pub function_name: String,
    pub function_start: u64,
    pub module: String,
}

/// One loaded module of the debuggee.
#[derive(Clone, Debug)]
pub struct DebugModule {
    pub name: String,
    pub short_name: String,
    pub address: u64,
    pub size: usize,
    pub loaded: bool,
}

/// The byte value a register read of `width` bytes yields, little-endian,
/// as an unbounded integer: the first byte is least significant.
pub open spec fn le_value(s: Seq<u8>) -> nat
    decreases s.len(),
{
    if s.len() == 0 {
        0
    } else {
        s[0] as nat + 256 * le_value(s.drop_first())
    }
}

/// 256 to the power `n`: the number of values `n` bytes can take.
pub open spec fn pow256(n: nat) -> nat
    decreases n,
{
    if n == 0 {
        1
    } else {
        256 * pow256((n - 1) as nat)
    }
}

proof fn lemma_le_value_bound(s: Seq<u8>)
    ensures
        le_value(s) < pow256(s.len()),
    decreases s.len(),
{
    if s.len() == 0 {
    } else {
        lemma_le_value_bound(s.drop_first());
    }
}

proof fn lemma_pow256_mono(a: nat, b: nat)
    requires
        a <= b,
    ensures
        pow256(a) <= pow256(b),
    decreases b,
{
    if a < b && b > 0 {
        lemma_pow256_mono(a, (b - 1) as nat);
    }
}

/// One register of a stopped thread, with its raw little-endian value
/// bytes.
#[derive(Clone, Debug)]
pub struct DebugRegister {
    pub name: String,
    pub value: Vec<u8>,
    pub width: usize,
    pub register_index: usize,
    pub hint: String,
}

impl DebugRegister {
    /// The register's value as a 64-bit integer: the little-endian value of
    /// its first eight bytes (of all of them, if it is narrower).
    pub fn value_u64(&self) -> (r: u64)
        ensures
            r as nat == le_value(
                self.value@.subrange(
                    0,
                    if self.value@.len() < 8 {
                        self.value@.len() as int
                    } else {
                        8
                    },
                ),
            ),
    {
        let n: usize = if self.value.len() < 8 {
            self.value.len()
        } else {
            8
        };
        let ghost taken = self.value@.subrange(0, n as int);
        let mut acc: u64 = 0;
        let mut i: usize = n;
        proof {
            assert(taken.subrange(n as int, n as int).len() == 0);
        }
        while i > 0
            invariant
                i <= n,
                n <= 8,
                n <= self.value@.len(),
                taken == self.value@.subrange(0, n as int),
                acc as nat == le_value(taken.subrange(i as int, n as int)),
                (acc as nat) < pow256((n - i) as nat),
            decreases i,
        {
            i = i - 1;
            let b = self.value[i];
            proof {
                let suffix = taken.subrange(i as int, n as int);
                assert(suffix[0] == taken[i as int]);
                assert(taken[i as int] == self.value@[i as int]);
                assert(suffix.drop_first() =~= taken.subrange(i + 1, n as int));
                lemma_pow256_mono(((n - i) as nat - 1) as nat, 7);
                assert(pow256(7) == 0x100000000000000) by {
                    assert(pow256(0) == 1);
                    assert(pow256(1) == 256);
                    assert(pow256(2) == 0x10000);
                    assert(pow256(3) == 0x1000000);
                    assert(pow256(4) == 0x100000000);
                    assert(pow256(5) == 0x10000000000);
                    assert(pow256(6) == 0x1000000000000);
                }
            }
            acc = (b as u64) + 256 * acc;
        }
        proof {
            assert(taken.subrange(0, n as int) =~= taken);
        }
        acc
    }
}

/// One installed breakpoint.
#[derive(Clone, Debug)]
pub struct DebugBreakpoint {
    pub module: String,
    pub offset: u64,
    pub address: u64,
    pub enabled: bool,
}

/// One debuggee process.
#[derive(Clone, Debug)]
pub struct DebugProcess {
    pub pid: u32,
    pub name: String,
}

/// One debugger event, with the payload fields that apply to its type.
#[derive(Clone, Debug)]
pub struct DebuggerEvent {
    pub event_type: BNDebuggerEventType,
    pub stop_reason: Option<BNDebugStopReason>,
    pub exit_code: Option<u64>,
    pub error_message: Option<String>,
    pub address: Option<u64>,
    pub message: Option<String>,
}

} // verus!
