//! Enumerations shared by the components around the bus.
use vstd::prelude::*;

verus! {

/// The lifecycle state of a component.
#[derive(Clone, Copy, Debug, PartialEq, Eq, Structural, Hash, PartialOrd, Ord)]
pub enum ComponentState {
    PreInitialized,
    Ready,
    Starting,
    Running,
    Stopping,
    Stopped,
    Resuming,
    Resetting,
    Disposing,
    Disposed,
    Degrading,
    Degraded,
    Faulting,
    Faulted,
}

impl ComponentState {
    /// The name shown to users: the upper snake case name with only its
    /// first letter kept upper case.
    pub open spec fn spec_variant_name(&self) -> Seq<char> {
        match self {
            ComponentState::PreInitialized => "Pre_initialized"@,
            ComponentState::Ready => "Ready"@,
            ComponentState::Starting => "Starting"@,
            ComponentState::Running => "Running"@,
            ComponentState::Stopping => "Stopping"@,
            ComponentState::Stopped => "Stopped"@,
            ComponentState::Resuming => "Resuming"@,
            ComponentState::Resetting => "Resetting"@,
            ComponentState::Disposing => "Disposing"@,
            ComponentState::Disposed => "Disposed"@,
            ComponentState::Degrading => "Degrading"@,
            ComponentState::Degraded => "Degraded"@,
            ComponentState::Faulting => "Faulting"@,
            ComponentState::Faulted => "Faulted"@,
        }
    }

    pub fn variant_name(&self) -> (r: String)
        ensures
            r@ == self.spec_variant_name(),
    {
        let s = match self {
            ComponentState::PreInitialized => "Pre_initialized",
            ComponentState::Ready => "Ready",
            ComponentState::Starting => "Starting",
            ComponentState::Running => "Running",
            ComponentState::Stopping => "Stopping",
            ComponentState::Stopped => "Stopped",
            ComponentState::Resuming => "Resuming",
            ComponentState::Resetting => "Resetting",
            ComponentState::Disposing => "Disposing",
            ComponentState::Disposed => "Disposed",
            ComponentState::Degrading => "Degrading",
            ComponentState::Degraded => "Degraded",
            ComponentState::Faulting => "Faulting",
            ComponentState::Faulted => "Faulted",
        };
        s.to_owned()
    }
}

impl Default for ComponentState {
    fn default() -> (r: Self)
        ensures
            r == ComponentState::PreInitialized,
    {
        ComponentState::PreInitialized
    }
}

/// An event that moves a component between lifecycle states.
#[derive(Clone, Copy, Debug, PartialEq, Eq, Structural, Hash, PartialOrd, Ord)]
pub enum ComponentTrigger {
    Initialize,
    Start,
    StartCompleted,
    Stop,
    StopCompleted,
    Resume,
    ResumeCompleted,
    Reset,
    ResetCompleted,
    Dispose,
    DisposeCompleted,
    Degrade,
    DegradeCompleted,
    Fault,
    FaultCompleted,
}

/// Where a trading system runs.
#[derive(Clone, Copy, Debug, PartialEq, Eq, Structural, Hash, PartialOrd, Ord)]
pub enum Environment {
    Backtest,
    Sandbox,
    Live,
}

/// Log levels, from off to error.
#[derive(Clone, Copy, Debug, PartialEq, Eq, Structural, Hash, PartialOrd, Ord)]
pub enum LogLevel {
    Off,
    Trace,
    Debug,
    Info,
    Warning,
    Error,
}

/// Colours of log lines.
#[derive(Clone, Copy, Debug, PartialEq, Eq, Structural, Hash, PartialOrd, Ord)]
pub enum LogColor {
    Normal,
    Green,
    Blue,
    Magenta,
    Cyan,
    Yellow,
    Red,
}

impl LogColor {
    pub open spec fn spec_as_ansi(&self) -> Seq<char> {
        match self {
            LogColor::Normal => ""@,
            LogColor::Green => "\x1b[92m"@,
            LogColor::Blue => "\x1b[94m"@,
            LogColor::Magenta => "\x1b[35m"@,
            LogColor::Cyan => "\x1b[36m"@,
            LogColor::Yellow => "\x1b[1;33m"@,
            LogColor::Red => "\x1b[1;31m"@,
        }
    }

    /// The ANSI escape sequence that starts text in this colour.
    pub fn as_ansi(&self) -> (r: &'static str)
        ensures
            r@ == self.spec_as_ansi(),
    {
        match self {
            LogColor::Normal => "",
            LogColor::Green => "\x1b[92m",
            LogColor::Blue => "\x1b[94m",
            LogColor::Magenta => "\x1b[35m",
            LogColor::Cyan => "\x1b[36m",
            LogColor::Yellow => "\x1b[1;33m",
            LogColor::Red => "\x1b[1;31m",
        }
    }
}

/// The colour numbered `value`; numbers without a colour give `Normal`.
pub open spec fn log_color_of(value: u8) -> LogColor {
    if value == 1 {
        LogColor::Green
    } else if value == 2 {
        LogColor::Blue
    } else if value == 3 {
        LogColor::Magenta
    } else if value == 4 {
        LogColor::Cyan
    } else if value == 5 {
        LogColor::Yellow
    } else if value == 6 {
        LogColor::Red
    } else {
        LogColor::Normal
    }
}

impl From<u8> for LogColor {
    fn from(value: u8) -> (r: LogColor) {
        if value == 1 {
            LogColor::Green
        } else if value == 2 {
            LogColor::Blue
        } else if value == 3 {
            LogColor::Magenta
        } else if value == 4 {
            LogColor::Cyan
        } else if value == 5 {
            LogColor::Yellow
        } else if value == 6 {
            LogColor::Red
        } else {
            LogColor::Normal
        }
    }
}

impl vstd::std_specs::convert::FromSpecImpl<u8> for LogColor {
    open spec fn obeys_from_spec() -> bool {
        true
    }

    open spec fn from_spec(value: u8) -> LogColor {
        log_color_of(value)
    }
}

/// ANSI line formats.
#[derive(Clone, Copy, Debug, PartialEq, Eq, Structural, Hash)]
pub enum LogFormat {
    Header,
    Endc,
    Bold,
    Underline,
}

/// How messages are encoded.
#[derive(Clone, Copy, Debug, PartialEq, Eq, Structural, Hash, PartialOrd, Ord)]
pub enum SerializationEncoding {
    MsgPack,
    Json,
}

} // verus!
