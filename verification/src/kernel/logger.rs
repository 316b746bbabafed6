//! The levels of the kernel's log and how each is shown.
use crate::kernel::graphics_renderer::Color;
use vstd::prelude::*;

verus! {

#[derive(Debug, PartialEq, Eq, Structural, Clone, Copy)]
pub enum LogLevel {
    Debug,
    Info,
    Warn,
    Error,
    Critical,
}

impl LogLevel {
    /// The rank of the level: 0 for `Debug` up to 4 for `Critical`.
    pub open spec fn rank(self) -> int {
        match self {
            LogLevel::Debug => 0,
            LogLevel::Info => 1,
            LogLevel::Warn => 2,
            LogLevel::Error => 3,
            LogLevel::Critical => 4,
        }
    }

    /// Whether a message of this level is shown where the lowest level
    /// shown is `least`.
    pub fn at_least(&self, least: LogLevel) -> (r: bool)
        ensures
            r == (self.rank() >= least.rank()),
    {
        self.number() >= least.number()
    }

    /// The rank of the level.
    pub fn number(&self) -> (r: u8)
        ensures
            r == self.rank(),
    {
        match self {
            LogLevel::Debug => 0,
            LogLevel::Info => 1,
            LogLevel::Warn => 2,
            LogLevel::Error => 3,
            LogLevel::Critical => 4,
        }
    }

    /// The escape sequence that sets the colour of the level on a serial
    /// terminal.
    pub fn get_serial_color(&self) -> (r: &'static str)
        ensures
            r@ == match self {
                LogLevel::Debug => "\x1b[2;37m"@,
                LogLevel::Info => "\x1b[37m"@,
                LogLevel::Warn => "\x1b[1;33m"@,
                LogLevel::Error => "\x1b[1;31m"@,
                LogLevel::Critical => "\x1b[1;37;41m"@,
            },
    {
        match self {
            LogLevel::Debug => "\x1b[2;37m",
            LogLevel::Info => "\x1b[37m",
            LogLevel::Warn => "\x1b[1;33m",
            LogLevel::Error => "\x1b[1;31m",
            LogLevel::Critical => "\x1b[1;37;41m",
        }
    }

    /// The colours of the level on the screen: text, then background.
    pub fn get_display_color(&self) -> (r: (Color, Color))
        ensures
            r == match self {
                LogLevel::Debug => (Color(0, 0x7F, 0), Color(0, 0, 0)),
                LogLevel::Info => (Color(0, 0xFF, 0), Color(0, 0, 0)),
                LogLevel::Warn => (Color(0xCC, 0xCC, 0), Color(0, 0, 0)),
                LogLevel::Error => (Color(0xCC, 0, 0), Color(0, 0, 0)),
                LogLevel::Critical => (Color(0xFF, 0xFF, 0xFF), Color(0xBB, 0, 0)),
            },
    {
        let foreground = Color::new(0x00FF00);
        let background = Color::new(0x000000);
        match self {
            LogLevel::Debug => (foreground.halved(), background),
            LogLevel::Info => (foreground, background),
            LogLevel::Warn => (Color::new(0xCCCC00), background),
            LogLevel::Error => (Color::new(0xCC0000), background),
            LogLevel::Critical => (Color::new(0xFFFFFF), Color::new(0xBB0000)),
        }
    }

    /// The letter that marks the level in the log.
    pub fn get_prefix(&self) -> (r: &'static str)
        ensures
            r@ == match self {
                LogLevel::Debug => "D"@,
                LogLevel::Info => "I"@,
                LogLevel::Warn => "W"@,
                LogLevel::Error => "E"@,
                LogLevel::Critical => "C"@,
            },
    {
        match self {
            LogLevel::Debug => "D",
            LogLevel::Info => "I",
            LogLevel::Warn => "W",
            LogLevel::Error => "E",
            LogLevel::Critical => "C",
        }
    }
}

} // verus!
