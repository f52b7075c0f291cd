//! The events that drive the dashboard, and the decisions of the thread
//! that reads them from the terminal.
//!
//! Two producers feed one ordered channel: an input thread that forwards
//! what the terminal reports, and a tick thread that forwards a tick at a
//! fixed interval. One loop takes the events from the channel in the order
//! in which they were produced. The threads, the channel and the terminal
//! belong to the program around this library; what is decided here is which
//! terminal events are forwarded and when the input thread ends.

use vstd::prelude::*;

verus! {

/// An event as the event loop takes it from the channel.
#[derive(Clone, Copy, Debug, PartialEq, Eq)]
pub enum Event<I, M> {
    /// A key was pressed.
    Input(I),
    /// The pointer was used.
    Mouse(M),
    /// The tick interval has passed.
    Tick,
}

/// A key of the terminal.
#[derive(Clone, Copy, Debug, PartialEq, Eq, Hash, Structural)]
pub enum Key {
    Backspace,
    Left,
    Right,
    Up,
    Down,
    Home,
    End,
    PageUp,
    PageDown,
    BackTab,
    Delete,
    Insert,
    /// A function key, by its number.
    F(u8),
    /// A character.
    Char(char),
    /// A character with the alt key.
    Alt(char),
    /// A character with the ctrl key.
    Ctrl(char),
    Null,
    Esc,
}

/// A button of the pointer.
#[derive(Clone, Copy, Debug, PartialEq, Eq, Hash, Structural)]
pub enum MouseButton {
    Left,
    Right,
    Middle,
    WheelUp,
    WheelDown,
}

/// A use of the pointer at a column and a row of the terminal.
#[derive(Clone, Copy, Debug, PartialEq, Eq, Hash, Structural)]
pub enum MouseEvent {
    /// A button was pressed.
    Press(MouseButton, u16, u16),
    /// A button was released.
    Release(u16, u16),
    /// A button is held.
    Hold(u16, u16),
}

/// What the terminal reports to the input thread.
#[derive(Clone, Copy, Debug, PartialEq, Eq, Hash, Structural)]
pub enum TerminalEvent {
    Key(Key),
    Mouse(MouseEvent),
    /// Anything that is neither a key nor a use of the pointer.
    Unsupported,
}

/// The configuration of the event threads.
#[derive(Clone, Copy, Debug)]
pub struct Config {
    /// The key after which the input thread ends.
    pub exit_key: Key,
    /// The interval between two ticks, in milliseconds.
    pub tick_rate: u64,
}

impl Default for Config {
    /// The input thread ends after `q`; a tick comes every 250 ms.
    fn default() -> (config: Config)
        ensures
            config.exit_key == Key::Char('q'),
            config.tick_rate == 250,
    {
        Config { exit_key: Key::Char('q'), tick_rate: 250 }
    }
}

/// The event that the input thread forwards for what the terminal
/// reported: a key as input, a use of the pointer as such, and nothing for
/// anything else.
pub open spec fn forwarded(reported: TerminalEvent) -> Option<Event<Key, MouseEvent>> {
    match reported {
        TerminalEvent::Key(key) => Some(Event::Input(key)),
        TerminalEvent::Mouse(mouse) => Some(Event::Mouse(mouse)),
        TerminalEvent::Unsupported => None,
    }
}

/// Whether the input thread ends after it handed `event` to the channel:
/// it ends when the channel did not take the event, because the event loop
/// is gone, and after it forwarded the exit key.
pub open spec fn input_ends_after(
    config: Config,
    event: Event<Key, MouseEvent>,
    delivered: bool,
) -> bool {
    !delivered || event == Event::<Key, MouseEvent>::Input(config.exit_key)
}

/// Decides what the input thread forwards for what the terminal reported.
pub fn forward(reported: TerminalEvent) -> (event: Option<Event<Key, MouseEvent>>)
    ensures
        event == forwarded(reported),
{
    match reported {
        TerminalEvent::Key(key) => Some(Event::Input(key)),
        TerminalEvent::Mouse(mouse) => Some(Event::Mouse(mouse)),
        TerminalEvent::Unsupported => None,
    }
}

/// Decides whether the input thread ends after it handed `event` to the
/// channel; `delivered` says whether the channel took it.
pub fn input_ends(config: &Config, event: &Event<Key, MouseEvent>, delivered: bool) -> (ends: bool)
    ensures
        ends == input_ends_after(*config, *event, delivered),
{
    if !delivered {
        return true;
    }
    match event {
        Event::Input(key) => *key == config.exit_key,
        _ => false,
    }
}

} // verus!
