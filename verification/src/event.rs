//! Events of the dashboard: the closed union the reducer consumes, the
//! navigation intents, decoded key presses, and the tick scheduler's state.
//! Producers (the ticker, the fetch worker, the input reader) run outside the
//! library and serialize their events onto one ordered channel; the reducer
//! drains it one event at a time.

use vstd::prelude::*;
use crate::gh_cli::WorkflowData;

verus! {

/// Discrete application intents produced by the key-binding table.
#[derive(Clone, Copy, Debug, PartialEq, Eq, Structural)]
pub enum AppEvent {
    NavigateLeft,
    NavigateRight,
    NavigateUp,
    NavigateDown,
    Quit,
    ToggleDetails,
    PageUp,
    PageDown,
    OpenGitHub,
}

/// The key of a key press, reduced to the keys the dashboard reacts to.
#[derive(Clone, Copy, Debug, PartialEq, Eq, Structural)]
pub enum KeyCode {
    Esc,
    Char(char),
    Right,
    Left,
    Up,
    Down,
    Enter,
    PageUp,
    PageDown,
    Backspace,
    Other,
}

/// Modifier flags of a key press.
#[derive(Clone, Copy, Debug, PartialEq, Eq, Structural)]
pub struct KeyMods {
    pub ctrl: bool,
    pub alt: bool,
    pub shift: bool,
}

/// A decoded terminal key press.
#[derive(Clone, Copy, Debug, PartialEq, Eq, Structural)]
pub struct KeyPress {
    pub code: KeyCode,
    pub mods: KeyMods,
}

/// Whether the control key is held alone.
pub open spec fn ctrl_only(m: KeyMods) -> bool {
    m.ctrl && !m.alt && !m.shift
}

/// The key-binding table: what a key press means, if anything.
/// Escape and `q` quit, as does Ctrl-C; arrows navigate; Enter toggles the
/// details view; page keys scroll; Backspace opens the selected job's page.
pub open spec fn decode_key_spec(k: KeyPress) -> Option<AppEvent> {
    if k.code == KeyCode::Esc || k.code == KeyCode::Char('q') {
        Some(AppEvent::Quit)
    } else if (k.code == KeyCode::Char('c') || k.code == KeyCode::Char('C')) && ctrl_only(
        k.mods,
    ) {
        Some(AppEvent::Quit)
    } else if k.code == KeyCode::Right {
        Some(AppEvent::NavigateRight)
    } else if k.code == KeyCode::Left {
        Some(AppEvent::NavigateLeft)
    } else if k.code == KeyCode::Up {
        Some(AppEvent::NavigateUp)
    } else if k.code == KeyCode::Down {
        Some(AppEvent::NavigateDown)
    } else if k.code == KeyCode::Enter {
        Some(AppEvent::ToggleDetails)
    } else if k.code == KeyCode::PageDown {
        Some(AppEvent::PageDown)
    } else if k.code == KeyCode::PageUp {
        Some(AppEvent::PageUp)
    } else if k.code == KeyCode::Backspace {
        Some(AppEvent::OpenGitHub)
    } else {
        None
    }
}

/// Every event the reducer consumes, serialized in arrival order.
#[derive(Debug)]
pub enum Event {
    /// A data fetch has been triggered.
    Action,
    /// The result of a background fetch: a complete snapshot, or an error
    /// message.
    GitHubDataFetched(Result<WorkflowData, String>),
    /// A raw key press read from the terminal.
    Key(KeyPress),
    /// A decoded application intent.
    App(AppEvent),
}

/// What the reducer asks its caller to do after a transition: nothing, feed
/// an intent back onto the event channel, or open a page in the browser.
#[derive(Clone, Debug)]
pub enum Effect {
    Nothing,
    Emit(AppEvent),
    OpenUrl(String),
}

/// Tick scheduling state: the schedule fires immediately on startup, and
/// thereafter whenever no time remains until the next tick.
#[derive(Clone, Copy, Debug)]
pub struct Ticker {
    pub first: bool,
}

impl Ticker {
    pub fn new() -> (t: Ticker)
        ensures
            t.first,
    {
        Ticker { first: true }
    }

    /// Decides whether this loop iteration fires a fetch: on the very first
    /// iteration, or when the remaining time has run out.
    pub fn should_fire(&mut self, remaining_micros: u64) -> (fire: bool)
        ensures
            fire == (old(self).first || remaining_micros == 0),
            final(self).first == (old(self).first && !fire),
    {
        let fire = self.first || remaining_micros == 0;
        if fire {
            self.first = false;
        }
        fire
    }
}

} // verus!
