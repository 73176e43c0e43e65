//! What the reader has said they want, in one file.
//!
//! `~/.deck/config.toml` is the only source of truth. Everything here has a
//! default that is the design's own answer, so an empty file and no file are
//! the same thing, and a file that says one word changes one thing. The shape
//! lives here and the reading does not.

use vstd::prelude::*;

use crate::theme::{Mode, Overrides, Paper};

verus! {

/// What turns narration into sound.
#[derive(Debug, Clone, Copy, PartialEq, Eq, Structural)]
pub enum Engine {
    /// Whatever the machine already has. Works with nothing installed. The
    /// default.
    System,
    /// A program of the reader's choosing, fed on stdin.
    Command,
}

impl Default for Engine {
    fn default() -> (e: Self)
        ensures
            e == Engine::System,
    {
        Engine::System
    }
}

/// The `[speech]` section: how the narration sounds when it is read aloud.
///
/// Spoken by the system, on the machine. Nothing is uploaded.
#[derive(Debug, Clone, PartialEq, Eq)]
pub struct Speech {
    /// Whether going live reads the narration aloud at all.
    pub aloud: bool,
    /// What turns text into sound.
    pub engine: Engine,
    /// The program to pipe narration into, when the engine is a command.
    pub command: Option<String>,
    /// Which system voice to use. The system default when unset.
    pub voice: Option<String>,
    /// Words per minute: below conversational on purpose.
    pub rate: u16,
    /// Milliseconds of silence between paragraphs.
    pub pause: u16,
}

impl Default for Speech {
    fn default() -> (s: Self)
        ensures
            s.aloud,
            s.engine == Engine::System,
            s.command is None,
            s.voice is None,
            s.rate == 158,
            s.pause == 420,
    {
        Speech { aloud: true, engine: Engine::System, command: None, voice: None, rate: 158, pause: 420 }
    }
}

/// The slowest rate a voice is asked for.
pub const SLOWEST: u16 = 80;

/// The fastest rate a voice is asked for.
pub const FASTEST: u16 = 400;

impl Speech {
    /// The rate, held inside what a voice will actually do.
    ///
    /// A rate of zero is silence that looks like a hang, and a very high one
    /// is unintelligible — both easier to reach by typo than on purpose.
    pub fn words_a_minute(&self) -> (r: u16)
        ensures
            r == if self.rate < SLOWEST {
                SLOWEST
            } else if self.rate > FASTEST {
                FASTEST
            } else {
                self.rate
            },
    {
        if self.rate < SLOWEST {
            SLOWEST
        } else if self.rate > FASTEST {
            FASTEST
        } else {
            self.rate
        }
    }
}

/// The `[theme]` section.
#[derive(Debug, Clone)]
pub struct Theme {
    /// Which editor to borrow colours from, if any: a word the reader wrote.
    pub editor: Option<String>,
    /// Which neutrals to paint on, when nothing is imported.
    pub paper: Paper,
    /// Light, dark, or whatever the machine says.
    pub mode: Mode,
    /// Colours written by hand. Anything here wins.
    pub colors: Overrides,
}

impl Default for Theme {
    fn default() -> (t: Self)
        ensures
            t.editor is None,
            t.paper == Paper::Grey,
            t.mode == Mode::Auto,
            t.colors == (Overrides {
                bg: None,
                fg: None,
                band: None,
                wash: None,
                focus: None,
                accent: None,
                on_accent: None,
                add: None,
                del: None,
                gone: None,
                fresh: None,
                comment: None,
                muted: None,
                edge: None,
                ground: None,
            }),
    {
        Theme { editor: None, paper: Paper::default(), mode: Mode::default(), colors: Overrides::default() }
    }
}

/// Whatever the rate, the voice is asked for something it can do.
pub proof fn lemma_rate_is_always_speakable(s: Speech)
    ensures
        SLOWEST <= (if s.rate < SLOWEST {
            SLOWEST
        } else if s.rate > FASTEST {
            FASTEST
        } else {
            s.rate
        }) <= FASTEST,
{
}

} // verus!
