//! The prompt that changes an option while viewing, as `less` does with `-` and `_`.

use vstd::prelude::*;
use crate::config::Config;

verus! {

/// State of the input at the switch prompt.
pub enum InputAction {
    Waiting,
    Done,
    Cancel,
}

/// What was typed so far at the switch prompt.
pub enum SwitchPromptMode {
    /// `-`
    Init,
    /// `--`
    InitLong,
    /// `-+`
    Reset,
    /// `-!`
    ResetOpposite,
    /// `_`
    Describe,
    /// `__`
    DescribeLong,
    /// `...x`
    Finished,
}

pub struct SwitchPrompt {
    pub prompt: String,
    pub mode: SwitchPromptMode,
}

impl SwitchPrompt {
    pub fn new(config: &Config, prompt: &str) -> (r: Self)
        ensures
            r.prompt@ == prompt@,
            r.mode is Init,
    {
        SwitchPrompt { prompt: prompt.to_owned(), mode: SwitchPromptMode::Init }
    }
}

} // verus!
