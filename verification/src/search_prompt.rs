//! The search prompt: which way to search and for what. Reading the text from the terminal
//! is done by the caller, which hands the line it read to `Search::run`.

use vstd::prelude::*;
use crate::config::Config;
use crate::text::{trim_end_char, trim_end_spec};

verus! {

/// What the user asked for at the prompt.
pub enum InputAction {
    Idle,
    Search(bool, String),
    Cancel,
}

pub struct Search {
    active: bool,
    prompt: SearchPrompt,
    forward: bool,
    expr: String,
}

pub struct SearchPrompt {
    color: bool,
    prompt: String,
}

impl SearchPrompt {
    pub closed spec fn text(&self) -> Seq<char> {
        self.prompt@
    }

    pub closed spec fn colored(&self) -> bool {
        self.color
    }

    pub fn new(config: &Config) -> (r: Self)
        ensures
            r.colored() == config.color,
            r.text().len() == 0,
    {
        SearchPrompt { color: config.color, prompt: String::new() }
    }

    /// Lines the prompt takes on the screen.
    pub fn get_height(&self) -> (r: u16)
        ensures
            r == 1,
    {
        1
    }

    /// Set the text shown before the user's input.
    pub fn set_prompt(&mut self, prompt: &str)
        ensures
            final(self).text() == prompt@,
            final(self).colored() == old(self).colored(),
    {
        self.prompt = prompt.to_owned();
    }

    pub fn prompt(&self) -> (r: &str)
        ensures
            r@ == self.text(),
    {
        self.prompt.as_str()
    }

    pub fn is_color(&self) -> (r: bool)
        ensures
            r == self.colored(),
    {
        self.color
    }
}

impl Search {
    pub closed spec fn is_active(&self) -> bool {
        self.active
    }

    pub closed spec fn is_forward(&self) -> bool {
        self.forward
    }

    /// The last search expression.
    pub closed spec fn last_expr(&self) -> Seq<char> {
        self.expr@
    }

    pub closed spec fn prompt_text(&self) -> Seq<char> {
        self.prompt.text()
    }

    pub fn new(config: &Config) -> (r: Self)
        ensures
            !r.is_active(),
            r.is_forward(),
            r.last_expr().len() == 0,
    {
        Search { active: false, prompt: SearchPrompt::new(config), forward: true, expr: String::new() }
    }

    /// Start prompting for a filter expression.
    pub fn prompt_filter_start(&mut self)
        ensures
            final(self).is_active(),
            final(self).is_forward(),
            final(self).last_expr() == old(self).last_expr(),
            final(self).prompt_text() == "&/"@,
    {
        self.forward = true;
        self.active = true;
        self.prompt.set_prompt("&/");
    }

    /// Start prompting for a forward search.
    pub fn prompt_forward_start(&mut self)
        ensures
            final(self).is_active(),
            final(self).is_forward(),
            final(self).last_expr() == old(self).last_expr(),
            final(self).prompt_text() == "/"@,
    {
        self.forward = true;
        self.active = true;
        self.prompt.set_prompt("/");
    }

    /// Start prompting for a backward search.
    pub fn prompt_backward_start(&mut self)
        ensures
            final(self).is_active(),
            !final(self).is_forward(),
            final(self).last_expr() == old(self).last_expr(),
            final(self).prompt_text() == "?"@,
    {
        self.forward = false;
        self.active = true;
        self.prompt.set_prompt("?");
    }

    pub fn get_expr(&self) -> (r: &str)
        ensures
            r@ == self.last_expr(),
    {
        self.expr.as_str()
    }

    /// True while a prompt is open and waiting for a line.
    pub fn active(&self) -> (r: bool)
        ensures
            r == self.is_active(),
    {
        self.active
    }

    pub fn get_prompt(&self) -> (r: &SearchPrompt)
        ensures
            r.text() == self.prompt_text(),
    {
        &self.prompt
    }

    /// Decide what the line read at the prompt asks for: `None` for a cancelled prompt.
    /// An empty line repeats the previous search, if there was one.
    pub fn run(&mut self, input: Option<String>) -> (r: InputAction)
        ensures
            !old(self).is_active() ==> r is Idle && *final(self) == *old(self),
            old(self).is_active() ==> !final(self).is_active(),
            final(self).is_forward() == old(self).is_forward(),
            old(self).is_active() ==> match input {
                None => r is Cancel && final(self).last_expr() == old(self).last_expr(),
                Some(line) => {
                    let t = trim_end_spec(line@, '\r');
                    if t.len() == 0 {
                        final(self).last_expr() == old(self).last_expr() && if old(self).last_expr().len() == 0 {
                            r is Cancel
                        } else {
                            r matches InputAction::Search(f, e) && f == old(self).is_forward() && e@ == old(self).last_expr()
                        }
                    } else {
                        final(self).last_expr() == t && (r matches InputAction::Search(f, e) && f == old(self).is_forward() && e@ == t)
                    }
                },
            },
    {
        if !self.active {
            return InputAction::Idle;
        }
        match input {
            Some(line) => {
                self.active = false;
                let text = trim_end_char(line.as_str(), '\r');
                if text.unicode_len() == 0 {
                    if self.expr.as_str().unicode_len() == 0 {
                        return InputAction::Cancel;
                    }
                } else {
                    self.expr = text.to_owned();
                }
                InputAction::Search(self.forward, self.expr.clone())
            },
            None => {
                self.active = false;
                InputAction::Cancel
            },
        }
    }
}

} // verus!
