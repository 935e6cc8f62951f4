//! What the presenter reads each frame: the background, the stage, the text
//! boxes and the branch buttons, and the pacing of dialogue text.
use vstd::prelude::*;
use vstd::string::*;

use crate::character::Stage;
use crate::Label;

verus! {

/// A string of which a prefix, `end` characters long, is shown.
#[derive(Debug)]
pub struct RenderText {
    pub string: String,
    /// Number of characters in `string`.
    pub length: usize,
    /// Number of characters shown.
    pub end: usize,
}

/// The text with one more character shown, unless all are.
pub open spec fn stepped(t: RenderText) -> RenderText {
    if t.end < t.length {
        RenderText { end: (t.end + 1) as usize, ..t }
    } else {
        t
    }
}

/// The text after `n` steps.
pub open spec fn steps(t: RenderText, n: nat) -> RenderText
    decreases n,
{
    if n == 0 {
        t
    } else {
        steps(stepped(t), (n - 1) as nat)
    }
}

impl RenderText {
    pub open spec fn wf(&self) -> bool {
        &&& self.length == self.string@.len()
        &&& self.end <= self.length
    }

    pub open spec fn done(&self) -> bool {
        self.end == self.length
    }

    /// A text with all its characters shown.
    pub fn new(string: String) -> (r: Self)
        ensures
            r.wf(),
            r.string == string,
            r.done(),
    {
        let length = string.as_str().unicode_len();
        RenderText { string, length, end: length }
    }

    /// A text with none of its characters shown.
    pub fn empty(string: String) -> (r: Self)
        ensures
            r.wf(),
            r.string == string,
            r.end == 0,
    {
        let length = string.as_str().unicode_len();
        RenderText { string, length, end: 0 }
    }

    /// Shows one more character; does nothing once all are shown.
    pub fn step(&mut self)
        requires
            old(self).wf(),
        ensures
            *final(self) == stepped(*old(self)),
            final(self).wf(),
    {
        if self.end < self.length {
            self.end = self.end + 1;
        }
    }

    /// Shows all the characters.
    pub fn finish(&mut self)
        requires
            old(self).wf(),
        ensures
            *final(self) == (RenderText { end: old(self).length, ..*old(self) }),
            final(self).wf(),
            final(self).done(),
    {
        self.end = self.length;
    }

    /// Whether all the characters are shown.
    pub fn is_finished(&self) -> (r: bool)
        ensures
            r == self.done(),
    {
        self.end == self.length
    }

    /// The characters shown.
    pub fn fragment(&self) -> (r: String)
        requires
            self.wf(),
        ensures
            r@ == self.string@.subrange(0, self.end as int),
    {
        crate::table::text(self.string.as_str().substring_char(0, self.end))
    }
}

/// Stepping reveals the whole text: after as many steps as there are hidden
/// characters the text is finished, and a finished text stays as it is under
/// any further steps.
pub proof fn lemma_reveal_finishes(t: RenderText, extra: nat)
    requires
        t.wf(),
    ensures
        steps(t, (t.length - t.end) as nat).done(),
        steps(t, (t.length - t.end) as nat).wf(),
        steps(steps(t, (t.length - t.end) as nat), extra) == steps(t, (t.length - t.end) as nat),
    decreases t.length - t.end,
{
    if t.end < t.length {
        lemma_reveal_finishes(stepped(t), extra);
    } else {
        lemma_finished_stays(t, extra);
    }
}

proof fn lemma_finished_stays(t: RenderText, n: nat)
    requires
        t.done(),
    ensures
        steps(t, n) == t,
    decreases n,
{
    if n > 0 {
        lemma_finished_stays(t, (n - 1) as nat);
    }
}

/// What the presenter draws.
#[derive(Debug)]
pub struct Render {
    /// Path of the background image.
    pub background: Option<String>,
    pub stage: Stage,
    /// The name of the character speaking.
    pub character: Option<RenderText>,
    /// The dialogue body.
    pub text: Option<RenderText>,
    /// The branches on offer: the text of each button and its label.
    pub branches: Vec<(String, Label)>,
}

impl Render {
    pub open spec fn wf(&self) -> bool {
        &&& self.stage.wf()
        &&& (self.character matches Some(t) ==> t.wf())
        &&& (self.text matches Some(t) ==> t.wf())
    }

    /// Nothing to draw.
    pub fn new() -> (r: Self)
        ensures
            r.wf(),
            r.background is None,
            r.stage.0@.len() == 0,
            r.character is None,
            r.text is None,
            r.branches@.len() == 0,
    {
        Render { background: None, stage: Stage::new(), character: None, text: None, branches: Vec::new() }
    }
}

} // verus!
