//! Core of a visual-novel runtime: an indentation-sensitive script lexer and
//! parser, the command model, a stage of animated portrait instances, dialogue
//! pacing and a resumable script execution engine.
//!
//! Every quantity that a presenter would keep as a floating-point number is
//! held here in fixed point: an `i64` counting thousandths of the unit
//! (thousandths of a pixel, of a millisecond, of full opacity).
use vstd::prelude::*;

use crate::animation::{pair_within, AnimationDeclaration, AnimationMap, POSITION_LIMIT, SIZE_LIMIT};
use crate::character::Characters;

pub mod animation;
pub mod character;
pub mod game;
pub mod grammar;
pub mod interface;
pub mod laws;
pub mod lexer;
pub mod table;
pub mod parser;

verus! {

/// Thousandths in one unit of a fixed-point quantity.
pub const UNIT: i64 = 1000;

/// Name of a character, as declared in the character table.
#[derive(Debug, Hash, Eq, PartialEq)]
pub struct CharacterName(pub String);

/// Name of an instance on the stage.
#[derive(Debug, Hash, Eq, PartialEq)]
pub struct InstanceName(pub String);

/// Name of one visual state of a character.
#[derive(Debug, Hash, Eq, PartialEq)]
pub struct StateName(pub String);

/// Name of a flag that scripts set, clear and test.
#[derive(Debug, Hash, Eq, PartialEq)]
pub struct FlagName(pub String);

/// Name of a jump destination.
#[derive(Debug, Hash, Eq, PartialEq)]
pub struct Label(pub String);

/// A cursor into the command list of a script.
#[derive(Debug, Default, Clone, Copy, PartialEq, Eq)]
pub struct Target(pub usize);

impl Target {
    /// Moves the cursor to the following command.
    pub fn advance(&mut self)
        requires
            old(self).0 < usize::MAX,
        ensures
            final(self).0 == old(self).0 + 1,
    {
        self.0 = self.0 + 1;
    }

    /// The cursor of the following command.
    pub fn next(&self) -> (r: Target)
        requires
            self.0 < usize::MAX,
        ensures
            r.0 == self.0 + 1,
    {
        Target(self.0 + 1)
    }
}

impl Clone for CharacterName {
    fn clone(&self) -> (r: Self)
        ensures
            r == *self,
    {
        CharacterName(self.0.clone())
    }
}

impl Clone for InstanceName {
    fn clone(&self) -> (r: Self)
        ensures
            r == *self,
    {
        InstanceName(self.0.clone())
    }
}

impl Clone for StateName {
    fn clone(&self) -> (r: Self)
        ensures
            r == *self,
    {
        StateName(self.0.clone())
    }
}

impl Clone for FlagName {
    fn clone(&self) -> (r: Self)
        ensures
            r == *self,
    {
        FlagName(self.0.clone())
    }
}

impl Clone for Label {
    fn clone(&self) -> (r: Self)
        ensures
            r == *self,
    {
        Label(self.0.clone())
    }
}

/// One instruction of a script.
#[derive(Debug)]
pub enum Command {
    /// Changes the state of an instance.
    Change(InstanceName, StateName, Option<AnimationDeclaration>),
    /// Displays text, said by a character if one is named.
    Dialogue(Option<CharacterName>, String),
    /// Offers the branches, each a button text and the label it jumps to.
    Diverge(Vec<(String, Label)>),
    /// Makes an instance visible.
    Show(InstanceName, Option<AnimationDeclaration>),
    /// Makes an instance invisible.
    Hide(InstanceName, Option<AnimationDeclaration>),
    /// Sets the position of an instance.
    Position(InstanceName, (i64, i64), Option<AnimationDeclaration>),
    /// Takes an instance off the stage.
    Kill(InstanceName, Option<AnimationDeclaration>),
    /// Puts an instance of a character on the stage, under the character's
    /// name unless another is given.
    Spawn(CharacterName, StateName, (i64, i64), Option<InstanceName>, Option<AnimationDeclaration>),
    /// Sets the background image.
    Stage(String),
    /// Jumps to a label.
    Jump(Label),
    /// Jumps to a label if the flag is set.
    If(FlagName, Label),
    /// Sets a flag.
    Flag(FlagName),
    /// Clears a flag.
    Unflag(FlagName),
    /// Waits for the player.
    Pause,
    /// Starts music, repeated, in place of any playing.
    Music(String),
    /// Plays a sound effect once.
    Sound(String),
}

pub open spec fn declaration_wf(d: Option<AnimationDeclaration>) -> bool {
    d matches Some(d) ==> d.wf()
}

impl Command {
    pub open spec fn wf(&self) -> bool {
        match self {
            Command::Change(_, _, d) => declaration_wf(*d),
            Command::Show(_, d) => declaration_wf(*d),
            Command::Hide(_, d) => declaration_wf(*d),
            Command::Kill(_, d) => declaration_wf(*d),
            Command::Position(_, p, d) => pair_within(*p, POSITION_LIMIT) && declaration_wf(*d),
            Command::Spawn(_, _, p, _, d) => pair_within(*p, POSITION_LIMIT) && declaration_wf(*d),
            _ => true,
        }
    }

    /// Whether the engine waits for the player after this command.
    pub open spec fn breaks(&self) -> bool {
        match self {
            Command::Dialogue(_, _) | Command::Diverge(_) | Command::Pause => true,
            _ => false,
        }
    }

    /// Whether the engine waits for the player after this command.
    pub fn is_breaking(&self) -> (r: bool)
        ensures
            r == self.breaks(),
    {
        match self {
            Command::Dialogue(_, _) | Command::Diverge(_) | Command::Pause => true,
            _ => false,
        }
    }
}

/// A parsed script with the resources it refers to.
#[derive(Debug)]
pub struct Script {
    pub characters: Characters,
    pub commands: Vec<Command>,
    /// Jump destinations by label name.
    pub labels: Vec<(String, Target)>,
    /// Width and height, in thousandths of a pixel, of each loaded image by path.
    pub images: Vec<(String, (i64, i64))>,
    /// Paths of the loaded audio.
    pub audio: Vec<(String, ())>,
    pub animations: AnimationMap,
}

pub open spec fn sizes_wf(images: Seq<(String, (i64, i64))>) -> bool {
    forall|i: int| 0 <= i < images.len() ==> 0 <= (#[trigger] images[i]).1.0 <= SIZE_LIMIT && 0 <= images[i].1.1 <= SIZE_LIMIT
}

impl Script {
    pub open spec fn wf(&self) -> bool {
        &&& self.characters.wf()
        &&& sizes_wf(self.images@)
        &&& forall|i: int| 0 <= i < self.commands@.len() ==> (#[trigger] self.commands@[i]).wf()
    }

    /// A script with no commands and the built-in animations.
    pub fn new() -> (r: Self)
        ensures
            r.wf(),
            r.commands@.len() == 0,
            r.labels@.len() == 0,
            r.images@.len() == 0,
            r.audio@.len() == 0,
            r.characters.0@.len() == 0,
            r.animations.is_builtin(),
    {
        Script {
            characters: Characters::new(),
            commands: Vec::new(),
            labels: Vec::new(),
            images: Vec::new(),
            audio: Vec::new(),
            animations: AnimationMap::default(),
        }
    }
}

/// The tunable values that the logic reads.
#[derive(Debug)]
pub struct Settings {
    /// Width of the view, in thousandths of a pixel.
    pub width: i64,
    /// Height of the view, in thousandths of a pixel.
    pub height: i64,
    /// Characters of dialogue shown per second.
    pub text_speed: u32,
    /// Where the history is saved.
    pub save_path: String,
    /// Whether the developer key bindings are on.
    pub developer: bool,
}

impl Default for Settings {
    /// A view of 640 by 480 pixels, 32 characters a second, saving to `/save.toml`.
    fn default() -> (r: Self)
        ensures
            r.wf(),
            r.width == 640_000,
            r.height == 480_000,
            r.text_speed == 32,
            r.save_path@ == "/save.toml"@,
            !r.developer,
    {
        Settings { width: 640_000, height: 480_000, text_speed: 32, save_path: crate::table::text("/save.toml"), developer: false }
    }
}

impl Settings {
    pub open spec fn wf(&self) -> bool {
        &&& 0 <= self.width <= SIZE_LIMIT
        &&& 0 <= self.height <= SIZE_LIMIT
    }
}

/// What is needed to bring a run back: how many commands ran, and which
/// label was chosen at each divergence, in order.
#[derive(Debug)]
pub struct History {
    pub execution_count: u64,
    pub divergences: Vec<Label>,
}

impl History {
    pub fn new() -> (r: Self)
        ensures
            r.execution_count == 0,
            r.divergences@.len() == 0,
    {
        History { execution_count: 0, divergences: Vec::new() }
    }
}

} // verus!
