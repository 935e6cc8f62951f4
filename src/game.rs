//! The script execution engine: commands, the advance protocol, divergences,
//! and resuming a run from its history.
use vstd::prelude::*;

use crate::animation::{
    fade_of, flip_of, glide_move_of, glide_visibility_of, Animation, AnimationDeclaration,
    AnimationMap, ChangeAnimation, Fade, Flip, Glide, PositionAnimation, Producer, SIZE_LIMIT, TIME_LIMIT,
};
use crate::character::{
    animated, centre, centre_of, finished, instance_of, stage_finished, stage_wf, state_of, Instance, Stage,
};
use crate::interface::{Render, RenderText};
use crate::table::{find, index_of, insert, insert_spec, lemma_index_of, lookup, remove, remove_spec};
use crate::{CharacterName, Command, History, InstanceName, Label, Script, Settings, StateName, Target};

verus! {

/// Most commands that one advance may run before the script is taken to loop
/// without a break.
pub const RUN_LIMIT: u64 = 1_000_000;

/// A fault of the script that stops the run.
#[derive(Debug, Clone, Copy, PartialEq, Eq, Structural)]
pub enum EngineError {
    /// No instance of that name is on the stage.
    UnknownInstance,
    /// The character has no state of that name.
    UnknownState,
    /// The image was not loaded.
    UnknownImage,
    /// The audio was not loaded.
    UnknownAudio,
    /// No label of that name.
    UnknownLabel,
    /// No animation of that name for that kind of command.
    UnknownAnimation,
    /// The cursor ran past the last command.
    OutOfRange,
    /// More than `RUN_LIMIT` commands ran without a break.
    Runaway,
    /// The execution count cannot grow any more.
    CountOverflow,
    /// A saved history that this script does not reproduce.
    InconsistentHistory,
}

/// The state of a run apart from what is drawn.
#[derive(Debug)]
pub struct ScriptState {
    pub target: Target,
    /// A jump to take before the next command.
    pub next_target: Option<Target>,
    /// The flags that are set.
    pub flags: Vec<(String, ())>,
    /// Path of the music playing.
    pub music: Option<String>,
    /// Paths of the sound effects started, oldest first.
    pub sounds: Vec<String>,
}

impl ScriptState {
    /// The state before the first command: the cursor at the start, with a
    /// jump to the first command pending.
    pub fn new() -> (r: Self)
        ensures
            r.target.0 == 0,
            r.next_target == Some(Target(0)),
            r.flags@.len() == 0,
            r.music is None,
            r.sounds@.len() == 0,
    {
        ScriptState { target: Target(0), next_target: Some(Target(0)), flags: Vec::new(), music: None, sounds: Vec::new() }
    }
}

/// Everything that commands act on.
pub struct Scene {
    pub target: int,
    pub next_target: Option<int>,
    pub flags: Seq<(String, ())>,
    pub music: Option<String>,
    pub sounds: Seq<String>,
    pub background: Option<String>,
    pub stage: Seq<(String, Instance)>,
    pub character: Option<RenderText>,
    pub text: Option<RenderText>,
    pub branches: Seq<(String, Label)>,
}

pub open spec fn scene_of(state: &ScriptState, render: &Render) -> Scene {
    Scene {
        target: state.target.0 as int,
        next_target: match state.next_target {
            Some(t) => Some(t.0 as int),
            None => None,
        },
        flags: state.flags@,
        music: state.music,
        sounds: state.sounds@,
        background: render.background,
        stage: render.stage.0@,
        character: render.character,
        text: render.text,
        branches: render.branches@,
    }
}

/// A text that shows all of `s`.
pub open spec fn shown(s: String) -> RenderText {
    RenderText { string: s, length: s@.len() as usize, end: s@.len() as usize }
}

/// A text that shows none of `s` yet.
pub open spec fn hidden(s: String) -> RenderText {
    RenderText { string: s, length: s@.len() as usize, end: 0 }
}

pub open spec fn set_instance(sc: Scene, k: int, i: Instance) -> Scene {
    Scene { stage: sc.stage.update(k, (sc.stage[k].0, i)), ..sc }
}

/// The animation that a show, hide, spawn or kill command asks for.
pub open spec fn visibility_animation(
    which: Seq<(String, Producer)>,
    d: AnimationDeclaration,
    showing: bool,
    settings: Settings,
) -> Result<Animation, EngineError> {
    match lookup(which, d.name@) {
        Some(Producer::Glide) => Ok(glide_visibility_of(showing, d.arguments@, (settings.width, settings.height))),
        Some(Producer::Fade) => Ok(fade_of(showing, d.arguments@)),
        _ => Err(EngineError::UnknownAnimation),
    }
}

/// The state, and the size of its image, that a change or spawn command asks for.
pub open spec fn resolve(script: Script, character: Seq<char>, state: Seq<char>) -> Result<(crate::character::CharacterState, (i64, i64)), EngineError> {
    match state_of(script.characters.0@, character, state) {
        None => Err(EngineError::UnknownState),
        Some(cs) => match lookup(script.images@, cs.image@) {
            None => Err(EngineError::UnknownImage),
            Some(size) => Ok((cs, size)),
        },
    }
}

/// The jump to `label`.
pub open spec fn jump_spec(script: Script, sc: Scene, label: Label) -> Result<Scene, EngineError> {
    match lookup(script.labels@, label.0@) {
        None => Err(EngineError::UnknownLabel),
        Some(t) => Ok(Scene { next_target: Some(t.0 as int), ..sc }),
    }
}

/// What one command does to the scene.
pub open spec fn execute_spec(script: Script, settings: Settings, sc: Scene, cmd: Command) -> Result<Scene, EngineError> {
    match cmd {
        Command::Dialogue(name, text) => Ok(Scene {
            text: Some(hidden(text)),
            character: match name {
                Some(n) => Some(shown(n.0)),
                None => None,
            },
            ..sc
        }),
        Command::Diverge(b) => Ok(Scene { branches: b@, ..sc }),
        Command::Show(n, d) => match index_of(sc.stage, n.0@) {
            None => Err(EngineError::UnknownInstance),
            Some(k) => match d {
                None => Ok(set_instance(sc, k, Instance { visible: true, ..sc.stage[k].1 })),
                Some(d) => match visibility_animation(script.animations.showing@, d, true, settings) {
                    Err(e) => Err(e),
                    Ok(a) => Ok(set_instance(sc, k, animated(sc.stage[k].1, a))),
                },
            },
        },
        Command::Hide(n, d) => match index_of(sc.stage, n.0@) {
            None => Err(EngineError::UnknownInstance),
            Some(k) => match d {
                None => Ok(set_instance(sc, k, Instance { visible: false, ..sc.stage[k].1 })),
                Some(d) => match visibility_animation(script.animations.hiding@, d, false, settings) {
                    Err(e) => Err(e),
                    Ok(a) => Ok(set_instance(sc, k, animated(sc.stage[k].1, a))),
                },
            },
        },
        Command::Position(n, p, d) => match index_of(sc.stage, n.0@) {
            None => Err(EngineError::UnknownInstance),
            Some(k) => match d {
                None => Ok(set_instance(sc, k, Instance { position: p, ..sc.stage[k].1 })),
                Some(d) => match lookup(script.animations.position@, d.name@) {
                    Some(Producer::Glide) => Ok(set_instance(sc, k, animated(sc.stage[k].1, glide_move_of(p, d.arguments@)))),
                    _ => Err(EngineError::UnknownAnimation),
                },
            },
        },
        Command::Kill(n, d) => match d {
            None => Ok(Scene { stage: remove_spec(sc.stage, n.0@), ..sc }),
            Some(d) => match index_of(sc.stage, n.0@) {
                None => Err(EngineError::UnknownInstance),
                Some(k) => match visibility_animation(script.animations.kill@, d, false, settings) {
                    Err(e) => Err(e),
                    Ok(a) => Ok(set_instance(sc, k, Instance { to_be_killed: true, ..animated(sc.stage[k].1, a) })),
                },
            },
        },
        Command::Change(n, st, d) => match index_of(sc.stage, n.0@) {
            None => Err(EngineError::UnknownInstance),
            Some(k) => {
                let e = sc.stage[k].1;
                match resolve(script, e.character.0@, st.0@) {
                    Err(err) => Err(err),
                    Ok((cs, size)) => match d {
                        None => Ok(set_instance(sc, k, instance_of(e.character, cs, size, e.position))),
                        Some(d) => match lookup(script.animations.change@, d.name@) {
                            Some(Producer::Flip) => Ok(set_instance(sc, k, animated(e, flip_of(ChangeAnimation {
                                new_centre_position: centre_of(cs, size),
                                new_image: cs.image,
                                new_image_size: size,
                                new_scale: cs.scale,
                                arguments: d.arguments,
                            })))),
                            _ => Err(EngineError::UnknownAnimation),
                        },
                    },
                }
            },
        },
        Command::Spawn(c, st, p, name, d) => match resolve(script, c.0@, st.0@) {
            Err(err) => Err(err),
            Ok((cs, size)) => {
                let i = instance_of(c, cs, size, p);
                let key = match name {
                    Some(n) => n.0,
                    None => c.0,
                };
                match d {
                    None => Ok(Scene { stage: insert_spec(sc.stage, key, i), ..sc }),
                    Some(d) => match visibility_animation(script.animations.spawn@, d, true, settings) {
                        Err(e) => Err(e),
                        Ok(a) => Ok(Scene { stage: insert_spec(sc.stage, key, Instance { animation: Some(a), ..i }), ..sc }),
                    },
                }
            },
        },
        Command::Stage(path) => match lookup(script.images@, path@) {
            None => Err(EngineError::UnknownImage),
            Some(_) => Ok(Scene { background: Some(path), ..sc }),
        },
        Command::Music(path) => match lookup(script.audio@, path@) {
            None => Err(EngineError::UnknownAudio),
            Some(_) => Ok(Scene { music: Some(path), ..sc }),
        },
        Command::Sound(path) => match lookup(script.audio@, path@) {
            None => Err(EngineError::UnknownAudio),
            Some(_) => Ok(Scene { sounds: sc.sounds.push(path), ..sc }),
        },
        Command::Jump(l) => jump_spec(script, sc, l),
        Command::If(f, l) => if lookup(sc.flags, f.0@) is Some {
            jump_spec(script, sc, l)
        } else {
            Ok(sc)
        },
        Command::Flag(f) => Ok(Scene { flags: insert_spec(sc.flags, f.0, ()), ..sc }),
        Command::Unflag(f) => Ok(Scene { flags: remove_spec(sc.flags, f.0@), ..sc }),
        Command::Pause => Ok(sc),
    }
}

} // verus!

verus! {

/// Whether the command ended as `expected` says: with the scene it gives, or
/// with its error.
pub open spec fn settled(r: Result<(), EngineError>, after: Scene, expected: Result<Scene, EngineError>) -> bool {
    match expected {
        Ok(sc) => r is Ok && after == sc,
        Err(e) => r == Err::<(), EngineError>(e),
    }
}

fn take_at(stage: &mut Stage, k: usize) -> (r: (String, Instance))
    requires
        k < old(stage).0@.len(),
        old(stage).wf(),
    ensures
        r == old(stage).0@[k as int],
        final(stage).0@ == old(stage).0@.remove(k as int),
        r.1.wf(),
{
    assert(old(stage).0@[k as int].1.wf());
    stage.0.remove(k)
}

fn put_at(stage: &mut Stage, k: usize, e: (String, Instance), Ghost(before): Ghost<Seq<(String, Instance)>>)
    requires
        k < before.len(),
        old(stage).0@ == before.remove(k as int),
        stage_wf(before),
        e.1.wf(),
        e.0 == before[k as int].0,
    ensures
        final(stage).0@ == before.update(k as int, e),
        final(stage).wf(),
{
    stage.0.insert(k, e);
    assert(stage.0@ =~= before.update(k as int, e));
    assert forall|i: int| 0 <= i < stage.0@.len() implies (#[trigger] stage.0@[i]).1.wf() by {
        if i != k {
            assert(stage.0@[i] == before[i]);
        }
    }
}

fn visibility(which: &Vec<(String, Producer)>, d: &AnimationDeclaration, showing: bool, settings: &Settings) -> (r: Result<Animation, EngineError>)
    requires
        d.wf(),
        settings.wf(),
    ensures
        r == visibility_animation(which@, *d, showing, *settings),
        r matches Ok(a) ==> a.wf(),
{
    proof {
        crate::animation::lemma_produced_wf(d.arguments@, showing, (0, 0), (settings.width, settings.height));
    }
    match AnimationMap::producer(which, &d.name) {
        Some(Producer::Glide) => Ok(crate::animation::glide_visibility(showing, &d.arguments, (settings.width, settings.height))),
        Some(Producer::Fade) => Ok(crate::animation::fade(showing, &d.arguments)),
        _ => Err(EngineError::UnknownAnimation),
    }
}

fn resolve_state<'a>(script: &'a Script, character: &CharacterName, state: &StateName) -> (r: Result<(&'a crate::character::CharacterState, (i64, i64)), EngineError>)
    requires
        script.wf(),
    ensures
        match (r, resolve(*script, character.0@, state.0@)) {
            (Ok((a, b)), Ok((c, d))) => *a == c && b == d,
            (Err(e), Err(f)) => e == f,
            _ => false,
        },
        r matches Ok((cs, size)) ==> cs.wf() && 0 <= size.0 <= SIZE_LIMIT && 0 <= size.1 <= SIZE_LIMIT,
{
    match script.characters.get(character, state) {
        None => Err(EngineError::UnknownState),
        Some(cs) => {
            assert(state_of(script.characters.0@, character.0@, state.0@) matches Some(st) ==> st.wf());
            proof {
                lemma_index_of(script.images@, cs.image@);
            }
            match find(&script.images, &cs.image) {
                None => Err(EngineError::UnknownImage),
                Some(i) => {
                    assert(0 <= script.images@[i as int].1.0 <= SIZE_LIMIT);
                    Ok((cs, script.images[i].1))
                },
            }
        },
    }
}

impl ChangeAnimation {
    /// The arguments of a change of `character` to `state`: the image of that
    /// state, the size of the image, its centre and its scale.
    pub fn new(arguments: Vec<Option<i64>>, character: &CharacterName, script: &Script, state: &StateName) -> (r: Result<Self, EngineError>)
        requires
            script.wf(),
        ensures
            match resolve(*script, character.0@, state.0@) {
                Err(e) => r == Err::<ChangeAnimation, EngineError>(e),
                Ok((cs, size)) => r matches Ok(c) && c.new_centre_position == centre_of(cs, size) && c.new_image == cs.image
                    && c.new_image_size == size && c.new_scale == cs.scale && c.arguments == arguments,
            },
    {
        let (cs, size) = match resolve_state(script, character, state) {
            Err(e) => {
                return Err(e);
            },
            Ok(v) => v,
        };
        Ok(ChangeAnimation {
            new_centre_position: centre(cs, size),
            new_image: cs.image.clone(),
            new_image_size: size,
            new_scale: cs.scale,
            arguments,
        })
    }
}

fn jump(script: &Script, state: &mut ScriptState, render: &Render, label: &Label) -> (r: Result<(), EngineError>)
    ensures
        settled(r, scene_of(final(state), render), jump_spec(*script, scene_of(old(state), render), *label)),
{
    proof {
        lemma_index_of(script.labels@, label.0@);
    }
    match find(&script.labels, &label.0) {
        None => Err(EngineError::UnknownLabel),
        Some(i) => {
            state.next_target = Some(script.labels[i].1);
            Ok(())
        },
    }
}

fn copy_branches(b: &Vec<(String, Label)>) -> (r: Vec<(String, Label)>)
    ensures
        r@ == b@,
{
    let mut r: Vec<(String, Label)> = Vec::new();
    let mut i: usize = 0;
    while i < b.len()
        invariant
            i <= b.len(),
            r@ == b@.subrange(0, i as int),
        decreases b.len() - i,
    {
        r.push((b[i].0.clone(), b[i].1.clone()));
        assert(b@.subrange(0, i + 1) =~= b@.subrange(0, i as int).push(b@[i as int]));
        i = i + 1;
    }
    assert(b@.subrange(0, b.len() as int) =~= b@);
    r
}


impl Command {
    /// Carries out the command on the state and the render.
    pub fn execute(&self, state: &mut ScriptState, render: &mut Render, script: &Script, settings: &Settings) -> (r: Result<(), EngineError>)
        requires
            self.wf(),
            script.wf(),
            settings.wf(),
            old(render).wf(),
        ensures
            settled(r, scene_of(final(state), final(render)), execute_spec(*script, *settings, scene_of(old(state), old(render)), *self)),
            r is Ok ==> final(render).wf(),
    {
        let ghost before = render.stage.0@;
        match self {
            Command::Dialogue(name, text) => {
                render.text = Some(RenderText::empty(text.clone()));
                render.character = match name {
                    Some(n) => Some(RenderText::new(n.0.clone())),
                    None => None,
                };
                Ok(())
            },
            Command::Diverge(b) => {
                render.branches = copy_branches(b);
                Ok(())
            },
            Command::Show(n, d) | Command::Hide(n, d) => {
                let showing = match self {
                    Command::Show(_, _) => true,
                    _ => false,
                };
                proof {
                    lemma_index_of(before, n.0@);
                }
                let k = match find(&render.stage.0, &n.0) {
                    None => {
                        return Err(EngineError::UnknownInstance);
                    },
                    Some(k) => k,
                };
                match d {
                    None => {
                        let (key, mut inst) = take_at(&mut render.stage, k);
                        inst.visible = showing;
                        put_at(&mut render.stage, k, (key, inst), Ghost(before));
                        Ok(())
                    },
                    Some(d) => {
                        let which = if showing { &script.animations.showing } else { &script.animations.hiding };
                        match visibility(which, d, showing, settings) {
                            Err(e) => Err(e),
                            Ok(a) => {
                                let (key, mut inst) = take_at(&mut render.stage, k);
                                inst.add_animation(a);
                                put_at(&mut render.stage, k, (key, inst), Ghost(before));
                                Ok(())
                            },
                        }
                    },
                }
            },
            Command::Position(n, p, d) => {
                proof {
                    lemma_index_of(before, n.0@);
                }
                let k = match find(&render.stage.0, &n.0) {
                    None => {
                        return Err(EngineError::UnknownInstance);
                    },
                    Some(k) => k,
                };
                match d {
                    None => {
                        let (key, mut inst) = take_at(&mut render.stage, k);
                        inst.position = *p;
                        put_at(&mut render.stage, k, (key, inst), Ghost(before));
                        Ok(())
                    },
                    Some(d) => match AnimationMap::producer(&script.animations.position, &d.name) {
                        Some(Producer::Glide) => {
                            proof {
                                crate::animation::lemma_produced_wf(d.arguments@, true, *p, (settings.width, settings.height));
                            }
                            let a = Glide.for_position(PositionAnimation { destination: *p, arguments: crate::animation::copy_arguments(&d.arguments) });
                            let (key, mut inst) = take_at(&mut render.stage, k);
                            inst.add_animation(a);
                            put_at(&mut render.stage, k, (key, inst), Ghost(before));
                            Ok(())
                        },
                        _ => Err(EngineError::UnknownAnimation),
                    },
                }
            },
            Command::Kill(n, d) => match d {
                None => {
                    render.stage.remove(n);
                    Ok(())
                },
                Some(d) => {
                    proof {
                        lemma_index_of(before, n.0@);
                    }
                    let k = match find(&render.stage.0, &n.0) {
                        None => {
                            return Err(EngineError::UnknownInstance);
                        },
                        Some(k) => k,
                    };
                    match visibility(&script.animations.kill, d, false, settings) {
                        Err(e) => Err(e),
                        Ok(a) => {
                            let (key, mut inst) = take_at(&mut render.stage, k);
                            inst.add_animation(a);
                            inst.to_be_killed = true;
                            put_at(&mut render.stage, k, (key, inst), Ghost(before));
                            Ok(())
                        },
                    }
                },
            },
            Command::Change(n, st, d) => {
                proof {
                    lemma_index_of(before, n.0@);
                }
                let k = match find(&render.stage.0, &n.0) {
                    None => {
                        return Err(EngineError::UnknownInstance);
                    },
                    Some(k) => k,
                };
                let character = render.stage.0[k].1.character.clone();
                let (cs, size) = match resolve_state(script, &character, st) {
                    Err(e) => {
                        return Err(e);
                    },
                    Ok(v) => v,
                };
                assert(before[k as int].1.wf());
                match d {
                    None => {
                        let (key, inst) = take_at(&mut render.stage, k);
                        let fresh = Instance::new(character, cs, size, inst.position);
                        put_at(&mut render.stage, k, (key, fresh), Ghost(before));
                        Ok(())
                    },
                    Some(d) => match AnimationMap::producer(&script.animations.change, &d.name) {
                        Some(Producer::Flip) => {
                            let c = match ChangeAnimation::new(crate::animation::copy_arguments(&d.arguments), &character, script, st) {
                                Ok(c) => c,
                                Err(e) => {
                                    return Err(e);
                                },
                            };
                            proof {
                                crate::character::lemma_centre(*cs, size);
                            }
                            proof {
                                crate::animation::lemma_flip_wf(c);
                            }
                            let a = Flip.for_change(c);
                            let (key, mut inst) = take_at(&mut render.stage, k);
                            inst.add_animation(a);
                            put_at(&mut render.stage, k, (key, inst), Ghost(before));
                            Ok(())
                        },
                        _ => Err(EngineError::UnknownAnimation),
                    },
                }
            },
            Command::Spawn(c, st, p, name, d) => {
                let (cs, size) = match resolve_state(script, c, st) {
                    Err(e) => {
                        return Err(e);
                    },
                    Ok(v) => v,
                };
                let mut inst = Instance::new(c.clone(), cs, size, *p);
                match d {
                    None => {},
                    Some(d) => match visibility(&script.animations.spawn, d, true, settings) {
                        Err(e) => {
                            return Err(e);
                        },
                        Ok(a) => {
                            inst.animation = Some(a);
                        },
                    },
                }
                let key = match name {
                    Some(n) => n.clone(),
                    None => InstanceName(c.0.clone()),
                };
                render.stage.spawn(key, inst);
                Ok(())
            },
            Command::Stage(path) => {
                proof {
                    lemma_index_of(script.images@, path@);
                }
                match find(&script.images, path) {
                    None => Err(EngineError::UnknownImage),
                    Some(_) => {
                        render.background = Some(path.clone());
                        Ok(())
                    },
                }
            },
            Command::Music(path) => {
                proof {
                    lemma_index_of(script.audio@, path@);
                }
                match find(&script.audio, path) {
                    None => Err(EngineError::UnknownAudio),
                    Some(_) => {
                        state.music = Some(path.clone());
                        Ok(())
                    },
                }
            },
            Command::Sound(path) => {
                proof {
                    lemma_index_of(script.audio@, path@);
                }
                match find(&script.audio, path) {
                    None => Err(EngineError::UnknownAudio),
                    Some(_) => {
                        state.sounds.push(path.clone());
                        Ok(())
                    },
                }
            },
            Command::Jump(l) => jump(script, state, render, l),
            Command::If(f, l) => {
                proof {
                    lemma_index_of(state.flags@, f.0@);
                }
                if find(&state.flags, &f.0).is_some() {
                    jump(script, state, render, l)
                } else {
                    Ok(())
                }
            },
            Command::Flag(f) => {
                insert(&mut state.flags, f.0.clone(), ());
                Ok(())
            },
            Command::Unflag(f) => {
                remove(&mut state.flags, &f.0);
                Ok(())
            },
            Command::Pause => Ok(()),
        }
    }
}


/// The state of a run as the laws of the engine see it.
pub struct World {
    pub count: int,
    pub divergences: Seq<Label>,
    pub scene: Scene,
}

/// A run before its first command.
pub open spec fn fresh_world() -> World {
    World {
        count: 0,
        divergences: Seq::empty(),
        scene: Scene {
            target: 0,
            next_target: Some(0),
            flags: Seq::empty(),
            music: None,
            sounds: Seq::empty(),
            background: None,
            stage: Seq::empty(),
            character: None,
            text: None,
            branches: Seq::empty(),
        },
    }
}

pub open spec fn settled_world(r: Result<(), EngineError>, after: World, expected: Result<World, EngineError>) -> bool {
    match expected {
        Ok(w) => r is Ok && after == w,
        Err(e) => r == Err::<(), EngineError>(e),
    }
}

/// The cursor of the next command to run.
pub open spec fn next_cursor(sc: Scene) -> int {
    match sc.next_target {
        Some(t) => t,
        None => sc.target + 1,
    }
}

/// The run loop: commands run one after another, each counted, until one
/// that breaks; `fuel` bounds how many may run.
pub open spec fn run_spec(script: Script, settings: Settings, w: World, fuel: nat) -> Result<World, EngineError>
    decreases fuel,
{
    if fuel == 0 {
        Err(EngineError::Runaway)
    } else if w.count >= u64::MAX {
        Err(EngineError::CountOverflow)
    } else {
        let t = next_cursor(w.scene);
        if t < 0 || t >= script.commands@.len() {
            Err(EngineError::OutOfRange)
        } else {
            let sc = Scene { target: t, next_target: None, ..w.scene };
            match execute_spec(script, settings, sc, script.commands@[t]) {
                Err(e) => Err(e),
                Ok(sc2) => {
                    let w2 = World { count: w.count + 1, scene: sc2, ..w };
                    if script.commands@[t].breaks() {
                        Ok(w2)
                    } else {
                        run_spec(script, settings, w2, (fuel - 1) as nat)
                    }
                },
            }
        }
    }
}

/// Whether a dialogue text is only partly shown.
pub open spec fn unfinished(sc: Scene) -> bool {
    sc.text matches Some(t) && !t.done()
}

/// The advance protocol: every animation is finished; then a partly shown
/// dialogue is shown whole, or else the run loop goes on to the next break.
pub open spec fn advance_spec(script: Script, settings: Settings, w: World) -> Result<World, EngineError> {
    let sc = Scene { stage: stage_finished(w.scene.stage), ..w.scene };
    if unfinished(sc) {
        let t = sc.text->Some_0;
        Ok(World { scene: Scene { text: Some(RenderText { end: t.length, ..t }), ..sc }, ..w })
    } else {
        run_spec(script, settings, World { scene: sc, ..w }, RUN_LIMIT as nat)
    }
}

/// Choosing a branch: the label is recorded, its target becomes the next
/// jump, the buttons go, and the engine advances.
pub open spec fn diverge_spec(script: Script, settings: Settings, w: World, label: Label) -> Result<World, EngineError> {
    match lookup(script.labels@, label.0@) {
        None => Err(EngineError::UnknownLabel),
        Some(t) => advance_spec(script, settings, World {
            divergences: w.divergences.push(label),
            scene: Scene { next_target: Some(t.0 as int), branches: Seq::empty(), ..w.scene },
            ..w
        }),
    }
}

pub open spec fn is_diverge(c: Command) -> bool {
    c matches Command::Diverge(_)
}

/// Whether the cursor stands on a divergence.
pub open spec fn at_diverge(script: Script, w: World) -> bool {
    0 <= w.scene.target < script.commands@.len() && is_diverge(script.commands@[w.scene.target])
}

/// How far a resume has to go to reach `goal` commands.
pub open spec fn distance(w: World, goal: int) -> int {
    if w.count < goal {
        2 * (goal - w.count) + if unfinished(w.scene) { 1int } else { 0int }
    } else {
        0
    }
}

/// One step of the resume loop: at a divergence the next recorded label is
/// chosen, elsewhere the engine advances. Gives the world and the labels left.
pub open spec fn resume_step(script: Script, settings: Settings, w: World, pending: Seq<Label>) -> Result<(World, Seq<Label>), EngineError> {
    if at_diverge(script, w) {
        if pending.len() == 0 {
            Err(EngineError::InconsistentHistory)
        } else {
            match diverge_spec(script, settings, w, pending[0]) {
                Err(e) => Err(e),
                Ok(w2) => Ok((w2, pending.drop_first())),
            }
        }
    } else {
        match advance_spec(script, settings, w) {
            Err(e) => Err(e),
            Ok(w2) => Ok((w2, pending)),
        }
    }
}

/// The resume loop from `w`, until `goal` commands have run. Gives the world
/// and the labels left over.
pub open spec fn resume_from(script: Script, settings: Settings, w: World, pending: Seq<Label>, goal: int) -> Result<(World, Seq<Label>), EngineError>
    decreases distance(w, goal),
{
    if w.count >= goal {
        Ok((w, pending))
    } else {
        match resume_step(script, settings, w, pending) {
            Err(e) => Err(e),
            Ok((w2, rest)) => if distance(w2, goal) < distance(w, goal) {
                resume_from(script, settings, w2, rest, goal)
            } else {
                Err(EngineError::InconsistentHistory)
            },
        }
    }
}

/// Every step of the resume loop brings it closer to its goal.
pub proof fn lemma_resume_step(script: Script, settings: Settings, w: World, pending: Seq<Label>, goal: int)
    requires
        w.count < goal,
    ensures
        resume_from(script, settings, w, pending, goal) == match resume_step(script, settings, w, pending) {
            Err(e) => Err(e),
            Ok((w2, rest)) => resume_from(script, settings, w2, rest, goal),
        },
        resume_step(script, settings, w, pending) matches Ok((w2, _)) ==> distance(w2, goal) < distance(w, goal),
{
    lemma_advance_progress(script, settings, w);
    if at_diverge(script, w) && pending.len() > 0 {
        let label = pending[0];
        match lookup(script.labels@, label.0@) {
            Some(t) => {
                let d = World {
                    divergences: w.divergences.push(label),
                    scene: Scene { next_target: Some(t.0 as int), branches: Seq::empty(), ..w.scene },
                    ..w
                };
                lemma_advance_progress(script, settings, d);
            },
            None => {},
        }
    }
}

/// Resuming a run from its history: the resume loop from a fresh run, which
/// must use up every recorded label.
pub open spec fn resume_spec(script: Script, settings: Settings, count: int, divergences: Seq<Label>) -> Result<World, EngineError> {
    match resume_from(script, settings, fresh_world(), divergences, count) {
        Err(e) => Err(e),
        Ok((w, rest)) => if rest.len() == 0 {
            Ok(w)
        } else {
            Err(EngineError::InconsistentHistory)
        },
    }
}

/// The run loop counts one for each command it runs, and leaves the recorded
/// divergences alone.
pub proof fn lemma_run_counts(script: Script, settings: Settings, w: World, fuel: nat)
    ensures
        run_spec(script, settings, w, fuel) matches Ok(w2) ==> w2.count > w.count && w2.divergences == w.divergences,
    decreases fuel,
{
    if fuel > 0 && w.count < u64::MAX {
        let t = next_cursor(w.scene);
        if 0 <= t < script.commands@.len() {
            let sc = Scene { target: t, next_target: None, ..w.scene };
            if let Ok(sc2) = execute_spec(script, settings, sc, script.commands@[t]) {
                let w2 = World { count: w.count + 1, scene: sc2, ..w };
                lemma_run_counts(script, settings, w2, (fuel - 1) as nat);
            }
        }
    }
}

/// Each advance either shows a partly shown dialogue whole, counting
/// nothing, or runs at least one command; either way a resume gets closer
/// to its goal.
pub proof fn lemma_advance_progress(script: Script, settings: Settings, w: World)
    ensures
        advance_spec(script, settings, w) matches Ok(w2) ==> {
            &&& w2.divergences == w.divergences
            &&& (unfinished(w.scene) ==> w2.count == w.count && !unfinished(w2.scene))
            &&& (!unfinished(w.scene) ==> w2.count > w.count)
            &&& forall|goal: int| w.count < goal ==> #[trigger] distance(w2, goal) < distance(w, goal)
        },
{
    let sc = Scene { stage: stage_finished(w.scene.stage), ..w.scene };
    if !unfinished(sc) {
        lemma_run_counts(script, settings, World { scene: sc, ..w }, RUN_LIMIT as nat);
    }
}


/// A running script: what it is, where it stands, and what it shows.
#[derive(Debug)]
pub struct GameState {
    pub script: Script,
    pub settings: Settings,
    pub history: History,
    pub state: ScriptState,
    pub render: Render,
}

impl GameState {
    pub open spec fn world(&self) -> World {
        World {
            count: self.history.execution_count as int,
            divergences: self.history.divergences@,
            scene: scene_of(&self.state, &self.render),
        }
    }

    pub open spec fn wf(&self) -> bool {
        &&& self.script.wf()
        &&& self.settings.wf()
        &&& self.render.wf()
    }

    /// A run of `script` before its first command.
    pub fn fresh(script: Script, settings: Settings) -> (r: Self)
        requires
            script.wf(),
            settings.wf(),
        ensures
            r.wf(),
            r.world() == fresh_world(),
            r.script == script,
            r.settings == settings,
    {
        let g = GameState { script, settings, history: History::new(), state: ScriptState::new(), render: Render::new() };
        assert(g.world().scene.flags =~= Seq::<(String, ())>::empty());
        assert(g.world().scene.sounds =~= Seq::<String>::empty());
        assert(g.world().scene.stage =~= Seq::<(String, Instance)>::empty());
        assert(g.world().scene.branches =~= Seq::<(String, Label)>::empty());
        assert(g.world().divergences =~= Seq::<Label>::empty());
        g
    }

    /// Starts a run of `script`: a fresh run that advances once.
    pub fn new(script: Script, settings: Settings) -> (r: Result<Self, EngineError>)
        requires
            script.wf(),
            settings.wf(),
        ensures
            match advance_spec(script, settings, fresh_world()) {
                Ok(w) => r matches Ok(g) && g.world() == w && g.wf(),
                Err(e) => r matches Err(f) && e == f,
            },
    {
        let mut g = GameState::fresh(script, settings);
        match g.advance() {
            Ok(()) => Ok(g),
            Err(e) => Err(e),
        }
    }

    /// The run loop: runs commands until one breaks.
    fn run(&mut self) -> (r: Result<(), EngineError>)
        requires
            old(self).wf(),
        ensures
            settled_world(r, final(self).world(), run_spec(old(self).script, old(self).settings, old(self).world(), RUN_LIMIT as nat)),
            final(self).script == old(self).script,
            final(self).settings == old(self).settings,
            r is Ok ==> final(self).wf(),
    {
        let ghost expected = run_spec(self.script, self.settings, self.world(), RUN_LIMIT as nat);
        let mut fuel: u64 = RUN_LIMIT;
        let n = self.script.commands.len();
        loop
            invariant
                self.wf(),
                self.script == old(self).script,
                self.settings == old(self).settings,
                n == self.script.commands@.len(),
                run_spec(self.script, self.settings, self.world(), fuel as nat) == expected,
                expected == run_spec(old(self).script, old(self).settings, old(self).world(), RUN_LIMIT as nat),
            decreases fuel,
        {
            if fuel == 0 {
                return Err(EngineError::Runaway);
            }
            if self.history.execution_count == u64::MAX {
                return Err(EngineError::CountOverflow);
            }
            let t = match self.state.next_target {
                Some(t) => t.0,
                None => {
                    if self.state.target.0 >= n {
                        return Err(EngineError::OutOfRange);
                    }
                    self.state.target.0 + 1
                },
            };
            if t >= n {
                return Err(EngineError::OutOfRange);
            }
            self.history.execution_count = self.history.execution_count + 1;
            self.state.target = Target(t);
            self.state.next_target = None;
            let command = &self.script.commands[t];
            assert(self.script.commands@[t as int].wf());
            match command.execute(&mut self.state, &mut self.render, &self.script, &self.settings) {
                Err(e) => {
                    return Err(e);
                },
                Ok(()) => {},
            }
            if command.is_breaking() {
                return Ok(());
            }
            fuel = fuel - 1;
        }
    }

    /// The advance protocol: finishes every animation; then shows a partly
    /// shown dialogue whole, or else runs commands up to the next break.
    pub fn advance(&mut self) -> (r: Result<(), EngineError>)
        requires
            old(self).wf(),
        ensures
            settled_world(r, final(self).world(), advance_spec(old(self).script, old(self).settings, old(self).world())),
            final(self).script == old(self).script,
            final(self).settings == old(self).settings,
            r is Ok ==> final(self).wf(),
    {
        self.render.stage.finish_animation();
        let unfinished = match &self.render.text {
            Some(t) => !t.is_finished(),
            None => false,
        };
        if unfinished {
            let mut t = self.render.text.take().unwrap();
            t.finish();
            self.render.text = Some(t);
            return Ok(());
        }
        self.run()
    }

    /// Takes the branch to `label`: records it, jumps there and advances.
    pub fn diverge(&mut self, label: &Label) -> (r: Result<(), EngineError>)
        requires
            old(self).wf(),
        ensures
            settled_world(r, final(self).world(), diverge_spec(old(self).script, old(self).settings, old(self).world(), *label)),
            final(self).script == old(self).script,
            final(self).settings == old(self).settings,
            r is Ok ==> final(self).wf(),
    {
        proof {
            lemma_index_of(self.script.labels@, label.0@);
        }
        let target = match find(&self.script.labels, &label.0) {
            None => {
                return Err(EngineError::UnknownLabel);
            },
            Some(i) => self.script.labels[i].1,
        };
        self.history.divergences.push(label.clone());
        self.state.next_target = Some(target);
        self.render.branches = Vec::new();
        assert(self.render.branches@ =~= Seq::<(String, Label)>::empty());
        self.advance()
    }

    /// Whether the cursor stands on a divergence.
    pub fn at_diverge(&self) -> (r: bool)
        ensures
            r == at_diverge(self.script, self.world()),
    {
        let t = self.state.target.0;
        t < self.script.commands.len() && matches!(self.script.commands[t], Command::Diverge(_))
    }

    /// Brings a run back from its history: from a fresh run, chooses the next
    /// recorded label at each divergence and advances elsewhere, until as many
    /// commands have run as the history counts; every label must be used.
    pub fn load(script: Script, settings: Settings, history: History) -> (r: Result<Self, EngineError>)
        requires
            script.wf(),
            settings.wf(),
        ensures
            match resume_spec(script, settings, history.execution_count as int, history.divergences@) {
                Ok(w) => r matches Ok(g) && g.world() == w && g.wf() && g.script == script && g.settings == settings,
                Err(e) => r matches Err(f) && e == f,
            },
    {
        let goal = history.execution_count;
        let pending = history.divergences;
        let ghost all = pending@;
        assert(all == history.divergences@);
        let mut next: usize = 0;
        let mut g = GameState::fresh(script, settings);
        assert(all.subrange(0, all.len() as int) =~= all);
        while g.history.execution_count < goal
            invariant
                g.wf(),
                g.script == script,
                g.settings == settings,
                pending@ == all,
                all == history.divergences@,
                goal == history.execution_count,
                next <= pending@.len(),
                resume_from(script, settings, g.world(), all.subrange(next as int, all.len() as int), goal as int)
                    == resume_from(script, settings, fresh_world(), all, goal as int),
            decreases distance(g.world(), goal as int),
        {
            let ghost w = g.world();
            let ghost rest = all.subrange(next as int, all.len() as int);
            proof {
                lemma_resume_step(script, settings, w, rest, goal as int);
            }
            if g.at_diverge() {
                if next >= pending.len() {
                    assert(rest.len() == 0);
                    return Err(EngineError::InconsistentHistory);
                }
                let label = pending[next].clone();
                assert(label == rest[0]);
                assert(rest.drop_first() =~= all.subrange(next + 1, all.len() as int));
                match g.diverge(&label) {
                    Err(e) => {
                        return Err(e);
                    },
                    Ok(()) => {},
                }
                next = next + 1;
            } else {
                match g.advance() {
                    Err(e) => {
                        return Err(e);
                    },
                    Ok(()) => {},
                }
            }
        }
        if next < pending.len() {
            return Err(EngineError::InconsistentHistory);
        }
        assert(all.subrange(next as int, all.len() as int) =~= Seq::<Label>::empty());
        Ok(g)
    }
}


impl GameState {
    /// One frame, `dt` long: every animation on the stage runs on.
    pub fn update(&mut self, dt: i64)
        requires
            old(self).wf(),
            0 <= dt <= TIME_LIMIT,
        ensures
            final(self).wf(),
            final(self).world() == (World {
                scene: Scene { stage: crate::character::stage_updated(old(self).world().scene.stage, dt as int), ..old(self).world().scene },
                ..old(self).world()
            }),
            final(self).script == old(self).script,
            final(self).settings == old(self).settings,
    {
        self.render.stage.update(dt);
    }

    /// Shows one more character of the dialogue.
    pub fn step_text(&mut self)
        requires
            old(self).wf(),
        ensures
            final(self).wf(),
            final(self).world() == (World {
                scene: Scene {
                    text: match old(self).render.text {
                        Some(t) => Some(crate::interface::stepped(t)),
                        None => None,
                    },
                    ..old(self).world().scene
                },
                ..old(self).world()
            }),
            final(self).script == old(self).script,
            final(self).settings == old(self).settings,
    {
        if self.render.text.is_some() {
            let mut t = self.render.text.take().unwrap();
            t.step();
            self.render.text = Some(t);
        }
    }

    /// A click of the player. On a divergence, `hit` is the branch button
    /// under the pointer, if any, and only a hit chooses; elsewhere a click
    /// advances.
    pub fn click(&mut self, hit: Option<usize>) -> (r: Result<(), EngineError>)
        requires
            old(self).wf(),
        ensures
            final(self).script == old(self).script,
            final(self).settings == old(self).settings,
            r is Ok ==> final(self).wf(),
            if !at_diverge(old(self).script, old(self).world()) {
                settled_world(r, final(self).world(), advance_spec(old(self).script, old(self).settings, old(self).world()))
            } else {
                match hit {
                    Some(i) if i < old(self).render.branches@.len() => settled_world(r, final(self).world(),
                        diverge_spec(old(self).script, old(self).settings, old(self).world(), old(self).render.branches@[i as int].1)),
                    _ => r is Ok && final(self).world() == old(self).world(),
                }
            },
    {
        if !self.at_diverge() {
            return self.advance();
        }
        match hit {
            Some(i) => {
                if i < self.render.branches.len() {
                    let label = self.render.branches[i].1.clone();
                    self.diverge(&label)
                } else {
                    Ok(())
                }
            },
            None => Ok(()),
        }
    }

    /// Drops the sound effects that have stopped: `playing[i]` tells whether
    /// the `i`-th one still plays.
    pub fn keep_sounds(&mut self, playing: &Vec<bool>)
        requires
            old(self).wf(),
            playing@.len() == old(self).state.sounds@.len(),
        ensures
            final(self).wf(),
            final(self).script == old(self).script,
            final(self).settings == old(self).settings,
            final(self).state.sounds@ == kept(old(self).state.sounds@, playing@),
    {
        let mut rest: Vec<String> = Vec::new();
        std::mem::swap(&mut rest, &mut self.state.sounds);
        let ghost all = rest@;
        let mut kept_sounds: Vec<String> = Vec::new();
        let mut i: usize = 0;
        while i < playing.len()
            invariant
                all.len() == playing@.len(),
                i <= playing@.len(),
                kept_sounds@ == kept(all.subrange(0, i as int), playing@.subrange(0, i as int)),
                rest@.len() == all.len(),
                forall|j: int| i <= j < all.len() ==> rest@[j] == all[j],
            decreases playing.len() - i,
        {
            let mut s = String::new();
            rest.set_and_swap(i, &mut s);
            assert(all.subrange(0, i + 1).drop_last() =~= all.subrange(0, i as int));
            assert(playing@.subrange(0, i + 1).drop_last() =~= playing@.subrange(0, i as int));
            if playing[i] {
                kept_sounds.push(s);
            }
            i = i + 1;
        }
        assert(all.subrange(0, i as int) =~= all);
        assert(playing@.subrange(0, i as int) =~= playing@);
        self.state.sounds = kept_sounds;
    }
}

/// The sounds whose flag in `playing` is set, in order.
pub open spec fn kept(sounds: Seq<String>, playing: Seq<bool>) -> Seq<String>
    decreases sounds.len(),
{
    if sounds.len() == 0 || playing.len() == 0 {
        Seq::empty()
    } else {
        let rest = kept(sounds.drop_last(), playing.drop_last());
        if playing.last() { rest.push(sounds.last()) } else { rest }
    }
}


/// Whether some entry of `r` reads `p`.
pub open spec fn listed(r: Seq<String>, p: Seq<char>) -> bool {
    exists|k: int| 0 <= k < r.len() && (#[trigger] r[k])@ == p
}

/// The image path that a command shows, if any.
pub open spec fn image_of(c: Command) -> Option<String> {
    match c {
        Command::Stage(p) => Some(p),
        _ => None,
    }
}

/// The audio path that a command plays, if any.
pub open spec fn audio_of(c: Command) -> Option<String> {
    match c {
        Command::Music(p) | Command::Sound(p) => Some(p),
        _ => None,
    }
}

/// Whether the script refers to the image `p`: a stage command shows it, or
/// a state of a character uses it.
pub open spec fn refers_to_image(script: Script, p: Seq<char>) -> bool {
    (exists|i: int| 0 <= i < script.commands@.len() && (#[trigger] image_of(script.commands@[i])) is Some && image_of(script.commands@[i])->Some_0@ == p)
        || (exists|i: int, j: int| 0 <= i < script.characters.0@.len() && 0 <= j < script.characters.0@[i].1@.len()
            && (#[trigger] script.characters.0@[i].1@[j]).1.image@ == p)
}

/// Whether a command of the script plays the audio `p`.
pub open spec fn refers_to_audio(script: Script, p: Seq<char>) -> bool {
    exists|i: int| 0 <= i < script.commands@.len() && (#[trigger] audio_of(script.commands@[i])) is Some && audio_of(script.commands@[i])->Some_0@ == p
}

/// No two entries of `r` read the same.
pub open spec fn distinct(r: Seq<String>) -> bool {
    forall|a: int, b: int| 0 <= a < b < r.len() ==> (#[trigger] r[a])@ != (#[trigger] r[b])@
}

fn add_missing<V>(r: &mut Vec<String>, loaded: &Vec<(String, V)>, p: &String)
    ensures
        distinct(old(r)@) ==> distinct(final(r)@),
        forall|k: int| 0 <= k < old(r)@.len() ==> final(r)@[k] == old(r)@[k],
        old(r)@.len() <= final(r)@.len() <= old(r)@.len() + 1,
        final(r)@.len() == old(r)@.len() + 1 ==> final(r)@.last() == *p && lookup(loaded@, p@) is None,
        lookup(loaded@, p@) is None ==> listed(final(r)@, p@),
{
    proof {
        crate::table::lemma_index_of(loaded@, p@);
    }
    if find(loaded, p).is_none() {
        let mut k: usize = 0;
        while k < r.len()
            invariant
                k <= r@.len(),
                r@ == old(r)@,
                forall|j: int| 0 <= j < k ==> r@[j]@ != p@,
            decreases r.len() - k,
        {
            if r[k] == *p {
                assert(listed(r@, p@));
                return;
            }
            k = k + 1;
        }
        r.push(p.clone());
        assert(r@[r@.len() - 1]@ == p@);
        assert forall|a: int, b: int| 0 <= a < b < r@.len() && distinct(old(r)@) implies (#[trigger] r@[a])@ != (#[trigger] r@[b])@ by {
            if b == r@.len() - 1 {
                assert(r@[a] == old(r)@[a]);
            } else {
                assert(r@[a] == old(r)@[a]);
                assert(r@[b] == old(r)@[b]);
            }
        }
    }
}

impl Script {
    /// The images that the script refers to and that are not loaded yet, each once.
    pub fn missing_images(&self) -> (r: Vec<String>)
        ensures
            forall|k: int| 0 <= k < r@.len() ==> lookup(self.images@, (#[trigger] r@[k])@) is None && refers_to_image(*self, r@[k]@),
            distinct(r@),
            forall|p: Seq<char>| refers_to_image(*self, p) && lookup(self.images@, p) is None ==> #[trigger] listed(r@, p),
    {
        let mut r: Vec<String> = Vec::new();
        let n = self.characters.0.len();
        let mut i: usize = 0;
        while i < n
            invariant
                n == self.characters.0@.len(),
                i <= n,
                distinct(r@),
                forall|k: int| 0 <= k < r@.len() ==> lookup(self.images@, (#[trigger] r@[k])@) is None && refers_to_image(*self, r@[k]@),
                forall|a: int, b: int| 0 <= a < i && 0 <= b < self.characters.0@[a].1@.len()
                    && lookup(self.images@, (#[trigger] self.characters.0@[a].1@[b]).1.image@) is None
                    ==> listed(r@, self.characters.0@[a].1@[b].1.image@),
            decreases n - i,
        {
            let states = &self.characters.0[i].1;
            let mut j: usize = 0;
            while j < states.len()
                invariant
                    n == self.characters.0@.len(),
                    i < n,
                    *states == self.characters.0@[i as int].1,
                    j <= states@.len(),
                    distinct(r@),
                forall|k: int| 0 <= k < r@.len() ==> lookup(self.images@, (#[trigger] r@[k])@) is None && refers_to_image(*self, r@[k]@),
                    forall|a: int, b: int| 0 <= a < i && 0 <= b < self.characters.0@[a].1@.len()
                        && lookup(self.images@, (#[trigger] self.characters.0@[a].1@[b]).1.image@) is None
                        ==> listed(r@, self.characters.0@[a].1@[b].1.image@),
                    forall|b: int| 0 <= b < j && lookup(self.images@, (#[trigger] states@[b]).1.image@) is None
                        ==> listed(r@, states@[b].1.image@),
                decreases states.len() - j,
            {
                let ghost before = r@;
                let image = &states[j].1.image;
                assert(self.characters.0@[i as int].1@[j as int] == states@[j as int]);
                add_missing(&mut r, &self.images, image);
                proof {
                    assert forall|q: Seq<char>| listed(before, q) implies listed(r@, q) by {
                        let k = choose|k: int| 0 <= k < before.len() && (#[trigger] before[k])@ == q;
                        assert(r@[k] == before[k]);
                    }
                }
                j = j + 1;
            }
            i = i + 1;
        }
        let m = self.commands.len();
        let mut c: usize = 0;
        while c < m
            invariant
                n == self.characters.0@.len(),
                m == self.commands@.len(),
                c <= m,
                distinct(r@),
                forall|k: int| 0 <= k < r@.len() ==> lookup(self.images@, (#[trigger] r@[k])@) is None && refers_to_image(*self, r@[k]@),
                forall|a: int, b: int| 0 <= a < n && 0 <= b < self.characters.0@[a].1@.len()
                    && lookup(self.images@, (#[trigger] self.characters.0@[a].1@[b]).1.image@) is None
                    ==> listed(r@, self.characters.0@[a].1@[b].1.image@),
                forall|a: int| 0 <= a < c && (#[trigger] image_of(self.commands@[a])) is Some && lookup(self.images@, image_of(self.commands@[a])->Some_0@) is None
                    ==> listed(r@, image_of(self.commands@[a])->Some_0@),
            decreases m - c,
        {
            if let Command::Stage(path) = &self.commands[c] {
                let ghost before = r@;
                assert(image_of(self.commands@[c as int]) == Some(*path));
                add_missing(&mut r, &self.images, path);
                proof {
                    assert forall|q: Seq<char>| listed(before, q) implies listed(r@, q) by {
                        let k = choose|k: int| 0 <= k < before.len() && (#[trigger] before[k])@ == q;
                        assert(r@[k] == before[k]);
                    }
                }
            }
            c = c + 1;
        }
        r
    }

    /// The audio that the script plays and that is not loaded yet, each once.
    pub fn missing_audio(&self) -> (r: Vec<String>)
        ensures
            forall|k: int| 0 <= k < r@.len() ==> lookup(self.audio@, (#[trigger] r@[k])@) is None && refers_to_audio(*self, r@[k]@),
            distinct(r@),
            forall|p: Seq<char>| refers_to_audio(*self, p) && lookup(self.audio@, p) is None ==> #[trigger] listed(r@, p),
    {
        let mut r: Vec<String> = Vec::new();
        let m = self.commands.len();
        let mut c: usize = 0;
        while c < m
            invariant
                m == self.commands@.len(),
                c <= m,
                distinct(r@),
                forall|k: int| 0 <= k < r@.len() ==> lookup(self.audio@, (#[trigger] r@[k])@) is None && refers_to_audio(*self, r@[k]@),
                forall|a: int| 0 <= a < c && (#[trigger] audio_of(self.commands@[a])) is Some && lookup(self.audio@, audio_of(self.commands@[a])->Some_0@) is None
                    ==> listed(r@, audio_of(self.commands@[a])->Some_0@),
            decreases m - c,
        {
            match &self.commands[c] {
                Command::Music(path) | Command::Sound(path) => {
                    let ghost before = r@;
                    assert(audio_of(self.commands@[c as int]) == Some(*path));
                    add_missing(&mut r, &self.audio, path);
                    proof {
                        assert forall|q: Seq<char>| listed(before, q) implies listed(r@, q) by {
                            let k = choose|k: int| 0 <= k < before.len() && (#[trigger] before[k])@ == q;
                            assert(r@[k] == before[k]);
                        }
                    }
                },
                _ => {},
            }
            c = c + 1;
        }
        r
    }
}

} // verus!
