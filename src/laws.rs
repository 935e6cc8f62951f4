//! Properties of the engine that relate several calls.
use vstd::prelude::*;

use crate::animation::{fade_of, flip_of, glide_move_of, glide_visibility_of, ChangeAnimation};
use crate::character::{animated, finished, Instance};
use crate::game::{
    audio_of, execute_spec, image_of,
    advance_spec, at_diverge, diverge_spec, fresh_world, lemma_advance_progress, lemma_resume_step, resume_from,
    resume_spec, resume_step, run_spec, unfinished, EngineError, Scene, World, RUN_LIMIT,
};
use crate::grammar::{from_tokens, has_identifier, has_string, parsed};
use crate::lexer::{literal_of, start_state, stream, word_of};
use crate::table::lookup;
use crate::{Command, Label, Script, Settings, UNIT};

verus! {

/// Finishing an animation leaves the instance in the end state that its
/// producer declares: a glide to a position ends there; animations of
/// showing end visible and those of hiding invisible, a fade at full
/// opacity; a flip ends with the new image, size, centre and scale. In every
/// case the animation is gone.
pub proof fn lemma_finish_reaches_declared_state(
    i: Instance,
    args: Seq<Option<i64>>,
    destination: (i64, i64),
    view: (i64, i64),
    c: ChangeAnimation,
)
    ensures
        finished(animated(i, glide_move_of(destination, args))).position == destination,
        finished(animated(i, glide_visibility_of(true, args, view))).visible,
        !finished(animated(i, glide_visibility_of(false, args, view))).visible,
        finished(animated(i, fade_of(true, args))).visible,
        finished(animated(i, fade_of(true, args))).alpha == UNIT,
        !finished(animated(i, fade_of(false, args))).visible,
        finished(animated(i, fade_of(false, args))).alpha == UNIT,
        finished(animated(i, flip_of(c))).image == c.new_image,
        finished(animated(i, flip_of(c))).image_size == c.new_image_size,
        finished(animated(i, flip_of(c))).centre_position == c.new_centre_position,
        finished(animated(i, flip_of(c))).scale == c.new_scale,
        finished(animated(i, glide_move_of(destination, args))).animation is None,
        finished(animated(i, flip_of(c))).animation is None,
{
}

/// An event of play: an advance, or the choice of a branch.
pub enum Event {
    Advance,
    Choose(Label),
}

pub open spec fn apply(script: Script, settings: Settings, w: World, e: Event) -> Result<World, EngineError> {
    match e {
        Event::Advance => advance_spec(script, settings, w),
        Event::Choose(l) => diverge_spec(script, settings, w, l),
    }
}

/// The world after the events, one after another.
pub open spec fn replay(script: Script, settings: Settings, w: World, events: Seq<Event>) -> Result<World, EngineError>
    decreases events.len(),
{
    if events.len() == 0 {
        Ok(w)
    } else {
        match apply(script, settings, w, events[0]) {
            Err(e) => Err(e),
            Ok(w1) => replay(script, settings, w1, events.drop_first()),
        }
    }
}

/// The labels chosen among the events, in order.
pub open spec fn chosen(events: Seq<Event>) -> Seq<Label>
    decreases events.len(),
{
    if events.len() == 0 {
        Seq::empty()
    } else {
        match events[0] {
            Event::Choose(l) => seq![l] + chosen(events.drop_first()),
            Event::Advance => chosen(events.drop_first()),
        }
    }
}

/// Events as a player makes them: a choice exactly where the cursor stands on
/// a divergence, an advance elsewhere; and the last event runs a command.
pub open spec fn as_played(script: Script, settings: Settings, w: World, events: Seq<Event>) -> bool
    decreases events.len(),
{
    events.len() > 0 && ((events[0] is Advance) == !at_diverge(script, w)) && match apply(script, settings, w, events[0]) {
        Err(_) => true,
        Ok(w1) => if events.len() == 1 {
            w1.count > w.count
        } else {
            as_played(script, settings, w1, events.drop_first())
        },
    }
}

proof fn lemma_apply(script: Script, settings: Settings, w: World, e: Event)
    ensures
        apply(script, settings, w, e) matches Ok(w1) ==> w1.count >= w.count && w1.divergences == match e {
            Event::Advance => w.divergences,
            Event::Choose(l) => w.divergences.push(l),
        },
{
    lemma_advance_progress(script, settings, w);
    if let Event::Choose(l) = e {
        if let Some(t) = lookup(script.labels@, l.0@) {
            lemma_advance_progress(script, settings, World {
                divergences: w.divergences.push(l),
                scene: Scene { next_target: Some(t.0 as int), branches: Seq::empty(), ..w.scene },
                ..w
            });
        }
    }
}

/// Replayed events record their choices, and the last event of a played
/// sequence leaves more commands counted than there were.
proof fn lemma_replay_records(script: Script, settings: Settings, w: World, events: Seq<Event>)
    requires
        replay(script, settings, w, events) is Ok,
        as_played(script, settings, w, events),
    ensures
        replay(script, settings, w, events)->Ok_0.divergences == w.divergences + chosen(events),
        replay(script, settings, w, events)->Ok_0.count > w.count,
    decreases events.len(),
{
    let e = events[0];
    lemma_apply(script, settings, w, e);
    let w1 = apply(script, settings, w, e)->Ok_0;
    let rest = events.drop_first();
    if events.len() == 1 {
        assert(rest.len() == 0);
        assert(chosen(rest) == Seq::<Label>::empty());
    } else {
        lemma_replay_records(script, settings, w1, rest);
    }
    match e {
        Event::Choose(l) => {
            assert(w.divergences.push(l) + chosen(rest) =~= w.divergences + (seq![l] + chosen(rest)));
        },
        Event::Advance => {
            assert(w.divergences + chosen(rest) =~= w.divergences + chosen(rest));
        },
    }
    assert(chosen(rest) + Seq::<Label>::empty() =~= chosen(rest));
    assert(w.divergences + Seq::<Label>::empty() =~= w.divergences);
}

proof fn lemma_resume_follows(script: Script, settings: Settings, w: World, events: Seq<Event>, tail: Seq<Label>)
    requires
        replay(script, settings, w, events) is Ok,
        as_played(script, settings, w, events),
    ensures
        resume_from(script, settings, w, chosen(events) + tail, replay(script, settings, w, events)->Ok_0.count)
            == Ok::<(World, Seq<Label>), EngineError>((replay(script, settings, w, events)->Ok_0, tail)),
    decreases events.len(),
{
    let big = replay(script, settings, w, events)->Ok_0;
    let goal = big.count;
    lemma_replay_records(script, settings, w, events);
    lemma_resume_step(script, settings, w, chosen(events) + tail, goal);
    let e = events[0];
    let rest = events.drop_first();
    let w1 = apply(script, settings, w, e)->Ok_0;
    match e {
        Event::Choose(l) => {
            assert(chosen(events) + tail =~= seq![l] + (chosen(rest) + tail));
            assert((chosen(events) + tail)[0] == l);
            assert((chosen(events) + tail).drop_first() =~= chosen(rest) + tail);
        },
        Event::Advance => {},
    }
    assert(resume_step(script, settings, w, chosen(events) + tail) == Ok::<(World, Seq<Label>), EngineError>((w1, chosen(rest) + tail)));
    if events.len() == 1 {
        assert(chosen(rest) =~= Seq::<Label>::empty());
        assert(chosen(rest) + tail =~= tail);
        assert(big == w1);
    } else {
        lemma_resume_follows(script, settings, w1, rest, tail);
    }
}

/// Resuming equals replaying: for events played from a fresh run, bringing
/// the run back from the history they leave (the count of commands run and
/// the labels chosen) gives exactly the world the events gave.
pub proof fn lemma_resume_equals_replay(script: Script, settings: Settings, events: Seq<Event>)
    requires
        replay(script, settings, fresh_world(), events) is Ok,
        as_played(script, settings, fresh_world(), events),
    ensures
        resume_spec(
            script,
            settings,
            replay(script, settings, fresh_world(), events)->Ok_0.count,
            replay(script, settings, fresh_world(), events)->Ok_0.divergences,
        ) == Ok::<World, EngineError>(replay(script, settings, fresh_world(), events)->Ok_0),
{
    let w = fresh_world();
    lemma_replay_records(script, settings, w, events);
    lemma_resume_follows(script, settings, w, events, Seq::empty());
    assert(chosen(events) + Seq::<Label>::empty() =~= chosen(events));
    assert(w.divergences + chosen(events) =~= chosen(events));
}

/// The world after `n` advances, with how many of them reached the run loop
/// (found no dialogue partly shown).
pub open spec fn advances(script: Script, settings: Settings, w: World, n: nat) -> Result<(World, nat), EngineError>
    decreases n,
{
    if n == 0 {
        Ok((w, 0))
    } else {
        match advance_spec(script, settings, w) {
            Err(e) => Err(e),
            Ok(w1) => match advances(script, settings, w1, (n - 1) as nat) {
                Err(e) => Err(e),
                Ok((w2, k)) => Ok((w2, k + if unfinished(w.scene) { 0nat } else { 1nat })),
            },
        }
    }
}

pub open spec fn all_break(script: Script) -> bool {
    forall|i: int| 0 <= i < script.commands@.len() ==> (#[trigger] script.commands@[i]).breaks()
}

proof fn lemma_single_run(script: Script, settings: Settings, w: World)
    requires
        all_break(script),
    ensures
        run_spec(script, settings, w, RUN_LIMIT as nat) matches Ok(w2) ==> w2.count == w.count + 1,
{
}

/// Counting: over any sequence of advances, the execution count grows by at
/// least the number of advances that reached the run loop, and by exactly
/// that number where every command of the script breaks (where some do not,
/// one advance may run several commands, each counted).
pub proof fn lemma_count_follows_advances(script: Script, settings: Settings, w: World, n: nat)
    ensures
        advances(script, settings, w, n) matches Ok((w2, k)) ==> w2.count >= w.count + k,
        all_break(script) ==> (advances(script, settings, w, n) matches Ok((w2, k)) ==> w2.count == w.count + k),
    decreases n,
{
    if n > 0 {
        lemma_advance_progress(script, settings, w);
        let sc = Scene { stage: crate::character::stage_finished(w.scene.stage), ..w.scene };
        if all_break(script) && !unfinished(sc) {
            lemma_single_run(script, settings, World { scene: sc, ..w });
        }
        if let Ok(w1) = advance_spec(script, settings, w) {
            lemma_count_follows_advances(script, settings, w1, (n - 1) as nat);
        }
    }
}

/// Running a command touches only resources that the command names: the
/// background can only become the path of a stage command, the music the
/// path of a music command, and a sound effect is only added by a sound
/// command, with its path.
pub proof fn lemma_commands_name_their_resources(script: Script, settings: Settings, sc: Scene, cmd: Command)
    ensures
        execute_spec(script, settings, sc, cmd) matches Ok(after) ==> {
            &&& (after.background == sc.background || (image_of(cmd) is Some && after.background == image_of(cmd)))
            &&& (after.music == sc.music || (cmd is Music && after.music == audio_of(cmd)))
            &&& (after.sounds == sc.sounds || (cmd is Sound && after.sounds == sc.sounds.push(audio_of(cmd)->Some_0)))
        },
{
    match cmd {
        Command::Stage(_) | Command::Music(_) | Command::Sound(_) | Command::Dialogue(_, _) | Command::Diverge(_) => {},
        Command::Jump(_) | Command::If(_, _) | Command::Flag(_) | Command::Unflag(_) | Command::Pause => {},
        Command::Show(_, _) | Command::Hide(_, _) | Command::Position(_, _, _) | Command::Kill(_, _) => {},
        Command::Change(_, _, _) | Command::Spawn(_, _, _, _, _) => {},
    }
}

/// Parsing invents nothing: every text, path, character, state and instance
/// name in the commands that `parse` gives for `s` is the text of a string
/// literal of `s`, and every label, flag and jump target is a word of `s`.
pub proof fn lemma_parse_invents_nothing(s: Seq<char>)
    ensures
        forall|k: int| 0 <= k < parsed(stream(s, start_state())).commands.len()
            ==> from_tokens(stream(s, start_state()), #[trigger] parsed(stream(s, start_state())).commands[k]),
        forall|l: Seq<char>| #[trigger] parsed(stream(s, start_state())).labels.contains_key(l)
            ==> has_identifier(stream(s, start_state()), l),
        forall|w: Seq<char>| #[trigger] has_string(stream(s, start_state()), w) ==> literal_of(s, w),
        forall|w: Seq<char>| #[trigger] has_identifier(stream(s, start_state()), w) ==> word_of(s, w),
{
    let ts = stream(s, start_state());
    crate::grammar::lemma_parsed_from_tokens(ts);
    crate::lexer::lemma_stream_source(s, start_state());
    assert forall|w: Seq<char>| #[trigger] has_string(ts, w) implies literal_of(s, w) by {
        let k = choose|k: int| 0 <= k < ts.len() && #[trigger] ts[k] == Ok::<crate::parser::TokenV, crate::parser::ParserError>(crate::parser::TokenV::Str(w));
        assert(ts[k] is Ok);
    }
    assert forall|w: Seq<char>| #[trigger] has_identifier(ts, w) implies word_of(s, w) by {
        let k = choose|k: int| 0 <= k < ts.len() && #[trigger] ts[k] == Ok::<crate::parser::TokenV, crate::parser::ParserError>(crate::parser::TokenV::Identifier(w));
        assert(ts[k] is Ok);
    }
}

/// Whether the image the instance shows, and the one a flip on it will
/// show, are loaded in the script.
pub open spec fn shows_loaded(script: Script, i: Instance) -> bool {
    &&& lookup(script.images@, i.image@) is Some
    &&& (i.animation matches Some(crate::animation::Animation::Flip(f)) ==> lookup(script.images@, f.new_image@) is Some)
}

pub open spec fn stage_loaded(script: Script, stage: Seq<(String, Instance)>) -> bool {
    forall|k: int| 0 <= k < stage.len() ==> shows_loaded(script, (#[trigger] stage[k]).1)
}

proof fn lemma_set_loaded(script: Script, stage: Seq<(String, Instance)>, k: int, i: Instance)
    requires
        stage_loaded(script, stage),
        0 <= k < stage.len(),
        shows_loaded(script, i),
    ensures
        stage_loaded(script, stage.update(k, (stage[k].0, i))),
{
    let after = stage.update(k, (stage[k].0, i));
    assert forall|j: int| 0 <= j < after.len() implies shows_loaded(script, (#[trigger] after[j]).1) by {
        if j != k {
            assert(after[j] == stage[j]);
        }
    }
}

proof fn lemma_insert_loaded(script: Script, stage: Seq<(String, Instance)>, key: String, i: Instance)
    requires
        stage_loaded(script, stage),
        shows_loaded(script, i),
    ensures
        stage_loaded(script, crate::table::insert_spec(stage, key, i)),
{
    crate::table::lemma_index_of(stage, key@);
    match crate::table::index_of(stage, key@) {
        Some(k) => lemma_set_loaded(script, stage, k, i),
        None => {
            let after = stage.push((key, i));
            assert forall|j: int| 0 <= j < after.len() implies shows_loaded(script, (#[trigger] after[j]).1) by {
                if j < stage.len() {
                    assert(after[j] == stage[j]);
                }
            }
        },
    }
}

/// Running a command leaves on the stage only instances whose images are
/// loaded, if that held before: the images an instance can come to show are
/// those of the states of the character table that a spawn or change names,
/// and each of those is looked up among the loaded images first.
pub proof fn lemma_stage_shows_loaded_images(script: Script, settings: Settings, sc: Scene, cmd: Command)
    requires
        stage_loaded(script, sc.stage),
    ensures
        execute_spec(script, settings, sc, cmd) matches Ok(after) ==> stage_loaded(script, after.stage),
{
    if let Ok(after) = execute_spec(script, settings, sc, cmd) {
        match cmd {
            Command::Kill(n, d) => {
                match d {
                    None => {
                        crate::table::lemma_remove(sc.stage, n.0@, |i: Instance| shows_loaded(script, i));
                    },
                    Some(_) => {
                        let k = crate::table::index_of(sc.stage, n.0@)->Some_0;
                        crate::table::lemma_index_of(sc.stage, n.0@);
                        assert(shows_loaded(script, sc.stage[k].1));
                        let a = after.stage[k].1;
                        lemma_set_loaded(script, sc.stage, k, a);
                    },
                }
            },
            Command::Show(n, _) | Command::Hide(n, _) | Command::Position(n, _, _) | Command::Change(n, _, _) => {
                let k = crate::table::index_of(sc.stage, n.0@)->Some_0;
                crate::table::lemma_index_of(sc.stage, n.0@);
                assert(shows_loaded(script, sc.stage[k].1));
                let a = after.stage[k].1;
                lemma_set_loaded(script, sc.stage, k, a);
            },
            Command::Spawn(c, st, p, name, d) => {
                let key = match name {
                    Some(n) => n.0,
                    None => c.0,
                };
                let i = crate::character::instance_of(c, crate::game::resolve(script, c.0@, st.0@)->Ok_0.0,
                    crate::game::resolve(script, c.0@, st.0@)->Ok_0.1, p);
                match d {
                    None => lemma_insert_loaded(script, sc.stage, key, i),
                    Some(d) => {
                        let a = crate::game::visibility_animation(script.animations.spawn@, d, true, settings)->Ok_0;
                        lemma_insert_loaded(script, sc.stage, key, crate::character::Instance { animation: Some(a), ..i });
                    },
                }
            },
            _ => {},
        }
    }
}

} // verus!
