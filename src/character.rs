//! Characters, their states, and the instances of them on the stage.
use vstd::prelude::*;

use crate::animation::{
    finish_spec, update_spec, Animation, AnimationState, InstanceParameter, SIZE_LIMIT, TIME_LIMIT,
    pair_within,
};
use crate::table::{insert, insert_spec, lookup, remove, remove_spec};
use crate::{CharacterName, InstanceName, StateName, UNIT};

verus! {

/// A possible image of a character.
#[derive(Debug)]
pub struct CharacterState {
    /// Path to the image.
    pub image: String,
    /// Centre of the image in pixels; the middle of the image where absent.
    pub centre_position: Option<(u16, u16)>,
    /// Amount the image is scaled by, in thousandths.
    pub scale: (i64, i64),
}

impl CharacterState {
    pub open spec fn wf(&self) -> bool {
        pair_within(self.scale, SIZE_LIMIT)
    }

    /// A state showing the image at `path`, at its own size.
    pub fn new(path: String) -> (r: Self)
        ensures
            r.image == path,
            r.centre_position is None,
            r.scale == (UNIT, UNIT),
    {
        CharacterState { image: path, centre_position: None, scale: (UNIT, UNIT) }
    }

    /// Sets the centre of the image in pixels.
    pub fn centre_position(self, centre: (u16, u16)) -> (r: Self)
        ensures
            r.image == self.image,
            r.centre_position == Some(centre),
            r.scale == self.scale,
    {
        CharacterState { centre_position: Some(centre), ..self }
    }

    /// Sets the scaling of the image, in thousandths.
    pub fn scale(self, scale: (i64, i64)) -> (r: Self)
        ensures
            r.image == self.image,
            r.centre_position == self.centre_position,
            r.scale == scale,
    {
        CharacterState { scale, ..self }
    }
}

/// The centre of an image of the given size: the one the state names, in
/// thousandths of a pixel, or the middle of the image.
pub open spec fn centre_of(state: CharacterState, size: (i64, i64)) -> (i64, i64) {
    match state.centre_position {
        Some(c) => ((c.0 as int * UNIT) as i64, (c.1 as int * UNIT) as i64),
        None => ((size.0 / 2) as i64, (size.1 / 2) as i64),
    }
}

pub fn centre(state: &CharacterState, size: (i64, i64)) -> (r: (i64, i64))
    requires
        0 <= size.0 <= SIZE_LIMIT,
        0 <= size.1 <= SIZE_LIMIT,
    ensures
        r == centre_of(*state, size),
        pair_within(r, SIZE_LIMIT),
{
    match state.centre_position {
        Some(c) => (c.0 as i64 * UNIT, c.1 as i64 * UNIT),
        None => (size.0 / 2, size.1 / 2),
    }
}

pub proof fn lemma_centre(state: CharacterState, size: (i64, i64))
    requires
        0 <= size.0 <= SIZE_LIMIT,
        0 <= size.1 <= SIZE_LIMIT,
    ensures
        pair_within(centre_of(state, size), SIZE_LIMIT),
{
}

/// An instance of a character, placed on the stage.
#[derive(Debug)]
pub struct Instance {
    /// An animation acting on the instance.
    pub animation: Option<Animation>,
    /// Character which this instance belongs to.
    pub character: CharacterName,
    /// Position of the image centre within the image.
    pub centre_position: (i64, i64),
    /// Path of the image drawn.
    pub image: String,
    /// Width and height of the image.
    pub image_size: (i64, i64),
    /// Position on the screen.
    pub position: (i64, i64),
    /// Amount the image is scaled by, in thousandths.
    pub scale: (i64, i64),
    pub visible: bool,
    /// Opacity, from 0 to `UNIT`.
    pub alpha: i64,
    /// Whether the instance leaves the stage once its animation is done.
    pub to_be_killed: bool,
}

/// A fresh instance of a character in the given state.
pub open spec fn instance_of(character: CharacterName, state: CharacterState, size: (i64, i64), position: (i64, i64)) -> Instance {
    Instance {
        animation: None,
        character,
        centre_position: centre_of(state, size),
        image: state.image,
        image_size: size,
        position,
        scale: state.scale,
        visible: true,
        alpha: UNIT,
        to_be_killed: false,
    }
}

/// The values of the instance that animations act on.
pub open spec fn parameters(i: Instance) -> InstanceParameter {
    InstanceParameter {
        centre_position: i.centre_position,
        image: i.image,
        image_size: i.image_size,
        position: i.position,
        scale: i.scale,
        visible: i.visible,
        alpha: i.alpha,
    }
}

/// The instance with its animated values taken from `p`.
pub open spec fn with_parameters(i: Instance, p: InstanceParameter) -> Instance {
    Instance {
        centre_position: p.centre_position,
        image: p.image,
        image_size: p.image_size,
        position: p.position,
        scale: p.scale,
        visible: p.visible,
        alpha: p.alpha,
        ..i
    }
}

/// The instance after its animation, if any, is finished and dropped.
pub open spec fn finished(i: Instance) -> Instance {
    match i.animation {
        None => i,
        Some(a) => with_parameters(Instance { animation: None, ..i }, finish_spec(a, parameters(i))),
    }
}

/// The instance after `a` replaces its animation; the one it had is finished first.
pub open spec fn animated(i: Instance, a: Animation) -> Instance {
    Instance { animation: Some(a), ..finished(i) }
}

/// The instance one frame, `dt`, later.
pub open spec fn updated(i: Instance, dt: int) -> Instance {
    match i.animation {
        None => i,
        Some(a) => {
            let (p, n, s) = update_spec(a, parameters(i), dt);
            match s {
                AnimationState::Continue => with_parameters(Instance { animation: Some(n), ..i }, p),
                AnimationState::Finished => with_parameters(Instance { animation: None, ..i }, finish_spec(n, p)),
            }
        },
    }
}

impl Instance {
    pub open spec fn wf(&self) -> bool {
        &&& parameters(*self).wf()
        &&& (self.animation matches Some(a) ==> a.wf())
    }

    /// A fresh instance of `character` in `state`, its image of size `size`.
    pub fn new(character: CharacterName, state: &CharacterState, size: (i64, i64), position: (i64, i64)) -> (r: Self)
        requires
            state.wf(),
            0 <= size.0 <= SIZE_LIMIT,
            0 <= size.1 <= SIZE_LIMIT,
            pair_within(position, crate::animation::POSITION_LIMIT),
        ensures
            r == instance_of(character, *state, size, position),
            r.wf(),
    {
        let centre_position = centre(state, size);
        Instance {
            animation: None,
            character,
            centre_position,
            image: state.image.clone(),
            image_size: size,
            position,
            scale: state.scale,
            visible: true,
            alpha: UNIT,
            to_be_killed: false,
        }
    }

    /// Creates the parameters that are given to the animation.
    fn create_parameter(&self) -> (r: InstanceParameter)
        ensures
            r == parameters(*self),
    {
        InstanceParameter {
            centre_position: self.centre_position,
            image: self.image.clone(),
            image_size: self.image_size,
            position: self.position,
            scale: self.scale,
            visible: self.visible,
            alpha: self.alpha,
        }
    }

    /// Takes the animated values from `p`.
    fn update_with_parameter(&mut self, p: InstanceParameter)
        ensures
            *final(self) == with_parameters(*old(self), p),
    {
        self.centre_position = p.centre_position;
        self.image = p.image;
        self.image_size = p.image_size;
        self.position = p.position;
        self.scale = p.scale;
        self.visible = p.visible;
        self.alpha = p.alpha;
    }

    /// Runs one frame, `dt` long, of the animation.
    pub fn update(&mut self, dt: i64)
        requires
            old(self).wf(),
            0 <= dt <= TIME_LIMIT,
        ensures
            *final(self) == updated(*old(self), dt as int),
            final(self).wf(),
    {
        let mut animation = None;
        std::mem::swap(&mut animation, &mut self.animation);
        match animation {
            None => {},
            Some(mut a) => {
                let mut p = self.create_parameter();
                match a.update(&mut p, dt) {
                    AnimationState::Continue => {
                        self.update_with_parameter(p);
                        self.animation = Some(a);
                    },
                    AnimationState::Finished => {
                        a.finish(&mut p);
                        self.update_with_parameter(p);
                    },
                }
            },
        }
    }

    /// Finishes the animation, if any, and drops it.
    pub fn finish_animation(&mut self)
        requires
            old(self).wf(),
        ensures
            *final(self) == finished(*old(self)),
            final(self).wf(),
            final(self).animation is None,
    {
        let mut animation = None;
        std::mem::swap(&mut animation, &mut self.animation);
        if let Some(a) = animation {
            let mut p = self.create_parameter();
            a.finish(&mut p);
            self.update_with_parameter(p);
        }
    }

    /// Puts `animation` on the instance; an animation already there is
    /// finished first.
    pub fn add_animation(&mut self, animation: Animation)
        requires
            old(self).wf(),
            animation.wf(),
        ensures
            *final(self) == animated(*old(self), animation),
            final(self).wf(),
    {
        self.finish_animation();
        self.animation = Some(animation);
    }
}

/// The stage after one frame: every instance runs its animation, and those to
/// be killed whose animation is over leave.
pub open spec fn stage_updated(s: Seq<(String, Instance)>, dt: int) -> Seq<(String, Instance)>
    decreases s.len(),
{
    if s.len() == 0 {
        s
    } else {
        let i = updated(s[0].1, dt);
        let rest = stage_updated(s.drop_first(), dt);
        if i.to_be_killed && i.animation is None {
            rest
        } else {
            seq![(s[0].0, i)] + rest
        }
    }
}

/// The stage with every animation finished, and without the instances to be killed.
pub open spec fn stage_finished(s: Seq<(String, Instance)>) -> Seq<(String, Instance)>
    decreases s.len(),
{
    if s.len() == 0 {
        s
    } else {
        let rest = stage_finished(s.drop_first());
        if s[0].1.to_be_killed {
            rest
        } else {
            seq![(s[0].0, finished(s[0].1))] + rest
        }
    }
}

pub open spec fn stage_wf(s: Seq<(String, Instance)>) -> bool {
    forall|i: int| 0 <= i < s.len() ==> (#[trigger] s[i]).1.wf()
}

/// The instances on the stage, by name, in drawing order.
#[derive(Debug)]
pub struct Stage(pub Vec<(String, Instance)>);

impl Stage {
    pub open spec fn wf(&self) -> bool {
        stage_wf(self.0@)
    }

    pub fn new() -> (r: Self)
        ensures
            r.0@.len() == 0,
    {
        Stage(Vec::new())
    }

    /// Runs all the animations on the instances for one frame.
    pub fn update(&mut self, dt: i64)
        requires
            old(self).wf(),
            0 <= dt <= TIME_LIMIT,
        ensures
            final(self).0@ == stage_updated(old(self).0@, dt as int),
            final(self).wf(),
    {
        let mut rest = Vec::new();
        std::mem::swap(&mut rest, &mut self.0);
        let ghost all = rest@;
        let mut kept: Vec<(String, Instance)> = Vec::new();
        while rest.len() > 0
            invariant
                stage_wf(rest@),
                stage_wf(kept@),
                stage_updated(all, dt as int) == kept@ + stage_updated(rest@, dt as int),
                0 <= dt <= TIME_LIMIT,
            decreases rest.len(),
        {
            let ghost before = rest@;
            let (name, mut instance) = rest.remove(0);
            assert(before.drop_first() =~= rest@);
            assert(before[0].1.wf());
            assert(stage_wf(rest@)) by {
                assert forall|i: int| 0 <= i < rest@.len() implies (#[trigger] rest@[i]).1.wf() by {
                    assert(rest@[i] == before[i + 1]);
                }
            }
            instance.update(dt);
            if !(instance.to_be_killed && instance.animation.is_none()) {
                kept.push((name, instance));
                assert(kept@.drop_last() + (seq![kept@.last()] + stage_updated(rest@, dt as int)) =~= kept@ + stage_updated(rest@, dt as int));
            }
        }
        assert(kept@ + Seq::<(String, Instance)>::empty() =~= kept@);
        self.0 = kept;
    }

    /// Finishes the animations on all the instances, and takes off the stage
    /// those that are to be killed.
    pub fn finish_animation(&mut self)
        requires
            old(self).wf(),
        ensures
            final(self).0@ == stage_finished(old(self).0@),
            final(self).wf(),
    {
        let mut rest = Vec::new();
        std::mem::swap(&mut rest, &mut self.0);
        let ghost all = rest@;
        let mut kept: Vec<(String, Instance)> = Vec::new();
        while rest.len() > 0
            invariant
                stage_wf(rest@),
                stage_wf(kept@),
                stage_finished(all) == kept@ + stage_finished(rest@),
            decreases rest.len(),
        {
            let ghost before = rest@;
            let (name, mut instance) = rest.remove(0);
            assert(before.drop_first() =~= rest@);
            assert(before[0].1.wf());
            assert(stage_wf(rest@)) by {
                assert forall|i: int| 0 <= i < rest@.len() implies (#[trigger] rest@[i]).1.wf() by {
                    assert(rest@[i] == before[i + 1]);
                }
            }
            if !instance.to_be_killed {
                instance.finish_animation();
                kept.push((name, instance));
                assert(kept@.drop_last() + (seq![kept@.last()] + stage_finished(rest@)) =~= kept@ + stage_finished(rest@));
            }
        }
        assert(kept@ + Seq::<(String, Instance)>::empty() =~= kept@);
        self.0 = kept;
    }

    /// Puts a new instance on the stage under `name`, in place of any with that name.
    pub fn spawn(&mut self, name: InstanceName, instance: Instance)
        requires
            old(self).wf(),
            instance.wf(),
        ensures
            final(self).0@ == insert_spec(old(self).0@, name.0, instance),
            final(self).wf(),
    {
        let ghost before = self.0@;
        let ghost key = name.0;
        proof {
            crate::table::lemma_index_of(before, key@);
        }
        insert(&mut self.0, name.0, instance);
        assert(stage_wf(self.0@)) by {
            assert forall|i: int| 0 <= i < self.0@.len() implies (#[trigger] self.0@[i]).1.wf() by {
                match crate::table::index_of(before, key@) {
                    Some(k) => {
                        if i != k {
                            assert(self.0@[i] == before[i]);
                        }
                    },
                    None => {
                        if i < before.len() {
                            assert(self.0@[i] == before[i]);
                        }
                    },
                }
            }
        }
    }

    /// The instance under `name`.
    pub fn get(&self, name: &InstanceName) -> (r: Option<&Instance>)
        ensures
            r matches Some(i) ==> lookup(self.0@, name.0@) == Some(*i),
            r is None ==> lookup(self.0@, name.0@) is None,
    {
        proof {
            crate::table::lemma_index_of(self.0@, name.0@);
        }
        match crate::table::find(&self.0, &name.0) {
            Some(k) => Some(&self.0[k].1),
            None => None,
        }
    }

    /// Takes the instance under `name` off the stage.
    pub fn remove(&mut self, name: &InstanceName)
        requires
            old(self).wf(),
        ensures
            final(self).0@ == remove_spec(old(self).0@, name.0@),
            final(self).wf(),
    {
        let ghost before = self.0@;
        remove(&mut self.0, &name.0);
        proof {
            crate::table::lemma_remove(before, name.0@, |i: Instance| i.wf());
        }
    }
}

/// The characters and their states, by name.
#[derive(Debug)]
pub struct Characters(pub Vec<(String, Vec<(String, CharacterState)>)>);

/// The state `state` of character `character`.
pub open spec fn state_of(characters: Seq<(String, Vec<(String, CharacterState)>)>, character: Seq<char>, state: Seq<char>) -> Option<CharacterState> {
    match lookup(characters, character) {
        Some(states) => lookup(states@, state),
        None => None,
    }
}

impl Characters {
    pub open spec fn wf(&self) -> bool {
        forall|c: Seq<char>, s: Seq<char>| (#[trigger] state_of(self.0@, c, s)) matches Some(st) ==> st.wf()
    }

    pub fn new() -> (r: Self)
        ensures
            r.0@.len() == 0,
    {
        Characters(Vec::new())
    }

    /// Adds a character with its states, in place of any with that name.
    pub fn insert(&mut self, name: CharacterName, states: Vec<(String, CharacterState)>)
        ensures
            lookup(final(self).0@, name.0@) == Some(states),
            forall|c: Seq<char>| c != name.0@ ==> lookup(final(self).0@, c) == lookup(old(self).0@, c),
    {
        insert(&mut self.0, name.0, states);
    }

    /// The state `state` of character `character`.
    pub fn get(&self, character: &CharacterName, state: &StateName) -> (r: Option<&CharacterState>)
        ensures
            r matches Some(s) ==> state_of(self.0@, character.0@, state.0@) == Some(*s),
            r is None ==> state_of(self.0@, character.0@, state.0@) is None,
    {
        proof {
            crate::table::lemma_index_of(self.0@, character.0@);
        }
        match crate::table::find(&self.0, &character.0) {
            None => None,
            Some(i) => {
                let states = &self.0[i].1;
                proof {
                    crate::table::lemma_index_of(states@, state.0@);
                }
                match crate::table::find(states, &state.0) {
                    None => None,
                    Some(j) => Some(&states[j].1),
                }
            },
        }
    }
}

} // verus!
