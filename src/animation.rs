//! Animations of instance parameters and the producers that build them.
use vstd::prelude::*;
use vstd::arithmetic::div_mod::{lemma_div_is_ordered, lemma_div_multiples_vanish};
use vstd::arithmetic::mul::lemma_mul_inequality;

use crate::table::{find, lookup, text};
use crate::UNIT;

verus! {

broadcast use vstd::string::group_string_axioms;

/// Largest magnitude of a position, in thousandths of a pixel.
pub const POSITION_LIMIT: i64 = 1_000_000_000_000_000;

/// Largest magnitude of an image size, an image centre, a scale or a view size.
pub const SIZE_LIMIT: i64 = 10_000_000_000_000;

/// Largest magnitude of a duration or of a frame time, in thousandths of a millisecond.
pub const TIME_LIMIT: i64 = 1_000_000_000_000_000;

/// Default length of a glide, in thousandths of a millisecond.
pub const GLIDE_PERIOD: i64 = 10_000_000;

/// Default length of a fade, in thousandths of a millisecond.
pub const FADE_PERIOD: i64 = 250_000;

/// Default length of a flip, in thousandths of a millisecond.
pub const FLIP_PERIOD: i64 = 100_000;

/// The state of the animation.
#[derive(Debug, Clone, Copy, PartialEq, Eq, Structural)]
pub enum AnimationState {
    /// The animation is ongoing.
    Continue,
    /// The animation has finished and should be removed.
    Finished,
}

/// Declares what animation is to be used and the arguments it is given;
/// `None` stands for the animation's default.
#[derive(Debug)]
pub struct AnimationDeclaration {
    pub name: String,
    pub arguments: Vec<Option<i64>>,
}

pub open spec fn args_wf(args: Seq<Option<i64>>) -> bool {
    forall|i: int| 0 <= i < args.len() ==> (#[trigger] args[i] matches Some(v) ==> -TIME_LIMIT <= v <= TIME_LIMIT)
}

impl AnimationDeclaration {
    pub open spec fn wf(&self) -> bool {
        args_wf(self.arguments@)
    }
}

/// The values of an instance that an animation acts on.
#[derive(Debug)]
pub struct InstanceParameter {
    /// Position of the image centre within the image.
    pub centre_position: (i64, i64),
    /// Path of the image drawn.
    pub image: String,
    /// Width and height of the image.
    pub image_size: (i64, i64),
    /// Position on the screen.
    pub position: (i64, i64),
    /// Amount the image is scaled by, in thousandths.
    pub scale: (i64, i64),
    pub visible: bool,
    /// Opacity, from 0 to `UNIT`.
    pub alpha: i64,
}

pub open spec fn within(v: int, limit: int) -> bool {
    -limit <= v <= limit
}

pub open spec fn pair_within(v: (i64, i64), limit: i64) -> bool {
    within(v.0 as int, limit as int) && within(v.1 as int, limit as int)
}

impl InstanceParameter {
    pub open spec fn wf(&self) -> bool {
        &&& pair_within(self.position, POSITION_LIMIT)
        &&& pair_within(self.centre_position, SIZE_LIMIT)
        &&& 0 <= self.image_size.0 <= SIZE_LIMIT
        &&& 0 <= self.image_size.1 <= SIZE_LIMIT
        &&& pair_within(self.scale, SIZE_LIMIT)
        &&& 0 <= self.alpha <= UNIT
    }
}

/// Moves the position towards a destination in straight line.
#[derive(Debug, Clone, Copy)]
pub struct GlideMove {
    pub destination: (i64, i64),
    pub time_left: i64,
}

/// The side of the view through which an instance enters or leaves.
#[derive(Debug, Clone, Copy, PartialEq, Eq, Structural)]
pub enum Side {
    Left,
    Right,
}

/// The course of a glide through the side of the view, once it has started.
#[derive(Debug, Clone, Copy)]
pub struct SlideTrack {
    pub mover: GlideMove,
    /// Where the instance stood when the glide started.
    pub home: (i64, i64),
}

/// Brings an instance in from the side of the view, or takes it out there.
#[derive(Debug, Clone, Copy)]
pub struct GlideVisibility {
    /// Whether the instance ends visible.
    pub showing: bool,
    pub period: i64,
    pub side: Side,
    pub view_width: i64,
    pub track: Option<SlideTrack>,
}

/// Ramps the opacity up or down.
#[derive(Debug, Clone, Copy)]
pub struct FadeVisibility {
    /// Whether the instance ends visible.
    pub showing: bool,
    pub period: i64,
    pub time_left: i64,
}

/// Squeezes the image horizontally, swaps it for a new one, and widens it again.
#[derive(Debug)]
pub struct FlipChange {
    pub period: i64,
    pub time_left: i64,
    pub new_centre_position: (i64, i64),
    pub new_image: String,
    pub new_image_size: (i64, i64),
    pub new_scale: (i64, i64),
    pub original_scale: Option<(i64, i64)>,
}

/// An animation acting on an instance.
#[derive(Debug)]
pub enum Animation {
    Move(GlideMove),
    Slide(GlideVisibility),
    Fade(FadeVisibility),
    Flip(FlipChange),
}

impl Animation {
    pub open spec fn wf(&self) -> bool {
        match self {
            Animation::Move(m) => pair_within(m.destination, POSITION_LIMIT) && within(m.time_left as int, TIME_LIMIT as int),
            Animation::Slide(s) => {
                &&& 0 <= s.view_width <= SIZE_LIMIT
                &&& within(s.period as int, TIME_LIMIT as int)
                &&& (s.track matches Some(t) ==> pair_within(t.mover.destination, POSITION_LIMIT)
                    && within(t.mover.time_left as int, TIME_LIMIT as int) && pair_within(t.home, POSITION_LIMIT))
            },
            Animation::Fade(f) => {
                &&& within(f.period as int, TIME_LIMIT as int)
                &&& within(f.time_left as int, TIME_LIMIT as int)
                &&& f.time_left <= f.period
            },
            Animation::Flip(f) => {
                &&& within(f.period as int, TIME_LIMIT as int)
                &&& (f.period > 0 ==> -f.period <= f.time_left <= f.period)
                &&& (f.period <= 0 ==> f.time_left == f.period)
                &&& pair_within(f.new_centre_position, SIZE_LIMIT)
                &&& 0 <= f.new_image_size.0 <= SIZE_LIMIT
                &&& 0 <= f.new_image_size.1 <= SIZE_LIMIT
                &&& pair_within(f.new_scale, SIZE_LIMIT)
                &&& (f.original_scale matches Some(s) ==> pair_within(s, SIZE_LIMIT))
            },
        }
    }
}

/// `d * a / b`, rounded towards zero.
pub open spec fn portion(d: int, a: int, b: int) -> int {
    if d >= 0 {
        (d * a) / b
    } else {
        -(((-d) * a) / b)
    }
}

proof fn lemma_portion(d: int, a: int, b: int)
    requires
        0 <= a <= b,
        0 < b,
    ensures
        d >= 0 ==> 0 <= portion(d, a, b) <= d,
        d < 0 ==> d <= portion(d, a, b) <= 0,
{
    let m = if d >= 0 { d } else { -d };
    lemma_mul_inequality(a, b, m);
    assert(a * m == m * a) by (nonlinear_arith);
    assert(b * m == m * b) by (nonlinear_arith);
    assert(0 <= m * a) by (nonlinear_arith)
        requires
            0 <= m,
            0 <= a,
    ;
    lemma_div_is_ordered(m * a, m * b, b);
    lemma_div_is_ordered(0, m * a, b);
    lemma_div_multiples_vanish(m, b);
    assert(b * m == m * b) by (nonlinear_arith);
}

/// `d * a / b`, rounded towards zero.
fn portion_of(d: i64, a: i64, b: i64) -> (r: i64)
    requires
        within(d as int, 4 * POSITION_LIMIT),
        0 <= a <= b,
        0 < b <= 4 * TIME_LIMIT,
    ensures
        r == portion(d as int, a as int, b as int),
        d >= 0 ==> 0 <= r <= d,
        d < 0 ==> d <= r <= 0,
{
    proof {
        lemma_portion(d as int, a as int, b as int);
    }
    let m: u128 = if d >= 0 { d as u128 } else { (-d) as u128 };
    let ghost mi = m as int;
    let ghost ai = a as int;
    assert(mi * ai <= 4_000_000_000_000_000 * ai) by (nonlinear_arith)
        requires
            0 <= mi <= 4_000_000_000_000_000,
            0 <= ai,
    ;
    assert(4_000_000_000_000_000 * ai <= 4_000_000_000_000_000 * 4_000_000_000_000_000) by (nonlinear_arith)
        requires
            0 <= ai <= 4_000_000_000_000_000,
    ;
    let q = (m * (a as u128) / (b as u128)) as i64;
    if d >= 0 {
        q
    } else {
        -q
    }
}

pub open spec fn with_position(p: InstanceParameter, position: (i64, i64)) -> InstanceParameter {
    InstanceParameter { position, ..p }
}

pub open spec fn with_visible(p: InstanceParameter, visible: bool) -> InstanceParameter {
    InstanceParameter { visible, ..p }
}

/// One frame of a straight glide, `dt` after the last one.
pub open spec fn move_step(m: GlideMove, p: InstanceParameter, dt: int) -> (InstanceParameter, GlideMove, AnimationState) {
    if m.time_left <= dt {
        (p, m, AnimationState::Finished)
    } else {
        let x = p.position.0 + portion(m.destination.0 - p.position.0, dt, m.time_left as int);
        let y = p.position.1 + portion(m.destination.1 - p.position.1, dt, m.time_left as int);
        (with_position(p, (x as i64, y as i64)), GlideMove { time_left: (m.time_left - dt) as i64, ..m }, AnimationState::Continue)
    }
}

/// Where an instance stands when it is just out of view on the given side.
pub open spec fn off_view(g: GlideVisibility, p: InstanceParameter) -> int {
    match g.side {
        Side::Left => -(p.image_size.0 - p.centre_position.0),
        Side::Right => g.view_width + p.image_size.0 - p.centre_position.0,
    }
}

/// The start of a glide through the side: an entering instance is put out of
/// view and heads home; a leaving one heads out of view.
pub open spec fn slide_start(g: GlideVisibility, p: InstanceParameter) -> (InstanceParameter, SlideTrack) {
    let home = p.position;
    let out = (off_view(g, p) as i64, p.position.1);
    if g.showing {
        (with_position(p, out), SlideTrack { mover: GlideMove { destination: home, time_left: g.period }, home })
    } else {
        (p, SlideTrack { mover: GlideMove { destination: out, time_left: g.period }, home })
    }
}

/// Opacity of a fade with `time_left` of its period to go.
pub open spec fn fade_alpha(f: FadeVisibility, time_left: int) -> int {
    if f.showing {
        portion(UNIT as int, f.period - time_left, f.period as int)
    } else {
        portion(UNIT as int, time_left, f.period as int)
    }
}

pub open spec fn abs(v: int) -> int {
    if v < 0 { -v } else { v }
}

pub open spec fn max(a: int, b: int) -> int {
    if a < b { b } else { a }
}

/// The parameters after the flip has swapped the image.
pub open spec fn flip_swap(f: FlipChange, p: InstanceParameter) -> InstanceParameter {
    InstanceParameter {
        image: f.new_image,
        image_size: f.new_image_size,
        centre_position: f.new_centre_position,
        ..p
    }
}

/// One frame of a flip.
pub open spec fn flip_step(f: FlipChange, p: InstanceParameter, dt: int) -> (InstanceParameter, FlipChange, AnimationState) {
    let original = match f.original_scale {
        Some(s) => s,
        None => p.scale,
    };
    if f.time_left <= 0 && f.time_left <= -f.period {
        (p, f, AnimationState::Finished)
    } else {
        let t = max(f.time_left - dt, -f.period);
        let swapped = f.time_left > 0 && t <= 0;
        let before = if swapped { flip_swap(f, p) } else { p };
        let s = if swapped { f.new_scale } else { original };
        let width = portion(s.0 as int, abs(t), f.period as int);
        (
            InstanceParameter { scale: (width as i64, before.scale.1), ..before },
            FlipChange { time_left: t as i64, original_scale: Some(s), ..f },
            AnimationState::Continue,
        )
    }
}

/// One frame of an animation, `dt` after the last one.
pub open spec fn update_spec(a: Animation, p: InstanceParameter, dt: int) -> (InstanceParameter, Animation, AnimationState) {
    match a {
        Animation::Move(m) => {
            let (q, n, s) = move_step(m, p, dt);
            (q, Animation::Move(n), s)
        },
        Animation::Slide(g) => {
            let before = with_visible(p, true);
            let (started, track) = match g.track {
                Some(t) => (before, t),
                None => slide_start(g, before),
            };
            let (q, n, s) = move_step(track.mover, started, dt);
            (q, Animation::Slide(GlideVisibility { track: Some(SlideTrack { mover: n, ..track }), ..g }), s)
        },
        Animation::Fade(f) => {
            let t = f.time_left - dt;
            if t <= 0 {
                (p, a, AnimationState::Finished)
            } else {
                (
                    InstanceParameter { alpha: fade_alpha(f, t) as i64, visible: true, ..p },
                    Animation::Fade(FadeVisibility { time_left: t as i64, ..f }),
                    AnimationState::Continue,
                )
            }
        },
        Animation::Flip(f) => {
            let (q, n, s) = flip_step(f, p, dt);
            (q, Animation::Flip(n), s)
        },
    }
}

/// The parameters in the end state that the animation declares.
pub open spec fn finish_spec(a: Animation, p: InstanceParameter) -> InstanceParameter {
    match a {
        Animation::Move(m) => with_position(p, m.destination),
        Animation::Slide(g) => match g.track {
            Some(t) => InstanceParameter { visible: g.showing, position: t.home, ..p },
            None => with_visible(p, g.showing),
        },
        Animation::Fade(f) => InstanceParameter { alpha: UNIT, visible: f.showing, ..p },
        Animation::Flip(f) => InstanceParameter { scale: f.new_scale, ..flip_swap(f, p) },
    }
}

fn glide_move(m: &mut GlideMove, p: &mut InstanceParameter, dt: i64) -> (r: AnimationState)
    requires
        old(p).wf(),
        pair_within(old(m).destination, POSITION_LIMIT),
        within(old(m).time_left as int, TIME_LIMIT as int),
        0 <= dt <= TIME_LIMIT,
    ensures
        (*final(p), *final(m), r) == move_step(*old(m), *old(p), dt as int),
        final(p).wf(),
        within(final(m).time_left as int, TIME_LIMIT as int),
{
    if m.time_left <= dt {
        return AnimationState::Finished;
    }
    let dx = portion_of(m.destination.0 - p.position.0, dt, m.time_left);
    let dy = portion_of(m.destination.1 - p.position.1, dt, m.time_left);
    p.position = (p.position.0 + dx, p.position.1 + dy);
    m.time_left = m.time_left - dt;
    AnimationState::Continue
}

impl Animation {
    /// Advances the animation by `dt`.
    pub fn update(&mut self, p: &mut InstanceParameter, dt: i64) -> (r: AnimationState)
        requires
            old(self).wf(),
            old(p).wf(),
            0 <= dt <= TIME_LIMIT,
        ensures
            (*final(p), *final(self), r) == update_spec(*old(self), *old(p), dt as int),
            final(self).wf(),
            final(p).wf(),
    {
        match self {
            Animation::Move(m) => glide_move(m, p, dt),
            Animation::Slide(g) => {
                p.visible = true;
                let mut track = match g.track {
                    Some(t) => t,
                    None => {
                        let home = p.position;
                        let out = match g.side {
                            Side::Left => -(p.image_size.0 - p.centre_position.0),
                            Side::Right => g.view_width + p.image_size.0 - p.centre_position.0,
                        };
                        if g.showing {
                            p.position = (out, p.position.1);
                            SlideTrack { mover: GlideMove { destination: home, time_left: g.period }, home }
                        } else {
                            SlideTrack { mover: GlideMove { destination: (out, p.position.1), time_left: g.period }, home }
                        }
                    },
                };
                let r = glide_move(&mut track.mover, p, dt);
                g.track = Some(track);
                r
            },
            Animation::Fade(f) => {
                let t = f.time_left - dt;
                if t <= 0 {
                    return AnimationState::Finished;
                }
                p.alpha = if f.showing {
                    portion_of(UNIT, f.period - t, f.period)
                } else {
                    portion_of(UNIT, t, f.period)
                };
                p.visible = true;
                f.time_left = t;
                AnimationState::Continue
            },
            Animation::Flip(f) => {
                if f.time_left <= 0 && f.time_left <= -f.period {
                    return AnimationState::Finished;
                }
                let original = match f.original_scale {
                    Some(s) => s,
                    None => p.scale,
                };
                let t = if f.time_left - dt < -f.period { -f.period } else { f.time_left - dt };
                let swapped = f.time_left > 0 && t <= 0;
                if swapped {
                    p.image = f.new_image.clone();
                    p.image_size = f.new_image_size;
                    p.centre_position = f.new_centre_position;
                }
                let s = if swapped { f.new_scale } else { original };
                let width = portion_of(s.0, if t < 0 { -t } else { t }, f.period);
                p.scale = (width, p.scale.1);
                f.time_left = t;
                f.original_scale = Some(s);
                AnimationState::Continue
            },
        }
    }

    /// Puts the parameters in the end state that the animation declares.
    pub fn finish(&self, p: &mut InstanceParameter)
        requires
            self.wf(),
            old(p).wf(),
        ensures
            *final(p) == finish_spec(*self, *old(p)),
            final(p).wf(),
    {
        match self {
            Animation::Move(m) => {
                p.position = m.destination;
            },
            Animation::Slide(g) => {
                p.visible = g.showing;
                if let Some(t) = g.track {
                    p.position = t.home;
                }
            },
            Animation::Fade(f) => {
                p.alpha = UNIT;
                p.visible = f.showing;
            },
            Animation::Flip(f) => {
                p.image = f.new_image.clone();
                p.image_size = f.new_image_size;
                p.centre_position = f.new_centre_position;
                p.scale = f.new_scale;
            },
        }
    }
}

/// Argument `i`, or `default` where it is absent or `_`.
pub open spec fn argument(args: Seq<Option<i64>>, i: int, default: i64) -> i64 {
    if 0 <= i < args.len() && args[i] is Some {
        args[i]->Some_0
    } else {
        default
    }
}

pub(crate) fn argument_of(args: &Vec<Option<i64>>, i: usize, default: i64) -> (r: i64)
    ensures
        r == argument(args@, i as int, default),
{
    if i < args.len() {
        match args[i] {
            Some(v) => v,
            None => default,
        }
    } else {
        default
    }
}

/// Arguments of an animation used on a `Position` command. When it finishes,
/// the instance stands at `destination`.
pub struct PositionAnimation {
    pub destination: (i64, i64),
    pub arguments: Vec<Option<i64>>,
}

/// Arguments of an animation used on a `Show` command. When it finishes,
/// the instance is visible.
pub struct ShowAnimation {
    pub arguments: Vec<Option<i64>>,
    pub view_dimensions: (i64, i64),
}

/// Arguments of an animation used on a `Hide` command. When it finishes,
/// the instance is invisible.
pub struct HideAnimation {
    pub arguments: Vec<Option<i64>>,
    pub view_dimensions: (i64, i64),
}

/// Arguments of an animation used on a `Spawn` command.
pub struct SpawnAnimation {
    pub arguments: Vec<Option<i64>>,
    pub view_dimensions: (i64, i64),
}

/// Arguments of an animation used on a `Kill` command.
pub struct KillAnimation {
    pub arguments: Vec<Option<i64>>,
    pub view_dimensions: (i64, i64),
}

/// Arguments of an animation used on a `Change` command. When it finishes,
/// the instance has the new image, centre and scale.
pub struct ChangeAnimation {
    pub new_centre_position: (i64, i64),
    pub new_image: String,
    pub new_image_size: (i64, i64),
    pub new_scale: (i64, i64),
    pub arguments: Vec<Option<i64>>,
}

/// A glide that moves an instance to `destination`; the first argument is
/// the duration.
pub open spec fn glide_move_of(destination: (i64, i64), args: Seq<Option<i64>>) -> Animation {
    Animation::Move(GlideMove { destination, time_left: argument(args, 0, GLIDE_PERIOD) })
}

/// A glide through the side of the view; the first argument is the duration,
/// the second the side (`0` left, `1` right).
pub open spec fn glide_visibility_of(showing: bool, args: Seq<Option<i64>>, view: (i64, i64)) -> Animation {
    Animation::Slide(GlideVisibility {
        showing,
        period: argument(args, 0, GLIDE_PERIOD),
        side: if argument(args, 1, 0) == UNIT { Side::Right } else { Side::Left },
        view_width: view.0,
        track: None,
    })
}

/// A fade; the first argument is the duration.
pub open spec fn fade_of(showing: bool, args: Seq<Option<i64>>) -> Animation {
    let period = argument(args, 0, FADE_PERIOD);
    Animation::Fade(FadeVisibility { showing, period, time_left: period })
}

/// A flip to the new state; the first argument is the duration of each half.
pub open spec fn flip_of(c: ChangeAnimation) -> Animation {
    let period = argument(c.arguments@, 0, FLIP_PERIOD);
    Animation::Flip(FlipChange {
        period,
        time_left: period,
        new_centre_position: c.new_centre_position,
        new_image: c.new_image,
        new_image_size: c.new_image_size,
        new_scale: c.new_scale,
        original_scale: None,
    })
}

pub(crate) fn glide_visibility(showing: bool, args: &Vec<Option<i64>>, view: (i64, i64)) -> (r: Animation)
    ensures
        r == glide_visibility_of(showing, args@, view),
{
    let side = if argument_of(args, 1, 0) == UNIT { Side::Right } else { Side::Left };
    Animation::Slide(GlideVisibility { showing, period: argument_of(args, 0, GLIDE_PERIOD), side, view_width: view.0, track: None })
}

pub(crate) fn fade(showing: bool, args: &Vec<Option<i64>>) -> (r: Animation)
    ensures
        r == fade_of(showing, args@),
{
    let period = argument_of(args, 0, FADE_PERIOD);
    Animation::Fade(FadeVisibility { showing, period, time_left: period })
}

/// Glide: moves an instance in a straight line, or through a side of the view.
#[derive(Debug, Clone, Copy)]
pub struct Glide;

impl Glide {
    pub fn for_position(&self, a: PositionAnimation) -> (r: Animation)
        ensures
            r == glide_move_of(a.destination, a.arguments@),
    {
        Animation::Move(GlideMove { destination: a.destination, time_left: argument_of(&a.arguments, 0, GLIDE_PERIOD) })
    }

    pub fn for_show(&self, a: ShowAnimation) -> (r: Animation)
        ensures
            r == glide_visibility_of(true, a.arguments@, a.view_dimensions),
    {
        glide_visibility(true, &a.arguments, a.view_dimensions)
    }

    pub fn for_hide(&self, a: HideAnimation) -> (r: Animation)
        ensures
            r == glide_visibility_of(false, a.arguments@, a.view_dimensions),
    {
        glide_visibility(false, &a.arguments, a.view_dimensions)
    }

    pub fn for_spawn(&self, a: SpawnAnimation) -> (r: Animation)
        ensures
            r == glide_visibility_of(true, a.arguments@, a.view_dimensions),
    {
        glide_visibility(true, &a.arguments, a.view_dimensions)
    }

    pub fn for_kill(&self, a: KillAnimation) -> (r: Animation)
        ensures
            r == glide_visibility_of(false, a.arguments@, a.view_dimensions),
    {
        glide_visibility(false, &a.arguments, a.view_dimensions)
    }
}

/// Fade: ramps the opacity of an instance.
#[derive(Debug, Clone, Copy)]
pub struct Fade;

impl Fade {
    pub fn for_show(&self, a: ShowAnimation) -> (r: Animation)
        ensures
            r == fade_of(true, a.arguments@),
    {
        fade(true, &a.arguments)
    }

    pub fn for_hide(&self, a: HideAnimation) -> (r: Animation)
        ensures
            r == fade_of(false, a.arguments@),
    {
        fade(false, &a.arguments)
    }

    pub fn for_spawn(&self, a: SpawnAnimation) -> (r: Animation)
        ensures
            r == fade_of(true, a.arguments@),
    {
        fade(true, &a.arguments)
    }

    pub fn for_kill(&self, a: KillAnimation) -> (r: Animation)
        ensures
            r == fade_of(false, a.arguments@),
    {
        fade(false, &a.arguments)
    }
}

/// Flip: turns an instance over to show its new state.
#[derive(Debug, Clone, Copy)]
pub struct Flip;

impl Flip {
    pub fn for_change(&self, a: ChangeAnimation) -> (r: Animation)
        ensures
            r == flip_of(a),
    {
        let period = argument_of(&a.arguments, 0, FLIP_PERIOD);
        Animation::Flip(FlipChange {
            period,
            time_left: period,
            new_centre_position: a.new_centre_position,
            new_image: a.new_image,
            new_image_size: a.new_image_size,
            new_scale: a.new_scale,
            original_scale: None,
        })
    }
}

proof fn lemma_argument(args: Seq<Option<i64>>, i: int, default: i64)
    requires
        args_wf(args),
        within(default as int, TIME_LIMIT as int),
    ensures
        within(argument(args, i, default) as int, TIME_LIMIT as int),
{
    if 0 <= i < args.len() && args[i] is Some {
        assert(args[i] matches Some(v) ==> -TIME_LIMIT <= v <= TIME_LIMIT);
    }
}

/// The animations that the producers make are well formed.
pub proof fn lemma_produced_wf(args: Seq<Option<i64>>, showing: bool, destination: (i64, i64), view: (i64, i64))
    requires
        args_wf(args),
        pair_within(destination, POSITION_LIMIT),
        0 <= view.0 <= SIZE_LIMIT,
    ensures
        glide_move_of(destination, args).wf(),
        glide_visibility_of(showing, args, view).wf(),
        fade_of(showing, args).wf(),
{
    lemma_argument(args, 0, GLIDE_PERIOD);
    lemma_argument(args, 0, FADE_PERIOD);
}

pub proof fn lemma_flip_wf(c: ChangeAnimation)
    requires
        args_wf(c.arguments@),
        pair_within(c.new_centre_position, SIZE_LIMIT),
        0 <= c.new_image_size.0 <= SIZE_LIMIT,
        0 <= c.new_image_size.1 <= SIZE_LIMIT,
        pair_within(c.new_scale, SIZE_LIMIT),
    ensures
        flip_of(c).wf(),
{
    lemma_argument(c.arguments@, 0, FLIP_PERIOD);
}

/// A copy of the arguments of an animation.
pub fn copy_arguments(args: &Vec<Option<i64>>) -> (r: Vec<Option<i64>>)
    ensures
        r@ == args@,
{
    let mut r: Vec<Option<i64>> = Vec::new();
    let mut i: usize = 0;
    while i < args.len()
        invariant
            i <= args.len(),
            r@ == args@.subrange(0, i as int),
        decreases args.len() - i,
    {
        r.push(args[i]);
        assert(args@.subrange(0, i + 1) =~= args@.subrange(0, i as int).push(args@[i as int]));
        i = i + 1;
    }
    assert(args@.subrange(0, args.len() as int) =~= args@);
    r
}

/// A producer of animations, as registered under a name.
#[derive(Debug, Clone, Copy, PartialEq, Eq, Structural)]
pub enum Producer {
    Glide,
    Fade,
    Flip,
}

/// The producers that each kind of command can use, by name.
#[derive(Debug)]
pub struct AnimationMap {
    pub change: Vec<(String, Producer)>,
    pub position: Vec<(String, Producer)>,
    pub showing: Vec<(String, Producer)>,
    pub hiding: Vec<(String, Producer)>,
    pub spawn: Vec<(String, Producer)>,
    pub kill: Vec<(String, Producer)>,
}

pub open spec fn named(entries: Seq<(String, Producer)>, name: Seq<char>, p: Producer) -> bool {
    lookup(entries, name) == Some(p)
}

impl AnimationMap {
    /// The built-in animations: `flip` for changes, `glide` for positions, and
    /// `fade` and `glide` for showing, hiding, spawning and killing.
    pub open spec fn is_builtin(&self) -> bool {
        &&& named(self.change@, "flip"@, Producer::Flip)
        &&& named(self.position@, "glide"@, Producer::Glide)
        &&& named(self.showing@, "fade"@, Producer::Fade)
        &&& named(self.showing@, "glide"@, Producer::Glide)
        &&& named(self.hiding@, "fade"@, Producer::Fade)
        &&& named(self.hiding@, "glide"@, Producer::Glide)
        &&& named(self.spawn@, "fade"@, Producer::Fade)
        &&& named(self.spawn@, "glide"@, Producer::Glide)
        &&& named(self.kill@, "fade"@, Producer::Fade)
        &&& named(self.kill@, "glide"@, Producer::Glide)
    }
}

fn pair(name: &str, p: Producer) -> (r: (String, Producer))
    ensures
        r.0@ == name@,
        r.1 == p,
{
    (text(name), p)
}

impl Default for AnimationMap {
    fn default() -> (r: Self)
        ensures
            r.is_builtin(),
    {
        let mut change = Vec::new();
        let mut position = Vec::new();
        let mut showing = Vec::new();
        let mut hiding = Vec::new();
        let mut spawn = Vec::new();
        let mut kill = Vec::new();
        change.push(pair("flip", Producer::Flip));
        position.push(pair("glide", Producer::Glide));
        showing.push(pair("fade", Producer::Fade));
        showing.push(pair("glide", Producer::Glide));
        hiding.push(pair("fade", Producer::Fade));
        hiding.push(pair("glide", Producer::Glide));
        spawn.push(pair("fade", Producer::Fade));
        spawn.push(pair("glide", Producer::Glide));
        kill.push(pair("fade", Producer::Fade));
        kill.push(pair("glide", Producer::Glide));
        proof {
            reveal_with_fuel(lookup, 3);
            reveal_strlit("fade");
            reveal_strlit("glide");
            reveal_strlit("flip");
            assert("fade"@.len() != "glide"@.len());
            assert(showing@.drop_first()[0] == showing@[1]);
            assert(hiding@.drop_first()[0] == hiding@[1]);
            assert(spawn@.drop_first()[0] == spawn@[1]);
            assert(kill@.drop_first()[0] == kill@[1]);
        }
        AnimationMap { change, position, showing, hiding, spawn, kill }
    }
}

impl AnimationMap {
    /// The producer registered under `name` for the given kind of command.
    pub fn producer(entries: &Vec<(String, Producer)>, name: &String) -> (r: Option<Producer>)
        ensures
            r == lookup(entries@, name@),
    {
        match find(entries, name) {
            Some(i) => {
                proof {
                    crate::table::lemma_index_of(entries@, name@);
                }
                Some(entries[i].1)
            },
            None => {
                proof {
                    crate::table::lemma_index_of(entries@, name@);
                }
                None
            },
        }
    }
}

} // verus!
