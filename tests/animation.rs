use kanna::animation::{
    Animation, AnimationMap, AnimationState, ChangeAnimation, Fade, Flip, Glide, HideAnimation, InstanceParameter,
    KillAnimation, PositionAnimation, Producer, ShowAnimation, SpawnAnimation,
};
use kanna::character::{CharacterState, Characters, Stage};
use kanna::game::{EngineError, GameState};
use kanna::parser::parse;
use kanna::{CharacterName, InstanceName, Script, Settings, StateName};

fn parameter() -> InstanceParameter {
    InstanceParameter {
        centre_position: (50_000, 100_000),
        image: "c.png".to_owned(),
        image_size: (100_000, 200_000),
        position: (200_000, 10_000),
        scale: (1000, 1000),
        visible: true,
        alpha: 1000,
    }
}

#[test]
fn finish_puts_each_animation_in_its_end_state() {
    let mut p = parameter();
    Glide.for_position(PositionAnimation { destination: (1, 2), arguments: vec![] }).finish(&mut p);
    assert_eq!(p.position, (1, 2));

    let mut p = parameter();
    p.visible = false;
    Fade.for_show(ShowAnimation { arguments: vec![], view_dimensions: (640_000, 480_000) }).finish(&mut p);
    assert!(p.visible);
    assert_eq!(p.alpha, 1000);

    let mut p = parameter();
    let mut fade = Fade.for_hide(HideAnimation { arguments: vec![Some(100_000)], view_dimensions: (0, 0) });
    assert_eq!(fade.update(&mut p, 50_000), AnimationState::Continue);
    assert_eq!(p.alpha, 500);
    fade.finish(&mut p);
    assert!(!p.visible);
    assert_eq!(p.alpha, 1000);

    let mut p = parameter();
    let mut glide = Glide.for_kill(KillAnimation { arguments: vec![Some(1000_000)], view_dimensions: (640_000, 480_000) });
    glide.update(&mut p, 0);
    glide.finish(&mut p);
    assert!(!p.visible);
    assert_eq!(p.position, (200_000, 10_000));

    let mut p = parameter();
    Glide.for_spawn(SpawnAnimation { arguments: vec![], view_dimensions: (640_000, 480_000) }).finish(&mut p);
    assert!(p.visible);
    Fade.for_kill(KillAnimation { arguments: vec![], view_dimensions: (0, 0) }).finish(&mut p);
    assert!(!p.visible);
    Fade.for_spawn(SpawnAnimation { arguments: vec![], view_dimensions: (0, 0) }).finish(&mut p);
    assert!(p.visible);
    Glide.for_hide(HideAnimation { arguments: vec![], view_dimensions: (0, 0) }).finish(&mut p);
    assert!(!p.visible);
    Glide.for_show(ShowAnimation { arguments: vec![], view_dimensions: (0, 0) }).finish(&mut p);
    assert!(p.visible);

    let mut p = parameter();
    let flip = Flip.for_change(ChangeAnimation {
        new_centre_position: (1, 1),
        new_image: "d.png".to_owned(),
        new_image_size: (2, 2),
        new_scale: (3, 3),
        arguments: vec![],
    });
    flip.finish(&mut p);
    assert_eq!(p.image, "d.png");
    assert_eq!(p.image_size, (2, 2));
    assert_eq!(p.centre_position, (1, 1));
    assert_eq!(p.scale, (3, 3));
}

#[test]
fn glide_left_starts_out_of_view() {
    let mut p = parameter();
    let mut glide = Glide.for_show(ShowAnimation { arguments: vec![Some(1_000_000), Some(0)], view_dimensions: (640_000, 480_000) });
    assert_eq!(glide.update(&mut p, 0), AnimationState::Continue);
    assert_eq!(p.position, (-50_000, 10_000));
    assert!(matches!(glide, Animation::Slide(_)));
    assert_eq!(glide.update(&mut p, 500_000), AnimationState::Continue);
    assert_eq!(p.position, (75_000, 10_000));
    assert_eq!(glide.update(&mut p, 500_000), AnimationState::Finished);
}

#[test]
fn builtin_registry() {
    let map = AnimationMap::default();
    assert_eq!(AnimationMap::producer(&map.change, &"flip".to_owned()), Some(Producer::Flip));
    assert_eq!(AnimationMap::producer(&map.showing, &"glide".to_owned()), Some(Producer::Glide));
    assert_eq!(AnimationMap::producer(&map.hiding, &"fade".to_owned()), Some(Producer::Fade));
    assert_eq!(AnimationMap::producer(&map.position, &"fade".to_owned()), None);
}

#[test]
fn default_settings() {
    let settings = Settings::default();
    assert_eq!(settings.width, 640_000);
    assert_eq!(settings.height, 480_000);
    assert_eq!(settings.text_speed, 32);
    assert_eq!(settings.save_path, "/save.toml");
    assert!(!settings.developer);
}

fn script_with(source: &str) -> Script {
    let mut script = parse(source).unwrap();
    let mut characters = Characters::new();
    characters.insert(CharacterName("C".to_owned()), vec![("s".to_owned(), CharacterState::new("c.png".to_owned()))]);
    script.characters = characters;
    script
}

#[test]
fn missing_resources_listed_once() {
    let mut script = script_with("stage \"bg.png\"\nstage \"bg.png\"\nmusic \"m.ogg\"\nsound \"s.ogg\"\nsound \"m.ogg\"\n\"x\"\n");
    assert_eq!(script.missing_images(), vec!["c.png".to_owned(), "bg.png".to_owned()]);
    assert_eq!(script.missing_audio(), vec!["m.ogg".to_owned(), "s.ogg".to_owned()]);
    script.images.push(("bg.png".to_owned(), (1, 1)));
    assert_eq!(script.missing_images(), vec!["c.png".to_owned()]);
}

#[test]
fn change_arguments_resolve_the_state() {
    let mut script = script_with("\"x\"\n");
    let c = ChangeAnimation::new(vec![None], &CharacterName("C".to_owned()), &script, &StateName("s".to_owned()));
    assert_eq!(c.err(), Some(EngineError::UnknownImage));
    script.images.push(("c.png".to_owned(), (4_000, 6_000)));
    let c = ChangeAnimation::new(vec![None], &CharacterName("C".to_owned()), &script, &StateName("s".to_owned())).unwrap();
    assert_eq!(c.new_centre_position, (2_000, 3_000));
    assert_eq!(c.new_image, "c.png");
    let c = ChangeAnimation::new(vec![], &CharacterName("C".to_owned()), &script, &StateName("t".to_owned()));
    assert_eq!(c.err(), Some(EngineError::UnknownState));
}

#[test]
fn stage_lookup_and_removal() {
    let mut script = script_with("spawn \"C\" \"s\" (1,1) \"A\"\nspawn \"C\" \"s\" (2,2) \"B\"\n\"x\"\n");
    script.images.push(("c.png".to_owned(), (4_000, 6_000)));
    let mut g = GameState::new(script, Settings::default()).unwrap();
    assert_eq!(g.render.stage.get(&InstanceName("B".to_owned())).unwrap().position, (2_000, 2_000));
    g.render.stage.remove(&InstanceName("A".to_owned()));
    assert!(g.render.stage.get(&InstanceName("A".to_owned())).is_none());
    assert_eq!(g.render.stage.0.len(), 1);
    let empty = Stage::new();
    assert!(empty.get(&InstanceName("B".to_owned())).is_none());
}

#[test]
fn removal_takes_every_entry_of_the_name() {
    let state = CharacterState::new("c.png".to_owned());
    let make = || kanna::character::Instance::new(CharacterName("C".to_owned()), &state, (10, 10), (0, 0));
    let mut stage = Stage(vec![("A".to_owned(), make()), ("B".to_owned(), make()), ("A".to_owned(), make())]);
    stage.remove(&InstanceName("A".to_owned()));
    assert_eq!(stage.0.len(), 1);
    assert_eq!(stage.0[0].0, "B");
}
