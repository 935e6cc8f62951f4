use kanna::character::CharacterState;
use kanna::game::{EngineError, GameState};
use kanna::parser::parse;
use kanna::{CharacterName, History, Label, Script, Settings};

const SCRIPT_B: &str = "\"Choose.\"\ndiverge\n\t\"Left\"  l-left\n\t\"Right\" l-right\nlabel l-left\n\"You went left.\"\njump end\nlabel l-right\n\"You went right.\"\nlabel end\n\"Done.\"\n";

fn start(source: &str) -> GameState {
    GameState::new(parse(source).unwrap(), Settings::default()).unwrap()
}

fn body(g: &GameState) -> String {
    g.render.text.as_ref().unwrap().string.clone()
}

fn speaker(g: &GameState) -> Option<String> {
    g.render.character.as_ref().map(|t| t.string.clone())
}

/// Advances twice: once to show the dialogue whole, once to run on.
fn next_line(g: &mut GameState) {
    g.advance().unwrap();
    g.advance().unwrap();
}

fn with_portraits(source: &str) -> Script {
    let mut script = parse(source).unwrap();
    let states = vec![
        ("normal".to_owned(), CharacterState::new("c.png".to_owned())),
        ("happy".to_owned(), CharacterState::new("h.png".to_owned()).centre_position((10, 20)).scale((2000, 2000))),
    ];
    script.characters.insert(CharacterName("C".to_owned()), states);
    script.images.push(("c.png".to_owned(), (100_000, 200_000)));
    script.images.push(("h.png".to_owned(), (50_000, 60_000)));
    script.images.push(("bg.png".to_owned(), (640_000, 480_000)));
    script.audio.push(("m.ogg".to_owned(), ()));
    script
}

#[test]
fn minimal_dialogue() {
    let mut g = start("\"Alice\" \"Hello.\"\n\"Goodbye.\"\n");
    assert_eq!(body(&g), "Hello.");
    assert_eq!(speaker(&g), Some("Alice".to_owned()));
    next_line(&mut g);
    assert_eq!(body(&g), "Goodbye.");
    assert_eq!(speaker(&g), None);
}

#[test]
fn divergence_and_labels() {
    let mut g = start(SCRIPT_B);
    let mut seen = vec![body(&g)];
    next_line(&mut g);
    assert_eq!(g.render.branches.len(), 2);
    assert_eq!(g.render.branches[0].0, "Left");
    g.diverge(&Label("l-left".to_owned())).unwrap();
    seen.push(body(&g));
    assert!(g.render.branches.is_empty());
    next_line(&mut g);
    seen.push(body(&g));
    assert_eq!(seen, vec!["Choose.", "You went left.", "Done."]);
    assert_eq!(g.history.divergences.iter().map(|l| l.0.clone()).collect::<Vec<_>>(), vec!["l-left"]);
    assert_eq!(g.history.execution_count, 5);
}

#[test]
fn click_chooses_only_on_a_button() {
    let mut g = start(SCRIPT_B);
    g.click(None).unwrap();
    g.click(None).unwrap();
    assert!(g.at_diverge());
    g.click(None).unwrap();
    assert!(g.at_diverge());
    g.click(Some(1)).unwrap();
    assert_eq!(body(&g), "You went right.");
}

#[test]
fn resume_from_history() {
    let mut live = start(SCRIPT_B);
    next_line(&mut live);
    live.diverge(&Label("l-right".to_owned())).unwrap();
    next_line(&mut live);
    assert_eq!(body(&live), "Done.");
    let history = History {
        execution_count: live.history.execution_count,
        divergences: live.history.divergences.iter().map(|l| Label(l.0.clone())).collect(),
    };
    assert_eq!(history.execution_count, 4);
    let resumed = GameState::load(parse(SCRIPT_B).unwrap(), Settings::default(), history).unwrap();
    assert_eq!(resumed.history.execution_count, live.history.execution_count);
    assert_eq!(resumed.state.target, live.state.target);
    assert_eq!(body(&resumed), body(&live));
    assert_eq!(resumed.render.text.as_ref().unwrap().end, live.render.text.as_ref().unwrap().end);
    assert_eq!(speaker(&resumed), speaker(&live));
    assert_eq!(resumed.history.divergences.len(), 1);
}

#[test]
fn inconsistent_history_rejected() {
    let history = History { execution_count: 3, divergences: vec![] };
    assert_eq!(GameState::load(parse(SCRIPT_B).unwrap(), Settings::default(), history).err(), Some(EngineError::InconsistentHistory));
    let history = History { execution_count: 1, divergences: vec![Label("l-left".to_owned())] };
    assert_eq!(GameState::load(parse(SCRIPT_B).unwrap(), Settings::default(), history).err(), Some(EngineError::InconsistentHistory));
}

#[test]
fn count_tracks_commands_run() {
    let mut g = start("\"a\"\n\"b\"\npause\n\"c\"\n");
    assert_eq!(g.history.execution_count, 1);
    g.advance().unwrap();
    assert_eq!(g.history.execution_count, 1);
    g.advance().unwrap();
    assert_eq!(g.history.execution_count, 2);
    next_line(&mut g);
    assert_eq!(g.history.execution_count, 3);
    g.advance().unwrap();
    assert_eq!(g.history.execution_count, 4);
    assert_eq!(body(&g), "c");
}

#[test]
fn engine_errors() {
    let script = parse("jump nowhere\n").unwrap();
    assert_eq!(GameState::new(script, Settings::default()).err(), Some(EngineError::UnknownLabel));
    let script = parse("flag f\n").unwrap();
    assert_eq!(GameState::new(script, Settings::default()).err(), Some(EngineError::OutOfRange));
    let script = parse("label a\nflag x\njump a\n").unwrap();
    assert_eq!(GameState::new(script, Settings::default()).err(), Some(EngineError::Runaway));
    let script = parse("show \"nobody\"\n").unwrap();
    assert_eq!(GameState::new(script, Settings::default()).err(), Some(EngineError::UnknownInstance));
    let script = parse("stage \"missing.png\"\n").unwrap();
    assert_eq!(GameState::new(script, Settings::default()).err(), Some(EngineError::UnknownImage));
    let script = parse("music \"missing.ogg\"\n").unwrap();
    assert_eq!(GameState::new(script, Settings::default()).err(), Some(EngineError::UnknownAudio));
    let script = with_portraits("spawn \"C\" \"angry\" (0,0)\n\"x\"\n");
    assert_eq!(GameState::new(script, Settings::default()).err(), Some(EngineError::UnknownState));
    let script = with_portraits("spawn \"C\" \"normal\" (0,0) with spin[1]\n\"x\"\n");
    assert_eq!(GameState::new(script, Settings::default()).err(), Some(EngineError::UnknownAnimation));
}

#[test]
fn flags_steer_jumps() {
    let source = "if f yes\n\"no\"\nflag f\nif f yes\n\"unreached\"\nlabel yes\n\"yes\"\nunflag f\nif f yes\n\"end\"\n";
    let mut g = start(source);
    assert_eq!(body(&g), "no");
    next_line(&mut g);
    assert_eq!(body(&g), "yes");
    next_line(&mut g);
    assert_eq!(body(&g), "end");
}

#[test]
fn resources_and_audio() {
    let script = with_portraits("stage \"bg.png\"\nmusic \"m.ogg\"\nsound \"m.ogg\"\nsound \"m.ogg\"\n\"x\"\n");
    let mut g = GameState::new(script, Settings::default()).unwrap();
    assert_eq!(g.render.background.as_deref(), Some("bg.png"));
    assert_eq!(g.state.music.as_deref(), Some("m.ogg"));
    assert_eq!(g.state.sounds.len(), 2);
    g.keep_sounds(&vec![false, true]);
    assert_eq!(g.state.sounds.len(), 1);
}

#[test]
fn glide_position() {
    let script = with_portraits("spawn \"C\" \"normal\" (0,0)\nposition \"C\" (100,0) with glide[1000]\n\"x\"\n");
    let mut g = GameState::new(script, Settings::default()).unwrap();
    for _ in 0..10 {
        g.update(100_000);
    }
    let c = &g.render.stage.0[0].1;
    assert_eq!(c.position, (100_000, 0));
    assert!(c.animation.is_none());
}

#[test]
fn glide_halfway() {
    let script = with_portraits("spawn \"C\" \"normal\" (0,0)\nposition \"C\" (100,0) with glide[1000]\n\"x\"\n");
    let mut g = GameState::new(script, Settings::default()).unwrap();
    g.update(250_000);
    assert_eq!(g.render.stage.0[0].1.position, (25_000, 0));
    g.update(250_000);
    assert_eq!(g.render.stage.0[0].1.position, (50_000, 0));
}

#[test]
fn fade_hide_completes_invisible() {
    let script = with_portraits("spawn \"C\" \"normal\" (0,0)\nhide \"C\" with fade[100]\n\"x\"\n");
    let mut g = GameState::new(script, Settings::default()).unwrap();
    g.update(25_000);
    assert_eq!(g.render.stage.0[0].1.alpha, 750);
    g.update(75_000);
    let c = &g.render.stage.0[0].1;
    assert!(!c.visible);
    assert_eq!(c.alpha, 1000);
    assert!(c.animation.is_none());
}

#[test]
fn advance_finishes_animations() {
    let script = with_portraits("spawn \"C\" \"normal\" (0,0) with glide[]\n\"x\"\nposition \"C\" (5,5) with glide[]\n\"y\"\n");
    let mut g = GameState::new(script, Settings::default()).unwrap();
    g.update(1_000);
    assert!(g.render.stage.0[0].1.position.0 < 0);
    g.advance().unwrap();
    assert_eq!(g.render.stage.0[0].1.position, (0, 0));
    assert!(g.render.stage.0[0].1.visible);
    g.advance().unwrap();
    g.advance().unwrap();
    assert_eq!(g.render.stage.0[0].1.position, (5_000, 5_000));
}

#[test]
fn kill_with_animation_sweeps() {
    let script = with_portraits("spawn \"C\" \"normal\" (0,0)\nkill \"C\" with fade[10]\n\"x\"\n\"y\"\n");
    let mut g = GameState::new(script, Settings::default()).unwrap();
    assert_eq!(g.render.stage.0.len(), 1);
    assert!(g.render.stage.0[0].1.to_be_killed);
    g.update(10_000);
    assert_eq!(g.render.stage.0.len(), 0);
    let script = with_portraits("spawn \"C\" \"normal\" (0,0)\nkill \"C\" with glide[]\n\"x\"\n\"y\"\n");
    let mut g = GameState::new(script, Settings::default()).unwrap();
    g.advance().unwrap();
    assert_eq!(g.render.stage.0.len(), 0);
    let script = with_portraits("spawn \"C\" \"normal\" (0,0)\nkill \"C\"\n\"x\"\n");
    let g = GameState::new(script, Settings::default()).unwrap();
    assert_eq!(g.render.stage.0.len(), 0);
}

#[test]
fn change_with_flip() {
    let script = with_portraits("spawn \"C\" \"normal\" (7,0)\nchange \"C\" \"happy\" with flip[100]\n\"x\"\n");
    let mut g = GameState::new(script, Settings::default()).unwrap();
    g.update(50_000);
    assert_eq!(g.render.stage.0[0].1.scale.0, 500);
    assert_eq!(g.render.stage.0[0].1.image, "c.png");
    g.update(50_000);
    assert_eq!(g.render.stage.0[0].1.image, "h.png");
    assert_eq!(g.render.stage.0[0].1.scale.0, 0);
    g.update(50_000);
    assert_eq!(g.render.stage.0[0].1.scale.0, 1000);
    g.update(50_000);
    assert_eq!(g.render.stage.0[0].1.scale.0, 2000);
    g.update(1);
    let c = &g.render.stage.0[0].1;
    assert!(c.animation.is_none());
    assert_eq!(c.scale, (2000, 2000));
    assert_eq!(c.centre_position, (10_000, 20_000));
    assert_eq!(c.image_size, (50_000, 60_000));
    assert_eq!(c.position, (7_000, 0));
}

#[test]
fn change_without_animation() {
    let script = with_portraits("spawn \"C\" \"normal\" (3,4) \"Other\"\nchange \"Other\" \"happy\"\n\"x\"\n");
    let g = GameState::new(script, Settings::default()).unwrap();
    let (name, c) = &g.render.stage.0[0];
    assert_eq!(name, "Other");
    assert_eq!(c.image, "h.png");
    assert_eq!(c.position, (3_000, 4_000));
    assert_eq!(c.centre_position, (10_000, 20_000));
}

#[test]
fn glide_show_from_right_edge() {
    let script = with_portraits("spawn \"C\" \"normal\" (100,0)\nhide \"C\"\nshow \"C\" with glide[1000, 1]\n\"x\"\n");
    let mut g = GameState::new(script, Settings::default()).unwrap();
    assert!(!g.render.stage.0[0].1.visible);
    g.update(0);
    let c = &g.render.stage.0[0].1;
    assert!(c.visible);
    assert_eq!(c.position.0, 640_000 + 100_000 - 50_000);
    g.advance().unwrap();
    assert_eq!(g.render.stage.0[0].1.position, (100_000, 0));
}

#[test]
fn dialogue_reveal() {
    let mut g = start("\"h\u{e9}!\"\n\"next\"\n");
    assert_eq!(g.render.text.as_ref().unwrap().fragment(), "");
    g.step_text();
    assert_eq!(g.render.text.as_ref().unwrap().fragment(), "h");
    g.step_text();
    g.step_text();
    assert!(g.render.text.as_ref().unwrap().is_finished());
    assert_eq!(g.render.text.as_ref().unwrap().fragment(), "h\u{e9}!");
    g.step_text();
    assert_eq!(g.render.text.as_ref().unwrap().end, 3);
    g.advance().unwrap();
    assert_eq!(body(&g), "next");
}

#[test]
fn count_overflow_reported() {
    let mut g = GameState::fresh(parse("\"a\"\n").unwrap(), Settings::default());
    g.history.execution_count = u64::MAX;
    assert_eq!(g.advance(), Err(EngineError::CountOverflow));
}
