use wasm_portfolio::scores::{high_scores_text, load_high_scores, ScoreEntry};
use wasm_portfolio::siege::{
    asteroid_score, boss_hp, popup_text, Damage, EKind, Key, KeyAction, Phase, Progress, PuKind,
};

fn key(name: &str) -> Key {
    let v: Vec<char> = name.chars().collect();
    Key::from_name(&v)
}

fn press(p: &mut Progress, name: &str) -> KeyAction {
    p.key(key(name), true)
}

fn playing() -> Progress {
    let mut p = Progress::new(Vec::new());
    let plan = p.start_game();
    assert!(!plan.boss);
    p
}

fn name_of(p: &Progress) -> String {
    p.name_buf.iter().collect()
}

fn table(p: &Progress) -> Vec<(String, u32)> {
    p.hs.iter().map(|e| (e.name.iter().collect(), e.score)).collect()
}

#[test]
fn key_names() {
    assert!(key("ArrowLeft") == Key::ArrowLeft);
    assert!(key("ArrowRight") == Key::ArrowRight);
    assert!(key("ArrowUp") == Key::ArrowUp);
    assert!(key("ArrowDown") == Key::ArrowDown);
    assert!(key("Backspace") == Key::Backspace);
    assert!(key("Enter") == Key::Enter);
    assert!(key("Escape") == Key::Escape);
    assert!(key(" ") == Key::Char(' '));
    assert!(key("q") == Key::Char('q'));
    assert!(key("é") == Key::Other);
    assert!(key("Shift") == Key::Other);
    assert!(key("") == Key::Other);
    assert!(key("ArrowLeftX") == Key::Other);
}

#[test]
fn held_keys_follow_down_and_up() {
    let mut p = Progress::new(Vec::new());
    assert!(p.key(Key::ArrowLeft, true) == KeyAction::Nothing);
    assert!(p.input.left);
    p.key(Key::Char(' '), false);
    assert!(!p.input.fire);
    p.key(Key::ArrowLeft, false);
    assert!(!p.input.left);
    p.key(Key::ArrowUp, true);
    p.key(Key::ArrowDown, true);
    p.key(Key::ArrowRight, true);
    assert!(p.input.up && p.input.down && p.input.right);
}

#[test]
fn first_key_unlocks_sound() {
    let mut p = Progress::new(Vec::new());
    assert!(!p.audio.unlocked);
    p.key(Key::Other, false);
    assert!(!p.audio.unlocked);
    p.key(Key::Other, true);
    assert!(p.audio.unlocked);
}

#[test]
fn space_on_title_starts_a_game() {
    let mut p = Progress::new(Vec::new());
    assert!(p.mode.state == Phase::Attract);
    assert!(press(&mut p, " ") == KeyAction::StartGame);
    assert!(p.input.fire);
    let plan = p.start_game();
    assert!(p.mode.state == Phase::Playing);
    assert_eq!(p.waves.wave, 1);
    assert_eq!(p.waves.budget, 6);
    assert_eq!(p.waves.spawned, 2);
    assert!(!plan.boss);
    assert_eq!(plan.rocks, 0);
}

#[test]
fn wave_budgets_grow_to_twenty_two() {
    let mut p = playing();
    for w in 2..=12u32 {
        p.start_next_wave();
        assert_eq!(p.waves.wave, w);
        assert_eq!(p.waves.budget, (4 + 2 * w).min(22));
        assert_eq!(p.waves.spawned, 2);
    }
}

#[test]
fn enhanced_mode_brings_rocks_and_the_dreadnought() {
    let mut p = Progress::new(Vec::new());
    assert!(p.set_enhanced(true));
    assert!(!p.set_enhanced(true));
    let plan = p.start_game();
    assert_eq!(plan.rocks, 2);
    let boss = p.jump_to_wave(5).unwrap();
    assert!(boss.boss);
    assert_eq!(boss.rocks, 3);
    assert_eq!(p.waves.budget, 3);
    assert_eq!(p.waves.spawned, 3);
    let w9 = p.jump_to_wave(9).unwrap();
    assert!(!w9.boss);
    assert_eq!(w9.rocks, 4);
    assert!(p.jump_to_wave(10).unwrap().boss);
    assert!(p.jump_to_wave(0).is_none());
}

#[test]
fn classic_mode_has_no_boss_waves() {
    let mut p = playing();
    let plan = p.jump_to_wave(5).unwrap();
    assert!(!plan.boss);
    assert_eq!(plan.rocks, 0);
    assert_eq!(p.waves.budget, 14);
}

#[test]
fn jump_needs_a_game_in_play() {
    let mut p = Progress::new(Vec::new());
    assert!(p.jump_to_wave(4).is_none());
    assert_eq!(p.waves.wave, 0);
}

#[test]
fn enemy_caps_and_spawn_timing() {
    let mut p = playing();
    assert_eq!(p.max_concurrent(), 6);
    assert_eq!(p.spawn_interval(), 2200);
    p.jump_to_wave(2);
    assert_eq!(p.spawn_interval(), 2040);
    p.jump_to_wave(3);
    assert_eq!(p.max_concurrent(), 7);
    p.jump_to_wave(10);
    assert_eq!(p.spawn_interval(), 760);
    p.jump_to_wave(11);
    assert_eq!(p.spawn_interval(), 700);
    p.jump_to_wave(40);
    assert_eq!(p.spawn_interval(), 700);
    assert_eq!(p.max_concurrent(), 12);
    let idle = Progress::new(Vec::new());
    assert_eq!(idle.spawn_interval(), 2360);
}

#[test]
fn enemy_mix_by_wave() {
    let mut p = playing();
    assert!(p.pick_enemy_type(99) == EKind::Grunt);
    p.jump_to_wave(2);
    assert!(p.pick_enemy_type(64) == EKind::Grunt);
    assert!(p.pick_enemy_type(65) == EKind::Darter);
    p.jump_to_wave(3);
    assert!(p.pick_enemy_type(44) == EKind::Grunt);
    assert!(p.pick_enemy_type(45) == EKind::Darter);
    assert!(p.pick_enemy_type(74) == EKind::Darter);
    assert!(p.pick_enemy_type(75) == EKind::Gunner);
    assert!(p.pick_enemy_type(199) == EKind::Gunner);
}

#[test]
fn spawning_respects_budget_and_cap() {
    let mut p = playing();
    assert!(p.wants_spawn());
    assert!(!p.spawn_slot(6));
    assert_eq!(p.waves.spawned, 2);
    assert!(p.spawn_slot(5));
    assert_eq!(p.waves.spawned, 3);
    while p.wants_spawn() {
        assert!(p.spawn_slot(0));
    }
    assert_eq!(p.waves.spawned, 6);
}

#[test]
fn wave_clears_only_when_all_sent_and_killed() {
    let mut p = playing();
    assert!(p.check_wave_complete(true).is_none());
    while p.wants_spawn() {
        p.spawn_slot(0);
    }
    assert!(p.check_wave_complete(false).is_none());
    assert_eq!(p.check_wave_complete(true), Some(250));
    assert!(p.mode.state == Phase::WaveBreak);
    assert_eq!(p.run.score, 250);
}

#[test]
fn every_third_kill_raises_the_multiplier() {
    let mut p = playing();
    let k1 = p.register_kill(100);
    assert_eq!((k1.award, k1.mult, k1.combo_up), (100, 1, false));
    p.register_kill(100);
    let k3 = p.register_kill(100);
    assert_eq!((k3.award, k3.mult, k3.combo_up), (200, 2, true));
    assert_eq!(p.run.score, 400);
    for _ in 0..20 {
        p.register_kill(10);
    }
    assert_eq!(p.multiplier(), 5);
    let k = p.register_kill(EKind::Boss.score());
    assert_eq!(k.award, 10000);
    assert!(!k.combo_up);
}

#[test]
fn no_combo_chime_in_the_demo() {
    let mut p = Progress::new(Vec::new());
    p.launch_demo();
    assert!(p.mode.demo);
    assert!(!p.sfx_on());
    p.register_kill(100);
    p.register_kill(100);
    let k = p.register_kill(100);
    assert_eq!(k.mult, 2);
    assert!(!k.combo_up);
}

#[test]
fn damage_shield_then_lives_then_game_over() {
    let mut p = playing();
    p.apply_powerup(PuKind::Shield);
    assert!(p.run.shield);
    p.register_kill(100);
    assert!(p.damage_player() == Damage::ShieldBroken);
    assert_eq!(p.run.lives, 3);
    assert_eq!(p.run.combo, 1);
    assert!(p.damage_player() == Damage::Hit);
    assert_eq!(p.run.lives, 2);
    assert_eq!(p.run.combo, 0);
    assert!(p.damage_player() == Damage::Hit);
    assert!(p.damage_player() == Damage::GameOver);
    assert_eq!(p.run.lives, 0);
    assert!(p.mode.state == Phase::GameOver);
}

#[test]
fn demo_ends_instead_of_game_over() {
    let mut p = Progress::new(Vec::new());
    p.launch_demo();
    p.damage_player();
    p.damage_player();
    assert!(p.damage_player() == Damage::DemoOver);
    assert!(p.mode.state == Phase::Playing);
}

#[test]
fn extra_lives_stop_at_five() {
    let mut p = playing();
    for _ in 0..4 {
        p.apply_powerup(PuKind::Life);
    }
    assert_eq!(p.run.lives, 5);
    p.apply_powerup(PuKind::Spread);
    p.apply_powerup(PuKind::Rapid);
    assert_eq!(p.run.lives, 5);
    assert!(!p.run.shield);
}

fn game_over_with(score: u32, hs: Vec<ScoreEntry>) -> Progress {
    let mut p = Progress::new(hs);
    p.start_game();
    p.run.score = score;
    p.run.lives = 1;
    assert!(p.damage_player() == Damage::GameOver);
    p.gameover_flow();
    p
}

#[test]
fn zero_score_just_shows_the_table() {
    let mut p = game_over_with(0, Vec::new());
    assert!(!p.screens.entering_name);
    assert!(p.screens.table_shown && p.screens.space_armed);
    assert!(press(&mut p, " ") == KeyAction::Reset(true));
}

#[test]
fn typing_a_name_for_a_high_score() {
    let mut p = game_over_with(500, Vec::new());
    assert!(p.screens.entering_name);
    // Space does nothing while typing.
    assert!(press(&mut p, " ") == KeyAction::Nothing);
    for k in ["a", "1", "b", "c", "d", "Shift"] {
        assert!(press(&mut p, k) == KeyAction::Nothing);
    }
    assert_eq!(name_of(&p), "ABC");
    press(&mut p, "Backspace");
    assert_eq!(name_of(&p), "AB");
    press(&mut p, "Z");
    assert_eq!(name_of(&p), "ABZ");
    assert!(press(&mut p, "Enter") == KeyAction::SaveScores);
    assert_eq!(table(&p), vec![("ABZ".to_string(), 500)]);
    assert!(!p.screens.entering_name);
    assert!(p.screens.table_shown && p.screens.space_armed);
    assert!(p.name_buf.is_empty());
    assert!(press(&mut p, " ") == KeyAction::Reset(true));
}

#[test]
fn empty_name_is_recorded_as_you() {
    let mut p = game_over_with(70, Vec::new());
    press(&mut p, "Backspace");
    assert!(press(&mut p, "Enter") == KeyAction::SaveScores);
    assert_eq!(table(&p), vec![("YOU".to_string(), 70)]);
}

#[test]
fn a_low_score_does_not_enter_a_full_table() {
    let hs: Vec<ScoreEntry> = (1..=5u32)
        .map(|i| ScoreEntry { name: vec!['P'], score: 1000 * (6 - i) })
        .collect();
    let p = game_over_with(999, hs);
    assert!(!p.screens.entering_name);
    let hs2: Vec<ScoreEntry> = (1..=5u32)
        .map(|i| ScoreEntry { name: vec!['P'], score: 1000 * (6 - i) })
        .collect();
    let q = game_over_with(1001, hs2);
    assert!(q.screens.entering_name);
}

#[test]
fn pause_only_during_play() {
    let mut t = Progress::new(Vec::new());
    press(&mut t, "p");
    assert!(!t.mode.paused);
    let mut p = playing();
    press(&mut p, "P");
    assert!(p.mode.paused);
    press(&mut p, "Escape");
    assert!(!p.mode.paused);
    let mut d = Progress::new(Vec::new());
    d.launch_demo();
    press(&mut d, "p");
    assert!(!d.mode.paused);
}

#[test]
fn restart_and_mute_keys() {
    let mut t = Progress::new(Vec::new());
    assert!(press(&mut t, "r") == KeyAction::Nothing);
    assert!(press(&mut t, "M") == KeyAction::Nothing);
    assert!(t.audio.muted);
    press(&mut t, "m");
    assert!(!t.audio.muted);
    let mut p = playing();
    assert!(press(&mut p, "R") == KeyAction::Reset(true));
    let mut d = Progress::new(Vec::new());
    d.launch_demo();
    assert!(press(&mut d, "r") == KeyAction::Nothing);
    assert!(press(&mut d, " ") == KeyAction::Reset(true));
}

#[test]
fn reset_to_title_or_straight_into_play() {
    let mut p = playing();
    p.register_kill(100);
    p.apply_powerup(PuKind::Shield);
    let hs = vec![ScoreEntry { name: vec!['Q'], score: 9 }];
    assert!(p.reset(false, hs).is_none());
    assert!(p.mode.state == Phase::Attract);
    assert_eq!((p.run.score, p.run.lives, p.run.combo, p.run.shield), (0, 3, 0, false));
    assert_eq!(p.waves.wave, 0);
    assert_eq!(table(&p), vec![("Q".to_string(), 9)]);
    let plan = p.reset(true, Vec::new()).unwrap();
    assert!(!plan.boss);
    assert!(p.mode.state == Phase::Playing);
    assert_eq!(p.waves.wave, 1);
    assert!(p.hs.is_empty());
}

#[test]
fn attract_loop_pages_then_demo() {
    let mut p = Progress::new(Vec::new());
    assert!(!p.next_attract_page());
    assert_eq!(p.mode.attract_idx, 1);
    assert!(!p.next_attract_page());
    assert_eq!(p.mode.attract_idx, 2);
    assert!(p.next_attract_page());
    assert_eq!(p.mode.attract_idx, 2);
}

#[test]
fn scores_and_hit_points() {
    assert_eq!(EKind::Grunt.score(), 100);
    assert_eq!(EKind::Darter.score(), 150);
    assert_eq!(EKind::Gunner.score(), 200);
    assert_eq!(EKind::Boss.score(), 2000);
    assert_eq!(EKind::Grunt.hit_points(), 1);
    assert_eq!(EKind::Darter.hit_points(), 1);
    assert_eq!(EKind::Gunner.hit_points(), 2);
    assert_eq!(asteroid_score(2), 50);
    assert_eq!(asteroid_score(1), 75);
    assert_eq!(asteroid_score(0), 100);
    assert_eq!(boss_hp(4), 24);
    assert_eq!(boss_hp(5), 34);
    assert_eq!(boss_hp(10), 44);
    // Above i32::MAX the wave number reads as a negative i32.
    assert_eq!(boss_hp(u32::MAX), 24);
    assert_eq!(boss_hp(u32::MAX - 9), 4);
    assert_eq!(boss_hp(3_221_225_472), 24 - 214_748_364 * 10);
    assert_eq!(boss_hp(1_073_741_814), 24 + 214_748_362 * 10);
}

#[test]
fn popup_texts() {
    let s = |v: Vec<char>| v.iter().collect::<String>();
    assert_eq!(s(popup_text(100, 1)), "+100");
    assert_eq!(s(popup_text(600, 3)), "+600 x3");
    assert_eq!(s(popup_text(0, 0)), "+0");
}

#[test]
fn the_saved_table_loads_back_unchanged() {
    let hs = load_high_scores(&"ann 900\n  bo  40\nbad\ncy 300".chars().collect());
    let mut p = game_over_with(500, hs);
    for k in ["z", "e", "d"] {
        press(&mut p, k);
    }
    assert!(press(&mut p, "Enter") == KeyAction::SaveScores);
    let stored = high_scores_text(&p.hs);
    assert_eq!(stored.iter().collect::<String>(), "ann 900\nZED 500\ncy 300\nbo 40");
    let back = load_high_scores(&stored);
    assert_eq!(
        back.iter().map(|e| (e.name.iter().collect::<String>(), e.score)).collect::<Vec<_>>(),
        table(&p)
    );
}

#[test]
fn pausing_or_muting_twice_changes_nothing() {
    let mut p = playing();
    press(&mut p, "p");
    press(&mut p, "p");
    assert!(!p.mode.paused);
    assert!(p.mode.state == Phase::Playing);
    press(&mut p, "m");
    press(&mut p, "M");
    assert!(!p.audio.muted);
    assert_eq!(p.run.score, 0);
    assert_eq!(p.run.lives, 3);
}

#[test]
fn keys_never_touch_score_or_lives() {
    let mut p = playing();
    p.register_kill(150);
    for k in ["ArrowLeft", " ", "p", "p", "m", "x", "Enter", "Backspace", "Escape", "Escape"] {
        press(&mut p, k);
    }
    assert_eq!(p.run.score, 150);
    assert_eq!(p.run.lives, 3);
    assert_eq!(p.run.combo, 1);
}

#[test]
fn a_timed_out_chain_starts_over() {
    let mut p = playing();
    for _ in 0..5 {
        p.register_kill(100);
    }
    assert_eq!(p.next_multiplier(), 3);
    p.break_combo();
    assert_eq!(p.run.combo, 0);
    assert_eq!(p.run.score, 100 + 100 + 200 + 200 + 200);
    assert_eq!(p.next_multiplier(), 1);
    let k = p.register_kill(100);
    assert_eq!(k.mult, 1);
}

#[test]
fn next_multiplier_matches_the_next_kill() {
    let mut p = playing();
    for _ in 0..20 {
        let m = p.next_multiplier();
        assert_eq!(p.register_kill(10).mult, m);
    }
    assert_eq!(p.next_multiplier(), 5);
}
