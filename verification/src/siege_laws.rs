//! What the Solar Siege rules keep across calls: the name being typed is at
//! most three capital letters, the high-score table stays one that storage
//! gives back unchanged, lives never pass five, a wave never sends more than
//! its budget, and the toggles and Backspace undo themselves.

use vstd::prelude::*;
use crate::audio::Audio;
use crate::scores::{is_ws, load_spec, save_spec};
use crate::scores_laws::{clean_name, clean_table, lemma_load_clean, lemma_record_clean,
    lemma_save_then_load};
use crate::siege::{
    ProgressView, Key, KeyAction, PuKind, Phase, key_spec, name_key_spec, input_spec,
    finish_name_spec, default_name, combo_broken,
    is_letter, upper, in_play, next_wave_spec, kill_spec, damage_spec, powerup_spec, reset_spec,
    multiplier_of, key_of_spec, wave_bonus, asteroid_score_of, max_concurrent_of, spawn_interval_of, enemy_type_of, EKind, Damage,
};
use crate::scores::{Entry, HS_MAX, qualifies, best_of};
use crate::scores_laws::lemma_qualifies_means_recorded;

verus! {

pub open spec fn is_capital(c: char) -> bool {
    'A' <= c && c <= 'Z'
}

/// A name as typed so far: at most three capital letters.
pub open spec fn name_ok(n: Seq<char>) -> bool {
    &&& n.len() <= 3
    &&& forall|i: int| 0 <= i < n.len() ==> is_capital(#[trigger] n[i])
}

/// The state the game keeps: a well-formed name buffer, a table that
/// storage round-trips, and at most five lives.
pub open spec fn sane(v: ProgressView) -> bool {
    &&& name_ok(v.name_buf)
    &&& clean_table(v.hs)
    &&& v.run.lives <= 5
}

proof fn lemma_upper_capital(c: char)
    requires
        is_letter(c),
    ensures
        is_capital(upper(c)),
{
    if 'a' <= c && c <= 'z' {
        let u = ((c as u32) - 32) as char;
        assert(65 <= (c as u32) - 32 <= 90);
        assert(u as u32 == (c as u32) - 32);
    }
}

proof fn lemma_capitals_clean(n: Seq<char>)
    requires
        forall|i: int| 0 <= i < n.len() ==> is_capital(#[trigger] n[i]),
    ensures
        clean_name(n),
{
    if n.contains('\n') {
        let j = choose|j: int| 0 <= j < n.len() && n[j] == '\n';
        assert(is_capital(n[j]));
    }
    if n.len() > 0 {
        assert(is_capital(n[0]));
        assert(is_capital(n[n.len() - 1]));
        assert(!is_ws(n[0]));
        assert(!is_ws(n.last()));
    }
}

proof fn lemma_finish_keeps_sane(v: ProgressView)
    requires
        sane(v),
    ensures
        sane(finish_name_spec(v)),
        finish_name_spec(v).run == v.run,
{
    let name = if v.name_buf.len() == 0 {
        default_name()
    } else {
        v.name_buf
    };
    assert forall|i: int| 0 <= i < name.len() implies is_capital(#[trigger] name[i]) by {
        if v.name_buf.len() == 0 {
            assert(name == seq!['Y', 'O', 'U']);
        }
    }
    lemma_capitals_clean(name);
    lemma_record_clean(v.hs, name, v.run.score);
    let r = finish_name_spec(v);
    assert(r.name_buf =~= Seq::<char>::empty());
}

proof fn lemma_name_key_keeps_sane(v: ProgressView, k: Key)
    requires
        sane(v),
    ensures
        sane(name_key_spec(v, k).0),
        name_key_spec(v, k).0.run == v.run,
{
    match k {
        Key::Backspace => {
            let r = name_key_spec(v, k).0;
            if v.name_buf.len() > 0 {
                assert forall|i: int| 0 <= i < r.name_buf.len() implies is_capital(
                    #[trigger] r.name_buf[i],
                ) by {
                    assert(r.name_buf[i] == v.name_buf[i]);
                }
            }
        },
        Key::Enter => {
            lemma_finish_keeps_sane(v);
        },
        Key::Char(c) => {
            if v.name_buf.len() < 3 && is_letter(c) {
                lemma_upper_capital(c);
                let r = name_key_spec(v, k).0;
                assert forall|i: int| 0 <= i < r.name_buf.len() implies is_capital(
                    #[trigger] r.name_buf[i],
                ) by {
                    if i < v.name_buf.len() {
                        assert(r.name_buf[i] == v.name_buf[i]);
                    }
                }
            }
        },
        _ => {},
    }
}

/// No key ever breaks the kept state, nor touches the score, lives or
/// combo.
pub proof fn lemma_key_keeps_sane(v: ProgressView, k: Key, down: bool)
    requires
        sane(v),
    ensures
        sane(key_spec(v, k, down).0),
        key_spec(v, k, down).0.run == v.run,
{
    let v1 = ProgressView { input: input_spec(v.input, k, down), ..v };
    if down {
        let v2 = ProgressView { audio: Audio { unlocked: true, ..v1.audio }, ..v1 };
        if v2.screens.entering_name {
            lemma_name_key_keeps_sane(v2, k);
        }
    }
}

/// Whenever a key asks for the table to be stored, what is stored loads
/// back as exactly the table the game holds.
pub proof fn lemma_saved_table_reloads(v: ProgressView, k: Key, down: bool)
    requires
        sane(v),
        key_spec(v, k, down).1 == KeyAction::SaveScores,
    ensures
        load_spec(save_spec(key_spec(v, k, down).0.hs)) == key_spec(v, k, down).0.hs,
{
    lemma_key_keeps_sane(v, k, down);
    lemma_save_then_load(key_spec(v, k, down).0.hs);
}

/// A reset with the table loaded from storage, whatever storage held,
/// gives a kept state with three lives.
pub proof fn lemma_reset_sane(v: ProgressView, replay: bool, raw: Seq<char>)
    ensures
        sane(reset_spec(v, replay, load_spec(raw)).0),
        reset_spec(v, replay, load_spec(raw)).0.run.lives == 3,
        reset_spec(v, replay, load_spec(raw)).0.run.score == 0,
{
    lemma_load_clean(raw);
}

/// The in-game events keep the state kept: a broken combo, a new wave, a
/// kill, a hit and a pick-up; lives never pass five.
pub proof fn lemma_events_keep_sane(v: ProgressView, base: u32, kind: PuKind)
    requires
        sane(v),
    ensures
        sane(combo_broken(v)),
        sane(next_wave_spec(v).0),
        sane(kill_spec(v, base).0),
        v.run.lives > i32::MIN ==> sane(damage_spec(v).0),
        sane(powerup_spec(v, kind)),
{
}

/// Every third kill in a chain raises the multiplier by one, from x1 up to
/// at most x5.
pub proof fn lemma_multiplier(combo: u32)
    ensures
        1 <= multiplier_of(combo) <= 5,
        combo < 3 ==> multiplier_of(combo) == 1,
        combo <= u32::MAX - 3 ==> multiplier_of((combo + 3) as u32) == (if multiplier_of(combo)
            < 5 {
            multiplier_of(combo) + 1
        } else {
            5
        }),
{
}

/// A new wave has sent no more than its budget, the budget is at most 22,
/// and at most four large asteroids are scattered.
pub proof fn lemma_wave_start(v: ProgressView)
    requires
        v.waves.wave < u32::MAX,
    ensures
        next_wave_spec(v).0.waves.spawned <= next_wave_spec(v).0.waves.budget <= 22,
        next_wave_spec(v).0.waves.wave == v.waves.wave + 1,
        next_wave_spec(v).1.rocks <= 4,
        next_wave_spec(v).0.mode.state == Phase::Playing,
{
}

/// Pausing twice, or muting twice, puts everything back as it was (the game
/// is only ever paused during play).
pub proof fn lemma_toggle_twice(v: ProgressView, c: char)
    requires
        c == 'p' || c == 'P' || c == 'm' || c == 'M',
        v.audio.unlocked,
        !v.screens.entering_name,
        v.mode.paused ==> !v.mode.demo && in_play(v.mode.state),
    ensures
        key_spec(key_spec(v, Key::Char(c), true).0, Key::Char(c), true).0 == v,
{
    let v1 = key_spec(v, Key::Char(c), true).0;
    assert(v1.input == v.input);
    assert(v1.audio.unlocked);
    let v2 = key_spec(v1, Key::Char(c), true).0;
    assert(v2.mode == v.mode);
    assert(v2.audio == v.audio);
}

/// Backspace takes back a letter just typed into the name.
pub proof fn lemma_backspace_undoes_letter(v: ProgressView, c: char)
    requires
        v.screens.entering_name,
        v.audio.unlocked,
        v.name_buf.len() < 3,
        is_letter(c),
    ensures
        key_spec(key_spec(v, Key::Char(c), true).0, Key::Backspace, true).0 == v,
{
    let v1 = key_spec(v, Key::Char(c), true).0;
    assert(v1.name_buf == v.name_buf.push(upper(c)));
    let v2 = key_spec(v1, Key::Backspace, true).0;
    assert(v2.name_buf =~= v.name_buf);
}

// ── What the rules are for ──────────────────────────────────────────────

/// A score earns a place when it is not zero and the table still has room
/// for it, or it beats the last (lowest) entry of a full table. In
/// particular any nonzero score enters a table of fewer than five entries,
/// and zero never does.
pub proof fn lemma_qualifying_score(t: Seq<Entry>, score: u32)
    ensures
        t.len() < 5 && score != 0 ==> qualifies(t, score),
        score == 0 ==> !qualifies(t, score),
        t.len() >= 5 ==> (qualifies(t, score) <==> score != 0 && score > t[t.len() - 1].1),
        HS_MAX == 5,
{
}

/// R restarts straight into a new game from a live game or the game-over
/// screen (unless a name is being typed); in the demo or on the title it
/// does nothing.
pub proof fn lemma_restart_key(v: ProgressView, c: char)
    requires
        c == 'r' || c == 'R',
        !v.screens.entering_name,
    ensures
        !v.mode.demo && (v.mode.state == Phase::Playing || v.mode.state == Phase::WaveBreak
            || v.mode.state == Phase::GameOver) ==> key_spec(v, Key::Char(c), true).1
            == KeyAction::Reset(true),
        v.mode.demo || v.mode.state == Phase::Attract ==> key_spec(v, Key::Char(c), true).1
            == KeyAction::Nothing,
        key_spec(v, Key::Char(c), true).0.mode == v.mode,
        key_spec(v, Key::Char(c), true).0.run == v.run,
{
}

/// Space: in the demo it restarts into a real game, on the title it starts
/// one, on the game-over screen (once the table is up) it plays again.
pub proof fn lemma_space_key(v: ProgressView)
    requires
        !v.screens.entering_name,
    ensures
        v.mode.demo ==> key_spec(v, Key::Char(' '), true).1 == KeyAction::Reset(true),
        !v.mode.demo && v.mode.state == Phase::Attract ==> key_spec(v, Key::Char(' '), true).1
            == KeyAction::StartGame,
        !v.mode.demo && v.mode.state == Phase::GameOver && v.screens.space_armed ==> key_spec(
            v,
            Key::Char(' '),
            true,
        ).1 == KeyAction::Reset(true),
        !v.mode.demo && (v.mode.state == Phase::Playing || v.mode.state == Phase::WaveBreak)
            ==> key_spec(v, Key::Char(' '), true).1 == KeyAction::Nothing,
        key_spec(v, Key::Char(' '), true).0.input.fire,
{
}

/// P and Escape pause a live game and resume a paused one; M flips the mute
/// on every screen.
pub proof fn lemma_pause_and_mute_keys(v: ProgressView, c: char)
    requires
        !v.screens.entering_name,
    ensures
        (c == 'p' || c == 'P') && !v.mode.demo && in_play(v.mode.state) ==> key_spec(
            v,
            Key::Char(c),
            true,
        ).0.mode.paused == !v.mode.paused,
        v.mode.paused ==> key_spec(v, Key::Escape, true).0.mode.paused == false,
        !v.mode.paused && !v.mode.demo && in_play(v.mode.state) ==> key_spec(
            v,
            Key::Escape,
            true,
        ).0.mode.paused,
        !v.mode.paused && (v.mode.demo || !in_play(v.mode.state)) ==> !key_spec(
            v,
            Key::Escape,
            true,
        ).0.mode.paused,
        (c == 'm' || c == 'M') ==> key_spec(v, Key::Char(c), true).0.audio.muted
            == !v.audio.muted,
{
}

/// In enhanced mode the asteroid field of wave `w` has `2 + w / 3` large
/// rocks, at most four: two in waves 1 and 2, three in waves 3 to 5, four
/// from wave 6 on; one more rock every three waves. Classic mode has none.
pub proof fn lemma_rock_count(v: ProgressView)
    requires
        v.waves.wave < u32::MAX,
    ensures
        !v.mode.enhanced ==> next_wave_spec(v).1.rocks == 0,
        v.mode.enhanced ==> next_wave_spec(v).1.rocks == (if 2 + (v.waves.wave + 1) / 3 < 4 {
            2 + (v.waves.wave + 1) / 3
        } else {
            4
        }),
        v.mode.enhanced && v.waves.wave + 1 <= 2 ==> next_wave_spec(v).1.rocks == 2,
        v.mode.enhanced && 3 <= v.waves.wave + 1 <= 5 ==> next_wave_spec(v).1.rocks == 3,
        v.mode.enhanced && 6 <= v.waves.wave + 1 ==> next_wave_spec(v).1.rocks == 4,
{
}

/// Every fifth wave of enhanced mode is the Dreadnought with two grunts,
/// already all sent; any other wave sends two enemies at once out of a
/// budget of `4 + 2w`, at most 22, two more each wave.
pub proof fn lemma_wave_plan(v: ProgressView)
    requires
        v.waves.wave < u32::MAX,
    ensures
        next_wave_spec(v).1.boss <==> v.mode.enhanced && (v.waves.wave + 1) % 5 == 0,
        next_wave_spec(v).1.boss ==> next_wave_spec(v).0.waves.budget == 3
            && next_wave_spec(v).0.waves.spawned == 3,
        !next_wave_spec(v).1.boss ==> next_wave_spec(v).0.waves.spawned == 2
            && next_wave_spec(v).0.waves.budget == (if 4 + 2 * (v.waves.wave + 1) < 22 {
            4 + 2 * (v.waves.wave + 1)
        } else {
            22
        }),
        v.waves.wave == 0 && !v.mode.enhanced ==> next_wave_spec(v).0.waves.budget == 6,
{
}

/// The cap on enemies alive at once: six in waves 1 and 2, one more every
/// two waves, never more than twelve (reached at wave 13).
pub proof fn lemma_enemy_cap(w: u32)
    requires
        1 <= w,
    ensures
        6 <= max_concurrent_of(w) <= 12,
        w <= 2 ==> max_concurrent_of(w) == 6,
        w <= u32::MAX - 2 ==> max_concurrent_of((w + 2) as u32) == (if max_concurrent_of(w)
            < 12 {
            max_concurrent_of(w) + 1
        } else {
            12
        }),
        w < u32::MAX ==> max_concurrent_of((w + 1) as u32) == max_concurrent_of(w) || max_concurrent_of((w + 1) as u32)
            == max_concurrent_of(w) + 1,
        max_concurrent_of(w) == (if 6 + (w - 1) / 2 < 12 {
            6 + (w - 1) / 2
        } else {
            12
        }),
        w >= 13 ==> max_concurrent_of(w) == 12,
{
}

/// Enemies arrive 2.2 s apart in wave one, 160 ms sooner each wave, never
/// closer than 0.7 s.
pub proof fn lemma_spawn_interval(w: u32)
    requires
        1 <= w < u32::MAX,
    ensures
        w == 1 ==> spawn_interval_of(w) == 2200,
        spawn_interval_of((w + 1) as u32) == (if spawn_interval_of(w) - 160 > 700 {
            spawn_interval_of(w) - 160
        } else {
            700
        }),
        700 <= spawn_interval_of(w) <= 2200,
{
}

/// Wave one sends only grunts, wave two no gunners, and from wave three on
/// every kind but the Dreadnought turns up; the draw picks by its last two
/// decimal digits.
pub proof fn lemma_enemy_mix(w: u32, draw: u32)
    ensures
        w <= 1 ==> enemy_type_of(w, draw) == EKind::Grunt,
        w == 2 ==> enemy_type_of(w, draw) != EKind::Gunner,
        enemy_type_of(w, draw) != EKind::Boss,
        enemy_type_of(w, draw) == enemy_type_of(w, draw % 100),
        w == 2 ==> enemy_type_of(w, 0) == EKind::Grunt && enemy_type_of(w, 99) == EKind::Darter,
        w >= 3 ==> enemy_type_of(w, 0) == EKind::Grunt && enemy_type_of(w, 50) == EKind::Darter
            && enemy_type_of(w, 99) == EKind::Gunner,
{
}

/// A hit is soaked by the shield if there is one; otherwise it costs
/// exactly one life and the combo, and ends the game (or the demo) when it
/// was the last life.
pub proof fn lemma_hit(v: ProgressView)
    requires
        v.run.lives > i32::MIN,
    ensures
        v.run.shield ==> damage_spec(v).1 == Damage::ShieldBroken && damage_spec(v).0.run.lives
            == v.run.lives && !damage_spec(v).0.run.shield,
        !v.run.shield ==> damage_spec(v).0.run.lives == v.run.lives - 1 && damage_spec(v).0.run.combo
            == 0,
        !v.run.shield && v.run.lives > 1 ==> damage_spec(v).1 == Damage::Hit,
        !v.run.shield && v.run.lives <= 1 && !v.mode.demo ==> damage_spec(v).1 == Damage::GameOver
            && damage_spec(v).0.mode.state == Phase::GameOver,
        !v.run.shield && v.run.lives <= 1 && v.mode.demo ==> damage_spec(v).1 == Damage::DemoOver,
        damage_spec(v).0.run.score == v.run.score,
{
}

/// A kill adds its base points times the multiplier earned with it to the
/// score, and extends the chain by one.
pub proof fn lemma_kill_pays(v: ProgressView, base: u32)
    requires
        v.run.combo < u32::MAX,
        v.run.score + base * multiplier_of((v.run.combo + 1) as u32) <= u32::MAX,
    ensures
        kill_spec(v, base).0.run.score == v.run.score + base * kill_spec(v, base).1.mult,
        kill_spec(v, base).1.award == base * kill_spec(v, base).1.mult,
        kill_spec(v, base).0.run.combo == v.run.combo + 1,
        1 <= kill_spec(v, base).1.mult <= 5,
        kill_spec(v, base).1.mult == multiplier_of((v.run.combo + 1) as u32),
        v.run.combo < 2 ==> kill_spec(v, base).1.mult == 1,
        kill_spec(v, base).0.run.lives == v.run.lives,
{
    assert(base * multiplier_of((v.run.combo + 1) as u32) <= u32::MAX) by (nonlinear_arith)
        requires
            v.run.score + base * multiplier_of((v.run.combo + 1) as u32) <= u32::MAX,
            v.run.score >= 0,
    ;
}

/// A life pick-up adds one life up to five; a shield pick-up raises the
/// shield; the timed pick-ups leave the rules' state alone.
pub proof fn lemma_pickups(v: ProgressView)
    requires
        v.run.lives < i32::MAX,
    ensures
        powerup_spec(v, PuKind::Life).run.lives == (if v.run.lives < 5 {
            v.run.lives + 1
        } else {
            5
        }),
        powerup_spec(v, PuKind::Shield).run.shield,
        powerup_spec(v, PuKind::Spread) == v,
        powerup_spec(v, PuKind::Rapid) == v,
{
}

/// The browser's key names: the four arrows, Backspace, Enter and Escape by
/// name, any one-byte character as itself, and nothing else.
pub proof fn lemma_key_names(name: Seq<char>)
    ensures
        key_of_spec("ArrowLeft"@) == Key::ArrowLeft,
        key_of_spec("ArrowRight"@) == Key::ArrowRight,
        key_of_spec("ArrowUp"@) == Key::ArrowUp,
        key_of_spec("ArrowDown"@) == Key::ArrowDown,
        key_of_spec("Backspace"@) == Key::Backspace,
        key_of_spec("Enter"@) == Key::Enter,
        key_of_spec("Escape"@) == Key::Escape,
        name.len() == 1 && (name[0] as u32) < 128 ==> key_of_spec(name) == Key::Char(name[0]),
        name.len() == 1 && (name[0] as u32) >= 128 ==> key_of_spec(name) == Key::Other,
        name.len() == 0 ==> key_of_spec(name) == Key::Other,
        key_of_spec(name) is Char ==> name.len() == 1,
{
    reveal_strlit("ArrowLeft");
    reveal_strlit("ArrowRight");
    reveal_strlit("ArrowUp");
    reveal_strlit("ArrowDown");
    reveal_strlit("Backspace");
    reveal_strlit("Enter");
    reveal_strlit("Escape");
    assert("ArrowLeft"@ =~= seq!['A', 'r', 'r', 'o', 'w', 'L', 'e', 'f', 't']);
    assert("ArrowRight"@ =~= seq!['A', 'r', 'r', 'o', 'w', 'R', 'i', 'g', 'h', 't']);
    assert("ArrowUp"@ =~= seq!['A', 'r', 'r', 'o', 'w', 'U', 'p']);
    assert("ArrowDown"@ =~= seq!['A', 'r', 'r', 'o', 'w', 'D', 'o', 'w', 'n']);
    assert("Backspace"@ =~= seq!['B', 'a', 'c', 'k', 's', 'p', 'a', 'c', 'e']);
    assert("Enter"@ =~= seq!['E', 'n', 't', 'e', 'r']);
    assert("Escape"@ =~= seq!['E', 's', 'c', 'a', 'p', 'e']);
    if name.len() == 1 {
        assert(name != seq!['A', 'r', 'r', 'o', 'w', 'L', 'e', 'f', 't']);
        assert(name != seq!['A', 'r', 'r', 'o', 'w', 'R', 'i', 'g', 'h', 't']);
        assert(name != seq!['A', 'r', 'r', 'o', 'w', 'U', 'p']);
        assert(name != seq!['A', 'r', 'r', 'o', 'w', 'D', 'o', 'w', 'n']);
        assert(name != seq!['B', 'a', 'c', 'k', 's', 'p', 'a', 'c', 'e']);
        assert(name != seq!['E', 'n', 't', 'e', 'r']);
        assert(name != seq!['E', 's', 'c', 'a', 'p', 'e']);
    }
}

/// Clearing a wave pays 250 points for wave one and 250 more for every
/// wave after it.
pub proof fn lemma_wave_bonus(w: u32)
    ensures
        wave_bonus(0) == 0,
        wave_bonus(1) == 250,
        w < u32::MAX ==> wave_bonus((w + 1) as u32) == wave_bonus(w) + 250,
        wave_bonus(w) >= 250 * w,
{
}

/// Smaller rocks are worth more: a small one 100, a medium one 75, a large
/// one 50.
pub proof fn lemma_rock_scores()
    ensures
        asteroid_score_of(0) > asteroid_score_of(1) > asteroid_score_of(2),
        asteroid_score_of(0) == 100 && asteroid_score_of(1) == 75 && asteroid_score_of(2) == 50,
{
}

/// Pressing Enter ends the name entry and asks for the table to be stored;
/// a score that qualified is now in the table, under the typed name (or
/// "YOU" when none was typed).
pub proof fn lemma_enter_records(v: ProgressView)
    requires
        sane(v),
        v.screens.entering_name,
    ensures
        key_spec(v, Key::Enter, true).1 == KeyAction::SaveScores,
        !key_spec(v, Key::Enter, true).0.screens.entering_name,
        key_spec(v, Key::Enter, true).0.screens.table_shown,
        key_spec(v, Key::Enter, true).0.name_buf.len() == 0,
        qualifies(v.hs, v.run.score) && v.name_buf.len() > 0 ==> key_spec(
            v,
            Key::Enter,
            true,
        ).0.hs.contains((v.name_buf, v.run.score)),
        qualifies(v.hs, v.run.score) && v.name_buf.len() == 0 ==> key_spec(
            v,
            Key::Enter,
            true,
        ).0.hs.contains((seq!['Y', 'O', 'U'], v.run.score)),
{
    let name = if v.name_buf.len() == 0 {
        default_name()
    } else {
        v.name_buf
    };
    lemma_qualifies_means_recorded(v.hs, name, v.run.score);
    let r = key_spec(v, Key::Enter, true).0;
    assert(r.hs == best_of(v.hs.push((name, v.run.score))));
}

} // verus!
