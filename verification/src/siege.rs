//! The rules of Solar Siege that do not depend on positions or time: waves
//! and their budgets, enemy mix, scoring and combos, lives and shields,
//! the key bindings, and the high-score name entry. The arena simulation
//! around them (motion, collisions, particles, drawing) is floating point.

use vstd::prelude::*;
use crate::audio::Audio;
use crate::scores::{
    ScoreEntry, Entry, table_view, best_of, qualifies, score_qualifies, record_score,
    push_decimal, decimal,
};

verus! {

#[derive(Clone, Copy, PartialEq, Eq, Structural)]
pub enum EKind {
    Grunt,
    Darter,
    Gunner,
    Boss,
}

pub open spec fn kill_score(k: EKind) -> u32 {
    match k {
        EKind::Grunt => 100,
        EKind::Darter => 150,
        EKind::Gunner => 200,
        EKind::Boss => 2000,
    }
}

impl EKind {
    /// Points for destroying an enemy of this kind.
    pub fn score(self) -> (s: u32)
        ensures
            s == kill_score(self),
    {
        match self {
            EKind::Grunt => 100,
            EKind::Darter => 150,
            EKind::Gunner => 200,
            EKind::Boss => 2000,
        }
    }

    /// Hit points of a freshly spawned escort enemy.
    pub fn hit_points(self) -> (hp: i32)
        requires
            self != EKind::Boss,
        ensures
            hp == (if self == EKind::Gunner {
                2i32
            } else {
                1i32
            }),
    {
        match self {
            EKind::Gunner => 2,
            _ => 1,
        }
    }
}

/// Points for shooting an asteroid of size `size` (2 large, 1 medium, 0
/// small).
pub open spec fn asteroid_score_of(size: u8) -> u32 {
    if size == 2 {
        50
    } else if size == 1 {
        75
    } else {
        100
    }
}

/// Points for shooting an asteroid: smaller rocks are worth more.
pub fn asteroid_score(size: u8) -> (s: u32)
    ensures
        s == asteroid_score_of(size),
{
    match size {
        2 => 50,
        1 => 75,
        _ => 100,
    }
}

/// The wave number read as a signed 32-bit integer (wrapping above
/// `i32::MAX`), divided by five rounding towards zero.
pub open spec fn boss_tier(wave: u32) -> int {
    if wave <= i32::MAX {
        (wave / 5) as int
    } else {
        -((0x1_0000_0000 - wave) / 5)
    }
}

/// Hit points of the Dreadnought: tougher every fifth wave.
pub fn boss_hp(wave: u32) -> (hp: i32)
    requires
        i32::MIN <= boss_tier(wave) * 10,
        24 + boss_tier(wave) * 10 <= i32::MAX,
    ensures
        hp == 24 + boss_tier(wave) * 10,
{
    let tier: i32 = if wave <= 0x7fff_ffff {
        (wave / 5) as i32
    } else {
        let m: u64 = 0x1_0000_0000u64 - wave as u64;
        -((m / 5) as i32)
    };
    24 + tier * 10
}

#[derive(Clone, Copy, PartialEq, Eq, Structural)]
pub enum Phase {
    Attract,
    Playing,
    WaveBreak,
    GameOver,
}

#[derive(Clone, Copy, PartialEq, Eq, Structural)]
pub enum PuKind {
    Spread,
    Rapid,
    Shield,
    Life,
}

/// A key as the browser names it: the named keys the game uses, any key
/// whose name is a single one-byte character, or something else.
#[derive(Clone, Copy, PartialEq, Eq, Structural)]
pub enum Key {
    ArrowLeft,
    ArrowRight,
    ArrowUp,
    ArrowDown,
    Backspace,
    Enter,
    Escape,
    Char(char),
    Other,
}

/// The key the browser calls `name`.
pub open spec fn key_of_spec(name: Seq<char>) -> Key {
    if name == seq!['A', 'r', 'r', 'o', 'w', 'L', 'e', 'f', 't'] {
        Key::ArrowLeft
    } else if name == seq!['A', 'r', 'r', 'o', 'w', 'R', 'i', 'g', 'h', 't'] {
        Key::ArrowRight
    } else if name == seq!['A', 'r', 'r', 'o', 'w', 'U', 'p'] {
        Key::ArrowUp
    } else if name == seq!['A', 'r', 'r', 'o', 'w', 'D', 'o', 'w', 'n'] {
        Key::ArrowDown
    } else if name == seq!['B', 'a', 'c', 'k', 's', 'p', 'a', 'c', 'e'] {
        Key::Backspace
    } else if name == seq!['E', 'n', 't', 'e', 'r'] {
        Key::Enter
    } else if name == seq!['E', 's', 'c', 'a', 'p', 'e'] {
        Key::Escape
    } else if name.len() == 1 && (name[0] as u32) < 128 {
        Key::Char(name[0])
    } else {
        Key::Other
    }
}

fn same_chars(a: &Vec<char>, b: &Vec<char>) -> (r: bool)
    ensures
        r == (a@ == b@),
{
    if a.len() != b.len() {
        return false;
    }
    let mut i: usize = 0;
    while i < a.len()
        invariant
            a.len() == b.len(),
            i <= a.len(),
            a@.take(i as int) == b@.take(i as int),
        decreases a.len() - i,
    {
        if a[i] != b[i] {
            assert(a@[i as int] != b@[i as int]);
            return false;
        }
        assert(a@.take(i + 1) == a@.take(i as int).push(a@[i as int]));
        assert(b@.take(i + 1) == b@.take(i as int).push(b@[i as int]));
        i = i + 1;
    }
    assert(a@ == a@.take(i as int));
    assert(b@ == b@.take(i as int));
    true
}

impl Key {
    /// The key the browser calls `name` (a `KeyboardEvent.key` value).
    pub fn from_name(name: &Vec<char>) -> (k: Key)
        ensures
            k == key_of_spec(name@),
    {
        let left = vec!['A', 'r', 'r', 'o', 'w', 'L', 'e', 'f', 't'];
        assert(left@ == seq!['A', 'r', 'r', 'o', 'w', 'L', 'e', 'f', 't']);
        if same_chars(name, &left) {
            return Key::ArrowLeft;
        }
        let right = vec!['A', 'r', 'r', 'o', 'w', 'R', 'i', 'g', 'h', 't'];
        assert(right@ == seq!['A', 'r', 'r', 'o', 'w', 'R', 'i', 'g', 'h', 't']);
        if same_chars(name, &right) {
            return Key::ArrowRight;
        }
        let up = vec!['A', 'r', 'r', 'o', 'w', 'U', 'p'];
        assert(up@ == seq!['A', 'r', 'r', 'o', 'w', 'U', 'p']);
        if same_chars(name, &up) {
            return Key::ArrowUp;
        }
        let down = vec!['A', 'r', 'r', 'o', 'w', 'D', 'o', 'w', 'n'];
        assert(down@ == seq!['A', 'r', 'r', 'o', 'w', 'D', 'o', 'w', 'n']);
        if same_chars(name, &down) {
            return Key::ArrowDown;
        }
        let back = vec!['B', 'a', 'c', 'k', 's', 'p', 'a', 'c', 'e'];
        assert(back@ == seq!['B', 'a', 'c', 'k', 's', 'p', 'a', 'c', 'e']);
        if same_chars(name, &back) {
            return Key::Backspace;
        }
        let enter = vec!['E', 'n', 't', 'e', 'r'];
        assert(enter@ == seq!['E', 'n', 't', 'e', 'r']);
        if same_chars(name, &enter) {
            return Key::Enter;
        }
        let escape = vec!['E', 's', 'c', 'a', 'p', 'e'];
        assert(escape@ == seq!['E', 's', 'c', 'a', 'p', 'e']);
        if same_chars(name, &escape) {
            return Key::Escape;
        }
        if name.len() == 1 && (name[0] as u32) < 128 {
            return Key::Char(name[0]);
        }
        Key::Other
    }
}

/// What the arena must do after a key press.
#[derive(Clone, Copy, PartialEq, Eq, Structural)]
pub enum KeyAction {
    Nothing,
    /// Reset everything; with `true`, straight into a new game.
    Reset(bool),
    StartGame,
    /// The high-score table changed and should be stored.
    SaveScores,
}

/// What a new wave brings.
#[derive(Clone, Copy, PartialEq, Eq, Structural)]
pub struct WavePlan {
    /// The Dreadnought and two grunts, instead of two random enemies.
    pub boss: bool,
    /// Large asteroids to scatter (fewer if the field is already full).
    pub rocks: u32,
}

/// How a hit on the player ended.
#[derive(Clone, Copy, PartialEq, Eq, Structural)]
pub enum Damage {
    ShieldBroken,
    Hit,
    /// The attract-mode demo lost its last life: back to the title.
    DemoOver,
    GameOver,
}

/// The outcome of a kill.
#[derive(Clone, Copy, PartialEq, Eq, Structural)]
pub struct Kill {
    pub award: u32,
    pub mult: u32,
    /// The multiplier just went up (and sound is on): play the combo chime.
    pub combo_up: bool,
}

/// Which screen the game is on, and how it is being played.
#[derive(Clone, Copy)]
pub struct Mode {
    pub state: Phase,
    /// The attract-mode demo is playing itself.
    pub demo: bool,
    pub paused: bool,
    /// Enhanced mode adds asteroid fields and boss waves to the classic
    /// game. Off by default.
    pub enhanced: bool,
    /// The attract-loop page on show.
    pub attract_idx: usize,
}

/// The keys held down.
#[derive(Clone, Copy)]
pub struct Input {
    pub left: bool,
    pub right: bool,
    pub up: bool,
    pub down: bool,
    pub fire: bool,
}

/// The player's standing in the current game.
#[derive(Clone, Copy)]
pub struct Run {
    pub score: u32,
    pub lives: i32,
    pub combo: u32,
    pub shield: bool,
}

/// Progress through the waves.
#[derive(Clone, Copy)]
pub struct Waves {
    pub wave: u32,
    /// Enemies this wave sends in all.
    pub budget: u32,
    /// Enemies sent so far.
    pub spawned: u32,
}

/// The game-over screens.
#[derive(Clone, Copy)]
pub struct Screens {
    pub entering_name: bool,
    pub table_shown: bool,
    /// Space starts a new game.
    pub space_armed: bool,
}

/// The non-spatial game state.
pub struct Progress {
    pub mode: Mode,
    pub input: Input,
    pub run: Run,
    pub waves: Waves,
    pub screens: Screens,
    pub name_buf: Vec<char>,
    pub hs: Vec<ScoreEntry>,
    pub audio: Audio,
}

/// `Progress` as the contracts see it.
pub struct ProgressView {
    pub mode: Mode,
    pub input: Input,
    pub run: Run,
    pub waves: Waves,
    pub screens: Screens,
    pub name_buf: Seq<char>,
    pub hs: Seq<Entry>,
    pub audio: Audio,
}

impl View for Progress {
    type V = ProgressView;

    open spec fn view(&self) -> ProgressView {
        ProgressView {
            mode: self.mode,
            input: self.input,
            run: self.run,
            waves: self.waves,
            screens: self.screens,
            name_buf: self.name_buf@,
            hs: table_view(self.hs@),
            audio: self.audio,
        }
    }
}

// ── Rules as functions of the state ──────────────────────────────────────

/// Sound effects play only in a real game, not on the title or in the demo.
pub open spec fn sfx_on_spec(v: ProgressView) -> bool {
    !v.mode.demo && v.mode.state != Phase::Attract
}

/// Every third kill in a chain raises the score multiplier, up to x5.
pub open spec fn multiplier_of(combo: u32) -> u32 {
    if 1 + combo / 3 < 5 {
        (1 + combo / 3) as u32
    } else {
        5
    }
}

/// How many enemies may be on screen at once in wave `wave`.
pub open spec fn max_concurrent_of(wave: u32) -> u32 {
    if 6 + (wave - 1) / 2 < 12 {
        (6 + (wave - 1) / 2) as u32
    } else {
        12
    }
}

/// Milliseconds between enemy arrivals: 2.2 s in wave one, 160 ms less
/// each wave, never under 0.7 s.
pub open spec fn spawn_interval_of(wave: u32) -> int {
    let t = 2200 - (wave - 1) * 160;
    if t > 700 {
        t
    } else {
        700
    }
}

/// The enemy mix: grunts only at first, darters from wave 2, gunners from
/// wave 3. `draw` is a raw random draw.
pub open spec fn enemy_type_of(wave: u32, draw: u32) -> EKind {
    let r = 1 + draw % 100;
    if wave <= 1 {
        EKind::Grunt
    } else if wave == 2 {
        if r <= 65 {
            EKind::Grunt
        } else {
            EKind::Darter
        }
    } else if r <= 45 {
        EKind::Grunt
    } else if r <= 75 {
        EKind::Darter
    } else {
        EKind::Gunner
    }
}

/// Enemies a normal wave sends in all.
pub open spec fn wave_budget(wave: int) -> u32 {
    if 4 + wave * 2 < 22 {
        (4 + wave * 2) as u32
    } else {
        22
    }
}

pub open spec fn is_boss_wave(enhanced: bool, wave: int) -> bool {
    enhanced && wave % 5 == 0
}

/// Large asteroids a wave scatters in enhanced mode.
pub open spec fn rocks_of(enhanced: bool, wave: int) -> u32 {
    if enhanced {
        if 2 + wave / 3 < 4 {
            (2 + wave / 3) as u32
        } else {
            4
        }
    } else {
        0
    }
}

/// The next wave: every fifth wave in enhanced mode is the Dreadnought with
/// two grunts, otherwise two enemies come at once and the rest over time;
/// enhanced mode also scatters a few large asteroids.
pub open spec fn next_wave_spec(v: ProgressView) -> (ProgressView, WavePlan) {
    let w = v.waves.wave + 1;
    let boss = is_boss_wave(v.mode.enhanced, w);
    (
        ProgressView {
            waves: Waves {
                wave: w as u32,
                spawned: if boss {
                    3
                } else {
                    2
                },
                budget: if boss {
                    3
                } else {
                    wave_budget(w)
                },
            },
            mode: Mode { state: Phase::Playing, ..v.mode },
            ..v
        },
        WavePlan { boss, rocks: rocks_of(v.mode.enhanced, w) },
    )
}

/// A new game from wave one.
pub open spec fn start_game_spec(v: ProgressView) -> (ProgressView, WavePlan) {
    next_wave_spec(
        ProgressView {
            mode: Mode { demo: false, state: Phase::Playing, ..v.mode },
            waves: Waves { wave: 0, ..v.waves },
            ..v
        },
    )
}

/// The attract-mode demo from wave one.
pub open spec fn launch_demo_spec(v: ProgressView) -> (ProgressView, WavePlan) {
    next_wave_spec(
        ProgressView {
            mode: Mode { demo: true, state: Phase::Playing, ..v.mode },
            waves: Waves { wave: 0, ..v.waves },
            ..v
        },
    )
}

/// The state of a fresh run, with the high-score table `hs` reloaded.
pub open spec fn cleared_spec(v: ProgressView, hs: Seq<Entry>) -> ProgressView {
    ProgressView {
        mode: Mode { demo: false, paused: false, ..v.mode },
        run: Run { score: 0, lives: 3, combo: 0, shield: false },
        waves: Waves { wave: 0, budget: 0, spawned: 0 },
        screens: Screens { entering_name: false, table_shown: false, space_armed: false },
        name_buf: seq![],
        hs,
        ..v
    }
}

/// Everything back to the start: straight into a new game, or onto the
/// title screen.
pub open spec fn reset_spec(v: ProgressView, replay: bool, hs: Seq<Entry>) -> (
    ProgressView,
    Option<WavePlan>,
) {
    let base = cleared_spec(v, hs);
    if replay {
        let (g, plan) = start_game_spec(
            ProgressView { mode: Mode { state: Phase::Playing, ..base.mode }, ..base },
        );
        (g, Some(plan))
    } else {
        (ProgressView { mode: Mode { state: Phase::Attract, attract_idx: 0, ..base.mode }, ..base }, None)
    }
}

pub open spec fn kill_spec(v: ProgressView, base: u32) -> (ProgressView, Kill) {
    let prev = multiplier_of(v.run.combo);
    let mult = multiplier_of((v.run.combo + 1) as u32);
    let award = (base * mult) as u32;
    (
        ProgressView {
            run: Run { combo: (v.run.combo + 1) as u32, score: (v.run.score + award) as u32, ..v.run },
            ..v
        },
        Kill { award, mult, combo_up: mult > prev && mult > 1 && sfx_on_spec(v) },
    )
}

/// The bonus for clearing wave `wave`: 250 points per wave number.
pub open spec fn wave_bonus(wave: u32) -> int {
    250 * wave
}

/// The chain of kills is over: combo back to zero, nothing else changes.
pub open spec fn combo_broken(v: ProgressView) -> ProgressView {
    ProgressView { run: Run { combo: 0, ..v.run }, ..v }
}

pub open spec fn damage_spec(v: ProgressView) -> (ProgressView, Damage) {
    if v.run.shield {
        (ProgressView { run: Run { shield: false, ..v.run }, ..v }, Damage::ShieldBroken)
    } else {
        let v1 = ProgressView { run: Run { lives: (v.run.lives - 1) as i32, combo: 0, ..v.run }, ..v };
        if v1.run.lives > 0 {
            (v1, Damage::Hit)
        } else if v1.mode.demo {
            (v1, Damage::DemoOver)
        } else {
            (ProgressView { mode: Mode { state: Phase::GameOver, ..v1.mode }, ..v1 }, Damage::GameOver)
        }
    }
}

pub open spec fn powerup_spec(v: ProgressView, kind: PuKind) -> ProgressView {
    match kind {
        PuKind::Shield => ProgressView { run: Run { shield: true, ..v.run }, ..v },
        PuKind::Life => ProgressView {
            run: Run {
                lives: if v.run.lives + 1 < 5 {
                    (v.run.lives + 1) as i32
                } else {
                    5
                },
                ..v.run
            },
            ..v
        },
        _ => v,
    }
}

pub open spec fn is_letter(c: char) -> bool {
    ('a' <= c && c <= 'z') || ('A' <= c && c <= 'Z')
}

pub open spec fn upper(c: char) -> char {
    if 'a' <= c && c <= 'z' {
        ((c as u32) - 32) as char
    } else {
        c
    }
}

/// The name recorded for an empty entry.
pub open spec fn default_name() -> Seq<char> {
    seq!['Y', 'O', 'U']
}

pub open spec fn finish_name_spec(v: ProgressView) -> ProgressView {
    let name = if v.name_buf.len() == 0 {
        default_name()
    } else {
        v.name_buf
    };
    ProgressView {
        hs: best_of(v.hs.push((name, v.run.score))),
        screens: Screens { entering_name: false, table_shown: true, space_armed: true },
        name_buf: seq![],
        ..v
    }
}

/// The held-key flags after a key goes down or up.
pub open spec fn input_spec(i: Input, k: Key, down: bool) -> Input {
    match k {
        Key::ArrowLeft => Input { left: down, ..i },
        Key::ArrowRight => Input { right: down, ..i },
        Key::ArrowUp => Input { up: down, ..i },
        Key::ArrowDown => Input { down: down, ..i },
        Key::Char(c) => if c == ' ' {
            Input { fire: down, ..i }
        } else {
            i
        },
        _ => i,
    }
}

/// Typing a name: Backspace deletes, Enter records the score, letters (up
/// to three, upper-cased) are appended.
pub open spec fn name_key_spec(v: ProgressView, k: Key) -> (ProgressView, KeyAction) {
    match k {
        Key::Backspace => (
            ProgressView {
                name_buf: if v.name_buf.len() > 0 {
                    v.name_buf.drop_last()
                } else {
                    v.name_buf
                },
                ..v
            },
            KeyAction::Nothing,
        ),
        Key::Enter => (finish_name_spec(v), KeyAction::SaveScores),
        Key::Char(c) => if v.name_buf.len() < 3 && is_letter(c) {
            (ProgressView { name_buf: v.name_buf.push(upper(c)), ..v }, KeyAction::Nothing)
        } else {
            (v, KeyAction::Nothing)
        },
        _ => (v, KeyAction::Nothing),
    }
}

pub open spec fn in_play(s: Phase) -> bool {
    s == Phase::Playing || s == Phase::WaveBreak
}

/// The game's key bindings: space fires, starts and restarts; P or Escape
/// pauses; R restarts; M mutes.
pub open spec fn command_key_spec(v: ProgressView, k: Key) -> (ProgressView, KeyAction) {
    let m = v.mode;
    if k == Key::Char(' ') {
        if m.demo {
            (v, KeyAction::Reset(true))
        } else if m.state == Phase::Attract {
            (v, KeyAction::StartGame)
        } else if m.state == Phase::GameOver && v.screens.space_armed {
            (v, KeyAction::Reset(true))
        } else {
            (v, KeyAction::Nothing)
        }
    } else if k == Key::Char('p') || k == Key::Char('P') || k == Key::Escape {
        if m.paused || (!m.demo && in_play(m.state)) {
            (ProgressView { mode: Mode { paused: !m.paused, ..m }, ..v }, KeyAction::Nothing)
        } else {
            (v, KeyAction::Nothing)
        }
    } else if k == Key::Char('r') || k == Key::Char('R') {
        if !m.demo && (in_play(m.state) || m.state == Phase::GameOver) {
            (v, KeyAction::Reset(true))
        } else {
            (v, KeyAction::Nothing)
        }
    } else if k == Key::Char('m') || k == Key::Char('M') {
        (ProgressView { audio: Audio { muted: !v.audio.muted, ..v.audio }, ..v }, KeyAction::Nothing)
    } else {
        (v, KeyAction::Nothing)
    }
}

/// A key event: held-key flags first; a press also unlocks sound, then goes
/// to the name entry if one is open, else to the key bindings.
pub open spec fn key_spec(v: ProgressView, k: Key, down: bool) -> (ProgressView, KeyAction) {
    let v1 = ProgressView { input: input_spec(v.input, k, down), ..v };
    if !down {
        (v1, KeyAction::Nothing)
    } else {
        let v2 = ProgressView { audio: Audio { unlocked: true, ..v1.audio }, ..v1 };
        if v2.screens.entering_name {
            name_key_spec(v2, k)
        } else {
            command_key_spec(v2, k)
        }
    }
}

fn is_ascii_letter(c: char) -> (r: bool)
    ensures
        r == is_letter(c),
{
    ('a' <= c && c <= 'z') || ('A' <= c && c <= 'Z')
}

fn to_upper(c: char) -> (u: char)
    requires
        is_letter(c),
    ensures
        u == upper(c),
{
    if 'a' <= c && c <= 'z' {
        let b = c as u8;
        assert(b as u32 == c as u32);
        ((b - 32) as u8) as char
    } else {
        c
    }
}

impl Input {
    /// The held-key flags after a key goes down or up.
    pub fn set(&mut self, k: Key, down: bool)
        ensures
            *final(self) == input_spec(*old(self), k, down),
    {
        match k {
            Key::ArrowLeft => self.left = down,
            Key::ArrowRight => self.right = down,
            Key::ArrowUp => self.up = down,
            Key::ArrowDown => self.down = down,
            Key::Char(c) => {
                if c == ' ' {
                    self.fire = down;
                }
            },
            _ => {},
        }
    }
}

impl Progress {
    /// The state before the first reset: title screen, classic mode, sound
    /// locked, the given high-score table.
    pub fn new(hs: Vec<ScoreEntry>) -> (p: Progress)
        ensures
            p@ == (ProgressView {
                mode: Mode {
                    state: Phase::Attract,
                    demo: false,
                    paused: false,
                    enhanced: false,
                    attract_idx: 0,
                },
                input: Input { left: false, right: false, up: false, down: false, fire: false },
                run: Run { score: 0, lives: 3, combo: 0, shield: false },
                waves: Waves { wave: 0, budget: 0, spawned: 0 },
                screens: Screens { entering_name: false, table_shown: false, space_armed: false },
                name_buf: seq![],
                hs: table_view(hs@),
                audio: Audio { unlocked: false, muted: false },
            }),
    {
        Progress {
            mode: Mode {
                state: Phase::Attract,
                demo: false,
                paused: false,
                enhanced: false,
                attract_idx: 0,
            },
            input: Input { left: false, right: false, up: false, down: false, fire: false },
            run: Run { score: 0, lives: 3, combo: 0, shield: false },
            waves: Waves { wave: 0, budget: 0, spawned: 0 },
            screens: Screens { entering_name: false, table_shown: false, space_armed: false },
            name_buf: Vec::new(),
            hs,
            audio: Audio::new(),
        }
    }

    pub fn sfx_on(&self) -> (r: bool)
        ensures
            r == sfx_on_spec(self@),
    {
        !self.mode.demo && self.mode.state != Phase::Attract
    }

    pub fn multiplier(&self) -> (m: u32)
        ensures
            m == multiplier_of(self.run.combo),
    {
        let m = 1 + self.run.combo / 3;
        if m < 5 {
            m
        } else {
            5
        }
    }

    pub fn max_concurrent(&self) -> (m: u32)
        requires
            self.waves.wave >= 1,
        ensures
            m == max_concurrent_of(self.waves.wave),
    {
        let m = 6 + (self.waves.wave - 1) / 2;
        if m < 12 {
            m
        } else {
            12
        }
    }

    pub fn spawn_interval(&self) -> (ms: u32)
        ensures
            ms == spawn_interval_of(self.waves.wave),
    {
        if self.waves.wave == 0 {
            2360
        } else if self.waves.wave >= 11 {
            700
        } else {
            2200 - (self.waves.wave - 1) * 160
        }
    }

    /// The kind of the next random enemy; `draw` is a raw random draw.
    pub fn pick_enemy_type(&self, draw: u32) -> (k: EKind)
        ensures
            k == enemy_type_of(self.waves.wave, draw),
    {
        let r = 1 + draw % 100;
        if self.waves.wave <= 1 {
            return EKind::Grunt;
        }
        if self.waves.wave == 2 {
            return if r <= 65 {
                EKind::Grunt
            } else {
                EKind::Darter
            };
        }
        if r <= 45 {
            EKind::Grunt
        } else if r <= 75 {
            EKind::Darter
        } else {
            EKind::Gunner
        }
    }

    pub fn start_next_wave(&mut self) -> (plan: WavePlan)
        requires
            old(self).waves.wave < u32::MAX,
            !is_boss_wave(old(self).mode.enhanced, old(self).waves.wave + 1) ==> 4 + (old(
                self,
            ).waves.wave + 1) * 2 <= u32::MAX,
        ensures
            (final(self)@, plan) == next_wave_spec(old(self)@),
    {
        let w = self.waves.wave + 1;
        self.mode.state = Phase::Playing;
        let rocks = if self.mode.enhanced {
            // Scatter fresh rocks at wave start.
            let r = 2 + w / 3;
            if r < 4 {
                r
            } else {
                4
            }
        } else {
            0
        };
        if self.mode.enhanced && w % 5 == 0 {
            // Boss wave: the Dreadnought plus a two-grunt escort.
            self.waves = Waves { wave: w, budget: 3, spawned: 3 };
            return WavePlan { boss: true, rocks };
        }
        let b = 4 + w * 2;
        let budget = if b < 22 {
            b
        } else {
            22
        };
        self.waves = Waves { wave: w, budget, spawned: 2 };
        WavePlan { boss: false, rocks }
    }

    pub fn start_game(&mut self) -> (plan: WavePlan)
        ensures
            (final(self)@, plan) == start_game_spec(old(self)@),
    {
        self.mode.demo = false;
        self.mode.state = Phase::Playing;
        self.waves.wave = 0;
        self.start_next_wave()
    }

    pub fn launch_demo(&mut self) -> (plan: WavePlan)
        ensures
            (final(self)@, plan) == launch_demo_spec(old(self)@),
    {
        self.mode.demo = true;
        self.mode.state = Phase::Playing;
        self.waves.wave = 0;
        self.start_next_wave()
    }

    /// Back to the start with the freshly loaded table `hs`.
    pub fn reset(&mut self, replay: bool, hs: Vec<ScoreEntry>) -> (plan: Option<WavePlan>)
        ensures
            (final(self)@, plan) == reset_spec(old(self)@, replay, table_view(hs@)),
    {
        self.mode.demo = false;
        self.mode.paused = false;
        self.run = Run { score: 0, lives: 3, combo: 0, shield: false };
        self.waves = Waves { wave: 0, budget: 0, spawned: 0 };
        self.screens = Screens { entering_name: false, table_shown: false, space_armed: false };
        self.name_buf = Vec::new();
        self.hs = hs;
        if replay {
            self.mode.state = Phase::Playing;
            let plan = self.start_game();
            return Some(plan);
        }
        self.mode.state = Phase::Attract;
        self.mode.attract_idx = 0;
        None
    }

    /// Skip ahead to wave `wave` (a test hook): only during play.
    pub fn jump_to_wave(&mut self, wave: u32) -> (plan: Option<WavePlan>)
        requires
            in_play(old(self).mode.state) && wave >= 1 && !is_boss_wave(
                old(self).mode.enhanced,
                wave as int,
            ) ==> 4 + wave * 2 <= u32::MAX,
        ensures
            in_play(old(self).mode.state) && wave >= 1 ==> plan is Some && (final(self)@, plan->0)
                == next_wave_spec(
                ProgressView { waves: Waves { wave: (wave - 1) as u32, ..old(self).waves }, ..old(self)@ },
            ),
            !(in_play(old(self).mode.state) && wave >= 1) ==> plan is None && final(self)@ == old(
                self,
            )@,
    {
        if (self.mode.state == Phase::Playing || self.mode.state == Phase::WaveBreak) && wave >= 1 {
            self.waves.wave = wave - 1;
            let plan = self.start_next_wave();
            return Some(plan);
        }
        None
    }

    /// Switch between classic and enhanced mode; true when it changed, and
    /// then the game must reset to the title.
    pub fn set_enhanced(&mut self, on: bool) -> (changed: bool)
        ensures
            changed == (old(self).mode.enhanced != on),
            final(self)@ == (ProgressView { mode: Mode { enhanced: on, ..old(self).mode }, ..old(self)@ }),
    {
        if self.mode.enhanced != on {
            self.mode.enhanced = on;
            return true;
        }
        false
    }

    /// The attract loop shows three pages, then plays the demo: true when
    /// the demo should start.
    pub fn next_attract_page(&mut self) -> (demo: bool)
        ensures
            demo == (old(self).mode.attract_idx >= 2),
            final(self)@ == (ProgressView {
                mode: Mode {
                    attract_idx: if demo {
                        old(self).mode.attract_idx
                    } else {
                        (old(self).mode.attract_idx + 1) as usize
                    },
                    ..old(self).mode
                },
                ..old(self)@
            }),
    {
        if self.mode.attract_idx >= 2 {
            return true;
        }
        self.mode.attract_idx = self.mode.attract_idx + 1;
        false
    }

    /// Whether the wave still has enemies to send.
    pub fn wants_spawn(&self) -> (r: bool)
        ensures
            r == (self.waves.spawned < self.waves.budget),
    {
        self.waves.spawned < self.waves.budget
    }

    /// Send the next enemy if fewer than the wave's cap are alive.
    pub fn spawn_slot(&mut self, live: usize) -> (r: bool)
        requires
            old(self).waves.wave >= 1,
            old(self).waves.spawned < old(self).waves.budget,
        ensures
            r == ((live as u32) < max_concurrent_of(old(self).waves.wave)),
            final(self)@ == (ProgressView {
                waves: Waves {
                    spawned: if r {
                        (old(self).waves.spawned + 1) as u32
                    } else {
                        old(self).waves.spawned
                    },
                    ..old(self).waves
                },
                ..old(self)@
            }),
    {
        if (live as u32) < self.max_concurrent() {
            self.waves.spawned = self.waves.spawned + 1;
            return true;
        }
        false
    }

    /// Once the whole budget is spent and every enemy is down, the wave is
    /// clear: a break begins and the wave bonus is paid.
    pub fn check_wave_complete(&mut self, enemies_empty: bool) -> (bonus: Option<u32>)
        requires
            old(self).waves.spawned >= old(self).waves.budget && enemies_empty ==> old(
                self,
            ).run.score + wave_bonus(old(self).waves.wave) <= u32::MAX,
        ensures
            old(self).waves.spawned >= old(self).waves.budget && enemies_empty ==> bonus == Some(
                (wave_bonus(old(self).waves.wave)) as u32,
            ) && final(self)@ == (ProgressView {
                mode: Mode { state: Phase::WaveBreak, ..old(self).mode },
                run: Run {
                    score: (old(self).run.score + wave_bonus(old(self).waves.wave)) as u32,
                    ..old(self).run
                },
                ..old(self)@
            }),
            !(old(self).waves.spawned >= old(self).waves.budget && enemies_empty) ==> bonus is None
                && final(self)@ == old(self)@,
    {
        if self.waves.spawned >= self.waves.budget && enemies_empty {
            self.mode.state = Phase::WaveBreak;
            let bonus = 250 * self.waves.wave;
            self.run.score = self.run.score + bonus;
            return Some(bonus);
        }
        None
    }

    /// The multiplier the next kill would earn.
    pub fn next_multiplier(&self) -> (m: u32)
        requires
            self.run.combo < u32::MAX,
        ensures
            m == multiplier_of((self.run.combo + 1) as u32),
    {
        let m = 1 + (self.run.combo + 1) / 3;
        if m < 5 {
            m
        } else {
            5
        }
    }

    /// The kill chain has timed out: the combo starts again from zero.
    pub fn break_combo(&mut self)
        ensures
            final(self)@ == combo_broken(old(self)@),
    {
        self.run.combo = 0;
    }

    /// Score a kill worth `base` points at the current multiplier.
    pub fn register_kill(&mut self, base: u32) -> (k: Kill)
        requires
            old(self).run.combo < u32::MAX,
            old(self).run.score + base * multiplier_of((old(self).run.combo + 1) as u32)
                <= u32::MAX,
        ensures
            (final(self)@, k) == kill_spec(old(self)@, base),
    {
        let prev = self.multiplier();
        self.run.combo = self.run.combo + 1;
        let mult = self.multiplier();
        assert(base * mult <= u32::MAX) by (nonlinear_arith)
            requires
                self.run.score + base * mult <= u32::MAX,
                self.run.score >= 0,
        ;
        let award = base * mult;
        self.run.score = self.run.score + award;
        let combo_up = mult > prev && mult > 1 && self.sfx_on();
        Kill { award, mult, combo_up }
    }

    /// The player takes a hit.
    pub fn damage_player(&mut self) -> (d: Damage)
        requires
            old(self).run.lives > i32::MIN,
        ensures
            (final(self)@, d) == damage_spec(old(self)@),
    {
        if self.run.shield {
            self.run.shield = false;
            return Damage::ShieldBroken;
        }
        self.run.lives = self.run.lives - 1;
        self.run.combo = 0;
        if self.run.lives > 0 {
            return Damage::Hit;
        }
        if self.mode.demo {
            return Damage::DemoOver;
        }
        self.mode.state = Phase::GameOver;
        Damage::GameOver
    }

    /// A power-up is picked up; the timed ones (spread, rapid) are the
    /// arena's business.
    pub fn apply_powerup(&mut self, kind: PuKind)
        requires
            old(self).run.lives < i32::MAX,
        ensures
            final(self)@ == powerup_spec(old(self)@, kind),
    {
        match kind {
            PuKind::Shield => self.run.shield = true,
            PuKind::Life => {
                let l = self.run.lives + 1;
                self.run.lives = if l < 5 {
                    l
                } else {
                    5
                };
            },
            _ => {},
        }
    }

    /// After game over: ask for a name if the score makes the table, else
    /// show the table and let space start a new game.
    pub fn gameover_flow(&mut self)
        ensures
            qualifies(old(self)@.hs, old(self).run.score) ==> final(self)@ == (ProgressView {
                screens: Screens { entering_name: true, ..old(self).screens },
                ..old(self)@
            }),
            !qualifies(old(self)@.hs, old(self).run.score) ==> final(self)@ == (ProgressView {
                screens: Screens { table_shown: true, space_armed: true, ..old(self).screens },
                ..old(self)@
            }),
    {
        if score_qualifies(&self.hs, self.run.score) {
            self.screens.entering_name = true;
        } else {
            self.screens.table_shown = true;
            self.screens.space_armed = true;
        }
    }

    fn finish_name_entry(&mut self)
        ensures
            final(self)@ == finish_name_spec(old(self)@),
    {
        let name = if self.name_buf.len() == 0 {
            let mut n: Vec<char> = Vec::new();
            n.push('Y');
            n.push('O');
            n.push('U');
            assert(n@ =~= default_name());
            n
        } else {
            let mut n: Vec<char> = Vec::new();
            let mut i: usize = 0;
            while i < self.name_buf.len()
                invariant
                    i <= self.name_buf@.len(),
                    n@ == self.name_buf@.take(i as int),
                decreases self.name_buf@.len() - i,
            {
                n.push(self.name_buf[i]);
                i = i + 1;
                assert(n@ =~= self.name_buf@.take(i as int));
            }
            assert(self.name_buf@.take(i as int) =~= self.name_buf@);
            n
        };
        let mut hs: Vec<ScoreEntry> = Vec::new();
        std::mem::swap(&mut hs, &mut self.hs);
        self.hs = record_score(hs, name, self.run.score);
        self.screens = Screens { entering_name: false, table_shown: true, space_armed: true };
        self.name_buf = Vec::new();
    }

    fn name_key(&mut self, k: Key) -> (action: KeyAction)
        ensures
            (final(self)@, action) == name_key_spec(old(self)@, k),
    {
        match k {
            Key::Backspace => {
                if self.name_buf.len() > 0 {
                    self.name_buf.pop();
                }
                KeyAction::Nothing
            },
            Key::Enter => {
                self.finish_name_entry();
                KeyAction::SaveScores
            },
            Key::Char(c) => {
                if self.name_buf.len() < 3 && is_ascii_letter(c) {
                    let u = to_upper(c);
                    self.name_buf.push(u);
                }
                KeyAction::Nothing
            },
            _ => KeyAction::Nothing,
        }
    }

    fn command_key(&mut self, k: Key) -> (action: KeyAction)
        ensures
            (final(self)@, action) == command_key_spec(old(self)@, k),
    {
        match k {
            Key::Char(' ') => {
                if self.mode.demo {
                    return KeyAction::Reset(true);
                }
                match self.mode.state {
                    Phase::Attract => KeyAction::StartGame,
                    Phase::GameOver => {
                        if self.screens.space_armed {
                            KeyAction::Reset(true)
                        } else {
                            KeyAction::Nothing
                        }
                    },
                    _ => KeyAction::Nothing,
                }
            },
            Key::Char('p') | Key::Char('P') | Key::Escape => {
                if self.mode.paused || (!self.mode.demo && (self.mode.state == Phase::Playing
                    || self.mode.state == Phase::WaveBreak)) {
                    self.mode.paused = !self.mode.paused;
                }
                KeyAction::Nothing
            },
            // QoL: instant restart and mute toggle.
            Key::Char('r') | Key::Char('R') => {
                if !self.mode.demo && (self.mode.state == Phase::Playing || self.mode.state
                    == Phase::WaveBreak || self.mode.state == Phase::GameOver) {
                    KeyAction::Reset(true)
                } else {
                    KeyAction::Nothing
                }
            },
            Key::Char('m') | Key::Char('M') => {
                self.audio.toggle_mute();
                KeyAction::Nothing
            },
            _ => KeyAction::Nothing,
        }
    }

    /// A key event from the browser.
    pub fn key(&mut self, k: Key, down: bool) -> (action: KeyAction)
        ensures
            (final(self)@, action) == key_spec(old(self)@, k, down),
    {
        self.input.set(k, down);
        if !down {
            return KeyAction::Nothing;
        }
        self.audio.unlock();
        if self.screens.entering_name {
            let a = self.name_key(k);
            return a;
        }
        let a = self.command_key(k);
        a
    }
}

/// The score popup text: `+award`, with ` xmult` when a multiplier applied.
pub open spec fn popup_spec(award: u32, mult: u32) -> Seq<char> {
    if mult > 1 {
        seq!['+'] + decimal(award as nat) + seq![' ', 'x'] + decimal(mult as nat)
    } else {
        seq!['+'] + decimal(award as nat)
    }
}

pub fn popup_text(award: u32, mult: u32) -> (t: Vec<char>)
    ensures
        t@ == popup_spec(award, mult),
{
    let mut t: Vec<char> = Vec::new();
    t.push('+');
    push_decimal(&mut t, award);
    if mult > 1 {
        t.push(' ');
        t.push('x');
        push_decimal(&mut t, mult);
        assert(t@ =~= popup_spec(award, mult));
    } else {
        assert(t@ =~= popup_spec(award, mult));
    }
    t
}

} // verus!
