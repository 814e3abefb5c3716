//! Game-wide state: levels, screens, frame-rate tiers, asset lists and the
//! movement keys held by the player.

use vstd::prelude::*;
use vstd::string::StringExecFns;

verus! {

/// The levels the game can load.
#[derive(Clone, Copy, PartialEq, Eq, Structural, Debug)]
pub enum GameLevel {
    Base,
}

/// The screen the game is on.
#[derive(Clone, Copy, PartialEq, Eq, Structural, Debug)]
pub enum GameState {
    Menu,
    Play,
    Settings,
    Exit,
    Loading,
}

/// One of the frame-rate choices offered on the settings screen.
#[derive(Clone, Copy, PartialEq, Eq, Structural, Debug)]
pub enum FpsTier {
    Fps30,
    Fps60,
    Fps90,
    Fps120,
    Fps144,
    Fps240,
}

impl FpsTier {
    /// Frames per second that a tier stands for.
    pub open spec fn spec_fps(self) -> u32 {
        match self {
            FpsTier::Fps30 => 30,
            FpsTier::Fps60 => 60,
            FpsTier::Fps90 => 90,
            FpsTier::Fps120 => 120,
            FpsTier::Fps144 => 144,
            FpsTier::Fps240 => 240,
        }
    }

    /// Frames per second that a tier stands for.
    pub fn frames_per_second(self) -> (fps: u32)
        ensures
            fps == self.spec_fps(),
            fps > 0,
    {
        match self {
            FpsTier::Fps30 => 30,
            FpsTier::Fps60 => 60,
            FpsTier::Fps90 => 90,
            FpsTier::Fps120 => 120,
            FpsTier::Fps144 => 144,
            FpsTier::Fps240 => 240,
        }
    }
}

/// Which frame-rate tier is ticked on the settings screen (one flag per tier).
#[derive(Clone, Copy, PartialEq, Eq, Structural, Debug)]
pub struct PerformanceState {
    pub low: bool,
    pub mid: bool,
    pub ok: bool,
    pub high: bool,
    pub very_high: bool,
    pub epic: bool,
}

impl Default for PerformanceState {
    /// No tier ticked.
    fn default() -> (s: Self)
        ensures
            s == PerformanceState::none(),
    {
        PerformanceState { low: false, mid: false, ok: false, high: false, very_high: false, epic: false }
    }
}

impl PerformanceState {
    /// The state with no tier ticked.
    pub open spec fn none() -> PerformanceState {
        PerformanceState { low: false, mid: false, ok: false, high: false, very_high: false, epic: false }
    }

    /// Whether the flag of `tier` is set.
    pub open spec fn flag(self, tier: FpsTier) -> bool {
        match tier {
            FpsTier::Fps30 => self.low,
            FpsTier::Fps60 => self.mid,
            FpsTier::Fps90 => self.ok,
            FpsTier::Fps120 => self.high,
            FpsTier::Fps144 => self.very_high,
            FpsTier::Fps240 => self.epic,
        }
    }

    /// No tier is ticked.
    pub open spec fn is_none(self) -> bool {
        !self.low && !self.mid && !self.ok && !self.high && !self.very_high && !self.epic
    }

    /// The state after the checkbox of `tier` is clicked: every other tier is
    /// cleared and the clicked one is flipped.
    pub open spec fn spec_toggled(self, tier: FpsTier) -> PerformanceState {
        let f = !self.flag(tier);
        PerformanceState {
            low: tier == FpsTier::Fps30 && f,
            mid: tier == FpsTier::Fps60 && f,
            ok: tier == FpsTier::Fps90 && f,
            high: tier == FpsTier::Fps120 && f,
            very_high: tier == FpsTier::Fps144 && f,
            epic: tier == FpsTier::Fps240 && f,
        }
    }

    /// True when no frame-rate tier is ticked.
    pub fn all_false(&self) -> (r: bool)
        ensures
            r == self.is_none(),
    {
        let flags = [self.low, self.mid, self.ok, self.high, self.very_high, self.epic];
        let mut any = false;
        let mut i: usize = 0;
        while i < 6
            invariant
                i <= 6,
                flags@ == seq![self.low, self.mid, self.ok, self.high, self.very_high, self.epic],
                any == exists|j: int| 0 <= j < i && flags@[j],
            decreases 6 - i,
        {
            any = any || flags[i];
            i = i + 1;
        }
        assert(any == (self.low || self.mid || self.ok || self.high || self.very_high || self.epic)) by {
            if self.low { assert(flags@[0]); }
            if self.mid { assert(flags@[1]); }
            if self.ok { assert(flags@[2]); }
            if self.high { assert(flags@[3]); }
            if self.very_high { assert(flags@[4]); }
            if self.epic { assert(flags@[5]); }
        }
        !any
    }

    /// Whether the checkbox of `tier` is ticked.
    pub fn is_selected(&self, tier: FpsTier) -> (r: bool)
        ensures
            r == self.flag(tier),
    {
        match tier {
            FpsTier::Fps30 => self.low,
            FpsTier::Fps60 => self.mid,
            FpsTier::Fps90 => self.ok,
            FpsTier::Fps120 => self.high,
            FpsTier::Fps144 => self.very_high,
            FpsTier::Fps240 => self.epic,
        }
    }

    /// The state after a click on the checkbox of `tier`.
    pub fn toggled(&self, tier: FpsTier) -> (r: PerformanceState)
        ensures
            r == self.spec_toggled(tier),
    {
        let f = !self.is_selected(tier);
        PerformanceState {
            low: tier == FpsTier::Fps30 && f,
            mid: tier == FpsTier::Fps60 && f,
            ok: tier == FpsTier::Fps90 && f,
            high: tier == FpsTier::Fps120 && f,
            very_high: tier == FpsTier::Fps144 && f,
            epic: tier == FpsTier::Fps240 && f,
        }
    }

    /// The tier ticked when the game starts: sixty frames per second.
    pub fn initial() -> (s: PerformanceState)
        ensures
            s == (PerformanceState { mid: true, ..PerformanceState::none() }),
    {
        PerformanceState { low: false, mid: true, ok: false, high: false, very_high: false, epic: false }
    }
}

/// A click on a tier's checkbox leaves at most that tier ticked.
pub proof fn lemma_toggle_selects_at_most_one(s: PerformanceState, tier: FpsTier, other: FpsTier)
    requires
        other != tier,
    ensures
        !s.spec_toggled(tier).flag(other),
        s.spec_toggled(tier).flag(tier) == !s.flag(tier),
{
}

/// Clicking the ticked tier again clears every tier; clicking an unticked tier
/// leaves a tier ticked.
pub proof fn lemma_toggle_clears_iff_selected(s: PerformanceState, tier: FpsTier)
    ensures
        s.spec_toggled(tier).is_none() <==> s.flag(tier),
{
}

/// Two clicks on the same tier leave only that tier's flag, as it was before.
pub proof fn lemma_toggle_twice(s: PerformanceState, tier: FpsTier, other: FpsTier)
    requires
        other != tier,
    ensures
        s.spec_toggled(tier).spec_toggled(tier).flag(tier) == s.flag(tier),
        !s.spec_toggled(tier).spec_toggled(tier).flag(other),
{
}

/// The asset files of one scene.
pub struct FileManager {
    pub model_paths: Vec<String>,
    pub transparency_paths: Vec<String>,
    pub audio_paths: Vec<String>,
}

impl GameLevel {
    /// The name under which a level's assets are listed.
    pub fn scene_name(&self) -> (name: String)
        ensures
            name@ == "base scene"@,
    {
        match self {
            GameLevel::Base => String::from_str("base scene"),
        }
    }
}

impl FileManager {
    /// The assets of a level: the opaque models, the transparent models and
    /// the sounds.
    pub fn for_level(level: GameLevel) -> (files: FileManager)
        ensures
            files.model_paths@.len() == 1,
            files.model_paths@[0]@ == "catdoor_edited"@,
            files.transparency_paths@.len() == 1,
            files.transparency_paths@[0]@ == "door"@,
            files.audio_paths@.len() == 1,
            files.audio_paths@[0]@ == "jog.mp3"@,
    {
        match level {
            GameLevel::Base => {
                let mut model_paths: Vec<String> = Vec::new();
                model_paths.push(String::from_str("catdoor_edited"));
                let mut transparency_paths: Vec<String> = Vec::new();
                transparency_paths.push(String::from_str("door"));
                let mut audio_paths: Vec<String> = Vec::new();
                audio_paths.push(String::from_str("jog.mp3"));
                FileManager { model_paths, transparency_paths, audio_paths }
            },
        }
    }
}

/// The keys of the keyboard that the game reacts to; every other key is `Other`.
#[derive(Clone, Copy, PartialEq, Eq, Structural, Debug)]
pub enum Key {
    KeyW,
    ArrowUp,
    KeyS,
    ArrowDown,
    KeyA,
    ArrowLeft,
    KeyD,
    ArrowRight,
    KeyQ,
    KeyE,
    ShiftLeft,
    ShiftRight,
    Escape,
    Other,
}

/// The movement keys currently held.
#[derive(Clone, Copy, PartialEq, Eq, Structural, Debug)]
pub struct InputState {
    pub w: bool,
    pub s: bool,
    pub a: bool,
    pub d: bool,
    pub q: bool,
    pub e: bool,
    pub shift: bool,
}

impl Default for InputState {
    /// No key held.
    fn default() -> (r: Self)
        ensures
            r == InputState::released(),
    {
        InputState { w: false, s: false, a: false, d: false, q: false, e: false, shift: false }
    }
}

impl InputState {
    /// No key held.
    pub open spec fn released() -> InputState {
        InputState { w: false, s: false, a: false, d: false, q: false, e: false, shift: false }
    }

    /// The state after `key` went down (`pressed`) or up: the arrow keys act as
    /// W, S, A, D, either shift key as shift, and other keys change nothing.
    pub open spec fn spec_with_key(self, key: Key, pressed: bool) -> InputState {
        match key {
            Key::KeyW | Key::ArrowUp => InputState { w: pressed, ..self },
            Key::KeyS | Key::ArrowDown => InputState { s: pressed, ..self },
            Key::KeyA | Key::ArrowLeft => InputState { a: pressed, ..self },
            Key::KeyD | Key::ArrowRight => InputState { d: pressed, ..self },
            Key::KeyQ => InputState { q: pressed, ..self },
            Key::KeyE => InputState { e: pressed, ..self },
            Key::ShiftLeft | Key::ShiftRight => InputState { shift: pressed, ..self },
            _ => self,
        }
    }

    /// Records that `key` went down (`pressed`) or up.
    pub fn apply_key(&mut self, key: Key, pressed: bool)
        ensures
            *final(self) == old(self).spec_with_key(key, pressed),
    {
        match key {
            Key::KeyW | Key::ArrowUp => self.w = pressed,
            Key::KeyS | Key::ArrowDown => self.s = pressed,
            Key::KeyA | Key::ArrowLeft => self.a = pressed,
            Key::KeyD | Key::ArrowRight => self.d = pressed,
            Key::KeyQ => self.q = pressed,
            Key::KeyE => self.e = pressed,
            Key::ShiftLeft | Key::ShiftRight => self.shift = pressed,
            _ => {},
        }
    }
}

/// Each key sets exactly the key it stands for to whether it is pressed and
/// leaves the other keys held as they were: W and ArrowUp forward, S and
/// ArrowDown backward, A and ArrowLeft left, D and ArrowRight right, Q down,
/// E up, either shift the run; Escape and other keys change nothing.
pub proof fn lemma_key_sets_its_field(held: InputState, p: bool)
    ensures
        held.spec_with_key(Key::KeyW, p) == (InputState { w: p, ..held }),
        held.spec_with_key(Key::ArrowUp, p) == (InputState { w: p, ..held }),
        held.spec_with_key(Key::KeyS, p) == (InputState { s: p, ..held }),
        held.spec_with_key(Key::ArrowDown, p) == (InputState { s: p, ..held }),
        held.spec_with_key(Key::KeyA, p) == (InputState { a: p, ..held }),
        held.spec_with_key(Key::ArrowLeft, p) == (InputState { a: p, ..held }),
        held.spec_with_key(Key::KeyD, p) == (InputState { d: p, ..held }),
        held.spec_with_key(Key::ArrowRight, p) == (InputState { d: p, ..held }),
        held.spec_with_key(Key::KeyQ, p) == (InputState { q: p, ..held }),
        held.spec_with_key(Key::KeyE, p) == (InputState { e: p, ..held }),
        held.spec_with_key(Key::ShiftLeft, p) == (InputState { shift: p, ..held }),
        held.spec_with_key(Key::ShiftRight, p) == (InputState { shift: p, ..held }),
        held.spec_with_key(Key::Escape, p) == held,
        held.spec_with_key(Key::Other, p) == held,
{
}

} // verus!
