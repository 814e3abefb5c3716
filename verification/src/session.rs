//! The decisions the game takes on window, device and frame events: which
//! screen is shown, whether the player is in control, which keys are held,
//! and what the window layer has to do in response.

use crate::game_manager::{FpsTier, GameLevel, GameState, InputState, Key, PerformanceState};
use vstd::prelude::*;

verus! {

/// A window event, reduced to what the game reacts to.
#[derive(Clone, Copy, PartialEq, Eq, Structural, Debug)]
pub enum WindowInput {
    /// A keyboard key went down (`pressed`) or up.
    KeyInput { key: Key, pressed: bool },
    /// The window changed size.
    Resized,
    /// The left mouse button went down.
    MouseLeftPressed,
    /// The window asks for a new frame.
    RedrawRequested,
    /// The user asked to close the window.
    CloseRequested,
    /// Any other event.
    Other,
}

/// What the window layer has to do after a window event.
#[derive(Clone, Copy, PartialEq, Eq, Structural, Debug)]
pub struct WindowReaction {
    /// Start the menu sound again.
    pub play_menu_sound: bool,
    /// Show the cursor and release its grab.
    pub release_cursor: bool,
    /// Reconfigure the surface and the depth buffer to the new window size.
    pub reconfigure_surface: bool,
    /// Stop the footstep sound.
    pub stop_footsteps: bool,
    /// Render a frame of the current screen.
    pub redraw: bool,
    /// Leave the event loop.
    pub exit: bool,
}

/// The work of one frame while the game is not being played.
#[derive(Clone, Copy, PartialEq, Eq, Structural, Debug)]
pub struct IdleWork {
    /// Start loading this level in the background.
    pub load_level: Option<GameLevel>,
    /// Look whether the background loader has delivered the scene.
    pub poll_loader: bool,
    /// Pace the frame and ask the window for a redraw.
    pub refresh: bool,
}

/// How the player wants to move this frame, from the keys held.
#[derive(Clone, Copy, PartialEq, Eq, Structural, Debug)]
pub struct MoveIntent {
    /// +1 forward (W), -1 backward (S), 0 when neither or both.
    pub forward: i8,
    /// +1 right (D), -1 left (A), 0 when neither or both.
    pub strafe: i8,
    /// +1 up (E), -1 down (Q), 0 when neither or both.
    pub lift: i8,
    /// Some movement key is held.
    pub moving: bool,
    /// Walking speed: 12 with shift held, else 8.
    pub speed: u32,
}

/// What happens to the footstep sound this frame.
#[derive(Clone, Copy, PartialEq, Eq, Structural, Debug)]
pub enum FootstepAction {
    /// Start the sound from the beginning.
    Start,
    /// Fade the sound out.
    FadeOut,
    /// Leave the sound as it is.
    Keep,
}

/// How the camera is updated this frame.
#[derive(Clone, Copy, PartialEq, Eq, Structural, Debug)]
pub enum CameraStep {
    /// Nothing changed.
    Still,
    /// The view turned but the player did not move.
    Turn,
    /// The player moved (and maybe turned): move through the physics world.
    Walk,
}

/// The state of the game shell: the screen, who has the cursor, the keys
/// held, and the loading and redraw flags.
#[derive(Clone, Copy, PartialEq, Eq, Structural, Debug)]
pub struct Session {
    pub game_state: GameState,
    pub game_level: GameLevel,
    pub playing: bool,
    pub mouse_locked: bool,
    pub input: InputState,
    pub should_draw: bool,
    pub should_load: bool,
    pub scene_loaded: bool,
    pub fps_state: PerformanceState,
    pub target_fps: u32,
}

impl WindowReaction {
    /// Nothing to do.
    pub open spec fn nothing() -> WindowReaction {
        WindowReaction {
            play_menu_sound: false,
            release_cursor: false,
            reconfigure_surface: false,
            stop_footsteps: false,
            redraw: false,
            exit: false,
        }
    }
}

impl Session {
    /// The state when the window first comes up: the scene is to be loaded.
    pub open spec fn spec_start() -> Session {
        Session {
            game_state: GameState::Loading,
            game_level: GameLevel::Base,
            playing: false,
            mouse_locked: false,
            input: InputState::released(),
            should_draw: true,
            should_load: true,
            scene_loaded: false,
            fps_state: PerformanceState { mid: true, ..PerformanceState::none() },
            target_fps: 60,
        }
    }

    /// The player is in control exactly while the game is played, holds the
    /// cursor exactly then, and no key counts as held outside play.
    pub open spec fn inv(self) -> bool {
        &&& self.playing <==> self.game_state == GameState::Play
        &&& self.mouse_locked == self.playing
        &&& !self.playing ==> self.input == InputState::released()
    }

    /// The state and reaction after a window event. `egui_consumed` says that
    /// the user interface took the event; `menu_sound_playing` that the menu
    /// sound is still playing.
    pub open spec fn spec_window_event(
        self,
        event: WindowInput,
        egui_consumed: bool,
        menu_sound_playing: bool,
    ) -> (Session, WindowReaction) {
        let quiet = WindowReaction::nothing();
        let s1 = if self.game_state == GameState::Play {
            Session { should_draw: true, ..self }
        } else {
            self
        };
        let r1 = match self.game_state {
            GameState::Play | GameState::Loading => quiet,
            _ => WindowReaction { play_menu_sound: !menu_sound_playing, ..quiet },
        };
        let consumed = self.game_state != GameState::Play && egui_consumed;
        if consumed {
            (s1, r1)
        } else {
            match event {
                WindowInput::KeyInput { key: Key::Escape, pressed } => {
                    if s1.mouse_locked && pressed && s1.playing {
                        (
                            Session {
                                mouse_locked: false,
                                game_state: GameState::Menu,
                                playing: false,
                                input: InputState::released(),
                                ..s1
                            },
                            WindowReaction { release_cursor: true, ..r1 },
                        )
                    } else {
                        (s1, r1)
                    }
                },
                WindowInput::Resized => {
                    if s1.should_load {
                        (s1, r1)
                    } else {
                        (s1, WindowReaction { reconfigure_surface: true, ..r1 })
                    }
                },
                WindowInput::KeyInput { key, pressed } => {
                    if s1.playing {
                        (Session { input: s1.input.spec_with_key(key, pressed), ..s1 }, r1)
                    } else {
                        (s1, r1)
                    }
                },
                WindowInput::MouseLeftPressed => (
                    Session { should_draw: true, ..s1 },
                    WindowReaction { stop_footsteps: true, ..r1 },
                ),
                WindowInput::RedrawRequested => (s1, WindowReaction { redraw: true, ..r1 }),
                WindowInput::CloseRequested => (s1, WindowReaction { exit: true, ..r1 }),
                WindowInput::Other => (s1, r1),
            }
        }
    }

    /// The state after a device event and whether the view turns by the mouse
    /// motion: only while the cursor is held, else a redraw is asked for.
    pub open spec fn spec_device_event(self, mouse_motion: bool) -> (Session, bool) {
        if !self.mouse_locked {
            (Session { should_draw: true, ..self }, false)
        } else {
            (self, mouse_motion)
        }
    }

    /// The state after the buttons of the main menu were drawn with these
    /// clicks, and whether the cursor is to be grabbed.
    pub open spec fn spec_menu(self, play: bool, settings: bool, exit: bool) -> (Session, bool) {
        let s1 = if play {
            Session { game_state: GameState::Play, playing: true, mouse_locked: true, ..self }
        } else {
            self
        };
        let s2 = if settings {
            Session { game_state: GameState::Settings, ..s1 }
        } else {
            s1
        };
        let s3 = if exit {
            Session { game_state: GameState::Exit, ..s2 }
        } else {
            s2
        };
        (s3, play)
    }

    /// The state after a click on a frame-rate checkbox of the settings screen.
    pub open spec fn spec_select_fps(self, tier: FpsTier) -> Session {
        Session { fps_state: self.fps_state.spec_toggled(tier), target_fps: tier.spec_fps(), ..self }
    }

    /// The state after the back button of the settings screen was drawn.
    pub open spec fn spec_settings_back(self, back: bool) -> Session {
        if back {
            Session { game_state: GameState::Menu, ..self }
        } else {
            self
        }
    }

    /// The state once the background loader delivered the scene.
    pub open spec fn spec_scene_delivered(self) -> Session {
        Session { game_state: GameState::Menu, scene_loaded: true, ..self }
    }

    /// The state and the work of a frame outside play.
    pub open spec fn spec_idle_tick(self) -> (Session, IdleWork) {
        let s1 = if self.should_load {
            Session { should_load: false, scene_loaded: false, ..self }
        } else {
            self
        };
        (
            Session { should_draw: false, ..s1 },
            IdleWork {
                load_level: if self.should_load {
                    Some(self.game_level)
                } else {
                    None
                },
                poll_loader: !s1.scene_loaded,
                refresh: s1.should_draw,
            },
        )
    }

    /// The state when the window first comes up.
    pub fn new() -> (s: Session)
        ensures
            s == Session::spec_start(),
            s.inv(),
    {
        Session {
            game_state: GameState::Loading,
            game_level: GameLevel::Base,
            playing: false,
            mouse_locked: false,
            input: InputState::default(),
            should_draw: true,
            should_load: true,
            scene_loaded: false,
            fps_state: PerformanceState::initial(),
            target_fps: 60,
        }
    }

    /// Takes a window event; see `spec_window_event`.
    pub fn on_window_event(&mut self, event: WindowInput, egui_consumed: bool, menu_sound_playing: bool) -> (r:
        WindowReaction)
        ensures
            (*final(self), r) == old(self).spec_window_event(event, egui_consumed, menu_sound_playing),
    {
        let mut r = WindowReaction {
            play_menu_sound: false,
            release_cursor: false,
            reconfigure_surface: false,
            stop_footsteps: false,
            redraw: false,
            exit: false,
        };
        let consumed = match self.game_state {
            GameState::Play => {
                self.should_draw = true;
                false
            },
            GameState::Loading => egui_consumed,
            _ => {
                if !menu_sound_playing {
                    r.play_menu_sound = true;
                }
                egui_consumed
            },
        };
        if consumed {
            return r;
        }
        match event {
            WindowInput::KeyInput { key: Key::Escape, pressed } => {
                if self.mouse_locked && pressed && self.playing {
                    r.release_cursor = true;
                    self.mouse_locked = false;
                    self.game_state = GameState::Menu;
                    self.playing = false;
                    self.input = InputState::default();
                }
            },
            WindowInput::Resized => {
                if !self.should_load {
                    r.reconfigure_surface = true;
                }
            },
            WindowInput::KeyInput { key, pressed } => {
                if self.playing {
                    self.input.apply_key(key, pressed);
                }
            },
            WindowInput::MouseLeftPressed => {
                self.should_draw = true;
                r.stop_footsteps = true;
            },
            WindowInput::RedrawRequested => {
                r.redraw = true;
            },
            WindowInput::CloseRequested => {
                r.exit = true;
            },
            WindowInput::Other => {},
        }
        r
    }

    /// Takes a device event; returns whether the view turns by the mouse motion.
    pub fn on_device_event(&mut self, mouse_motion: bool) -> (turn: bool)
        ensures
            (*final(self), turn) == old(self).spec_device_event(mouse_motion),
    {
        if !self.mouse_locked {
            self.should_draw = true;
            return false;
        }
        mouse_motion
    }

    /// Takes the clicks of the main menu's Play, Settings and Exit buttons, in
    /// the order they are drawn; returns whether the cursor is to be grabbed.
    pub fn on_menu(&mut self, play: bool, settings: bool, exit: bool) -> (grab_cursor: bool)
        ensures
            (*final(self), grab_cursor) == old(self).spec_menu(play, settings, exit),
    {
        if play {
            self.game_state = GameState::Play;
            self.playing = true;
            self.mouse_locked = true;
        }
        if settings {
            self.game_state = GameState::Settings;
        }
        if exit {
            self.game_state = GameState::Exit;
        }
        play
    }

    /// Takes a click on the checkbox of a frame-rate tier.
    pub fn select_fps(&mut self, tier: FpsTier)
        ensures
            *final(self) == old(self).spec_select_fps(tier),
    {
        self.fps_state = self.fps_state.toggled(tier);
        self.target_fps = tier.frames_per_second();
    }

    /// Takes whether the back button of the settings screen was clicked.
    pub fn on_settings_back(&mut self, back: bool)
        ensures
            *final(self) == old(self).spec_settings_back(back),
    {
        if back {
            self.game_state = GameState::Menu;
        }
    }

    /// Records that the background loader delivered the scene.
    pub fn on_scene_delivered(&mut self)
        ensures
            *final(self) == old(self).spec_scene_delivered(),
    {
        self.game_state = GameState::Menu;
        self.scene_loaded = true;
    }

    /// The work of a frame outside play; see `spec_idle_tick`.
    pub fn idle_tick(&mut self) -> (work: IdleWork)
        ensures
            (*final(self), work) == old(self).spec_idle_tick(),
    {
        let mut load_level = None;
        if self.should_load {
            load_level = Some(self.game_level);
            self.should_load = false;
            self.scene_loaded = false;
        }
        let poll_loader = !self.scene_loaded;
        let refresh = self.should_draw;
        if self.should_draw {
            self.should_draw = false;
        }
        IdleWork { load_level, poll_loader, refresh }
    }
}

/// The direction of one movement axis from its two keys.
pub open spec fn spec_axis(plus: bool, minus: bool) -> i8 {
    if plus && !minus {
        1i8
    } else if minus && !plus {
        -1i8
    } else {
        0i8
    }
}

/// How the player wants to move, from the keys held.
pub open spec fn spec_move_intent(input: InputState) -> MoveIntent {
    MoveIntent {
        forward: spec_axis(input.w, input.s),
        strafe: spec_axis(input.d, input.a),
        lift: spec_axis(input.e, input.q),
        moving: input.w || input.s || input.a || input.d || input.q || input.e,
        speed: if input.shift {
            12
        } else {
            8
        },
    }
}

fn axis(plus: bool, minus: bool) -> (r: i8)
    ensures
        r == spec_axis(plus, minus),
{
    if plus && !minus {
        1
    } else if minus && !plus {
        -1
    } else {
        0
    }
}

/// How the player wants to move this frame, from the keys held.
pub fn move_intent(input: &InputState) -> (m: MoveIntent)
    ensures
        m == spec_move_intent(*input),
{
    MoveIntent {
        forward: axis(input.w, input.s),
        strafe: axis(input.d, input.a),
        lift: axis(input.e, input.q),
        moving: input.w || input.s || input.a || input.d || input.q || input.e,
        speed: if input.shift {
            12
        } else {
            8
        },
    }
}

/// What happens to the footstep sound: it starts when the player moves and it
/// is not playing, and fades out when the player stands still.
pub fn footsteps(sound_playing: bool, moving: bool) -> (a: FootstepAction)
    ensures
        a == (if !sound_playing && moving {
            FootstepAction::Start
        } else if !moving {
            FootstepAction::FadeOut
        } else {
            FootstepAction::Keep
        }),
{
    if !sound_playing && moving {
        FootstepAction::Start
    } else if !moving {
        FootstepAction::FadeOut
    } else {
        FootstepAction::Keep
    }
}

/// How the camera is updated from whether the player moved and whether the
/// view turned since the last frame; both flags are cleared by the update.
pub fn camera_step(moving: bool, rotating: bool) -> (step: CameraStep)
    ensures
        step == (if !moving && !rotating {
            CameraStep::Still
        } else if rotating && !moving {
            CameraStep::Turn
        } else {
            CameraStep::Walk
        }),
{
    if moving || rotating {
        if rotating && !moving {
            CameraStep::Turn
        } else {
            CameraStep::Walk
        }
    } else {
        CameraStep::Still
    }
}

/// Every window event keeps the session's invariant.
pub proof fn lemma_window_event_keeps_inv(
    s: Session,
    event: WindowInput,
    egui_consumed: bool,
    menu_sound_playing: bool,
)
    requires
        s.inv(),
    ensures
        s.spec_window_event(event, egui_consumed, menu_sound_playing).0.inv(),
{
}

/// Device events keep the session's invariant.
pub proof fn lemma_device_event_keeps_inv(s: Session, mouse_motion: bool)
    requires
        s.inv(),
    ensures
        s.spec_device_event(mouse_motion).0.inv(),
{
}

/// A click on one button of the main menu keeps the session's invariant.
pub proof fn lemma_menu_keeps_inv(s: Session, play: bool, settings: bool, exit: bool)
    requires
        s.inv(),
        s.game_state == GameState::Menu,
        !(play && settings),
        !(play && exit),
    ensures
        s.spec_menu(play, settings, exit).0.inv(),
{
}

/// The settings screen, its back button and the delivery of the scene keep
/// the session's invariant, as does a frame outside play.
pub proof fn lemma_screens_keep_inv(s: Session, tier: FpsTier, back: bool)
    requires
        s.inv(),
        s.game_state != GameState::Play,
    ensures
        s.spec_select_fps(tier).inv(),
        s.spec_settings_back(back).inv(),
        s.spec_scene_delivered().inv(),
        s.spec_idle_tick().0.inv(),
{
}

/// Escape pressed during play returns to the menu, gives the cursor back and
/// releases every key.
pub proof fn lemma_escape_leaves_play(s: Session, egui_consumed: bool, menu_sound_playing: bool)
    requires
        s.inv(),
        s.game_state == GameState::Play,
    ensures
        ({
            let (t, r) = s.spec_window_event(
                WindowInput::KeyInput { key: Key::Escape, pressed: true },
                egui_consumed,
                menu_sound_playing,
            );
            &&& t.game_state == GameState::Menu
            &&& !t.playing
            &&& !t.mouse_locked
            &&& t.input == InputState::released()
            &&& r.release_cursor
        }),
{
}

/// Outside play, keys change nothing that is held.
pub proof fn lemma_keys_ignored_outside_play(
    s: Session,
    key: Key,
    pressed: bool,
    egui_consumed: bool,
    menu_sound_playing: bool,
)
    requires
        s.inv(),
        s.game_state != GameState::Play,
    ensures
        s.spec_window_event(WindowInput::KeyInput { key, pressed }, egui_consumed, menu_sound_playing).0.input
            == InputState::released(),
{
}

/// Loading starts once: after a frame that started it, the next frame does
/// not start it again.
pub proof fn lemma_load_starts_once(s: Session)
    ensures
        s.spec_idle_tick().0.spec_idle_tick().1.load_level is None,
{
}

/// A redraw request renders a frame of the current screen (play, menu,
/// settings or loading) whenever the user interface did not take it, whether
/// or not a frame was asked for since the last one; it changes no screen,
/// asks nothing else of the window but maybe the menu sound, and in play
/// keeps drawing asked for.
pub proof fn lemma_redraw_renders(s: Session, egui_consumed: bool, menu_sound_playing: bool)
    ensures
        ({
            let (t, r) = s.spec_window_event(
                WindowInput::RedrawRequested,
                egui_consumed,
                menu_sound_playing,
            );
            &&& !(s.game_state != GameState::Play && egui_consumed) ==> r.redraw
            &&& t.game_state == s.game_state
            &&& t.input == s.input
            &&& t.should_draw == (s.should_draw || s.game_state == GameState::Play)
            &&& !r.exit && !r.release_cursor && !r.reconfigure_surface && !r.stop_footsteps
        }),
{
}

} // verus!
