//! Capturing the input of the server's own machine.
//!
//! While capture is enabled, events are swallowed and passed on. While it is disabled, they go
//! through to the local machine.

use crate::config::HotkeyConfig;
use crate::protocol::{KeyCode, Modifiers, MouseButton};
use crate::text::{cat, owned};
use vstd::prelude::*;

verus! {

/// What was captured.
#[allow(inconsistent_fields)]
#[derive(Debug, Clone, Copy, PartialEq, Eq, Structural)]
pub enum CaptureEvent {
    /// The cursor is at (`x`, `y`), and came there by (`dx`, `dy`).
    MouseMove { x: i32, y: i32, dx: i32, dy: i32 },
    MouseButton { button: MouseButton, pressed: bool },
    MouseWheel { dx: i16, dy: i16 },
    Key { key: KeyCode, pressed: bool, modifiers: Modifiers },
}

/// Why input cannot be captured.
#[derive(Debug, PartialEq, Eq)]
pub enum CaptureError {
    /// Capture could not be started, for this reason.
    Init(String),
    PermissionDenied,
}

impl CaptureError {
    pub open spec fn words(self) -> Seq<char> {
        match self {
            CaptureError::Init(why) => "init: "@ + why@,
            CaptureError::PermissionDenied =>
                "permission denied — accessibility/uinput access required"@,
        }
    }

    /// The error in words.
    pub fn text(&self) -> (r: String)
        ensures
            r@ == self.words(),
    {
        match self {
            CaptureError::Init(why) => cat("init: ", why.as_str()),
            CaptureError::PermissionDenied => owned(
                "permission denied — accessibility/uinput access required",
            ),
        }
    }
}

/// Whether input is captured.
#[derive(Debug, Clone, Copy, PartialEq, Eq, Structural)]
pub struct InputCapturer {
    pub active: bool,
}

impl InputCapturer {
    /// Capture is off.
    pub fn new() -> (r: Self)
        ensures
            !r.active,
    {
        InputCapturer { active: false }
    }

    pub fn enable(&mut self)
        ensures
            final(self).active,
    {
        self.active = true;
    }

    pub fn disable(&mut self)
        ensures
            !final(self).active,
    {
        self.active = false;
    }

    pub fn is_enabled(&self) -> (r: bool)
        ensures
            r == self.active,
    {
        self.active
    }
}

#[derive(Debug, Clone, Copy, PartialEq, Eq, Structural)]
pub enum ModifierKey {
    Shift,
    Ctrl,
    Alt,
    Meta,
}

/// An event as the operating system reports it.
#[derive(Debug, Clone, Copy, PartialEq, Eq)]
pub enum RawEvent {
    /// The cursor is at (`x`, `y`). The way that it made is known from the second event on.
    Motion { x: i32, y: i32, delta: Option<(i32, i32)> },
    /// A button, if it is one of those that are known.
    Button { button: Option<MouseButton>, pressed: bool },
    Wheel { delta_x: i64, delta_y: i64 },
    /// A key: the modifier that it is, if it is one, and its HID usage, if it has one.
    Key { modifier: Option<ModifierKey>, hid: Option<u16>, pressed: bool },
}

/// A turn of the wheel, in 16 bits.
pub open spec fn clamped(d: i64) -> i16 {
    if d < i16::MIN {
        i16::MIN
    } else if d > i16::MAX {
        i16::MAX
    } else {
        d as i16
    }
}

fn clamp_wheel(d: i64) -> (r: i16)
    ensures
        r == clamped(d),
{
    if d < -0x8000 {
        -0x8000
    } else if d > 0x7fff {
        0x7fff
    } else {
        d as i16
    }
}

/// The modifiers after one of them was pressed or released.
pub open spec fn with_modifier(m: Modifiers, key: ModifierKey, pressed: bool) -> Modifiers {
    match key {
        ModifierKey::Shift => Modifiers { shift: pressed, ..m },
        ModifierKey::Ctrl => Modifiers { ctrl: pressed, ..m },
        ModifierKey::Alt => Modifiers { alt: pressed, ..m },
        ModifierKey::Meta => Modifiers { meta: pressed, ..m },
    }
}

/// The modifiers that are held after an event.
pub open spec fn modifiers_after(m: Modifiers, ev: RawEvent) -> Modifiers {
    match ev {
        RawEvent::Key { modifier: Some(key), pressed, .. } => with_modifier(m, key, pressed),
        _ => m,
    }
}

/// What an event amounts to, if it amounts to anything.
pub open spec fn meaning(m: Modifiers, ev: RawEvent) -> Option<CaptureEvent> {
    match ev {
        RawEvent::Motion { x, y, delta: Some((dx, dy)) } => if dx != 0 || dy != 0 {
            Some(CaptureEvent::MouseMove { x, y, dx, dy })
        } else {
            None
        },
        RawEvent::Motion { delta: None, .. } => None,
        RawEvent::Button { button: Some(button), pressed } => Some(
            CaptureEvent::MouseButton { button, pressed },
        ),
        RawEvent::Button { button: None, .. } => None,
        RawEvent::Wheel { delta_x, delta_y } => Some(
            CaptureEvent::MouseWheel { dx: clamped(delta_x), dy: clamped(delta_y) },
        ),
        RawEvent::Key { hid: Some(hid), pressed, .. } => Some(
            CaptureEvent::Key {
                key: KeyCode(hid),
                pressed,
                modifiers: modifiers_after(m, ev),
            },
        ),
        RawEvent::Key { hid: None, .. } => None,
    }
}

/// Whether a key is one of the two that move the focus, pressed with the modifiers that it needs:
/// forward, backward, or neither.
pub open spec fn hotkey_direction(hk: HotkeyConfig, ev: CaptureEvent) -> Option<i32> {
    match ev {
        CaptureEvent::Key { key, pressed, modifiers } => {
            if !pressed || (hk.require_ctrl && !modifiers.ctrl) || (hk.require_alt
                && !modifiers.alt) || (hk.require_meta && !modifiers.meta) {
                None
            } else if key.0 == hk.cycle_forward_key {
                Some(1i32)
            } else if key.0 == hk.cycle_backward_key {
                Some(-1i32)
            } else {
                None
            }
        },
        _ => None,
    }
}

/// Whether an event is one of the hotkeys, and which way it moves the focus.
pub fn hotkey(hk: &HotkeyConfig, ev: &CaptureEvent) -> (r: Option<i32>)
    ensures
        r == hotkey_direction(*hk, *ev),
{
    if let CaptureEvent::Key { key, pressed, modifiers } = *ev {
        if pressed && (!hk.require_ctrl || modifiers.ctrl) && (!hk.require_alt || modifiers.alt)
            && (!hk.require_meta || modifiers.meta) {
            if key.0 == hk.cycle_forward_key {
                return Some(1);
            }
            if key.0 == hk.cycle_backward_key {
                return Some(-1);
            }
        }
    }
    None
}

/// What the capture remembers from one event to the next: the modifiers that are held.
#[derive(Debug, Clone, Copy, PartialEq, Eq, Structural)]
pub struct GrabState {
    pub mods: Modifiers,
}

/// What comes of an event.
#[derive(Debug, Clone, Copy, PartialEq, Eq, Structural)]
pub struct Grabbed {
    /// What is passed on.
    pub event: Option<CaptureEvent>,
    /// Whether the event is kept from the local machine.
    pub swallow: bool,
}

impl GrabState {
    /// No modifier is held.
    pub fn new() -> (r: Self)
        ensures
            r.mods == (Modifiers { shift: false, ctrl: false, alt: false, meta: false }),
    {
        GrabState { mods: Modifiers { shift: false, ctrl: false, alt: false, meta: false } }
    }

    /// Takes an event in: the modifiers are followed, and the event is read.
    fn read(&mut self, ev: RawEvent) -> (r: Option<CaptureEvent>)
        ensures
            final(self).mods == modifiers_after(old(self).mods, ev),
            r == meaning(old(self).mods, ev),
    {
        match ev {
            RawEvent::Motion { x, y, delta } => match delta {
                Some((dx, dy)) => if dx != 0 || dy != 0 {
                    Some(CaptureEvent::MouseMove { x, y, dx, dy })
                } else {
                    None
                },
                None => None,
            },
            RawEvent::Button { button, pressed } => match button {
                Some(button) => Some(CaptureEvent::MouseButton { button, pressed }),
                None => None,
            },
            RawEvent::Wheel { delta_x, delta_y } => Some(
                CaptureEvent::MouseWheel { dx: clamp_wheel(delta_x), dy: clamp_wheel(delta_y) },
            ),
            RawEvent::Key { modifier, hid, pressed } => {
                match modifier {
                    Some(ModifierKey::Shift) => {
                        self.mods.shift = pressed;
                    },
                    Some(ModifierKey::Ctrl) => {
                        self.mods.ctrl = pressed;
                    },
                    Some(ModifierKey::Alt) => {
                        self.mods.alt = pressed;
                    },
                    Some(ModifierKey::Meta) => {
                        self.mods.meta = pressed;
                    },
                    None => {},
                }
                match hid {
                    Some(hid) => Some(
                        CaptureEvent::Key { key: KeyCode(hid), pressed, modifiers: self.mods },
                    ),
                    None => None,
                }
            },
        }
    }

    /// One event. While capture is on, it is swallowed and passed on; while it is off, it goes
    /// through and nothing is passed on. The modifiers are followed in both cases.
    pub fn grab(&mut self, ev: RawEvent, active: bool) -> (r: Grabbed)
        ensures
            final(self).mods == modifiers_after(old(self).mods, ev),
            r == (if active {
                Grabbed { event: meaning(old(self).mods, ev), swallow: true }
            } else {
                Grabbed { event: None, swallow: false }
            }),
    {
        let event = self.read(ev);
        if active {
            Grabbed { event, swallow: true }
        } else {
            Grabbed { event: None, swallow: false }
        }
    }

    /// One event, for a server that has to notice hotkeys and the cursor at an edge while the
    /// focus is local: also while capture is off, a hotkey is swallowed and passed on, and a
    /// motion is passed on besides going through.
    pub fn watch(&mut self, ev: RawEvent, active: bool, hk: &HotkeyConfig) -> (r: Grabbed)
        ensures
            final(self).mods == modifiers_after(old(self).mods, ev),
            r == match meaning(old(self).mods, ev) {
                None => Grabbed { event: None, swallow: active },
                Some(e) => if active || hotkey_direction(*hk, e) is Some {
                    Grabbed { event: Some(e), swallow: true }
                } else if e is MouseMove {
                    Grabbed { event: Some(e), swallow: false }
                } else {
                    Grabbed { event: None, swallow: false }
                },
            },
    {
        let event = self.read(ev);
        if active {
            return Grabbed { event, swallow: true };
        }
        match event {
            None => Grabbed { event: None, swallow: false },
            Some(e) => {
                if hotkey(hk, &e).is_some() {
                    return Grabbed { event, swallow: true };
                }
                match e {
                    CaptureEvent::MouseMove { .. } => Grabbed { event, swallow: false },
                    _ => Grabbed { event: None, swallow: false },
                }
            },
        }
    }
}

/// The corners of the server's screens together. The right and lower bounds are outside.
#[derive(Debug, Clone, Copy, PartialEq, Eq, Structural)]
pub struct VirtualBounds {
    pub min_x: i32,
    pub min_y: i32,
    pub max_x: i32,
    pub max_y: i32,
}

/// A key moves the focus exactly if it is one of the two configured keys, is pressed and not
/// released, and every modifier that the configuration asks for is held; whether others are held
/// too does not matter. The forward key moves it forward, and the backward key backward.
pub proof fn hotkeys_need_all_their_modifiers(
    hk: HotkeyConfig,
    ev: CaptureEvent,
    key: KeyCode,
    mods: Modifiers,
)
    ensures
        hotkey_direction(hk, ev) is Some ==> {
            &&& ev matches CaptureEvent::Key { key: k, pressed, modifiers: m }
            &&& pressed
            &&& k.0 == hk.cycle_forward_key || k.0 == hk.cycle_backward_key
            &&& hk.require_ctrl ==> m.ctrl
            &&& hk.require_alt ==> m.alt
            &&& hk.require_meta ==> m.meta
        },
        ({
            let held = (hk.require_ctrl ==> mods.ctrl) && (hk.require_alt ==> mods.alt) && (
            hk.require_meta ==> mods.meta);
            let down = CaptureEvent::Key { key, pressed: true, modifiers: mods };
            let up = CaptureEvent::Key { key, pressed: false, modifiers: mods };
            &&& held && key.0 == hk.cycle_forward_key ==> hotkey_direction(hk, down) == Some(1i32)
            &&& held && key.0 == hk.cycle_backward_key && key.0 != hk.cycle_forward_key
                ==> hotkey_direction(hk, down) == Some(-1i32)
            &&& !held ==> hotkey_direction(hk, down) is None
            &&& hotkey_direction(hk, up) is None
        }),
{
}

/// Holding more modifiers never keeps a hotkey from working, and asking for more never makes one
/// work.
pub proof fn more_modifiers_do_no_harm(
    hk: HotkeyConfig,
    strict: HotkeyConfig,
    key: KeyCode,
    few: Modifiers,
    many: Modifiers,
)
    requires
        few.shift ==> many.shift,
        few.ctrl ==> many.ctrl,
        few.alt ==> many.alt,
        few.meta ==> many.meta,
        hk.require_ctrl ==> strict.require_ctrl,
        hk.require_alt ==> strict.require_alt,
        hk.require_meta ==> strict.require_meta,
        hk.cycle_forward_key == strict.cycle_forward_key,
        hk.cycle_backward_key == strict.cycle_backward_key,
    ensures
        hotkey_direction(
            strict,
            CaptureEvent::Key { key, pressed: true, modifiers: few },
        ) matches Some(d) ==> hotkey_direction(
            hk,
            CaptureEvent::Key { key, pressed: true, modifiers: many },
        ) == Some(d),
{
}

/// Whether a modifier is held.
pub open spec fn is_held(m: Modifiers, key: ModifierKey) -> bool {
    match key {
        ModifierKey::Shift => m.shift,
        ModifierKey::Ctrl => m.ctrl,
        ModifierKey::Alt => m.alt,
        ModifierKey::Meta => m.meta,
    }
}

/// The modifiers after several events, in order.
pub open spec fn modifiers_after_all(m: Modifiers, evs: Seq<RawEvent>) -> Modifiers
    decreases evs.len(),
{
    if evs.len() == 0 {
        m
    } else {
        modifiers_after(modifiers_after_all(m, evs.drop_last()), evs.last())
    }
}

/// Whether the last of several events that was about a modifier was a press; what it was before,
/// where none was about it.
pub open spec fn last_pressed(was: bool, evs: Seq<RawEvent>, key: ModifierKey) -> bool
    decreases evs.len(),
{
    if evs.len() == 0 {
        was
    } else {
        match evs.last() {
            RawEvent::Key { modifier, pressed, .. } => if modifier == Some(key) {
                pressed
            } else {
                last_pressed(was, evs.drop_last(), key)
            },
            _ => last_pressed(was, evs.drop_last(), key),
        }
    }
}

/// Whatever the keyboard and the mouse do, a modifier is held exactly if the last event about it
/// was a press.
pub proof fn modifiers_follow_the_keyboard(m: Modifiers, evs: Seq<RawEvent>, key: ModifierKey)
    ensures
        is_held(modifiers_after_all(m, evs), key) == last_pressed(is_held(m, key), evs, key),
    decreases evs.len(),
{
    if evs.len() > 0 {
        modifiers_follow_the_keyboard(m, evs.drop_last(), key);
    }
}

/// What is captured is what happened. A button or a key that is known is passed on, pressed or
/// released as it was, and one that is not known is dropped; a key comes with the modifiers that
/// are held with it. A motion is passed on if the cursor moved.
pub proof fn captured_is_what_happened(m: Modifiers, ev: RawEvent)
    ensures
        match ev {
            RawEvent::Button { button, pressed } => {
                &&& meaning(m, ev) is Some <==> button is Some
                &&& meaning(m, ev) matches Some(e) ==> e == (CaptureEvent::MouseButton {
                    button: button->Some_0,
                    pressed,
                })
            },
            RawEvent::Key { hid, pressed, .. } => {
                &&& meaning(m, ev) is Some <==> hid is Some
                &&& meaning(m, ev) matches Some(e) ==> e is Key && Some(e->key.0) == hid
                    && e->Key_pressed == pressed && forall|k: ModifierKey| #[trigger]
                    is_held(e->modifiers, k) == last_pressed(is_held(m, k), seq![ev], k)
            },
            RawEvent::Motion { x, y, delta } => {
                &&& meaning(m, ev) is Some <==> delta is Some && delta->Some_0 != (0i32, 0i32)
                &&& meaning(m, ev) matches Some(e) ==> e == (CaptureEvent::MouseMove {
                    x,
                    y,
                    dx: delta->Some_0.0,
                    dy: delta->Some_0.1,
                })
            },
            RawEvent::Wheel { .. } => meaning(m, ev) is Some && meaning(m, ev)->Some_0 is MouseWheel,
        },
{
    if let RawEvent::Key { .. } = ev {
        assert(seq![ev].drop_last() =~= Seq::empty());
        assert(modifiers_after_all(m, seq![ev].drop_last()) == m);
        assert(modifiers_after_all(m, seq![ev]) == modifiers_after(m, ev));
        assert forall|k: ModifierKey| #[trigger] is_held(modifiers_after(m, ev), k) == last_pressed(
            is_held(m, k),
            seq![ev],
            k,
        ) by {
            modifiers_follow_the_keyboard(m, seq![ev], k);
        }
    }
}

/// A turn of the wheel is passed on as it is where 16 bits hold it, and otherwise as far as they
/// do, in the same direction and along the same axis.
pub proof fn wheel_turns_as_far_as_it_can(m: Modifiers, delta_x: i64, delta_y: i64)
    ensures
        meaning(m, RawEvent::Wheel { delta_x, delta_y }) matches Some(
            CaptureEvent::MouseWheel { dx, dy },
        ) && {
            &&& i16::MIN <= delta_x <= i16::MAX ==> dx == delta_x
            &&& i16::MIN <= delta_y <= i16::MAX ==> dy == delta_y
            &&& delta_x > i16::MAX ==> dx == i16::MAX
            &&& delta_x < i16::MIN ==> dx == i16::MIN
            &&& delta_y > i16::MAX ==> dy == i16::MAX
            &&& delta_y < i16::MIN ==> dy == i16::MIN
        },
{
}

} // verus!
