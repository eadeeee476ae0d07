//! Carrying out on a client what was captured on the server.
//!
//! A command is turned into the actions that carry it out. The program performs them in order, as
//! far as it can, and reports back how many it performed.

use crate::keymap::{hid_to_enigo, key_for, Key};
use crate::protocol::{KeyCode, Modifiers, MouseButton};
use vstd::prelude::*;

verus! {

#[derive(Debug, PartialEq, Eq)]
pub enum InjectError {
    /// There is nothing to inject with.
    Init(String),
    /// An action failed.
    Inject(String),
}

/// What a client is asked to do.
#[derive(Debug, Clone, Copy, PartialEq, Eq, Structural)]
pub enum InjectCmd {
    MoveRel(i32, i32),
    MoveAbs(i32, i32),
    Button(MouseButton, bool),
    Wheel(i16, i16),
    Key { key: KeyCode, pressed: bool, modifiers: Modifiers },
    /// Release every modifier that is taken to be held, so that none stays down when the focus or
    /// the session is lost.
    ReleaseAllModifiers,
}

#[derive(Debug, Clone, Copy, PartialEq, Eq, Structural)]
pub enum PointerButton {
    Left,
    Right,
    Middle,
}

/// One thing to do on the client's machine.
#[derive(Debug, Clone, Copy, PartialEq, Eq, Structural)]
pub enum Action {
    MoveRel(i32, i32),
    MoveAbs(i32, i32),
    Button { button: PointerButton, press: bool },
    ScrollHorizontal(i32),
    ScrollVertical(i32),
    Key { key: Key, press: bool },
}

/// No modifier.
pub open spec fn no_modifiers() -> Modifiers {
    Modifiers { shift: false, ctrl: false, alt: false, meta: false }
}

/// What takes one modifier from one state to another.
pub open spec fn sync_one(key: Key, was: bool, now: bool) -> Seq<Action> {
    if was == now {
        Seq::empty()
    } else {
        seq![Action::Key { key, press: now }]
    }
}

/// What takes the modifiers from one state to another.
pub open spec fn sync_actions(held: Modifiers, target: Modifiers) -> Seq<Action> {
    sync_one(Key::Shift, held.shift, target.shift) + sync_one(Key::Control, held.ctrl, target.ctrl)
        + sync_one(Key::Alt, held.alt, target.alt) + sync_one(Key::Meta, held.meta, target.meta)
}

/// What presses or releases a button. Those that not every machine has are passed over.
pub open spec fn button_actions(button: MouseButton, press: bool) -> Seq<Action> {
    match button {
        MouseButton::Left => seq![Action::Button { button: PointerButton::Left, press }],
        MouseButton::Right => seq![Action::Button { button: PointerButton::Right, press }],
        MouseButton::Middle => seq![Action::Button { button: PointerButton::Middle, press }],
        MouseButton::Back => Seq::empty(),
        MouseButton::Forward => Seq::empty(),
    }
}

/// What turns the wheel.
pub open spec fn wheel_actions(dx: i16, dy: i16) -> Seq<Action> {
    (if dx != 0 {
        seq![Action::ScrollHorizontal(dx as i32)]
    } else {
        Seq::empty()
    }) + (if dy != 0 {
        seq![Action::ScrollVertical(dy as i32)]
    } else {
        Seq::empty()
    })
}

/// What presses or releases a key, once the modifiers are right.
pub open spec fn key_actions(key: KeyCode, press: bool, shift: bool) -> Seq<Action> {
    match key_for(key.0, shift) {
        Some(k) => seq![Action::Key { key: k, press }],
        None => Seq::empty(),
    }
}

/// What carries out a command while some modifiers are held.
pub open spec fn actions(held: Modifiers, cmd: InjectCmd) -> Seq<Action> {
    match cmd {
        InjectCmd::MoveRel(dx, dy) => seq![Action::MoveRel(dx, dy)],
        InjectCmd::MoveAbs(x, y) => seq![Action::MoveAbs(x, y)],
        InjectCmd::Button(button, pressed) => button_actions(button, pressed),
        InjectCmd::Wheel(dx, dy) => wheel_actions(dx, dy),
        InjectCmd::Key { key, pressed, modifiers } => sync_actions(held, modifiers) + key_actions(
            key,
            pressed,
            modifiers.shift,
        ),
        InjectCmd::ReleaseAllModifiers => sync_actions(held, no_modifiers()),
    }
}

/// The modifiers that a command wants to be held, where it wants any.
pub open spec fn wanted(cmd: InjectCmd) -> Option<Modifiers> {
    match cmd {
        InjectCmd::Key { modifiers, .. } => Some(modifiers),
        InjectCmd::ReleaseAllModifiers => Some(no_modifiers()),
        _ => None,
    }
}

/// The modifiers that are held after so many actions of a command were performed: those that it
/// wants, once all changes of modifiers have gone through.
pub open spec fn held_after(held: Modifiers, cmd: InjectCmd, performed: nat) -> Modifiers {
    match wanted(cmd) {
        Some(m) => if performed >= sync_actions(held, m).len() {
            m
        } else {
            held
        },
        None => held,
    }
}

/// Something that can turn commands into actions.
pub trait InputInjector {
    /// The modifiers that are taken to be held.
    spec fn held(&self) -> Modifiers;

    fn mouse_move_relative(&self, dx: i32, dy: i32) -> (r: Vec<Action>)
        ensures
            r@ == seq![Action::MoveRel(dx, dy)],
    ;

    fn mouse_move_absolute(&self, x: i32, y: i32) -> (r: Vec<Action>)
        ensures
            r@ == seq![Action::MoveAbs(x, y)],
    ;

    fn mouse_button(&self, button: MouseButton, pressed: bool) -> (r: Vec<Action>)
        ensures
            r@ == button_actions(button, pressed),
    ;

    fn mouse_wheel(&self, dx: i16, dy: i16) -> (r: Vec<Action>)
        ensures
            r@ == wheel_actions(dx, dy),
    ;

    fn key(&self, key: KeyCode, pressed: bool, modifiers: Modifiers) -> (r: Vec<Action>)
        ensures
            r@ == sync_actions(self.held(), modifiers) + key_actions(
                key,
                pressed,
                modifiers.shift,
            ),
    ;

    fn release_all_modifiers(&self) -> (r: Vec<Action>)
        ensures
            r@ == sync_actions(self.held(), no_modifiers()),
    ;
}

/// Knows which modifiers are held, so that they are only pressed and released where they change.
#[derive(Debug, Clone, Copy, PartialEq, Eq, Structural)]
pub struct PlatformInjector {
    held: Modifiers,
}

/// Appends what takes one modifier from one state to another.
fn push_sync(v: &mut Vec<Action>, key: Key, was: bool, now: bool)
    ensures
        final(v)@ == old(v)@ + sync_one(key, was, now),
{
    if was != now {
        v.push(Action::Key { key, press: now });
    }
    assert(v@ =~= old(v)@ + sync_one(key, was, now));
}

impl PlatformInjector {
    /// No modifier is held.
    pub fn new() -> (r: Self)
        ensures
            r.held() == no_modifiers(),
    {
        PlatformInjector {
            held: Modifiers { shift: false, ctrl: false, alt: false, meta: false },
        }
    }

    /// What takes the modifiers to `target`.
    fn sync_modifiers(&self, target: Modifiers) -> (r: Vec<Action>)
        ensures
            r@ == sync_actions(self.held(), target),
    {
        let mut v: Vec<Action> = Vec::new();
        push_sync(&mut v, Key::Shift, self.held.shift, target.shift);
        push_sync(&mut v, Key::Control, self.held.ctrl, target.ctrl);
        push_sync(&mut v, Key::Alt, self.held.alt, target.alt);
        push_sync(&mut v, Key::Meta, self.held.meta, target.meta);
        assert(v@ =~= sync_actions(self.held(), target));
        v
    }

    /// The actions that carry out a command.
    pub fn plan(&self, cmd: &InjectCmd) -> (r: Vec<Action>)
        ensures
            r@ == actions(self.held(), *cmd),
    {
        match *cmd {
            InjectCmd::MoveRel(dx, dy) => self.mouse_move_relative(dx, dy),
            InjectCmd::MoveAbs(x, y) => self.mouse_move_absolute(x, y),
            InjectCmd::Button(b, p) => self.mouse_button(b, p),
            InjectCmd::Wheel(dx, dy) => self.mouse_wheel(dx, dy),
            InjectCmd::Key { key, pressed, modifiers } => self.key(key, pressed, modifiers),
            InjectCmd::ReleaseAllModifiers => self.release_all_modifiers(),
        }
    }

    /// So many of the actions that carry out a command were performed before one failed, or all.
    pub fn settle(&mut self, cmd: &InjectCmd, performed: usize)
        ensures
            final(self).held() == held_after(old(self).held(), *cmd, performed as nat),
    {
        let target = match *cmd {
            InjectCmd::Key { modifiers, .. } => modifiers,
            InjectCmd::ReleaseAllModifiers => Modifiers {
                shift: false,
                ctrl: false,
                alt: false,
                meta: false,
            },
            _ => {
                return ;
            },
        };
        if performed >= self.sync_modifiers(target).len() {
            self.held = target;
        }
    }
}

impl InputInjector for PlatformInjector {
    closed spec fn held(&self) -> Modifiers {
        self.held
    }

    fn mouse_move_relative(&self, dx: i32, dy: i32) -> (r: Vec<Action>) {
        let mut v: Vec<Action> = Vec::new();
        v.push(Action::MoveRel(dx, dy));
        assert(v@ =~= seq![Action::MoveRel(dx, dy)]);
        v
    }

    fn mouse_move_absolute(&self, x: i32, y: i32) -> (r: Vec<Action>) {
        let mut v: Vec<Action> = Vec::new();
        v.push(Action::MoveAbs(x, y));
        assert(v@ =~= seq![Action::MoveAbs(x, y)]);
        v
    }

    fn mouse_button(&self, button: MouseButton, pressed: bool) -> (r: Vec<Action>) {
        let mut v: Vec<Action> = Vec::new();
        match button {
            MouseButton::Left => {
                v.push(Action::Button { button: PointerButton::Left, press: pressed });
            },
            MouseButton::Right => {
                v.push(Action::Button { button: PointerButton::Right, press: pressed });
            },
            MouseButton::Middle => {
                v.push(Action::Button { button: PointerButton::Middle, press: pressed });
            },
            MouseButton::Back => {},
            MouseButton::Forward => {},
        }
        assert(v@ =~= button_actions(button, pressed));
        v
    }

    fn mouse_wheel(&self, dx: i16, dy: i16) -> (r: Vec<Action>) {
        let mut v: Vec<Action> = Vec::new();
        if dx != 0 {
            v.push(Action::ScrollHorizontal(dx as i32));
        }
        if dy != 0 {
            v.push(Action::ScrollVertical(dy as i32));
        }
        assert(v@ =~= wheel_actions(dx, dy));
        v
    }

    fn key(&self, key: KeyCode, pressed: bool, modifiers: Modifiers) -> (r: Vec<Action>) {
        let mut v = self.sync_modifiers(modifiers);
        if let Some(k) = hid_to_enigo(key.0, modifiers.shift) {
            v.push(Action::Key { key: k, press: pressed });
        }
        assert(v@ =~= sync_actions(self.held(), modifiers) + key_actions(
            key,
            pressed,
            modifiers.shift,
        ));
        v
    }

    fn release_all_modifiers(&self) -> (r: Vec<Action>) {
        self.sync_modifiers(Modifiers { shift: false, ctrl: false, alt: false, meta: false })
    }
}

/// An injector, if there is something to inject with; otherwise the reason that was given.
pub fn new_injector(backend: Result<(), String>) -> (r: Result<PlatformInjector, InjectError>)
    ensures
        match (backend, r) {
            (Ok(_), Ok(inj)) => inj.held() == no_modifiers(),
            (Err(why), Err(e)) => e == InjectError::Init(why),
            _ => false,
        },
{
    match backend {
        Ok(_) => Ok(PlatformInjector::new()),
        Err(why) => Err(InjectError::Init(why)),
    }
}

/// Once all actions of a command were performed, the modifiers are those that it wants, and asking
/// for them again changes none.
pub proof fn modifiers_settle(held: Modifiers, cmd: InjectCmd)
    ensures
        ({
            let after = held_after(held, cmd, actions(held, cmd).len());
            &&& wanted(cmd) matches Some(m) ==> after == m && sync_actions(after, m).len() == 0
            &&& wanted(cmd) is None ==> after == held
        }),
{
}

/// After all modifiers were released, none is held, and nothing is pressed on the way.
pub proof fn release_releases_all(held: Modifiers)
    ensures
        held_after(
            held,
            InjectCmd::ReleaseAllModifiers,
            actions(held, InjectCmd::ReleaseAllModifiers).len(),
        ) == no_modifiers(),
        forall|i: int|
            0 <= i < actions(held, InjectCmd::ReleaseAllModifiers).len() ==> (
            #[trigger] actions(held, InjectCmd::ReleaseAllModifiers)[i]) matches Action::Key {
                press: false,
                ..
            },
{
}

/// The left, the right and the middle button are each pressed and released by one action on the
/// pointer's button of the same name. The two others do nothing.
pub proof fn buttons_keep_their_names(held: Modifiers, b: MouseButton, pressed: bool)
    ensures
        ({
            let r = actions(held, InjectCmd::Button(b, pressed));
            let one = |p: PointerButton|
                r.len() == 1 && r[0] == (Action::Button { button: p, press: pressed });
            &&& b == MouseButton::Left ==> one(PointerButton::Left)
            &&& b == MouseButton::Right ==> one(PointerButton::Right)
            &&& b == MouseButton::Middle ==> one(PointerButton::Middle)
            &&& b == MouseButton::Back || b == MouseButton::Forward ==> r.len() == 0
        }),
{
}

/// Different buttons are never carried out as the same one, and a press is never carried out as a
/// release.
pub proof fn buttons_are_told_apart(
    held: Modifiers,
    a: MouseButton,
    b: MouseButton,
    p: bool,
    q: bool,
)
    ensures
        ({
            let ra = actions(held, InjectCmd::Button(a, p));
            let rb = actions(held, InjectCmd::Button(b, q));
            ra.len() > 0 && ra == rb ==> a == b && p == q
        }),
{
    let ra = actions(held, InjectCmd::Button(a, p));
    let rb = actions(held, InjectCmd::Button(b, q));
    if ra.len() > 0 && ra == rb {
        assert(ra[0] == rb[0]);
    }
}

/// The cursor is moved by one action, as far, or to where, the command says.
pub proof fn motions_are_carried_out(held: Modifiers, x: i32, y: i32)
    ensures
        actions(held, InjectCmd::MoveRel(x, y)).len() == 1,
        actions(held, InjectCmd::MoveRel(x, y))[0] == Action::MoveRel(x, y),
        actions(held, InjectCmd::MoveAbs(x, y)).len() == 1,
        actions(held, InjectCmd::MoveAbs(x, y))[0] == Action::MoveAbs(x, y),
{
}

/// How far some actions turn the wheel, sideways and up or down.
pub open spec fn scrolled(acts: Seq<Action>) -> (int, int)
    decreases acts.len(),
{
    if acts.len() == 0 {
        (0, 0)
    } else {
        let (x, y) = scrolled(acts.drop_last());
        match acts.last() {
            Action::ScrollHorizontal(n) => (x + n, y),
            Action::ScrollVertical(n) => (x, y + n),
            _ => (x, y),
        }
    }
}

/// The wheel is turned as far as the command says, along each axis, and nothing else is done; along
/// an axis that it is not turned on, nothing is done.
pub proof fn wheel_turns_are_carried_out(held: Modifiers, dx: i16, dy: i16)
    ensures
        ({
            let r = actions(held, InjectCmd::Wheel(dx, dy));
            &&& scrolled(r) == (dx as int, dy as int)
            &&& r.len() == (if dx != 0 {
                1int
            } else {
                0
            }) + (if dy != 0 {
                1int
            } else {
                0
            })
            &&& forall|i: int|
                0 <= i < r.len() ==> (#[trigger] r[i]) is ScrollHorizontal || r[i] is ScrollVertical
        }),
{
    let r = actions(held, InjectCmd::Wheel(dx, dy));
    reveal_with_fuel(scrolled, 3);
    if r.len() == 2 {
        assert(r.drop_last().drop_last() =~= Seq::empty());
    } else if r.len() == 1 {
        assert(r.drop_last() =~= Seq::empty());
    }
}

/// The modifiers of a machine after an action: those keys are pressed and released there.
pub open spec fn machine_after(m: Modifiers, a: Action) -> Modifiers {
    match a {
        Action::Key { key: Key::Shift, press } => Modifiers { shift: press, ..m },
        Action::Key { key: Key::Control, press } => Modifiers { ctrl: press, ..m },
        Action::Key { key: Key::Alt, press } => Modifiers { alt: press, ..m },
        Action::Key { key: Key::Meta, press } => Modifiers { meta: press, ..m },
        _ => m,
    }
}

/// The modifiers of a machine after several actions.
pub open spec fn machine_after_all(m: Modifiers, acts: Seq<Action>) -> Modifiers
    decreases acts.len(),
{
    if acts.len() == 0 {
        m
    } else {
        machine_after(machine_after_all(m, acts.drop_last()), acts.last())
    }
}

/// Actions are performed one after the other.
proof fn lemma_machine_after(m: Modifiers, a: Seq<Action>, b: Seq<Action>)
    ensures
        machine_after_all(m, a + b) == machine_after_all(machine_after_all(m, a), b),
    decreases b.len(),
{
    if b.len() == 0 {
        assert(a + b =~= a);
    } else {
        assert((a + b).drop_last() =~= a + b.drop_last());
        lemma_machine_after(m, a, b.drop_last());
    }
}

/// One change of a modifier.
proof fn lemma_machine_after_one(m: Modifiers, key: Key, was: bool, now: bool)
    ensures
        machine_after_all(m, sync_one(key, was, now)) == if was == now {
            m
        } else {
            machine_after(m, Action::Key { key, press: now })
        },
{
    reveal_with_fuel(machine_after_all, 2);
    if was != now {
        assert(sync_one(key, was, now).drop_last() =~= Seq::empty());
    }
}

/// What is done to the modifiers takes a machine on which the first ones are held to one on which
/// the others are, and touches only those that differ.
proof fn lemma_sync(held: Modifiers, target: Modifiers)
    ensures
        machine_after_all(held, sync_actions(held, target)) == target,
        forall|i: int|
            0 <= i < sync_actions(held, target).len() ==> (#[trigger] sync_actions(
                held,
                target,
            )[i] matches Action::Key { key, press } && {
                ||| key == Key::Shift && press == target.shift && held.shift != target.shift
                ||| key == Key::Control && press == target.ctrl && held.ctrl != target.ctrl
                ||| key == Key::Alt && press == target.alt && held.alt != target.alt
                ||| key == Key::Meta && press == target.meta && held.meta != target.meta
            }),
{
    let a = sync_one(Key::Shift, held.shift, target.shift);
    let b = sync_one(Key::Control, held.ctrl, target.ctrl);
    let c = sync_one(Key::Alt, held.alt, target.alt);
    let d = sync_one(Key::Meta, held.meta, target.meta);
    lemma_machine_after(held, a + b + c, d);
    lemma_machine_after(held, a + b, c);
    lemma_machine_after(held, a, b);
    let m1 = machine_after_all(held, a);
    let m2 = machine_after_all(m1, b);
    let m3 = machine_after_all(m2, c);
    lemma_machine_after_one(held, Key::Shift, held.shift, target.shift);
    lemma_machine_after_one(m1, Key::Control, held.ctrl, target.ctrl);
    lemma_machine_after_one(m2, Key::Alt, held.alt, target.alt);
    lemma_machine_after_one(m3, Key::Meta, held.meta, target.meta);
}

/// A key is pressed or released, as the command says, with the modifiers that it comes with held on
/// the machine: first the modifiers that differ are pressed or released, and only those, and then
/// comes the key, if there is one for it.
pub proof fn keys_are_carried_out(held: Modifiers, key: KeyCode, pressed: bool, mods: Modifiers)
    ensures
        ({
            let r = actions(held, InjectCmd::Key { key, pressed, modifiers: mods });
            let n = if key_for(key.0, mods.shift) is Some {
                r.len() - 1
            } else {
                r.len() as int
            };
            &&& 0 <= n
            &&& machine_after_all(held, r.take(n)) == mods
            &&& key_for(key.0, mods.shift) matches Some(k) ==> r.last() == (Action::Key {
                key: k,
                press: pressed,
            })
            &&& held == mods ==> n == 0
        }),
{
    let r = actions(held, InjectCmd::Key { key, pressed, modifiers: mods });
    let sync = sync_actions(held, mods);
    lemma_sync(held, mods);
    assert(r.take(sync.len() as int) =~= sync);
}

/// Once all that releases the modifiers has been performed, no modifier is down on the machine that
/// was taken to be held.
pub proof fn nothing_stays_down(held: Modifiers)
    ensures
        machine_after_all(held, actions(held, InjectCmd::ReleaseAllModifiers)) == (Modifiers {
            shift: false,
            ctrl: false,
            alt: false,
            meta: false,
        }),
{
    lemma_sync(held, no_modifiers());
}

/// What is taken to be held is what is held on the machine, once all actions of a command that
/// press no modifier as their own key were performed; and as long as a change of modifiers failed,
/// nothing is taken to have changed.
pub proof fn what_is_held_is_known(held: Modifiers, cmd: InjectCmd, performed: nat)
    ensures
        cmd matches InjectCmd::Key { key, modifiers, .. } && performed == actions(held, cmd).len()
            && (key_for(key.0, modifiers.shift) matches Some(k) ==> !(k is Shift || k is Control || k
            is Alt || k is Meta)) ==> held_after(held, cmd, performed) == machine_after_all(
            held,
            actions(held, cmd),
        ),
        cmd is ReleaseAllModifiers && performed == actions(held, cmd).len() ==> held_after(
            held,
            cmd,
            performed,
        ) == machine_after_all(held, actions(held, cmd)),
        performed == 0 && actions(held, cmd).len() > 0 && !(cmd is Key) ==> held_after(
            held,
            cmd,
            performed,
        ) == held,
        !(cmd is Key) && !(cmd is ReleaseAllModifiers) ==> held_after(held, cmd, performed) == held,
{
    if let InjectCmd::Key { key, pressed, modifiers } = cmd {
        lemma_sync(held, modifiers);
        let sync = sync_actions(held, modifiers);
        let last = key_actions(key, pressed, modifiers.shift);
        lemma_machine_after(held, sync, last);
        reveal_with_fuel(machine_after_all, 2);
        if last.len() == 1 {
            assert(last.drop_last() =~= Seq::empty());
        }
    }
    if cmd is ReleaseAllModifiers {
        lemma_sync(held, no_modifiers());
    }
}

} // verus!
