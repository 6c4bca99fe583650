//! What the buttons mean.
//!
//! The controls are kept as the buttons they are bound to. A button that is
//! pressed or let go is held against the bindings, in a fixed order, and the
//! first binding that it meets decides what is to be done. What a button is
//! is up to whoever reads the devices: all that is asked of buttons is that
//! they can be told apart.

use vstd::prelude::*;
use vstd::std_specs::cmp::PartialEqSpec;
use crate::game::grenade_builder::{ArsenalUpdate, Level};
use crate::units::{Position, Vec2};

verus! {

#[derive(Clone, Copy, Debug, PartialEq, Eq, Structural)]
pub enum Dir {
    Up,
    Down,
    Left,
    Right,
}

/// One value for each of the four directions.
#[derive(Clone, Copy, Debug)]
pub struct DirPad<T> {
    pub up: T,
    pub down: T,
    pub left: T,
    pub right: T,
}

impl<T> DirPad<T> {
    /// The value for a direction, as a value.
    pub open spec fn at(self, index: Dir) -> T {
        match index {
            Dir::Up => self.up,
            Dir::Down => self.down,
            Dir::Left => self.left,
            Dir::Right => self.right,
        }
    }

    /// The pad with `value` for the direction `index`.
    pub open spec fn with(self, index: Dir, value: T) -> DirPad<T> {
        match index {
            Dir::Up => DirPad { up: value, ..self },
            Dir::Down => DirPad { down: value, ..self },
            Dir::Left => DirPad { left: value, ..self },
            Dir::Right => DirPad { right: value, ..self },
        }
    }

    /// The value for a direction.
    pub fn index(&self, index: Dir) -> (value: &T)
        ensures
            *value == self.at(index),
    {
        match index {
            Dir::Up => &self.up,
            Dir::Down => &self.down,
            Dir::Left => &self.left,
            Dir::Right => &self.right,
        }
    }

    /// The value for a direction, to be changed in place.
    pub fn index_mut(&mut self, index: Dir) -> (value: &mut T)
        ensures
            *value == old(self).at(index),
            *final(self) == old(self).with(index, *final(value)),
    {
        match index {
            Dir::Up => &mut self.up,
            Dir::Down => &mut self.down,
            Dir::Left => &mut self.left,
            Dir::Right => &mut self.right,
        }
    }
}

impl<T> DirPad<T> where T: PartialEq {
    /// The first direction, in the order up, down, left, right, whose value
    /// `item` equals.
    pub open spec fn spec_dir(self, item: T) -> Option<Dir> {
        if item.eq_spec(&self.up) {
            Some(Dir::Up)
        } else if item.eq_spec(&self.down) {
            Some(Dir::Down)
        } else if item.eq_spec(&self.left) {
            Some(Dir::Left)
        } else if item.eq_spec(&self.right) {
            Some(Dir::Right)
        } else {
            None
        }
    }

    /// The direction whose value `item` is, if it is any.
    pub fn dir(&self, item: &T) -> (found: Option<Dir>)
        ensures
            T::obeys_eq_spec() ==> found == self.spec_dir(*item),
    {
        if *item == self.up {
            Some(Dir::Up)
        } else if *item == self.down {
            Some(Dir::Down)
        } else if *item == self.left {
            Some(Dir::Left)
        } else if *item == self.right {
            Some(Dir::Right)
        } else {
            None
        }
    }
}

/// What is to be done about a button.
pub enum DeviceUpdate {
    Nop,
    Cast { target: Position },
    ChangeMovement { dirs: DirPad<bool> },
    AddToCluster { target: Position },
    ArsenalUpdate { upd: ArsenalUpdate },
}

/// Whether `i` is the first place at which `buttons` holds `button`.
pub open spec fn is_place<B: PartialEq>(buttons: Seq<B>, button: B, i: int) -> bool {
    &&& 0 <= i < buttons.len()
    &&& button.eq_spec(&buttons[i])
    &&& forall|j: int| 0 <= j < i ==> !button.eq_spec(&#[trigger] buttons[j])
}

/// Whether `buttons` holds `button` at all.
pub open spec fn has_place<B: PartialEq>(buttons: Seq<B>, button: B) -> bool {
    exists|i: int| 0 <= i < buttons.len() && button.eq_spec(&#[trigger] buttons[i])
}

/// The first place at which `buttons` holds `button`, where it holds it.
pub open spec fn place<B: PartialEq>(buttons: Seq<B>, button: B) -> int {
    choose|i: int| is_place(buttons, button, i)
}

/// Only one place is the first.
pub proof fn lemma_place_unique<B: PartialEq>(buttons: Seq<B>, button: B, i: int)
    requires
        is_place(buttons, button, i),
    ensures
        place(buttons, button) == i,
        has_place(buttons, button),
{
    let k = place(buttons, button);
    assert(is_place(buttons, button, k));
    if k < i {
        assert(!button.eq_spec(&buttons[k]));
    }
    if i < k {
        assert(!button.eq_spec(&buttons[i]));
    }
}

/// The first place at which `buttons` holds `button`, if it holds it.
pub fn position<B: PartialEq>(buttons: &[B], button: &B) -> (found: Option<usize>)
    ensures
        found matches Some(i) ==> i < buttons@.len(),
        B::obeys_eq_spec() ==> match found {
            Some(i) => is_place(buttons@, *button, i as int) && place(buttons@, *button) == i,
            None => !has_place(buttons@, *button),
        },
{
    let mut i: usize = 0;
    while i < buttons.len()
        invariant
            i <= buttons.len(),
            B::obeys_eq_spec() ==> forall|j: int|
                0 <= j < i ==> !button.eq_spec(&#[trigger] buttons@[j]),
        decreases buttons.len() - i,
    {
        if *button == buttons[i] {
            proof {
                if B::obeys_eq_spec() {
                    lemma_place_unique(buttons@, *button, i as int);
                }
            }
            return Some(i);
        }
        i = i + 1;
    }
    None
}

/// The level that goes with a number from zero to two.
pub open spec fn level_of(number: int) -> Level {
    if number == 0 {
        Level::Low
    } else if number == 1 {
        Level::Medium
    } else {
        Level::High
    }
}

/// The controls, and what has been learned from the devices so far.
pub struct Input<B> {
    pub move_controls: DirPad<B>,
    pub fire_button: B,
    pub cluster_buffer_button: B,
    pub arsenal_registers: [B; 9],
    pub build_basic: B,
    pub build_cluster: B,
    pub grenade_settings: [B; 12],
    pub save_mode: B,
    pub in_save_mode: bool,
    pub dirs: DirPad<bool>,
    pub cursor_pos: Position,
}

impl<B> Input<B> where B: PartialEq {
    /// What a pressed button means for the arsenal, as a value: a register
    /// is loaded, or saved to in save mode; a setting is set to the level
    /// its button stands for; the basic grenade or the cluster is built.
    pub open spec fn spec_interpret_gb(self, button: B, butt_pressed: bool) -> Option<
        ArsenalUpdate,
    > {
        if !butt_pressed {
            None
        } else if has_place(self.arsenal_registers@, button) {
            let which = place(self.arsenal_registers@, button) as usize;
            if self.in_save_mode {
                Some(ArsenalUpdate::SaveNade { which })
            } else {
                Some(ArsenalUpdate::LoadNade { which })
            }
        } else if has_place(self.grenade_settings@, button) {
            let setting = place(self.grenade_settings@, button);
            Some(
                ArsenalUpdate::SetLevel {
                    which: (setting / 3) as usize,
                    level: level_of(setting % 3),
                },
            )
        } else if button.eq_spec(&self.build_basic) {
            Some(ArsenalUpdate::BuildBasic)
        } else if button.eq_spec(&self.build_cluster) {
            Some(ArsenalUpdate::BuildCluster)
        } else {
            None
        }
    }

    /// What a button means for the arsenal. Only pressing a button means
    /// anything.
    pub fn interpret_gb(&self, button: &B, butt_pressed: bool) -> (update: Option<ArsenalUpdate>)
        ensures
            B::obeys_eq_spec() ==> update == self.spec_interpret_gb(*button, butt_pressed),
            update matches Some(upd) ==> upd.valid(),
    {
        if !butt_pressed {
            return None;
        }
        let register = position(&self.arsenal_registers, button);
        let setting = position(&self.grenade_settings, button);
        if let Some(which) = register {
            if self.in_save_mode {
                Some(ArsenalUpdate::SaveNade { which })
            } else {
                Some(ArsenalUpdate::LoadNade { which })
            }
        } else if let Some(setting) = setting {
            let which = setting / 3;
            let level_num = setting % 3;
            let level = if level_num == 0 {
                Level::Low
            } else if level_num == 1 {
                Level::Medium
            } else {
                Level::High
            };

            Some(ArsenalUpdate::SetLevel { which, level })
        } else if *button == self.build_basic {
            Some(ArsenalUpdate::BuildBasic)
        } else if *button == self.build_cluster {
            Some(ArsenalUpdate::BuildCluster)
        } else {
            None
        }
    }

    /// What a button means and what is known afterwards, as values. The
    /// bindings are tried in this order: save mode, movement, fire, cluster
    /// buffer, arsenal.
    pub open spec fn spec_interpret(self, button: B, butt_pressed: bool) -> (Input<B>, DeviceUpdate) {
        if button.eq_spec(&self.save_mode) {
            (Input { in_save_mode: butt_pressed, ..self }, DeviceUpdate::Nop)
        } else if self.move_controls.spec_dir(button).is_some() {
            let dir = self.move_controls.spec_dir(button).unwrap();
            if self.dirs.at(dir) != butt_pressed {
                let dirs = self.dirs.with(dir, butt_pressed);
                (Input { dirs, ..self }, DeviceUpdate::ChangeMovement { dirs })
            } else {
                (self, DeviceUpdate::Nop)
            }
        } else if butt_pressed && button.eq_spec(&self.fire_button) {
            (self, DeviceUpdate::Cast { target: self.cursor_pos })
        } else if butt_pressed && button.eq_spec(&self.cluster_buffer_button) {
            (self, DeviceUpdate::AddToCluster { target: self.cursor_pos })
        } else {
            match self.spec_interpret_gb(button, butt_pressed) {
                Some(upd) => (self, DeviceUpdate::ArsenalUpdate { upd }),
                None => (self, DeviceUpdate::Nop),
            }
        }
    }

    /// Says what is to be done about a button that was pressed or let go,
    /// and takes note of what that changes: whether saving is on, and which
    /// directions are held.
    pub fn interpret(&mut self, button: &B, butt_pressed: bool) -> (update: DeviceUpdate)
        ensures
            B::obeys_eq_spec() ==> (*final(self), update) == old(self).spec_interpret(
                *button,
                butt_pressed,
            ),
            update matches DeviceUpdate::ArsenalUpdate { upd } ==> upd.valid(),
    {
        if *button == self.save_mode {
            self.in_save_mode = butt_pressed;
            DeviceUpdate::Nop
        } else if let Some(dir) = self.move_controls.dir(button) {
            // an update that changes nothing is not passed on
            if *self.dirs.index(dir) != butt_pressed {
                let held = self.dirs.index_mut(dir);
                *held = butt_pressed;
                DeviceUpdate::ChangeMovement { dirs: self.dirs }
            } else {
                DeviceUpdate::Nop
            }
        } else if butt_pressed && *button == self.fire_button {
            DeviceUpdate::Cast { target: self.cursor_pos }
        } else if butt_pressed && *button == self.cluster_buffer_button {
            DeviceUpdate::AddToCluster { target: self.cursor_pos }
        } else if let Some(upd) = self.interpret_gb(button, butt_pressed) {
            DeviceUpdate::ArsenalUpdate { upd }
        } else {
            DeviceUpdate::Nop
        }
    }

    /// Takes note of where the cursor is.
    pub fn on_mouse_move(&mut self, cursor: Position)
        ensures
            *final(self) == (Input { cursor_pos: cursor, ..*old(self) }),
    {
        self.cursor_pos = cursor;
    }

    /// The controls bound to the given buttons, with nothing held, saving
    /// off and the cursor at the origin.
    pub fn new(
        move_controls: DirPad<B>,
        fire_button: B,
        cluster_buffer_button: B,
        arsenal_registers: [B; 9],
        build_basic: B,
        build_cluster: B,
        grenade_settings: [B; 12],
        save_mode: B,
    ) -> (input: Input<B>)
        ensures
            input == (Input {
                move_controls,
                fire_button,
                cluster_buffer_button,
                arsenal_registers,
                build_basic,
                build_cluster,
                grenade_settings,
                save_mode,
                in_save_mode: false,
                dirs: DirPad { up: false, down: false, left: false, right: false },
                cursor_pos: Vec2 { x: 0, y: 0 },
            }),
    {
        let in_save_mode = false;
        let dirs = DirPad { up: false, down: false, left: false, right: false };
        let cursor_pos = Vec2::zero();

        Input {
            move_controls,
            fire_button,
            cluster_buffer_button,
            arsenal_registers,
            build_basic,
            build_cluster,
            grenade_settings,
            save_mode,
            in_save_mode,
            dirs,
            cursor_pos,
        }
    }
}

} // verus!
