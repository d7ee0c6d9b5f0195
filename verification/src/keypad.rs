//! The per-key state machine and the 5x5 grid that owns it.

use vstd::prelude::*;

use crate::action::Action;
use crate::action::ControlAction;
use crate::action::PublishRequest;
use crate::action::spec_action_of_press;
use crate::action::spec_action_of_release;
use crate::action::spec_action_request;
use crate::config::Config;
use crate::decode::KeyEvent;
use crate::config::OnPressAction;
use crate::config::OnReleaseAction;
use crate::config::PadConfig;
use crate::util::Rgb;

verus! {

/// The two-valued blink alternator.  While a key is blinking, every color
/// read advances the phase, so the key alternates between its pressed and
/// released colors.
#[derive(Clone, Copy, Debug, PartialEq, Eq, Structural)]
pub enum BlinkState {
    On,
    Off,
}

/// The state of a single key: press flag, blink flags and phase, the two
/// configured colors, and the action lists fired on press and on release.
#[derive(Debug)]
pub struct KeyState {
    pub color_pressed: Rgb,
    pub color_released: Rgb,
    pub pressed: bool,
    pub blinking: bool,
    pub blinking_alternative_color: bool,
    pub blink_state: BlinkState,
    pub on_press: Vec<Action>,
    pub on_release: Vec<Action>,
}

impl KeyState {
    /// The key after one action has been executed against it: toggles flip
    /// the matching flag, a publish leaves the key untouched.
    pub open spec fn spec_after_action(self, a: Action) -> KeyState {
        match a {
            Action::ToggleBlinking => KeyState { blinking: !self.blinking, ..self },
            Action::ToggleBlinkingAlternativeColor => KeyState {
                blinking_alternative_color: !self.blinking_alternative_color,
                ..self
            },
            Action::PublishMqtt { .. } => self,
        }
    }

    /// The key after one control action: the matching flag is flipped and
    /// nothing else changes; in particular the press/release action lists
    /// are never consulted.
    pub open spec fn spec_after_control(self, c: ControlAction) -> KeyState {
        match c {
            ControlAction::ToggleBlinking => KeyState { blinking: !self.blinking, ..self },
            ControlAction::ToggleBlinkingAlternativeColor => KeyState {
                blinking_alternative_color: !self.blinking_alternative_color,
                ..self
            },
        }
    }

    /// One blinking color read: when the phase is `On` it flips to `Off` and
    /// the pressed color is returned; when it is `Off` it flips to `On` and
    /// the released color is returned.
    pub open spec fn spec_color_blinking(self) -> (KeyState, Rgb) {
        match self.blink_state {
            BlinkState::On => (
                KeyState { blink_state: BlinkState::Off, ..self },
                self.color_pressed,
            ),
            BlinkState::Off => (
                KeyState { blink_state: BlinkState::On, ..self },
                self.color_released,
            ),
        }
    }

    /// One color read for the chosen side: a non-blinking key returns its
    /// statically configured color and stays unchanged; a blinking key
    /// returns the alternated color and advances its phase.
    pub open spec fn spec_read_color(self, pressed_side: bool) -> (KeyState, Rgb) {
        if self.blinking {
            self.spec_color_blinking()
        } else {
            (self, if pressed_side { self.color_pressed } else { self.color_released })
        }
    }

    /// Runs a list of actions in order, threading the key state through and
    /// collecting the publish requests in order.
    pub open spec fn spec_run_actions(self, actions: Seq<Action>) -> (KeyState, Seq<
        PublishRequest,
    >)
        decreases actions.len(),
    {
        if actions.len() == 0 {
            (self, Seq::empty())
        } else {
            let (k1, rs) = self.spec_run_actions(actions.drop_last());
            let k2 = k1.spec_after_action(actions.last());
            let rs2 = match spec_action_request(actions.last()) {
                Some(r) => rs.push(r),
                None => rs,
            };
            (k2, rs2)
        }
    }

    /// Runs a list of control actions in order.
    pub open spec fn spec_run_controls(self, actions: Seq<ControlAction>) -> KeyState
        decreases actions.len(),
    {
        if actions.len() == 0 {
            self
        } else {
            self.spec_run_controls(actions.drop_last()).spec_after_control(actions.last())
        }
    }

    /// The full effect of a physical press: the press flag is set first,
    /// then the configured `on_press` actions run in order.
    pub open spec fn spec_pressed(self) -> (KeyState, Seq<PublishRequest>) {
        (KeyState { pressed: true, ..self }).spec_run_actions(self.on_press@)
    }

    /// The full effect of a physical release: the press flag is cleared
    /// first, then the configured `on_release` actions run in order.
    pub open spec fn spec_released(self) -> (KeyState, Seq<PublishRequest>) {
        (KeyState { pressed: false, ..self }).spec_run_actions(self.on_release@)
    }

    /// How a freshly constructed key relates to its configuration record:
    /// colors copied, all flags down, phase `Off`, and each configured
    /// action translated one to one.
    pub open spec fn matches_pad(self, p: PadConfig) -> bool {
        &&& self.color_pressed == Rgb(p.pressed)
        &&& self.color_released == Rgb(p.released)
        &&& !self.pressed
        &&& !self.blinking
        &&& !self.blinking_alternative_color
        &&& self.blink_state == BlinkState::Off
        &&& self.on_press@ == p.on_press@.map_values(|c: OnPressAction| spec_action_of_press(c))
        &&& self.on_release@ == p.on_release@.map_values(
            |c: OnReleaseAction| spec_action_of_release(c),
        )
    }

    /// Builds the key described by one configuration record: colors copied,
    /// not pressed, not blinking, phase `Off`, and the configured action
    /// lists translated one to one into runtime actions.
    pub fn from_pad(config: &PadConfig) -> (k: KeyState)
        ensures
            k.matches_pad(*config),
    {
        let mut on_press: Vec<Action> = Vec::new();
        let mut i: usize = 0;
        while i < config.on_press.len()
            invariant
                i <= config.on_press.len(),
                on_press@ == config.on_press@.take(i as int).map_values(
                    |c: OnPressAction| spec_action_of_press(c),
                ),
            decreases config.on_press.len() - i,
        {
            on_press.push(Action::from(&config.on_press[i]));
            proof {
                assert(config.on_press@.take(i as int + 1).map_values(
                    |c: OnPressAction| spec_action_of_press(c),
                ) =~= config.on_press@.take(i as int).map_values(
                    |c: OnPressAction| spec_action_of_press(c),
                ).push(spec_action_of_press(config.on_press@[i as int])));
            }
            i += 1;
        }
        let mut on_release: Vec<Action> = Vec::new();
        let mut j: usize = 0;
        while j < config.on_release.len()
            invariant
                j <= config.on_release.len(),
                on_release@ == config.on_release@.take(j as int).map_values(
                    |c: OnReleaseAction| spec_action_of_release(c),
                ),
            decreases config.on_release.len() - j,
        {
            on_release.push(Action::from(&config.on_release[j]));
            proof {
                assert(config.on_release@.take(j as int + 1).map_values(
                    |c: OnReleaseAction| spec_action_of_release(c),
                ) =~= config.on_release@.take(j as int).map_values(
                    |c: OnReleaseAction| spec_action_of_release(c),
                ).push(spec_action_of_release(config.on_release@[j as int])));
            }
            j += 1;
        }
        proof {
            assert(config.on_press@.take(config.on_press@.len() as int) =~= config.on_press@);
            assert(config.on_release@.take(config.on_release@.len() as int)
                =~= config.on_release@);
        }
        KeyState {
            color_pressed: Rgb::from(config.pressed),
            color_released: Rgb::from(config.released),
            pressed: false,
            blinking: false,
            blinking_alternative_color: false,
            blink_state: BlinkState::Off,
            on_press,
            on_release,
        }
    }

    /// Records a physical press: sets the press flag, then executes, in
    /// declared order, a clone of each configured `on_press` action.  The
    /// publish requests the actions produce are returned in order.
    pub fn key_pressed(&mut self) -> (reqs: Vec<PublishRequest>)
        ensures
            (*final(self), reqs@) == old(self).spec_pressed(),
            final(self).pressed,
    {
        self.pressed = true;
        let ghost start = *self;
        let mut reqs: Vec<PublishRequest> = Vec::new();
        let mut i: usize = 0;
        while i < self.on_press.len()
            invariant
                i <= start.on_press@.len(),
                (*self, reqs@) == start.spec_run_actions(start.on_press@.take(i as int)),
            decreases start.on_press@.len() - i,
        {
            proof {
                lemma_run_actions_preserves(start, start.on_press@.take(i as int));
            }
            let action = self.on_press[i].clone();
            let req = action.execute(self);
            if let Some(r) = req {
                reqs.push(r);
            }
            proof {
                assert(start.on_press@.take(i as int + 1).drop_last() =~= start.on_press@.take(
                    i as int,
                ));
            }
            i += 1;
        }
        proof {
            lemma_run_actions_preserves(start, start.on_press@.take(i as int));
            assert(start.on_press@.take(start.on_press@.len() as int) =~= start.on_press@);
            lemma_run_actions_preserves(start, start.on_press@);
        }
        reqs
    }

    /// Records a physical release: clears the press flag, then executes, in
    /// declared order, a clone of each configured `on_release` action.
    pub fn key_released(&mut self) -> (reqs: Vec<PublishRequest>)
        ensures
            (*final(self), reqs@) == old(self).spec_released(),
            !final(self).pressed,
    {
        self.pressed = false;
        let ghost start = *self;
        let mut reqs: Vec<PublishRequest> = Vec::new();
        let mut i: usize = 0;
        while i < self.on_release.len()
            invariant
                i <= start.on_release@.len(),
                (*self, reqs@) == start.spec_run_actions(start.on_release@.take(i as int)),
            decreases start.on_release@.len() - i,
        {
            proof {
                lemma_run_actions_preserves(start, start.on_release@.take(i as int));
            }
            let action = self.on_release[i].clone();
            let req = action.execute(self);
            if let Some(r) = req {
                reqs.push(r);
            }
            proof {
                assert(start.on_release@.take(i as int + 1).drop_last() =~= start.on_release@.take(
                    i as int,
                ));
            }
            i += 1;
        }
        proof {
            lemma_run_actions_preserves(start, start.on_release@.take(i as int));
            assert(start.on_release@.take(start.on_release@.len() as int) =~= start.on_release@);
            lemma_run_actions_preserves(start, start.on_release@);
        }
        reqs
    }

    /// Flips the blink-enabled flag.  The blink phase is not reset.
    pub fn toggle_blinking(&mut self)
        ensures
            *final(self) == (KeyState { blinking: !old(self).blinking, ..*old(self) }),
    {
        self.blinking = !self.blinking;
    }

    /// Flips the independent alternate-blink flag.
    pub fn toggle_blinking_alternative_color(&mut self)
        ensures
            *final(self) == (KeyState {
                blinking_alternative_color: !old(self).blinking_alternative_color,
                ..*old(self)
            }),
    {
        self.blinking_alternative_color = !self.blinking_alternative_color;
    }

    /// The color the key shows on the pressed side right now; a blinking key
    /// alternates and advances its phase.
    pub fn color_pressed(&mut self) -> (r: Rgb)
        ensures
            (*final(self), r) == old(self).spec_read_color(true),
    {
        if self.blinking {
            self.color_blinking()
        } else {
            self.color_pressed
        }
    }

    /// The color the key shows on the released side right now; a blinking
    /// key alternates and advances its phase.
    pub fn color_released(&mut self) -> (r: Rgb)
        ensures
            (*final(self), r) == old(self).spec_read_color(false),
    {
        if self.blinking {
            self.color_blinking()
        } else {
            self.color_released
        }
    }

    /// The alternated color: returns the color for the current phase and
    /// flips the phase.
    pub fn color_blinking(&mut self) -> (r: Rgb)
        ensures
            (*final(self), r) == old(self).spec_color_blinking(),
    {
        match self.blink_state {
            BlinkState::On => {
                self.blink_state = BlinkState::Off;
                self.color_pressed
            },
            BlinkState::Off => {
                self.blink_state = BlinkState::On;
                self.color_released
            },
        }
    }

    /// Runs each control action of a packet, in order, against this key.
    pub fn apply_control_actions(&mut self, actions: &Vec<ControlAction>)
        ensures
            *final(self) == old(self).spec_run_controls(actions@),
    {
        let ghost start = *self;
        let mut i: usize = 0;
        while i < actions.len()
            invariant
                i <= actions@.len(),
                *self == start.spec_run_controls(actions@.take(i as int)),
            decreases actions@.len() - i,
        {
            self.apply_control_action(&actions[i]);
            proof {
                assert(actions@.take(i as int + 1).drop_last() =~= actions@.take(i as int));
            }
            i += 1;
        }
        proof {
            assert(actions@.take(actions@.len() as int) =~= actions@);
        }
    }

    /// Applies one control action by calling the matching toggle method.
    pub fn apply_control_action(&mut self, action: &ControlAction)
        ensures
            *final(self) == old(self).spec_after_control(*action),
    {
        match action {
            ControlAction::ToggleBlinking => self.toggle_blinking(),
            ControlAction::ToggleBlinkingAlternativeColor => {
                self.toggle_blinking_alternative_color()
            },
        }
    }
}

/// One fully assembled outbound frame: the topic to publish on and the
/// 79-byte color payload.
#[derive(Clone, Debug)]
pub struct KeypadFrame {
    pub topic: String,
    pub payload: Vec<u8>,
}

/// Reads the current color of every key in order for the chosen side:
/// returns the keys after the read (blinking keys have advanced their
/// phase) and the concatenation of the 3-byte colors.
pub open spec fn spec_encode_keys(keys: Seq<KeyState>, pressed_side: bool) -> (Seq<KeyState>, Seq<
    u8,
>)
    decreases keys.len(),
{
    if keys.len() == 0 {
        (Seq::empty(), Seq::empty())
    } else {
        let (ks, bs) = spec_encode_keys(keys.drop_last(), pressed_side);
        let (k2, c) = keys.last().spec_read_color(pressed_side);
        (ks.push(k2), bs + c.bytes())
    }
}

/// One row of five keys.
#[derive(Debug)]
pub struct Row(pub Vec<KeyState>);

impl Row {
    /// Dispatches a press to the key at `index` within this row; an index
    /// beyond the row is dropped without touching any key.
    pub fn pressed(&mut self, index: u8) -> (reqs: Vec<PublishRequest>)
        ensures
            (index as int) < old(self).0@.len() ==> ({
                let (k2, rs) = old(self).0@[index as int].spec_pressed();
                &&& final(self).0@ == old(self).0@.update(index as int, k2)
                &&& reqs@ == rs
            }),
            (index as int) >= old(self).0@.len() ==> *final(self) == *old(self) && reqs@
                == Seq::<PublishRequest>::empty(),
    {
        if (index as usize) < self.0.len() {
            let key = &mut self.0[index as usize];
            key.key_pressed()
        } else {
            Vec::new()
        }
    }

    /// Dispatches a release to the key at `index` within this row.
    pub fn released(&mut self, index: u8) -> (reqs: Vec<PublishRequest>)
        ensures
            (index as int) < old(self).0@.len() ==> ({
                let (k2, rs) = old(self).0@[index as int].spec_released();
                &&& final(self).0@ == old(self).0@.update(index as int, k2)
                &&& reqs@ == rs
            }),
            (index as int) >= old(self).0@.len() ==> *final(self) == *old(self) && reqs@
                == Seq::<PublishRequest>::empty(),
    {
        if (index as usize) < self.0.len() {
            let key = &mut self.0[index as usize];
            key.key_released()
        } else {
            Vec::new()
        }
    }

    /// Reads, in order, the current color of every key of this row for the
    /// chosen side, returning the concatenated color bytes.  Blinking keys
    /// advance their phase as they are read.
    pub fn colors(&mut self, pressed_side: bool) -> (bytes: Vec<u8>)
        ensures
            (final(self).0@, bytes@) == spec_encode_keys(old(self).0@, pressed_side),
    {
        let mut bytes: Vec<u8> = Vec::new();
        let mut c: usize = 0;
        while c < self.0.len()
            invariant
                c <= old(self).0@.len(),
                self.0@.len() == old(self).0@.len(),
                (self.0@.take(c as int), bytes@) == spec_encode_keys(
                    old(self).0@.take(c as int),
                    pressed_side,
                ),
                self.0@.skip(c as int) == old(self).0@.skip(c as int),
            decreases old(self).0@.len() - c,
        {
            proof {
                assert(self.0@[c as int] == self.0@.skip(c as int)[0]);
            }
            let ghost prev = self.0@;
            let ghost prev_bytes = bytes@;
            let key = &mut self.0[c];
            let col = if pressed_side {
                key.color_pressed()
            } else {
                key.color_released()
            };
            let arr = col.as_slice();
            bytes.push(arr[0]);
            bytes.push(arr[1]);
            bytes.push(arr[2]);
            proof {
                let side = pressed_side;
                let k_old = old(self).0@[c as int];
                let (k2, c2) = k_old.spec_read_color(side);
                assert(old(self).0@.take(c as int + 1).drop_last() =~= old(self).0@.take(c as int));
                assert(old(self).0@.take(c as int + 1).last() == k_old);
                assert(self.0@.take(c as int + 1) =~= prev.take(c as int).push(k2));
                assert(bytes@ =~= prev_bytes + c2.bytes());
                assert forall|j: int|
                    0 <= j < self.0@.len() - (c as int + 1) implies (#[trigger] self.0@.skip(
                    c as int + 1,
                )[j]) == old(self).0@.skip(c as int + 1)[j] by {
                    assert(self.0@.skip(c as int + 1)[j] == self.0@[c as int + 1 + j]);
                    assert(prev.skip(c as int)[j + 1] == prev[c as int + 1 + j]);
                    assert(old(self).0@.skip(c as int)[j + 1] == old(self).0@[c as int + 1 + j]);
                    assert(old(self).0@.skip(c as int + 1)[j] == old(self).0@[c as int + 1 + j]);
                }
                assert(self.0@.skip(c as int + 1) =~= old(self).0@.skip(c as int + 1));
            }
            c += 1;
        }
        proof {
            assert(old(self).0@.take(old(self).0@.len() as int) =~= old(self).0@);
            assert(self.0@.take(old(self).0@.len() as int) =~= self.0@);
        }
        bytes
    }

    /// Applies one control action to the key at `index` within this row.
    pub fn run_ctrl_action(&mut self, index: u8, action: &ControlAction)
        ensures
            (index as int) < old(self).0@.len() ==> final(self).0@ == old(self).0@.update(
                index as int,
                old(self).0@[index as int].spec_after_control(*action),
            ),
            (index as int) >= old(self).0@.len() ==> *final(self) == *old(self),
    {
        if (index as usize) < self.0.len() {
            let key = &mut self.0[index as usize];
            key.apply_control_action(action);
        }
    }
}

/// The 5x5 grid of keys.  Linear key index `i` in `[0, 25)` addresses row
/// `i / 5`, column `i % 5`.
#[derive(Debug)]
pub struct KeypadState {
    pub rows: Vec<Row>,
}

impl KeypadState {
    /// The grid is well formed: exactly five rows of exactly five keys.
    pub open spec fn wf(self) -> bool {
        &&& self.rows@.len() == 5
        &&& forall|r: int| 0 <= r < 5 ==> (#[trigger] self.rows@[r]).0@.len() == 5
    }

    /// The key at linear index `i` in row-major order.
    pub open spec fn key_at(self, i: int) -> KeyState {
        self.rows@[i / 5].0@[i % 5]
    }

    /// Checks, at run time, that the grid has its proper 5x5 shape.  Every
    /// constructor and method of the library preserves that shape; the
    /// check lets unverified callers test it before dispatching.
    pub fn is_well_formed(&self) -> (r: bool)
        ensures
            r == self.wf(),
    {
        if self.rows.len() != 5 {
            return false;
        }
        let mut i: usize = 0;
        while i < 5
            invariant
                0 <= i <= 5,
                self.rows@.len() == 5,
                forall|r: int| 0 <= r < i ==> (#[trigger] self.rows@[r]).0@.len() == 5,
            decreases 5 - i,
        {
            if self.rows[i].0.len() != 5 {
                proof {
                    assert(self.rows@[i as int].0@.len() != 5);
                }
                return false;
            }
            i += 1;
        }
        true
    }

    /// Builds the grid from the configuration, one key per record.
    pub fn from_config(config: &Config) -> (s: Self)
        ensures
            s.wf(),
            forall|i: int|
                0 <= i < 25 ==> (#[trigger] s.key_at(i)).matches_pad(config.keypad.pad_at(i)),
    {
        let mut r0: Vec<KeyState> = Vec::new();
        r0.push(KeyState::from_pad(&config.keypad.pad_0_0));
        r0.push(KeyState::from_pad(&config.keypad.pad_0_1));
        r0.push(KeyState::from_pad(&config.keypad.pad_0_2));
        r0.push(KeyState::from_pad(&config.keypad.pad_0_3));
        r0.push(KeyState::from_pad(&config.keypad.pad_0_4));
        let mut r1: Vec<KeyState> = Vec::new();
        r1.push(KeyState::from_pad(&config.keypad.pad_1_0));
        r1.push(KeyState::from_pad(&config.keypad.pad_1_1));
        r1.push(KeyState::from_pad(&config.keypad.pad_1_2));
        r1.push(KeyState::from_pad(&config.keypad.pad_1_3));
        r1.push(KeyState::from_pad(&config.keypad.pad_1_4));
        let mut r2: Vec<KeyState> = Vec::new();
        r2.push(KeyState::from_pad(&config.keypad.pad_2_0));
        r2.push(KeyState::from_pad(&config.keypad.pad_2_1));
        r2.push(KeyState::from_pad(&config.keypad.pad_2_2));
        r2.push(KeyState::from_pad(&config.keypad.pad_2_3));
        r2.push(KeyState::from_pad(&config.keypad.pad_2_4));
        let mut r3: Vec<KeyState> = Vec::new();
        r3.push(KeyState::from_pad(&config.keypad.pad_3_0));
        r3.push(KeyState::from_pad(&config.keypad.pad_3_1));
        r3.push(KeyState::from_pad(&config.keypad.pad_3_2));
        r3.push(KeyState::from_pad(&config.keypad.pad_3_3));
        r3.push(KeyState::from_pad(&config.keypad.pad_3_4));
        let mut r4: Vec<KeyState> = Vec::new();
        r4.push(KeyState::from_pad(&config.keypad.pad_4_0));
        r4.push(KeyState::from_pad(&config.keypad.pad_4_1));
        r4.push(KeyState::from_pad(&config.keypad.pad_4_2));
        r4.push(KeyState::from_pad(&config.keypad.pad_4_3));
        r4.push(KeyState::from_pad(&config.keypad.pad_4_4));
        let mut rows: Vec<Row> = Vec::new();
        rows.push(Row(r0));
        rows.push(Row(r1));
        rows.push(Row(r2));
        rows.push(Row(r3));
        rows.push(Row(r4));
        let s = KeypadState { rows };
        proof {
            assert forall|i: int| 0 <= i < 25 implies (#[trigger] s.key_at(i)).matches_pad(
                config.keypad.pad_at(i),
            ) by {
                lemma_div_mod_5(i);
            }
        }
        s
    }

    /// All 25 keys in row-major order.
    pub open spec fn flat_keys(self) -> Seq<KeyState> {
        self.rows@[0].0@ + self.rows@[1].0@ + self.rows@[2].0@ + self.rows@[3].0@
            + self.rows@[4].0@
    }

    /// Serializes the whole grid into the two outbound frames: first the
    /// pressed-side buffer, then the released-side buffer, each a 4-byte
    /// header `[0, 0, 0, 25]` followed by 25 3-byte colors in row-major
    /// order — 79 bytes always.  Each buffer reads every key once, so one
    /// publish cycle advances a blinking key's phase twice; the phase a key
    /// shows on the released side is therefore one step past the phase the
    /// pressed side was read with.
    pub fn publish(&mut self, config: &Config) -> (r: (KeypadFrame, KeypadFrame))
        requires
            old(self).wf(),
        ensures
            final(self).wf(),
            ({
                let (mid, pressed_bytes) = spec_encode_keys(old(self).flat_keys(), true);
                let (fin, released_bytes) = spec_encode_keys(mid, false);
                &&& final(self).flat_keys() == fin
                &&& r.0.payload@ == seq![0u8, 0u8, 0u8, 25u8] + pressed_bytes
                &&& r.1.payload@ == seq![0u8, 0u8, 0u8, 25u8] + released_bytes
                &&& r.0.payload@.len() == 79
                &&& r.1.payload@.len() == 79
                &&& r.0.topic@ == config.mqtt_subscribe_prefix@ + "/"@
                    + crate::konst::KEYPAD_COLOR_PRESSED_TOPIC@
                &&& r.1.topic@ == config.mqtt_subscribe_prefix@ + "/"@
                    + crate::konst::KEYPAD_COLOR_RELEASED_TOPIC@
            }),
    {
        let ghost g0 = *self;
        let mut bytes_pressed: Vec<u8> = Vec::new();
        bytes_pressed.push(0);
        bytes_pressed.push(0);
        bytes_pressed.push(0);
        bytes_pressed.push(25);
        proof {
            assert(bytes_pressed@ =~= seq![0u8, 0u8, 0u8, 25u8]);
        }
        let row = &mut self.rows[0];
        let mut b = row.colors(true);
        bytes_pressed.append(&mut b);
        let row = &mut self.rows[1];
        let mut b = row.colors(true);
        bytes_pressed.append(&mut b);
        let row = &mut self.rows[2];
        let mut b = row.colors(true);
        bytes_pressed.append(&mut b);
        let row = &mut self.rows[3];
        let mut b = row.colors(true);
        bytes_pressed.append(&mut b);
        let row = &mut self.rows[4];
        let mut b = row.colors(true);
        bytes_pressed.append(&mut b);
        let ghost g1 = *self;
        proof {
            lemma_encode_split(g0, g1, true);
            assert(bytes_pressed@ =~= seq![0u8, 0u8, 0u8, 25u8] + spec_encode_keys(
                g0.flat_keys(),
                true,
            ).1);
        }
        let mut bytes_released: Vec<u8> = Vec::new();
        bytes_released.push(0);
        bytes_released.push(0);
        bytes_released.push(0);
        bytes_released.push(25);
        proof {
            assert(bytes_released@ =~= seq![0u8, 0u8, 0u8, 25u8]);
        }
        let row = &mut self.rows[0];
        let mut b = row.colors(false);
        bytes_released.append(&mut b);
        let row = &mut self.rows[1];
        let mut b = row.colors(false);
        bytes_released.append(&mut b);
        let row = &mut self.rows[2];
        let mut b = row.colors(false);
        bytes_released.append(&mut b);
        let row = &mut self.rows[3];
        let mut b = row.colors(false);
        bytes_released.append(&mut b);
        let row = &mut self.rows[4];
        let mut b = row.colors(false);
        bytes_released.append(&mut b);
        proof {
            lemma_encode_split(g1, *self, false);
            assert(bytes_released@ =~= seq![0u8, 0u8, 0u8, 25u8] + spec_encode_keys(
                g1.flat_keys(),
                false,
            ).1);
            lemma_encode_len(g0.flat_keys(), true);
            lemma_encode_len(g1.flat_keys(), false);
            assert(g0.flat_keys().len() == 25);
        }
        let topic_pressed = config.mqtt_subscribe_prefix.clone().concat("/").concat(
            crate::konst::KEYPAD_COLOR_PRESSED_TOPIC,
        );
        let topic_released = config.mqtt_subscribe_prefix.clone().concat("/").concat(
            crate::konst::KEYPAD_COLOR_RELEASED_TOPIC,
        );
        (
            KeypadFrame { topic: topic_pressed, payload: bytes_pressed },
            KeypadFrame { topic: topic_released, payload: bytes_released },
        )
    }

    /// How a grid dispatch of a press to `index` relates the grid before
    /// (`self`) to the grid after: in range, the addressed key makes its
    /// full press transition and every other key keeps its state; out of
    /// range, the whole grid is untouched and nothing is requested.
    pub open spec fn presses_key(
        self,
        after: KeypadState,
        reqs: Seq<PublishRequest>,
        index: int,
    ) -> bool {
        if 0 <= index < 25 {
            let (k2, rs) = self.key_at(index).spec_pressed();
            &&& after.key_at(index) == k2
            &&& after.key_at(index).pressed
            &&& reqs == rs
            &&& forall|j: int| 0 <= j < 25 && j != index ==> after.key_at(j) == self.key_at(j)
        } else {
            after == self && reqs == Seq::<PublishRequest>::empty()
        }
    }

    /// The release counterpart of [`KeypadState::presses_key`].
    pub open spec fn releases_key(
        self,
        after: KeypadState,
        reqs: Seq<PublishRequest>,
        index: int,
    ) -> bool {
        if 0 <= index < 25 {
            let (k2, rs) = self.key_at(index).spec_released();
            &&& after.key_at(index) == k2
            &&& !after.key_at(index).pressed
            &&& reqs == rs
            &&& forall|j: int| 0 <= j < 25 && j != index ==> after.key_at(j) == self.key_at(j)
        } else {
            after == self && reqs == Seq::<PublishRequest>::empty()
        }
    }

    /// Dispatches a physical press to the key at linear `index`; an index of
    /// 25 or more is dropped, leaving the whole grid untouched.  All keys
    /// other than the addressed one keep their state.
    pub fn pressed(&mut self, index: u8) -> (reqs: Vec<PublishRequest>)
        requires
            old(self).wf(),
        ensures
            final(self).wf(),
            old(self).presses_key(*final(self), reqs@, index as int),
    {
        let reqs = match index {
            0..=4 => {
                let row = &mut self.rows[0];
                row.pressed(index % 5)
            },
            5..=9 => {
                let row = &mut self.rows[1];
                row.pressed(index % 5)
            },
            10..=14 => {
                let row = &mut self.rows[2];
                row.pressed(index % 5)
            },
            15..=19 => {
                let row = &mut self.rows[3];
                row.pressed(index % 5)
            },
            20..=24 => {
                let row = &mut self.rows[4];
                row.pressed(index % 5)
            },
            _ => Vec::new(),
        };
        proof {
            if index < 25 {
                lemma_key_index_split(index as int);
                lemma_press_release_flag(old(self).key_at(index as int));
                lemma_dispatch_update(*old(self), *self, index as int);
            }
        }
        reqs
    }

    /// Dispatches a physical release to the key at linear `index`; an index
    /// of 25 or more is dropped, leaving the whole grid untouched.
    pub fn released(&mut self, index: u8) -> (reqs: Vec<PublishRequest>)
        requires
            old(self).wf(),
        ensures
            final(self).wf(),
            old(self).releases_key(*final(self), reqs@, index as int),
    {
        let reqs = match index {
            0..=4 => {
                let row = &mut self.rows[0];
                row.released(index % 5)
            },
            5..=9 => {
                let row = &mut self.rows[1];
                row.released(index % 5)
            },
            10..=14 => {
                let row = &mut self.rows[2];
                row.released(index % 5)
            },
            15..=19 => {
                let row = &mut self.rows[3];
                row.released(index % 5)
            },
            20..=24 => {
                let row = &mut self.rows[4];
                row.released(index % 5)
            },
            _ => Vec::new(),
        };
        proof {
            if index < 25 {
                lemma_key_index_split(index as int);
                lemma_press_release_flag(old(self).key_at(index as int));
                lemma_dispatch_update(*old(self), *self, index as int);
            }
        }
        reqs
    }

    /// Applies one remotely issued control action to the key at linear
    /// `index`, bypassing the configured action lists: only the matching
    /// blink flag is toggled.  An index of 25 or more is dropped.
    pub fn run_ctrl_action_on_key(&mut self, index: u8, action: &ControlAction)
        requires
            old(self).wf(),
        ensures
            final(self).wf(),
            index < 25 ==> final(self).key_at(index as int) == old(self).key_at(
                index as int,
            ).spec_after_control(*action) && forall|j: int|
                0 <= j < 25 && j != index as int ==> final(self).key_at(j) == old(self).key_at(j),
            index >= 25 ==> *final(self) == *old(self),
    {
        match index {
            0..=4 => {
                let row = &mut self.rows[0];
                row.run_ctrl_action(index % 5, action);
            },
            5..=9 => {
                let row = &mut self.rows[1];
                row.run_ctrl_action(index % 5, action);
            },
            10..=14 => {
                let row = &mut self.rows[2];
                row.run_ctrl_action(index % 5, action);
            },
            15..=19 => {
                let row = &mut self.rows[3];
                row.run_ctrl_action(index % 5, action);
            },
            20..=24 => {
                let row = &mut self.rows[4];
                row.run_ctrl_action(index % 5, action);
            },
            _ => (),
        }
        proof {
            if index < 25 {
                lemma_key_index_split(index as int);
                lemma_dispatch_update(*old(self), *self, index as int);
            }
        }
    }
    /// Handles one inbound physical-event message: decodes the payload and
    /// dispatches the press or release it names.  A payload that does not
    /// decode is dropped, leaving the grid untouched.
    pub fn handle_event_payload(&mut self, payload: &[u8]) -> (reqs: Vec<PublishRequest>)
        requires
            old(self).wf(),
        ensures
            final(self).wf(),
            match crate::decode::spec_decode_key_event(payload@) {
                Some(KeyEvent::Pressed(i)) => old(self).presses_key(
                    *final(self),
                    reqs@,
                    i as int,
                ),
                Some(KeyEvent::Released(i)) => old(self).releases_key(
                    *final(self),
                    reqs@,
                    i as int,
                ),
                None => *final(self) == *old(self) && reqs@ == Seq::<PublishRequest>::empty(),
            },
    {
        match crate::decode::decode_key_event(payload) {
            Some(KeyEvent::Pressed(i)) => self.pressed(i),
            Some(KeyEvent::Released(i)) => self.released(i),
            None => Vec::new(),
        }
    }

    /// Handles one inbound control message: the addressed key is taken from
    /// the topic's last path segment, the actions from the payload, and
    /// each action is applied to that key in order — never touching the
    /// configured press/release action lists.  A topic or payload that does
    /// not decode, or an index of 25 or more, leaves the grid untouched.
    #[verifier::loop_isolation(false)]
    pub fn handle_control_message(&mut self, topic: &[u8], payload: &[u8])
        requires
            old(self).wf(),
        ensures
            final(self).wf(),
            match (
                crate::decode::spec_key_index_from_topic(topic@),
                crate::decode::spec_decode_control(payload@),
            ) {
                (Some(key), Some(tags)) => if key < 25 {
                    &&& final(self).key_at(key as int) == old(self).key_at(
                        key as int,
                    ).spec_run_controls(tags)
                    &&& forall|j: int|
                        0 <= j < 25 && j != key as int ==> final(self).key_at(j) == old(
                            self,
                        ).key_at(j)
                } else {
                    *final(self) == *old(self)
                },
                _ => *final(self) == *old(self),
            },
    {
        let key = match crate::decode::key_index_from_topic(topic) {
            Some(k) => k,
            None => {
                return;
            },
        };
        let packet = match crate::decode::decode_control_packet(payload) {
            Some(p) => p,
            None => {
                return;
            },
        };
        let ghost tags = packet.actions@;
        let mut i: usize = 0;
        while i < packet.actions.len()
            invariant
                0 <= i <= tags.len(),
                packet.actions@ == tags,
                self.wf(),
                key < 25 ==> self.key_at(key as int) == old(self).key_at(
                    key as int,
                ).spec_run_controls(tags.take(i as int)) && forall|j: int|
                    0 <= j < 25 && j != key as int ==> self.key_at(j) == old(self).key_at(j),
                key >= 25 ==> *self == *old(self),
            decreases tags.len() - i,
        {
            self.run_ctrl_action_on_key(key, &packet.actions[i]);
            proof {
                assert(tags.take(i as int + 1).drop_last() =~= tags.take(i as int));
            }
            i += 1;
        }
        proof {
            assert(tags.take(tags.len() as int) =~= tags);
        }
    }
}

/// Toggling a key's blink flag twice — by a runtime action or by a remote
/// control action — restores the key exactly; the same holds of the
/// alternate-blink flag.
pub proof fn lemma_toggle_blinking_involution(k: KeyState)
    ensures
        k.spec_after_control(ControlAction::ToggleBlinking).spec_after_control(
            ControlAction::ToggleBlinking,
        ) == k,
        k.spec_after_control(ControlAction::ToggleBlinkingAlternativeColor).spec_after_control(
            ControlAction::ToggleBlinkingAlternativeColor,
        ) == k,
        k.spec_after_action(Action::ToggleBlinking).spec_after_action(Action::ToggleBlinking)
            == k,
        k.spec_after_action(Action::ToggleBlinkingAlternativeColor).spec_after_action(
            Action::ToggleBlinkingAlternativeColor,
        ) == k,
{
}

/// While a key blinks, consecutive color reads of one side alternate
/// strictly between its pressed and released colors: from phase `On` the
/// pressed color comes first, from phase `Off` the released color, and two
/// reads bring the phase back around.
pub proof fn lemma_blink_alternation(k: KeyState, pressed_side: bool)
    requires
        k.blinking,
    ensures
        ({
            let (k1, c1) = k.spec_read_color(pressed_side);
            let (k2, c2) = k1.spec_read_color(pressed_side);
            &&& k.blink_state == BlinkState::On ==> c1 == k.color_pressed && c2
                == k.color_released
            &&& k.blink_state == BlinkState::Off ==> c1 == k.color_released && c2
                == k.color_pressed
            &&& k2.blink_state == k.blink_state
        }),
{
}

/// Encoding touches each key once: it returns as many keys as it was given
/// and exactly three bytes per key.
pub proof fn lemma_encode_len(keys: Seq<KeyState>, pressed_side: bool)
    ensures
        spec_encode_keys(keys, pressed_side).0.len() == keys.len(),
        spec_encode_keys(keys, pressed_side).1.len() == 3 * keys.len(),
    decreases keys.len(),
{
    if keys.len() > 0 {
        lemma_encode_len(keys.drop_last(), pressed_side);
    }
}

/// Encoding distributes over concatenation: the keys of two stretches are
/// read independently and their byte runs follow each other.
proof fn lemma_encode_concat(a: Seq<KeyState>, b: Seq<KeyState>, pressed_side: bool)
    ensures
        spec_encode_keys(a + b, pressed_side).0 == spec_encode_keys(a, pressed_side).0
            + spec_encode_keys(b, pressed_side).0,
        spec_encode_keys(a + b, pressed_side).1 == spec_encode_keys(a, pressed_side).1
            + spec_encode_keys(b, pressed_side).1,
    decreases b.len(),
{
    if b.len() == 0 {
        assert(a + b =~= a);
        assert(spec_encode_keys(a, pressed_side).0 + spec_encode_keys(b, pressed_side).0
            =~= spec_encode_keys(a, pressed_side).0);
        assert(spec_encode_keys(a, pressed_side).1 + spec_encode_keys(b, pressed_side).1
            =~= spec_encode_keys(a, pressed_side).1);
    } else {
        lemma_encode_concat(a, b.drop_last(), pressed_side);
        assert((a + b).drop_last() =~= a + b.drop_last());
        assert((a + b).last() == b.last());
        assert(spec_encode_keys(a, pressed_side).0 + spec_encode_keys(b, pressed_side).0
            =~= (spec_encode_keys(a, pressed_side).0 + spec_encode_keys(
            b.drop_last(),
            pressed_side,
        ).0).push(b.last().spec_read_color(pressed_side).0));
        assert(spec_encode_keys(a, pressed_side).1 + spec_encode_keys(b, pressed_side).1
            =~= (spec_encode_keys(a, pressed_side).1 + spec_encode_keys(
            b.drop_last(),
            pressed_side,
        ).1) + b.last().spec_read_color(pressed_side).1.bytes());
    }
}

/// Encoding the whole grid is encoding its five rows one after the other:
/// when every row of `after` holds the processed keys of the same row of
/// `before`, the flat encoding of `before` yields exactly `after`'s keys,
/// and its bytes are the five rows' byte runs in order.
proof fn lemma_encode_split(before: KeypadState, after: KeypadState, pressed_side: bool)
    requires
        before.wf(),
        after.rows@.len() == 5,
        forall|r: int|
            0 <= r < 5 ==> (#[trigger] after.rows@[r]).0@ == spec_encode_keys(
                before.rows@[r].0@,
                pressed_side,
            ).0,
    ensures
        after.wf(),
        spec_encode_keys(before.flat_keys(), pressed_side).0 == after.flat_keys(),
        spec_encode_keys(before.flat_keys(), pressed_side).1 == spec_encode_keys(
            before.rows@[0].0@,
            pressed_side,
        ).1 + spec_encode_keys(before.rows@[1].0@, pressed_side).1 + spec_encode_keys(
            before.rows@[2].0@,
            pressed_side,
        ).1 + spec_encode_keys(before.rows@[3].0@, pressed_side).1 + spec_encode_keys(
            before.rows@[4].0@,
            pressed_side,
        ).1,
{
    let r0 = before.rows@[0].0@;
    let r1 = before.rows@[1].0@;
    let r2 = before.rows@[2].0@;
    let r3 = before.rows@[3].0@;
    let r4 = before.rows@[4].0@;
    lemma_encode_concat(r0, r1, pressed_side);
    lemma_encode_concat(r0 + r1, r2, pressed_side);
    lemma_encode_concat(r0 + r1 + r2, r3, pressed_side);
    lemma_encode_concat(r0 + r1 + r2 + r3, r4, pressed_side);
    lemma_encode_len(r0, pressed_side);
    lemma_encode_len(r1, pressed_side);
    lemma_encode_len(r2, pressed_side);
    lemma_encode_len(r3, pressed_side);
    lemma_encode_len(r4, pressed_side);
    assert(spec_encode_keys(before.flat_keys(), pressed_side).0 =~= after.flat_keys());
}

/// The byte layout of an encoded stretch of keys: key `i` is read exactly
/// once, its state after the read stands at position `i`, and its color at
/// the moment of the read occupies bytes `3i .. 3i+3`.
pub proof fn lemma_encode_at(keys: Seq<KeyState>, pressed_side: bool, i: int)
    requires
        0 <= i < keys.len(),
    ensures
        spec_encode_keys(keys, pressed_side).0[i] == keys[i].spec_read_color(pressed_side).0,
        spec_encode_keys(keys, pressed_side).1.subrange(3 * i, 3 * i + 3) == keys[i].spec_read_color(
            pressed_side,
        ).1.bytes(),
    decreases keys.len(),
{
    lemma_encode_len(keys.drop_last(), pressed_side);
    let (ks, bs) = spec_encode_keys(keys.drop_last(), pressed_side);
    let (k2, c) = keys.last().spec_read_color(pressed_side);
    if i == keys.len() - 1 {
        assert((bs + c.bytes()).subrange(3 * i, 3 * i + 3) =~= c.bytes());
    } else {
        lemma_encode_at(keys.drop_last(), pressed_side, i);
        assert(keys.drop_last()[i] == keys[i]);
        assert((bs + c.bytes()).subrange(3 * i, 3 * i + 3) =~= bs.subrange(3 * i, 3 * i + 3));
    }
}

/// A press leaves the press flag set and a release leaves it cleared, no
/// matter which actions run afterwards.
proof fn lemma_press_release_flag(k: KeyState)
    ensures
        k.spec_pressed().0.pressed,
        !k.spec_released().0.pressed,
{
    lemma_run_actions_preserves(KeyState { pressed: true, ..k }, k.on_press@);
    lemma_run_actions_preserves(KeyState { pressed: false, ..k }, k.on_release@);
}

/// Which row and column a linear key index addresses, spelled out per row.
proof fn lemma_key_index_split(i: int)
    requires
        0 <= i < 25,
    ensures
        i / 5 == (if i < 5 {
            0int
        } else if i < 10 {
            1int
        } else if i < 15 {
            2int
        } else if i < 20 {
            3int
        } else {
            4int
        }),
        i % 5 == i - 5 * (i / 5),
        0 <= i % 5 < 5,
{
    lemma_div_mod_5(i);
}

/// Division and remainder by five, for linear key indices.
proof fn lemma_div_mod_5(i: int)
    requires
        0 <= i < 25,
    ensures
        i == 5 * (i / 5) + (i % 5),
        0 <= i / 5 < 5,
        0 <= i % 5 < 5,
{
}

/// After a dispatch that replaced one key within one row, every other key
/// of the grid is unchanged.
proof fn lemma_dispatch_update(before: KeypadState, after: KeypadState, index: int)
    requires
        0 <= index < 25,
        before.wf(),
        after.rows@.len() == 5,
        forall|r: int| 0 <= r < 5 && r != index / 5 ==> after.rows@[r] == before.rows@[r],
        after.rows@[index / 5].0@.len() == before.rows@[index / 5].0@.len(),
        forall|c: int|
            0 <= c < 5 && c != index % 5 ==> (#[trigger] after.rows@[index / 5].0@[c])
                == before.rows@[index / 5].0@[c],
    ensures
        after.wf(),
        forall|j: int|
            0 <= j < 25 && j != index ==> after.key_at(j) == before.key_at(j),
{
    assert forall|j: int| 0 <= j < 25 && j != index implies after.key_at(j) == before.key_at(
        j,
    ) by {
        lemma_div_mod_5(j);
        lemma_div_mod_5(index);
    }
}

/// Running actions only ever touches the two blink flags: the press flag,
/// the colors, the blink phase and the action lists all survive unchanged.
proof fn lemma_run_actions_preserves(k: KeyState, s: Seq<Action>)
    ensures
        ({
            let (k2, rs) = k.spec_run_actions(s);
            &&& k2.pressed == k.pressed
            &&& k2.color_pressed == k.color_pressed
            &&& k2.color_released == k.color_released
            &&& k2.blink_state == k.blink_state
            &&& k2.on_press == k.on_press
            &&& k2.on_release == k.on_release
        }),
    decreases s.len(),
{
    if s.len() > 0 {
        lemma_run_actions_preserves(k, s.drop_last());
    }
}

} // verus!
