use vstd::prelude::*;
use crate::events::codes::{ButtonState, KeyCode, KeyModifiers, MouseButton};

verus! {

/// A set of key or button codes.
#[verifier::external_body]
pub struct CodeSet {
    set: hashbrown::HashSet<u32>,
}

/// The codes that a [`CodeSet`] holds.
pub uninterp spec fn code_set_contents(s: CodeSet) -> Set<u32>;

impl CodeSet {
    /// Calls `hashbrown::HashSet::default`; claims that the new set is empty.
    #[verifier::external_body]
    pub(crate) fn new() -> (r: CodeSet)
        ensures
            code_set_contents(r).is_empty(),
    {
        CodeSet { set: hashbrown::HashSet::default() }
    }

    /// Calls `hashbrown::HashSet::contains`; claims that it reports membership.
    #[verifier::external_body]
    pub(crate) fn contains(&self, code: u32) -> (r: bool)
        ensures
            r == code_set_contents(*self).contains(code),
    {
        self.set.contains(&code)
    }

    /// Calls `hashbrown::HashSet::insert`; claims that `code` is added and nothing else
    /// changes.
    #[verifier::external_body]
    pub(crate) fn insert(&mut self, code: u32)
        ensures
            code_set_contents(*final(self)) == code_set_contents(*old(self)).insert(code),
    {
        self.set.insert(code);
    }

    /// Calls `hashbrown::HashSet::remove`; claims that `code` is removed and nothing
    /// else changes.
    #[verifier::external_body]
    pub(crate) fn remove(&mut self, code: u32)
        ensures
            code_set_contents(*final(self)) == code_set_contents(*old(self)).remove(code),
    {
        self.set.remove(&code);
    }

    /// Calls `hashbrown::HashSet::clear`; claims that the set is empty afterwards.
    #[verifier::external_body]
    pub(crate) fn clear(&mut self)
        ensures
            code_set_contents(*final(self)).is_empty(),
    {
        self.set.clear();
    }
}

/// Which codes are held down, went down this frame, and went up this frame.
pub struct InputState {
    pressed: CodeSet,
    just_pressed: CodeSet,
    just_released: CodeSet,
}

impl InputState {
    pub closed spec fn pressed_codes(&self) -> Set<u32> {
        code_set_contents(self.pressed)
    }

    pub closed spec fn just_pressed_codes(&self) -> Set<u32> {
        code_set_contents(self.just_pressed)
    }

    pub closed spec fn just_released_codes(&self) -> Set<u32> {
        code_set_contents(self.just_released)
    }

    pub fn new() -> (r: InputState)
        ensures
            r.pressed_codes().is_empty(),
            r.just_pressed_codes().is_empty(),
            r.just_released_codes().is_empty(),
    {
        InputState { pressed: CodeSet::new(), just_pressed: CodeSet::new(), just_released: CodeSet::new() }
    }

    fn press(&mut self, code: u32)
        ensures
            final(self).pressed_codes() == old(self).pressed_codes().insert(code),
            final(self).just_pressed_codes() == old(self).just_pressed_codes().insert(code),
            final(self).just_released_codes() == old(self).just_released_codes(),
    {
        self.pressed.insert(code);
        self.just_pressed.insert(code);
    }

    fn release(&mut self, code: u32)
        ensures
            final(self).pressed_codes() == old(self).pressed_codes().remove(code),
            final(self).just_pressed_codes() == old(self).just_pressed_codes(),
            final(self).just_released_codes() == old(self).just_released_codes().insert(code),
    {
        self.pressed.remove(code);
        self.just_released.insert(code);
    }

    fn clear(&mut self)
        ensures
            final(self).pressed_codes() == old(self).pressed_codes(),
            final(self).just_pressed_codes().is_empty(),
            final(self).just_released_codes().is_empty(),
    {
        self.just_pressed.clear();
        self.just_released.clear();
    }
}

/// The input events that change the keyboard and mouse button state.
#[derive(Debug, Clone, Copy, PartialEq, Eq, Structural)]
pub enum InputEvent {
    KeyInput {
        state: ButtonState,
        /// Whether the key is repeating because it is held down
        repeat: bool,
        keycode: KeyCode,
    },
    MouseInput {
        state: ButtonState,
        button: MouseButton,
    },
    KeyModifiersChanged {
        modifiers: KeyModifiers,
    },
    /// Any other event, which leaves the state unchanged
    Other,
}

/// The keys whose codes are in `codes`.
pub open spec fn keys_of(codes: Set<u32>) -> Set<KeyCode> {
    Set::new(|k: KeyCode| codes.contains(k.spec_code()))
}

/// The mouse buttons whose codes are in `codes`.
pub open spec fn buttons_of(codes: Set<u32>) -> Set<MouseButton> {
    Set::new(|b: MouseButton| codes.contains(b.spec_code()))
}

proof fn lemma_keys_insert(codes: Set<u32>, k: KeyCode)
    ensures
        keys_of(codes.insert(k.spec_code())) == keys_of(codes).insert(k),
        keys_of(codes.remove(k.spec_code())) == keys_of(codes).remove(k),
{
    assert forall|k2: KeyCode| keys_of(codes.insert(k.spec_code())).contains(k2) == keys_of(codes).insert(k).contains(k2) by {
        KeyCode::lemma_code_injective(k, k2);
    }
    assert forall|k2: KeyCode| keys_of(codes.remove(k.spec_code())).contains(k2) == keys_of(codes).remove(k).contains(k2) by {
        KeyCode::lemma_code_injective(k, k2);
    }
    assert(keys_of(codes.insert(k.spec_code())) =~= keys_of(codes).insert(k));
    assert(keys_of(codes.remove(k.spec_code())) =~= keys_of(codes).remove(k));
}

proof fn lemma_buttons_insert(codes: Set<u32>, b: MouseButton)
    ensures
        buttons_of(codes.insert(b.spec_code())) == buttons_of(codes).insert(b),
        buttons_of(codes.remove(b.spec_code())) == buttons_of(codes).remove(b),
{
    assert forall|b2: MouseButton| buttons_of(codes.insert(b.spec_code())).contains(b2) == buttons_of(codes).insert(b).contains(b2) by {
        MouseButton::lemma_code_injective(b, b2);
    }
    assert forall|b2: MouseButton| buttons_of(codes.remove(b.spec_code())).contains(b2) == buttons_of(codes).remove(b).contains(b2) by {
        MouseButton::lemma_code_injective(b, b2);
    }
    assert(buttons_of(codes.insert(b.spec_code())) =~= buttons_of(codes).insert(b));
    assert(buttons_of(codes.remove(b.spec_code())) =~= buttons_of(codes).remove(b));
}

/// What a clipboard shortcut asks for.
#[derive(Debug, Clone, Copy, PartialEq, Eq, Structural)]
pub enum ClipboardShortcut {
    Copy,
    Cut,
    Paste,
    Nothing,
}

/// `after` is `before` updated with `event`: a key or button going down is held and
/// just pressed, one going up is no longer held and just released, a modifier change is
/// recorded, and key repeats and other events change nothing.
pub open spec fn processed(before: Input, after: Input, event: InputEvent) -> bool {
    match event {
        InputEvent::KeyInput { state, repeat, keycode } => if repeat {
            after == before
        } else if state == ButtonState::Pressed {
            &&& after.keys_pressed() == before.keys_pressed().insert(keycode)
            &&& after.keys_just_pressed() == before.keys_just_pressed().insert(keycode)
            &&& after.keys_just_released() == before.keys_just_released()
            &&& after.same_buttons(before)
            &&& after.modifiers() == before.modifiers()
        } else {
            &&& after.keys_pressed() == before.keys_pressed().remove(keycode)
            &&& after.keys_just_pressed() == before.keys_just_pressed()
            &&& after.keys_just_released() == before.keys_just_released().insert(keycode)
            &&& after.same_buttons(before)
            &&& after.modifiers() == before.modifiers()
        },
        InputEvent::MouseInput { state, button } => if state == ButtonState::Pressed {
            &&& after.buttons_pressed() == before.buttons_pressed().insert(button)
            &&& after.buttons_just_pressed() == before.buttons_just_pressed().insert(button)
            &&& after.buttons_just_released() == before.buttons_just_released()
            &&& after.same_keys(before)
            &&& after.modifiers() == before.modifiers()
        } else {
            &&& after.buttons_pressed() == before.buttons_pressed().remove(button)
            &&& after.buttons_just_pressed() == before.buttons_just_pressed()
            &&& after.buttons_just_released() == before.buttons_just_released().insert(button)
            &&& after.same_keys(before)
            &&& after.modifiers() == before.modifiers()
        },
        InputEvent::KeyModifiersChanged { modifiers } => {
            &&& after.same_keys(before)
            &&& after.same_buttons(before)
            &&& after.modifiers() == modifiers
        },
        InputEvent::Other => after == before,
    }
}

/// Law: a key that goes down and then up is no longer held, and both changes are
/// reported until the next clear.
pub proof fn law_press_then_release(a: Input, b: Input, c: Input, k: KeyCode)
    requires
        processed(a, b, (InputEvent::KeyInput { state: ButtonState::Pressed, repeat: false, keycode: k })),
        processed(b, c, (InputEvent::KeyInput { state: ButtonState::Released, repeat: false, keycode: k })),
    ensures
        !c.keys_pressed().contains(k),
        c.keys_just_pressed().contains(k),
        c.keys_just_released().contains(k),
        forall|k2: KeyCode| k2 != k ==> (#[trigger] c.keys_pressed().contains(k2) <==> a.keys_pressed().contains(k2)),
{
}

/// Law: a key going down is held and just pressed, and nothing else changes: every
/// other key is held, just pressed and just released exactly when it was before, every
/// mouse button keeps its state, and the modifiers stay.
pub proof fn law_key_press_changes_only_that_key(a: Input, b: Input, k: KeyCode)
    requires
        processed(a, b, (InputEvent::KeyInput { state: ButtonState::Pressed, repeat: false, keycode: k })),
    ensures
        b.keys_pressed().contains(k),
        b.keys_just_pressed().contains(k),
        b.keys_just_released().contains(k) == a.keys_just_released().contains(k),
        forall|k2: KeyCode| k2 != k ==> {
            &&& (#[trigger] b.keys_pressed().contains(k2) <==> a.keys_pressed().contains(k2))
            &&& (b.keys_just_pressed().contains(k2) <==> a.keys_just_pressed().contains(k2))
            &&& (b.keys_just_released().contains(k2) <==> a.keys_just_released().contains(k2))
        },
        forall|m: MouseButton| {
            &&& (#[trigger] b.buttons_pressed().contains(m) <==> a.buttons_pressed().contains(m))
            &&& (b.buttons_just_pressed().contains(m) <==> a.buttons_just_pressed().contains(m))
            &&& (b.buttons_just_released().contains(m) <==> a.buttons_just_released().contains(m))
        },
        b.modifiers() == a.modifiers(),
{
}

/// Law: a key going up is no longer held and is just released, and nothing else
/// changes: every other key keeps its state, whether `k` went down this frame is kept,
/// every mouse button keeps its state, and the modifiers stay.
pub proof fn law_key_release_changes_only_that_key(a: Input, b: Input, k: KeyCode)
    requires
        processed(a, b, (InputEvent::KeyInput { state: ButtonState::Released, repeat: false, keycode: k })),
    ensures
        !b.keys_pressed().contains(k),
        b.keys_just_released().contains(k),
        b.keys_just_pressed().contains(k) == a.keys_just_pressed().contains(k),
        forall|k2: KeyCode| k2 != k ==> {
            &&& (#[trigger] b.keys_pressed().contains(k2) <==> a.keys_pressed().contains(k2))
            &&& (b.keys_just_pressed().contains(k2) <==> a.keys_just_pressed().contains(k2))
            &&& (b.keys_just_released().contains(k2) <==> a.keys_just_released().contains(k2))
        },
        forall|m: MouseButton| {
            &&& (#[trigger] b.buttons_pressed().contains(m) <==> a.buttons_pressed().contains(m))
            &&& (b.buttons_just_pressed().contains(m) <==> a.buttons_just_pressed().contains(m))
            &&& (b.buttons_just_released().contains(m) <==> a.buttons_just_released().contains(m))
        },
        b.modifiers() == a.modifiers(),
{
}

/// Law: a mouse button going down is held and just pressed, and nothing else changes:
/// every other button is held, just pressed and just released exactly when it was
/// before, every key keeps its state, and the modifiers stay.
pub proof fn law_button_press_changes_only_that_button(a: Input, b: Input, m: MouseButton)
    requires
        processed(a, b, (InputEvent::MouseInput { state: ButtonState::Pressed, button: m })),
    ensures
        b.buttons_pressed().contains(m),
        b.buttons_just_pressed().contains(m),
        b.buttons_just_released().contains(m) == a.buttons_just_released().contains(m),
        forall|m2: MouseButton| m2 != m ==> {
            &&& (#[trigger] b.buttons_pressed().contains(m2) <==> a.buttons_pressed().contains(m2))
            &&& (b.buttons_just_pressed().contains(m2) <==> a.buttons_just_pressed().contains(m2))
            &&& (b.buttons_just_released().contains(m2) <==> a.buttons_just_released().contains(m2))
        },
        forall|k: KeyCode| {
            &&& (#[trigger] b.keys_pressed().contains(k) <==> a.keys_pressed().contains(k))
            &&& (b.keys_just_pressed().contains(k) <==> a.keys_just_pressed().contains(k))
            &&& (b.keys_just_released().contains(k) <==> a.keys_just_released().contains(k))
        },
        b.modifiers() == a.modifiers(),
{
}

/// Law: a mouse button going up is no longer held and is just released, and nothing
/// else changes: every other button keeps its state, whether `m` went down this frame
/// is kept, every key keeps its state, and the modifiers stay.
pub proof fn law_button_release_changes_only_that_button(a: Input, b: Input, m: MouseButton)
    requires
        processed(a, b, (InputEvent::MouseInput { state: ButtonState::Released, button: m })),
    ensures
        !b.buttons_pressed().contains(m),
        b.buttons_just_released().contains(m),
        b.buttons_just_pressed().contains(m) == a.buttons_just_pressed().contains(m),
        forall|m2: MouseButton| m2 != m ==> {
            &&& (#[trigger] b.buttons_pressed().contains(m2) <==> a.buttons_pressed().contains(m2))
            &&& (b.buttons_just_pressed().contains(m2) <==> a.buttons_just_pressed().contains(m2))
            &&& (b.buttons_just_released().contains(m2) <==> a.buttons_just_released().contains(m2))
        },
        forall|k: KeyCode| {
            &&& (#[trigger] b.keys_pressed().contains(k) <==> a.keys_pressed().contains(k))
            &&& (b.keys_just_pressed().contains(k) <==> a.keys_just_pressed().contains(k))
            &&& (b.keys_just_released().contains(k) <==> a.keys_just_released().contains(k))
        },
        b.modifiers() == a.modifiers(),
{
}

/// Law: key presses add up within a frame: after two keys go down one after the
/// other, both are held and both count as just pressed.
pub proof fn law_presses_accumulate(
    a: Input,
    b: Input,
    c: Input,
    k1: KeyCode,
    k2: KeyCode,
)
    requires
        processed(a, b, (InputEvent::KeyInput { state: ButtonState::Pressed, repeat: false, keycode: k1 })),
        processed(b, c, (InputEvent::KeyInput { state: ButtonState::Pressed, repeat: false, keycode: k2 })),
    ensures
        c.keys_pressed().contains(k1),
        c.keys_pressed().contains(k2),
        c.keys_just_pressed().contains(k1),
        c.keys_just_pressed().contains(k2),
{
    law_key_press_changes_only_that_key(a, b, k1);
    law_key_press_changes_only_that_key(b, c, k2);
}

/// Law: mouse button presses add up: after two buttons go down one after the other,
/// both are held and both count as just pressed.
pub proof fn law_button_presses_accumulate(
    a: Input,
    b: Input,
    c: Input,
    m1: MouseButton,
    m2: MouseButton,
)
    requires
        processed(a, b, (InputEvent::MouseInput { state: ButtonState::Pressed, button: m1 })),
        processed(b, c, (InputEvent::MouseInput { state: ButtonState::Pressed, button: m2 })),
    ensures
        c.buttons_pressed().contains(m1),
        c.buttons_pressed().contains(m2),
        c.buttons_just_pressed().contains(m1),
        c.buttons_just_pressed().contains(m2),
{
    law_button_press_changes_only_that_button(a, b, m1);
    law_button_press_changes_only_that_button(b, c, m2);
}

/// The keyboard and mouse button state of one window.
pub struct Input {
    key_state: InputState,
    mouse_state: InputState,
    key_modifiers: KeyModifiers,
}

impl Input {
    /// Keys held down.
    pub closed spec fn keys_pressed(&self) -> Set<KeyCode> {
        keys_of(self.key_state.pressed_codes())
    }

    /// Keys that went down since the last clear.
    pub closed spec fn keys_just_pressed(&self) -> Set<KeyCode> {
        keys_of(self.key_state.just_pressed_codes())
    }

    /// Keys that went up since the last clear.
    pub closed spec fn keys_just_released(&self) -> Set<KeyCode> {
        keys_of(self.key_state.just_released_codes())
    }

    /// Mouse buttons held down.
    pub closed spec fn buttons_pressed(&self) -> Set<MouseButton> {
        buttons_of(self.mouse_state.pressed_codes())
    }

    /// Mouse buttons that went down since the last clear.
    pub closed spec fn buttons_just_pressed(&self) -> Set<MouseButton> {
        buttons_of(self.mouse_state.just_pressed_codes())
    }

    /// Mouse buttons that went up since the last clear.
    pub closed spec fn buttons_just_released(&self) -> Set<MouseButton> {
        buttons_of(self.mouse_state.just_released_codes())
    }

    /// Both inputs agree on the keys pressed, just pressed and just released.
    pub open spec fn same_keys(&self, other: Input) -> bool {
        &&& self.keys_pressed() == other.keys_pressed()
        &&& self.keys_just_pressed() == other.keys_just_pressed()
        &&& self.keys_just_released() == other.keys_just_released()
    }

    /// Both inputs agree on the mouse buttons pressed, just pressed and just released.
    pub open spec fn same_buttons(&self, other: Input) -> bool {
        &&& self.buttons_pressed() == other.buttons_pressed()
        &&& self.buttons_just_pressed() == other.buttons_just_pressed()
        &&& self.buttons_just_released() == other.buttons_just_released()
    }

    /// The modifier keys as last reported.
    pub closed spec fn modifiers(&self) -> KeyModifiers {
        self.key_modifiers
    }

    /// No key or button pressed and no modifier held.
    pub fn new() -> (r: Input)
        ensures
            r.keys_pressed().is_empty(),
            r.keys_just_pressed().is_empty(),
            r.keys_just_released().is_empty(),
            r.buttons_pressed().is_empty(),
            r.buttons_just_pressed().is_empty(),
            r.buttons_just_released().is_empty(),
            r.modifiers() == (KeyModifiers { alt_key: false, control_key: false, shift_key: false, super_key: false }),
    {
        let r = Input {
            key_state: InputState::new(),
            mouse_state: InputState::new(),
            key_modifiers: KeyModifiers { alt_key: false, control_key: false, shift_key: false, super_key: false },
        };
        assert(r.keys_pressed() =~= Set::empty());
        assert(r.keys_just_pressed() =~= Set::empty());
        assert(r.keys_just_released() =~= Set::empty());
        assert(r.buttons_pressed() =~= Set::empty());
        assert(r.buttons_just_pressed() =~= Set::empty());
        assert(r.buttons_just_released() =~= Set::empty());
        r
    }

    pub fn key_pressed(&self, key_code: KeyCode) -> (r: bool)
        ensures
            r == self.keys_pressed().contains(key_code),
    {
        self.key_state.pressed.contains(key_code.code())
    }

    pub fn key_just_pressed(&self, key_code: KeyCode) -> (r: bool)
        ensures
            r == self.keys_just_pressed().contains(key_code),
    {
        self.key_state.just_pressed.contains(key_code.code())
    }

    pub fn key_just_released(&self, key_code: KeyCode) -> (r: bool)
        ensures
            r == self.keys_just_released().contains(key_code),
    {
        self.key_state.just_released.contains(key_code.code())
    }

    pub fn mouse_pressed(&self, mouse_code: MouseButton) -> (r: bool)
        ensures
            r == self.buttons_pressed().contains(mouse_code),
    {
        self.mouse_state.pressed.contains(mouse_code.code())
    }

    pub fn mouse_just_pressed(&self, mouse_code: MouseButton) -> (r: bool)
        ensures
            r == self.buttons_just_pressed().contains(mouse_code),
    {
        self.mouse_state.just_pressed.contains(mouse_code.code())
    }

    pub fn mouse_just_released(&self, mouse_code: MouseButton) -> (r: bool)
        ensures
            r == self.buttons_just_released().contains(mouse_code),
    {
        self.mouse_state.just_released.contains(mouse_code.code())
    }

    pub fn key_modifiers(&self) -> (r: KeyModifiers)
        ensures
            r == self.modifiers(),
    {
        self.key_modifiers
    }

    /// The direction that four keys held down point to, before normalising: each axis is
    /// 1 when only its positive key is held, -1 when only its negative key is, and 0
    /// when both or neither are.
    pub fn get_axes(&self, negative_x: KeyCode, negative_y: KeyCode, positive_x: KeyCode, positive_y: KeyCode) -> (r: (
        i8,
        i8,
    ))
        ensures
            r.0 == (if self.keys_pressed().contains(positive_x) { 1int } else { 0int }) - (if self.keys_pressed().contains(
                negative_x,
            ) {
                1int
            } else {
                0int
            }),
            r.1 == (if self.keys_pressed().contains(positive_y) { 1int } else { 0int }) - (if self.keys_pressed().contains(
                negative_y,
            ) {
                1int
            } else {
                0int
            }),
    {
        let px: i8 = if self.key_pressed(positive_x) { 1 } else { 0 };
        let nx: i8 = if self.key_pressed(negative_x) { 1 } else { 0 };
        let ny: i8 = if self.key_pressed(negative_y) { 1 } else { 0 };
        let py: i8 = if self.key_pressed(positive_y) { 1 } else { 0 };
        (px - nx, py - ny)
    }

    /// The clipboard shortcut given this frame: with the command key held (the super key
    /// on macOS, control elsewhere), C just pressed copies, else X cuts, else V pastes.
    pub fn clipboard_shortcut(&self, is_macos: bool) -> (r: ClipboardShortcut)
        ensures
            r == (if (if is_macos { self.modifiers().super_key } else { self.modifiers().control_key }) {
                if self.keys_just_pressed().contains(KeyCode::KeyC) {
                    ClipboardShortcut::Copy
                } else if self.keys_just_pressed().contains(KeyCode::KeyX) {
                    ClipboardShortcut::Cut
                } else if self.keys_just_pressed().contains(KeyCode::KeyV) {
                    ClipboardShortcut::Paste
                } else {
                    ClipboardShortcut::Nothing
                }
            } else {
                ClipboardShortcut::Nothing
            }),
    {
        if !self.key_modifiers.command_key(is_macos) {
            ClipboardShortcut::Nothing
        } else if self.key_just_pressed(KeyCode::KeyC) {
            ClipboardShortcut::Copy
        } else if self.key_just_pressed(KeyCode::KeyX) {
            ClipboardShortcut::Cut
        } else if self.key_just_pressed(KeyCode::KeyV) {
            ClipboardShortcut::Paste
        } else {
            ClipboardShortcut::Nothing
        }
    }

    /// Updates the state with one event. Key repeats, and events other than key and
    /// mouse button input and modifier changes, leave it unchanged.
    pub fn process_event(&mut self, event: &InputEvent)
        ensures
            processed(*old(self), *final(self), *event),
    {
        match event {
            InputEvent::KeyInput { keycode, state, repeat } => {
                if !*repeat {
                    let code = keycode.code();
                    proof {
                        lemma_keys_insert(self.key_state.pressed_codes(), *keycode);
                        lemma_keys_insert(self.key_state.just_pressed_codes(), *keycode);
                        lemma_keys_insert(self.key_state.just_released_codes(), *keycode);
                    }
                    match state {
                        ButtonState::Pressed => self.key_state.press(code),
                        ButtonState::Released => self.key_state.release(code),
                    }
                }
            },
            InputEvent::MouseInput { button, state } => {
                let code = button.code();
                proof {
                    lemma_buttons_insert(self.mouse_state.pressed_codes(), *button);
                    lemma_buttons_insert(self.mouse_state.just_pressed_codes(), *button);
                    lemma_buttons_insert(self.mouse_state.just_released_codes(), *button);
                }
                match state {
                    ButtonState::Pressed => self.mouse_state.press(code),
                    ButtonState::Released => self.mouse_state.release(code),
                }
            },
            InputEvent::KeyModifiersChanged { modifiers } => {
                self.key_modifiers = *modifiers;
            },
            InputEvent::Other => {},
        }
    }

    /// Clears what happened this frame; what is held down stays.
    pub fn clear(&mut self)
        ensures
            final(self).keys_pressed() == old(self).keys_pressed(),
            final(self).buttons_pressed() == old(self).buttons_pressed(),
            final(self).keys_just_pressed().is_empty(),
            final(self).keys_just_released().is_empty(),
            final(self).buttons_just_pressed().is_empty(),
            final(self).buttons_just_released().is_empty(),
            final(self).modifiers() == old(self).modifiers(),
    {
        self.mouse_state.clear();
        self.key_state.clear();
        assert(self.keys_just_pressed() =~= Set::empty());
        assert(self.keys_just_released() =~= Set::empty());
        assert(self.buttons_just_pressed() =~= Set::empty());
        assert(self.buttons_just_released() =~= Set::empty());
    }
}

impl Default for Input {
    fn default() -> (r: Input)
        ensures
            r.keys_pressed().is_empty(),
            r.keys_just_pressed().is_empty(),
            r.keys_just_released().is_empty(),
            r.buttons_pressed().is_empty(),
            r.buttons_just_pressed().is_empty(),
            r.buttons_just_released().is_empty(),
            r.modifiers() == (KeyModifiers { alt_key: false, control_key: false, shift_key: false, super_key: false }),
    {
        Input::new()
    }
}

} // verus!
