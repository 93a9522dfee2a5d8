use vstd::prelude::*;
use crate::resource::Resource;

verus! {

/// The state of a key or mouse button in the current frame.
#[derive(Debug, Clone, Copy, PartialEq, Eq, Structural)]
pub enum ButtonState {
    Pressed,
    Released,
    Held,
}

/// The state a button has one frame later when nothing happens to it: a
/// press becomes a hold, everything else stays.
pub open spec fn next_frame(s: ButtonState) -> ButtonState {
    if s == ButtonState::Pressed {
        ButtonState::Held
    } else {
        s
    }
}

/// An input event, with keys and mouse buttons given by their numeric codes.
#[derive(Debug, Clone, Copy, PartialEq, Eq, Structural)]
pub enum InputEvent {
    MouseButtonDown { mouse_btn: u64 },
    MouseButtonUp { mouse_btn: u64 },
    KeyDown { keycode: u64, repeat: bool },
    KeyUp { keycode: u64 },
    Other,
}

/// Per-frame state of every key and mouse button that has had an event.
pub struct Input {
    mouse_button_state: Resource<ButtonState>,
    key_state: Resource<ButtonState>,
}

fn advance_all(states: &mut Resource<ButtonState>)
    requires
        old(states).wf(),
    ensures
        final(states).wf(),
        final(states)@ == old(states)@.map_values(|s: ButtonState| next_frame(s)),
{
    let ghost orig = states.entries();
    let mut i: usize = 0;
    while i < states.len()
        invariant
            states.entries().len() == orig.len(),
            0 <= i <= orig.len(),
            forall|j: int| 0 <= j < orig.len() ==> (#[trigger] states.entries()[j]).key == orig[j].key,
            forall|j: int| 0 <= j < i ==> (#[trigger] states.entries()[j]).value == next_frame(orig[j].value),
            forall|j: int| i <= j < orig.len() ==> (#[trigger] states.entries()[j]).value == orig[j].value,
        decreases orig.len() - i,
    {
        let state = *states.value_at(i);
        if state == ButtonState::Pressed {
            states.set_at(i, ButtonState::Held);
        }
        i += 1;
    }
    proof {
        old(states).lemma_entries();
        states.lemma_entries();
        Resource::<ButtonState>::lemma_map_values(orig, states.entries(), |s: ButtonState| next_frame(s));
    }
}

fn state_is(states: &Resource<ButtonState>, code: u64, wanted: ButtonState) -> (r: bool)
    requires
        states.wf(),
    ensures
        r == (states@.dom().contains(code) && states@[code] == wanted),
{
    match states.get_ref(code) {
        Some(state) => *state == wanted,
        None => false,
    }
}

impl Input {
    pub closed spec fn wf(&self) -> bool {
        self.mouse_button_state.wf() && self.key_state.wf()
    }

    /// Mouse button states by button code.
    pub closed spec fn mouse(&self) -> Map<u64, ButtonState> {
        self.mouse_button_state@
    }

    /// Key states by key code.
    pub closed spec fn keys(&self) -> Map<u64, ButtonState> {
        self.key_state@
    }

    /// No key or button has had an event.
    pub fn new() -> (r: Self)
        ensures
            r.wf(),
            r.mouse() == Map::<u64, ButtonState>::empty(),
            r.keys() == Map::<u64, ButtonState>::empty(),
    {
        Input { mouse_button_state: Resource::new(), key_state: Resource::new() }
    }

    /// Moves to the next frame: every press becomes a hold.
    pub fn update(&mut self)
        requires
            old(self).wf(),
        ensures
            final(self).wf(),
            final(self).mouse() == old(self).mouse().map_values(|s: ButtonState| next_frame(s)),
            final(self).keys() == old(self).keys().map_values(|s: ButtonState| next_frame(s)),
    {
        advance_all(&mut self.mouse_button_state);
        advance_all(&mut self.key_state);
    }

    /// Records one event: a button or key going down is pressed, one going
    /// up is released; a repeated key-down and any other event change nothing.
    pub fn process_event(&mut self, event: &InputEvent)
        requires
            old(self).wf(),
        ensures
            final(self).wf(),
            match *event {
                InputEvent::MouseButtonDown { mouse_btn } =>
                    final(self).mouse() == old(self).mouse().insert(mouse_btn, ButtonState::Pressed)
                    && final(self).keys() == old(self).keys(),
                InputEvent::MouseButtonUp { mouse_btn } =>
                    final(self).mouse() == old(self).mouse().insert(mouse_btn, ButtonState::Released)
                    && final(self).keys() == old(self).keys(),
                InputEvent::KeyDown { keycode, repeat } =>
                    final(self).mouse() == old(self).mouse()
                    && (!repeat ==> final(self).keys() == old(self).keys().insert(keycode, ButtonState::Pressed))
                    && (repeat ==> final(self).keys() == old(self).keys()),
                InputEvent::KeyUp { keycode } =>
                    final(self).mouse() == old(self).mouse()
                    && final(self).keys() == old(self).keys().insert(keycode, ButtonState::Released),
                InputEvent::Other => final(self).mouse() == old(self).mouse() && final(self).keys() == old(self).keys(),
            },
    {
        match event {
            InputEvent::MouseButtonDown { mouse_btn } => {
                self.mouse_button_state.add(*mouse_btn, ButtonState::Pressed);
            },
            InputEvent::MouseButtonUp { mouse_btn } => {
                self.mouse_button_state.add(*mouse_btn, ButtonState::Released);
            },
            InputEvent::KeyDown { keycode, repeat } => {
                if !*repeat {
                    self.key_state.add(*keycode, ButtonState::Pressed);
                }
            },
            InputEvent::KeyUp { keycode } => {
                self.key_state.add(*keycode, ButtonState::Released);
            },
            InputEvent::Other => {},
        }
    }

    /// Whether mouse button `button` went down this frame.
    pub fn is_mouse_button_pressed(&self, button: u64) -> (r: bool)
        requires
            self.wf(),
        ensures
            r == (self.mouse().dom().contains(button) && self.mouse()[button] == ButtonState::Pressed),
    {
        state_is(&self.mouse_button_state, button, ButtonState::Pressed)
    }

    /// Whether mouse button `button` has been down since an earlier frame.
    pub fn is_mouse_button_held(&self, button: u64) -> (r: bool)
        requires
            self.wf(),
        ensures
            r == (self.mouse().dom().contains(button) && self.mouse()[button] == ButtonState::Held),
    {
        state_is(&self.mouse_button_state, button, ButtonState::Held)
    }

    /// Whether mouse button `button` is up after having gone down.
    pub fn is_mouse_button_released(&self, button: u64) -> (r: bool)
        requires
            self.wf(),
        ensures
            r == (self.mouse().dom().contains(button) && self.mouse()[button] == ButtonState::Released),
    {
        state_is(&self.mouse_button_state, button, ButtonState::Released)
    }

    /// Whether key `keycode` went down this frame.
    pub fn is_key_pressed(&self, keycode: u64) -> (r: bool)
        requires
            self.wf(),
        ensures
            r == (self.keys().dom().contains(keycode) && self.keys()[keycode] == ButtonState::Pressed),
    {
        state_is(&self.key_state, keycode, ButtonState::Pressed)
    }

    /// Whether key `keycode` has been down since an earlier frame.
    pub fn is_key_held(&self, keycode: u64) -> (r: bool)
        requires
            self.wf(),
        ensures
            r == (self.keys().dom().contains(keycode) && self.keys()[keycode] == ButtonState::Held),
    {
        state_is(&self.key_state, keycode, ButtonState::Held)
    }

    /// Whether key `keycode` is up after having gone down.
    pub fn is_key_released(&self, keycode: u64) -> (r: bool)
        requires
            self.wf(),
        ensures
            r == (self.keys().dom().contains(keycode) && self.keys()[keycode] == ButtonState::Released),
    {
        state_is(&self.key_state, keycode, ButtonState::Released)
    }
}

} // verus!
