//! Keyboard shortcuts: which key combination triggers which action.
use std::collections::HashMap;
use vstd::prelude::*;

verus! {

/// What a shortcut does.
#[derive(Debug, Clone, Copy, Hash, PartialEq, Eq)]
pub enum HotkeyAction {
    ToggleStreaming,
    TogglePreview,
    Quit,
}

/// A key together with the modifiers held with it. Keys are numbered by the application;
/// the letter keys carry the ASCII code of their upper-case letter.
#[derive(Debug, Clone, Copy, Hash, PartialEq, Eq)]
pub struct KeyCombination {
    pub ctrl: bool,
    pub shift: bool,
    pub alt: bool,
    pub key: u32,
}

/// The number of the S key.
pub const KEY_S: u32 = 83;

/// The number of the P key.
pub const KEY_P: u32 = 80;

/// The number of the Q key.
pub const KEY_Q: u32 = 81;

/// `0` or `1`.
pub open spec fn bit(b: bool) -> int {
    if b { 1 } else { 0 }
}

/// The number under which a combination is filed: the key times eight plus one bit for
/// each modifier.
pub open spec fn combination_code(c: KeyCombination) -> u64 {
    (c.key * 8 + 4 * bit(c.ctrl) + 2 * bit(c.shift) + bit(c.alt)) as u64
}

impl KeyCombination {
    /// The number under which this combination is filed.
    pub fn code(&self) -> (code: u64)
        ensures
            code == combination_code(*self),
    {
        let ctrl: u64 = if self.ctrl { 4 } else { 0 };
        let shift: u64 = if self.shift { 2 } else { 0 };
        let alt: u64 = if self.alt { 1 } else { 0 };
        (self.key as u64) * 8 + ctrl + shift + alt
    }
}

/// Different combinations are filed under different numbers.
pub proof fn lemma_combination_code_injective(a: KeyCombination, b: KeyCombination)
    ensures
        combination_code(a) == combination_code(b) ==> a == b,
{
}

/// A combination just registered triggers its action, and every other combination keeps
/// the action it had.
pub proof fn lemma_registered_shortcut_triggers(
    before: HotkeyManager,
    after: HotkeyManager,
    combination: KeyCombination,
    action: HotkeyAction,
    other: KeyCombination,
)
    requires
        after.shortcut_map() == before.shortcut_map().insert(combination_code(combination), action),
    ensures
        after.action_for(combination) == Some(action),
        other != combination ==> after.action_for(other) == before.action_for(other),
{
    lemma_combination_code_injective(combination, other);
}

/// The shortcuts a new manager starts with: Ctrl+S toggles streaming, P toggles the
/// preview, Ctrl+Q quits.
pub open spec fn default_shortcut_map() -> Map<u64, HotkeyAction> {
    map![
        combination_code(KeyCombination { ctrl: true, shift: false, alt: false, key: KEY_S }) => HotkeyAction::ToggleStreaming,
        combination_code(KeyCombination { ctrl: false, shift: false, alt: false, key: KEY_P }) => HotkeyAction::TogglePreview,
        combination_code(KeyCombination { ctrl: true, shift: false, alt: false, key: KEY_Q }) => HotkeyAction::Quit,
    ]
}

/// Holds the shortcuts, the defaults they can be reset to, and the combination that is
/// held down right now (so that holding it triggers its action once).
#[derive(Debug)]
pub struct HotkeyManager {
    shortcuts: HashMap<u64, HotkeyAction>,
    default_shortcuts: HashMap<u64, HotkeyAction>,
    current_combination: Option<KeyCombination>,
}

impl HotkeyManager {
    /// The shortcuts in force, by combination number.
    pub closed spec fn shortcut_map(&self) -> Map<u64, HotkeyAction> {
        self.shortcuts@
    }

    /// The shortcuts that `reset_to_defaults` brings back, by combination number.
    pub closed spec fn default_map(&self) -> Map<u64, HotkeyAction> {
        self.default_shortcuts@
    }

    /// The combination held down at the last input, if any.
    pub closed spec fn held(&self) -> Option<KeyCombination> {
        self.current_combination
    }

    /// The action a combination triggers under the shortcuts in force.
    pub open spec fn action_for(&self, c: KeyCombination) -> Option<HotkeyAction> {
        if self.shortcut_map().contains_key(combination_code(c)) {
            Some(self.shortcut_map()[combination_code(c)])
        } else {
            None
        }
    }

    /// A manager with the default shortcuts in force and nothing held down.
    pub fn new() -> (manager: Self)
        ensures
            manager.shortcut_map() == default_shortcut_map(),
            manager.default_map() == default_shortcut_map(),
            manager.held() == None::<KeyCombination>,
    {
        let mut manager = Self {
            shortcuts: HashMap::new(),
            default_shortcuts: HashMap::new(),
            current_combination: None,
        };
        manager.setup_default_shortcuts();
        manager
    }

    fn setup_default_shortcuts(&mut self)
        requires
            old(self).default_map() == Map::<u64, HotkeyAction>::empty(),
        ensures
            final(self).shortcut_map() == default_shortcut_map(),
            final(self).default_map() == default_shortcut_map(),
            final(self).held() == old(self).held(),
    {
        broadcast use vstd::std_specs::hash::group_hash_axioms;
        let toggle_streaming = KeyCombination { ctrl: true, shift: false, alt: false, key: KEY_S };
        let toggle_preview = KeyCombination { ctrl: false, shift: false, alt: false, key: KEY_P };
        let quit = KeyCombination { ctrl: true, shift: false, alt: false, key: KEY_Q };
        self.default_shortcuts.insert(toggle_streaming.code(), HotkeyAction::ToggleStreaming);
        self.default_shortcuts.insert(toggle_preview.code(), HotkeyAction::TogglePreview);
        self.default_shortcuts.insert(quit.code(), HotkeyAction::Quit);
        self.shortcuts = self.default_shortcuts.clone();
        assert(self.default_shortcuts@ =~= default_shortcut_map());
    }

    /// Takes the modifiers held and the first key held down at this input. A combination
    /// that was not held at the previous input triggers its action (if it has one); one
    /// that stays held triggers nothing; with no key down the held combination is forgotten.
    pub fn handle_input(&mut self, ctrl: bool, shift: bool, alt: bool, key: Option<u32>) -> (action: Option<HotkeyAction>)
        ensures
            final(self).shortcut_map() == old(self).shortcut_map(),
            final(self).default_map() == old(self).default_map(),
            match key {
                Some(k) => {
                    let c = KeyCombination { ctrl, shift, alt, key: k };
                    if old(self).held() != Some(c) {
                        final(self).held() == Some(c) && action == old(self).action_for(c)
                    } else {
                        final(self).held() == old(self).held() && action == None::<HotkeyAction>
                    }
                },
                None => final(self).held() == None::<KeyCombination> && action == None::<HotkeyAction>,
            },
    {
        broadcast use vstd::std_specs::hash::group_hash_axioms;
        match key {
            Some(k) => {
                let new_combination = KeyCombination { ctrl, shift, alt, key: k };
                let same = match self.current_combination {
                    Some(c) => c.ctrl == ctrl && c.shift == shift && c.alt == alt && c.key == k,
                    None => false,
                };
                if !same {
                    self.current_combination = Some(new_combination);
                    match self.shortcuts.get(&new_combination.code()) {
                        Some(a) => Some(*a),
                        None => None,
                    }
                } else {
                    None
                }
            },
            None => {
                self.current_combination = None;
                None
            },
        }
    }

    /// Makes `combination` trigger `action` from now on.
    pub fn register_shortcut(&mut self, combination: KeyCombination, action: HotkeyAction)
        ensures
            final(self).shortcut_map() == old(self).shortcut_map().insert(combination_code(combination), action),
            final(self).default_map() == old(self).default_map(),
            final(self).held() == old(self).held(),
    {
        broadcast use vstd::std_specs::hash::group_hash_axioms;
        self.shortcuts.insert(combination.code(), action);
    }

    /// Brings back the default shortcuts.
    pub fn reset_to_defaults(&mut self)
        ensures
            final(self).shortcut_map() == old(self).default_map(),
            final(self).default_map() == old(self).default_map(),
            final(self).held() == old(self).held(),
    {
        self.shortcuts = self.default_shortcuts.clone();
    }
}

} // verus!
