//! Global hotkeys that pause the stream and end the session.
use vstd::prelude::*;

verus! {

/// The keys bound to pausing, blanking and ending, and the state they drive. Keys are
/// numbered by the application.
#[derive(Debug, Clone, Copy, PartialEq, Eq)]
pub struct HotkeyConfig {
    pub pause: u32,
    pub blank: u32,
    pub terminate: u32,
    pub paused: bool,
    pub terminate_flag: bool,
}

/// Whether the stream is paused.
pub fn is_paused(config: &HotkeyConfig) -> (paused: bool)
    ensures
        paused == config.paused,
{
    config.paused
}

/// Whether the session is to end.
pub fn should_terminate(config: &HotkeyConfig) -> (terminate: bool)
    ensures
        terminate == config.terminate_flag,
{
    config.terminate_flag
}

/// The state after a key event: pressing the pause key flips the pause, pressing the
/// terminate key marks the session to end (a key bound to pause, or to blank, does only
/// that); releases, the blank key and other keys change nothing.
pub open spec fn after_key(config: HotkeyConfig, key: u32, pressed: bool) -> HotkeyConfig {
    if pressed && key == config.pause {
        HotkeyConfig { paused: !config.paused, ..config }
    } else if pressed && key != config.blank && key == config.terminate {
        HotkeyConfig { terminate_flag: true, ..config }
    } else {
        config
    }
}

/// Pressing the pause key twice leaves the pause as it was, and never ends the session.
pub proof fn lemma_pause_twice(config: HotkeyConfig)
    ensures
        after_key(after_key(config, config.pause, true), config.pause, true) == config,
{
}

/// Once the session is marked to end, no key event takes that back.
pub proof fn lemma_terminate_sticks(config: HotkeyConfig, key: u32, pressed: bool)
    requires
        config.terminate_flag,
    ensures
        after_key(config, key, pressed).terminate_flag,
{
}

/// Reacts to a key event: pressing the pause key flips the pause, pressing the terminate
/// key marks the session to end (the pause key wins when one key is bound to both);
/// releases, the blank key and other keys change nothing.
pub fn handle_key(config: &mut HotkeyConfig, key: u32, pressed: bool)
    ensures
        *final(config) == after_key(*old(config), key, pressed),
{
    if pressed {
        if key == config.pause {
            config.paused = !config.paused;
        } else if key == config.blank {
        } else if key == config.terminate {
            config.terminate_flag = true;
        }
    }
}

/// Pressing the terminate key, when it is bound to neither pause nor blank, always marks
/// the session to end, whether the stream is paused or not, and leaves the pause as it was.
pub proof fn lemma_terminate_key_ends_session(config: HotkeyConfig)
    requires
        config.terminate != config.pause,
        config.terminate != config.blank,
    ensures
        after_key(config, config.terminate, true).terminate_flag,
        after_key(config, config.terminate, true).paused == config.paused,
{
}

/// Pressing the pause key flips the pause whatever it was, and never marks the session to
/// end or unmarks it; releasing any key changes nothing.
pub proof fn lemma_pause_key_flips(config: HotkeyConfig, key: u32)
    ensures
        after_key(config, config.pause, true).paused == !config.paused,
        after_key(config, config.pause, true).terminate_flag == config.terminate_flag,
        after_key(config, key, false) == config,
{
}

} // verus!
