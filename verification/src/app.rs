//! What the main window keeps track of apart from its widgets.
use std::collections::VecDeque;
use vstd::prelude::*;

verus! {

/// The icons the window loads.
#[derive(Debug, Clone, Copy, PartialEq, Eq, Hash)]
pub enum TextureId {
    Error,
    HomeIcon,
    QuitIcon,
}

impl Default for TextureId {
    fn default() -> (id: Self)
        ensures
            id == TextureId::Error,
    {
        TextureId::Error
    }
}

impl TextureId {
    /// The name under which the icon is registered: the variant's name.
    pub fn name(&self) -> (name: &'static str)
        ensures
            name@ == match self {
                TextureId::Error => "Error"@,
                TextureId::HomeIcon => "HomeIcon"@,
                TextureId::QuitIcon => "QuitIcon"@,
            },
    {
        match self {
            TextureId::Error => "Error",
            TextureId::HomeIcon => "HomeIcon",
            TextureId::QuitIcon => "QuitIcon",
        }
    }
}

/// The page the window shows.
#[derive(Debug, Clone, Copy, PartialEq, Eq)]
pub enum PageView {
    HomePage,
    Caster,
    Receiver,
}

impl Default for PageView {
    fn default() -> (page: Self)
        ensures
            page == PageView::HomePage,
    {
        PageView::HomePage
    }
}

/// Frames left waiting after one is taken beyond which the rest of the queue is dropped.
pub const MAX_QUEUED_FRAMES: usize = 7;

/// Takes the oldest captured frame for display; when that leaves `MAX_QUEUED_FRAMES` or
/// more frames waiting, the waiting frames are dropped so the display catches up.
pub fn next_display_frame<T>(frames: &mut VecDeque<T>) -> (frame: Option<T>)
    ensures
        old(frames)@.len() == 0 ==> frame is None && final(frames)@ == old(frames)@,
        old(frames)@.len() > 0 ==> frame == Some(old(frames)@[0]) && final(frames)@ == if old(
            frames,
        )@.len() - 1 >= MAX_QUEUED_FRAMES {
            Seq::<T>::empty()
        } else {
            old(frames)@.drop_first()
        },
{
    let frame = frames.pop_front();
    if frame.is_some() && frames.len() >= MAX_QUEUED_FRAMES {
        frames.clear();
    }
    frame
}

} // verus!
