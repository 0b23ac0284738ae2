//! Media-key commands.
use vstd::prelude::*;
use crate::text::{chars_eq, chars_of};

verus! {

/// A media or volume key.
#[derive(PartialEq, Eq, Structural, Clone, Copy, Debug)]
pub enum MediaAction {
    VolumeUp,
    VolumeDown,
    VolumeMute,
    PlayPause,
    Next,
    Prev,
    Stop,
}

/// The key that an action name selects, if it names one.
pub open spec fn media_action_spec(a: Seq<char>) -> Option<MediaAction> {
    if a == "volume_up"@ {
        Some(MediaAction::VolumeUp)
    } else if a == "volume_down"@ {
        Some(MediaAction::VolumeDown)
    } else if a == "volume_mute"@ {
        Some(MediaAction::VolumeMute)
    } else if a == "play_pause"@ {
        Some(MediaAction::PlayPause)
    } else if a == "next"@ {
        Some(MediaAction::Next)
    } else if a == "prev"@ {
        Some(MediaAction::Prev)
    } else if a == "stop"@ {
        Some(MediaAction::Stop)
    } else {
        None
    }
}

/// The key to press for `action` and how many times (once unless `repeat`
/// says otherwise); an error naming the action where it is unknown.
pub fn parse_media_command(action: &str, repeat: Option<u32>) -> (r: Result<(MediaAction, u32), String>)
    ensures
        media_action_spec(action@) matches Some(k) ==> r == Ok::<(MediaAction, u32), String>(
            (
                k,
                match repeat {
                    Some(n) => n,
                    None => 1,
                },
            ),
        ),
        media_action_spec(action@) is None ==> r is Err && r->Err_0@ == "Unknown media action: "@
            + action@,
{
    let a = chars_of(action);
    let key = if chars_eq(&a, &chars_of("volume_up")) {
        MediaAction::VolumeUp
    } else if chars_eq(&a, &chars_of("volume_down")) {
        MediaAction::VolumeDown
    } else if chars_eq(&a, &chars_of("volume_mute")) {
        MediaAction::VolumeMute
    } else if chars_eq(&a, &chars_of("play_pause")) {
        MediaAction::PlayPause
    } else if chars_eq(&a, &chars_of("next")) {
        MediaAction::Next
    } else if chars_eq(&a, &chars_of("prev")) {
        MediaAction::Prev
    } else if chars_eq(&a, &chars_of("stop")) {
        MediaAction::Stop
    } else {
        let mut m = String::from_str("Unknown media action: ");
        m.append(action);
        return Err(m);
    };
    let count = match repeat {
        Some(n) => n,
        None => 1,
    };
    Ok((key, count))
}

} // verus!
