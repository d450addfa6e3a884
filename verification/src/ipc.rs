//! Messages a second launch sends to the running instance, and what the
//! running instance does with them.
use vstd::prelude::*;
use crate::playback::ViewMode;
use crate::recent::strings_view;
use crate::text::str_equal;

verus! {

/// A request from a second launch: `open` some files, or `show` the window.
#[derive(Debug, Clone)]
pub struct IpcMessage {
    pub command: String,
    pub paths: Vec<String>,
}

impl IpcMessage {
    /// A request to open `paths` in the running instance.
    pub fn open(paths: Vec<String>) -> (r: Self)
        ensures
            r.command@ == "open"@,
            r.paths@ == paths@,
    {
        IpcMessage { command: String::from_str("open"), paths }
    }

    /// A request to bring the running instance's window forward.
    pub fn show() -> (r: Self)
        ensures
            r.command@ == "show"@,
            r.paths@.len() == 0,
    {
        IpcMessage { command: String::from_str("show"), paths: Vec::new() }
    }
}

/// What the running instance does with a message.
pub enum IpcAction {
    /// Load and play `paths` in `view_mode`, and keep the main window minimized.
    Open { view_mode: ViewMode, paths: Vec<String> },
    /// Restore, show and focus the main window.
    Show,
    /// Nothing.
    Ignore,
}

/// The action for a message: `open` with at least one path opens them (several side by side),
/// `show` shows the window, anything else is ignored.
pub fn ipc_action(message: IpcMessage) -> (r: IpcAction)
    ensures
        message.command@ == "open"@ && message.paths.len() > 0 ==> (r matches IpcAction::Open {
            view_mode,
            paths,
        } && view_mode == ViewMode::spec_for_count(message.paths.len() as nat) && strings_view(paths@)
            == strings_view(message.paths@)),
        message.command@ == "show"@ ==> r is Show,
        !(message.command@ == "open"@ && message.paths.len() > 0) && message.command@ != "show"@
            ==> r is Ignore,
{
    proof {
        reveal_strlit("open");
        reveal_strlit("show");
        assert("open"@[0] != "show"@[0]);
    }
    if str_equal(message.command.as_str(), "open") {
        if message.paths.len() == 0 {
            return IpcAction::Ignore;
        }
        let view_mode = ViewMode::for_count(message.paths.len());
        IpcAction::Open { view_mode, paths: message.paths }
    } else if str_equal(message.command.as_str(), "show") {
        IpcAction::Show
    } else {
        IpcAction::Ignore
    }
}

} // verus!
