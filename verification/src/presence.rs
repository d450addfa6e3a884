//! Whether the main window stays minimized while playback windows are open.
use vstd::prelude::*;

verus! {

/// A request to the main window.
#[derive(Debug, Clone, Copy, PartialEq, Eq, Structural)]
pub enum ViewportRequest {
    Minimize,
    Restore,
    Show,
    Focus,
}

/// The main window: whether it is minimized now, and whether it should stay minimized
/// (it does after a launch or request that opened files directly).
#[derive(Debug, Clone, Copy)]
pub struct WindowPresence {
    pub main_window_minimized: bool,
    pub auto_minimize_single_launch: bool,
}

/// Restore, show and focus, in that order.
pub open spec fn bring_forward() -> Seq<ViewportRequest> {
    seq![ViewportRequest::Restore, ViewportRequest::Show, ViewportRequest::Focus]
}

fn bring_forward_requests() -> (r: Vec<ViewportRequest>)
    ensures
        r@ == bring_forward(),
{
    let mut r: Vec<ViewportRequest> = Vec::new();
    r.push(ViewportRequest::Restore);
    r.push(ViewportRequest::Show);
    r.push(ViewportRequest::Focus);
    assert(r@ =~= bring_forward());
    r
}

/// The requests that bring the window in line with the wish to keep it minimized.
pub open spec fn sync_requests(w: WindowPresence) -> Seq<ViewportRequest> {
    if w.auto_minimize_single_launch {
        if w.main_window_minimized {
            Seq::empty()
        } else {
            seq![ViewportRequest::Minimize]
        }
    } else if w.main_window_minimized {
        bring_forward()
    } else {
        Seq::empty()
    }
}

/// The window once it is in line with the wish to keep it minimized.
pub open spec fn synced(w: WindowPresence) -> WindowPresence {
    WindowPresence {
        main_window_minimized: w.auto_minimize_single_launch,
        auto_minimize_single_launch: w.auto_minimize_single_launch,
    }
}

impl WindowPresence {
    /// The main window at start: not minimized yet; to be kept minimized where files were given at launch.
    pub fn new(launched_with_files: bool) -> (r: Self)
        ensures
            !r.main_window_minimized,
            r.auto_minimize_single_launch == launched_with_files,
    {
        WindowPresence { main_window_minimized: false, auto_minimize_single_launch: launched_with_files }
    }

    /// Brings the window in line with the wish to keep it minimized: minimizes it once, or
    /// restores, shows and focuses it where it was minimized and should no longer be.
    pub fn sync(&mut self) -> (r: Vec<ViewportRequest>)
        ensures
            *final(self) == synced(*old(self)),
            r@ == sync_requests(*old(self)),
    {
        if self.auto_minimize_single_launch {
            if !self.main_window_minimized {
                self.main_window_minimized = true;
                let mut r: Vec<ViewportRequest> = Vec::new();
                r.push(ViewportRequest::Minimize);
                assert(r@ =~= seq![ViewportRequest::Minimize]);
                return r;
            }
            let r: Vec<ViewportRequest> = Vec::new();
            assert(r@ =~= Seq::<ViewportRequest>::empty());
            return r;
        }
        if self.main_window_minimized {
            self.main_window_minimized = false;
            return bring_forward_requests();
        }
        let r: Vec<ViewportRequest> = Vec::new();
        assert(r@ =~= Seq::<ViewportRequest>::empty());
        r
    }

    /// Files were opened on request: keep the main window minimized from now on.
    pub fn on_open_request(&mut self)
        ensures
            final(self).auto_minimize_single_launch,
            final(self).main_window_minimized == old(self).main_window_minimized,
    {
        self.auto_minimize_single_launch = true;
    }

    /// The window was asked for: stop keeping it minimized, and restore, show and focus it.
    pub fn on_show_request(&mut self) -> (r: Vec<ViewportRequest>)
        ensures
            !final(self).auto_minimize_single_launch,
            !final(self).main_window_minimized,
            r@ == bring_forward(),
    {
        self.auto_minimize_single_launch = false;
        self.main_window_minimized = false;
        bring_forward_requests()
    }
}

/// Once synced, the window is minimized exactly when it should stay minimized, and syncing
/// again asks nothing more of it and changes nothing.
pub proof fn lemma_sync_settles(w: WindowPresence)
    ensures
        synced(w).main_window_minimized == w.auto_minimize_single_launch,
        sync_requests(synced(w)) == Seq::<ViewportRequest>::empty(),
        synced(synced(w)) == synced(w),
{
}

} // verus!
