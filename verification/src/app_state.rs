use vstd::prelude::*;

verus! {

/// Whether to show one pane at a time or all panes side by side.
#[derive(Debug, Clone, Copy, PartialEq, Eq, Structural)]
pub enum ViewMode {
    /// Show only the active pane
    Single,
    /// Show all panes in equal-width columns
    Split,
}

/// Appends a pane, makes it the active one and shows all panes side by side.
pub fn add_pane<P>(panes: &mut Vec<P>, active: &mut usize, view_mode: &mut ViewMode, pane: P)
    ensures
        final(panes)@ == old(panes)@.push(pane),
        *final(active) == old(panes)@.len(),
        *final(view_mode) == ViewMode::Split,
        *final(active) < final(panes)@.len(),
{
    panes.push(pane);
    *active = panes.len() - 1;
    *view_mode = ViewMode::Split;
}

/// Closes the pane at `idx` unless it is the only one; the active index is
/// kept in range, and a single remaining pane is shown alone.
pub fn close_pane<P>(panes: &mut Vec<P>, active: &mut usize, view_mode: &mut ViewMode, idx: usize)
    requires
        old(panes)@.len() > 1 ==> idx < old(panes)@.len(),
    ensures
        old(panes)@.len() <= 1 ==> final(panes)@ == old(panes)@ && *final(active) == *old(active)
            && *final(view_mode) == *old(view_mode),
        old(panes)@.len() > 1 ==> {
            &&& final(panes)@ == old(panes)@.remove(idx as int)
            &&& *final(active) == if *old(active) < final(panes)@.len() {
                *old(active)
            } else {
                (final(panes)@.len() - 1) as usize
            }
            &&& *final(view_mode) == if final(panes)@.len() == 1 {
                ViewMode::Single
            } else {
                *old(view_mode)
            }
        },
        *old(active) < old(panes)@.len() ==> *final(active) < final(panes)@.len(),
        old(panes)@.len() >= 1 ==> final(panes)@.len() >= 1,
{
    if panes.len() > 1 {
        panes.remove(idx);
        let last = panes.len() - 1;
        if *active > last {
            *active = last;
        }
        if panes.len() == 1 {
            *view_mode = ViewMode::Single;
        }
    }
}

/// What to do with a path dropped onto the window.
#[derive(Debug, Clone, Copy, PartialEq, Eq, Structural)]
pub enum DropAction {
    /// A directory: add it to the file browser.
    AddToBrowser,
    /// The first dropped markdown file: load it into the active pane.
    LoadIntoActivePane,
    /// A later dropped markdown file: open it in a new pane.
    OpenInNewPane,
    /// Anything else is ignored.
    Ignore,
}

/// What to do with the dropped path at `position` in the dropped list.
pub fn drop_action(position: usize, is_dir: bool, is_markdown: bool) -> (a: DropAction)
    ensures
        a == if is_dir {
            DropAction::AddToBrowser
        } else if !is_markdown {
            DropAction::Ignore
        } else if position == 0 {
            DropAction::LoadIntoActivePane
        } else {
            DropAction::OpenInNewPane
        },
{
    if is_dir {
        DropAction::AddToBrowser
    } else if !is_markdown {
        DropAction::Ignore
    } else if position == 0 {
        DropAction::LoadIntoActivePane
    } else {
        DropAction::OpenInNewPane
    }
}

} // verus!
