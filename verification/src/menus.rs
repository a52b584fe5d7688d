//! The keyboard shortcuts of the menus: which panels open and close, and
//! when the game pauses, resumes or restarts.

use vstd::prelude::*;

verus! {

/// The screen the game shows.
#[derive(Clone, Copy, PartialEq, Eq, Structural, Debug)]
pub enum Screen {
    Playing,
    Paused,
    Report,
    GameOver,
    Victory,
}

/// What is open on the playing screen.
#[derive(Clone, Copy, PartialEq, Eq, Structural, Debug)]
pub struct Panels {
    pub build_open: bool,
    pub research_open: bool,
    pub tactical: bool,
    pub map_big: bool,
    /// A building is selected.
    pub selection: bool,
    /// A building kind is chosen for placement.
    pub placing: bool,
}

/// The shortcut keys pressed this frame.
#[derive(Clone, Copy, PartialEq, Eq, Structural, Debug)]
pub struct MenuKeys {
    /// B: build menu.
    pub build: bool,
    /// Tab: tactical overlay.
    pub overlay: bool,
    /// M: large map.
    pub map: bool,
    /// T: research screen.
    pub research: bool,
    pub escape: bool,
    pub enter: bool,
}

/// What the shortcuts ask of the game besides the panels.
#[derive(Clone, Copy, PartialEq, Eq, Structural, Debug)]
pub enum MenuAction {
    Stay,
    Pause,
    Resume,
    NewGame,
}

/// The panels after the toggles: B and T (only while playing) toggle the
/// build menu and the research screen, each closing the other; Tab and M
/// toggle the overlay and the large map.
pub open spec fn toggled(p: Panels, k: MenuKeys, s: Screen) -> Panels {
    let playing = s == Screen::Playing;
    let b1 = if k.build && playing { !p.build_open } else { p.build_open };
    let r1 = if k.build && playing { false } else { p.research_open };
    Panels {
        build_open: if k.research && playing { false } else { b1 },
        research_open: if k.research && playing { !r1 } else { r1 },
        tactical: if k.overlay { !p.tactical } else { p.tactical },
        map_big: if k.map { !p.map_big } else { p.map_big },
        ..p
    }
}

/// Something that Escape closes is open.
pub open spec fn busy(p: Panels) -> bool {
    p.research_open || p.build_open || p.placing || p.selection
}

/// Escape while playing closes every panel, the selection and the
/// placement when any is open.
pub open spec fn panels_after(p: Panels, k: MenuKeys, s: Screen) -> Panels {
    let q = toggled(p, k, s);
    if k.escape && s == Screen::Playing && busy(q) {
        Panels { build_open: false, research_open: false, selection: false, placing: false, ..q }
    } else {
        q
    }
}

/// Escape pauses a game with nothing open and resumes a paused one; Enter
/// starts a new expedition once the game is lost or won.
pub open spec fn action_after(p: Panels, k: MenuKeys, s: Screen) -> MenuAction {
    if k.escape && s == Screen::Playing && !busy(toggled(p, k, s)) {
        MenuAction::Pause
    } else if k.escape && s == Screen::Paused {
        MenuAction::Resume
    } else if k.enter && (s == Screen::GameOver || s == Screen::Victory) {
        MenuAction::NewGame
    } else {
        MenuAction::Stay
    }
}

/// While playing, Escape leaves no panel, selection or placement open, and
/// pauses only when there was nothing to close.
pub proof fn lemma_escape_closes_all(p: Panels, k: MenuKeys)
    requires
        k.escape,
    ensures
        !busy(panels_after(p, k, Screen::Playing)),
        action_after(p, k, Screen::Playing) == MenuAction::Pause <==> !busy(toggled(p, k, Screen::Playing)),
{
}

/// The shortcuts: Tab and M toggle the overlay and the large map on any
/// screen; B and T act only while playing, toggling their own panel and
/// closing the other, so the two are never left open together; off the
/// playing screen nothing else changes. Escape resumes a paused game, Enter
/// starts anew only once the game is lost or won, and with no key pressed
/// nothing happens.
pub proof fn lemma_shortcuts(p: Panels, k: MenuKeys, s: Screen)
    ensures
        ({
            let q = panels_after(p, k, s);
            let a = action_after(p, k, s);
            &&& q.tactical == (p.tactical != k.overlay)
            &&& q.map_big == (p.map_big != k.map)
            &&& s != Screen::Playing ==> q.build_open == p.build_open && q.research_open == p.research_open
                && q.selection == p.selection && q.placing == p.placing
            &&& s == Screen::Playing && !k.escape && k.build && !k.research ==> q.build_open == !p.build_open
                && !q.research_open
            &&& s == Screen::Playing && !k.escape && k.research ==> !q.build_open && q.research_open == (k.build
                || !p.research_open)
            &&& !k.escape ==> q.selection == p.selection && q.placing == p.placing
            &&& !(p.build_open && p.research_open) ==> !(q.build_open && q.research_open)
            &&& (a == MenuAction::Resume) <==> (k.escape && s == Screen::Paused)
            &&& (a == MenuAction::NewGame) <==> (k.enter && (s == Screen::GameOver || s == Screen::Victory))
            &&& (a == MenuAction::Pause) ==> k.escape && s == Screen::Playing
            &&& (!k.build && !k.overlay && !k.map && !k.research && !k.escape && !k.enter) ==> q == p && a
                == MenuAction::Stay
        }),
{
}

/// Applies the shortcuts pressed this frame.
pub fn menu_keys(p: &mut Panels, k: MenuKeys, s: Screen) -> (a: MenuAction)
    ensures
        *final(p) == panels_after(*old(p), k, s),
        a == action_after(*old(p), k, s),
{
    let playing = s == Screen::Playing;
    if k.build && playing {
        p.build_open = !p.build_open;
        p.research_open = false;
    }
    if k.overlay {
        p.tactical = !p.tactical;
    }
    if k.map {
        p.map_big = !p.map_big;
    }
    if k.research && playing {
        p.research_open = !p.research_open;
        p.build_open = false;
    }
    let mut a = MenuAction::Stay;
    if k.escape {
        match s {
            Screen::Playing => {
                if p.research_open || p.build_open || p.placing || p.selection {
                    p.research_open = false;
                    p.build_open = false;
                    p.selection = false;
                    p.placing = false;
                } else {
                    a = MenuAction::Pause;
                }
            },
            Screen::Paused => {
                a = MenuAction::Resume;
            },
            _ => {},
        }
    }
    if k.enter && (s == Screen::GameOver || s == Screen::Victory) {
        a = MenuAction::NewGame;
    }
    a
}

} // verus!
