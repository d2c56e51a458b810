//! When the popup is shown and hidden, and what the tray menu does.
use crate::text::same_text;
use vstd::prelude::*;

verus! {

/// How many milliseconds the cursor has to travel from the tray icon to the popup.
pub const POPUP_HIDE_GRACE_MS: u64 = 350;

/// Whether the popup is pinned, and where the cursor is.
#[derive(Debug, Clone, Copy, PartialEq, Eq, Structural)]
pub struct HoverState {
    pub pinned: bool,
    pub over_tray: bool,
    pub over_popup: bool,
}

/// What happens to the popup.
#[derive(Debug, Clone, Copy, PartialEq, Eq, Structural)]
pub enum PopupEvent {
    TrayEnter,
    TrayLeave,
    TrayClick,
    PopupHover { inside: bool },
    SetPinned { pinned: bool },
    Dismiss,
    FocusLost,
    GraceOver,
}

/// What is done with the popup.
#[derive(Debug, Clone, Copy, PartialEq, Eq, Structural)]
pub enum PopupAction {
    Nothing,
    Show,
    ShowAndFocus,
    Hide,
    /// Wait for the grace period, and then see whether to hide.
    HideAfterGrace,
}

impl Default for HoverState {
    fn default() -> (r: Self)
        ensures
            r == (HoverState { pinned: false, over_tray: false, over_popup: false }),
    {
        HoverState { pinned: false, over_tray: false, over_popup: false }
    }
}

impl HoverState {
    /// The state once the popup is hidden.
    pub open spec fn hidden(self) -> HoverState {
        HoverState { pinned: false, over_tray: self.over_tray, over_popup: false }
    }

    /// Whether nothing holds the popup open.
    pub open spec fn idle(self) -> bool {
        !self.pinned && !self.over_tray && !self.over_popup
    }

    /// The state after an event, and what is done.
    pub open spec fn after(self, event: PopupEvent) -> (HoverState, PopupAction) {
        match event {
            PopupEvent::TrayEnter => (HoverState { over_tray: true, ..self }, PopupAction::Show),
            PopupEvent::TrayLeave => (
                HoverState { over_tray: false, ..self },
                PopupAction::HideAfterGrace,
            ),
            PopupEvent::TrayClick => if self.pinned {
                (self.hidden(), PopupAction::Hide)
            } else {
                (HoverState { pinned: true, ..self }, PopupAction::ShowAndFocus)
            },
            PopupEvent::PopupHover { inside } => (
                HoverState { over_popup: inside, ..self },
                if inside {
                    PopupAction::Nothing
                } else {
                    PopupAction::HideAfterGrace
                },
            ),
            PopupEvent::SetPinned { pinned } => (
                HoverState { pinned, ..self },
                if pinned {
                    PopupAction::Nothing
                } else {
                    PopupAction::HideAfterGrace
                },
            ),
            PopupEvent::Dismiss => (self.hidden(), PopupAction::Hide),
            PopupEvent::FocusLost => if self.pinned && !self.over_tray {
                (self.hidden(), PopupAction::Hide)
            } else {
                (self, PopupAction::Nothing)
            },
            PopupEvent::GraceOver => if self.idle() {
                (self.hidden(), PopupAction::Hide)
            } else {
                (self, PopupAction::Nothing)
            },
        }
    }

    /// The only way to hide the popup: it is no longer pinned, and the cursor is not over it.
    pub fn force_hide_popup(&mut self) -> (r: PopupAction)
        ensures
            *final(self) == old(self).hidden(),
            r == PopupAction::Hide,
    {
        self.over_popup = false;
        self.pinned = false;
        PopupAction::Hide
    }

    /// What is done once the grace period is over.
    pub fn maybe_hide_popup(&mut self) -> (r: PopupAction)
        ensures
            (*final(self), r) == old(self).after(PopupEvent::GraceOver),
    {
        if !self.pinned && !self.over_tray && !self.over_popup {
            self.force_hide_popup()
        } else {
            PopupAction::Nothing
        }
    }

    /// The frontend asks for the popup to go.
    pub fn dismiss_popup(&mut self) -> (r: PopupAction)
        ensures
            (*final(self), r) == old(self).after(PopupEvent::Dismiss),
    {
        self.pinned = false;
        self.force_hide_popup()
    }

    /// The cursor enters or leaves the popup.
    pub fn popup_hover(&mut self, inside: bool) -> (r: PopupAction)
        ensures
            (*final(self), r) == old(self).after(PopupEvent::PopupHover { inside }),
    {
        self.over_popup = inside;
        if inside {
            PopupAction::Nothing
        } else {
            PopupAction::HideAfterGrace
        }
    }

    /// The frontend pins the popup or lets it go.
    pub fn set_pinned(&mut self, pinned: bool) -> (r: PopupAction)
        ensures
            (*final(self), r) == old(self).after(PopupEvent::SetPinned { pinned }),
    {
        self.pinned = pinned;
        if pinned {
            PopupAction::Nothing
        } else {
            PopupAction::HideAfterGrace
        }
    }

    /// The left button is released over the tray icon: the popup is pinned, or let go.
    pub fn tray_click(&mut self) -> (r: PopupAction)
        ensures
            (*final(self), r) == old(self).after(PopupEvent::TrayClick),
    {
        self.pinned = !self.pinned;
        if self.pinned {
            PopupAction::ShowAndFocus
        } else {
            self.force_hide_popup()
        }
    }

    /// The popup loses the focus. While the cursor is over the tray icon, the click that took the
    /// focus decides instead.
    pub fn focus_lost(&mut self) -> (r: PopupAction)
        ensures
            (*final(self), r) == old(self).after(PopupEvent::FocusLost),
    {
        if self.pinned && !self.over_tray {
            self.force_hide_popup()
        } else {
            PopupAction::Nothing
        }
    }

    /// Takes an event.
    pub fn handle(&mut self, event: PopupEvent) -> (r: PopupAction)
        ensures
            (*final(self), r) == old(self).after(event),
    {
        match event {
            PopupEvent::TrayEnter => {
                self.over_tray = true;
                PopupAction::Show
            },
            PopupEvent::TrayLeave => {
                self.over_tray = false;
                PopupAction::HideAfterGrace
            },
            PopupEvent::TrayClick => self.tray_click(),
            PopupEvent::PopupHover { inside } => self.popup_hover(inside),
            PopupEvent::SetPinned { pinned } => self.set_pinned(pinned),
            PopupEvent::Dismiss => self.dismiss_popup(),
            PopupEvent::FocusLost => self.focus_lost(),
            PopupEvent::GraceOver => self.maybe_hide_popup(),
        }
    }
}

/// Whether an event asks for the popup to go, and does not only end a wait.
pub open spec fn asks_to_hide(event: PopupEvent) -> bool {
    event is TrayClick || event is Dismiss || event is FocusLost
}

/// The popup is never hidden by the end of a grace period while it is pinned or the cursor is over
/// it or the tray icon.
pub proof fn law_grace_hides_only_an_idle_popup(state: HoverState, event: PopupEvent)
    requires
        state.after(event).1 == PopupAction::Hide,
    ensures
        asks_to_hide(event) || (event is GraceOver && state.idle()),
        event is TrayClick || event is FocusLost ==> state.pinned,
{
}

/// Once hidden, the popup is not pinned and the cursor does not count as over it, so that a later
/// end of a grace period hides nothing that was shown and held open since.
pub proof fn law_hiding_clears_the_state(state: HoverState, event: PopupEvent)
    requires
        state.after(event).1 == PopupAction::Hide,
    ensures
        !state.after(event).0.pinned,
        !state.after(event).0.over_popup,
        state.after(event).0.over_tray == state.over_tray,
{
}

/// Two clicks on the tray icon pin the popup and let it go again.
pub proof fn law_second_click_lets_go(state: HoverState)
    requires
        !state.pinned,
    ensures
        state.after(PopupEvent::TrayClick).1 == PopupAction::ShowAndFocus,
        state.after(PopupEvent::TrayClick).0.after(PopupEvent::TrayClick).1 == PopupAction::Hide,
        state.after(PopupEvent::TrayClick).0.after(PopupEvent::TrayClick).0 == state.hidden(),
{
}

/// A cursor that reaches the popup within the grace period keeps it open.
pub proof fn law_cursor_can_travel_to_the_popup(state: HoverState)
    ensures
        ({
            let left = state.after(PopupEvent::TrayLeave);
            let inside = left.0.after(PopupEvent::PopupHover { inside: true });
            &&& left.1 == PopupAction::HideAfterGrace
            &&& inside.0.after(PopupEvent::GraceOver).1 == PopupAction::Nothing
        }),
{
}

/// What an item of the tray menu does.
#[derive(Debug, Clone, Copy, PartialEq, Eq, Structural)]
pub enum MenuAction {
    Refresh,
    Settings,
    ToggleAutostart,
    Quit,
    Nothing,
}

/// What the item of the tray menu with some id does.
pub open spec fn action_of(id: Seq<char>) -> MenuAction {
    if id == "refresh"@ {
        MenuAction::Refresh
    } else if id == "settings"@ {
        MenuAction::Settings
    } else if id == "autostart"@ {
        MenuAction::ToggleAutostart
    } else if id == "quit"@ {
        MenuAction::Quit
    } else {
        MenuAction::Nothing
    }
}

/// What the item of the tray menu with some id does.
pub fn menu_action(id: &str) -> (r: MenuAction)
    ensures
        r == action_of(id@),
{
    if same_text(id, "refresh") {
        MenuAction::Refresh
    } else if same_text(id, "settings") {
        MenuAction::Settings
    } else if same_text(id, "autostart") {
        MenuAction::ToggleAutostart
    } else if same_text(id, "quit") {
        MenuAction::Quit
    } else {
        MenuAction::Nothing
    }
}

/// The popup as it is seen.
pub ghost struct PopupWindow {
    pub visible: bool,
    pub focused: bool,
}

/// The popup after an action; after a wait it is as it was.
pub open spec fn after_action(w: PopupWindow, action: PopupAction) -> PopupWindow {
    match action {
        PopupAction::Show => PopupWindow { visible: true, ..w },
        PopupAction::ShowAndFocus => PopupWindow { visible: true, focused: true },
        PopupAction::Hide => PopupWindow { visible: false, focused: false },
        PopupAction::Nothing => w,
        PopupAction::HideAfterGrace => w,
    }
}

/// What the events of the tray icon and of the popup do, in every state. A click on the tray icon
/// negates the pin; the popup is then shown and focused if it is pinned, and hidden if not. A popup
/// that loses the focus is hidden and let go exactly if it was pinned and the cursor is not over the
/// tray icon, and otherwise stays as it is. Entering and leaving the tray icon is noted, and entering
/// it shows the popup.
pub proof fn law_events_of_tray_and_popup(state: HoverState, w: PopupWindow)
    ensures
        ({
            let (next, action) = state.after(PopupEvent::TrayClick);
            &&& next.pinned == !state.pinned
            &&& next.pinned ==> after_action(w, action).visible && after_action(w, action).focused
            &&& !next.pinned ==> !after_action(w, action).visible
        }),
        ({
            let (next, action) = state.after(PopupEvent::FocusLost);
            let gone = state.pinned && !state.over_tray;
            &&& gone ==> !after_action(w, action).visible && !next.pinned
            &&& !gone ==> after_action(w, action) == w && next == state
        }),
        state.after(PopupEvent::TrayEnter).0.over_tray,
        after_action(w, state.after(PopupEvent::TrayEnter).1).visible,
        !state.after(PopupEvent::TrayLeave).0.over_tray,
        after_action(w, state.after(PopupEvent::TrayLeave).1) == w,
{
}

/// What happens to the settings window.
#[derive(Debug, Clone, Copy, PartialEq, Eq, Structural)]
pub enum SettingsEvent {
    CloseRequested,
    Other,
}

/// What is done with the settings window: nothing, or it is kept from closing and hidden instead.
#[derive(Debug, Clone, Copy, PartialEq, Eq, Structural)]
pub enum SettingsAction {
    Nothing,
    HideInstead,
}

/// What is done with the settings window: a request to close it hides it.
pub fn settings_event(event: SettingsEvent) -> (r: SettingsAction)
    ensures
        r == match event {
            SettingsEvent::CloseRequested => SettingsAction::HideInstead,
            SettingsEvent::Other => SettingsAction::Nothing,
        },
{
    match event {
        SettingsEvent::CloseRequested => SettingsAction::HideInstead,
        SettingsEvent::Other => SettingsAction::Nothing,
    }
}

/// Whether the program starts at login, by what could be found out; what could not be found out
/// counts as no.
pub open spec fn counts_as_enabled(enabled: Option<bool>) -> bool {
    enabled == Some(true)
}

/// Whether the program starts at login; what cannot be found out counts as no.
pub fn autostart_state(enabled: Option<bool>) -> (r: bool)
    ensures
        r == counts_as_enabled(enabled),
{
    match enabled {
        Some(b) => b,
        None => false,
    }
}

/// What is done to whether the program starts at login.
#[derive(Debug, Clone, Copy, PartialEq, Eq, Structural)]
pub enum AutostartChange {
    Enable,
    Disable,
}

/// What the menu item does, by whether the program starts at login now.
pub open spec fn change_of(enabled: Option<bool>) -> AutostartChange {
    if counts_as_enabled(enabled) {
        AutostartChange::Disable
    } else {
        AutostartChange::Enable
    }
}

/// What the menu item does, by whether the program starts at login now.
pub fn autostart_change(enabled: Option<bool>) -> (r: AutostartChange)
    ensures
        r == change_of(enabled),
{
    if autostart_state(enabled) {
        AutostartChange::Disable
    } else {
        AutostartChange::Enable
    }
}

/// The menu item toggles whether the program starts at login where the change succeeds, and in any
/// case its checkbox, which is set to the state that is found afterwards, shows the actual state.
pub proof fn law_checkbox_shows_the_state(before: bool, succeeded: bool, after: bool)
    requires
        after == (if succeeded {
            change_of(Some(before)) == AutostartChange::Enable
        } else {
            before
        }),
    ensures
        counts_as_enabled(Some(after)) == after,
        succeeded ==> after == !before,
{
}

/// What an event leaves as it is: the pin is moved by clicks, by the frontend and by hiding alone, the
/// cursor over the tray icon by the tray icon's events alone, and the cursor over the popup by its own
/// events and by hiding.
pub proof fn law_events_move_what_they_are_about(state: HoverState, event: PopupEvent)
    ensures
        ({
            let (next, action) = state.after(event);
            &&& event is TrayEnter || event is TrayLeave || next.over_tray == state.over_tray
            &&& event is PopupHover || action == PopupAction::Hide || next.over_popup
                == state.over_popup
            &&& event is TrayClick || event is SetPinned || action == PopupAction::Hide
                || next.pinned == state.pinned
            &&& event matches PopupEvent::PopupHover { inside } ==> next.over_popup == inside && (
            inside <==> action == PopupAction::Nothing) && (!inside <==> action
                == PopupAction::HideAfterGrace)
            &&& event matches PopupEvent::SetPinned { pinned } ==> next.pinned == pinned && (pinned
                <==> action == PopupAction::Nothing) && (!pinned <==> action
                == PopupAction::HideAfterGrace)
            &&& event is Dismiss ==> action == PopupAction::Hide
            &&& event is TrayEnter ==> action == PopupAction::Show
            &&& event is TrayLeave ==> action == PopupAction::HideAfterGrace
            &&& event is GraceOver ==> (action == PopupAction::Hide <==> !state.pinned
                && !state.over_tray && !state.over_popup)
            &&& event is GraceOver ==> action == PopupAction::Hide || action == PopupAction::Nothing
            &&& action == PopupAction::Nothing && event is GraceOver ==> next == state
        }),
{
}

/// Each item of the menu has its own id, and no other text is one.
pub proof fn law_menu_items_by_id(id: Seq<char>)
    ensures
        id == "refresh"@ <==> action_of(id) == MenuAction::Refresh,
        id == "settings"@ <==> action_of(id) == MenuAction::Settings,
        id == "autostart"@ <==> action_of(id) == MenuAction::ToggleAutostart,
        id == "quit"@ <==> action_of(id) == MenuAction::Quit,
{
    reveal_strlit("refresh");
    reveal_strlit("settings");
    reveal_strlit("autostart");
    reveal_strlit("quit");
    assert("refresh"@.len() == 7 && "settings"@.len() == 8 && "autostart"@.len() == 9
        && "quit"@.len() == 4);
}

/// Only a state that was found out to be on counts as on, and the menu item turns it off; everything
/// else it turns on.
pub proof fn law_unknown_counts_as_off(enabled: Option<bool>)
    ensures
        counts_as_enabled(enabled) <==> enabled is Some && enabled->0,
        change_of(enabled) == AutostartChange::Disable <==> enabled is Some && enabled->0,
{
}

/// The cursor has a little more than a third of a second to reach the popup.
pub proof fn law_grace_period()
    ensures
        3 * POPUP_HIDE_GRACE_MS == 1_050,
{
}

} // verus!
