//! The main menu: which option is highlighted and what a key press chooses.

use vstd::prelude::*;
use crate::input::Key;

verus! {

/// The options of the main menu, top to bottom.
#[derive(Clone, Copy, Debug, PartialEq, Eq, Structural)]
pub enum MenuOption {
    NewGame,
    LoadGame,
    Settings,
    Quit,
}

/// The main menu: one highlight shared by keyboard and mouse.
#[derive(Clone, Copy, Debug, PartialEq, Eq, Structural)]
pub struct MainMenu {
    pub selected_option: Option<MenuOption>,
}

/// What the player chose in the menu.
#[derive(Clone, Copy, Debug, PartialEq, Eq, Structural)]
pub enum MenuAction {
    NewGame,
    LoadGame,
    Settings,
    Quit,
}

/// The option above `o`, wrapping from the top to the bottom.
pub open spec fn option_above(o: MenuOption) -> MenuOption {
    match o {
        MenuOption::NewGame => MenuOption::Quit,
        MenuOption::LoadGame => MenuOption::NewGame,
        MenuOption::Settings => MenuOption::LoadGame,
        MenuOption::Quit => MenuOption::Settings,
    }
}

/// The option below `o`, wrapping from the bottom to the top.
pub open spec fn option_below(o: MenuOption) -> MenuOption {
    match o {
        MenuOption::NewGame => MenuOption::LoadGame,
        MenuOption::LoadGame => MenuOption::Settings,
        MenuOption::Settings => MenuOption::Quit,
        MenuOption::Quit => MenuOption::NewGame,
    }
}

/// The action an option stands for.
pub open spec fn action_of(o: MenuOption) -> MenuAction {
    match o {
        MenuOption::NewGame => MenuAction::NewGame,
        MenuOption::LoadGame => MenuAction::LoadGame,
        MenuOption::Settings => MenuAction::Settings,
        MenuOption::Quit => MenuAction::Quit,
    }
}

/// The key moves the highlight up.
pub open spec fn is_up(k: Key) -> bool {
    k == Key::ArrowUp || k == Key::KeyW
}

/// The key moves the highlight down.
pub open spec fn is_down(k: Key) -> bool {
    k == Key::ArrowDown || k == Key::KeyS
}

/// The key confirms the highlighted option.
pub open spec fn is_confirm(k: Key) -> bool {
    k == Key::Enter || k == Key::Space
}

/// The highlight after a key press; with nothing highlighted the movement
/// starts from the first option.
pub open spec fn highlight_after(sel: Option<MenuOption>, k: Key) -> Option<MenuOption> {
    let start = match sel {
        Some(o) => o,
        None => MenuOption::NewGame,
    };
    if is_up(k) {
        Some(option_above(start))
    } else if is_down(k) {
        Some(option_below(start))
    } else {
        sel
    }
}

/// The action a key press chooses: the highlighted option on confirm, Quit
/// on Escape.
pub open spec fn action_for(sel: Option<MenuOption>, k: Key) -> Option<MenuAction> {
    if is_up(k) || is_down(k) {
        None
    } else if is_confirm(k) {
        match sel {
            Some(o) => Some(action_of(o)),
            None => None,
        }
    } else if k == Key::Escape {
        Some(MenuAction::Quit)
    } else {
        None
    }
}

impl From<MenuOption> for MenuAction {
    fn from(option: MenuOption) -> (r: MenuAction) {
        match option {
            MenuOption::NewGame => MenuAction::NewGame,
            MenuOption::LoadGame => MenuAction::LoadGame,
            MenuOption::Settings => MenuAction::Settings,
            MenuOption::Quit => MenuAction::Quit,
        }
    }
}

impl vstd::std_specs::convert::FromSpecImpl<MenuOption> for MenuAction {
    open spec fn obeys_from_spec() -> bool {
        true
    }

    open spec fn from_spec(option: MenuOption) -> MenuAction {
        action_of(option)
    }
}

impl MainMenu {
    /// A menu with nothing highlighted.
    pub fn new() -> (m: Self)
        ensures
            m.selected_option is None,
    {
        MainMenu { selected_option: None }
    }

    /// Move the highlight or choose an action with a key.
    pub fn handle_key(&mut self, key: Key) -> (r: Option<MenuAction>)
        ensures
            final(self).selected_option == highlight_after(old(self).selected_option, key),
            r == action_for(old(self).selected_option, key),
    {
        let start = match self.selected_option {
            Some(o) => o,
            None => MenuOption::NewGame,
        };
        if key == Key::ArrowUp || key == Key::KeyW {
            self.selected_option = Some(
                match start {
                    MenuOption::NewGame => MenuOption::Quit,
                    MenuOption::LoadGame => MenuOption::NewGame,
                    MenuOption::Settings => MenuOption::LoadGame,
                    MenuOption::Quit => MenuOption::Settings,
                },
            );
            None
        } else if key == Key::ArrowDown || key == Key::KeyS {
            self.selected_option = Some(
                match start {
                    MenuOption::NewGame => MenuOption::LoadGame,
                    MenuOption::LoadGame => MenuOption::Settings,
                    MenuOption::Settings => MenuOption::Quit,
                    MenuOption::Quit => MenuOption::NewGame,
                },
            );
            None
        } else if key == Key::Enter || key == Key::Space {
            match self.selected_option {
                Some(option) => Some(MenuAction::from(option)),
                None => None,
            }
        } else if key == Key::Escape {
            Some(MenuAction::Quit)
        } else {
            None
        }
    }

    /// The mouse moved: highlight the first button under it, `hits[i]`
    /// telling whether it lies on the button of option `i` (top to bottom);
    /// off every button nothing is highlighted.
    pub fn handle_hover(&mut self, hits: [bool; 4])
        ensures
            final(self).selected_option == first_hit(hits),
    {
        self.selected_option = if hits[0] {
            Some(MenuOption::NewGame)
        } else if hits[1] {
            Some(MenuOption::LoadGame)
        } else if hits[2] {
            Some(MenuOption::Settings)
        } else if hits[3] {
            Some(MenuOption::Quit)
        } else {
            None
        };
    }

    /// A click: the action of the first button under the mouse, if any. The
    /// highlight is left as it is.
    pub fn handle_click(&mut self, hits: [bool; 4]) -> (r: Option<MenuAction>)
        ensures
            *final(self) == *old(self),
            r == match first_hit(hits) {
                Some(o) => Some(action_of(o)),
                None => None,
            },
    {
        match self.option_hit(hits) {
            Some(o) => Some(MenuAction::from(o)),
            None => None,
        }
    }

    fn option_hit(&self, hits: [bool; 4]) -> (r: Option<MenuOption>)
        ensures
            r == first_hit(hits),
    {
        if hits[0] {
            Some(MenuOption::NewGame)
        } else if hits[1] {
            Some(MenuOption::LoadGame)
        } else if hits[2] {
            Some(MenuOption::Settings)
        } else if hits[3] {
            Some(MenuOption::Quit)
        } else {
            None
        }
    }
}

/// The option of the first button the mouse is on, top to bottom.
pub open spec fn first_hit(hits: [bool; 4]) -> Option<MenuOption> {
    if hits[0] {
        Some(MenuOption::NewGame)
    } else if hits[1] {
        Some(MenuOption::LoadGame)
    } else if hits[2] {
        Some(MenuOption::Settings)
    } else if hits[3] {
        Some(MenuOption::Quit)
    } else {
        None
    }
}

/// Keyboard and mouse share one highlight: after hovering, Enter chooses
/// what a click on the same spot chooses.
pub proof fn lemma_enter_after_hover_is_click(hits: [bool; 4])
    ensures
        action_for(first_hit(hits), Key::Enter) == match first_hit(hits) {
            Some(o) => Some(action_of(o)),
            None => None,
        },
{
}

/// Moving the highlight down and then up, or up and then down, comes back
/// to the option it started on.
pub proof fn lemma_up_down_inverse(o: MenuOption)
    ensures
        highlight_after(highlight_after(Some(o), Key::ArrowDown), Key::ArrowUp) == Some(o),
        highlight_after(highlight_after(Some(o), Key::ArrowUp), Key::ArrowDown) == Some(o),
{
}

/// Four moves in the same direction go round the whole menu.
pub proof fn lemma_four_moves_go_round(o: MenuOption)
    ensures
        option_below(option_below(option_below(option_below(o)))) == o,
        option_above(option_above(option_above(option_above(o)))) == o,
{
}

/// Moving always leaves some option highlighted.
pub proof fn lemma_moving_highlights(sel: Option<MenuOption>, k: Key)
    requires
        is_up(k) || is_down(k),
    ensures
        highlight_after(sel, k) is Some,
        action_for(sel, k) is None,
{
}

} // verus!
