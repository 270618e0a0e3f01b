//! What the keys do.

use vstd::prelude::*;

verus! {

/// The number of tabs.
pub const TAB_COUNT: usize = 6;

#[derive(Clone, Copy, PartialEq, Eq, Structural, Debug)]
pub enum Key {
    Char(char),
    Esc,
    Left,
    Right,
    Other,
}

/// A key event: the key, whether the control key was held, and whether the key
/// went down.
#[derive(Clone, Copy, PartialEq, Eq, Structural, Debug)]
pub struct KeyEvent {
    pub key: Key,
    pub ctrl: bool,
    pub press: bool,
}

/// What a key asks for.
#[derive(Clone, Copy, PartialEq, Eq, Structural, Debug)]
pub enum Action {
    Quit,
    /// Check for updates.
    Refresh,
    /// Show a tab.
    Show(usize),
}

/// The tab to the left; the first tab has none.
pub open spec fn tab_left(active: usize) -> usize {
    if active == 0 {
        0
    } else {
        (active - 1) as usize
    }
}

/// The tab to the right; the last tab has none.
pub open spec fn tab_right(active: usize) -> usize {
    if active < TAB_COUNT - 1 {
        (active + 1) as usize
    } else {
        (TAB_COUNT - 1) as usize
    }
}

/// What a key event asks for while a tab is shown.
pub open spec fn action(active: usize, event: KeyEvent) -> Action {
    if !event.press {
        Action::Show(active)
    } else {
        match event.key {
            Key::Esc => Action::Quit,
            Key::Left => Action::Show(tab_left(active)),
            Key::Right => Action::Show(tab_right(active)),
            Key::Other => Action::Show(active),
            Key::Char(c) => if c == 'q' || (c == 'c' && event.ctrl) {
                Action::Quit
            } else if c == 'r' {
                Action::Refresh
            } else if c == 'h' {
                Action::Show(tab_left(active))
            } else if c == 'l' {
                Action::Show(tab_right(active))
            } else if '1' <= c && c <= '6' {
                Action::Show((c as u32 - '1' as u32) as usize)
            } else {
                Action::Show(active)
            },
        }
    }
}

fn go_left(active: usize) -> (r: usize)
    ensures
        r == tab_left(active),
{
    active.saturating_sub(1)
}

fn go_right(active: usize) -> (r: usize)
    ensures
        r == tab_right(active),
{
    if active < TAB_COUNT - 1 {
        active + 1
    } else {
        TAB_COUNT - 1
    }
}

/// What the program is to do about a key event.
pub fn on_key(active: usize, event: KeyEvent) -> (r: Action)
    ensures
        r == action(active, event),
{
    if !event.press {
        return Action::Show(active);
    }
    match event.key {
        Key::Esc => Action::Quit,
        Key::Left => Action::Show(go_left(active)),
        Key::Right => Action::Show(go_right(active)),
        Key::Other => Action::Show(active),
        Key::Char(c) => if c == 'q' || (c == 'c' && event.ctrl) {
            Action::Quit
        } else if c == 'r' {
            Action::Refresh
        } else if c == 'h' {
            Action::Show(go_left(active))
        } else if c == 'l' {
            Action::Show(go_right(active))
        } else if '1' <= c && c <= '6' {
            Action::Show((c as u32 - '1' as u32) as usize)
        } else {
            Action::Show(active)
        },
    }
}

/// The tab that is shown after a key event.
pub open spec fn tab_after(active: usize, event: KeyEvent) -> usize {
    match action(active, event) {
        Action::Show(tab) => tab,
        _ => active,
    }
}

/// The tab that is shown after a number of key events.
pub open spec fn tab_after_all(active: usize, events: Seq<KeyEvent>) -> usize
    decreases events.len(),
{
    if events.len() == 0 {
        active
    } else {
        tab_after(tab_after_all(active, events.drop_last()), events.last())
    }
}

/// Whatever keys are pressed, one of the tabs is shown.
pub proof fn law_a_tab_is_shown(active: usize, events: Seq<KeyEvent>)
    requires
        active < TAB_COUNT,
    ensures
        tab_after_all(active, events) < TAB_COUNT,
    decreases events.len(),
{
    if events.len() > 0 {
        law_a_tab_is_shown(active, events.drop_last());
    }
}

/// Left and right undo each other, but at the edges.
pub proof fn law_left_undoes_right(active: usize)
    requires
        active < TAB_COUNT,
    ensures
        active < TAB_COUNT - 1 ==> tab_left(tab_right(active)) == active,
        active > 0 ==> tab_right(tab_left(active)) == active,
{
}

/// A digit shows its tab from wherever it is pressed.
pub proof fn law_digit_selects(active: usize, n: usize, ctrl: bool)
    requires
        1 <= n <= TAB_COUNT,
    ensures
        action(
            active,
            KeyEvent { key: Key::Char((('0' as u32) + n) as char), ctrl, press: true },
        ) == Action::Show((n - 1) as usize),
{
}

/// The keys that quit, and no others do.
pub proof fn law_quit_keys(active: usize, event: KeyEvent)
    ensures
        action(active, event) is Quit <==> event.press && (event.key == Key::Esc || event.key
            == Key::Char('q') || (event.key == Key::Char('c') && event.ctrl)),
{
}

/// Left and `h` go to the tab before, right and `l` to the one behind, and at the edges
/// they stay.
pub proof fn law_arrow_keys(active: usize, ctrl: bool, key: Key)
    requires
        active < 6,
    ensures
        key == Key::Left || key == Key::Char('h') ==> ({
            let a = action(active, KeyEvent { key, ctrl, press: true });
            &&& active > 0 ==> (a matches Action::Show(t) && t + 1 == active)
            &&& active == 0 ==> a == Action::Show(0)
        }),
        key == Key::Right || key == Key::Char('l') ==> ({
            let a = action(active, KeyEvent { key, ctrl, press: true });
            &&& active < 5 ==> (a matches Action::Show(t) && t == active + 1)
            &&& active == 5 ==> a == Action::Show(5)
        }),
{
}

/// Only `r` asks for a check, and only when it goes down. Keys without a meaning, and
/// keys that go up, leave the tab as it is.
pub proof fn law_other_keys(active: usize, event: KeyEvent)
    ensures
        action(active, event) == Action::Refresh <==> event.press && event.key == Key::Char('r'),
        !event.press ==> action(active, event) == Action::Show(active),
        event.key == Key::Other ==> action(active, event) == Action::Show(active),
        event.key matches Key::Char(c) ==> c != 'q' && c != 'c' && c != 'r' && c != 'h' && c != 'l'
            && !('1' <= c && c <= '6') ==> action(active, event) == Action::Show(active),
{
}

} // verus!
