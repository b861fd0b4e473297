use vstd::prelude::*;

verus! {

/// The start menu: the highlighted item (0: board width, 1: board height, 2: AI mode,
/// 3: start), the board size chosen and the AI mode (0: off, 1: fast, 2: slow,
/// 3: manual with hints).
#[derive(Clone, Copy, Debug, PartialEq, Eq, Structural)]
pub struct MenuState {
    pub selection: u8,
    pub width: usize,
    pub height: usize,
    pub ai_mode: u8,
}

/// The keys pressed in one frame.
#[derive(Clone, Copy, Debug, PartialEq, Eq, Structural)]
pub struct MenuKeys {
    pub up: bool,
    pub down: bool,
    pub left: bool,
    pub right: bool,
    pub a: bool,
    pub enter: bool,
}

/// The AI mode after `m` in the cycle of four modes.
pub fn next_ai_mode(m: u8) -> (n: u8)
    requires
        m < 255,
    ensures
        n == (m + 1) % 4,
{
    (m + 1) % 4
}

/// The highlighted item after the up and down keys: up moves to the previous of the
/// four items and down to the next, wrapping around; up wins over down.
pub open spec fn selection_after_arrows(s: MenuState, k: MenuKeys) -> int {
    if k.up {
        (s.selection + 3) % 4
    } else if k.down {
        (s.selection + 1) % 4
    } else {
        s.selection as int
    }
}

/// The frame's arithmetic stays within `u8`.
pub open spec fn menu_ok(s: MenuState, k: MenuKeys) -> bool {
    let sel = selection_after_arrows(s, k);
    &&& k.up ==> s.selection + 3 <= 255
    &&& !k.up && k.down ==> s.selection + 1 <= 255
    &&& !k.left && !k.right && k.a ==> s.ai_mode < 255
    &&& !k.left && !k.right && !k.a && k.enter && sel != 3 ==> sel < 255
}

/// The menu after one frame, and whether the game starts: the arrows move the
/// highlight; then left and right shrink and grow the width (5 to 30) or the height
/// (10 to 40) when that item is highlighted, else `A` cycles the AI mode, else Enter
/// starts the game on the start item and moves the highlight on from any other.
pub open spec fn menu_next(s: MenuState, k: MenuKeys) -> (MenuState, bool) {
    let sel = selection_after_arrows(s, k);
    let moved = MenuState { selection: sel as u8, ..s };
    if k.left {
        (MenuState {
            width: if sel == 0 && s.width > 5 { (s.width - 1) as usize } else { s.width },
            height: if sel == 1 && s.height > 10 { (s.height - 1) as usize } else { s.height },
            ..moved
        }, false)
    } else if k.right {
        (MenuState {
            width: if sel == 0 && s.width < 30 { (s.width + 1) as usize } else { s.width },
            height: if sel == 1 && s.height < 40 { (s.height + 1) as usize } else { s.height },
            ..moved
        }, false)
    } else if k.a {
        (MenuState { ai_mode: ((s.ai_mode + 1) % 4) as u8, ..moved }, false)
    } else if k.enter {
        if sel == 3 {
            (moved, true)
        } else {
            (MenuState { selection: ((sel + 1) % 4) as u8, ..moved }, false)
        }
    } else {
        (moved, false)
    }
}

/// One frame of the start menu: the new menu state and whether the game starts.
pub fn menu_step(s: MenuState, k: MenuKeys) -> (r: (MenuState, bool))
    requires
        menu_ok(s, k),
    ensures
        r == menu_next(s, k),
{
    let mut m = s;
    if k.up {
        m.selection = (m.selection + 3) % 4;
    } else if k.down {
        m.selection = (m.selection + 1) % 4;
    }
    let mut start = false;
    if k.left {
        if m.selection == 0 && m.width > 5 {
            m.width -= 1;
        }
        if m.selection == 1 && m.height > 10 {
            m.height -= 1;
        }
    } else if k.right {
        if m.selection == 0 && m.width < 30 {
            m.width += 1;
        }
        if m.selection == 1 && m.height < 40 {
            m.height += 1;
        }
    } else if k.a {
        m.ai_mode = next_ai_mode(m.ai_mode);
    } else if k.enter {
        if m.selection == 3 {
            start = true;
        } else {
            m.selection = (m.selection + 1) % 4;
        }
    }
    (m, start)
}

/// `k` presses neither up nor down.
pub open spec fn no_arrows(k: MenuKeys) -> bool {
    !k.up && !k.down
}

/// The board-size keys move the highlighted size by exactly one step: with the width
/// item highlighted, Right grows the width by one while it is below 30 and Left shrinks
/// it by one while it is above 5; the height item works the same between 10 and 40;
/// the other size, the highlight and the AI mode stay, and the game does not start.
pub proof fn lemma_menu_size_steps(s: MenuState, k: MenuKeys)
    requires
        no_arrows(k),
        k.left || k.right,
    ensures
        ({
            let (n, start) = menu_next(s, k);
            &&& !start
            &&& n.selection == s.selection
            &&& n.ai_mode == s.ai_mode
            &&& s.selection == 0 && k.left && s.width > 5 ==> n.width == s.width - 1
            &&& s.selection == 0 && k.left && s.width <= 5 ==> n.width == s.width
            &&& s.selection == 0 && !k.left && s.width < 30 ==> n.width == s.width + 1
            &&& s.selection == 0 && !k.left && s.width >= 30 ==> n.width == s.width
            &&& s.selection == 1 && k.left && s.height > 10 ==> n.height == s.height - 1
            &&& s.selection == 1 && k.left && s.height <= 10 ==> n.height == s.height
            &&& s.selection == 1 && !k.left && s.height < 40 ==> n.height == s.height + 1
            &&& s.selection == 1 && !k.left && s.height >= 40 ==> n.height == s.height
            &&& s.selection != 0 ==> n.width == s.width
            &&& s.selection != 1 ==> n.height == s.height
        }),
{
}

/// A board size inside the menu's range stays inside it, whatever keys are pressed.
pub proof fn lemma_menu_size_in_range(s: MenuState, k: MenuKeys)
    requires
        5 <= s.width <= 30,
        10 <= s.height <= 40,
    ensures
        5 <= menu_next(s, k).0.width <= 30,
        10 <= menu_next(s, k).0.height <= 40,
{
}

/// Up then down (or down then up) comes back to the highlighted item, and four presses
/// of either walk once round the four items.
pub proof fn lemma_menu_arrows_cycle(s: MenuState)
    requires
        s.selection < 4,
    ensures
        ({
            let up = MenuKeys { up: true, down: false, left: false, right: false, a: false, enter: false };
            let down = MenuKeys { up: false, down: true, left: false, right: false, a: false, enter: false };
            let u1 = menu_next(s, up).0;
            let d1 = menu_next(s, down).0;
            &&& menu_next(u1, down).0 == s
            &&& menu_next(d1, up).0 == s
            &&& u1.selection != s.selection
            &&& menu_next(menu_next(menu_next(u1, up).0, up).0, up).0 == s
        }),
{
}

/// Four presses of `A` bring the AI mode back, passing through all four modes.
pub proof fn lemma_ai_mode_cycle(s: MenuState)
    requires
        s.ai_mode < 4,
    ensures
        ({
            let a = MenuKeys { up: false, down: false, left: false, right: false, a: true, enter: false };
            let m1 = menu_next(s, a).0;
            let m2 = menu_next(m1, a).0;
            let m3 = menu_next(m2, a).0;
            let m4 = menu_next(m3, a).0;
            &&& m4 == s
            &&& m1.ai_mode != s.ai_mode && m2.ai_mode != s.ai_mode && m3.ai_mode != s.ai_mode
            &&& m1.ai_mode != m2.ai_mode && m2.ai_mode != m3.ai_mode && m1.ai_mode != m3.ai_mode
        }),
{
}

/// Enter starts the game exactly on the start item, leaving the menu as it is, and
/// otherwise moves the highlight to the next item.
pub proof fn lemma_menu_enter(s: MenuState)
    requires
        s.selection < 4,
    ensures
        ({
            let enter = MenuKeys { up: false, down: false, left: false, right: false, a: false, enter: true };
            let (n, start) = menu_next(s, enter);
            &&& start <==> s.selection == 3
            &&& start ==> n == s
            &&& !start ==> n == MenuState { selection: (s.selection + 1) as u8, ..s }
        }),
{
}

} // verus!
