use lucy_tetris_rs::menu::{menu_step, next_ai_mode, MenuKeys, MenuState};

fn keys() -> MenuKeys {
    MenuKeys { up: false, down: false, left: false, right: false, a: false, enter: false }
}

fn menu() -> MenuState {
    MenuState { selection: 0, width: 10, height: 20, ai_mode: 0 }
}

#[test]
fn arrows_wrap_over_four_items() {
    let (m, start) = menu_step(menu(), MenuKeys { up: true, ..keys() });
    assert_eq!(m.selection, 3);
    assert!(!start);
    let (m, _) = menu_step(m, MenuKeys { down: true, ..keys() });
    assert_eq!(m.selection, 0);
}

#[test]
fn board_size_is_clamped() {
    let mut m = MenuState { width: 6, ..menu() };
    for _ in 0..3 {
        m = menu_step(m, MenuKeys { left: true, ..keys() }).0;
    }
    assert_eq!(m.width, 5);
    m.width = 29;
    for _ in 0..3 {
        m = menu_step(m, MenuKeys { right: true, ..keys() }).0;
    }
    assert_eq!(m.width, 30);
    m.selection = 1;
    m.height = 11;
    for _ in 0..3 {
        m = menu_step(m, MenuKeys { left: true, ..keys() }).0;
    }
    assert_eq!(m.height, 10);
    m.height = 39;
    for _ in 0..3 {
        m = menu_step(m, MenuKeys { right: true, ..keys() }).0;
    }
    assert_eq!(m.height, 40);
    assert_eq!(m.width, 30);
}

#[test]
fn arrows_apply_before_the_size_keys() {
    // up from item 1 highlights item 0, whose width the same frame's left key shrinks
    let m = MenuState { selection: 1, ..menu() };
    let (m, _) = menu_step(m, MenuKeys { up: true, left: true, ..keys() });
    assert_eq!((m.selection, m.width, m.height), (0, 9, 20));
}

#[test]
fn a_cycles_the_ai_mode() {
    let mut m = menu();
    for expected in [1, 2, 3, 0] {
        m = menu_step(m, MenuKeys { a: true, ..keys() }).0;
        assert_eq!(m.ai_mode, expected);
    }
    assert_eq!(next_ai_mode(3), 0);
}

#[test]
fn enter_starts_only_on_the_last_item() {
    let (m, start) = menu_step(menu(), MenuKeys { enter: true, ..keys() });
    assert_eq!(m.selection, 1);
    assert!(!start);
    let m3 = MenuState { selection: 3, ..menu() };
    let (m, start) = menu_step(m3, MenuKeys { enter: true, ..keys() });
    assert!(start);
    assert_eq!(m, m3);
}
