use resumelog::watchers::{
    handle_key_event, initial_action, jack_edge, ButtonMap, HeldButtons, JackAction, Transport,
};

fn map() -> ButtonMap {
    ButtonMap {
        prev: 310,
        next: 311,
        seek_back_small: 546,
        seek_fwd_small: 547,
        seek_back_big: 545,
        seek_fwd_big: 544,
        menu: 316,
        small_step: 5,
        big_step: 30,
    }
}

#[test]
fn jack_edges_fire_only_on_change() {
    assert_eq!(jack_edge(None, true), (Some(true), Some(JackAction::Start)));
    assert_eq!(jack_edge(None, false), (Some(false), Some(JackAction::Stop)));
    assert_eq!(jack_edge(Some(true), true), (Some(true), None));
    assert_eq!(jack_edge(Some(false), false), (Some(false), None));
    assert_eq!(jack_edge(Some(true), false), (Some(false), Some(JackAction::Stop)));
    assert_eq!(jack_edge(Some(false), true), (Some(true), Some(JackAction::Start)));
}

#[test]
fn initial_start_needs_the_flag_and_a_plugged_jack() {
    assert_eq!(initial_action(true, Some(true)), Some(JackAction::Start));
    assert_eq!(initial_action(true, Some(false)), None);
    assert_eq!(initial_action(true, None), None);
    assert_eq!(initial_action(false, Some(true)), None);
}

#[test]
fn buttons_act_only_while_the_menu_key_is_held() {
    let m = map();
    let mut held = HeldButtons::new();
    // a press without the chord does nothing
    assert_eq!(handle_key_event(&mut held, &m, m.prev, 1), None);
    // hold the chord key, then press
    assert_eq!(handle_key_event(&mut held, &m, m.menu, 1), None);
    assert_eq!(handle_key_event(&mut held, &m, m.next, 1), Some(Transport::Next));
    assert_eq!(handle_key_event(&mut held, &m, m.prev, 2), Some(Transport::Prev));
    // release the chord key: nothing fires any more
    assert_eq!(handle_key_event(&mut held, &m, m.menu, 0), None);
    assert_eq!(handle_key_event(&mut held, &m, m.next, 2), None);
}

#[test]
fn seek_steps_carry_their_sign_and_size() {
    let m = map();
    let mut held = HeldButtons::new();
    handle_key_event(&mut held, &m, m.menu, 1);
    assert_eq!(
        handle_key_event(&mut held, &m, m.seek_back_small, 1),
        Some(Transport::SeekBy(-5))
    );
    assert_eq!(handle_key_event(&mut held, &m, m.seek_fwd_small, 1), Some(Transport::SeekBy(5)));
    assert_eq!(handle_key_event(&mut held, &m, m.seek_back_big, 1), Some(Transport::SeekBy(-30)));
    assert_eq!(handle_key_event(&mut held, &m, m.seek_fwd_big, 1), Some(Transport::SeekBy(30)));
}

#[test]
fn the_menu_key_itself_fires_nothing() {
    let m = map();
    let mut held = HeldButtons::new();
    assert_eq!(handle_key_event(&mut held, &m, m.menu, 1), None);
    assert_eq!(handle_key_event(&mut held, &m, m.menu, 2), None);
    assert_eq!(handle_key_event(&mut held, &m, m.menu, 0), None);
}

#[test]
fn held_set_tracks_presses_and_releases() {
    let mut held = HeldButtons::new();
    assert!(!held.contains(310));
    held.insert(310);
    held.insert(310);
    assert!(held.contains(310));
    held.remove(310);
    assert!(!held.contains(310));
    held.remove(310);
    assert!(!held.contains(310));
}
