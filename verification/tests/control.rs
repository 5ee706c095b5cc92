use m3d::control::{Controls, Event, Key, KeyState, Reaction, Step};

fn press(k: Key) -> Event {
    Event::Keyboard(KeyState::Pressed, k)
}

fn release(k: Key) -> Event {
    Event::Keyboard(KeyState::Released, k)
}

#[test]
fn quit_on_escape_close_or_no_player() {
    let mut c = Controls::new();
    assert_eq!(c.react(press(Key::Escape), true), Reaction::Quit);
    assert_eq!(c.react(Event::Closed, true), Reaction::Quit);
    assert_eq!(c.react(press(Key::W), false), Reaction::Quit);
    assert_eq!(c, Controls::new());
    assert_eq!(c.react(release(Key::Escape), true), Reaction::Continue);
}

#[test]
fn spins_follow_keys() {
    let mut c = Controls::new();
    c.react(press(Key::W), true);
    assert_eq!(c.spin_ver, 1);
    c.react(press(Key::S), true);
    assert_eq!(c.spin_ver, -1);
    c.react(release(Key::W), true);
    assert_eq!(c.spin_ver, 0);
    c.react(press(Key::A), true);
    assert_eq!(c.spin_hor, -1);
    c.react(press(Key::D), true);
    assert_eq!(c.spin_hor, 1);
    c.react(release(Key::A), true);
    assert_eq!(c.spin_hor, 0);
}

#[test]
fn pause_toggles_and_clears_the_step() {
    let mut c = Controls::new();
    assert_eq!(c.react(press(Key::P), true), Reaction::Pause);
    assert!(c.is_paused);
    assert_eq!(c.react(press(Key::Period), true), Reaction::Continue);
    assert_eq!(c.tick, Some(1));
    assert_eq!(c.react(press(Key::Comma), true), Reaction::Continue);
    assert_eq!(c.tick, Some(-1));
    assert_eq!(c.react(press(Key::P), true), Reaction::Resume);
    assert!(!c.is_paused);
    assert_eq!(c.tick, None);
}

#[test]
fn other_answers() {
    let mut c = Controls::new();
    assert_eq!(c.react(press(Key::L), true), Reaction::ReloadRender);
    assert_eq!(c.react(press(Key::R), true), Reaction::ResetPlayer);
    assert_eq!(c.react(press(Key::Other), true), Reaction::Continue);
    assert_eq!(c.react(Event::Other, true), Reaction::Continue);
    assert_eq!(c, Controls::new());
}

#[test]
fn update_steps() {
    let mut c = Controls::new();
    c.react(press(Key::S), true);
    assert_eq!(c.update(), Step::Running { motor: -1 });
    c.react(press(Key::P), true);
    c.react(press(Key::Period), true);
    assert_eq!(c.update(), Step::Paused { tick: Some(1) });
    assert_eq!(c.update(), Step::Paused { tick: None });
}
