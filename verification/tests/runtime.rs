use osui::runtime::{Event, Key, Scheduler, TickStep};
use osui::widget::{button, Children, EventResponse};
use osui::Command;

#[test]
fn button_activation_flash_cycle() {
    // Dispatching Enter to an idle button schedules the clicked flash and
    // its revert; advancing the schedule runs the button's tick at indices
    // 0 (enter clicked, callback fires) and 1 (revert to idle, callback
    // fires again), after which nothing is pending.
    let mut b = button();
    b.children = Children::Text("go".to_string());
    assert!(!b.clicked);

    let (b, out) = b.event(&Event::Key(Key::Enter));
    assert!(!out.fired);
    assert!(!b.clicked);
    let steps = match out.response {
        EventResponse::Ticks(steps) => steps,
        _ => panic!("expected a tick schedule"),
    };
    assert_eq!(
        steps,
        vec![TickStep { state: 2, delay: 1 }, TickStep { state: 0, delay: 100 }]
    );

    let mut sched = Scheduler::new();
    assert_eq!(sched.current_delay(), None);
    sched.schedule(steps);
    assert_eq!(sched.current_delay(), Some(1));

    let mut callbacks = 0;
    let (index, state) = sched.advance().expect("first transition pending");
    assert_eq!((index, state), (0, 2));
    let (b, fired) = b.tick(index);
    assert!(b.clicked);
    if fired {
        callbacks += 1;
    }

    assert_eq!(sched.current_delay(), Some(100));
    let (index, state) = sched.advance().expect("second transition pending");
    assert_eq!((index, state), (1, 0));
    let (b, fired) = b.tick(index);
    assert!(!b.clicked);
    if fired {
        callbacks += 1;
    }

    assert_eq!(callbacks, 2);
    assert_eq!(sched.advance(), None);
    assert_eq!(sched.current_delay(), None);
}

#[test]
fn toggle_button_flips_on_activation() {
    let mut b = button();
    b.toggle = true;
    let (b, out) = b.event(&Event::Key(Key::Enter));
    assert!(out.fired);
    assert!(b.clicked);
    let (b, out) = b.event(&Event::Key(Key::Enter));
    assert!(out.fired);
    assert!(!b.clicked);
}

#[test]
fn unbound_keys_and_resizes_leave_a_button_alone() {
    let b = button();
    let (b, out) = b.event(&Event::Key(Key::Char('x')));
    assert!(!out.fired);
    assert!(matches!(out.response, EventResponse::Nothing));
    let (b, out) = b.event(&Event::Resize(80, 24));
    assert!(!out.fired);
    assert!(matches!(out.response, EventResponse::Nothing));
    assert!(!b.clicked);
}

#[test]
fn out_of_range_tick_indices_do_nothing() {
    let b = button();
    let (b, fired) = b.tick(5);
    assert!(!fired);
    assert!(!b.clicked);
}

#[test]
fn rescheduling_drops_what_was_pending() {
    let mut sched = Scheduler::new();
    sched.schedule(vec![TickStep { state: 2, delay: 1 }]);
    sched.schedule(vec![TickStep { state: 0, delay: 9 }]);
    assert_eq!(sched.current_delay(), Some(9));
    assert_eq!(sched.advance(), Some((0, 0)));
    assert_eq!(sched.advance(), None);
}

#[test]
fn commands_carry_their_payload() {
    let c = Command::GetElementById("root".to_string());
    match c {
        Command::GetElementById(id) => assert_eq!(id, "root"),
        _ => panic!("wrong variant"),
    }
    assert_eq!(Command::Exit, Command::Exit);
    assert_ne!(Command::Exit, Command::Render);
}
