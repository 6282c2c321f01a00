use gtdtxt::gate::{Event, Finalize, Gate, Outcome};

#[test]
fn interrupt_first_wins() {
    let mut g = Gate::new();
    assert_eq!(g.outcome(), None);
    assert_eq!(
        g.decide(Event::InterruptRequested),
        Some(Finalize { outcome: Outcome::Interrupted, restore_cursor: true, sound_alarm: false })
    );
    assert_eq!(g.decide(Event::EngineFinished), None);
    assert_eq!(g.decide(Event::InterruptRequested), None);
    assert_eq!(g.outcome(), Some(Outcome::Interrupted));
}

#[test]
fn completion_first_wins() {
    let mut g = Gate::new();
    assert_eq!(
        g.decide(Event::EngineFinished),
        Some(Finalize {
            outcome: Outcome::CompletedNormally,
            restore_cursor: true,
            sound_alarm: true
        })
    );
    assert_eq!(g.decide(Event::InterruptRequested), None);
    assert_eq!(g.outcome(), Some(Outcome::CompletedNormally));
}

#[test]
fn cursor_restored_once() {
    let mut g = Gate::new();
    let events = [
        Event::InterruptRequested,
        Event::InterruptRequested,
        Event::EngineFinished,
    ];
    let mut restores = 0;
    let mut alarms = 0;
    for ev in events {
        if let Some(f) = g.decide(ev) {
            if f.restore_cursor {
                restores += 1;
            }
            if f.sound_alarm {
                alarms += 1;
            }
        }
    }
    assert_eq!(restores, 1);
    assert_eq!(alarms, 0);
}
