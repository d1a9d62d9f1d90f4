use pop3::server::AdmissionGate;
use pop3::server::Backoff;
use pop3::server::ServerCtl;

#[test]
fn gate_admits_up_to_its_bound() {
    let mut g = AdmissionGate::new(2);
    assert_eq!(g.capacity(), 2);
    assert!(g.try_acquire());
    assert!(g.try_acquire());
    assert_eq!(g.active(), 2);
    assert!(!g.try_acquire());
    assert_eq!(g.active(), 2);
}

#[test]
fn gate_blocks_until_a_release() {
    let mut g = AdmissionGate::new(1);
    assert!(g.try_acquire());
    assert!(!g.try_acquire());
    g.release();
    assert!(g.try_acquire());
    assert_eq!(g.active(), 1);
}

#[test]
fn gate_with_zero_bound_admits_nobody() {
    let mut g = AdmissionGate::new(0);
    assert!(!g.try_acquire());
}

#[test]
fn shutdown_stops_admission_and_drains() {
    let mut c = ServerCtl::new();
    assert!(c.admit_allowed());
    c.on_spawn();
    c.on_spawn();
    c.on_spawn();
    assert_eq!(c.live(), 3);
    c.trigger_shutdown();
    assert!(!c.admit_allowed());
    assert!(!c.drained());
    c.on_handler_exit();
    c.on_handler_exit();
    assert!(!c.drained());
    assert!(!c.admit_allowed());
    c.on_handler_exit();
    assert!(c.drained());
    assert_eq!(c.live(), 0);
}

#[test]
fn fresh_control_is_not_drained() {
    let c = ServerCtl::new();
    assert!(!c.drained());
    assert_eq!(c.live(), 0);
}

#[test]
fn backoff_doubles_then_gives_up() {
    let mut b = Backoff::new();
    let mut delays = Vec::new();
    while let Some(d) = b.next_delay() {
        delays.push(d);
    }
    assert_eq!(delays, vec![1, 2, 4, 8, 16, 32, 64]);
    assert_eq!(b.next_delay(), None);
}

#[test]
fn backoff_reset_starts_over() {
    let mut b = Backoff::new();
    b.next_delay();
    b.next_delay();
    b.reset();
    assert_eq!(b.next_delay(), Some(1));
    assert_eq!(b.next_delay(), Some(2));
}
