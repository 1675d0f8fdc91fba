use localgpt_md::smoke::{Smoke, SmokeExit, SmokeFrame, TIMEOUT, WARM_UP};

#[test]
fn captures_once_after_warm_up_then_exits() {
    let mut smoke = Smoke::new();
    smoke.target_ready();
    for _ in 1..WARM_UP {
        assert_eq!(smoke.tick(), SmokeFrame { capture: false, exit: None });
    }
    assert_eq!(smoke.tick(), SmokeFrame { capture: true, exit: None });
    assert_eq!(smoke.frame, WARM_UP);
    smoke.captured();
    assert_eq!(smoke.tick(), SmokeFrame { capture: false, exit: Some(SmokeExit::Success) });
}

#[test]
fn no_capture_without_a_target_and_gives_up_after_the_timeout() {
    let mut smoke = Smoke::new();
    for _ in 0..TIMEOUT {
        let f = smoke.tick();
        assert!(!f.capture);
        assert_eq!(f.exit, None);
    }
    assert_eq!(smoke.tick().exit, Some(SmokeExit::Error));
    assert_eq!(smoke.frame, TIMEOUT + 1);
}
