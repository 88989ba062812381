use byr_pet::bupt::BuptAccount;
use byr_pet::net::{
    association_params, boot_plan, generate_random_mac, simulate_attempts, BootPlan, NetConfig,
    RetryState, RetryVerdict, Wifi, WifiAuthMethod,
};

fn portal() -> NetConfig {
    NetConfig::BuptPortal(BuptAccount { username: "a".to_string(), password: "b".to_string() })
}

fn wifi() -> NetConfig {
    NetConfig::NormalWifi(Wifi { ssid: "home".to_string(), password: "hunter2".to_string() })
}

#[test]
fn portal_config_associates_open() {
    let p = association_params(&portal());
    assert_eq!(p.auth, WifiAuthMethod::Open);
    assert_eq!(p.ssid, "BUPT-portal");
    assert_eq!(p.password, "");
}

#[test]
fn wifi_config_associates_wpa2() {
    let p = association_params(&wifi());
    assert_eq!(p.auth, WifiAuthMethod::Wpa2Personal);
    assert_eq!(p.ssid, "home");
    assert_eq!(p.password, "hunter2");
}

#[test]
fn boot_plans_follow_the_store() {
    assert!(matches!(boot_plan(None), BootPlan::Provision));
    match boot_plan(Some(portal())) {
        BootPlan::Associate { needs_login, .. } => assert!(needs_login),
        BootPlan::Provision => panic!("expected association"),
    }
    match boot_plan(Some(wifi())) {
        BootPlan::Associate { needs_login, .. } => assert!(!needs_login),
        BootPlan::Provision => panic!("expected association"),
    }
}

#[test]
fn retry_state_aborts_on_the_tenth_failure() {
    let mut st = RetryState::new();
    for _ in 0..9 {
        assert_eq!(st.on_failure(), RetryVerdict::RetryAfterPause);
    }
    assert_eq!(st.on_failure(), RetryVerdict::AbortAfterPause);
}

#[test]
fn success_on_tenth_attempt_takes_nine_pauses() {
    let mut outcomes = vec![false; 9];
    outcomes.push(true);
    let r = simulate_attempts(&outcomes);
    assert!(r.success);
    assert_eq!(r.attempts, 10);
    assert_eq!(r.pauses, 9);
}

#[test]
fn failing_all_ten_attempts_takes_ten_pauses() {
    let outcomes = vec![false; 10];
    let r = simulate_attempts(&outcomes);
    assert!(!r.success);
    assert_eq!(r.attempts, 10);
    assert_eq!(r.pauses, 10);
}

#[test]
fn early_success_pauses_little() {
    let mut outcomes = vec![true; 10];
    let r = simulate_attempts(&outcomes);
    assert!(r.success);
    assert_eq!(r.attempts, 1);
    assert_eq!(r.pauses, 0);
    outcomes[0] = false;
    let r2 = simulate_attempts(&outcomes);
    assert!(r2.success);
    assert_eq!(r2.attempts, 2);
    assert_eq!(r2.pauses, 1);
}

#[test]
fn random_mac_is_unicast_and_not_locally_reserved() {
    for _ in 0..32 {
        let mac = generate_random_mac();
        assert_eq!(mac[0] & 0x01, 0);
        assert_eq!(mac[0] & 0x02, 0);
    }
}

#[test]
fn wifi_masked_rendering_hides_the_password() {
    let w = Wifi { ssid: "home".to_string(), password: "hunter2".to_string() };
    let masked = w.masked();
    assert_eq!(masked, "Wifi { ssid: home, password: ******* }");
    assert!(!masked.contains("hunter2"));
}
