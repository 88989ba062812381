use std::hash::Hasher;

use byr_pet::bupt::BuptAccount;
use byr_pet::net::{NetConfig, Wifi};
use byr_pet::store::{decode_config, encode_config, namespace_for, ConfigStore};

fn portal(u: &str, p: &str) -> NetConfig {
    NetConfig::BuptPortal(BuptAccount { username: u.to_string(), password: p.to_string() })
}

fn wifi(s: &str, p: &str) -> NetConfig {
    NetConfig::NormalWifi(Wifi { ssid: s.to_string(), password: p.to_string() })
}

#[test]
fn save_then_load_roundtrips() {
    let mut st = ConfigStore::new();
    st.save(portal("alice", "p@ss word"));
    match st.load() {
        Some(NetConfig::BuptPortal(a)) => {
            assert_eq!(a.username, "alice");
            assert_eq!(a.password, "p@ss word");
        }
        _ => panic!("expected the portal configuration back"),
    }
}

#[test]
fn save_overwrites_previous_value() {
    let mut st = ConfigStore::new();
    st.save(portal("alice", "x"));
    st.save(wifi("home", "hunter2"));
    match st.load() {
        Some(NetConfig::NormalWifi(w)) => {
            assert_eq!(w.ssid, "home");
            assert_eq!(w.password, "hunter2");
        }
        _ => panic!("expected the newer wireless profile"),
    }
}

#[test]
fn remove_makes_load_yield_nothing() {
    let mut st = ConfigStore::new();
    st.save(portal("alice", "x"));
    assert!(st.remove());
    assert!(st.load().is_none());
    assert!(!st.remove());
}

#[test]
fn named_keys_are_independent() {
    let mut st = ConfigStore::new();
    st.save_to(portal("a", "1"), "primary");
    st.save_to(wifi("guest", "2"), "backup");
    assert!(matches!(st.load_from("primary"), Some(NetConfig::BuptPortal(_))));
    assert!(matches!(st.load_from("backup"), Some(NetConfig::NormalWifi(_))));
    assert!(st.load_from("absent").is_none());
    assert!(st.load().is_none());
    assert!(st.remove_from("primary"));
    assert!(st.load_from("primary").is_none());
    assert!(matches!(st.load_from("backup"), Some(NetConfig::NormalWifi(_))));
}

#[test]
fn corrupt_blob_reads_as_absent() {
    let mut st = ConfigStore::new();
    let ns = namespace_for(&b"NetConfig".to_vec());
    st.set_blob(&ns, &b"__default".to_vec(), vec![0x09, 0x09, 0x09]);
    assert!(st.load().is_none());
}

#[test]
fn codec_roundtrips_and_rejects_garbage() {
    let cfg = wifi("eduroam", "s3cret");
    let blob = encode_config(&cfg);
    match decode_config(&blob) {
        Some(NetConfig::NormalWifi(w)) => {
            assert_eq!(w.ssid, "eduroam");
            assert_eq!(w.password, "s3cret");
        }
        _ => panic!("expected the profile back"),
    }
    assert!(decode_config(&vec![]).is_none());
    assert!(decode_config(&vec![2, 0, 0]).is_none());
    let mut truncated = encode_config(&cfg);
    truncated.pop();
    assert!(decode_config(&truncated).is_none());
    let mut padded = encode_config(&cfg);
    padded.push(0);
    assert!(decode_config(&padded).is_none());
}

#[test]
fn namespace_is_truncated_decimal_hash() {
    let name = b"NetConfig".to_vec();
    let ns = String::from_utf8(namespace_for(&name)).unwrap();
    let h = twox_hash::XxHash64::oneshot(0, &name);
    let d = h.to_string();
    let want = &d[..d.len().min(15)];
    assert_eq!(ns, want);
    let mut hasher = twox_hash::XxHash64::default();
    hasher.write(&name);
    assert_eq!(hasher.finish(), h);
}
