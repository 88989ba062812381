use byr_pet::dns::{build_response, Ipv4};

fn ip() -> Ipv4 {
    Ipv4 { a: 192, b: 168, c: 71, d: 1 }
}

#[test]
fn short_packet_yields_no_response() {
    assert!(build_response(&vec![], ip()).is_none());
    assert!(build_response(&vec![0u8; 11], ip()).is_none());
}

#[test]
fn a_query_gets_answer_record() {
    let mut q = vec![0x12, 0x34, 0x01, 0x00, 0x00, 0x01, 0x00, 0x00, 0x00, 0x00, 0x00, 0x00];
    q.extend_from_slice(&[3, b'f', b'o', b'o', 0, 0x00, 0x01, 0x00, 0x01]);
    let r = build_response(&q, ip()).unwrap();
    assert_eq!(r.len(), q.len() + 16);
    assert_eq!(r[2], 0x01 | 0x80);
    assert_eq!(r[3], 0x80);
    assert_eq!(r[7], 1);
    for i in 0..q.len() {
        if i != 2 && i != 3 && i != 7 {
            assert_eq!(r[i], q[i]);
        }
    }
    let rec = &r[q.len()..];
    assert_eq!(
        rec,
        &[0xc0, 0x0c, 0x00, 0x01, 0x00, 0x01, 0x00, 0x00, 0x00, 0x0a, 0x00, 0x04, 192, 168, 71, 1]
    );
    assert_eq!(&rec[12..], &[192, 168, 71, 1]);
}

#[test]
fn non_a_query_echoes_with_empty_answer() {
    let mut q = vec![0u8; 12];
    q[7] = 9;
    q.extend_from_slice(&[3, b'f', b'o', b'o', 0, 0x00, 0x1c, 0x00, 0x01]);
    let r = build_response(&q, ip()).unwrap();
    assert_eq!(r.len(), q.len());
    assert_eq!(r[7], 0);
    for i in 0..q.len() {
        if i != 2 && i != 3 && i != 7 {
            assert_eq!(r[i], q[i]);
        }
    }
    assert_eq!(r[2], q[2] | 0x80);
    assert_eq!(r[3], q[3] | 0x80);
}

#[test]
fn exactly_twelve_bytes_ending_in_a_suffix() {
    let q = vec![0, 0, 0, 0, 0, 0, 0, 0, 0x00, 0x01, 0x00, 0x01];
    let r = build_response(&q, ip()).unwrap();
    assert_eq!(r[7], 1);
    assert_eq!(r.len(), 28);
}
