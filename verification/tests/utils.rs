use ngn::utils::{
    mac_addr_to_local_link_address, parse_mac_addr, retry_outcome, retry_step, slices_equal, to_eui64, to_mac_addr,
    MacAddr, RetryStep,
};

#[test]
fn six_bytes_make_an_eui48() {
    let mac = to_mac_addr(&[0xde, 0xad, 0xbe, 0xef, 0x00, 0x01]).unwrap();
    assert!(matches!(mac, MacAddr::V6([0xde, 0xad, 0xbe, 0xef, 0x00, 0x01])));
    assert!(!mac.is_v8());
}

#[test]
fn eight_bytes_make_an_eui64() {
    let mac = to_mac_addr(&[1, 2, 3, 4, 5, 6, 7, 8]).unwrap();
    assert!(matches!(mac, MacAddr::V8([1, 2, 3, 4, 5, 6, 7, 8])));
    assert!(mac.is_v8());
}

#[test]
fn other_lengths_make_no_address() {
    assert!(to_mac_addr(&[]).is_none());
    assert!(to_mac_addr(&[1, 2, 3, 4, 5]).is_none());
    assert!(to_mac_addr(&[1, 2, 3, 4, 5, 6, 7]).is_none());
    assert!(to_mac_addr(&[1, 2, 3, 4, 5, 6, 7, 8, 9]).is_none());
}

#[test]
fn same_tells_addresses_apart() {
    let a = MacAddr::V6([1, 2, 3, 4, 5, 6]);
    let b = MacAddr::V6([1, 2, 3, 4, 5, 7]);
    let c = MacAddr::V8([1, 2, 3, 4, 5, 6, 0, 0]);
    assert!(a.same(&a));
    assert!(!a.same(&b));
    assert!(!a.same(&c));
    assert!(c.same(&c));
}

#[test]
fn eui64_of_an_eui48_has_fffe_in_the_middle() {
    let mac = MacAddr::V6([0x00, 0x11, 0x22, 0x33, 0x44, 0x55]);
    assert_eq!(to_eui64(&mac), [0x00, 0x11, 0x22, 0xff, 0xfe, 0x33, 0x44, 0x55]);
}

#[test]
fn eui64_is_kept() {
    let mac = MacAddr::V8([1, 2, 3, 4, 5, 6, 7, 8]);
    assert_eq!(to_eui64(&mac), [1, 2, 3, 4, 5, 6, 7, 8]);
}

#[test]
fn link_local_address_of_an_eui48() {
    let mac = MacAddr::V6([0x00, 0x11, 0x22, 0x33, 0x44, 0x55]);
    assert_eq!(
        mac_addr_to_local_link_address(&mac),
        [0xfe, 0x80, 0, 0, 0, 0, 0, 0, 0x02, 0x11, 0x22, 0xff, 0xfe, 0x33, 0x44, 0x55]
    );
}

#[test]
fn link_local_address_flips_the_bit_back() {
    let mac = MacAddr::V6([0x02, 0, 0, 0, 0, 1]);
    let addr = mac_addr_to_local_link_address(&mac);
    assert_eq!(addr[8], 0x00);
    assert_eq!(&addr[9..], &[0, 0, 0xff, 0xfe, 0, 0, 1]);
}

#[test]
fn link_local_address_is_deterministic() {
    let mac = MacAddr::V6([0x52, 0x54, 0x00, 0x12, 0x34, 0x56]);
    let addr = mac_addr_to_local_link_address(&mac);
    assert_eq!(addr, [0xfe, 0x80, 0, 0, 0, 0, 0, 0, 0x50, 0x54, 0x00, 0xff, 0xfe, 0x12, 0x34, 0x56]);
    assert_eq!(addr, mac_addr_to_local_link_address(&mac));
}

#[test]
fn link_local_address_of_an_eui64() {
    let mac = MacAddr::V8([0x10, 2, 3, 4, 5, 6, 7, 8]);
    assert_eq!(
        mac_addr_to_local_link_address(&mac),
        [0xfe, 0x80, 0, 0, 0, 0, 0, 0, 0x12, 2, 3, 4, 5, 6, 7, 8]
    );
}

#[test]
fn mac_text_is_that_of_the_macaddr_crate() {
    let bytes = [0xde, 0xad, 0xbe, 0xef, 0x00, 0x01];
    let text = MacAddr::V6(bytes).display();
    assert_eq!(text, "DE:AD:BE:EF:00:01");
    assert_eq!(text, macaddr::MacAddr6::from(bytes).to_string());
    let long = [0x01, 0x23, 0x45, 0x67, 0x89, 0xab, 0xcd, 0xef];
    assert_eq!(MacAddr::V8(long).display(), "01:23:45:67:89:AB:CD:EF");
    assert_eq!(MacAddr::V8(long).display(), macaddr::MacAddr8::from(long).to_string());
}

#[test]
fn slices_equal_compares_bytes() {
    assert!(slices_equal(&[], &[]));
    assert!(slices_equal(&[1, 2, 3], &[1, 2, 3]));
    assert!(!slices_equal(&[1, 2, 3], &[1, 2, 4]));
    assert!(!slices_equal(&[1, 2, 3], &[1, 2]));
}

#[test]
fn retry_step_follows_the_policy() {
    assert_eq!(retry_step(5, true), RetryStep::Done);
    assert_eq!(retry_step(1, true), RetryStep::Done);
    assert_eq!(retry_step(5, false), RetryStep::Again { attempts_left: 4 });
    assert_eq!(retry_step(2, false), RetryStep::Again { attempts_left: 1 });
    assert_eq!(retry_step(1, false), RetryStep::GiveUp);
}

#[test]
fn retry_gives_up_after_five_failures() {
    assert_eq!(ngn::utils::SEND_ATTEMPTS, 5);
    assert_eq!(ngn::utils::SEND_RETRY_PERIOD_SECS, 2);
    assert_eq!(ngn::utils::CONNECT_TIMEOUT_SECS, 5);
    assert_eq!(retry_outcome(ngn::utils::SEND_ATTEMPTS, &[false; 5]), (5, false));
    assert_eq!(retry_outcome(5, &[false, false, false, false, false]), (5, false));
    assert_eq!(retry_outcome(5, &[false, false, false, false, false, true]), (5, false));
    assert_eq!(retry_outcome(5, &[]), (5, false));
}

#[test]
fn retry_stops_at_the_first_success() {
    assert_eq!(retry_outcome(5, &[true]), (1, true));
    assert_eq!(retry_outcome(5, &[false, false, true, false]), (3, true));
    assert_eq!(retry_outcome(5, &[false, false, false, false, true]), (5, true));
    assert_eq!(retry_outcome(1, &[false, true]), (1, false));
}

#[test]
fn address_is_read_from_text() {
    assert!(parse_mac_addr("de:ad:be:ef:00:01").unwrap().same(&MacAddr::V6([0xde, 0xad, 0xbe, 0xef, 0, 1])));
    assert!(parse_mac_addr("DE-AD-BE-EF-00-01").unwrap().same(&MacAddr::V6([0xde, 0xad, 0xbe, 0xef, 0, 1])));
    assert!(parse_mac_addr("01:23:45:67:89:ab:cd:ef")
        .unwrap()
        .same(&MacAddr::V8([0x01, 0x23, 0x45, 0x67, 0x89, 0xab, 0xcd, 0xef])));
    let text = MacAddr::V6([1, 2, 3, 4, 5, 6]).display();
    assert!(parse_mac_addr(&text).unwrap().same(&MacAddr::V6([1, 2, 3, 4, 5, 6])));
}

#[test]
fn text_that_is_no_address_is_refused() {
    assert!(parse_mac_addr("").is_none());
    assert!(parse_mac_addr("de:ad:be:ef:00").is_none());
    assert!(parse_mac_addr("de:ad:be:ef:00:0g").is_none());
    assert!(parse_mac_addr("de:ad:be:ef:00:01\n").is_none());
    assert!(parse_mac_addr("phone").is_none());
}
