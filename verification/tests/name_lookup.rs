use dank_gallery::dns::{
    address_in_response, build_query, query_fits, select_address, try_build_query, DnsError,
    IpAddress,
};

fn query_example() -> Vec<u8> {
    let mut q = vec![0xFE, 0xE7, 0x01, 0x00, 0, 1, 0, 0, 0, 0, 0, 0];
    q.push(7);
    q.extend_from_slice(b"example");
    q.push(3);
    q.extend_from_slice(b"com");
    q.extend_from_slice(&[0, 0, 1, 0, 1]);
    q
}

fn response(records: &[(u16, &[u8])]) -> Vec<u8> {
    let mut r = vec![0xFE, 0xE7, 0x81, 0x80, 0, 1, 0, records.len() as u8, 0, 0, 0, 0];
    r.extend_from_slice(&query_example()[12..]);
    for (ty, data) in records {
        r.extend_from_slice(&[0xC0, 0x0C]);
        r.extend_from_slice(&ty.to_be_bytes());
        r.extend_from_slice(&[0, 1, 0, 0, 0x0E, 0x10]);
        r.extend_from_slice(&(data.len() as u16).to_be_bytes());
        r.extend_from_slice(data);
    }
    r
}

#[test]
fn query_is_one_question_for_a_record() {
    assert_eq!(build_query("example.com"), query_example());
    assert_eq!(try_build_query("example.com"), Ok(query_example()));
    // Empty labels are left out.
    assert_eq!(build_query(".example..com."), query_example());
}

#[test]
fn unencodable_names_are_refused() {
    let long_label = "a".repeat(64);
    assert!(!query_fits(&long_label));
    assert_eq!(try_build_query(&long_label), Err(DnsError::NameNotEncodable));
    let label = "a".repeat(63);
    assert!(query_fits(&label));
    // 8 labels of 63 bytes need 8 * 64 + 17 bytes, more than the 500-byte buffer.
    let huge = vec![label.clone(); 8].join(".");
    assert!(!query_fits(&huge));
    let seven = vec![label; 7].join(".");
    assert!(query_fits(&seven));
    assert_eq!(build_query(&seven).len(), 7 * 64 + 17);
}

#[test]
fn first_address_answer_wins() {
    let r = response(&[(5, &[0xC0, 0x0C]), (1, &[93, 184, 216, 34]), (1, &[1, 2, 3, 4])]);
    assert_eq!(address_in_response(&r), Ok(Some(IpAddress::V4([93, 184, 216, 34]))));
    let v6: Vec<u8> = (1..=16).collect();
    let r = response(&[(28, &v6)]);
    let mut expected = [0u8; 16];
    expected.copy_from_slice(&v6);
    assert_eq!(address_in_response(&r), Ok(Some(IpAddress::V6(expected))));
}

#[test]
fn responses_without_addresses() {
    let r = response(&[]);
    assert_eq!(address_in_response(&r), Ok(None));
    assert_eq!(address_in_response(&[0xFE, 0xE7, 0x81]), Err(DnsError::MalformedResponse));
}

#[test]
fn selection_skips_other_lengths() {
    let slots = vec![vec![1, 2, 3], vec![], vec![10, 0, 0, 1], vec![9; 16]];
    assert_eq!(select_address(&slots), Some(IpAddress::V4([10, 0, 0, 1])));
    assert_eq!(select_address(&vec![vec![1; 5], vec![]]), None);
}
