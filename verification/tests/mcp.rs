use rift_bus::mcp::{
    discovered_socket, ensure_mcp_token, generate_mcp_token, hex_token, listing_mentions_pid,
    recorded_pid, token_from_file,
};

#[test]
fn token_bytes_are_two_hex_digits_each() {
    assert_eq!(hex_token(&[0x00, 0xab, 0xff, 0x09]), "00abff09");
}

#[test]
fn generated_token_is_64_lower_hex() {
    let t = generate_mcp_token().unwrap();
    assert_eq!(t.len(), 64);
    assert!(t.chars().all(|c| c.is_ascii_digit() || ('a'..='f').contains(&c)));
    assert_ne!(t, generate_mcp_token().unwrap());
}

#[test]
fn stored_token_is_kept() {
    assert_eq!(ensure_mcp_token(Some("abc".into())).unwrap(), ("abc".to_string(), false));
    let (t, fresh) = ensure_mcp_token(None).unwrap();
    assert!(fresh);
    assert_eq!(t.len(), 64);
}

#[test]
fn discovery_files_are_read_trimmed() {
    assert_eq!(token_from_file("  tok\n"), "tok");
    assert_eq!(discovered_socket(" rift-123 \n"), Some("rift-123".to_string()));
    assert_eq!(discovered_socket("  \n"), None);
    assert_eq!(recorded_pid("1234\n"), Some(1234));
    assert_eq!(recorded_pid("x"), None);
}

#[test]
fn process_listing_mentions_pid() {
    assert!(listing_mentions_pid(b"\"llama-server.exe\",\"1234\",\"Console\"", 1234));
    assert!(!listing_mentions_pid(b"INFO: No tasks are running", 1234));
}
