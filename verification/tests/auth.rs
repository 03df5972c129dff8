use nexa::auth::valid_email;

#[test]
fn valid_email_accepts_normal_addresses() {
    assert!(valid_email("alice@example.com"));
    assert!(valid_email("user.name+tag@sub.domain.org"));
    assert!(valid_email("x@y.z"));
}

#[test]
fn valid_email_rejects_bad_inputs() {
    assert!(!valid_email("notanemail"));
    assert!(!valid_email("@nodomain.com"));
    assert!(!valid_email("noatsign"));
    assert!(!valid_email("missing@dot"));
    assert!(!valid_email(""));
    assert!(!valid_email(&format!("{}@b.c", "a".repeat(252))));
}

#[test]
fn valid_email_length_limit_and_second_at() {
    // 250 + 4 = 254 bytes: the longest accepted
    assert!(valid_email(&format!("{}@b.c", "a".repeat(250))));
    assert!(!valid_email(&format!("{}@b.c", "a".repeat(251))));
    // the limit counts bytes, not characters
    assert!(!valid_email(&format!("{}@b.c", "é".repeat(126))));
    // only the first '@' separates; the domain may hold another
    assert!(valid_email("a@b@c.d"));
    assert!(!valid_email("a@"));
    assert!(valid_email("a@.")); 
}
