use incosense::domain::{SubscriberEmail, SubscriberName};

#[test]
fn valid_names_accepted() {
    let cases = vec![
        "le guin".to_string(),
        "Éléonore".to_string(),
        "😀".to_string(),
        "John Doe".to_string(),
        "b".repeat(255),
    ];
    for case in cases {
        let n = SubscriberName::try_from(case.clone()).expect("expected a valid name");
        assert_eq!(n.as_str(), case);
    }
}

#[test]
fn empty_and_whitespace_names_rejected() {
    assert_eq!(
        SubscriberName::try_from(String::new()).unwrap_err(),
        "Name cannot be empty"
    );
    assert_eq!(
        SubscriberName::try_from("   ".to_string()).unwrap_err(),
        "Name cannot be empty"
    );
    // non-ASCII whitespace only
    assert_eq!(
        SubscriberName::try_from("\u{a0}\u{2003}".to_string()).unwrap_err(),
        "Name cannot be empty"
    );
}

#[test]
fn name_boundary_255_graphemes() {
    assert!(SubscriberName::try_from("b".repeat(255)).is_ok());
    assert_eq!(
        SubscriberName::try_from("b".repeat(256)).unwrap_err(),
        "Name is too long (maximum 255 characters)"
    );
}

#[test]
fn name_length_counts_grapheme_clusters_not_code_points() {
    // each family emoji is a single grapheme cluster of seven code points
    let family = "👨\u{200d}👩\u{200d}👦\u{200d}👦";
    assert_eq!(family.chars().count(), 7);

    let n = SubscriberName::try_from(family.to_string()).expect("one grapheme cluster");
    assert_eq!(n.len(), 1);
    assert!(!n.is_empty());

    assert!(SubscriberName::try_from(family.repeat(255)).is_ok());
    assert_eq!(
        SubscriberName::try_from(family.repeat(256)).unwrap_err(),
        "Name is too long (maximum 255 characters)"
    );
}

#[test]
fn name_markup_rejected() {
    let err = SubscriberName::try_from("<script>alert('x')</script>".to_string()).unwrap_err();
    assert_eq!(err, "Name contains markup: potential XSS attack");
    assert!(SubscriberName::try_from("a>b".to_string()).is_err());
}

#[test]
fn name_forbidden_substrings_rejected() {
    let cases = vec![
        "'; DROP TABLE subscribers; --",
        "a;b",
        "a--b",
        "a/*b",
        "--",
    ];
    for case in cases {
        assert_eq!(
            SubscriberName::try_from(case.to_string()).unwrap_err(),
            "Name contains forbidden characters",
            "case: {case}"
        );
    }
    // a lone `-` or `/` is fine
    assert!(SubscriberName::try_from("Jean-Luc".to_string()).is_ok());
    assert!(SubscriberName::try_from("a/b".to_string()).is_ok());
}

#[test]
fn name_revalidation_is_idempotent() {
    let n = SubscriberName::try_from("le guin".to_string()).unwrap();
    let again = n.revalidate().expect("revalidation must succeed");
    assert_eq!(again.as_str(), n.as_str());
}

#[test]
fn valid_emails_accepted() {
    let cases = vec![
        "ursula_le_guin@gmail.com",
        "eleonore@example.com",
        "a@b",
    ];
    for case in cases {
        let e = SubscriberEmail::try_from(case.to_string()).expect("expected a valid email");
        assert_eq!(e.as_str(), case);
    }
}

#[test]
fn email_rejections() {
    assert_eq!(
        SubscriberEmail::try_from(String::new()).unwrap_err(),
        "Email cannot be empty"
    );
    assert_eq!(
        SubscriberEmail::try_from("nodomain".to_string()).unwrap_err(),
        "Email must contain '@'"
    );
    assert_eq!(
        SubscriberEmail::try_from("@missinglocal".to_string()).unwrap_err(),
        "Invalid email format"
    );
    assert_eq!(
        SubscriberEmail::try_from("missingdomain@".to_string()).unwrap_err(),
        "Invalid email format"
    );
    assert_eq!(
        SubscriberEmail::try_from("two@at@signs".to_string()).unwrap_err(),
        "Invalid email format"
    );
}

#[test]
fn email_boundary_255_bytes() {
    // "@x.y" is 4 bytes, so a 251-byte local part gives exactly 255
    let exact = format!("{}@x.y", "a".repeat(251));
    assert_eq!(exact.len(), 255);
    assert!(SubscriberEmail::try_from(exact).is_ok());

    let over = format!("{}@x.y", "a".repeat(252));
    assert_eq!(over.len(), 256);
    assert_eq!(
        SubscriberEmail::try_from(over).unwrap_err(),
        "Email is too long (maximum 255 characters)"
    );
}

#[test]
fn email_length_counts_bytes_not_characters() {
    // 127 two-byte characters plus "@b.c" is 258 bytes but only 131
    // characters; the byte count is what the rule limits
    let email = format!("{}@b.c", "é".repeat(127));
    assert_eq!(email.chars().count(), 131);
    assert_eq!(
        SubscriberEmail::try_from(email).unwrap_err(),
        "Email is too long (maximum 255 characters)"
    );
}

#[test]
fn email_domain_part() {
    let e = SubscriberEmail::try_from("ursula@gmail.com".to_string()).unwrap();
    assert_eq!(e.domain(), Some("gmail.com"));
    let e = SubscriberEmail::try_from("a@b".to_string()).unwrap();
    assert_eq!(e.domain(), Some("b"));
}

#[test]
fn email_revalidation_is_idempotent() {
    let e = SubscriberEmail::try_from("ursula@gmail.com".to_string()).unwrap();
    let again = e.revalidate().expect("revalidation must succeed");
    assert_eq!(again.as_str(), e.as_str());
}
