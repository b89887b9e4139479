use incosense::percent::percent_encode_bytes;
use incosense::pipeline::{
    classify_db_error_code, encode_subscription_form, persistence_status,
    process_subscription_form, FormLimits, PersistOutcome, StrictFormRejection,
};

fn run(body: &[u8]) -> Result<(String, String), StrictFormRejection> {
    let limits = FormLimits::standard();
    process_subscription_form(body, &limits).map(|form| {
        let subscriber = form.0;
        (
            subscriber.name.as_str().to_string(),
            subscriber.email.as_str().to_string(),
        )
    })
}

#[test]
fn accepts_simple_valid_submission() {
    let r = run(b"name=le%20guin&email=ursula_le_guin%40gmail.com").unwrap();
    assert_eq!(r.0, "le guin");
    assert_eq!(r.1, "ursula_le_guin@gmail.com");
    assert_eq!(persistence_status(&PersistOutcome::Inserted), 201);
}

#[test]
fn accepts_unicode_and_emoji_names() {
    let r = run(b"name=%C3%89l%C3%A9onore&email=eleonore%40example.com").unwrap();
    assert_eq!(r.0, "Éléonore");
    assert_eq!(r.1, "eleonore@example.com");

    let r = run(b"name=%F0%9F%98%80&email=emoji%40example.com").unwrap();
    assert_eq!(r.0, "😀");
    assert_eq!(r.1, "emoji@example.com");
}

#[test]
fn accepts_max_length_name() {
    let body = format!("name={}&email=maxlength2%40example.com", "b".repeat(255));
    let r = run(body.as_bytes()).unwrap();
    assert_eq!(r.0, "b".repeat(255));
    assert_eq!(r.1, "maxlength2@example.com");
}

#[test]
fn missing_email_is_a_structure_rejection() {
    let e = run(b"name=le%20guin").unwrap_err();
    assert_eq!(
        e,
        StrictFormRejection::InvalidFormStructure("missing field `email`".to_string())
    );
    assert_eq!(e.status_code(), 400);
}

#[test]
fn missing_name_is_a_structure_rejection() {
    let e = run(b"email=crsula_le_guin%40gmail.com").unwrap_err();
    assert_eq!(
        e,
        StrictFormRejection::InvalidFormStructure("missing field `name`".to_string())
    );
    assert_eq!(e.status_code(), 400);

    let e = run(b"").unwrap_err();
    assert_eq!(
        e,
        StrictFormRejection::InvalidFormStructure("missing field `name`".to_string())
    );
}

#[test]
fn non_utf8_bytes_rejected_as_invalid_utf8() {
    let payloads: &[&[u8]] = &[
        b"name=H\xE4llo&email=W\xF6rld",
        b"name=\xFFfoo&email=bar",
        b"name=\xC3\x28&email=test",
        b"name=%E4llo&email=W%F6rld",
        b"name=\xFE\xFF&email=baz",
        b"name=foo\x80bar&email=baz",
    ];
    for body in payloads {
        let e = run(body).unwrap_err();
        assert_eq!(e, StrictFormRejection::InvalidUtf8, "body: {body:x?}");
        assert_eq!(e.status_code(), 422);
    }
}

#[test]
fn nul_byte_rejected_as_invalid_utf8_not_domain() {
    // percent-encoded NUL and a raw NUL byte, in a key and in a value
    let payloads: &[&[u8]] = &[
        b"name=hello%00world&email=test%40example.com",
        b"name=hello\x00world&email=test%40example.com",
        b"na\x00me=x&email=test%40example.com",
        b"name=x&email=%00test%40example.com",
    ];
    for body in payloads {
        let e = run(body).unwrap_err();
        assert_eq!(e, StrictFormRejection::InvalidUtf8, "body: {body:x?}");
    }
}

#[test]
fn malformed_percent_escape_rejected_wherever_it_occurs() {
    let payloads: &[&[u8]] = &[
        b"%",
        b"name=a%2&email=b%40c.d",
        b"name=a&email=%G1",
        b"name=%zzz&email=b%40c.d",
        b"name=ok&email=b%40c.d&extra=%4",
    ];
    for body in payloads {
        let e = run(body).unwrap_err();
        assert_eq!(e, StrictFormRejection::InvalidPercentEncoding, "body: {body:x?}");
        assert_eq!(e.status_code(), 400);
    }
}

#[test]
fn domain_rule_violations_rejected_with_reason() {
    let e = run(b"name=%3Cscript%3E&email=test%40example.com").unwrap_err();
    assert_eq!(
        e,
        StrictFormRejection::DomainValidation(
            "Name contains markup: potential XSS attack".to_string()
        )
    );
    assert_eq!(e.status_code(), 400);

    let e = run(b"name=&email=test%40example.com").unwrap_err();
    assert_eq!(
        e,
        StrictFormRejection::DomainValidation("Name cannot be empty".to_string())
    );

    let body = format!("name={}&email=test%40example.com", "a".repeat(256));
    let e = run(body.as_bytes()).unwrap_err();
    assert_eq!(
        e,
        StrictFormRejection::DomainValidation(
            "Name is too long (maximum 255 characters)".to_string()
        )
    );

    let e = run(b"name='%3B%20DROP%20TABLE%20subscribers%3B%20--&email=test%40example.com")
        .unwrap_err();
    assert_eq!(
        e,
        StrictFormRejection::DomainValidation("Name contains forbidden characters".to_string())
    );

    let e = run(b"name=ok&email=notanemail").unwrap_err();
    assert_eq!(
        e,
        StrictFormRejection::DomainValidation("Email must contain '@'".to_string())
    );
}

#[test]
fn too_many_fields_rejected() {
    let mut pairs: Vec<String> = Vec::new();
    for i in 0..257 {
        pairs.push(format!("k{i}=v{i}"));
    }
    let body = pairs.join("&");
    let e = run(body.as_bytes()).unwrap_err();
    assert_eq!(e, StrictFormRejection::TooManyFields);
    assert_eq!(e.status_code(), 400);

    // exactly 256 pairs passes the count check (and then fails on the
    // missing fields, a later stage)
    let body = (0..256).map(|i| format!("k{i}=v{i}")).collect::<Vec<_>>().join("&");
    let e = run(body.as_bytes()).unwrap_err();
    assert_eq!(
        e,
        StrictFormRejection::InvalidFormStructure("missing field `name`".to_string())
    );
}

#[test]
fn oversized_body_rejected_before_any_decoding() {
    // the body is full of malformed escapes, but the size cap decides
    let mut body = b"%zz".to_vec();
    body.extend(std::iter::repeat(b'%').take(17 * 1024));
    let e = run(&body).unwrap_err();
    assert_eq!(e, StrictFormRejection::PayloadTooLarge);
    assert_eq!(e.status_code(), 413);
}

#[test]
fn duplicate_key_last_value_wins() {
    let r = run(b"name=first&name=second&email=a%40b.c").unwrap();
    assert_eq!(r.0, "second");
    let r = run(b"email=x%40y.z&name=n&email=a%40b.c").unwrap();
    assert_eq!(r.1, "a@b.c");
}

#[test]
fn segment_without_equals_gives_empty_value() {
    let e = run(b"name&email=a%40b.c").unwrap_err();
    assert_eq!(
        e,
        StrictFormRejection::DomainValidation("Name cannot be empty".to_string())
    );
}

#[test]
fn custom_limits_are_honored() {
    let limits = FormLimits {
        max_body_bytes: 10,
        max_fields: 1,
    };
    let e = process_subscription_form(b"name=abcdefgh", &limits).unwrap_err();
    assert_eq!(e, StrictFormRejection::PayloadTooLarge);

    let e = process_subscription_form(b"a=b&c=d", &limits).unwrap_err();
    assert_eq!(e, StrictFormRejection::TooManyFields);
}

#[test]
fn status_codes_and_descriptions() {
    assert_eq!(StrictFormRejection::ReadBody.status_code(), 400);
    assert_eq!(StrictFormRejection::PayloadTooLarge.status_code(), 413);
    assert_eq!(StrictFormRejection::InvalidPercentEncoding.status_code(), 400);
    assert_eq!(StrictFormRejection::InvalidUtf8.status_code(), 422);
    assert_eq!(StrictFormRejection::TooManyFields.status_code(), 400);

    assert_eq!(StrictFormRejection::ReadBody.description(), "ReadBody");
    assert_eq!(
        StrictFormRejection::PayloadTooLarge.description(),
        "PayloadTooLarge"
    );
    assert_eq!(
        StrictFormRejection::InvalidFormStructure("missing field `name`".to_string()).description(),
        "missing field `name`"
    );
    assert_eq!(
        StrictFormRejection::DomainValidation("Name cannot be empty".to_string()).description(),
        "Name cannot be empty"
    );
}

#[test]
fn storage_outcomes_map_to_statuses() {
    assert_eq!(persistence_status(&PersistOutcome::Inserted), 201);
    assert_eq!(persistence_status(&PersistOutcome::UniqueViolation), 409);
    assert_eq!(persistence_status(&PersistOutcome::ForeignKeyViolation), 400);
    assert_eq!(persistence_status(&PersistOutcome::OtherFailure), 500);

    assert_eq!(classify_db_error_code(b"23505"), PersistOutcome::UniqueViolation);
    assert_eq!(classify_db_error_code(b"23503"), PersistOutcome::ForeignKeyViolation);
    assert_eq!(classify_db_error_code(b"42P01"), PersistOutcome::OtherFailure);
    assert_eq!(classify_db_error_code(b"23504"), PersistOutcome::OtherFailure);
    assert_eq!(classify_db_error_code(b""), PersistOutcome::OtherFailure);
}

#[test]
fn encoded_form_round_trips_through_pipeline() {
    let cases: Vec<(&str, &str)> = vec![
        ("le guin", "ursula_le_guin@gmail.com"),
        ("Éléonore", "eleonore@example.com"),
        ("😀 reader", "emoji@example.com"),
    ];
    for (name, email) in cases {
        let mut body = b"name=".to_vec();
        body.extend(percent_encode_bytes(name.as_bytes()));
        body.extend(b"&email=");
        body.extend(percent_encode_bytes(email.as_bytes()));
        let r = run(&body).unwrap();
        assert_eq!(r.0, name);
        assert_eq!(r.1, email);
    }
}

#[test]
fn built_form_body_round_trips_through_pipeline() {
    let cases: Vec<(&str, &str)> = vec![
        ("le guin", "ursula_le_guin@gmail.com"),
        ("Éléonore", "eleonore@example.com"),
        ("😀 reader", "emoji@example.com"),
        ("100% natural & hand=made", "odd+chars@example.com"),
    ];
    for (name, email) in cases {
        let body = encode_subscription_form(name, email);
        let r = run(&body).unwrap();
        assert_eq!(r.0, name);
        assert_eq!(r.1, email);
    }
}
