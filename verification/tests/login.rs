use pagewalk::login::{
    cookie_header, data_url_payload, password_login, qr_key, qr_picture, qr_step, LoginError,
    QrStep, QR_CONFIRMED, QR_EXPIRED, QR_SCANNED, QR_WAITING, STATUS_OK,
};

fn cookies(parts: &[&str]) -> Vec<String> {
    parts.iter().map(|part| part.to_string()).collect()
}

#[test]
fn status_codes_have_the_documented_values() {
    assert_eq!(STATUS_OK, 200);
    assert_eq!(QR_EXPIRED, 800);
    assert_eq!(QR_WAITING, 801);
    assert_eq!(QR_SCANNED, 802);
    assert_eq!(QR_CONFIRMED, 803);
}

#[test]
fn cookie_header_joins_with_semicolon_and_space() {
    assert_eq!(cookie_header(&cookies(&[])), "");
    assert_eq!(cookie_header(&cookies(&["a=1"])), "a=1");
    assert_eq!(cookie_header(&cookies(&["a=1", "b=2; Path=/", "c=3"])), "a=1; b=2; Path=/; c=3");
    assert_eq!(cookie_header(&cookies(&["", ""])), "; ");
    assert_eq!(cookie_header(&cookies(&["音乐=1", "b"])), "音乐=1; b");
}

#[test]
fn password_login_is_accepted_with_200_only() {
    assert_eq!(password_login(200, &cookies(&["a=1", "b=2"])), Ok(String::from("a=1; b=2")));
    assert_eq!(password_login(200, &cookies(&[])), Ok(String::new()));
    assert_eq!(password_login(502, &cookies(&["a=1"])), Err(LoginError::Rejected(502)));
    assert_eq!(password_login(0, &cookies(&[])), Err(LoginError::Rejected(0)));
    assert_eq!(password_login(-200, &cookies(&[])), Err(LoginError::Rejected(-200)));
}

#[test]
fn qr_key_is_accepted_with_200_only() {
    assert_eq!(qr_key(200, String::from("key")), Ok(String::from("key")));
    assert_eq!(qr_key(201, String::from("key")), Err(LoginError::KeyRefused));
}

#[test]
fn payload_is_the_second_field() {
    assert_eq!(data_url_payload(b"data:image/png;base64,aGVsbG8="), b"aGVsbG8=");
    assert_eq!(data_url_payload(b"head,body,tail"), b"body");
    assert_eq!(data_url_payload(b"head,body,tail,more"), b"body");
    assert_eq!(data_url_payload(b"no comma"), b"");
    assert_eq!(data_url_payload(b""), b"");
    assert_eq!(data_url_payload(b","), b"");
    assert_eq!(data_url_payload(b",,"), b"");
    assert_eq!(data_url_payload(b"head,"), b"");
    assert_eq!(data_url_payload(b",body"), b"body");
    assert_eq!(data_url_payload("图,片,x".as_bytes()), "片".as_bytes());
}

#[test]
fn qr_picture_decodes_the_payload() {
    assert_eq!(
        qr_picture(200, Some("data:image/png;base64,aGVsbG8=")),
        Ok(Some(b"hello".to_vec()))
    );
    assert_eq!(qr_picture(200, Some("x,AAEC/w==,ignored")), Ok(Some(vec![0, 1, 2, 255])));
    // nothing after the comma, or no comma at all, decodes to no bytes
    assert_eq!(qr_picture(200, Some("data:,")), Ok(Some(Vec::new())));
    assert_eq!(qr_picture(200, Some("aGVsbG8=")), Ok(Some(Vec::new())));
}

#[test]
fn qr_picture_without_a_picture_is_nothing() {
    assert_eq!(qr_picture(200, None), Ok(None));
}

#[test]
fn qr_picture_refuses_bad_base64() {
    assert_eq!(qr_picture(200, Some("data:image/png;base64,@@@@")), Err(LoginError::BadPicture));
    assert_eq!(qr_picture(200, Some("x,aGVsbG8")), Err(LoginError::BadPicture));
    assert_eq!(qr_picture(200, Some("x,aGVsbG8=\n")), Err(LoginError::BadPicture));
}

#[test]
fn qr_picture_is_refused_without_200() {
    assert_eq!(qr_picture(500, Some("x,aGVsbG8=")), Err(LoginError::CodeRefused));
    assert_eq!(qr_picture(500, Some("x,@@")), Err(LoginError::CodeRefused));
    assert_eq!(qr_picture(0, None), Err(LoginError::CodeRefused));
}

#[test]
fn qr_step_follows_the_status_code() {
    let cookie = Some(String::from("MUSIC_U=1"));
    assert_eq!(qr_step(800, None), Err(LoginError::Expired));
    assert_eq!(qr_step(800, cookie.clone()), Err(LoginError::Expired));
    assert_eq!(qr_step(801, None), Ok(QrStep::Waiting));
    assert_eq!(qr_step(801, cookie.clone()), Ok(QrStep::Waiting));
    assert_eq!(qr_step(802, None), Ok(QrStep::Scanned));
    assert_eq!(qr_step(803, cookie.clone()), Ok(QrStep::SignedIn(String::from("MUSIC_U=1"))));
    assert_eq!(qr_step(803, None), Ok(QrStep::ConfirmedWithoutCookie));
    assert_eq!(qr_step(200, cookie.clone()), Ok(QrStep::Unknown));
    assert_eq!(qr_step(804, None), Ok(QrStep::Unknown));
    assert_eq!(qr_step(-1, None), Ok(QrStep::Unknown));
}
