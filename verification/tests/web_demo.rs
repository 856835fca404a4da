use rust_study::web_demo::{
    action, append_chunk, counter, data, form_index, user_err, user_friend, welcom, welcome, welcome_friend,
    MyError, MyError2, UserError,
};

#[test]
fn greetings() {
    assert_eq!(data("actix-web"), "Hello actix-web!");
    assert_eq!(welcome("111"), "Welcome 111!");
    assert_eq!(welcom("NOHI"), "Welcom NOHI!");
    assert_eq!(welcome_friend("nohi", "1"), "Welcom nohi, user_id 1!");
    assert_eq!(user_friend("nohi", 1), "Welcom nohi, user_id 1!");
    assert_eq!(form_index("a", "b", 7, "Jad"), "a b 7 Jad");
}

#[test]
fn counter_counts() {
    let mut c = 0;
    assert_eq!(counter(&mut c), "Counter: 1");
    assert_eq!(counter(&mut c), "Counter: 2");
    let mut neg = -5;
    assert_eq!(counter(&mut neg), "Counter: -4");
}

#[test]
fn payload_limit() {
    let mut body = Vec::new();
    assert!(append_chunk(&mut body, &vec![0u8; 262_000]).is_ok());
    assert!(append_chunk(&mut body, &vec![0u8; 144]).is_ok());
    assert_eq!(body.len(), 262_144);
    assert!(append_chunk(&mut body, &[1]).is_err());
    assert_eq!(body.len(), 262_144);
}

#[test]
fn error_statuses_and_texts() {
    assert_eq!(MyError { name: "test" }.message(), "my error: test");
    assert_eq!(MyError { name: "test" }.status_code(), 500);
    assert_eq!(MyError2::InternalError.status_code(), 500);
    assert_eq!(MyError2::BadClientData.status_code(), 400);
    assert_eq!(MyError2::Timeout.status_code(), 504);
    assert_eq!(MyError2::BadClientData.message(), "bad request");
    assert_eq!(MyError2::Timeout.message(), "Timeout");
    let v = UserError::ValidationError { field: "name".into() };
    assert_eq!(v.status_code(), 400);
    assert_eq!(v.message(), "validation error on field name");
    assert_eq!(UserError::InternalError.message(), "An internal error occurred. Please try again later.");
    assert_eq!(user_err(Err::<(), &str>("Something was wrong")), Err(UserError::InternalError));
    assert_eq!(user_err(Ok::<(), &str>(())), Ok("success"));
}

#[test]
fn select_action() {
    assert_eq!(action(None), None);
    assert_eq!(action(Some(2)), Some("hello".to_string()));
}
