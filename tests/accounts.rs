use cicada_chat::{Auth, AuthError, UserAuth};

fn rec(name: &str, pw: &str) -> UserAuth {
    UserAuth { username: name.to_string(), password: pw.to_string() }
}

#[test]
fn sign_up_hashes_and_refuses_a_taken_name() {
    let mut a = Auth::create();
    assert_eq!(a.len(), 0);
    let u = a.sign_up("alice".to_string(), "secret".to_string()).unwrap();
    assert_eq!(u.username, "alice");
    assert_ne!(u.password, "secret");
    assert!(u.password.starts_with("$argon2id$v=19$m=19456,t=2,p=1$"));
    assert!(a.has_user(&"alice".to_string()));
    assert_eq!(a.sign_up("alice".to_string(), "other".to_string()).err(), Some(AuthError::UsernameTaken));
    assert_eq!(a.len(), 1);
}

#[test]
fn load_from_keeps_every_record() {
    let a = Auth::load_from(vec![rec("a", "1"), rec("b", "2"), rec("a", "3")]);
    assert_eq!(a.len(), 3);
    assert!(a.has_user(&"b".to_string()));
    assert!(!a.has_user(&"c".to_string()));
}

#[test]
fn add_account_stores_the_given_hash() {
    let mut a = Auth::create();
    assert_eq!(a.add_account("x".to_string(), None).err(), Some(AuthError::HashFailed));
    assert_eq!(a.len(), 0);
    let u = a.add_account("x".to_string(), Some("$h$".to_string())).unwrap();
    assert_eq!(u.username, "x");
    assert_eq!(u.password, "$h$");
    assert_eq!(a.add_account("x".to_string(), Some("$k$".to_string())).err(), Some(AuthError::UsernameTaken));
    assert_eq!(a.len(), 1);
}
