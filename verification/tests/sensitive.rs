use review_agent::sensitive::Sensitive;

#[test]
fn display_redacts() {
    let s = Sensitive::new("secret-key");
    assert_eq!(s.display(), "***");
}

#[test]
fn debug_redacts() {
    let s = Sensitive::new("secret-key");
    assert_eq!(s.debug(), "Sensitive(***)");
}

#[test]
fn inner_returns_value() {
    let s = Sensitive::new("my-api-key");
    assert_eq!(*s.inner(), "my-api-key");
}

#[test]
fn into_inner_consumes() {
    let s = Sensitive::new("my-api-key");
    assert_eq!(s.into_inner(), "my-api-key");
}

#[test]
fn default_is_empty_string() {
    let s: Sensitive<String> = Sensitive::default();
    assert_eq!(s.inner(), "");
}

#[test]
fn works_with_integers() {
    let s = Sensitive::new(42);
    assert_eq!(s.display(), "***");
    assert_eq!(*s.inner(), 42);
}

#[test]
fn clone_preserves_inner() {
    let a = Sensitive::new("original");
    let b = a.clone();
    assert_eq!(*b.inner(), "original");
}
