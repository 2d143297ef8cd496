use forge::init::slugify_name;

#[test]
fn slugify_name_works() {
    assert_eq!(slugify_name("My Test App"), "my-test-app");
    assert_eq!(slugify_name("REST API with CRUD"), "rest-api-with");
    assert_eq!(slugify_name("simple"), "simple");
    assert_eq!(
        slugify_name("Hello World! 123"),
        "hello-world-123"
    );
}

#[test]
fn slugify_trims_hyphens_and_drops_marks() {
    assert_eq!(slugify_name("--wrapped--"), "wrapped");
    assert_eq!(slugify_name("!! ?"), "");
    assert_eq!(slugify_name("  spaced   out  words here"), "spaced-out-words");
}
