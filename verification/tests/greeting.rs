use filebatch::greet;

#[test]
fn greeting_matches_template() {
    assert_eq!(
        greet("Alice"),
        "Hello, Alice! You've been greeted from the backend!"
    );
}

#[test]
fn greeting_contains_name_verbatim() {
    let name = "Ada Lovelace";
    let g = greet(name);
    assert!(g.contains(name));
}

#[test]
fn greeting_accepts_empty_name() {
    assert_eq!(greet(""), "Hello, ! You've been greeted from the backend!");
}
