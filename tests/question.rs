use cli_print::question::{Choice, Confirm, Numeric, String as Ask};

#[test]
fn numeric_menu() {
    let mut q: Numeric<u8> = Numeric::new("Pick one");
    assert!(q.is_empty());
    q.option("first", 7);
    q.option("second", 9);
    assert!(!q.is_empty());
    assert!(matches!(q.pick("2"), Choice::Chosen(1)));
    assert!(matches!(q.pick("+1"), Choice::Chosen(0)));
    assert!(matches!(q.pick("0"), Choice::OutOfRange));
    assert!(matches!(q.pick("3"), Choice::OutOfRange));
    assert!(matches!(q.pick("x"), Choice::NotANumber));
    assert!(matches!(q.pick(""), Choice::NotANumber));
    assert_eq!(q.suffix, "Your choice?");
}

#[test]
fn free_text_default() {
    let mut q = Ask::new("Name");
    assert_eq!(q.prompt(), "Name: ");
    q.default("anon");
    assert_eq!(q.prompt(), "Name [anon]: ");
    assert_eq!(q.answer(std::string::String::new()), "anon");
    assert_eq!(q.initial, "anon");
    assert_eq!(q.answer("bob".to_string()), "bob");
    assert_eq!(q.initial, "bob");
}

#[test]
fn confirm_answers() {
    let q = Confirm::new("Go on?");
    assert_eq!(q.prompt(), "Go on? [Y/n] ");
    assert_eq!(q.decide("YES"), Some(true));
    assert_eq!(q.decide("n"), Some(false));
    assert_eq!(q.decide("maybe"), None);
    let d = Confirm::new_dangerous("Drop?");
    assert_eq!(d.prompt(), "Drop? (type `Yes`) ");
    assert_eq!(d.decide("Yes"), Some(true));
    assert_eq!(d.decide("yes"), Some(false));
}
