use kanna::interface::RenderText;

#[test]
fn stepping_reaches_the_end_and_stays() {
    let mut t = RenderText::empty("abc".to_owned());
    assert!(!t.is_finished());
    for _ in 0..3 {
        t.step();
    }
    assert!(t.is_finished());
    t.step();
    assert_eq!(t.end, 3);
    assert_eq!(t.fragment(), "abc");
}

#[test]
fn finish_and_new_show_everything() {
    let mut t = RenderText::empty("\u{3042}\u{3044}".to_owned());
    assert_eq!(t.length, 2);
    t.finish();
    assert!(t.is_finished());
    assert!(RenderText::new("xy".to_owned()).is_finished());
    assert!(RenderText::empty(String::new()).is_finished());
}
