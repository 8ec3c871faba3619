use local_transport::menu::{choose_mode, Mode};

#[test]
fn one_receives() {
    assert_eq!(choose_mode("1\n"), Some(Mode::Receive));
    assert_eq!(choose_mode("  +1 \r\n"), Some(Mode::Receive));
    assert_eq!(choose_mode("001"), Some(Mode::Receive));
    assert_eq!(choose_mode("\u{3000}1\u{a0}"), Some(Mode::Receive));
}

#[test]
fn other_numbers_send() {
    assert_eq!(choose_mode("2\n"), Some(Mode::Send));
    assert_eq!(choose_mode("0"), Some(Mode::Send));
    assert_eq!(choose_mode("255"), Some(Mode::Send));
}

#[test]
fn what_is_not_a_u8_gives_nothing() {
    assert_eq!(choose_mode("256"), None);
    assert_eq!(choose_mode("abc"), None);
    assert_eq!(choose_mode(""), None);
    assert_eq!(choose_mode("\n"), None);
    assert_eq!(choose_mode("+"), None);
    assert_eq!(choose_mode("-1"), None);
    assert_eq!(choose_mode("1 2"), None);
    assert_eq!(choose_mode("99999999999"), None);
}

#[test]
fn choices_agree_with_the_standard_parser() {
    for s in ["1", " 7 ", "+3", "x", "", "300", "\t12\n", "1\u{2003}", "0012"] {
        let expected = s.trim().parse::<u8>().ok().map(|n| if n == 1 { Mode::Receive } else { Mode::Send });
        assert_eq!(choose_mode(s), expected, "input {:?}", s);
    }
}
