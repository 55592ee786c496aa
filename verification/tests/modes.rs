use flushy::mode::{Align, Flush, Mode};

#[test]
fn each_name_selects_its_mode() {
    assert_eq!(Mode::from_str("left"), Ok(Mode::AlignMode(Align::Left)));
    assert_eq!(Mode::from_str("center"), Ok(Mode::AlignMode(Align::Center)));
    assert_eq!(Mode::from_str("right"), Ok(Mode::AlignMode(Align::Right)));
    assert_eq!(Mode::from_str("flush"), Ok(Mode::FlushMode(Flush::Flush)));
    assert_eq!(
        Mode::from_str("flush-hyphen"),
        Ok(Mode::FlushMode(Flush::FlushHyphen))
    );
}

#[test]
fn unknown_name_selects_left() {
    for name in ["", "justify", "Left", "LEFT", "flush_hyphen", "flush-", " left", "lef", "leftt"] {
        assert_eq!(Mode::from_str(name), Ok(Mode::AlignMode(Align::Left)));
    }
}

#[test]
fn unknown_mode_wraps_as_left_does() {
    let mode = Mode::from_str("zigzag").unwrap();
    assert_eq!(
        flushy::wrap::format("the quick brown fox jumps", 10, mode),
        "the quick\nbrown fox\njumps"
    );
}
