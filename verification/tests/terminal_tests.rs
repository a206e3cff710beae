use ploot::terminal::{size_if_positive, terminal_size_or_default};

#[test]
fn default_is_reasonable() {
    let (w, h) = terminal_size_or_default(None);
    assert!(w >= 20);
    assert!(h >= 5);
}

#[test]
fn default_size_is_80_by_24() {
    assert_eq!(terminal_size_or_default(None), (80, 24));
}

#[test]
fn detected_size_is_kept() {
    assert_eq!(terminal_size_or_default(Some((132, 43))), (132, 43));
}

#[test]
fn zero_sizes_do_not_count() {
    assert_eq!(size_if_positive(0, 24), None);
    assert_eq!(size_if_positive(80, 0), None);
    assert_eq!(size_if_positive(100, 30), Some((100, 30)));
}
