use site_link_extract::link_unificator::EmptyUnificator;
use site_link_extract::link_unificator::LinkUnificator;
use site_link_extract::link_unificator::StdUnificator;

#[test]
fn std_unify_scheme_insignificant() {
    let a = StdUnificator::unify(&"http://x.com/a".to_string());
    let b = StdUnificator::unify(&"https://x.com/a".to_string());
    assert!(StdUnificator::eq_unified(&a, &b));
    assert_eq!(a.unified, "x.com/a");
}

#[test]
fn std_unify_fragment_insignificant() {
    let a = StdUnificator::unify(&"http://x.com/a#frag1".to_string());
    let b = StdUnificator::unify(&"https://x.com/a#frag2".to_string());
    assert!(StdUnificator::eq_unified(&a, &b));
    assert_eq!(a.unified, "x.com/a");
    assert_eq!(b.unified, "x.com/a");
}

#[test]
fn std_unify_distinct_paths_stay_distinct() {
    let a = StdUnificator::unify(&"https://x.com/a".to_string());
    let b = StdUnificator::unify(&"https://x.com/b".to_string());
    assert!(!StdUnificator::eq_unified(&a, &b));
}

#[test]
fn std_unify_without_scheme_or_fragment_is_identity() {
    let a = StdUnificator::unify(&"x.com/a".to_string());
    assert_eq!(a.unified, "x.com/a");
}

#[test]
fn std_unify_display_prefixes_https() {
    let a = StdUnificator::unify(&"http://x.com/a#frag".to_string());
    assert_eq!(StdUnificator::display(&a), "https://x.com/a");
}

#[test]
fn empty_unify_is_exact_string_identity() {
    let a = EmptyUnificator::unify(&"http://x.com/a#frag".to_string());
    assert_eq!(a, "http://x.com/a#frag");
    let b = EmptyUnificator::unify(&"https://x.com/a#frag".to_string());
    assert!(!EmptyUnificator::eq_unified(&a, &b));
    assert_eq!(EmptyUnificator::display(&a), "http://x.com/a#frag");
}
