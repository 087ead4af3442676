use site_link_extract::str_search::decimal_string;
use site_link_extract::str_search::find_char;
use site_link_extract::str_search::find_scheme_sep;
use site_link_extract::str_search::seed_lines;
use site_link_extract::str_search::trim;

#[test]
fn first_occurrence_of_a_character() {
    assert_eq!(find_char("abc#d#e", '#'), Some(3));
    assert_eq!(find_char("#abc", '#'), Some(0));
    assert_eq!(find_char("abc", '#'), None);
    assert_eq!(find_char("", '#'), None);
}

#[test]
fn first_occurrence_of_the_scheme_separator() {
    assert_eq!(find_scheme_sep("https://x"), Some(5));
    assert_eq!(find_scheme_sep("://"), Some(0));
    assert_eq!(find_scheme_sep("a://b://c"), Some(1));
    assert_eq!(find_scheme_sep("ab:/c"), None);
    assert_eq!(find_scheme_sep(""), None);
}

#[test]
fn trimming_both_ends() {
    assert_eq!(trim("  a b  "), "a b");
    assert_eq!(trim("\t\r\n x \r\n\t"), "x");
    assert_eq!(trim("x"), "x");
    assert_eq!(trim("   "), "");
    assert_eq!(trim(""), "");
}

#[test]
fn seed_lines_trim_and_drop_blanks() {
    let text = "  https://a.test/  \n\n\thttps://b.test/\r\n   \nhttps://c.test/";
    assert_eq!(
        seed_lines(text),
        vec!["https://a.test/", "https://b.test/", "https://c.test/"]
    );
    assert_eq!(seed_lines(""), Vec::<String>::new());
    assert_eq!(seed_lines("\n\n"), Vec::<String>::new());
}

#[test]
fn decimal_rendering_exact() {
    assert_eq!(decimal_string(0), "0");
    assert_eq!(decimal_string(7), "7");
    assert_eq!(decimal_string(10), "10");
    assert_eq!(decimal_string(40960), "40960");
    assert_eq!(decimal_string(1000001), "1000001");
}
