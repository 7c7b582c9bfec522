use indexer::manifest::FileLocation;

fn loc(href: &str) -> FileLocation {
    FileLocation { href: String::from(href), locator_type: String::from("URL") }
}

#[test]
fn strips_leading_dotslash() {
    assert_eq!(loc("./GRANULE/img.jp2").href_without_dotslash(), "GRANULE/img.jp2");
}

#[test]
fn strips_repeated_dotslash() {
    assert_eq!(loc("././x").href_without_dotslash(), "x");
}

#[test]
fn leaves_inner_dotslash_alone() {
    assert_eq!(loc("a/./b").href_without_dotslash(), "a/./b");
    assert_eq!(loc("x./y").href_without_dotslash(), "x./y");
}

#[test]
fn empty_and_bare_prefix() {
    assert_eq!(loc("").href_without_dotslash(), "");
    assert_eq!(loc("./").href_without_dotslash(), "");
    assert_eq!(loc(".").href_without_dotslash(), ".");
}

#[test]
fn href_with_multibyte_characters() {
    assert_eq!(loc("./GRANULÉ/björk.jp2").href_without_dotslash(), "GRANULÉ/björk.jp2");
}
