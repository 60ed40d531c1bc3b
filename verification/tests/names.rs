use afterglow::names::{display_name, first_repo, query_parts, repo_name, valid_full_name, valid_name, valid_owner};

#[test]
fn a_pasted_url_is_still_a_repo_name() {
    for raw in [
        "owner/repo",
        "  owner/repo  ",
        "owner/repo/",
        "https://github.com/owner/repo",
        "http://github.com/owner/repo",
        "https://www.github.com/owner/repo.git",
        "github.com/owner/repo",
        "https://github.com/owner/repo/tree/main",
    ] {
        assert_eq!(repo_name(raw).as_deref(), Some("owner/repo"), "{raw}");
    }
    for raw in [
        "",
        "owner",
        "owner/",
        "/repo",
        "not a repo",
        "o/a$b",
        "https://github.com/",
    ] {
        assert_eq!(repo_name(raw), None, "{raw}");
    }
}

#[test]
fn githubs_shapes_are_the_only_ones() {
    assert!(valid_owner("a"));
    assert!(valid_owner(&"a".repeat(39)));
    assert!(!valid_owner(&"a".repeat(40)));
    assert!(!valid_owner(""));
    assert!(!valid_owner("under_score"));
    assert!(!valid_owner("é"));
    assert!(valid_name("re-po_1.x"));
    assert!(valid_name(&"a".repeat(100)));
    assert!(!valid_name(&"a".repeat(101)));
    assert!(!valid_name(""));
    assert!(!valid_name("a b"));
    assert!(valid_full_name("o/r"));
    assert!(!valid_full_name("o"));
    assert!(!valid_full_name("o/r/x"));
    assert!(!valid_full_name("o/r x"));
    assert!(!valid_full_name("under_score/r"));
}

#[test]
fn a_printed_name_keeps_only_githubs_characters() {
    assert_eq!(display_name("o\u{202e}wner/re\u{1}po"), "owner/repo");
    assert_eq!(display_name("/climdg"), "climdg");
    assert_eq!(display_name("owner/"), "owner");
    assert_eq!(display_name("/"), "");
    assert_eq!(display_name(""), "");
    assert_eq!(display_name("just a name"), "justaname");
    // The owner has the narrower charset of the two.
    assert_eq!(display_name("un.der_score/re.po_x"), "underscore/re.po_x");
    // Only the first slash parts the two.
    assert_eq!(display_name("a/b/c"), "a/bc");
    let long = "a".repeat(40);
    assert_eq!(
        display_name(&format!("{long}/clim_dg.rs")),
        format!("{long}/clim_dg.rs")
    );
}

#[test]
fn the_first_named_repo_of_a_list_is_the_one() {
    assert_eq!(first_repo(Some("o/r,other/repo")), "o/r");
    assert_eq!(first_repo(Some(",o/r")), "o/r");
    assert_eq!(first_repo(Some(" , o/r ,x/y")), "o/r");
    assert_eq!(first_repo(Some("")), "");
    assert_eq!(first_repo(Some(",")), "");
    assert_eq!(first_repo(Some(" ")), "");
    assert_eq!(first_repo(None), "");
}

#[test]
fn only_plain_names_may_be_spliced_into_a_query() {
    assert_eq!(query_parts("a/b"), Some(("a", "b")));
    // Looser than a legal owner: a dot is harmless in a query.
    assert_eq!(query_parts("a.b_c/d"), Some(("a.b_c", "d")));
    for name in ["", "a", "/b", "a/", "a/b/c", r#"evil"} x: viewer {login"#, "a/b c"] {
        assert_eq!(query_parts(name), None, "{name}");
    }
}

#[test]
fn printing_a_name_twice_changes_nothing() {
    for raw in ["o/r", "a/b/c", "/x", "x/", "o wner/re$po", "a.b/c.d", "", "/", "plain_name"] {
        let once = display_name(raw);
        assert_eq!(display_name(&once), once, "{raw}");
    }
    assert_eq!(display_name("o wn.er/re$po.x"), "owner/repo.x");
}

#[test]
fn a_name_is_read_out_of_every_form_of_its_url() {
    for name in ["owner/repo", "o/r.x", "github/www"] {
        for scheme in ["", "https://", "http://"] {
            for www in ["", "www."] {
                for host in ["", "github.com/"] {
                    for suffix in ["", ".git"] {
                        for page in ["", "/", "/tree/main", "//"] {
                            let raw = format!(" {scheme}{www}{host}{name}{suffix}{page}\n");
                            assert_eq!(repo_name(&raw).as_deref(), Some(name), "{raw}");
                        }
                    }
                }
            }
        }
    }
    // A name that itself ends in the suffix loses it, unless the suffix stands behind it.
    assert_eq!(repo_name("o/x.git").as_deref(), Some("o/x"));
    assert_eq!(repo_name("o/x.git.git").as_deref(), Some("o/x.git"));
}
