use sysdiff::os_release::{get_codename, os_release_path, os_release_value};
use sysdiff::text::{split_lines, str_contains, str_eq, trim_quotes_str};

const DEBIAN: &str = "PRETTY_NAME=\"Debian GNU/Linux 12 (bookworm)\"\nNAME=\"Debian GNU/Linux\"\nVERSION_ID=\"12\"\nVERSION=\"12 (bookworm)\"\nVERSION_CODENAME=bookworm\nID=debian\n";

#[test]
fn codename_of_debian() {
    assert_eq!(get_codename(DEBIAN), Some("bookworm".to_string()));
}

#[test]
fn codename_quoted_is_unquoted() {
    assert_eq!(get_codename("VERSION_CODENAME=\"jammy\"\n"), Some("jammy".to_string()));
}

#[test]
fn codename_missing() {
    assert_eq!(get_codename("ID=alpine\nVERSION_ID=3.19.1\n"), None);
    assert_eq!(get_codename(""), None);
}

#[test]
fn codename_first_line_wins() {
    assert_eq!(
        get_codename("VERSION_CODENAME=first\nVERSION_CODENAME=second\n"),
        Some("first".to_string())
    );
}

#[test]
fn codename_must_start_the_line() {
    assert_eq!(get_codename(" VERSION_CODENAME=x\nXVERSION_CODENAME=y\n"), None);
}

#[test]
fn codename_crlf_line() {
    assert_eq!(get_codename("VERSION_CODENAME=focal\r\nID=ubuntu"), Some("focal".to_string()));
}

#[test]
fn codename_empty_value() {
    assert_eq!(get_codename("VERSION_CODENAME=\n"), Some(String::new()));
    assert_eq!(get_codename("VERSION_CODENAME=\"\"\n"), Some(String::new()));
}

#[test]
fn id_is_not_version_id() {
    assert_eq!(os_release_value(DEBIAN, "ID"), Some("debian".to_string()));
    assert_eq!(os_release_value(DEBIAN, "VERSION_ID"), Some("12".to_string()));
}

#[test]
fn value_without_final_newline() {
    assert_eq!(os_release_value("ID=arch", "ID"), Some("arch".to_string()));
}

#[test]
fn os_release_path_appends() {
    assert_eq!(os_release_path("/mnt/target"), "/mnt/target/etc/os-release");
}

#[test]
fn trim_quotes_matches_std() {
    for s in ["", "\"", "\"\"\"", "\"a\"", "\"\"ab\"", "a\"b", "abc", "\"ä\""] {
        assert_eq!(trim_quotes_str(s), s.trim_matches('"'));
    }
}

#[test]
fn split_lines_matches_std() {
    let samples = [
        "", "\n", "a", "a\n", "a\nb", "a\r\nb\r\n", "a\rb", "a\r", "\r\n", "\n\n", "x\n\ny\n", "é\nü",
    ];
    for s in samples {
        let mine = split_lines(s);
        let std: Vec<String> = s.lines().map(|l| l.to_string()).collect();
        assert_eq!(mine, std, "lines of {:?}", s);
    }
}

#[test]
fn contains_and_equality() {
    assert!(str_contains("opensuse-debian-like", "debian"));
    assert!(!str_contains("deb", "debian"));
    assert!(str_contains("abc", ""));
    assert!(str_eq("x86_64", "x86_64"));
    assert!(!str_eq("x86_64", "x86"));
}

#[test]
fn unrelated_lines_before_do_not_matter() {
    let c = "VERSION_CODENAME=trixie\nID=debian\n";
    for p in ["", "ID=debian\n", "NAME=x\r\n\n VERSION_CODENAME=no\n"] {
        assert_eq!(get_codename(&format!("{}{}", p, c)), get_codename(c));
    }
}

#[test]
fn later_lines_are_ignored() {
    let c = "ID=debian\nVERSION_CODENAME=bookworm\n";
    for s in ["", "VERSION_CODENAME=other\n", "garbage"] {
        assert_eq!(get_codename(&format!("{}{}", c, s)), Some("bookworm".to_string()));
    }
}
