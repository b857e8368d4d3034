use speakturbo::allowlist::{parse_allowed_dirs, parse_line, AllowedDir};

fn path(text: &str) -> AllowedDir {
    AllowedDir::Path(text.to_string())
}

fn under_home(text: &str) -> AllowedDir {
    AllowedDir::UnderHome(text.to_string())
}

fn line(text: &str) -> Option<AllowedDir> {
    let chars: Vec<char> = text.chars().collect();
    parse_line(&chars)
}

/// The same grammar, written with the standard library's own functions.
fn by_std(contents: &str) -> Vec<AllowedDir> {
    let mut dirs = Vec::new();
    for raw in contents.lines() {
        let l = raw.trim();
        if l.is_empty() || l.starts_with('#') {
            continue;
        }
        if l.starts_with("~/") {
            dirs.push(under_home(&l[2..]));
        } else if l == "~" {
            dirs.push(AllowedDir::Home);
        } else {
            dirs.push(path(l));
        }
    }
    dirs
}

#[test]
fn empty_file_names_nothing() {
    assert_eq!(parse_allowed_dirs(""), vec![]);
    assert_eq!(parse_allowed_dirs("\n"), vec![]);
    assert_eq!(parse_allowed_dirs("\n\n  \n\t\n"), vec![]);
}

#[test]
fn one_directory_per_line() {
    assert_eq!(
        parse_allowed_dirs("/data/out\n/srv/audio\n"),
        vec![path("/data/out"), path("/srv/audio")]
    );
}

#[test]
fn last_line_needs_no_line_feed() {
    assert_eq!(parse_allowed_dirs("/data/out"), vec![path("/data/out")]);
    assert_eq!(parse_allowed_dirs("/a\n/b"), vec![path("/a"), path("/b")]);
}

#[test]
fn white_space_round_a_line_is_ignored() {
    assert_eq!(parse_allowed_dirs("   /data/out \t\n"), vec![path("/data/out")]);
    assert_eq!(parse_allowed_dirs("\u{a0}/a\u{3000}\n"), vec![path("/a")]);
    assert_eq!(parse_allowed_dirs("/with space/in it\n"), vec![path("/with space/in it")]);
}

#[test]
fn carriage_returns_are_ignored() {
    assert_eq!(parse_allowed_dirs("/a\r\n/b\r\n"), vec![path("/a"), path("/b")]);
    assert_eq!(parse_allowed_dirs("/a\r\n\r\n~\r\n"), vec![path("/a"), AllowedDir::Home]);
}

#[test]
fn comments_and_empty_lines_are_skipped() {
    let contents = "# allowed output directories\n\n/a\n  # indented comment\n#\n/b\n";
    assert_eq!(parse_allowed_dirs(contents), vec![path("/a"), path("/b")]);
}

#[test]
fn hash_inside_a_line_is_part_of_the_path() {
    assert_eq!(parse_allowed_dirs("/a#b\n"), vec![path("/a#b")]);
    assert_eq!(parse_allowed_dirs("/a # b\n"), vec![path("/a # b")]);
}

#[test]
fn tilde_names_the_home_directory() {
    assert_eq!(parse_allowed_dirs("~\n"), vec![AllowedDir::Home]);
    assert_eq!(parse_allowed_dirs("  ~  \n"), vec![AllowedDir::Home]);
    assert_eq!(parse_allowed_dirs("~/music\n"), vec![under_home("music")]);
    assert_eq!(parse_allowed_dirs("~/a/b c\n"), vec![under_home("a/b c")]);
    assert_eq!(parse_allowed_dirs("~/\n"), vec![under_home("")]);
    assert_eq!(parse_allowed_dirs("~//etc\n"), vec![under_home("/etc")]);
}

#[test]
fn tilde_elsewhere_is_an_ordinary_character() {
    assert_eq!(parse_allowed_dirs("~user\n"), vec![path("~user")]);
    assert_eq!(parse_allowed_dirs("~~\n"), vec![path("~~")]);
    assert_eq!(parse_allowed_dirs("/a/~\n"), vec![path("/a/~")]);
    assert_eq!(parse_allowed_dirs("~ /x\n"), vec![path("~ /x")]);
}

#[test]
fn relative_paths_are_reported_as_written() {
    assert_eq!(parse_allowed_dirs("out\n./x\n"), vec![path("out"), path("./x")]);
}

#[test]
fn mixed_file() {
    let contents = "  /a  \n# comment\n\n~\n~/music\n~//etc\nrelative/path\n/é/ü";
    assert_eq!(
        parse_allowed_dirs(contents),
        vec![
            path("/a"),
            AllowedDir::Home,
            under_home("music"),
            under_home("/etc"),
            path("relative/path"),
            path("/é/ü"),
        ]
    );
}

#[test]
fn parse_line_reads_one_line() {
    assert_eq!(line(""), None);
    assert_eq!(line("   "), None);
    assert_eq!(line("#x"), None);
    assert_eq!(line(" # x"), None);
    assert_eq!(line("~"), Some(AllowedDir::Home));
    assert_eq!(line(" ~/x "), Some(under_home("x")));
    assert_eq!(line("/tmp"), Some(path("/tmp")));
    assert_eq!(line("\t/tmp/a b\r"), Some(path("/tmp/a b")));
}

#[test]
fn parser_agrees_with_the_standard_library() {
    let samples = [
        "",
        "\n",
        "\r\n",
        "/a",
        "/a\n",
        "/a\r\n/b",
        "~\n~/x\n~x\n",
        "#\n # \n#a\n",
        " \t /a/b \t \n\n\n/c",
        "a\rb\n",
        "\u{2028}/x\u{2029}\n",
        "~/\n~//\n ~ \n",
        "/a\n\n#c\n~\n  ~/d e  \nf\n",
    ];
    for contents in samples {
        assert_eq!(parse_allowed_dirs(contents), by_std(contents), "{:?}", contents);
    }
}
