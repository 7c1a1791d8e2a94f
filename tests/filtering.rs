use zic_list_dirs::filter::{filter_dir_list, Options};
use zic_list_dirs::pattern::regex_escape;

fn names(list: &[&str]) -> Vec<String> {
    list.iter().map(|s| s.to_string()).collect()
}

fn root_dirs() -> Vec<String> {
    names(&[
        ".etc",
        ".home",
        ".lib",
        ".lib64",
        ".MNT",
        ".PROC",
        "bin",
        "boot",
        "lost+found",
        "root",
        "Run",
        "sbin",
        "srv",
        "sys",
    ])
}

const DEFAULTS: Options = Options {
    case_insensitive: false,
    ignore_dot: false,
};

#[test]
fn test_filter_dir_list() {
    let dirs = root_dirs();

    let options = Options {
        ignore_dot: false,
        case_insensitive: false,
    };

    assert_eq!(
        filter_dir_list("", &options, &dirs).unwrap(),
        vec!["bin", "boot", "lost+found", "root", "Run", "sbin", "srv", "sys",]
    );
    assert_eq!(
        filter_dir_list(".", &options, &dirs).unwrap(),
        vec![".etc", ".home", ".lib", ".lib64", ".MNT", ".PROC",]
    );
    assert_eq!(filter_dir_list("b", &options, &dirs).unwrap(), vec!["bin", "boot",]);
    assert_eq!(filter_dir_list("oo", &options, &dirs).unwrap(), vec!["boot", "root"]);
    assert_eq!(filter_dir_list("in", &options, &dirs).unwrap(), vec!["bin", "sbin"]);
    // no tier matches these two: every name passes through unfiltered
    assert_eq!(filter_dir_list("ib", &options, &dirs).unwrap(), dirs);
    assert_eq!(filter_dir_list("r", &options, &dirs).unwrap(), vec!["root"]);
    assert_eq!(filter_dir_list("mnt", &options, &dirs).unwrap(), dirs);

    let options = Options {
        ignore_dot: true,
        case_insensitive: true,
    };

    assert_eq!(
        filter_dir_list("", &options, &dirs).unwrap(),
        vec![
            ".etc",
            ".home",
            ".lib",
            ".lib64",
            ".MNT",
            ".PROC",
            "bin",
            "boot",
            "lost+found",
            "root",
            "Run",
            "sbin",
            "srv",
            "sys",
        ]
    );
    assert_eq!(
        filter_dir_list(".", &options, &dirs).unwrap(),
        vec![".etc", ".home", ".lib", ".lib64", ".MNT", ".PROC",]
    );
    assert_eq!(filter_dir_list("r", &options, &dirs).unwrap(), vec!["root", "Run"]);
    assert_eq!(filter_dir_list("mnt", &options, &dirs).unwrap(), vec![".MNT"]);
    assert_eq!(filter_dir_list("m", &options, &dirs).unwrap(), vec![".MNT"]);
    assert_eq!(
        filter_dir_list("ib", &options, &dirs).unwrap(),
        vec![".lib", ".lib64"]
    );
}

#[test]
fn escape_wraps_each_character() {
    assert_eq!(regex_escape(""), "");
    assert_eq!(regex_escape("ab"), "[a][b]");
    assert_eq!(regex_escape("a.b"), "[a][.][b]");
    assert_eq!(regex_escape("^\\[]"), "[\\^][\\\\][\\[][\\]]");
    assert_eq!(regex_escape("é*"), "[é][*]");
}

#[test]
fn escaped_token_matches_itself_literally() {
    let samples = [
        "a.b", "^x", "[", "]", "\\", "a*b", "(x)", "$", "+", "?", "|", "{1}", "-", "&&", "~~",
        "--", "[a-z]", "x]y", "][", "\\d", ".*", "a b", "#", "ü", "[^.]", "^", "a|b",
    ];
    for s in samples {
        let found = filter_dir_list(s, &DEFAULTS, &names(&[s])).unwrap();
        assert_eq!(found, vec![s.to_string()], "token {s:?}");
    }
}

#[test]
fn metacharacters_stay_literal() {
    // "." must not match any character, "*" must not repeat
    let dirs = names(&["axb", "a.b"]);
    assert_eq!(filter_dir_list("a.b", &DEFAULTS, &dirs).unwrap(), vec!["a.b"]);
    let dirs = names(&["aab", "a*b"]);
    assert_eq!(filter_dir_list("a*", &DEFAULTS, &dirs).unwrap(), vec!["a*b"]);
}

#[test]
fn prefix_tier_shadows_later_tiers() {
    // "ab" is a prefix of "abc" only; "xab" holds it as a substring and
    // "aXb" holds its characters apart
    let dirs = names(&["aXb", "xab", "abc"]);
    assert_eq!(filter_dir_list("ab", &DEFAULTS, &dirs).unwrap(), vec!["abc"]);
    let dirs = names(&["aXb", "xab"]);
    assert_eq!(filter_dir_list("ab", &DEFAULTS, &dirs).unwrap(), vec!["xab"]);
    let dirs = names(&["zaXb", "zzz"]);
    assert_eq!(filter_dir_list("ab", &DEFAULTS, &dirs).unwrap(), vec!["zaXb"]);
    let dirs = names(&["zzz", "yyy"]);
    assert_eq!(filter_dir_list("ab", &DEFAULTS, &dirs).unwrap(), dirs);
}

#[test]
fn hidden_entries_excluded_from_empty_token() {
    let dirs = names(&[".etc", "bin", "boot"]);
    assert_eq!(filter_dir_list("", &DEFAULTS, &dirs).unwrap(), vec!["bin", "boot"]);
    let with_hidden = Options {
        case_insensitive: false,
        ignore_dot: true,
    };
    assert_eq!(filter_dir_list("", &with_hidden, &dirs).unwrap(), dirs);
}

#[test]
fn case_folding_applies_to_matching() {
    let dirs = names(&["Run", "run"]);
    let fold = Options {
        case_insensitive: true,
        ignore_dot: false,
    };
    assert_eq!(filter_dir_list("r", &fold, &dirs).unwrap(), vec!["Run", "run"]);
    assert_eq!(filter_dir_list("R", &DEFAULTS, &dirs).unwrap(), vec!["Run"]);
}

#[test]
fn hidden_token_forces_hidden_substring() {
    let dirs = root_dirs();
    assert_eq!(filter_dir_list(".ib", &DEFAULTS, &dirs).unwrap(), vec![".lib", ".lib64"]);
    assert_eq!(filter_dir_list(".c", &DEFAULTS, &dirs).unwrap(), vec![".etc"]);
}

#[test]
fn semi_fuzzy_tier_allows_gaps() {
    let dirs = root_dirs();
    assert_eq!(filter_dir_list("of", &DEFAULTS, &dirs).unwrap(), vec!["lost+found"]);
    assert_eq!(filter_dir_list("st", &DEFAULTS, &dirs).unwrap(), vec!["lost+found"]);
    assert_eq!(
        filter_dir_list("sn", &DEFAULTS, &dirs).unwrap(),
        vec!["lost+found", "sbin"]
    );
    // the spread token may start at the name's first character
    let dirs = names(&["axb", "zzz"]);
    assert_eq!(filter_dir_list("ab", &DEFAULTS, &dirs).unwrap(), vec!["axb"]);
    // but a hidden name stays out unless hidden names are admitted
    let dirs = names(&[".axb", "zzz"]);
    assert_eq!(filter_dir_list("ab", &DEFAULTS, &dirs).unwrap(), dirs);
    let with_hidden = Options {
        case_insensitive: false,
        ignore_dot: true,
    };
    assert_eq!(filter_dir_list("ab", &with_hidden, &dirs).unwrap(), vec![".axb"]);
}

#[test]
fn names_with_line_breaks_match() {
    let dirs = names(&["a\nb", "zzz"]);
    assert_eq!(filter_dir_list("a", &DEFAULTS, &dirs).unwrap(), vec!["a\nb"]);
    assert_eq!(filter_dir_list("b", &DEFAULTS, &dirs).unwrap(), vec!["a\nb"]);
    assert_eq!(filter_dir_list("ab", &DEFAULTS, &dirs).unwrap(), vec!["a\nb"]);
}

#[test]
fn end_to_end_substring_tier() {
    let dirs = root_dirs();
    assert_eq!(filter_dir_list("in", &DEFAULTS, &dirs).unwrap(), vec!["bin", "sbin"]);
}

#[test]
fn unmatched_token_passes_all_names() {
    let dirs = root_dirs();
    assert_eq!(filter_dir_list("xyz123", &DEFAULTS, &dirs).unwrap(), dirs);
    let empty: Vec<String> = Vec::new();
    assert_eq!(filter_dir_list("xyz123", &DEFAULTS, &empty).unwrap(), empty);
}
