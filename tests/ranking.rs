use zic_list_dirs::filter::Options;
use zic_list_dirs::rank::{rank, resolve, Resolution};

fn names(list: &[&str]) -> Vec<String> {
    list.iter().map(|s| s.to_string()).collect()
}

const DEFAULTS: Options = Options {
    case_insensitive: false,
    ignore_dot: false,
};

#[test]
fn rank_keeps_order_of_ties() {
    assert_eq!(rank("oo", &names(&["boot", "root"])), vec!["boot", "root"]);
    assert_eq!(rank("oo", &names(&["root", "boot"])), vec!["root", "boot"]);
}

#[test]
fn rank_orders_by_distance() {
    assert_eq!(rank("in", &names(&["sbin", "bin"])), vec!["bin", "sbin"]);
    assert_eq!(
        rank("abc", &names(&["xyz", "abd", "abc", "ab", "zabcz"])),
        vec!["abc", "abd", "ab", "zabcz", "xyz"]
    );
}

#[test]
fn rank_ignores_one_hidden_marker() {
    assert_eq!(rank("lib", &names(&[".lib64", ".lib"])), vec![".lib", ".lib64"]);
    assert_eq!(rank("lib", &names(&["..lib", "lib"])), vec!["lib", "..lib"]);
}

#[test]
fn rank_of_nothing_is_nothing() {
    assert_eq!(rank("x", &Vec::new()), Vec::<String>::new());
}

#[test]
fn resolve_outcomes() {
    assert_eq!(resolve("a", &DEFAULTS, &Vec::new()), Some(Resolution::Empty));
    assert_eq!(
        resolve("b", &DEFAULTS, &names(&["bin", "etc"])),
        Some(Resolution::Unique("bin".to_string()))
    );
    assert_eq!(
        resolve("", &DEFAULTS, &names(&[".only"])),
        Some(Resolution::Empty)
    );
}

#[test]
fn resolve_end_to_end() {
    let dirs = names(&[
        ".etc",
        ".home",
        ".lib",
        ".lib64",
        ".MNT",
        ".PROC",
        "bin",
        "boot",
        "lost+found",
        "root",
        "Run",
        "sbin",
        "srv",
        "sys",
    ]);
    assert_eq!(
        resolve("in", &DEFAULTS, &dirs),
        Some(Resolution::Ranked(names(&["bin", "sbin"])))
    );
    assert_eq!(
        resolve("s", &DEFAULTS, &dirs),
        Some(Resolution::Ranked(names(&["srv", "sys", "sbin"])))
    );
}
