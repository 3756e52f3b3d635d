use sharun::paths::{basename, dirname, same_inode, mode_is_exe};
use sharun::env::EnvMap;
use sharun::launch::{appname_from_desktop, appname_from_app_file, normalize_app_name, unset_names, split_ws_tokens, first_ws_token, named_dispatch_direct, initial_bin_name};
use sharun::strutil::{str_eq, contains_str, starts_with_str, ends_with_str, trim_str, split_char, replace_char_with, concat_str};

#[test]
fn dirname_follows_posix_splitting() {
    assert_eq!(dirname("/a"), "/");
    assert_eq!(dirname("a"), ".");
    assert_eq!(dirname("./a/b"), "./a");
    assert_eq!(dirname(""), ".");
}

#[test]
fn dirname_handles_the_remaining_shapes() {
    assert_eq!(dirname("/a/b"), "/a");
    assert_eq!(dirname("a/b"), "./a");
    assert_eq!(dirname("~/x"), "~");
    assert_eq!(dirname("/"), "/");
}

#[test]
fn basename_takes_the_text_after_the_last_slash() {
    assert_eq!(basename("/usr/bin/app"), "app");
    assert_eq!(basename("app"), "app");
    assert_eq!(basename("a/b/"), "");
    assert_eq!(basename(""), "");
}

#[test]
fn prepending_a_contained_value_leaves_the_variable_unchanged() {
    let mut env = EnvMap::new();
    env.set("PATH", "/bundle/bin:/usr/bin".to_string());
    env.prepend("PATH", "/bundle/bin");
    assert_eq!(env.get("PATH"), Some("/bundle/bin:/usr/bin".to_string()));
}

#[test]
fn prepending_a_new_value_puts_it_first_and_keeps_the_rest() {
    let mut env = EnvMap::new();
    env.set("PATH", "/usr/bin:/bin".to_string());
    env.prepend("PATH", "/bundle/bin");
    assert_eq!(env.get("PATH"), Some("/bundle/bin:/usr/bin:/bin".to_string()));
}

#[test]
fn prepending_to_an_unset_or_empty_variable_sets_it() {
    let mut env = EnvMap::new();
    env.prepend("PERLLIB", "/b/perl");
    assert_eq!(env.get("PERLLIB"), Some("/b/perl".to_string()));
    env.set("GTK_PATH", "".to_string());
    env.prepend("GTK_PATH", "/b/gtk");
    assert_eq!(env.get("GTK_PATH"), Some("/b/gtk".to_string()));
}

#[test]
fn substring_containment_masks_a_shorter_entry() {
    // The duplicate check is substring-based on purpose: /lib is masked by
    // /usr/lib even though it is not listed as its own entry.
    let mut env = EnvMap::new();
    env.set("LIBPATH", "/usr/lib".to_string());
    env.prepend("LIBPATH", "lib");
    assert_eq!(env.get("LIBPATH"), Some("/usr/lib".to_string()));
}

#[test]
fn env_block_keeps_insertion_order() {
    let mut env = EnvMap::new();
    env.set("A", "1".to_string());
    env.set("B", "2".to_string());
    env.set("A", "3".to_string());
    assert_eq!(env.to_lines(), vec!["A=3".to_string(), "B=2".to_string()]);
    env.remove("A");
    assert_eq!(env.to_lines(), vec!["B=2".to_string()]);
    assert_eq!(env.get("A"), None);
    assert_eq!(env.get_or_empty("A"), "");
    assert_eq!(env.get_or_empty("B"), "2");
}

#[test]
fn env_block_from_existing_pairs() {
    let env = EnvMap::from_pairs(vec![
        ("HOME".to_string(), "/root".to_string()),
        ("TERM".to_string(), "xterm".to_string()),
    ]);
    assert_eq!(env.get("HOME"), Some("/root".to_string()));
    assert_eq!(env.to_lines(), vec!["HOME=/root".to_string(), "TERM=xterm".to_string()]);
}

#[test]
fn desktop_exec_line_yields_the_entry_name() {
    let content = "[Desktop Entry]\nName=My App\nExec=myapp --flag %F\nIcon=myapp\n";
    assert_eq!(appname_from_desktop(content), Some("myapp".to_string()));
    assert_eq!(appname_from_desktop("[Desktop Entry]\nName=x\n"), None);
}

#[test]
fn app_file_first_line_is_the_name() {
    assert_eq!(appname_from_app_file("  myapp\nsecond\n"), "myapp");
    assert_eq!(normalize_app_name("/usr/bin/'my app'"), "my app");
    assert_eq!(normalize_app_name("\"quoted\""), "quoted");
}

#[test]
fn unset_directives_collect_all_names() {
    let content = "FOO=bar\nunset A B\n  unset C\nBAR=baz\n";
    assert_eq!(
        unset_names(content),
        vec!["A".to_string(), "B".to_string(), "C".to_string()]
    );
    assert_eq!(unset_names("FOO=bar\n"), Vec::<String>::new());
}

#[test]
fn whitespace_tokens_are_split_and_picked() {
    assert_eq!(
        split_ws_tokens("  a  bb\tccc "),
        vec!["a".to_string(), "bb".to_string(), "ccc".to_string()]
    );
    assert_eq!(first_ws_token("  lead rest"), "lead");
    assert_eq!(first_ws_token("   "), "");
}

#[test]
fn named_dispatch_follows_inode_and_shadowing() {
    assert!(named_dispatch_direct(true, true, true));
    assert!(named_dispatch_direct(true, false, false));
    assert!(!named_dispatch_direct(true, false, true));
    assert!(!named_dispatch_direct(false, true, false));
}

#[test]
fn initial_name_prefers_the_symlink() {
    assert_eq!(initial_bin_name(true, "myapp", "sharun"), "myapp");
    assert_eq!(initial_bin_name(false, "myapp", "sharun"), "sharun");
}

#[test]
fn string_helpers_match_their_specs() {
    assert!(str_eq("abc", "abc"));
    assert!(!str_eq("abc", "abd"));
    assert!(contains_str("ld-musl-x86_64.so.1", ".so."));
    assert!(!contains_str("ld.so", ".so."));
    assert!(starts_with_str("python3.11", "python"));
    assert!(!starts_with_str("py", "python"));
    assert!(ends_with_str("libfoo.so", ".so"));
    assert!(!ends_with_str("libfoo.so.1", ".so"));
    assert_eq!(trim_str("  x\ty \n"), "x\ty");
    assert_eq!(split_char("a::b", ':'), vec!["a".to_string(), "".to_string(), "b".to_string()]);
    assert_eq!(split_char("", ':'), vec!["".to_string()]);
    assert_eq!(replace_char_with("+\n+/x", '\n', ":"), "+:+/x");
    assert_eq!(replace_char_with("+/x", '+', "/root"), "/root/x");
    assert_eq!(concat_str("/a", "/b"), "/a/b");
}

#[test]
fn missing_dotenv_file_merges_nothing() {
    let mut env = EnvMap::new();
    env.set("KEEP", "1".to_string());
    let read = env.merge_dotenv("/no/such/bundle/.env");
    assert!(!read);
    assert_eq!(env.to_lines(), vec!["KEEP=1".to_string()]);
}

#[test]
fn hardlink_decision_compares_inodes_symmetrically() {
    let a = Some((7u64, 0o100644u64));
    let b = Some((7u64, 0o100755u64));
    let c = Some((9u64, 0o100755u64));
    assert!(same_inode(a, b));
    assert!(same_inode(b, a));
    assert!(!same_inode(a, c));
    assert!(!same_inode(c, a));
    assert!(!same_inode(None, b));
    assert!(!same_inode(a, None));
}

#[test]
fn executability_decision_needs_a_regular_file_and_a_bit() {
    assert!(mode_is_exe(Some((1, 0o100755))));
    assert!(mode_is_exe(Some((1, 0o100100))));
    assert!(!mode_is_exe(Some((1, 0o100644))));
    assert!(!mode_is_exe(Some((1, 0o040755))));
    assert!(!mode_is_exe(None));
}

#[test]
fn merging_pairs_keeps_bound_keys_and_adds_the_rest() {
    let mut env = EnvMap::new();
    env.set("HOME", "/root".to_string());
    env.merge_pairs(&vec![
        ("HOME".to_string(), "/elsewhere".to_string()),
        ("LANG".to_string(), "C".to_string()),
        ("LANG".to_string(), "en_US".to_string()),
    ]);
    assert_eq!(env.to_lines(), vec!["HOME=/root".to_string(), "LANG=C".to_string()]);
}
