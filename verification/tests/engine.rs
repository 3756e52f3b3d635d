use sharun::cache::{collect_so_dirs, encode_cache_text, decode_cache_text, cache_child_names, second_component, gen_lib_path_content, gen_lib_path_when_needed};
use sharun::elf::{elf_class, elf_has_section, ElfClass, LaunchError};
use sharun::env::EnvMap;
use sharun::execplan::{build_interpreter_args, choose_backend, spoof_argv0, preload_value, ExecBackend};
use sharun::interp::{interpreter_candidates, select_interpreter, pick_library_root, first_existing};
use sharun::probe::WalkEntry;
use sharun::rules::{ops_for_dir, apply_ops, xdg_ops, share_entry_ops, etc_entry_ops, DirProbes, find_file_named, find_dir_named};
use sharun::launch::{resolve_launch_mode, resolve_self_action, LaunchMode, SelfAction};

fn entry(name: &str, parent: &str, is_file: bool) -> WalkEntry {
    WalkEntry {
        name: name.to_string(),
        path: format!("{}/{}", parent, name),
        parent: parent.to_string(),
        is_file,
        is_dir: !is_file,
    }
}

fn no_probes() -> DirProbes {
    DirProbes {
        gio_modules_exists: false,
        gtk_immodules_cache: None,
        qt_plugins_exists: false,
        qt_conf_exists: false,
        gimp_two_exists: false,
        libdecor_plugins_exists: false,
        tcl_msgs_exists: false,
        tk_exists: false,
        gst_scanner_exists: false,
        gdk_loaders_dir: None,
        gdk_loaders_cache: None,
    }
}

#[test]
fn cache_regen_then_resolve_lists_each_dir_once() {
    let root = "/bundle/shared/lib";
    let entries = vec![
        entry("liba.so", "/bundle/shared/lib/gtk-3.0", true),
        entry("liba.so.1", "/bundle/shared/lib/gtk-3.0", true),
        entry("libb.so", "/bundle/shared/lib/pulse", true),
        entry("readme.txt", "/bundle/shared/lib/docs", true),
        entry("libc.so", "/bundle/shared/lib", true),
    ];
    let dirs = collect_so_dirs(&entries, root);
    assert_eq!(dirs, vec!["/bundle/shared/lib/gtk-3.0".to_string(), "/bundle/shared/lib/pulse".to_string()]);
    let cache = encode_cache_text(&dirs, root);
    assert_eq!(cache, "+\n+/gtk-3.0\n+/pulse");
    let path = decode_cache_text(&cache, root);
    assert_eq!(path, "/bundle/shared/lib:/bundle/shared/lib/gtk-3.0:/bundle/shared/lib/pulse");
    assert_eq!(path.matches("/bundle/shared/lib/gtk-3.0").count(), 1);
}

#[test]
fn cache_regeneration_is_idempotent() {
    let root = "/b/shared/lib";
    let entries = vec![
        entry("libx.so.2", "/b/shared/lib/spa-0.2", true),
        entry("libx.so.2", "/b/shared/lib/spa-0.2", true),
    ];
    let first = encode_cache_text(&collect_so_dirs(&entries, root), root);
    let second = encode_cache_text(&collect_so_dirs(&entries, root), root);
    assert_eq!(first, second);
    assert_eq!(first, "+\n+/spa-0.2");
}

#[test]
fn cache_survives_relocation() {
    let old_root = "/old/place/shared/lib";
    let entries = vec![entry("libz.so", "/old/place/shared/lib/dri", true)];
    let dirs = collect_so_dirs(&entries, old_root);
    let cache = encode_cache_text(&dirs, old_root);
    let new_root = "/new/mount/shared/lib";
    let path = decode_cache_text(&cache, new_root);
    assert_eq!(path, "/new/mount/shared/lib:/new/mount/shared/lib/dri");
}

#[test]
fn cache_child_names_drive_the_synthesizer() {
    assert_eq!(second_component("+/gtk-3.0/modules"), "gtk-3.0");
    assert_eq!(second_component("+"), "");
    let names = cache_child_names("+\n+/gtk-3.0\n+/gtk-3.0/sub\n+/python3.11\n");
    assert_eq!(names, vec!["".to_string(), "gtk-3.0".to_string(), "python3.11".to_string()]);
}

#[test]
fn gen_lib_path_content_on_missing_root_is_bare_marker() {
    let content = gen_lib_path_content("/no/such/root/anywhere-at-all");
    assert_eq!(content, "+");
}

#[test]
fn elf_class_reads_the_magic_header() {
    assert_eq!(elf_class(&vec![0x7f, 0x45, 0x4c, 0x46, 1, 0, 0]), Ok(ElfClass::Bits32));
    assert_eq!(elf_class(&vec![0x7f, 0x45, 0x4c, 0x46, 2]), Ok(ElfClass::Bits64));
    assert_eq!(elf_class(&vec![0x7f, 0x45, 0x4c, 0x47, 1]), Err(LaunchError::NotElf));
    assert_eq!(elf_class(&vec![0x7f, 0x45]), Err(LaunchError::NotElf));
}

#[test]
fn non_elf_bytes_have_no_sections() {
    assert!(!elf_has_section(&vec![1, 2, 3, 4], "pydata"));
    assert!(!elf_has_section(&Vec::new(), "pydata"));
}

#[test]
fn interpreter_candidates_follow_the_override() {
    assert_eq!(
        interpreter_candidates(None),
        vec![
            "ld-linux-x86-64.so.2".to_string(),
            "ld-musl-x86_64.so.1".to_string(),
            "ld-linux.so.2".to_string()
        ]
    );
    assert_eq!(interpreter_candidates(Some("ld-custom.so")), vec!["ld-custom.so".to_string()]);
    assert_eq!(interpreter_candidates(Some("")), Vec::<String>::new());
}

#[test]
fn thirty_two_bit_target_without_its_root_fails_before_exec() {
    let root = pick_library_root(ElfClass::Bits32, "/b/shared/lib", "/b/shared/lib32");
    assert_eq!(root, "/b/shared/lib32");
    let chosen = elf_class(&vec![0x7f, 0x45, 0x4c, 0x46, 1]).unwrap();
    assert_eq!(chosen, ElfClass::Bits32);
    let resolved = select_interpreter("/b/shared/lib32", None);
    assert_eq!(resolved, Err(LaunchError::InterpreterNotFound));
}

#[test]
fn frozen_targets_use_direct_exec_with_their_own_path() {
    assert_eq!(choose_backend(true), ExecBackend::DirectSyscall);
    assert_eq!(choose_backend(false), ExecBackend::EmulatedLoader);
    assert_eq!(spoof_argv0(true, "/b/shared/bin/app", "/usr/local/bin/app"), "/b/shared/bin/app");
    assert_eq!(spoof_argv0(false, "/b/shared/bin/app", "/usr/local/bin/app"), "/usr/local/bin/app");
}

#[test]
fn interpreter_argv_is_assembled_in_order() {
    let args = vec!["--flag".to_string(), "input.txt".to_string()];
    let v = build_interpreter_args(
        "/b/shared/lib/ld-linux-x86-64.so.2",
        "/b/shared/lib:/b/shared/lib/pulse",
        "/usr/bin/app",
        None,
        "/b/shared/bin/app",
        &args,
    );
    assert_eq!(
        v,
        vec![
            "/b/shared/lib/ld-linux-x86-64.so.2".to_string(),
            "--library-path".to_string(),
            "/b/shared/lib:/b/shared/lib/pulse".to_string(),
            "--argv0".to_string(),
            "/usr/bin/app".to_string(),
            "/b/shared/bin/app".to_string(),
            "--flag".to_string(),
            "input.txt".to_string()
        ]
    );
}

#[test]
fn preload_pair_is_inserted_before_the_target() {
    let preload = preload_value("libone.so\n  libtwo.so  \n");
    assert_eq!(preload, "libone.so libtwo.so");
    let v = build_interpreter_args("/ld.so", "/lib", "app", Some(&preload), "/bin/app", &Vec::new());
    assert_eq!(
        v,
        vec![
            "/ld.so".to_string(),
            "--library-path".to_string(),
            "/lib".to_string(),
            "--argv0".to_string(),
            "app".to_string(),
            "--preload".to_string(),
            "libone.so libtwo.so".to_string(),
            "/bin/app".to_string()
        ]
    );
}

#[test]
fn launch_mode_follows_the_invoked_name() {
    assert_eq!(resolve_launch_mode("sharun", "sharun"), LaunchMode::SelfMode);
    assert_eq!(resolve_launch_mode("AppRun", "sharun"), LaunchMode::AppRun);
    assert_eq!(resolve_launch_mode("myapp", "sharun"), LaunchMode::NamedBinary);
}

#[test]
fn self_mode_dispatch_recognises_each_option() {
    assert_eq!(resolve_self_action(false, ""), SelfAction::ListTargets);
    assert_eq!(resolve_self_action(true, "-v"), SelfAction::PrintVersion);
    assert_eq!(resolve_self_action(true, "--version"), SelfAction::PrintVersion);
    assert_eq!(resolve_self_action(true, "-h"), SelfAction::PrintHelp);
    assert_eq!(resolve_self_action(true, "--help"), SelfAction::PrintHelp);
    assert_eq!(resolve_self_action(true, "-g"), SelfAction::GenLibPath);
    assert_eq!(resolve_self_action(true, "--gen-lib-path"), SelfAction::GenLibPath);
    assert_eq!(resolve_self_action(true, "l"), SelfAction::RunPackager);
    assert_eq!(resolve_self_action(true, "lib4bin"), SelfAction::RunPackager);
    assert_eq!(resolve_self_action(true, "myapp"), SelfAction::DispatchTarget);
}

#[test]
fn gtk_bundle_launch_end_to_end() {
    let sharun_dir = "/bundle";
    let library_path = "/bundle/shared/lib";
    let mode = resolve_launch_mode("myapp", "sharun");
    assert_eq!(mode, LaunchMode::NamedBinary);
    let target = format!("{}/shared/bin/{}", sharun_dir, "myapp");
    assert_eq!(target, "/bundle/shared/bin/myapp");

    let entries = vec![entry("libgtk-3.so.0", "/bundle/shared/lib/gtk-3.0", true)];
    let dirs = collect_so_dirs(&entries, library_path);
    let cache = encode_cache_text(&dirs, library_path);
    let names = cache_child_names(&cache);
    assert!(names.contains(&"gtk-3.0".to_string()));

    let mut env = EnvMap::new();
    let ops = ops_for_dir(
        "gtk-3.0",
        "/bundle/shared/lib/gtk-3.0",
        sharun_dir,
        library_path,
        &no_probes(),
    );
    apply_ops(&mut env, &ops);
    assert_eq!(env.get("GTK_EXE_PREFIX"), Some("/bundle".to_string()));
    assert_eq!(env.get("GTK_DATA_PREFIX"), Some("/bundle".to_string()));
    let gtk_path = env.get("GTK_PATH").unwrap();
    assert!(!gtk_path.is_empty());
    assert!(gtk_path.contains("/bundle/shared/lib/gtk-3.0"));

    let search_path = decode_cache_text(&cache, library_path);
    let argv = build_interpreter_args(
        "/bundle/shared/lib/ld-linux-x86-64.so.2",
        &search_path,
        "/usr/local/bin/myapp",
        None,
        &target,
        &vec!["--file".to_string()],
    );
    assert_eq!(argv[5], "/bundle/shared/bin/myapp");
    assert_eq!(argv.last().unwrap(), "--file");
}

#[test]
fn python_rule_sets_home_and_bytecode() {
    let mut env = EnvMap::new();
    let ops = ops_for_dir("python3.11", "/b/shared/lib/python3.11", "/b", "/b/shared/lib", &no_probes());
    apply_ops(&mut env, &ops);
    assert_eq!(env.get("PYTHONHOME"), Some("/b".to_string()));
    assert_eq!(env.get("PYTHONDONTWRITEBYTECODE"), Some("1".to_string()));
}

#[test]
fn perl_rule_prepends_the_directory() {
    let mut env = EnvMap::new();
    env.set("PERLLIB", "/host/perl".to_string());
    let ops = ops_for_dir("perl5", "/b/shared/lib/perl5", "/b", "/b/shared/lib", &no_probes());
    apply_ops(&mut env, &ops);
    assert_eq!(env.get("PERLLIB"), Some("/b/shared/lib/perl5:/host/perl".to_string()));
}

#[test]
fn qt_rule_is_gated_on_plugins_and_qt_conf() {
    let mut probes = no_probes();
    probes.qt_plugins_exists = true;
    let mut env = EnvMap::new();
    let ops = ops_for_dir("qt6", "/b/shared/lib/qt6", "/b", "/b/shared/lib", &probes);
    apply_ops(&mut env, &ops);
    assert_eq!(env.get("QT_PLUGIN_PATH"), Some("/b/shared/lib/qt6/plugins".to_string()));

    probes.qt_conf_exists = true;
    let mut env2 = EnvMap::new();
    let ops2 = ops_for_dir("qt6", "/b/shared/lib/qt6", "/b", "/b/shared/lib", &probes);
    apply_ops(&mut env2, &ops2);
    assert_eq!(env2.get("QT_PLUGIN_PATH"), None);
}

#[test]
fn tcl_rule_finds_the_tk_sibling() {
    let mut probes = no_probes();
    probes.tcl_msgs_exists = true;
    probes.tk_exists = true;
    let mut env = EnvMap::new();
    let ops = ops_for_dir("tcl8.6", "/b/shared/lib/tcl8.6", "/b", "/b/shared/lib", &probes);
    apply_ops(&mut env, &ops);
    assert_eq!(env.get("TCL_LIBRARY"), Some("/b/shared/lib/tcl8.6".to_string()));
    assert_eq!(env.get("TK_LIBRARY"), Some("/b/shared/lib/tk8.6".to_string()));
}

#[test]
fn gstreamer_rule_sets_the_scanner_when_present() {
    let mut probes = no_probes();
    probes.gst_scanner_exists = true;
    let mut env = EnvMap::new();
    let ops = ops_for_dir("gstreamer-1.0", "/b/shared/lib/gstreamer-1.0", "/b", "/b/shared/lib", &probes);
    apply_ops(&mut env, &ops);
    assert_eq!(env.get("GST_PLUGIN_PATH"), Some("/b/shared/lib/gstreamer-1.0".to_string()));
    assert_eq!(env.get("GST_PLUGIN_SYSTEM_PATH_1_0"), Some("/b/shared/lib/gstreamer-1.0".to_string()));
    assert_eq!(
        env.get("GST_PLUGIN_SCANNER"),
        Some("/b/shared/lib/gstreamer-1.0/gst-plugin-scanner".to_string())
    );
}

#[test]
fn gdk_pixbuf_rule_uses_the_walked_paths() {
    let mut probes = no_probes();
    probes.gdk_loaders_dir = Some("/b/shared/lib/gdk-pixbuf-2.0/2.10.0/loaders".to_string());
    probes.gdk_loaders_cache = Some("/b/shared/lib/gdk-pixbuf-2.0/2.10.0/loaders.cache".to_string());
    let mut env = EnvMap::new();
    let ops = ops_for_dir("gdk-pixbuf-2.0", "/b/shared/lib/gdk-pixbuf-2.0", "/b", "/b/shared/lib", &probes);
    apply_ops(&mut env, &ops);
    assert_eq!(
        env.get("GDK_PIXBUF_MODULEDIR"),
        Some("/b/shared/lib/gdk-pixbuf-2.0/2.10.0/loaders".to_string())
    );
    assert_eq!(
        env.get("GDK_PIXBUF_MODULE_FILE"),
        Some("/b/shared/lib/gdk-pixbuf-2.0/2.10.0/loaders.cache".to_string())
    );
}

#[test]
fn gio_rule_is_gated_on_the_modules_dir() {
    let mut probes = no_probes();
    probes.gio_modules_exists = true;
    let mut env = EnvMap::new();
    let ops = ops_for_dir("gio", "/b/shared/lib/gio", "/b", "/b/shared/lib", &probes);
    apply_ops(&mut env, &ops);
    assert_eq!(env.get("GIO_MODULE_DIR"), Some("/b/shared/lib/gio/modules".to_string()));

    let mut env2 = EnvMap::new();
    let ops2 = ops_for_dir("gio", "/b/shared/lib/gio", "/b", "/b/shared/lib", &no_probes());
    apply_ops(&mut env2, &ops2);
    assert_eq!(env2.get("GIO_MODULE_DIR"), None);
}

#[test]
fn xdg_data_dirs_end_with_the_bundle_share_first() {
    let mut env = EnvMap::new();
    let ops = xdg_ops("/b/share");
    apply_ops(&mut env, &ops);
    assert_eq!(
        env.get("XDG_DATA_DIRS"),
        Some("/b/share:/usr/share:/usr/local/share".to_string())
    );
}

#[test]
fn share_pass_rules_are_gated_on_their_nested_paths() {
    let mut env = EnvMap::new();
    let ops = share_entry_ops("glvnd", "/b/share/glvnd", true);
    apply_ops(&mut env, &ops);
    assert_eq!(
        env.get("__EGL_VENDOR_LIBRARY_DIRS"),
        Some("/b/share/glvnd/egl_vendor.d:/usr/share/glvnd/egl_vendor.d".to_string())
    );

    let mut env2 = EnvMap::new();
    let ops2 = share_entry_ops("vulkan", "/b/share/vulkan", false);
    apply_ops(&mut env2, &ops2);
    assert_eq!(env2.get("VK_DRIVER_FILES"), None);

    let mut env3 = EnvMap::new();
    let ops3 = share_entry_ops("terminfo", "/b/share/terminfo", false);
    apply_ops(&mut env3, &ops3);
    assert_eq!(env3.get("TERMINFO"), Some("/b/share/terminfo".to_string()));
}

#[test]
fn etc_pass_sets_fontconfig_and_gimp() {
    let mut env = EnvMap::new();
    let ops = etc_entry_ops("fonts", "/b/etc/fonts", true);
    apply_ops(&mut env, &ops);
    assert_eq!(env.get("FONTCONFIG_FILE"), Some("/b/etc/fonts/fonts.conf".to_string()));

    let mut env2 = EnvMap::new();
    let ops2 = etc_entry_ops("gimp", "/b/etc/gimp", true);
    apply_ops(&mut env2, &ops2);
    assert_eq!(env2.get("GIMP2_SYSCONFDIR"), Some("/b/etc/gimp/2.0".to_string()));
}

#[test]
fn cache_names_alone_drive_unconditional_rules() {
    // No bundle exists on disk: every probe answers no, yet the cache text
    // naming python3.11 and dri must still produce their unconditional
    // assignments.
    let mut env = EnvMap::new();
    let ops = sharun::rules::synthesize_from_cache(
        &mut env,
        "+\n+/python3.11\n+/dri\n",
        "/nowhere/bundle/shared/lib",
        "/nowhere/bundle",
        "/nowhere/bundle/bin",
    );
    assert!(!ops.is_empty());
    assert_eq!(env.get("PYTHONHOME"), Some("/nowhere/bundle".to_string()));
    assert_eq!(env.get("PYTHONDONTWRITEBYTECODE"), Some("1".to_string()));
    assert_eq!(
        env.get("LIBGL_DRIVERS_PATH"),
        Some("/nowhere/bundle/shared/lib/dri".to_string())
    );
}

#[test]
fn lazy_cache_decision_follows_the_two_probes() {
    assert_eq!(
        gen_lib_path_when_needed("/no/such/root/anywhere-at-all", false, true),
        Some("+".to_string())
    );
    assert_eq!(gen_lib_path_when_needed("/no/such/root/anywhere-at-all", true, true), None);
    assert_eq!(gen_lib_path_when_needed("/no/such/root/anywhere-at-all", false, false), None);
    assert_eq!(gen_lib_path_when_needed("/no/such/root/anywhere-at-all", true, false), None);
}

#[test]
fn interpreter_selection_takes_the_first_existing_candidate() {
    let cands = interpreter_candidates(None);
    let r = first_existing("/b/shared/lib", &cands, &vec![false, true, true]);
    assert_eq!(r, Ok("/b/shared/lib/ld-musl-x86_64.so.1".to_string()));
    let r = first_existing("/b/shared/lib", &cands, &vec![true, false, true]);
    assert_eq!(r, Ok("/b/shared/lib/ld-linux-x86-64.so.2".to_string()));
    let r = first_existing("/b/shared/lib", &cands, &vec![false, false, false]);
    assert_eq!(r, Err(LaunchError::InterpreterNotFound));
    let r = first_existing("/b/shared/lib", &Vec::new(), &Vec::new());
    assert_eq!(r, Err(LaunchError::InterpreterNotFound));
}

#[test]
fn walked_search_returns_the_first_match() {
    let entries = vec![
        entry("loaders.cache", "/b/gdk/old", true),
        entry("loaders.cache", "/b/gdk/new", true),
        entry("loaders", "/b/gdk/one", false),
        entry("loaders", "/b/gdk/two", false),
    ];
    assert_eq!(find_file_named(&entries, "loaders.cache"), Some("/b/gdk/old/loaders.cache".to_string()));
    assert_eq!(find_dir_named(&entries, "loaders"), Some("/b/gdk/one/loaders".to_string()));
    assert_eq!(find_file_named(&entries, "absent"), None);
}
