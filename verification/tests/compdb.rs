use compdb::command::synthesize;
use compdb::config::Config;
use compdb::config::ConfigEntry;
use compdb::table::ConfigTable;
use compdb::table::FieldValue;
use compdb::table::ListItem;
use compdb::table::TopValue;
use compdb::text::object_name;
use compdb::text::str_ends_with;
use compdb::walk::visit_dirs;
use compdb::walk::FsNode;
use compdb::walk::FsTree;
use compdb::walk::RecordSink;

fn s(x: &str) -> String {
    x.to_string()
}

fn text_list(items: &[&str]) -> FieldValue {
    FieldValue::List(items.iter().map(|i| ListItem::Text(s(i))).collect())
}

fn entry_with(
    compiler: &str,
    includes: &[&str],
    flags: &[&str],
    defines: &[&str],
    filetypes: &[&str],
    include_dirs: &[&str],
) -> ConfigEntry {
    ConfigEntry {
        compiler: s(compiler),
        includes: includes.iter().map(|x| s(x)).collect(),
        flags: flags.iter().map(|x| s(x)).collect(),
        defines: defines.iter().map(|x| s(x)).collect(),
        filetypes: filetypes.iter().map(|x| s(x)).collect(),
        include_dirs: include_dirs.iter().map(|x| s(x)).collect(),
        exclude_dirs: Vec::new(),
        gitignore: None,
    }
}

fn file(name: &str, path: &str) -> FsNode {
    FsNode::File { name: s(name), path: s(path) }
}

fn dir(name: &str, children: Vec<FsNode>) -> FsNode {
    FsNode::Dir { name: s(name), children }
}

fn tree(root_name: &str, root_path: &str, entries: Vec<FsNode>) -> FsTree {
    FsTree { root_name: s(root_name), root_path: s(root_path), entries }
}

#[test]
fn stock_defaults_without_general() {
    let table = ConfigTable { entries: Vec::new() };
    let cfg = Config::new(&table);
    assert_eq!(cfg.general.compiler, "/usr/bin/cc");
    assert!(cfg.general.includes.is_empty());
    assert!(cfg.general.flags.is_empty());
    assert!(cfg.general.defines.is_empty());
    assert!(cfg.general.filetypes.is_empty());
    assert!(cfg.general.include_dirs.is_empty());
    assert!(cfg.general.exclude_dirs.is_empty());
    assert_eq!(cfg.general.gitignore, None);
    assert!(cfg.directories.is_empty());
}

#[test]
fn general_section_parsed() {
    let table = ConfigTable {
        entries: vec![(
            s("general"),
            TopValue::Section(vec![
                (s("compiler"), FieldValue::Text(s("/usr/bin/gcc"))),
                (s("includes"), text_list(&["-Ifoo", "-Ibar"])),
                (s("flags"), text_list(&["-Wall"])),
                (s("defines"), text_list(&["-DX=1"])),
                (s("filetypes"), text_list(&[".c", ".cpp"])),
                (s("include_dirs"), text_list(&["src"])),
                (s("exclude_dirs"), text_list(&["build"])),
                (s("gitignore"), FieldValue::Truth(true)),
            ]),
        )],
    };
    let cfg = Config::new(&table);
    assert_eq!(cfg.general.compiler, "/usr/bin/gcc");
    assert_eq!(cfg.general.includes, vec![s("-Ifoo"), s("-Ibar")]);
    assert_eq!(cfg.general.flags, vec![s("-Wall")]);
    assert_eq!(cfg.general.defines, vec![s("-DX=1")]);
    assert_eq!(cfg.general.filetypes, vec![s(".c"), s(".cpp")]);
    assert_eq!(cfg.general.include_dirs, vec![s("src")]);
    assert_eq!(cfg.general.exclude_dirs, vec![s("build")]);
    assert_eq!(cfg.general.gitignore, Some(true));
}

#[test]
fn malformed_fields_degrade_to_defaults() {
    let table = ConfigTable {
        entries: vec![(
            s("general"),
            TopValue::Section(vec![
                (s("compiler"), FieldValue::Truth(true)),
                (s("includes"), FieldValue::Text(s("not-a-list"))),
                (s("gitignore"), FieldValue::Text(s("yes"))),
                (s("flags"), FieldValue::List(vec![ListItem::Other, ListItem::Text(s("-g"))])),
            ]),
        )],
    };
    let cfg = Config::new(&table);
    assert_eq!(cfg.general.compiler, "/usr/bin/cc");
    assert!(cfg.general.includes.is_empty());
    assert_eq!(cfg.general.gitignore, None);
    assert_eq!(cfg.general.flags, vec![s(""), s("-g")]);
}

#[test]
fn general_bound_to_non_section_defaults() {
    let table = ConfigTable { entries: vec![(s("general"), TopValue::Other)] };
    let cfg = Config::new(&table);
    assert_eq!(cfg.general.compiler, "/usr/bin/cc");
    assert!(cfg.general.include_dirs.is_empty());
    assert!(cfg.directories.is_empty());
}

#[test]
fn override_entry_is_independent_of_general() {
    let table = ConfigTable {
        entries: vec![
            (
                s("general"),
                TopValue::Section(vec![
                    (s("compiler"), FieldValue::Text(s("/usr/bin/gcc"))),
                    (s("includes"), text_list(&["-Igeneral"])),
                    (s("include_dirs"), text_list(&["src"])),
                ]),
            ),
            (s("src"), TopValue::Section(vec![(s("flags"), text_list(&["-O2"]))])),
        ],
    };
    let cfg = Config::new(&table);
    assert_eq!(cfg.directories.len(), 1);
    let e = cfg.resolve("src");
    assert_eq!(e.flags, vec![s("-O2")]);
    assert_eq!(e.compiler, "/usr/bin/cc");
    assert!(e.includes.is_empty());
}

#[test]
fn resolve_falls_back_to_general() {
    let table = ConfigTable {
        entries: vec![
            (
                s("general"),
                TopValue::Section(vec![
                    (s("compiler"), FieldValue::Text(s("/usr/bin/gcc"))),
                    (s("include_dirs"), text_list(&["src"])),
                ]),
            ),
            (s("vendor"), TopValue::Section(vec![(s("compiler"), FieldValue::Text(s("/usr/bin/clang")))])),
        ],
    };
    let cfg = Config::new(&table);
    assert_eq!(cfg.resolve("build").compiler, "/usr/bin/gcc");
    assert_eq!(cfg.resolve("src").compiler, "/usr/bin/gcc");
    assert_eq!(cfg.resolve("vendor").compiler, "/usr/bin/gcc");
}

#[test]
fn duplicate_listed_dir_resolves_to_its_entry() {
    let table = ConfigTable {
        entries: vec![
            (s("general"), TopValue::Section(vec![(s("include_dirs"), text_list(&["src", "src"]))])),
            (s("src"), TopValue::Section(vec![(s("compiler"), FieldValue::Text(s("/usr/bin/clang")))])),
        ],
    };
    let cfg = Config::new(&table);
    assert_eq!(cfg.directories.len(), 2);
    assert_eq!(cfg.resolve("src").compiler, "/usr/bin/clang");
}

#[test]
fn object_name_strips_final_extension() {
    assert_eq!(object_name("foo.bar.c"), "foo.bar.o");
    assert_eq!(object_name("main.c"), "main.o");
    assert_eq!(object_name("noext"), "noext.o");
    assert_eq!(object_name(".hidden"), ".hidden.o");
    assert_eq!(object_name("a.b.c.d"), "a.b.c.o");
}

#[test]
fn suffix_matching() {
    assert!(str_ends_with("foo.c", ".c"));
    assert!(!str_ends_with("foo.cc", ".c"));
    assert!(str_ends_with("anything", ""));
    assert!(!str_ends_with("", ".c"));
    assert!(str_ends_with(".c", ".c"));
}

#[test]
fn argument_vector_order_exact() {
    let entry = entry_with(
        "/usr/bin/cc",
        &["-Iinc"],
        &["-Wall"],
        &["-DD=1"],
        &[".c"],
        &[],
    );
    let r = synthesize(&entry, "/r", "/r/x.c", "x.c");
    assert_eq!(
        r.arguments,
        vec![s("/usr/bin/cc"), s("-Iinc"), s("-DD=1"), s("-Wall"), s("-o"), s("x.o"), s("x.c")]
    );
    assert_eq!(r.directory, "/r");
    assert_eq!(r.file, "/r/x.c");
    assert_eq!(r.output, "/r/x.c");
}

#[test]
fn dotted_stem_scenario() {
    let entry = entry_with("/usr/bin/cc", &[], &[], &[], &[".c"], &[]);
    let r = synthesize(&entry, "/r", "/r/foo.bar.c", "foo.bar.c");
    let n = r.arguments.len();
    assert_eq!(r.arguments[n - 2], "foo.bar.o");
    assert_eq!(r.arguments[n - 1], "foo.bar.c");
}

fn gating_config() -> Config {
    let table = ConfigTable {
        entries: vec![(
            s("general"),
            TopValue::Section(vec![
                (s("include_dirs"), text_list(&["src"])),
                (s("filetypes"), text_list(&[".c"])),
            ]),
        )],
    };
    Config::new(&table)
}

#[test]
fn root_gating_scenario() {
    let cfg = gating_config();
    let t = tree(
        "proj",
        "/root",
        vec![
            dir("src", vec![file("a.c", "/root/src/a.c")]),
            dir("build", vec![file("b.c", "/root/build/b.c")]),
        ],
    );
    let mut sink = RecordSink::new();
    visit_dirs(&t, &cfg, &mut sink);
    assert_eq!(sink.records.len(), 1);
    assert_eq!(sink.records[0].file, "/root/src/a.c");
    assert_eq!(sink.records[0].output, "/root/src/a.c");
    assert_eq!(sink.records[0].directory, "/root");
}

#[test]
fn nonroot_traversal_is_unconditional() {
    let cfg = gating_config();
    let t = tree(
        "proj",
        "/root",
        vec![dir(
            "src",
            vec![dir("nested", vec![file("deep.c", "/root/src/nested/deep.c")])],
        )],
    );
    let mut sink = RecordSink::new();
    visit_dirs(&t, &cfg, &mut sink);
    assert_eq!(sink.records.len(), 1);
    assert_eq!(sink.records[0].file, "/root/src/nested/deep.c");
}

#[test]
fn gated_out_directory_contributes_nothing() {
    let cfg = gating_config();
    let t = tree(
        "proj",
        "/root",
        vec![dir("junk", vec![file("x.c", "/root/junk/x.c")])],
    );
    let mut sink = RecordSink::new();
    visit_dirs(&t, &cfg, &mut sink);
    assert_eq!(sink.records.len(), 0);
}

#[test]
fn files_at_root_level_are_matched() {
    let cfg = gating_config();
    let t = tree("proj", "/root", vec![file("main.c", "/root/main.c")]);
    let mut sink = RecordSink::new();
    visit_dirs(&t, &cfg, &mut sink);
    assert_eq!(sink.records.len(), 1);
    assert_eq!(sink.records[0].file, "/root/main.c");
    assert_eq!(sink.records[0].arguments[0], "/usr/bin/cc");
}

#[test]
fn override_compiler_applies_inside_directory() {
    let table = ConfigTable {
        entries: vec![
            (
                s("general"),
                TopValue::Section(vec![
                    (s("compiler"), FieldValue::Text(s("/usr/bin/cc"))),
                    (s("include_dirs"), text_list(&["src"])),
                    (s("filetypes"), text_list(&[".c"])),
                ]),
            ),
            (s("src"), TopValue::Section(vec![(s("compiler"), FieldValue::Text(s("/usr/bin/clang")))])),
        ],
    };
    let cfg = Config::new(&table);
    let t = tree("proj", "/root", vec![dir("src", vec![file("a.c", "/root/src/a.c")])]);
    let mut sink = RecordSink::new();
    visit_dirs(&t, &cfg, &mut sink);
    assert_eq!(sink.records.len(), 1);
    assert_eq!(sink.records[0].arguments[0], "/usr/bin/clang");
}

#[test]
fn multiple_suffix_matches_duplicate_records() {
    let table = ConfigTable {
        entries: vec![(
            s("general"),
            TopValue::Section(vec![
                (s("include_dirs"), text_list(&["src"])),
                (s("filetypes"), text_list(&[".c", "c"])),
            ]),
        )],
    };
    let cfg = Config::new(&table);
    let t = tree("proj", "/root", vec![dir("src", vec![file("a.c", "/root/src/a.c")])]);
    let mut sink = RecordSink::new();
    visit_dirs(&t, &cfg, &mut sink);
    assert_eq!(sink.records.len(), 2);
    assert_eq!(sink.records[0].arguments, sink.records[1].arguments);
}

#[test]
fn empty_filetypes_match_nothing() {
    let table = ConfigTable {
        entries: vec![(
            s("general"),
            TopValue::Section(vec![(s("include_dirs"), text_list(&["src"]))]),
        )],
    };
    let cfg = Config::new(&table);
    let t = tree("proj", "/root", vec![dir("src", vec![file("a.c", "/root/src/a.c")])]);
    let mut sink = RecordSink::new();
    visit_dirs(&t, &cfg, &mut sink);
    assert_eq!(sink.records.len(), 0);
}

fn demo_tree() -> FsTree {
    tree(
        "proj",
        "/root",
        vec![
            file("top.c", "/root/top.c"),
            dir(
                "src",
                vec![
                    file("a.c", "/root/src/a.c"),
                    dir("nested", vec![file("b.c", "/root/src/nested/b.c")]),
                ],
            ),
            dir("build", vec![file("c.c", "/root/build/c.c")]),
        ],
    )
}

#[test]
fn walk_twice_yields_identical_records() {
    let cfg = gating_config();
    let t = demo_tree();
    let mut first = RecordSink::new();
    visit_dirs(&t, &cfg, &mut first);
    let mut second = RecordSink::new();
    visit_dirs(&t, &cfg, &mut second);
    assert_eq!(first.records.len(), second.records.len());
    for (a, b) in first.records.iter().zip(second.records.iter()) {
        assert_eq!(a.arguments, b.arguments);
        assert_eq!(a.directory, b.directory);
        assert_eq!(a.file, b.file);
        assert_eq!(a.output, b.output);
    }
}

#[test]
fn records_come_in_listing_order() {
    let cfg = gating_config();
    let t = demo_tree();
    let mut sink = RecordSink::new();
    visit_dirs(&t, &cfg, &mut sink);
    let files: Vec<&str> = sink.records.iter().map(|r| r.file.as_str()).collect();
    assert_eq!(files, vec!["/root/top.c", "/root/src/a.c", "/root/src/nested/b.c"]);
}

#[test]
fn walk_appends_to_existing_records() {
    let cfg = gating_config();
    let t = demo_tree();
    let mut sink = RecordSink::new();
    visit_dirs(&t, &cfg, &mut sink);
    let half: usize = sink.records.len();
    visit_dirs(&t, &cfg, &mut sink);
    assert_eq!(sink.records.len(), 2 * half);
    assert_eq!(sink.records[0].file, sink.records[half].file);
}

#[test]
fn root_gating_membership() {
    let cfg = gating_config();
    assert!(cfg.includes_root_dir("src"));
    assert!(!cfg.includes_root_dir("build"));
    assert!(!cfg.includes_root_dir(""));
}
