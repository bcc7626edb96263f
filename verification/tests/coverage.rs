use tfcov::address::{parse_address, strip_index_exec};
use tfcov::catalog::Module;
use tfcov::report::{aggregate, coverage_percent_x100};
use tfcov::resolver::{apply_address, ApplyOutcome, MatchError, Resolver};
use tfcov::scan::{scan_files, ScanError, SourceFile};

fn bv(s: &str) -> Vec<u8> {
    s.as_bytes().to_vec()
}

fn file(path: &str, lines: &[&str]) -> SourceFile {
    SourceFile {
        path: bv(path),
        lines: lines.iter().map(|l| bv(l)).collect(),
    }
}

fn scan_one(path: &str, fpath: &str, lines: &[&str]) -> Module {
    scan_files(bv(path), &vec![file(fpath, lines)]).expect("scan failed")
}

#[test]
fn single_line_data_source() {
    let m = scan_one("/root", "/root/main.tf", &["data \"x\" \"y\" { a = 1 }"]);
    assert_eq!(m.data_sources.len(), 1);
    assert_eq!(m.data_sources[0].0, (bv("x"), bv("y")));
    assert_eq!(m.data_sources[0].1.lineno, (1, 1));
    assert!(!m.data_sources[0].1.used);
    assert_eq!(m.lines_total, 1);
}

#[test]
fn multi_line_resource_span() {
    let m = scan_one(
        "/root",
        "/root/main.tf",
        &["resource \"x\" \"z\" {", "  a = 1", "}"],
    );
    assert_eq!(m.resources.len(), 1);
    assert_eq!(m.resources[0].0, (bv("x"), bv("z")));
    assert_eq!(m.resources[0].1.lineno, (1, 3));
    assert_eq!(m.lines_total, 3);
}

#[test]
fn blank_lines_are_not_counted() {
    let m = scan_one(
        "/root",
        "/root/main.tf",
        &["resource \"x\" \"z\" {", "", "  a = 1", "   ", "}"],
    );
    assert_eq!(m.lines_total, 3);
    // line numbers stay physical: the block spans lines 1 to 5
    assert_eq!(m.resources[0].1.lineno, (1, 5));
}

#[test]
fn unclosed_block_is_dropped() {
    let m = scan_one("/root", "/root/main.tf", &["resource \"x\" \"z\" {", "  a = 1"]);
    assert_eq!(m.resources.len(), 0);
    assert_eq!(m.lines_total, 2);
}

#[test]
fn duplicate_key_overwrites() {
    let m = scan_one(
        "/root",
        "/root/main.tf",
        &["resource \"x\" \"z\" { a = 1 }", "resource \"x\" \"z\" {", "}"],
    );
    assert_eq!(m.resources.len(), 1);
    assert_eq!(m.resources[0].1.lineno, (2, 3));
}

#[test]
fn module_source_is_rewritten_against_file_dir() {
    let m = scan_one(
        "/root",
        "/root/main.tf",
        &["module \"child\" {", "  source = \"./child\"", "}"],
    );
    assert_eq!(m.modules.len(), 1);
    assert_eq!(m.modules[0].0, bv("child"));
    assert_eq!(m.modules[0].1.source_path, bv("/root/./child"));
    assert_eq!(m.modules[0].1.lineno, (1, 3));
}

#[test]
fn malformed_module_header_is_fatal() {
    let r = scan_files(bv("/root"), &vec![file("/root/main.tf", &["module  {"])]);
    match r {
        Err(ScanError::BadModuleHeader { file, line }) => {
            assert_eq!(file, bv("/root/main.tf"));
            assert_eq!(line, 1);
        }
        _ => panic!("expected a module-header error"),
    }
}

#[test]
fn malformed_source_attribute_is_fatal() {
    let r = scan_files(
        bv("/root"),
        &vec![file("/root/main.tf", &["module \"child\" {", "  source \"x\"", "}"])],
    );
    match r {
        Err(ScanError::NoSourceValue { file, line }) => {
            assert_eq!(file, bv("/root/main.tf"));
            assert_eq!(line, 2);
        }
        _ => panic!("expected a source-value error"),
    }
}

#[test]
fn parse_root_level_address() {
    let a = parse_address(&bv("aws_instance.web")).expect("parse failed");
    assert!(a.modules.is_empty());
    assert!(!a.is_data);
    assert_eq!(a.typ, bv("aws_instance"));
    assert_eq!(a.name, bv("web"));
}

#[test]
fn parse_nested_data_address() {
    let a = parse_address(&bv("module.a.module.b.data.null_data_source.d")).expect("parse failed");
    assert_eq!(a.modules, vec![bv("a"), bv("b")]);
    assert!(a.is_data);
    assert_eq!(a.typ, bv("null_data_source"));
    assert_eq!(a.name, bv("d"));
}

#[test]
fn parse_rejects_malformed_addresses() {
    assert!(parse_address(&bv("xyz")).is_none());
    assert!(parse_address(&bv("module.only")).is_none());
    assert!(parse_address(&bv("a.b.c.d")).is_none());
    assert!(parse_address(&bv("data.x")).is_none());
}

#[test]
fn instance_index_is_stripped() {
    assert_eq!(strip_index_exec(&bv("web[10]")), bv("web"));
    assert_eq!(strip_index_exec(&bv("web")), bv("web"));
    let a0 = parse_address(&bv("aws_instance.web[0]")).expect("parse failed");
    let a1 = parse_address(&bv("aws_instance.web[1]")).expect("parse failed");
    assert_eq!(a0.typ, a1.typ);
    assert_eq!(a0.name, a1.name);
    assert_eq!(a0.name, bv("web"));
}

#[test]
fn multi_instance_addresses_collapse_to_one_entry() {
    let root = scan_one(
        "/root",
        "/root/main.tf",
        &["resource \"aws_instance\" \"web\" { a = 1 }"],
    );
    let rootp = bv("/root");
    let mut rv = Resolver::new();
    rv.insert_module(rootp.clone(), root);
    for addr in ["aws_instance.web[0]", "aws_instance.web[1]"] {
        let a = parse_address(&bv(addr)).expect("parse failed");
        match apply_address(&mut rv, &rootp, &a) {
            Ok(ApplyOutcome::Matched) => {}
            _ => panic!("expected a match for {}", addr),
        }
    }
    let rep = aggregate(&rv);
    assert_eq!(rep.total, 1);
    assert_eq!(rep.unused, 0);
}

#[test]
fn round_trip_minimal_fixture() {
    let root = scan_one(
        "/root",
        "/root/main.tf",
        &[
            "data \"x\" \"y\" { a = 1 }",
            "resource \"x\" \"z\" {",
            "  a = 1",
            "}",
        ],
    );
    let rootp = bv("/root");
    let mut rv = Resolver::new();
    rv.insert_module(rootp.clone(), root);
    let a = parse_address(&bv("data.x.y")).expect("parse failed");
    match apply_address(&mut rv, &rootp, &a) {
        Ok(ApplyOutcome::Matched) => {}
        _ => panic!("expected a match"),
    }
    let rep = aggregate(&rv);
    assert_eq!(rep.total, 4);
    assert_eq!(rep.unused, 3);
    assert_eq!(rep.unused_ranges.len(), 1);
    assert_eq!(rep.unused_ranges[0], (bv("/root/main.tf"), 2, 4));
    assert_eq!(coverage_percent_x100(rep.total, rep.unused), 2500);
}

#[test]
fn matching_twice_counts_once() {
    let root = scan_one("/root", "/root/main.tf", &["data \"x\" \"y\" { a = 1 }"]);
    let rootp = bv("/root");
    let mut rv = Resolver::new();
    rv.insert_module(rootp.clone(), root);
    let a = parse_address(&bv("data.x.y")).expect("parse failed");
    for _ in 0..2 {
        match apply_address(&mut rv, &rootp, &a) {
            Ok(ApplyOutcome::Matched) => {}
            _ => panic!("expected a match"),
        }
    }
    assert!(rv.cache[0].1.data_sources[0].1.used);
    let rep = aggregate(&rv);
    assert_eq!(rep.total, 1);
    assert_eq!(rep.unused, 0);
    assert_eq!(coverage_percent_x100(rep.total, rep.unused), 10000);
}

#[test]
fn nested_module_resolution() {
    let mut root = scan_one(
        "/root",
        "/root/main.tf",
        &["module \"child\" {", "  source = \"./child\"", "}"],
    );
    // what canonicalizing the rewritten source path would yield
    root.modules[0].1.source_path = bv("/root/child");
    let rootp = bv("/root");
    let mut rv = Resolver::new();
    rv.insert_module(rootp.clone(), root);
    let a = parse_address(&bv("module.child.aws_instance.x")).expect("parse failed");
    let need = apply_address(&mut rv, &rootp, &a);
    match need {
        Ok(ApplyOutcome::NeedModule(p)) => {
            assert_eq!(p, bv("/root/child"));
            let child = scan_one(
                "/root/child",
                "/root/child/main.tf",
                &["resource \"aws_instance\" \"x\" { a = 1 }"],
            );
            rv.insert_module(p, child);
        }
        _ => panic!("expected a request for the child catalog"),
    }
    match apply_address(&mut rv, &rootp, &a) {
        Ok(ApplyOutcome::Matched) => {}
        _ => panic!("expected a match"),
    }
    let rep = aggregate(&rv);
    // the root module block itself is not countable; only the child resource is
    assert_eq!(rep.total, 1);
    assert_eq!(rep.unused, 0);
}

#[test]
fn unknown_module_is_fatal_and_named() {
    let root = scan_one("/root", "/root/main.tf", &["data \"x\" \"y\" { a = 1 }"]);
    let rootp = bv("/root");
    let mut rv = Resolver::new();
    rv.insert_module(rootp.clone(), root);
    let a = parse_address(&bv("module.nope.aws_instance.x")).expect("parse failed");
    match apply_address(&mut rv, &rootp, &a) {
        Err(MatchError::UnknownModule { name }) => assert_eq!(name, bv("nope")),
        _ => panic!("expected an unknown-module error"),
    }
}

#[test]
fn unknown_entry_is_fatal_and_named() {
    let root = scan_one("/root", "/root/main.tf", &["data \"x\" \"y\" { a = 1 }"]);
    let rootp = bv("/root");
    let mut rv = Resolver::new();
    rv.insert_module(rootp.clone(), root);
    let a = parse_address(&bv("aws_instance.web")).expect("parse failed");
    match apply_address(&mut rv, &rootp, &a) {
        Err(MatchError::UnknownEntry { is_data, typ, name }) => {
            assert!(!is_data);
            assert_eq!(typ, bv("aws_instance"));
            assert_eq!(name, bv("web"));
        }
        _ => panic!("expected an unknown-entry error"),
    }
}

#[test]
fn equal_canonical_paths_share_one_catalog() {
    let mut root = scan_one(
        "/root",
        "/root/main.tf",
        &[
            "module \"a\" {",
            "  source = \"./child\"",
            "}",
            "module \"b\" {",
            "  source = \"../root/child\"",
            "}",
        ],
    );
    // both relative paths canonicalize to the same directory
    root.modules[0].1.source_path = bv("/root/child");
    root.modules[1].1.source_path = bv("/root/child");
    let rootp = bv("/root");
    let mut rv = Resolver::new();
    rv.insert_module(rootp.clone(), root);
    let a1 = parse_address(&bv("module.a.aws_instance.x")).expect("parse failed");
    match apply_address(&mut rv, &rootp, &a1) {
        Ok(ApplyOutcome::NeedModule(p)) => {
            let child = scan_one(
                "/root/child",
                "/root/child/main.tf",
                &["resource \"aws_instance\" \"x\" { a = 1 }"],
            );
            rv.insert_module(p, child);
        }
        _ => panic!("expected a request for the child catalog"),
    }
    assert!(matches!(
        apply_address(&mut rv, &rootp, &a1),
        Ok(ApplyOutcome::Matched)
    ));
    // the chain through "b" finds the same cached instance: no second scan,
    // and the usage recorded through "a" is already visible
    let a2 = parse_address(&bv("module.b.aws_instance.x")).expect("parse failed");
    assert!(matches!(
        apply_address(&mut rv, &rootp, &a2),
        Ok(ApplyOutcome::Matched)
    ));
    let rep = aggregate(&rv);
    assert_eq!(rep.total, 1);
    assert_eq!(rep.unused, 0);
}

#[test]
fn percentage_rounding() {
    assert_eq!(coverage_percent_x100(0, 0), 10000);
    assert_eq!(coverage_percent_x100(3, 2), 3333);
    assert_eq!(coverage_percent_x100(3, 0), 10000);
    assert_eq!(coverage_percent_x100(8, 7), 1250);
}

#[test]
fn malformed_data_header_is_fatal() {
    let r = scan_files(bv("/root"), &vec![file("/root/main.tf", &["data \"x\" {"])]);
    match r {
        Err(ScanError::BadDataHeader { file, line }) => {
            assert_eq!(file, bv("/root/main.tf"));
            assert_eq!(line, 1);
        }
        _ => panic!("expected a data-header error"),
    }
}

#[test]
fn malformed_resource_header_is_fatal() {
    let r = scan_files(bv("/root"), &vec![file("/root/main.tf", &["resource nameless {"])]);
    match r {
        Err(ScanError::BadResourceHeader { file, line }) => {
            assert_eq!(file, bv("/root/main.tf"));
            assert_eq!(line, 1);
        }
        _ => panic!("expected a resource-header error"),
    }
}

#[test]
fn absolute_module_source_replaces_path() {
    let m = scan_one(
        "/root",
        "/root/main.tf",
        &["module \"child\" {", "  source = \"/abs/child\"", "}"],
    );
    assert_eq!(m.modules[0].1.source_path, bv("/abs/child"));
}
