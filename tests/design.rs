use rsvparser::design::Design;
use rsvparser::hierarchy::{build, module_tree, HierarchyNode, SvHierarchy};
use rsvparser::syntax::{NodeKind, SyntaxTree, TreeBuilder};

fn ident(b: &mut TreeBuilder, kind: NodeKind, name: &str) {
    b.enter(kind, String::new());
    b.enter(NodeKind::SimpleIdentifier, name.to_string());
    b.leave();
    b.leave();
}

/// A module declaration with the given instantiations (type, instance).
fn module(b: &mut TreeBuilder, name: &str, instances: &[(&str, &str)]) {
    b.enter(NodeKind::ModuleDeclaration, String::new());
    ident(b, NodeKind::ModuleIdentifier, name);
    for (ty, inst) in instances {
        b.enter(NodeKind::ModuleInstantiation, String::new());
        ident(b, NodeKind::ModuleIdentifier, ty);
        ident(b, NodeKind::InstanceIdentifier, inst);
        b.leave();
    }
    b.leave();
}

fn one_module_file(name: &str, instances: &[(&str, &str)]) -> SyntaxTree {
    let mut b = TreeBuilder::new();
    module(&mut b, name, instances);
    b.build()
}

fn example_design(top: Option<&str>) -> Design {
    let mut d = Design::new();
    let files = [
        ("rtl/top.sv", "top", vec![("adder", "u_add"), ("alu", "u_alu")]),
        ("rtl/adder.sv", "adder", vec![]),
        ("rtl/alu.sv", "alu", vec![("reg", "u_reg")]),
        ("rtl/reg.sv", "reg", vec![]),
    ];
    for (path, name, inst) in files.iter() {
        let tree = one_module_file(name, inst);
        d.add_file(&path.to_string(), Some(&tree));
    }
    let top = top.map(|t| t.to_string());
    d.finish(top.as_ref());
    d
}

fn entry<'a>(h: &'a [(String, SvHierarchy)], name: &str) -> Option<&'a SvHierarchy> {
    h.iter().find(|(n, _)| n == name).map(|(_, e)| e)
}

fn child<'a>(node: &'a HierarchyNode, instance: &str) -> &'a HierarchyNode {
    &node.children.iter().find(|c| c.instance == instance).expect("instance").node
}

fn file_included(d: &Design, path: &str) -> bool {
    d.files.entries.iter().find(|e| e.path == path).expect("file").included
}

fn module_included(d: &Design, name: &str) -> bool {
    let i = d.modules.find(&name.to_string()).expect("module");
    d.modules.records[i].included
}

#[test]
fn example_without_designated_top() {
    let d = example_design(None);
    assert_eq!(d.hierarchy.len(), 1);
    let top = entry(&d.hierarchy, "top").expect("top entry");
    assert!(!top.included);
    let t = &top.tree;
    assert_eq!(t.module, "top");
    assert_eq!(t.children.len(), 2);
    let adder = child(t, "u_add");
    assert_eq!(adder.module, "adder");
    assert!(adder.children.is_empty());
    let alu = child(t, "u_alu");
    assert_eq!(alu.module, "alu");
    let reg = child(alu, "u_reg");
    assert_eq!(reg.module, "reg");
    assert!(reg.children.is_empty());
    assert!(!reg.cyclic);
    assert!(t.cycles().is_empty());
    for e in d.files.entries.iter() {
        assert!(!e.included);
    }
    for name in ["top", "adder", "alu", "reg"] {
        assert!(!module_included(&d, name));
    }
}

#[test]
fn example_with_designated_top() {
    let d = example_design(Some("alu"));
    assert_eq!(d.hierarchy.len(), 2);
    assert!(!entry(&d.hierarchy, "top").expect("top").included);
    let alu = entry(&d.hierarchy, "alu").expect("alu");
    assert!(alu.included);
    assert_eq!(child(&alu.tree, "u_reg").module, "reg");
    // alu stays nested under top as well
    assert_eq!(child(&entry(&d.hierarchy, "top").unwrap().tree, "u_alu").children.len(), 1);
    assert!(file_included(&d, "rtl/alu.sv"));
    assert!(file_included(&d, "rtl/reg.sv"));
    assert!(!file_included(&d, "rtl/top.sv"));
    assert!(!file_included(&d, "rtl/adder.sv"));
    assert!(module_included(&d, "alu"));
    assert!(module_included(&d, "reg"));
    assert!(!module_included(&d, "top"));
    assert!(!module_included(&d, "adder"));
}

#[test]
fn file_records_use_file_names() {
    let d = example_design(None);
    let e = d.files.entries.iter().find(|e| e.path == "rtl/alu.sv").unwrap();
    assert_eq!(e.filename, "alu.sv");
}

#[test]
fn undefined_module_is_empty_leaf() {
    let mut d = Design::new();
    let tree = one_module_file("chip", &[("blackbox", "u_bb")]);
    d.add_file(&"chip.sv".to_string(), Some(&tree));
    d.finish(None);
    let chip = entry(&d.hierarchy, "chip").expect("chip");
    let bb = child(&chip.tree, "u_bb");
    assert_eq!(bb.module, "blackbox");
    assert!(bb.children.is_empty());
    assert!(!bb.cyclic);
}

#[test]
fn mutual_instantiation_is_cut() {
    let mut d = Design::new();
    let mut b = TreeBuilder::new();
    module(&mut b, "a", &[("b", "u_b")]);
    module(&mut b, "b", &[("a", "u_a")]);
    let tree = b.build();
    d.add_file(&"ab.sv".to_string(), Some(&tree));
    // both are instantiated: no top without a designated one
    let h = build(&d.modules, None);
    assert!(h.is_empty());
    d.finish(Some(&"a".to_string()));
    let a = entry(&d.hierarchy, "a").expect("a");
    assert!(a.included);
    let b_node = child(&a.tree, "u_b");
    assert_eq!(b_node.module, "b");
    let a_again = child(b_node, "u_a");
    assert_eq!(a_again.module, "a");
    assert!(a_again.cyclic);
    assert!(a_again.children.is_empty());
    let cycles = a.tree.cycles();
    assert_eq!(cycles.len(), 1);
    assert_eq!(cycles[0].parent, "b");
    assert_eq!(cycles[0].instance, "u_a");
    assert_eq!(cycles[0].module, "a");
}

#[test]
fn self_instantiation_is_cut() {
    let mut d = Design::new();
    let tree = one_module_file("loop_mod", &[("loop_mod", "u_self")]);
    d.add_file(&"loop.sv".to_string(), Some(&tree));
    d.finish(Some(&"loop_mod".to_string()));
    let e = entry(&d.hierarchy, "loop_mod").expect("entry");
    let inner = child(&e.tree, "u_self");
    assert!(inner.cyclic);
    assert!(inner.children.is_empty());
    assert_eq!(e.tree.cycles().len(), 1);
}

#[test]
fn instances_of_one_type_are_kept_apart() {
    let mut d = Design::new();
    let mut b = TreeBuilder::new();
    module(&mut b, "pair", &[("cell", "u0"), ("cell", "u1")]);
    module(&mut b, "cell", &[]);
    let tree = b.build();
    d.add_file(&"pair.sv".to_string(), Some(&tree));
    d.finish(None);
    let p = entry(&d.hierarchy, "pair").expect("pair");
    assert_eq!(p.tree.children.len(), 2);
    assert_eq!(child(&p.tree, "u0").module, "cell");
    assert_eq!(child(&p.tree, "u1").module, "cell");
    let i = d.modules.find(&"pair".to_string()).unwrap();
    assert_eq!(d.modules.records[i].submodules.len(), 2);
}

#[test]
fn second_file_replaces_record() {
    let mut d = Design::new();
    let first = one_module_file("dup", &[("x", "u_x")]);
    let second = one_module_file("dup", &[]);
    d.add_file(&"one/dup.sv".to_string(), Some(&first));
    d.add_file(&"two/dup.sv".to_string(), Some(&second));
    let i = d.modules.find(&"dup".to_string()).unwrap();
    assert_eq!(d.modules.records.len(), 1);
    assert_eq!(d.modules.records[i].path, "two/dup.sv");
    assert!(d.modules.records[i].submodules.is_empty());
    // same file name at two paths: two file entries
    assert_eq!(d.files.entries.len(), 2);
    assert!(d.files.entries.iter().all(|e| e.filename == "dup.sv"));
}

#[test]
fn unknown_designated_top_is_dropped() {
    let d = example_design(Some("nowhere"));
    assert_eq!(d.hierarchy.len(), 1);
    assert!(entry(&d.hierarchy, "nowhere").is_none());
    assert!(d.files.entries.iter().all(|e| !e.included));
}

#[test]
fn unparsed_file_is_listed_unmarked() {
    let mut d = Design::new();
    d.add_file(&"bad.sv".to_string(), None);
    d.finish(None);
    assert_eq!(d.files.entries.len(), 1);
    assert!(!d.files.entries[0].included);
    assert!(d.modules.records.is_empty());
    assert!(d.hierarchy.is_empty());
}

#[test]
fn module_without_instances_has_no_children() {
    let d = example_design(Some("adder"));
    let a = entry(&d.hierarchy, "adder").expect("adder");
    assert!(a.tree.children.is_empty());
    assert!(a.included);
}

#[test]
fn module_tree_of_defined_and_undefined_names() {
    let d = example_design(None);
    let alu = module_tree(&d.modules, &"alu".to_string());
    assert_eq!(alu.module, "alu");
    assert_eq!(child(&alu, "u_reg").module, "reg");
    let reg = module_tree(&d.modules, &"reg".to_string());
    assert!(reg.children.is_empty());
    let ghost = module_tree(&d.modules, &"nowhere".to_string());
    assert_eq!(ghost.module, "nowhere");
    assert!(ghost.children.is_empty());
    assert!(!ghost.cyclic);
}

#[test]
fn skipped_declarations_are_reported_per_file() {
    let mut d = Design::new();
    let mut b = TreeBuilder::new();
    b.enter(NodeKind::ModuleDeclaration, String::new());
    b.leave();
    let tree = b.build();
    d.add_file(&"bad.sv".to_string(), Some(&tree));
    assert_eq!(d.missing.len(), 1);
    assert_eq!(d.missing[0].0, "bad.sv");
    assert_eq!(d.missing[0].1.node, 0);
    assert!(d.modules.records.is_empty());
}
