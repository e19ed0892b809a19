use rsvparser::interfaces;
use rsvparser::modules;
use rsvparser::packages;
use rsvparser::ports::{get_ansi_ports, get_nonansi_ports, get_ports};
use rsvparser::syntax::{NodeKind, SyntaxTree, TreeBuilder};
use rsvparser::text::{first_word_of, trim};

fn leaf(b: &mut TreeBuilder, kind: NodeKind, text: &str) {
    b.enter(kind, text.to_string());
    b.leave();
}

fn ident(b: &mut TreeBuilder, kind: NodeKind, name: &str) {
    b.enter(kind, String::new());
    leaf(b, NodeKind::SimpleIdentifier, name);
    b.leave();
}

/// `parameter [3:0] NAME = value` as one assignment of a declaration.
fn param_assignment(b: &mut TreeBuilder, dim: Option<&str>, name: &str, value: Option<&str>) {
    b.enter(NodeKind::ParamAssignment, String::new());
    ident(b, NodeKind::ParameterIdentifier, name);
    if let Some(d) = dim {
        leaf(b, NodeKind::UnpackedDimension, d);
    }
    if let Some(v) = value {
        leaf(b, NodeKind::ConstantParamExpression, v);
    }
    b.leave();
}

/// `module alu #(parameter WIDTH [3:0] = 8) (input wire [7:0] a, output logic signed [7:0] y);`
fn ansi_module() -> SyntaxTree {
    let mut b = TreeBuilder::new();
    b.enter(NodeKind::ModuleDeclaration, String::new());
    ident(&mut b, NodeKind::ModuleIdentifier, " alu ");
    b.enter(NodeKind::ParameterDeclaration, String::new());
    param_assignment(&mut b, Some(" [3:0] "), "WIDTH", Some("8 "));
    b.leave();
    b.enter(NodeKind::ListOfPortDeclarations, String::new());
    b.enter(NodeKind::AnsiPortDeclaration, String::new());
    leaf(&mut b, NodeKind::PortDirection, "input ");
    leaf(&mut b, NodeKind::NetType, "wire ");
    leaf(&mut b, NodeKind::PackedDimension, "[7:0] ");
    ident(&mut b, NodeKind::PortIdentifier, "a");
    b.leave();
    b.enter(NodeKind::AnsiPortDeclaration, String::new());
    leaf(&mut b, NodeKind::PortDirection, "output");
    leaf(&mut b, NodeKind::DataType, "logic signed [7:0]");
    ident(&mut b, NodeKind::PortIdentifier, "y");
    b.leave();
    b.leave();
    b.leave();
    b.build()
}

/// `module m(a, b, c); input [3:0] a, b; output reg c; endmodule`
fn nonansi_module() -> SyntaxTree {
    let mut b = TreeBuilder::new();
    b.enter(NodeKind::ModuleDeclaration, String::new());
    ident(&mut b, NodeKind::ModuleIdentifier, "m");
    b.enter(NodeKind::ListOfPorts, String::new());
    b.leave();
    b.enter(NodeKind::PortDeclaration, String::new());
    b.enter(NodeKind::DirectedDeclaration, "input".to_string());
    leaf(&mut b, NodeKind::PackedDimension, "[3:0] ");
    ident(&mut b, NodeKind::PortIdentifier, "a");
    ident(&mut b, NodeKind::PortIdentifier, "b");
    b.leave();
    b.leave();
    b.enter(NodeKind::PortDeclaration, String::new());
    b.enter(NodeKind::DirectedDeclaration, "output".to_string());
    leaf(&mut b, NodeKind::DataType, "reg");
    ident(&mut b, NodeKind::VariableIdentifier, "c");
    b.leave();
    b.leave();
    b.leave();
    b.build()
}

#[test]
fn ansi_ports_are_normalized() {
    let t = ansi_module();
    let ports = get_ports(&t, 0);
    assert_eq!(ports.len(), 2);
    assert_eq!(ports[0].direction, "input");
    assert_eq!(ports[0].net_type, "wire");
    assert_eq!(ports[0].dimension, "[7:0]");
    assert_eq!(ports[0].name, "a");
    assert_eq!(ports[1].direction, "output");
    assert_eq!(ports[1].net_type, "logic");
    assert_eq!(ports[1].dimension, "");
    assert_eq!(ports[1].name, "y");
    assert_eq!(get_ansi_ports(&t, 0).len(), 2);
    assert_eq!(get_nonansi_ports(&t, 0).len(), 0);
}

#[test]
fn nonansi_declaration_gives_a_port_per_identifier() {
    let t = nonansi_module();
    let ports = get_ports(&t, 0);
    assert_eq!(ports.len(), 3);
    assert_eq!(ports[0].name, "a");
    assert_eq!(ports[1].name, "b");
    assert_eq!(ports[0].dimension, "[3:0]");
    assert_eq!(ports[1].dimension, "[3:0]");
    assert_eq!(ports[0].direction, "input");
    assert_eq!(ports[1].direction, "input");
    assert_eq!(ports[2].name, "c");
    assert_eq!(ports[2].direction, "output");
    assert_eq!(ports[2].net_type, "reg");
    assert_eq!(get_nonansi_ports(&t, 0).len(), 3);
    assert_eq!(get_ansi_ports(&t, 0).len(), 0);
}

#[test]
fn module_record_fields() {
    let t = ansi_module();
    let found = modules::parse_tree(&t, &"rtl/alu.sv".to_string());
    assert!(t.missing_identifiers().is_empty());
    assert_eq!(found.len(), 1);
    let m = &found[0];
    assert_eq!(m.name, "alu");
    assert_eq!(m.endname, "alu");
    assert_eq!(m.path, "rtl/alu.sv");
    assert!(!m.included);
    assert_eq!(m.parameters.len(), 1);
    assert_eq!(m.parameters[0].dimension, "[3:0]");
    assert_eq!(m.parameters[0].name, "WIDTH");
    assert_eq!(m.parameters[0].value, "8");
    assert_eq!(m.ports.len(), 2);
    assert!(m.submodules.is_empty());
}

#[test]
fn each_parameter_assignment_is_a_parameter() {
    let mut b = TreeBuilder::new();
    b.enter(NodeKind::ModuleDeclaration, String::new());
    ident(&mut b, NodeKind::ModuleIdentifier, "p");
    b.enter(NodeKind::ParameterDeclaration, String::new());
    param_assignment(&mut b, None, "A", Some("1"));
    param_assignment(&mut b, None, "B", Some("2"));
    b.leave();
    // a local parameter declaration is not a `ParameterDeclaration`
    b.enter(NodeKind::Other, String::new());
    param_assignment(&mut b, None, "L", Some("3"));
    b.leave();
    b.leave();
    let t = b.build();
    let params = modules::get_params(&t, 0);
    assert_eq!(params.len(), 2);
    assert_eq!(params[0].name, "A");
    assert_eq!(params[0].value, "1");
    assert_eq!(params[0].dimension, "");
    assert_eq!(params[1].name, "B");
    assert_eq!(params[1].value, "2");
}

#[test]
fn interface_port_without_direction() {
    let mut b = TreeBuilder::new();
    b.enter(NodeKind::InterfaceDeclaration, String::new());
    ident(&mut b, NodeKind::InterfaceIdentifier, "bus_if");
    b.enter(NodeKind::ListOfPorts, String::new());
    b.leave();
    b.enter(NodeKind::PortDeclaration, String::new());
    ident(&mut b, NodeKind::PortIdentifier, "clk");
    b.leave();
    b.enter(NodeKind::AnsiPortDeclaration, String::new());
    ident(&mut b, NodeKind::PortIdentifier, "ignored");
    b.leave();
    b.leave();
    let t = b.build();
    let found = interfaces::parse_tree(&t, &"bus.sv".to_string());
    assert_eq!(found.len(), 1);
    assert_eq!(found[0].name, "bus_if");
    assert_eq!(found[0].ports.len(), 1);
    assert_eq!(found[0].ports[0].direction, "");
    assert_eq!(found[0].ports[0].net_type, "");
    assert_eq!(found[0].ports[0].name, "clk");
}

#[test]
fn module_without_port_list_has_no_ports() {
    let mut b = TreeBuilder::new();
    b.enter(NodeKind::ModuleDeclaration, String::new());
    ident(&mut b, NodeKind::ModuleIdentifier, "tb");
    b.leave();
    let t = b.build();
    let found = modules::parse_tree(&t, &"tb.sv".to_string());
    assert!(found[0].ports.is_empty());
}

#[test]
fn escaped_identifier_is_used() {
    let mut b = TreeBuilder::new();
    b.enter(NodeKind::PackageDeclaration, String::new());
    b.enter(NodeKind::PackageIdentifier, String::new());
    leaf(&mut b, NodeKind::EscapedIdentifier, "\\pkg$x ");
    b.leave();
    b.leave();
    let t = b.build();
    let found = packages::parse_tree(&t, &"p.sv".to_string());
    assert_eq!(found[0].name, "\\pkg$x");
    assert_eq!(found[0].endname, "\\pkg$x");
    assert_eq!(found[0].path, "p.sv");
}

#[test]
fn only_the_unnamed_declaration_is_skipped() {
    let mut b = TreeBuilder::new();
    b.enter(NodeKind::ModuleDeclaration, String::new()); // node 0: no name
    b.leave();
    b.enter(NodeKind::ModuleDeclaration, String::new()); // node 1
    ident(&mut b, NodeKind::ModuleIdentifier, "ok"); // nodes 2, 3
    b.enter(NodeKind::ModuleInstantiation, String::new()); // node 4
    ident(&mut b, NodeKind::ModuleIdentifier, "sub"); // nodes 5, 6
    b.enter(NodeKind::InstanceIdentifier, String::new()); // node 7: no text
    b.leave();
    ident(&mut b, NodeKind::InstanceIdentifier, "u_good"); // nodes 8, 9
    b.leave();
    b.enter(NodeKind::ListOfPortDeclarations, String::new()); // node 10
    b.enter(NodeKind::AnsiPortDeclaration, String::new()); // node 11: no name
    b.leave();
    b.enter(NodeKind::AnsiPortDeclaration, String::new()); // node 12
    ident(&mut b, NodeKind::PortIdentifier, "x");
    b.leave();
    b.leave();
    b.leave();
    let t = b.build();
    let found = modules::parse_tree(&t, &"m.sv".to_string());
    assert_eq!(found.len(), 1);
    assert_eq!(found[0].name, "ok");
    assert_eq!(found[0].submodules.len(), 1);
    assert_eq!(found[0].submodules[0].instance, "u_good");
    assert_eq!(found[0].submodules[0].module, "sub");
    assert_eq!(found[0].ports.len(), 1);
    assert_eq!(found[0].ports[0].name, "x");
    let missing: Vec<usize> = t.missing_identifiers().iter().map(|m| m.node).collect();
    assert_eq!(missing, vec![0, 7, 11]);
}

#[test]
fn instance_keyed_edges_replace_same_instance() {
    let mut b = TreeBuilder::new();
    b.enter(NodeKind::ModuleDeclaration, String::new());
    ident(&mut b, NodeKind::ModuleIdentifier, "gen");
    for (ty, inst) in [("a", "u"), ("b", "v"), ("c", "u")] {
        b.enter(NodeKind::ModuleInstantiation, String::new());
        ident(&mut b, NodeKind::ModuleIdentifier, ty);
        ident(&mut b, NodeKind::InstanceIdentifier, inst);
        b.leave();
    }
    b.leave();
    let t = b.build();
    let subs = modules::get_submodules(&t, 0);
    assert_eq!(subs.len(), 2);
    assert_eq!(subs[0].instance, "u");
    assert_eq!(subs[0].module, "c");
    assert_eq!(subs[1].instance, "v");
    assert_eq!(subs[1].module, "b");
}

#[test]
fn every_instance_of_one_instantiation_is_an_edge() {
    // `adder u0(), u1();`
    let mut b = TreeBuilder::new();
    b.enter(NodeKind::ModuleDeclaration, String::new());
    ident(&mut b, NodeKind::ModuleIdentifier, "top");
    b.enter(NodeKind::ModuleInstantiation, String::new());
    ident(&mut b, NodeKind::ModuleIdentifier, "adder");
    ident(&mut b, NodeKind::InstanceIdentifier, "u0");
    ident(&mut b, NodeKind::InstanceIdentifier, "u1");
    b.leave();
    b.leave();
    let t = b.build();
    let subs = modules::get_submodules(&t, 0);
    assert_eq!(subs.len(), 2);
    assert_eq!(subs[0].instance, "u0");
    assert_eq!(subs[1].instance, "u1");
    assert!(subs.iter().all(|s| s.module == "adder"));
}

#[test]
fn trimming_and_first_word() {
    assert_eq!(trim(" \t abc d \n"), "abc d");
    assert_eq!(trim("   "), "");
    assert_eq!(trim("\u{3000}x\u{a0}"), "x");
    assert_eq!(first_word_of("logic signed [3:0]"), "logic");
    assert_eq!(first_word_of("bit"), "bit");
    assert_eq!(first_word_of(""), "");
}

#[test]
fn builder_closes_open_nodes() {
    let mut b = TreeBuilder::new();
    b.enter(NodeKind::ModuleDeclaration, String::new());
    b.enter(NodeKind::Other, String::new());
    b.leave();
    b.leave();
    b.leave();
    b.enter(NodeKind::PackageDeclaration, String::new());
    let t = b.build();
    assert_eq!(t.nodes.len(), 3);
    assert_eq!(t.nodes[0].end, 2);
    assert_eq!(t.nodes[1].end, 2);
    assert_eq!(t.nodes[2].end, 3);
    assert_eq!(t.find(0, 3, NodeKind::PackageDeclaration, NodeKind::PackageDeclaration), Some(2));
}
