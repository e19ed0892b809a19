//! The records that extraction produces, and their mathematical views.
use vstd::prelude::*;

use crate::table::Named;

verus! {

/// A module or interface port.
pub struct Port {
    /// `input`, `output`, `inout`, or empty (an interface-typed port).
    pub direction: String,
    /// Net type, or the first word of the data type.
    pub net_type: String,
    /// Packed dimension, empty when unsized.
    pub dimension: String,
    pub name: String,
}

pub struct PortView {
    pub direction: Seq<char>,
    pub net_type: Seq<char>,
    pub dimension: Seq<char>,
    pub name: Seq<char>,
}

impl View for Port {
    type V = PortView;

    open spec fn view(&self) -> PortView {
        PortView {
            direction: self.direction@,
            net_type: self.net_type@,
            dimension: self.dimension@,
            name: self.name@,
        }
    }
}

/// A non-local module parameter.
pub struct Parameter {
    /// Unpacked dimension, empty when scalar.
    pub dimension: String,
    pub name: String,
    /// Default value expression, empty when there is none.
    pub value: String,
}

pub struct ParameterView {
    pub dimension: Seq<char>,
    pub name: Seq<char>,
    pub value: Seq<char>,
}

impl View for Parameter {
    type V = ParameterView;

    open spec fn view(&self) -> ParameterView {
        ParameterView { dimension: self.dimension@, name: self.name@, value: self.value@ }
    }
}

/// An instantiation edge: the instance name and the instantiated module type.
pub struct Submodule {
    pub instance: String,
    pub module: String,
}

pub struct SubmoduleView {
    pub instance: Seq<char>,
    pub module: Seq<char>,
}

impl View for Submodule {
    type V = SubmoduleView;

    open spec fn view(&self) -> SubmoduleView {
        SubmoduleView { instance: self.instance@, module: self.module@ }
    }
}

/// Describes a module declaration.
pub struct SvModule {
    pub name: String,
    pub parameters: Vec<Parameter>,
    pub ports: Vec<Port>,
    pub endname: String,
    pub included: bool,
    pub path: String,
    /// Instantiation edges, one per instance name.
    pub submodules: Vec<Submodule>,
}

pub struct ModuleView {
    pub name: Seq<char>,
    pub parameters: Seq<ParameterView>,
    pub ports: Seq<PortView>,
    pub endname: Seq<char>,
    pub included: bool,
    pub path: Seq<char>,
    pub submodules: Seq<SubmoduleView>,
}

pub open spec fn ports_view(s: Seq<Port>) -> Seq<PortView> {
    s.map_values(|p: Port| p@)
}

pub open spec fn parameters_view(s: Seq<Parameter>) -> Seq<ParameterView> {
    s.map_values(|p: Parameter| p@)
}

pub open spec fn submodules_view(s: Seq<Submodule>) -> Seq<SubmoduleView> {
    s.map_values(|e: Submodule| e@)
}

impl View for SvModule {
    type V = ModuleView;

    open spec fn view(&self) -> ModuleView {
        ModuleView {
            name: self.name@,
            parameters: parameters_view(self.parameters@),
            ports: ports_view(self.ports@),
            endname: self.endname@,
            included: self.included,
            path: self.path@,
            submodules: submodules_view(self.submodules@),
        }
    }
}

/// Describes an interface declaration.
pub struct SvInterface {
    pub name: String,
    pub endname: String,
    pub ports: Vec<Port>,
    pub included: bool,
    pub path: String,
}

pub struct InterfaceView {
    pub name: Seq<char>,
    pub endname: Seq<char>,
    pub ports: Seq<PortView>,
    pub included: bool,
    pub path: Seq<char>,
}

impl View for SvInterface {
    type V = InterfaceView;

    open spec fn view(&self) -> InterfaceView {
        InterfaceView {
            name: self.name@,
            endname: self.endname@,
            ports: ports_view(self.ports@),
            included: self.included,
            path: self.path@,
        }
    }
}

/// Describes a package declaration.
pub struct SvPackage {
    pub name: String,
    pub endname: String,
    pub included: bool,
    pub path: String,
}

pub struct PackageView {
    pub name: Seq<char>,
    pub endname: Seq<char>,
    pub included: bool,
    pub path: Seq<char>,
}

impl View for SvPackage {
    type V = PackageView;

    open spec fn view(&self) -> PackageView {
        PackageView { name: self.name@, endname: self.endname@, included: self.included, path: self.path@ }
    }
}

/// A declaration whose syntax carries no identifier where one is required;
/// `node` is the declaration's index in its syntax tree.
#[derive(Clone, Copy, Debug, PartialEq, Eq, Structural)]
pub struct IdentifierMissing {
    pub node: usize,
}

impl Named for SvModule {
    open spec fn key(v: ModuleView) -> Seq<char> {
        v.name
    }

    fn name(&self) -> (r: &String) {
        &self.name
    }
}

impl Named for SvInterface {
    open spec fn key(v: InterfaceView) -> Seq<char> {
        v.name
    }

    fn name(&self) -> (r: &String) {
        &self.name
    }
}

impl Named for SvPackage {
    open spec fn key(v: PackageView) -> Seq<char> {
        v.name
    }

    fn name(&self) -> (r: &String) {
        &self.name
    }
}

} // verus!
