//! What a node declares: its ports, its parameters, and the world settings it reads.
use vstd::prelude::*;

verus! {

/// A decimal number, exact to a millionth.
#[derive(Clone, Copy, Debug, PartialEq, Eq, Structural)]
pub struct Decimal {
    pub millionths: i64,
}

/// The unit a number is stated in.
#[derive(Clone, Copy, Debug, PartialEq, Eq, Structural)]
pub enum Unit {
    Meters,
    Degrees,
}

/// A composite control that several parameters form together.
#[derive(Clone, Copy, Debug, PartialEq, Eq, Structural)]
pub enum ParamGroup {
    Levels,
}

/// What a node is, by the ports it has.
#[derive(Clone, Copy, Debug, PartialEq, Eq, Structural)]
pub enum NodeKind {
    /// No inputs.
    Generator,
    /// Inputs and outputs.
    Modifier,
    /// No outputs.
    Endpoint,
}

/// Which world settings a node reads, and so which of them invalidate it.
#[derive(Clone, Copy, Debug, PartialEq, Eq, Structural)]
pub enum ContextDeps {
    /// None of them.
    NoWorld,
    /// The horizontal extent alone.
    WorldExtent,
    /// The vertical scale alone.
    WorldHeight,
    /// The real slope scale: the vertical scale and the horizontal extent.
    Slope,
}

/// A node's place in the palette.
#[derive(Clone, Copy, Debug)]
pub struct NodeGroup {
    pub group: &'static str,
    pub sort: i32,
}

/// A port.
#[derive(Clone, Copy, Debug)]
pub struct PortSpec {
    pub name: &'static str,
    pub optional: bool,
    pub selection: bool,
}

/// What values a parameter takes.
#[derive(Debug)]
pub enum ParamKind {
    Float { min: Decimal, max: Decimal },
    Int { least: i64, most: i64 },
    Bool,
    Text,
    Path,
    Color,
    Strokes,
    Enum { options: Vec<&'static str> },
}

/// A parameter's value.
#[derive(Clone, Copy, Debug)]
pub enum ParamValue {
    Float(Decimal),
    Int(i64),
    Bool(bool),
    Text(&'static str),
    Color(Decimal, Decimal, Decimal),
    /// No strokes.
    Strokes,
}

/// A parameter.
#[derive(Debug)]
pub struct ParamSpec {
    pub name: &'static str,
    pub kind: ParamKind,
    pub default: ParamValue,
    pub unit: Option<Unit>,
    pub logarithmic: bool,
    pub group: Option<ParamGroup>,
}

/// A node's declaration.
#[derive(Debug)]
pub struct NodeSpec {
    pub type_id: &'static str,
    pub category: &'static str,
    pub tags: Vec<&'static str>,
    pub inputs: Vec<PortSpec>,
    pub outputs: Vec<PortSpec>,
    pub params: Vec<ParamSpec>,
    /// The layers the node declares that it emits.
    pub emitted_layers: Vec<&'static str>,
    pub mask_aware: bool,
}

/// What a [`PortSpec`] declares.
pub ghost struct Port {
    pub name: Seq<char>,
    pub optional: bool,
    pub selection: bool,
}

/// What a [`ParamKind`] admits; numbers count millionths.
pub ghost enum Kind {
    Float(int, int),
    Int(int, int),
    Bool,
    Text,
    Path,
    Color,
    Strokes,
    Enum(Seq<Seq<char>>),
}

/// What a [`ParamValue`] is; numbers count millionths.
pub ghost enum Value {
    Float(int),
    Int(int),
    Bool(bool),
    Text(Seq<char>),
    Color(int, int, int),
    Strokes,
}

/// What a [`ParamSpec`] declares.
pub ghost struct Param {
    pub name: Seq<char>,
    pub kind: Kind,
    pub default: Value,
    pub unit: Option<Unit>,
    pub logarithmic: bool,
    pub group: Option<ParamGroup>,
}

/// What a [`NodeSpec`] declares.
#[verifier::ext_equal]
pub ghost struct Node {
    pub type_id: Seq<char>,
    pub category: Seq<char>,
    pub tags: Seq<Seq<char>>,
    pub inputs: Seq<Port>,
    pub outputs: Seq<Port>,
    pub params: Seq<Param>,
    pub emitted_layers: Seq<Seq<char>>,
    pub mask_aware: bool,
}

/// The texts of a list of strings.
pub open spec fn texts(s: Seq<&'static str>) -> Seq<Seq<char>> {
    s.map_values(|t: &'static str| t@)
}

impl View for PortSpec {
    type V = Port;

    open spec fn view(&self) -> Port {
        Port { name: self.name@, optional: self.optional, selection: self.selection }
    }
}

impl View for ParamKind {
    type V = Kind;

    open spec fn view(&self) -> Kind {
        match self {
            ParamKind::Float { min, max } => Kind::Float(
                min.millionths as int,
                max.millionths as int,
            ),
            ParamKind::Int { least, most } => Kind::Int(*least as int, *most as int),
            ParamKind::Bool => Kind::Bool,
            ParamKind::Text => Kind::Text,
            ParamKind::Path => Kind::Path,
            ParamKind::Color => Kind::Color,
            ParamKind::Strokes => Kind::Strokes,
            ParamKind::Enum { options } => Kind::Enum(texts(options@)),
        }
    }
}

impl View for ParamValue {
    type V = Value;

    open spec fn view(&self) -> Value {
        match self {
            ParamValue::Float(v) => Value::Float(v.millionths as int),
            ParamValue::Int(v) => Value::Int(*v as int),
            ParamValue::Bool(v) => Value::Bool(*v),
            ParamValue::Text(v) => Value::Text(v@),
            ParamValue::Color(r, g, b) => Value::Color(
                r.millionths as int,
                g.millionths as int,
                b.millionths as int,
            ),
            ParamValue::Strokes => Value::Strokes,
        }
    }
}

impl View for ParamSpec {
    type V = Param;

    open spec fn view(&self) -> Param {
        Param {
            name: self.name@,
            kind: self.kind@,
            default: self.default@,
            unit: self.unit,
            logarithmic: self.logarithmic,
            group: self.group,
        }
    }
}

impl View for NodeSpec {
    type V = Node;

    open spec fn view(&self) -> Node {
        Node {
            type_id: self.type_id@,
            category: self.category@,
            tags: texts(self.tags@),
            inputs: self.inputs@.map_values(|p: PortSpec| p@),
            outputs: self.outputs@.map_values(|p: PortSpec| p@),
            params: self.params@.map_values(|p: ParamSpec| p@),
            emitted_layers: texts(self.emitted_layers@),
            mask_aware: self.mask_aware,
        }
    }
}

/// Whether a kind admits a value.
pub open spec fn admits(kind: Kind, value: Value) -> bool {
    match (kind, value) {
        (Kind::Float(min, max), Value::Float(v)) => min <= v <= max,
        (Kind::Int(min, max), Value::Int(v)) => min <= v <= max,
        (Kind::Bool, Value::Bool(_)) => true,
        (Kind::Text, Value::Text(_)) => true,
        (Kind::Path, Value::Text(_)) => true,
        (Kind::Color, Value::Color(r, g, b)) => 0 <= r <= 1_000_000 && 0 <= g <= 1_000_000 && 0
            <= b <= 1_000_000,
        (Kind::Strokes, Value::Strokes) => true,
        (Kind::Enum(options), Value::Text(v)) => options.contains(v),
        _ => false,
    }
}

impl Node {
    /// Every parameter's kind admits its default.
    pub open spec fn defaults_admitted(self) -> bool {
        forall|i: int|
            0 <= i < self.params.len() ==> admits(
                (#[trigger] self.params[i]).kind,
                self.params[i].default,
            )
    }

    /// What the node is, by its ports.
    pub open spec fn kind(self) -> NodeKind {
        if self.outputs.len() == 0 {
            NodeKind::Endpoint
        } else if self.inputs.len() == 0 {
            NodeKind::Generator
        } else {
            NodeKind::Modifier
        }
    }
}

impl NodeSpec {
    /// What the node is, by its ports: one without outputs is an endpoint, one without inputs a
    /// generator, any other a modifier.
    pub fn kind(&self) -> (r: NodeKind)
        ensures
            r == self@.kind(),
    {
        if self.outputs.len() == 0 {
            NodeKind::Endpoint
        } else if self.inputs.len() == 0 {
            NodeKind::Generator
        } else {
            NodeKind::Modifier
        }
    }
}

/// A port that must be wired.
pub open spec fn port(name: Seq<char>) -> Port {
    Port { name, optional: false, selection: false }
}

/// A port that may stay unwired.
pub open spec fn optional_port(name: Seq<char>) -> Port {
    Port { name, optional: true, selection: false }
}

/// A port that carries a selection.
pub open spec fn selection_port(name: Seq<char>) -> Port {
    Port { name, optional: false, selection: true }
}

impl PortSpec {
    /// A port that must be wired.
    pub fn new(name: &'static str) -> (r: Self)
        ensures
            r@ == port(name@),
    {
        PortSpec { name, optional: false, selection: false }
    }

    /// A port that may stay unwired.
    pub fn optional(name: &'static str) -> (r: Self)
        ensures
            r@ == optional_port(name@),
    {
        PortSpec { name, optional: true, selection: false }
    }

    /// The port, carrying a selection.
    pub fn selection(self) -> (r: Self)
        ensures
            r@ == (Port { selection: true, ..self@ }),
    {
        PortSpec { selection: true, ..self }
    }
}

/// A plain parameter.
pub open spec fn param(name: Seq<char>, kind: Kind, default: Value) -> Param {
    Param { name, kind, default, unit: None, logarithmic: false, group: None }
}

/// A number between two bounds, in millionths.
pub open spec fn float_param(name: Seq<char>, min: int, max: int, default: int) -> Param {
    param(name, Kind::Float(min, max), Value::Float(default))
}

/// A number between two bounds, in millionths, in a unit.
pub open spec fn unit_param(name: Seq<char>, min: int, max: int, default: int, unit: Unit) -> Param {
    Param { unit: Some(unit), ..float_param(name, min, max, default) }
}

/// An integer between two bounds.
pub open spec fn int_param(name: Seq<char>, min: int, max: int, default: int) -> Param {
    param(name, Kind::Int(min, max), Value::Int(default))
}

/// A choice among options.
pub open spec fn enum_param(name: Seq<char>, options: Seq<Seq<char>>, default: Seq<char>) -> Param {
    param(name, Kind::Enum(options), Value::Text(default))
}

impl ParamSpec {
    /// A plain parameter.
    pub fn new(name: &'static str, kind: ParamKind, default: ParamValue) -> (r: Self)
        ensures
            r@ == param(name@, kind@, default@),
    {
        ParamSpec { name, kind, default, unit: None, logarithmic: false, group: None }
    }

    /// A number between two bounds, all in millionths.
    pub fn number(name: &'static str, min: i64, max: i64, default: i64) -> (r: Self)
        ensures
            r@ == float_param(name@, min as int, max as int, default as int),
    {
        ParamSpec::new(
            name,
            ParamKind::Float { min: Decimal { millionths: min }, max: Decimal { millionths: max } },
            ParamValue::Float(Decimal { millionths: default }),
        )
    }

    /// An integer between two bounds.
    pub fn integer(name: &'static str, min: i64, max: i64, default: i64) -> (r: Self)
        ensures
            r@ == int_param(name@, min as int, max as int, default as int),
    {
        ParamSpec::new(name, ParamKind::Int { least: min, most: max }, ParamValue::Int(default))
    }

    /// A choice among options.
    pub fn choice(name: &'static str, options: Vec<&'static str>, default: &'static str) -> (r:
        Self)
        ensures
            r@ == enum_param(name@, texts(options@), default@),
    {
        ParamSpec::new(name, ParamKind::Enum { options }, ParamValue::Text(default))
    }

    /// The parameter, stated in a unit.
    pub fn with_unit(self, unit: Unit) -> (r: Self)
        ensures
            r@ == (Param { unit: Some(unit), ..self@ }),
    {
        ParamSpec { unit: Some(unit), ..self }
    }

    /// The parameter, distributed logarithmically.
    pub fn logarithmic(self) -> (r: Self)
        ensures
            r@ == (Param { logarithmic: true, ..self@ }),
    {
        ParamSpec { logarithmic: true, ..self }
    }

    /// The parameter, as part of a composite control.
    pub fn in_group(self, group: ParamGroup) -> (r: Self)
        ensures
            r@ == (Param { group: Some(group), ..self@ }),
    {
        ParamSpec { group: Some(group), ..self }
    }
}

} // verus!
