#![allow(dead_code)]
use ymir_nodes::field::{Field, Layer, HEIGHT};
use ymir_nodes::expr::syntax::{Action, Constant, Func, Infix, Named};
use ymir_nodes::expr::error::ExprError;
use ymir_nodes::field::MASK;
use ymir_nodes::Expression;

/// The part of the world a field covers.
#[derive(Clone, Copy, Debug, PartialEq)]
struct Region {
    min_x: f64,
    min_y: f64,
    max_x: f64,
    max_y: f64,
}

const UNIT: Region = Region { min_x: 0.0, min_y: 0.0, max_x: 1.0, max_y: 1.0 };

impl Region {
    fn width(&self) -> f64 {
        self.max_x - self.min_x
    }

    fn height(&self) -> f64 {
        self.max_y - self.min_y
    }
}

type Terrain = Field<f32, Region>;

fn terrain(width: usize, height: usize, cell: impl Fn(usize, usize) -> f32) -> Terrain {
    let mut field = Field::new(width, height, UNIT);
    field.set_layer(HEIGHT, Layer::from_fn(width, height, &cell));
    field
}

fn with_layer(mut field: Terrain, name: &str, layer: Layer<f32>) -> Terrain {
    field.set_layer(name, layer);
    field
}

fn layer<'a>(field: &'a Terrain, name: &str) -> &'a Layer<f32> {
    field.layer(name).expect("the layer is there")
}

fn heights(field: &Terrain) -> &[f32] {
    &layer(field, HEIGHT).cells
}

/// The exact bits of a layer, for comparing results byte by byte.
fn bits(values: &[f32]) -> Vec<u32> {
    values.iter().map(|v| v.to_bits()).collect()
}

fn at(field: &Terrain, x: usize, y: usize) -> f32 {
    layer(field, HEIGHT).get(x, y).expect("the cell is on the field")
}

fn sum(field: &Terrain) -> f64 {
    heights(field).iter().map(|&v| f64::from(v)).sum()
}

/// What the world is, as far as the nodes read it.
#[derive(Clone, Copy)]
struct World {
    width: usize,
    height: usize,
    seed: u64,
    extent: f64,
    tall: f64,
    cancelled: bool,
}

impl World {
    fn new(width: usize, height: usize, seed: u64) -> Self {
        World { width, height, seed, extent: 1.0, tall: 1.0, cancelled: false }
    }

    fn with_extent(self, extent: f64) -> Self {
        World { extent, ..self }
    }

    fn with_height(self, tall: f64) -> Self {
        World { tall, ..self }
    }

    fn cancelled(self) -> Self {
        World { cancelled: true, ..self }
    }

    fn meters_per_cell(&self) -> f64 {
        self.extent / self.width as f64
    }

    fn world_to_cells(&self, meters: f64) -> f64 {
        meters / self.meters_per_cell()
    }

    fn slope_scale(&self) -> f64 {
        self.tall / self.meters_per_cell()
    }
}

fn call(f: Func, a: &[f32]) -> f32 {
    match f {
        Func::Sin => a[0].sin(),
        Func::Cos => a[0].cos(),
        Func::Tan => a[0].tan(),
        Func::Abs => a[0].abs(),
        Func::Sqrt => a[0].sqrt(),
        Func::Floor => a[0].floor(),
        Func::Ceil => a[0].ceil(),
        Func::Exp => a[0].exp(),
        Func::Ln => a[0].ln(),
        Func::Sign => a[0].signum(),
        Func::Min => a[0].min(a[1]),
        Func::Max => a[0].max(a[1]),
        Func::Pow => a[0].powf(a[1]),
        Func::Atan2 => a[0].atan2(a[1]),
        Func::Step => {
            if a[1] < a[0] {
                0.0
            } else {
                1.0
            }
        }
        Func::Clamp => a[0].clamp(a[1], a[2]),
        Func::Lerp => a[0] + (a[1] - a[0]) * a[2],
        Func::Smoothstep => {
            let span = a[1] - a[0];
            let t = if span.abs() < f32::EPSILON {
                f32::from(a[2] >= a[1])
            } else {
                ((a[2] - a[0]) / span).clamp(0.0, 1.0)
            };
            t * t * (3.0 - 2.0 * t)
        }
        Func::Select => {
            if a[0] != 0.0 {
                a[1]
            } else {
                a[2]
            }
        }
    }
}

fn act(action: Action, a: &[f32]) -> f32 {
    match action {
        Action::Neg => -a[0],
        Action::Infix(Infix::Add) => a[0] + a[1],
        Action::Infix(Infix::Sub) => a[0] - a[1],
        Action::Infix(Infix::Mul) => a[0] * a[1],
        Action::Infix(Infix::Div) => a[0] / a[1],
        Action::Infix(Infix::Pow) => a[0].powf(a[1]),
        Action::Call(f) => call(f, a),
    }
}

fn number(c: &Constant) -> f32 {
    match c {
        Constant::Number(text) => text.parse::<f64>().expect("the lexer admits numbers only") as f32,
        Constant::Named(Named::Pi) => std::f32::consts::PI,
        Constant::Named(Named::Tau) => std::f32::consts::TAU,
        Constant::Named(Named::E) => std::f32::consts::E,
    }
}

fn input_field(res: usize, h: f32, mask: f32) -> Terrain {
    with_layer(terrain(res, res, |_, _| h), MASK, Layer::filled(res, res, mask))
}

fn run(expr: &str, input: Option<&Terrain>, res: usize) -> Result<Terrain, ExprError> {
    let place = |x: usize, y: usize| {
        (((x as f64 + 0.5) / res as f64) as f32, ((y as f64 + 0.5) / res as f64) as f32)
    };
    let finite = |v: f32| if v.is_finite() { v } else { 0.0 };
    Expression::eval(expr, input, (res, res), UNIT, (0.0, 1.0), &(place, number, act, finite))
}

#[test]
fn identity_passes_height_through() {
    let input = input_field(8, 0.4, 1.0);
    let out = run("height", Some(&input), 8).unwrap();
    assert!((at(&out, 3, 5) - 0.4).abs() < 1e-6);
}

#[test]
fn a_formula_transforms_height() {
    let input = input_field(8, 0.25, 1.0);
    let out = run("clamp(height * 2, 0, 1)", Some(&input), 8).unwrap();
    assert!((at(&out, 0, 0) - 0.5).abs() < 1e-6);
}

#[test]
fn coordinates_are_available_unwired() {
    // No input: x is a world coordinate 0..1, so height equals x across the row.
    let out = run("x", None, 4).unwrap();
    let left = at(&out, 0, 0);
    let right = at(&out, 3, 0);
    assert!(left < right);
    assert!((left - 0.125).abs() < 1e-6); // (0 + 0.5) / 4
}

#[test]
fn reads_the_mask_layer() {
    let input = input_field(8, 1.0, 0.5);
    // height * mask = 1.0 * 0.5
    let out = run("height * mask", Some(&input), 8).unwrap();
    assert!((at(&out, 2, 2) - 0.5).abs() < 1e-6);
}

#[test]
fn non_height_layers_pass_through() {
    let input = input_field(8, 0.3, 0.7);
    let out = run("height * 2", Some(&input), 8).unwrap();
    // The mask is untouched by the expression and carried through.
    let mask = layer(&out, MASK);
    assert!((mask.get(0, 0).unwrap() - 0.7).abs() < 1e-6);
}

#[test]
fn a_parse_error_is_surfaced() {
    let err = run("heigth + 1", None, 4).unwrap_err();
    assert_eq!(err.message(&|text: &str| text.to_string()), "unknown name \"heigth\"");
}

#[test]
fn a_non_finite_result_is_zeroed() {
    // 1/0 is +inf; it must not leak into the field.
    let out = run("1 / 0", None, 4).unwrap();
    assert!(heights(&out).iter().all(|&v| v == 0.0));
}

#[test]
fn expression_eval_is_deterministic() {
    let input = input_field(16, 0.5, 1.0);
    let a = run("sin(x * 6) * height", Some(&input), 16).unwrap();
    let b = run("sin(x * 6) * height", Some(&input), 16).unwrap();
    assert_eq!(bits(heights(&a)), bits(heights(&b)));
}

#[test]
fn cookbook_examples_compile_and_run() {
    let input = input_field(8, 0.5, 1.0);
    let examples = [
        "sin(x * 20)",
        "sin(x * 40)",
        "sin((x + 0.25) * 20)",
        "sin((x*cos(0.5) - y*sin(0.5)) * 20) * 0.1",
        "sin((x*cos(30*pi/180) - y*sin(30*pi/180)) * 20) * 0.1",
        "sin(sqrt((x-0.5)^2 + (y-0.5)^2) * 40)",
        "floor(height * 8) / 8",
        "step(0.5, height)",
        "smoothstep(0.45, 0.55, height)",
        "lerp(height, height + sin(x*60)*0.05, mask)",
        "select(step(0.5, height), height, height * 0.5)",
        "clamp(height * 1.5, 0, 1)",
    ];
    for expr in examples {
        assert!(
            run(expr, Some(&input), 8).is_ok(),
            "cookbook example failed to compile: {expr:?}"
        );
    }
}

#[test]
fn layers_are_listed_in_order_each_once() {
    let input = with_layer(input_field(4, 0.5, 1.0), "flow_x", Layer::filled(4, 4, 0.25));
    let input = with_layer(input, "alpha", Layer::filled(4, 4, 0.0));
    assert_eq!(Expression::layer_names(Some(&input)), ["alpha", "flow_x", "height", "mask"]);
    assert_eq!(Expression::layer_names::<f32, Region>(None), ["height", "mask"]);
    let out = run("flow_x * 2", Some(&input), 4).unwrap();
    assert_eq!(at(&out, 1, 1), 0.5);
}

#[test]
fn an_absent_mask_reads_as_full() {
    let out = run("mask + height", None, 4).unwrap();
    assert_eq!(at(&out, 0, 0), 1.0);
}
