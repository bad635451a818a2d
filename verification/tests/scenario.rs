use enum_delegator::{define_delegation, define_delegator, Registry};

trait Shape {
    fn area(&self) -> f64;
    fn name(&self) -> String;
}

struct Circle {
    radius: f64,
}

impl Shape for Circle {
    fn area(&self) -> f64 {
        3.0 * self.radius * self.radius
    }

    fn name(&self) -> String {
        "circle".to_string()
    }
}

struct Square {
    side: f64,
}

impl Shape for Square {
    fn area(&self) -> f64 {
        self.side * self.side
    }

    fn name(&self) -> String {
        "square".to_string()
    }
}

enum AnyShape {
    Circle(Circle),
    Square(Square),
}

// Token for token what `define_delegation` gives below.
impl Shape for AnyShape {
    fn area(&self) -> f64 {
        match self {
            AnyShape::Circle(inner) => inner.area(),
            AnyShape::Square(inner) => inner.area(),
        }
    }
    fn name(&self) -> String {
        match self {
            AnyShape::Circle(inner) => inner.name(),
            AnyShape::Square(inner) => inner.name(),
        }
    }
}

#[test]
fn any_shape_forwards_to_the_shape_it_holds() {
    let mut registry = Registry::new();
    define_delegator(
        &mut registry,
        "",
        "trait Shape { fn area(&self) -> f64; fn name(&self) -> String; }",
    )
    .unwrap();
    let output =
        define_delegation(&registry, "Shape", "enum AnyShape { Circle(Circle), Square(Square) }");
    assert_eq!(
        output,
        Ok("enum AnyShape { Circle(Circle), Square(Square) }
impl Shape for AnyShape {
    fn area(&self) -> f64 {
        match self {
            AnyShape::Circle(inner) => inner.area(),
            AnyShape::Square(inner) => inner.area(),
        }
    }
    fn name(&self) -> String {
        match self {
            AnyShape::Circle(inner) => inner.name(),
            AnyShape::Square(inner) => inner.name(),
        }
    }
}
"
        .to_string())
    );

    let circle = AnyShape::Circle(Circle { radius: 2.0 });
    let square = AnyShape::Square(Square { side: 3.0 });
    assert_eq!(circle.area(), Circle { radius: 2.0 }.area());
    assert_eq!(circle.area(), 12.0);
    assert_eq!(circle.name(), Circle { radius: 2.0 }.name());
    assert_eq!(square.area(), Square { side: 3.0 }.area());
    assert_eq!(square.area(), 9.0);
    assert_eq!(square.name(), Square { side: 3.0 }.name());
    assert_eq!(square.name(), "square");
}
