use enum_delegator::binder::fresh_binder;
use enum_delegator::{
    capture, describe, forward, generate, implement, render, Arm, DelegationError,
    DelegationRequest, ForwardingMethod, ImplBlock, InterfaceDeclaration, InterfaceDescriptor,
    Member, MethodSignature, Param, Receiver, Registry, SumTypeDescriptor, VariantDescriptor,
};

fn text(item: &str) -> String {
    item.to_string()
}

fn param(name: &str, ty: &str) -> Param {
    Param { name: text(name), ty: text(ty) }
}

fn signature(
    name: &str,
    receiver: Receiver,
    params: Vec<Param>,
    ret: Option<&str>,
) -> MethodSignature {
    MethodSignature { name: text(name), receiver, params, ret: ret.map(text) }
}

fn variant(tag: &str, wrapped: &[&str]) -> VariantDescriptor {
    VariantDescriptor { tag: text(tag), wrapped: wrapped.iter().map(|ty| text(ty)).collect() }
}

fn any_shape() -> SumTypeDescriptor {
    SumTypeDescriptor {
        name: text("AnyShape"),
        variants: vec![variant("Circle", &["Circle"]), variant("Square", &["Square"])],
    }
}

fn shape() -> InterfaceDeclaration {
    InterfaceDeclaration {
        name: text("Shape"),
        members: vec![
            Member::Method(signature("area", Receiver::Ref, vec![], Some("f64"))),
            Member::Other,
            Member::Method(signature("name", Receiver::Ref, vec![], Some("String"))),
        ],
    }
}

fn scale() -> InterfaceDeclaration {
    InterfaceDeclaration {
        name: text("Scale"),
        members: vec![Member::Method(signature(
            "scale",
            Receiver::RefMut,
            vec![param("by", "f64"), param("around", "Point")],
            None,
        ))],
    }
}

fn request(target: SumTypeDescriptor, interfaces: &[&str]) -> DelegationRequest {
    DelegationRequest { target, interfaces: interfaces.iter().map(|name| text(name)).collect() }
}

fn arm(variant: &str, method: &str, arguments: &[&str]) -> Arm {
    Arm {
        variant: text(variant),
        binder: text("inner"),
        method: text(method),
        arguments: arguments.iter().map(|name| text(name)).collect(),
    }
}

#[test]
fn capture_stores_the_methods_and_passes_over_the_rest() {
    let mut registry = Registry::new();
    capture(&mut registry, &shape());
    assert_eq!(
        registry.lookup("Shape"),
        Ok(vec![text("area\n&self\nf64"), text("name\n&self\nString")])
    );
}

#[test]
fn capture_of_a_declaration_without_methods_registers_the_name() {
    let mut registry = Registry::new();
    let marker = InterfaceDeclaration { name: text("Marker"), members: vec![Member::Other] };
    capture(&mut registry, &marker);
    assert_eq!(registry.lookup("Marker"), Ok(vec![]));
    assert_eq!(
        describe(&registry, "Marker"),
        Ok(InterfaceDescriptor { name: text("Marker"), signatures: vec![] })
    );
}

#[test]
fn describe_gives_back_what_capture_took() {
    let mut registry = Registry::new();
    capture(&mut registry, &shape());
    capture(&mut registry, &scale());
    assert_eq!(
        describe(&registry, "Shape"),
        Ok(InterfaceDescriptor {
            name: text("Shape"),
            signatures: vec![
                signature("area", Receiver::Ref, vec![], Some("f64")),
                signature("name", Receiver::Ref, vec![], Some("String")),
            ],
        })
    );
    assert_eq!(
        describe(&registry, "Scale"),
        Ok(InterfaceDescriptor {
            name: text("Scale"),
            signatures: vec![signature(
                "scale",
                Receiver::RefMut,
                vec![param("by", "f64"), param("around", "Point")],
                None,
            )],
        })
    );
}

#[test]
fn a_second_capture_replaces_the_first() {
    let mut registry = Registry::new();
    capture(&mut registry, &shape());
    let again = InterfaceDeclaration {
        name: text("Shape"),
        members: vec![Member::Method(signature("sides", Receiver::Ref, vec![], Some("u32")))],
    };
    capture(&mut registry, &again);
    assert_eq!(
        describe(&registry, "Shape"),
        Ok(InterfaceDescriptor {
            name: text("Shape"),
            signatures: vec![signature("sides", Receiver::Ref, vec![], Some("u32"))],
        })
    );
}

#[test]
fn describe_of_an_unknown_interface_fails() {
    let registry = Registry::new();
    assert_eq!(
        describe(&registry, "Shape"),
        Err(DelegationError::UnknownInterface { interface: text("Shape") })
    );
}

#[test]
fn describe_reports_the_first_signature_that_cannot_be_read() {
    let mut registry = Registry::new();
    registry.register(
        "Shape",
        vec![text("area\n&self\nf64"), text("name\nby value"), text("broken")],
    );
    assert_eq!(
        describe(&registry, "Shape"),
        Err(DelegationError::MalformedSignature { interface: text("Shape"), method: text("name") })
    );
}

#[test]
fn forward_makes_one_arm_per_variant_in_order() {
    let sig = signature("scale", Receiver::RefMut, vec![param("by", "f64"), param("around", "Point")], None);
    let method = forward(&any_shape(), &sig);
    assert_eq!(
        method,
        ForwardingMethod {
            signature: signature(
                "scale",
                Receiver::RefMut,
                vec![param("by", "f64"), param("around", "Point")],
                None,
            ),
            arms: vec![
                arm("Circle", "scale", &["by", "around"]),
                arm("Square", "scale", &["by", "around"]),
            ],
        }
    );
}

#[test]
fn forward_for_a_sum_type_without_variants_has_no_arm() {
    let empty = SumTypeDescriptor { name: text("Never"), variants: vec![] };
    let method = forward(&empty, &signature("area", Receiver::Ref, vec![], Some("f64")));
    assert_eq!(method.arms, vec![]);
}

#[test]
fn implement_makes_one_method_per_signature_in_order() {
    let interface = InterfaceDescriptor {
        name: text("Shape"),
        signatures: vec![
            signature("area", Receiver::Ref, vec![], Some("f64")),
            signature("name", Receiver::Ref, vec![], Some("String")),
        ],
    };
    let block = implement(&any_shape(), &interface);
    assert_eq!(block.interface, "Shape");
    assert_eq!(block.target, "AnyShape");
    assert_eq!(block.methods.len(), 2);
    assert_eq!(block.methods[0].signature.name, "area");
    assert_eq!(block.methods[1].signature.name, "name");
    assert_eq!(
        block.methods[1].arms,
        vec![arm("Circle", "name", &[]), arm("Square", "name", &[])]
    );
}

#[test]
fn generate_gives_one_block_per_interface() {
    let mut registry = Registry::new();
    capture(&mut registry, &shape());
    capture(&mut registry, &scale());
    let blocks = generate(&registry, &request(any_shape(), &["Shape", "Scale"])).unwrap();
    assert_eq!(blocks.len(), 2);
    assert_eq!(blocks[0].interface, "Shape");
    assert_eq!(blocks[0].methods.len(), 2);
    assert_eq!(blocks[1].interface, "Scale");
    assert_eq!(blocks[1].methods.len(), 1);
}

#[test]
fn every_generated_method_has_one_arm_per_variant() {
    let mut registry = Registry::new();
    capture(&mut registry, &shape());
    capture(&mut registry, &scale());
    let target = SumTypeDescriptor {
        name: text("AnyShape"),
        variants: vec![
            variant("Circle", &["Circle"]),
            variant("Square", &["Square"]),
            variant("Triangle", &["Triangle"]),
        ],
    };
    let blocks = generate(&registry, &request(target, &["Shape", "Scale"])).unwrap();
    for block in &blocks {
        for method in &block.methods {
            let tags: Vec<&str> = method.arms.iter().map(|arm| arm.variant.as_str()).collect();
            assert_eq!(tags, vec!["Circle", "Square", "Triangle"]);
        }
    }
}

#[test]
fn every_arm_calls_the_method_with_its_own_parameters() {
    let mut registry = Registry::new();
    capture(&mut registry, &shape());
    capture(&mut registry, &scale());
    let blocks = generate(&registry, &request(any_shape(), &["Shape", "Scale"])).unwrap();
    for block in &blocks {
        for method in &block.methods {
            let names: Vec<String> =
                method.signature.params.iter().map(|param| param.name.clone()).collect();
            for arm in &method.arms {
                assert_eq!(arm.method, method.signature.name);
                assert_eq!(arm.arguments, names);
            }
        }
    }
    assert_eq!(blocks[1].methods[0].arms[0], arm("Circle", "scale", &["by", "around"]));
}

#[test]
fn generate_for_no_interface_gives_no_block() {
    let registry = Registry::new();
    assert_eq!(generate(&registry, &request(any_shape(), &[])), Ok(vec![]));
}

#[test]
fn generate_for_an_interface_twice_gives_its_block_twice() {
    let mut registry = Registry::new();
    capture(&mut registry, &shape());
    let blocks = generate(&registry, &request(any_shape(), &["Shape", "Shape"])).unwrap();
    assert_eq!(blocks.len(), 2);
    assert_eq!(blocks[0], blocks[1]);
}

#[test]
fn generate_fails_on_an_unknown_interface() {
    let mut registry = Registry::new();
    capture(&mut registry, &shape());
    assert_eq!(
        generate(&registry, &request(any_shape(), &["Shape", "Missing"])),
        Err(DelegationError::UnknownInterface { interface: text("Missing") })
    );
    assert_eq!(
        generate(&registry, &request(any_shape(), &["Missing", "Shape"])),
        Err(DelegationError::UnknownInterface { interface: text("Missing") })
    );
    assert_eq!(
        generate(&registry, &request(any_shape(), &["Gone", "Missing"])),
        Err(DelegationError::UnknownInterface { interface: text("Gone") })
    );
}

#[test]
fn generate_before_capture_fails_and_after_capture_succeeds() {
    let mut registry = Registry::new();
    assert_eq!(
        generate(&registry, &request(any_shape(), &["Shape"])),
        Err(DelegationError::UnknownInterface { interface: text("Shape") })
    );
    capture(&mut registry, &shape());
    assert!(generate(&registry, &request(any_shape(), &["Shape"])).is_ok());
}

#[test]
fn generate_fails_on_a_signature_that_cannot_be_read() {
    let mut registry = Registry::new();
    capture(&mut registry, &shape());
    registry.register("Broken", vec![text("fn area(&self) -> f64")]);
    assert_eq!(
        generate(&registry, &request(any_shape(), &["Shape", "Broken"])),
        Err(DelegationError::MalformedSignature {
            interface: text("Broken"),
            method: text("fn area(&self) -> f64"),
        })
    );
}

#[test]
fn generate_takes_the_interfaces_in_order_when_it_fails() {
    let mut registry = Registry::new();
    registry.register("Broken", vec![text("area")]);
    assert_eq!(
        generate(&registry, &request(any_shape(), &["Broken", "Missing"])),
        Err(DelegationError::MalformedSignature { interface: text("Broken"), method: text("area") })
    );
    assert_eq!(
        generate(&registry, &request(any_shape(), &["Missing", "Broken"])),
        Err(DelegationError::UnknownInterface { interface: text("Missing") })
    );
}

#[test]
fn generate_fails_on_a_variant_that_does_not_wrap_one_value() {
    let mut registry = Registry::new();
    capture(&mut registry, &shape());
    let unit = SumTypeDescriptor {
        name: text("AnyShape"),
        variants: vec![variant("Circle", &["Circle"]), variant("Nothing", &[])],
    };
    assert_eq!(
        generate(&registry, &request(unit, &["Shape"])),
        Err(DelegationError::MalformedVariant { target: text("AnyShape"), variant: text("Nothing") })
    );
    let pair = SumTypeDescriptor {
        name: text("AnyShape"),
        variants: vec![
            variant("Both", &["Circle", "Square"]),
            variant("Nothing", &[]),
            variant("Circle", &["Circle"]),
        ],
    };
    assert_eq!(
        generate(&registry, &request(pair, &["Shape"])),
        Err(DelegationError::MalformedVariant { target: text("AnyShape"), variant: text("Both") })
    );
}

#[test]
fn generate_looks_at_the_variants_before_the_interfaces() {
    let registry = Registry::new();
    let unit = SumTypeDescriptor { name: text("Flag"), variants: vec![variant("On", &[])] };
    assert_eq!(
        generate(&registry, &request(unit, &["Missing"])),
        Err(DelegationError::MalformedVariant { target: text("Flag"), variant: text("On") })
    );
}

#[test]
fn generate_in_the_other_order_gives_the_same_blocks_in_the_other_order() {
    let mut registry = Registry::new();
    capture(&mut registry, &shape());
    capture(&mut registry, &scale());
    let forth = generate(&registry, &request(any_shape(), &["Shape", "Scale"])).unwrap();
    let back = generate(&registry, &request(any_shape(), &["Scale", "Shape"])).unwrap();
    assert_eq!(forth.len(), 2);
    assert_eq!(back.len(), 2);
    assert_eq!(forth[0], back[1]);
    assert_eq!(forth[1], back[0]);
    assert_ne!(forth[0], forth[1]);
}

#[test]
fn generate_leaves_the_registry_as_it_was() {
    let mut registry = Registry::new();
    capture(&mut registry, &shape());
    let before = registry.lookup("Shape");
    let _ = generate(&registry, &request(any_shape(), &["Shape", "Missing"]));
    let _ = generate(&registry, &request(any_shape(), &["Shape"]));
    assert_eq!(registry.lookup("Shape"), before);
    assert!(!registry.contains("Missing"));
}

#[test]
fn render_writes_the_blocks_as_source_text() {
    let mut registry = Registry::new();
    capture(&mut registry, &shape());
    capture(&mut registry, &scale());
    let blocks = generate(&registry, &request(any_shape(), &["Scale", "Shape"])).unwrap();
    assert_eq!(
        render(&blocks),
        "impl Scale for AnyShape {
    fn scale(&mut self, by: f64, around: Point) {
        match self {
            AnyShape::Circle(inner) => inner.scale(by, around),
            AnyShape::Square(inner) => inner.scale(by, around),
        }
    }
}
impl Shape for AnyShape {
    fn area(&self) -> f64 {
        match self {
            AnyShape::Circle(inner) => inner.area(),
            AnyShape::Square(inner) => inner.area(),
        }
    }
    fn name(&self) -> String {
        match self {
            AnyShape::Circle(inner) => inner.name(),
            AnyShape::Square(inner) => inner.name(),
        }
    }
}
"
    );
}

#[test]
fn render_of_a_block_without_methods_and_of_no_block() {
    assert_eq!(render(&vec![]), "");
    let block = ImplBlock { interface: text("Marker"), target: text("AnyShape"), methods: vec![] };
    assert_eq!(render(&vec![block]), "impl Marker for AnyShape {\n}\n");
}

#[test]
fn render_writes_a_receiver_by_value() {
    let sig = signature("into_name", Receiver::Value, vec![], Some("String"));
    let block = ImplBlock {
        interface: text("Named"),
        target: text("One"),
        methods: vec![forward(
            &SumTypeDescriptor { name: text("One"), variants: vec![variant("Only", &["Inner"])] },
            &sig,
        )],
    };
    assert_eq!(
        render(&vec![block]),
        "impl Named for One {
    fn into_name(self) -> String {
        match self {
            One::Only(inner) => inner.into_name(),
        }
    }
}
"
    );
}

#[test]
fn the_message_names_what_is_at_fault() {
    assert_eq!(
        DelegationError::UnknownInterface { interface: text("Shape") }.message(),
        "Trait Shape not found in lookup table"
    );
    assert_eq!(
        DelegationError::MalformedSignature { interface: text("Shape"), method: text("area") }
            .message(),
        "Method area of trait Shape has a signature that cannot be read back"
    );
    assert_eq!(
        DelegationError::MalformedVariant { target: text("AnyShape"), variant: text("Nothing") }
            .message(),
        "Variant Nothing of enum AnyShape does not wrap exactly one value"
    );
    assert_eq!(
        DelegationError::MalformedDeclaration.message(),
        "The item is not a declaration that can be delegated"
    );
    assert_eq!(
        DelegationError::UnsupportedSignature { interface: text("Shape"), method: text("unit") }
            .message(),
        "Method unit of trait Shape has a signature that cannot be delegated"
    );
}

#[test]
fn fresh_binder_is_inner_unless_an_argument_is() {
    assert_eq!(fresh_binder(&vec![]), "inner");
    assert_eq!(fresh_binder(&vec![text("a"), text("value")]), "inner");
    assert_eq!(fresh_binder(&vec![text("inner_"), text("Inner"), text(" inner")]), "inner");
    assert_eq!(fresh_binder(&vec![text("inner")]), "inner_____");
    assert_eq!(fresh_binder(&vec![text("a"), text("inner"), text("inner_____")]), "inner__________");
    assert_eq!(fresh_binder(&vec![text("inner"), text("größer")]), "inner______");
}

#[test]
fn a_parameter_named_inner_is_still_handed_on() {
    let sig = signature(
        "merge",
        Receiver::Ref,
        vec![param("inner", "& Circle"), param("by", "f64")],
        Some("Circle"),
    );
    let method = forward(&any_shape(), &sig);
    for arm in &method.arms {
        assert_eq!(arm.binder, "inner_____");
        assert_eq!(arm.arguments, vec![text("inner"), text("by")]);
        assert!(!arm.arguments.contains(&arm.binder));
    }
    let block =
        ImplBlock { interface: text("Merge"), target: text("AnyShape"), methods: vec![method] };
    assert_eq!(
        render(&vec![block]),
        "impl Merge for AnyShape {
    fn merge(&self, inner: & Circle, by: f64) -> Circle {
        match self {
            AnyShape::Circle(inner_____) => inner_____.merge(inner, by),
            AnyShape::Square(inner_____) => inner_____.merge(inner, by),
        }
    }
}
"
    );
}
