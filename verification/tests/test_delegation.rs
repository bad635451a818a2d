use enum_delegator::{define_delegation, define_delegator, Registry};

trait MyTrait {
    fn method_a(&self) -> i32;
    fn method_b(&self) -> i32;
    fn method_c(&self, a: bool) -> i64;
}

trait MyOtherTrait {
    fn method_d(&self) -> &'static str {
        "default"
    }
}

const MY_TRAIT: &str = "trait MyTrait {
    fn method_a(&self) -> i32;
    fn method_b(&self) -> i32;
    fn method_c(&self, a: bool) -> i64;
}";

const MY_OTHER_TRAIT: &str = "pub trait MyOtherTrait {
    fn method_d(&self) -> &'static str {
        \"default\"
    }
}";

struct TypeA {
    a: i32,
}

impl MyOtherTrait for TypeA {}

impl MyTrait for TypeA {
    fn method_a(&self) -> i32 {
        self.a
    }

    fn method_b(&self) -> i32 {
        self.a + 1
    }

    fn method_c(&self, a: bool) -> i64 {
        if a {
            1
        } else {
            0
        }
    }
}

struct TypeB {
    b: i32,
}

impl MyOtherTrait for TypeB {}

impl MyTrait for TypeB {
    fn method_a(&self) -> i32 {
        self.b
    }

    fn method_b(&self) -> i32 {
        self.b - 1
    }

    fn method_c(&self, a: bool) -> i64 {
        if a {
            2
        } else {
            0
        }
    }
}

const COMBINATOR: &str = "enum Combinator {
    TypeA(TypeA),
    TypeB(TypeB),
}";

// What follows the enum is, token for token, what `GENERATED` holds.
enum Combinator {
    TypeA(TypeA),
    TypeB(TypeB),
}

impl MyTrait for Combinator {
    fn method_a(&self) -> i32 {
        match self {
            Combinator::TypeA(inner) => inner.method_a(),
            Combinator::TypeB(inner) => inner.method_a(),
        }
    }
    fn method_b(&self) -> i32 {
        match self {
            Combinator::TypeA(inner) => inner.method_b(),
            Combinator::TypeB(inner) => inner.method_b(),
        }
    }
    fn method_c(&self, a: bool) -> i64 {
        match self {
            Combinator::TypeA(inner) => inner.method_c(a),
            Combinator::TypeB(inner) => inner.method_c(a),
        }
    }
}
impl MyOtherTrait for Combinator {
    fn method_d(&self) -> & 'static str {
        match self {
            Combinator::TypeA(inner) => inner.method_d(),
            Combinator::TypeB(inner) => inner.method_d(),
        }
    }
}

const GENERATED: &str = "impl MyTrait for Combinator {
    fn method_a(&self) -> i32 {
        match self {
            Combinator::TypeA(inner) => inner.method_a(),
            Combinator::TypeB(inner) => inner.method_a(),
        }
    }
    fn method_b(&self) -> i32 {
        match self {
            Combinator::TypeA(inner) => inner.method_b(),
            Combinator::TypeB(inner) => inner.method_b(),
        }
    }
    fn method_c(&self, a: bool) -> i64 {
        match self {
            Combinator::TypeA(inner) => inner.method_c(a),
            Combinator::TypeB(inner) => inner.method_c(a),
        }
    }
}
impl MyOtherTrait for Combinator {
    fn method_d(&self) -> & 'static str {
        match self {
            Combinator::TypeA(inner) => inner.method_d(),
            Combinator::TypeB(inner) => inner.method_d(),
        }
    }
}
";

#[test]
fn test_delegation() {
    let mut registry = Registry::new();
    assert_eq!(define_delegator(&mut registry, "", MY_TRAIT), Ok(MY_TRAIT.to_string()));
    assert_eq!(
        define_delegator(&mut registry, "", MY_OTHER_TRAIT),
        Ok(MY_OTHER_TRAIT.to_string())
    );
    let output = define_delegation(&registry, "MyTrait, MyOtherTrait", COMBINATOR);
    assert_eq!(output, Ok(format!("{}\n{}", COMBINATOR, GENERATED)));

    let a = Combinator::TypeA(TypeA { a: 10 });
    let b = Combinator::TypeB(TypeB { b: 20 });

    assert_eq!(a.method_a(), 10);
    assert_eq!(a.method_b(), 11);
    assert_eq!(a.method_c(true), 1);
    assert_eq!(a.method_d(), "default");
    assert_eq!(b.method_a(), 20);
    assert_eq!(b.method_b(), 19);
    assert_eq!(b.method_c(false), 0);
    assert_eq!(b.method_d(), "default");
}

#[test]
fn generated_text_is_rust() {
    let mut registry = Registry::new();
    define_delegator(&mut registry, "", MY_TRAIT).unwrap();
    define_delegator(&mut registry, "", MY_OTHER_TRAIT).unwrap();
    let output = define_delegation(&registry, "MyTrait, MyOtherTrait", COMBINATOR).unwrap();
    let file = syn::parse_str::<syn::File>(&output).unwrap();
    assert_eq!(file.items.len(), 3);
    assert!(matches!(file.items[0], syn::Item::Enum(_)));
    assert!(matches!(file.items[1], syn::Item::Impl(_)));
    assert!(matches!(file.items[2], syn::Item::Impl(_)));
}
