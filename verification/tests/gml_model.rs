use gm8core::gml::ArrayAccessor;
use gm8core::gml::Error;
use gm8core::gml::FieldAccessor;
use gm8core::gml::Instruction;
use gm8core::gml::Node;
use gm8core::gml::Value;
use gm8core::gml::VarOwner;
use gm8core::math::Real;

#[test]
fn expression_tree_holds_owned_children() {
    let literal = Node::Literal { value: Value::Real(Real::from_int(3)) };
    let tree = Node::Binary {
        left: Box::new(literal),
        right: Box::new(Node::Literal { value: Value::Str(String::from("x")) }),
        operator: 4,
    };
    let accessor = FieldAccessor {
        index: 2,
        array: ArrayAccessor::Single(Box::new(Node::Literal {
            value: Value::Real(Real::zero()),
        })),
        owner: VarOwner::Own,
    };
    let stmt = Instruction::SetField { accessor, value: tree };
    match stmt {
        Instruction::SetField { accessor, value } => {
            assert_eq!(accessor.index, 2);
            assert!(matches!(accessor.array, ArrayAccessor::Single(_)));
            assert!(matches!(accessor.owner, VarOwner::Own));
            match value {
                Node::Binary { operator, left, .. } => {
                    assert_eq!(operator, 4);
                    assert!(matches!(*left, Node::Literal { .. }));
                },
                _ => panic!(),
            }
        },
        _ => panic!(),
    }
}

#[test]
fn error_carries_its_reason() {
    let e = Error { reason: String::from("stack overflow in script") };
    assert_eq!(e.reason, "stack overflow in script");
}
