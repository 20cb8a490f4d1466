use latte::backend::builder::{BlockBuilder, EntityMap, IncrementMapper, MapEntities};
use latte::backend::context::FunctionContext;
use latte::util::env::Env;
use latte::backend::ir::{BasicBlock, Entity, InstructionKind};
use latte::frontend::ast::{BinaryOperator, Type};

#[test]
fn block_entities_are_mapped() {
    let block = BasicBlock {
        label: None,
        instructions: vec![
            InstructionKind::BinaryOp {
                op: BinaryOperator::Plus,
                l: Entity::Register { n: 1, t: Type::Int },
                r: Entity::Bool { v: false, uuid: 1 },
            }
            .with_result(Entity::Register { n: 2, t: Type::Int }),
            InstructionKind::RetVal { val: Entity::Register { n: 2, t: Type::Int } }.without_result(),
        ],
    };
    let expected_block = BasicBlock {
        label: None,
        instructions: vec![
            InstructionKind::BinaryOp {
                op: BinaryOperator::Plus,
                l: Entity::Register { n: 1, t: Type::Int },
                r: Entity::Register { n: 2, t: Type::Int },
            }
            .with_result(Entity::Register { n: 4, t: Type::Int }),
            InstructionKind::RetVal { val: Entity::Register { n: 4, t: Type::Int } }.without_result(),
        ],
    };

    let mut direct_mapping = EntityMap::new();
    direct_mapping.insert(Entity::Bool { v: false, uuid: 1 }, Entity::Register { n: 2, t: Type::Int });
    let increment_mapper = IncrementMapper { offset: 2 as usize, from_value: 2 };

    assert_eq!(block.map_entities(&increment_mapper, &direct_mapping), expected_block)
}

#[test]
fn lowest_result_register_is_found() {
    let block = BasicBlock {
        label: None,
        instructions: vec![
            InstructionKind::Alloc { t: Type::Int }.with_result(Entity::Register { n: 5, t: Type::Int }),
            InstructionKind::Alloc { t: Type::Int }.with_result(Entity::Register { n: 3, t: Type::Int }),
        ],
    };
    match block.get_first_register() {
        Some(Entity::Register { n, .. }) => assert_eq!(n, 3),
        other => panic!("unexpected {:?}", other),
    }
    let empty = BasicBlock { label: None, instructions: vec![InstructionKind::RetVoid.without_result()] };
    assert!(empty.get_first_register().is_none());
}

#[test]
fn variable_held_differently_gets_one_phi() {
    let mut b = BlockBuilder::with_label(String::from("end"));
    let mut env_a: Env<Entity> = Env::new();
    env_a.insert(String::from("x"), Entity::Int { v: 1, uuid: 1 });
    let mut env_b: Env<Entity> = Env::new();
    env_b.insert(String::from("x"), Entity::Int { v: 2, uuid: 2 });
    b.add_predecessor(String::from("A"), &env_a);
    b.add_predecessor(String::from("B"), &env_b);
    b.push_instruction(InstructionKind::RetVal { val: Entity::Int { v: 1, uuid: 1 } }.without_result());
    let mut ctx = FunctionContext::new();
    let block = b.build(&mut ctx);

    assert_eq!(block.label, Some(String::from("end")));
    assert_eq!(block.instructions.len(), 2);
    let phi = &block.instructions[0];
    assert_eq!(phi.meta, Some(Entity::Register { n: 1, t: Type::Int }));
    match &phi.item {
        InstructionKind::Phi { args } => {
            assert_eq!(args.len(), 2);
            assert!(args.contains(&(Entity::Int { v: 1, uuid: 1 }, String::from("A"))));
            assert!(args.contains(&(Entity::Int { v: 2, uuid: 2 }, String::from("B"))));
        }
        other => panic!("unexpected {:?}", other),
    }
    assert_eq!(
        block.instructions[1],
        InstructionKind::RetVal { val: Entity::Register { n: 1, t: Type::Int } }.without_result()
    );
    assert_eq!(ctx.available_register, 2);
}
