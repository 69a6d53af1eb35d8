use minic::ir::builder::Builder;
use minic::ir::function::Function;
use minic::ir::inst::InstKind;
use minic::ir::visitor::Visitor;
use minic::pass::count_ops;
use minic::ty::Type;

#[test]
fn builder_test_ir_builder() {
    let fun = Function::new("fun".to_string(), Type::Int, Vec::new());
    let mut builder = Builder::new(fun);
    let entry_block = builder.append_basic_block();
    builder.position_at_end(entry_block);
    let v1 = builder.build_const(42);
    let v2 = builder.build_const(1);
    let v3 = builder.build_add(v1, v2);

    let fun = builder.retrieve_function();
    assert!(matches!(fun.get(v1).kind(), InstKind::Const(..)));
    assert!(matches!(fun.get(v2).kind(), InstKind::Const(..)));
    assert!(matches!(fun.get(v3).kind(), InstKind::Add(..)));
}

#[test]
fn visitor_test_ir_visitor() {
    let fun = Function::new("fun".to_string(), Type::Int, Vec::new());
    let mut builder = Builder::new(fun);
    let entry_block = builder.append_basic_block();
    let next_block = builder.append_basic_block();

    builder.position_at_end(entry_block);
    let v1 = builder.build_const(42);
    let v2 = builder.build_const(1);
    let v3 = builder.build_add(v1, v2);
    builder.build_unconditional_branch(next_block);

    builder.position_at_end(next_block);
    let v4 = builder.build_add(v3, v2);
    builder.build_return(v4);

    let fun = builder.retrieve_function();
    let mut vis = Visitor::new(&fun);

    // ----- next_block, next_inst -----

    let mut visited = Vec::new();
    for &block_id in vis.function().blocks() {
        let len = vis.function().get(block_id).insts().len();
        visited.push(vec![false; len]);
    }

    vis.clear_position();
    while let Some(block_id) = vis.next_block() {
        let block = vis.function().block_position(block_id).unwrap();
        while let Some(inst_id) = vis.next_inst() {
            let inst = vis.function().get(block_id).inst_position(inst_id).unwrap();
            visited[block][inst] = true;
        }
    }

    for visited_block in &visited {
        for visited_inst in visited_block {
            assert!(visited_inst);
        }
    }

    // ----- prev_block, prev_inst -----

    let mut visited = Vec::new();
    for &block_id in vis.function().blocks() {
        let len = vis.function().get(block_id).insts().len();
        visited.push(vec![false; len]);
    }

    vis.clear_position();
    while let Some(block_id) = vis.prev_block() {
        let block = vis.function().block_position(block_id).unwrap();
        while let Some(inst_id) = vis.prev_inst() {
            let inst = vis.function().get(block_id).inst_position(inst_id).unwrap();
            visited[block][inst] = true;
        }
    }

    for visited_block in &visited {
        for visited_inst in visited_block {
            assert!(visited_inst);
        }
    }
}

#[test]
fn builder_test_ir_visitor() {
    let fun = Function::new("fun".to_string(), Type::Int, Vec::new());
    let mut builder = Builder::new(fun);
    let entry_block = builder.append_basic_block();
    let next_block = builder.append_basic_block();

    builder.position_at_end(entry_block);
    let v1 = builder.build_const(42);
    let v2 = builder.build_const(1);
    let v3 = builder.build_add(v1, v2);
    builder.build_unconditional_branch(next_block);

    builder.position_at_end(next_block);
    builder.build_add(v3, v2);

    // ----- next_block, next_inst -----

    let mut visited = Vec::new();
    for &block_id in builder.function().blocks() {
        let len = builder.function().get(block_id).insts().len();
        visited.push(vec![false; len]);
    }

    builder.clear_position();
    while let Some(block_id) = builder.next_block() {
        let block = builder.function().block_position(block_id).unwrap();
        while let Some(inst_id) = builder.next_inst() {
            let inst = builder.function().get(block_id).inst_position(inst_id).unwrap();
            visited[block][inst] = true;
        }
    }

    for visited_block in &visited {
        for visited_inst in visited_block {
            assert!(visited_inst);
        }
    }

    // ----- prev_block, prev_inst -----

    let mut visited = Vec::new();
    for &block_id in builder.function().blocks() {
        let len = builder.function().get(block_id).insts().len();
        visited.push(vec![false; len]);
    }

    builder.clear_position();
    while let Some(block_id) = builder.prev_block() {
        let block = builder.function().block_position(block_id).unwrap();
        while let Some(inst_id) = builder.prev_inst() {
            let inst = builder.function().get(block_id).inst_position(inst_id).unwrap();
            visited[block][inst] = true;
        }
    }

    for visited_block in &visited {
        for visited_inst in visited_block {
            assert!(visited_inst);
        }
    }
}

#[test]
fn test_count_ops() {
    let fun = Function::new("fun".to_string(), Type::Int, Vec::new());
    let mut builder = Builder::new(fun);
    let entry_block = builder.append_basic_block();
    let next_block = builder.append_basic_block();

    builder.position_at_end(entry_block);
    let v1 = builder.build_const(42);
    let v2 = builder.build_const(1);
    let v3 = builder.build_add(v1, v2);
    builder.build_unconditional_branch(next_block);

    builder.position_at_end(next_block);
    let v4 = builder.build_add(v3, v2);
    builder.build_return(v4);

    let fun = builder.retrieve_function();
    assert_eq!(6, count_ops(&fun));
}
