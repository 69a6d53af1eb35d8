use minic::ir::arena::{BlockId, InstId};
use minic::ir::builder::Builder;
use minic::ir::function::Function;
use minic::ir::inst::{has_side_effect, is_dead, Deadness, InstKind};
use minic::ir::traverse::{backward_pairs, forward_pairs};
use minic::ir::visitor::{InsertPoint, Visitor};
use minic::pass::dce::DeadCodeElimination;
use minic::pass::folder::{maybe_const, maybe_fold_const};
use minic::ty::Type;

fn new_builder() -> Builder {
    Builder::new(Function::new("fun".to_string(), Type::Int, Vec::new()))
}

fn insts_of(fun: &Function, b: BlockId) -> Vec<InstId> {
    fun.get(b).insts().to_vec()
}

#[test]
fn a_new_function_is_a_declaration() {
    let fun = Function::new("f".to_string(), Type::Int, vec![Type::Int, Type::Char]);
    assert!(fun.is_declaration());
    assert_eq!(fun.name(), "f");
    assert!(matches!(fun.ret_ty(), Type::Int));
    assert_eq!(fun.param_tys().len(), 2);
    assert_eq!(fun.blocks().len(), 0);
    assert_eq!(fun.memory_count(), 0);
}

#[test]
fn blocks_keep_their_order_and_identifiers() {
    let mut builder = new_builder();
    let a = builder.append_basic_block();
    let b = builder.append_basic_block();
    let c = builder.insert_basic_block_after(a);
    assert_eq!(builder.function().blocks(), &[a, c, b]);
    assert_eq!((a.index(), b.index(), c.index()), (0, 1, 2));
    let d = builder.insert_basic_block_after(b);
    assert_eq!(builder.function().blocks(), &[a, c, b, d]);
    builder.remove_basic_block(c);
    assert_eq!(builder.function().blocks(), &[a, b, d]);
    assert_eq!(builder.function().block_position(b), Some(1));
    assert_eq!(builder.function().block_position(c), None);
    // the arena keeps the block
    assert!(builder.function().has_block(c));
    let e = builder.append_basic_block();
    assert_eq!(e.index(), 4);
    assert!(!builder.function().is_declaration());
}

#[test]
fn identifiers_of_another_function_name_nothing() {
    let mut one = new_builder();
    let mut two = new_builder();
    let a = one.append_basic_block();
    let b = two.append_basic_block();
    assert!(one.function().has_block(a));
    assert!(!one.function().has_block(b));
    assert!(two.function().has_block(b));
    assert!(!two.function().has_block(a));
    assert_ne!(a, b);
}

#[test]
fn operands_list_their_users() {
    let mut builder = new_builder();
    let entry = builder.append_basic_block();
    builder.position_at_end(entry);
    let v1 = builder.build_const(42);
    let v2 = builder.build_const(1);
    let v3 = builder.build_add(v1, v2);
    let v4 = builder.build_mul(v3, v3);
    let fun = builder.function();
    assert!(fun.get(v1).use_().contains(v3));
    assert!(fun.get(v2).use_().contains(v3));
    assert!(!fun.get(v1).use_().contains(v4));
    assert!(fun.get(v3).use_().contains(v4));
    assert_eq!(fun.get(v3).use_().len(), 1);
    assert!(fun.get(v4).use_().is_empty());
    assert_eq!(fun.get(v3).id(), v3);
    assert_eq!(insts_of(fun, entry), vec![v1, v2, v3, v4]);
}

#[test]
fn branches_record_both_ends_of_their_edges() {
    let mut builder = new_builder();
    let b0 = builder.append_basic_block();
    let b1 = builder.append_basic_block();
    let b2 = builder.append_basic_block();
    builder.position_at_end(b0);
    let c = builder.build_const(1);
    builder.build_conditional_branch(c, b1, b2);
    builder.position_at_end(b1);
    builder.build_unconditional_branch(b2);
    let fun = builder.function();
    assert!(fun.get(b1).pred().contains(b0));
    assert!(fun.get(b2).pred().contains(b0));
    assert!(fun.get(b2).pred().contains(b1));
    assert!(fun.get(b0).succ().contains(b1));
    assert!(fun.get(b0).succ().contains(b2));
    assert!(fun.get(b1).succ().contains(b2));
    assert!(fun.get(b0).pred().is_empty());
    assert_eq!(fun.get(b2).pred().len(), 2);
    assert_eq!(fun.get(b0).succ().len(), 2);
}

#[test]
fn a_branch_to_the_same_block_twice_is_one_edge() {
    let mut builder = new_builder();
    let b0 = builder.append_basic_block();
    let b1 = builder.append_basic_block();
    builder.position_at_end(b0);
    let c = builder.build_const(1);
    builder.build_conditional_branch(c, b1, b1);
    let fun = builder.function();
    assert_eq!(fun.get(b1).pred().len(), 1);
    assert_eq!(fun.get(b0).succ().len(), 1);
}

#[test]
fn loads_and_stores_are_listed_by_their_slot() {
    let mut builder = new_builder();
    let entry = builder.append_basic_block();
    builder.position_at_end(entry);
    let m0 = builder.build_alloca();
    let m1 = builder.build_alloca();
    assert_eq!((m0.index(), m1.index()), (0, 1));
    let c = builder.build_const(7);
    let s = builder.build_store(m0, c);
    let l = builder.build_load(m0);
    let fun = builder.function();
    assert!(fun.get(m0).store().contains(s));
    assert!(fun.get(m0).load().contains(l));
    assert!(fun.get(m1).store().is_empty());
    assert!(fun.get(m1).load().is_empty());
    assert!(fun.get(c).use_().contains(s));
    assert_eq!(fun.memory_count(), 2);
}

#[test]
fn an_instruction_built_at_an_instruction_stands_before_it() {
    let mut builder = new_builder();
    let entry = builder.append_basic_block();
    builder.position_at_end(entry);
    let v1 = builder.build_const(1);
    let v2 = builder.build_const(2);
    builder.position_at(entry, v2);
    let v3 = builder.build_const(3);
    assert_eq!(insts_of(builder.function(), entry), vec![v1, v3, v2]);
    // the cursor still stands at the instruction it stood at
    assert_eq!(builder.get_insert_point(), InsertPoint::At(v2));
    assert_eq!(builder.get_insert_index(), (entry, 2));
    assert_eq!(builder.next_inst(), None);
    assert_eq!(builder.get_insert_point(), InsertPoint::After);
}

#[test]
fn removing_an_instruction_unties_it() {
    let mut builder = new_builder();
    let b0 = builder.append_basic_block();
    let b1 = builder.append_basic_block();
    builder.position_at_end(b0);
    let m = builder.build_alloca();
    let v1 = builder.build_const(1);
    let v2 = builder.build_add(v1, v1);
    let l = builder.build_load(m);
    let s = builder.build_store(m, v2);
    let j = builder.build_unconditional_branch(b1);

    builder.position_at(b0, v2);
    builder.remove_inst();
    assert_eq!(insts_of(builder.function(), b0), vec![v1, l, s, j]);
    assert!(builder.function().get(v1).use_().is_empty());
    assert_eq!(builder.get_insert_point(), InsertPoint::At(l));
    // the arena keeps the instruction
    assert!(matches!(builder.function().get(v2).kind(), InstKind::Add(..)));

    builder.remove_inst();
    assert!(builder.function().get(m).load().is_empty());
    assert_eq!(builder.get_insert_point(), InsertPoint::At(s));

    builder.remove_inst();
    assert!(builder.function().get(m).store().is_empty());
    assert!(builder.function().get(v2).use_().is_empty());
    assert_eq!(builder.get_insert_point(), InsertPoint::At(j));

    builder.remove_inst();
    assert!(builder.function().get(b1).pred().is_empty());
    assert!(builder.function().get(b0).succ().is_empty());
    assert_eq!(builder.get_insert_point(), InsertPoint::After);
    assert_eq!(insts_of(builder.function(), b0), vec![v1]);
}

#[test]
fn an_edge_stays_while_another_branch_accounts_for_it() {
    let mut builder = new_builder();
    let b0 = builder.append_basic_block();
    let b1 = builder.append_basic_block();
    builder.position_at_end(b0);
    let j1 = builder.build_unconditional_branch(b1);
    let j2 = builder.build_unconditional_branch(b1);
    builder.position_at(b0, j1);
    builder.remove_inst();
    assert!(builder.function().get(b1).pred().contains(b0));
    assert!(builder.function().get(b0).succ().contains(b1));
    assert_eq!(builder.get_insert_point(), InsertPoint::At(j2));
    builder.remove_inst();
    assert!(!builder.function().get(b1).pred().contains(b0));
    assert!(!builder.function().get(b0).succ().contains(b1));
}

#[test]
fn replacing_all_uses_moves_the_users() {
    let mut builder = new_builder();
    let entry = builder.append_basic_block();
    builder.position_at_end(entry);
    let a = builder.build_const(1);
    let b = builder.build_const(2);
    let sum = builder.build_add(a, a);
    let call = builder.build_call(
        minic::ir::arena::FunctionId { arena: 0, index: 0 },
        vec![a, b, a],
    );
    let ret = builder.build_return(a);
    builder.replace_all_uses(a, b);
    let fun = builder.function();
    assert!(matches!(fun.get(sum).kind(), InstKind::Add(x, y) if *x == b && *y == b));
    assert!(matches!(fun.get(call).kind(), InstKind::Call(_, args) if args == &vec![b, b, b]));
    assert!(matches!(fun.get(ret).kind(), InstKind::Ret(x) if *x == b));
    assert!(fun.get(a).use_().is_empty());
    assert_eq!(fun.get(b).use_().len(), 3);
    assert!(fun.get(b).use_().contains(sum));
    assert!(fun.get(b).use_().contains(call));
    assert!(fun.get(b).use_().contains(ret));
    // the replaced instruction stays where it is
    assert_eq!(insts_of(fun, entry), vec![a, b, sum, call, ret]);
}

#[test]
fn replacing_an_instruction_by_itself_changes_nothing() {
    let mut builder = new_builder();
    let entry = builder.append_basic_block();
    builder.position_at_end(entry);
    let a = builder.build_const(1);
    let r = builder.build_return(a);
    builder.replace_all_uses(a, a);
    assert!(builder.function().get(a).use_().contains(r));
    assert!(matches!(builder.function().get(r).kind(), InstKind::Ret(x) if *x == a));
}

#[test]
fn cursor_steps_at_the_edges() {
    let mut builder = new_builder();
    assert_eq!(builder.next_block(), None);
    assert_eq!(builder.prev_block(), None);
    assert_eq!(builder.next_inst(), None);
    assert_eq!(builder.prev_inst(), None);
    assert_eq!(builder.get_insert_block(), None);
    assert_eq!(builder.get_insert_point(), InsertPoint::Nowhere);

    let b0 = builder.append_basic_block();
    let b1 = builder.append_basic_block();
    // an empty block
    assert_eq!(builder.next_block(), Some(b0));
    assert_eq!(builder.get_insert_point(), InsertPoint::Before);
    assert_eq!(builder.next_inst(), None);
    assert_eq!(builder.get_insert_point(), InsertPoint::After);
    assert_eq!(builder.get_insert_block(), Some(b0));
    assert_eq!(builder.next_inst(), None);
    assert_eq!(builder.prev_inst(), None);
    assert_eq!(builder.get_insert_point(), InsertPoint::Before);
    assert_eq!(builder.prev_inst(), None);

    assert_eq!(builder.next_block(), Some(b1));
    assert_eq!(builder.next_block(), None);
    assert_eq!(builder.get_insert_block(), None);
    assert_eq!(builder.get_insert_point(), InsertPoint::Nowhere);

    assert_eq!(builder.prev_block(), Some(b1));
    assert_eq!(builder.get_insert_point(), InsertPoint::After);
    assert_eq!(builder.prev_block(), Some(b0));
    assert_eq!(builder.prev_block(), None);
    assert_eq!(builder.get_insert_block(), None);
}

#[test]
fn cursor_steps_through_a_block() {
    let mut builder = new_builder();
    let b0 = builder.append_basic_block();
    builder.position_at_end(b0);
    let v1 = builder.build_const(1);
    let v2 = builder.build_const(2);
    builder.position_before(b0);
    assert_eq!(builder.next_inst(), Some(v1));
    assert_eq!(builder.get_insert_point(), InsertPoint::At(v1));
    assert_eq!(builder.get_insert_index(), (b0, 0));
    assert_eq!(builder.next_inst(), Some(v2));
    assert_eq!(builder.get_insert_index(), (b0, 1));
    assert_eq!(builder.next_inst(), None);
    assert_eq!(builder.get_insert_index(), (b0, 2));
    assert_eq!(builder.prev_inst(), Some(v2));
    assert_eq!(builder.prev_inst(), Some(v1));
    assert_eq!(builder.prev_inst(), None);
    assert_eq!(builder.get_insert_point(), InsertPoint::Before);
    builder.position_at_index(b0, 1);
    assert_eq!(builder.get_insert_point(), InsertPoint::At(v2));
    builder.clear_position();
    assert_eq!(builder.get_insert_block(), None);
}

#[test]
fn a_cursor_at_a_block_out_of_the_order_finds_no_neighbour() {
    let mut builder = new_builder();
    let b0 = builder.append_basic_block();
    let b1 = builder.append_basic_block();
    builder.remove_basic_block(b1);
    builder.position_at_end(b1);
    assert_eq!(builder.next_block(), None);
    assert_eq!(builder.get_insert_block(), None);
    builder.position_at_end(b1);
    assert_eq!(builder.prev_block(), None);
    assert_eq!(builder.function().blocks(), &[b0]);
}

fn sample() -> Function {
    let mut builder = new_builder();
    let b0 = builder.append_basic_block();
    let b1 = builder.append_basic_block();
    let _b2 = builder.append_basic_block();
    builder.position_at_end(b0);
    let v1 = builder.build_const(42);
    let v2 = builder.build_const(1);
    let v3 = builder.build_add(v1, v2);
    builder.build_unconditional_branch(b1);
    builder.position_at_end(b1);
    let v4 = builder.build_add(v3, v2);
    builder.build_return(v4);
    builder.retrieve_function()
}

#[test]
fn forward_and_backward_walks_meet_the_same_instructions() {
    let fun = sample();
    let forward = forward_pairs(&fun);
    let backward = backward_pairs(&fun);
    assert_eq!(forward.len(), 6);
    let mut expected = Vec::new();
    for &b in fun.blocks() {
        for &i in fun.get(b).insts() {
            expected.push((b, i));
        }
    }
    assert_eq!(forward, expected);
    let mut reversed = backward.clone();
    reversed.reverse();
    assert_eq!(reversed, forward);
    // each pair once
    for (n, p) in forward.iter().enumerate() {
        assert!(!forward[n + 1..].contains(p));
    }
    // the same multiset
    let mut f: Vec<_> = forward.iter().map(|(b, i)| (b.index(), i.index())).collect();
    let mut g: Vec<_> = backward.iter().map(|(b, i)| (b.index(), i.index())).collect();
    f.sort();
    g.sort();
    assert_eq!(f, g);
}

#[test]
fn walks_of_an_empty_function_are_empty() {
    let fun = Function::new("f".to_string(), Type::Int, Vec::new());
    assert!(forward_pairs(&fun).is_empty());
    assert!(backward_pairs(&fun).is_empty());
    let mut vis = Visitor::new(&fun);
    assert_eq!(vis.next_block(), None);
}

#[test]
fn side_effects_and_deadness() {
    let mut builder = new_builder();
    let b0 = builder.append_basic_block();
    builder.position_at_end(b0);
    let m = builder.build_alloca();
    let c = builder.build_const(1);
    let unused = builder.build_add(c, c);
    let s = builder.build_store(m, c);
    let j = builder.build_unconditional_branch(b0);
    let r = builder.build_return(c);
    let br = builder.build_conditional_branch(c, b0, b0);
    let fun = builder.function();
    assert!(!has_side_effect(fun.get(c)));
    assert!(!has_side_effect(fun.get(unused)));
    assert!(has_side_effect(fun.get(s)));
    assert!(has_side_effect(fun.get(j)));
    assert!(has_side_effect(fun.get(r)));
    assert!(has_side_effect(fun.get(br)));

    let mut known = Deadness::new();
    // users not yet judged keep a value alive
    assert!(!is_dead(fun.get(c), &mut known));
    // the judgement is kept
    assert_eq!(known.get(c), Some(false));
    assert!(!is_dead(fun.get(c), &mut known));

    let mut known = Deadness::new();
    assert!(is_dead(fun.get(unused), &mut known));
    assert!(!is_dead(fun.get(s), &mut known));
    assert_eq!(known.get(unused), Some(true));
    assert_eq!(known.get(s), Some(false));
    assert_eq!(known.get(j), None);
    // with a user known dead and others known alive, the value is alive
    assert!(!is_dead(fun.get(r), &mut known));
    assert!(!is_dead(fun.get(br), &mut known));
    assert!(!is_dead(fun.get(c), &mut known));

    // all users known dead
    let mut builder = new_builder();
    let b0 = builder.append_basic_block();
    builder.position_at_end(b0);
    let c = builder.build_const(1);
    let d1 = builder.build_add(c, c);
    let d2 = builder.build_sub(c, c);
    let fun = builder.function();
    let mut known = Deadness::new();
    assert!(is_dead(fun.get(d2), &mut known));
    assert!(!is_dead(fun.get(c), &mut Deadness::new()));
    assert!(is_dead(fun.get(d1), &mut known));
    assert!(is_dead(fun.get(c), &mut known));
}

#[test]
fn dead_code_elimination_keeps_what_is_used() {
    let mut module = minic::ir::module::Module::new("m".to_string());
    let mut builder = new_builder();
    let b0 = builder.append_basic_block();
    builder.position_at_end(b0);
    let m = builder.build_alloca();
    let c1 = builder.build_const(1);
    let c2 = builder.build_const(2);
    let dead1 = builder.build_add(c1, c2);
    let _dead2 = builder.build_mul(dead1, c2);
    let live = builder.build_sub(c1, c2);
    let st = builder.build_store(m, live);
    let ld = builder.build_load(m);
    let _unused_load = builder.build_load(m);
    let ret = builder.build_return(ld);
    let id = module.add_function(builder.retrieve_function());
    let module = DeadCodeElimination::new(module).run();
    let fun = module.get_function(id);
    assert_eq!(insts_of(fun, b0), vec![c1, c2, live, st, ld, ret]);
    assert!(fun.get(c1).use_().contains(live));
    assert!(!fun.get(c1).use_().contains(dead1));
    assert_eq!(fun.get(c2).use_().len(), 1);
    assert_eq!(fun.get(m).load().len(), 1);
}

fn fold(kind: fn(&mut Builder, InstId, InstId) -> InstId, a: u64, b: u64) -> Option<u64> {
    let mut builder = new_builder();
    let b0 = builder.append_basic_block();
    builder.position_at_end(b0);
    let x = builder.build_const(a);
    let y = builder.build_const(b);
    let v = kind(&mut builder, x, y);
    maybe_fold_const(v, builder.function())
}

#[test]
fn folding_computes_in_twos_complement() {
    let minus = |n: u64| 0u64.wrapping_sub(n);
    assert_eq!(fold(Builder::build_add, 1, 2), Some(3));
    assert_eq!(fold(Builder::build_add, u64::MAX, 1), Some(0));
    assert_eq!(fold(Builder::build_sub, 1, 2), Some(u64::MAX));
    assert_eq!(fold(Builder::build_sub, 5, 3), Some(2));
    assert_eq!(fold(Builder::build_mul, 6, 7), Some(42));
    assert_eq!(fold(Builder::build_mul, 1 << 63, 2), Some(0));
    assert_eq!(fold(Builder::build_mul, minus(3), 4), Some(minus(12)));
    assert_eq!(fold(Builder::build_div, 7, 2), Some(3));
    assert_eq!(fold(Builder::build_div, minus(7), 2), Some(minus(3)));
    assert_eq!(fold(Builder::build_div, 7, minus(2)), Some(minus(3)));
    assert_eq!(fold(Builder::build_div, minus(7), minus(2)), Some(3));
    assert_eq!(fold(Builder::build_div, 7, 0), Some(0));
    assert_eq!(fold(Builder::build_div, 0, 7), Some(0));
    assert_eq!(fold(Builder::build_div, 1 << 63, minus(1)), Some(1 << 63));
    assert_eq!(fold(Builder::build_eq, 3, 3), Some(1));
    assert_eq!(fold(Builder::build_eq, 3, 4), Some(0));
    assert_eq!(fold(Builder::build_ne, 3, 3), Some(0));
    assert_eq!(fold(Builder::build_ne, 3, 4), Some(1));
    assert_eq!(fold(Builder::build_lt, 3, 4), Some(1));
    assert_eq!(fold(Builder::build_lt, 4, 3), Some(0));
    assert_eq!(fold(Builder::build_lt, 3, 3), Some(0));
    assert_eq!(fold(Builder::build_lt, minus(1), 0), Some(1));
    assert_eq!(fold(Builder::build_lt, 0, minus(1)), Some(0));
    assert_eq!(fold(Builder::build_lt, minus(2), minus(1)), Some(1));
    assert_eq!(fold(Builder::build_le, 3, 3), Some(1));
    assert_eq!(fold(Builder::build_le, 4, 3), Some(0));
    assert_eq!(fold(Builder::build_le, minus(1), 0), Some(1));
    assert_eq!(fold(Builder::build_le, 1 << 63, (1 << 63) - 1), Some(1));
}

#[test]
fn only_arithmetic_on_two_constants_folds() {
    let mut builder = new_builder();
    let b0 = builder.append_basic_block();
    builder.position_at_end(b0);
    let m = builder.build_alloca();
    let c = builder.build_const(1);
    let l = builder.build_load(m);
    let mixed = builder.build_add(c, l);
    let loads = builder.build_add(l, l);
    let r = builder.build_return(c);
    let fun = builder.function();
    assert_eq!(maybe_fold_const(c, fun), None);
    assert_eq!(maybe_fold_const(l, fun), None);
    assert_eq!(maybe_fold_const(mixed, fun), None);
    assert_eq!(maybe_fold_const(loads, fun), None);
    assert_eq!(maybe_fold_const(r, fun), None);
    assert_eq!(maybe_const(fun.get(c)), Some(1));
    assert_eq!(maybe_const(fun.get(l)), None);
}

#[test]
fn a_part_borrowed_mutably_keeps_what_is_left_in_it() {
    let mut b = new_builder();
    let entry = b.append_basic_block();
    b.position_at_end(entry);
    let v1 = b.build_const(42);
    let v2 = b.build_const(1);
    let mut fun = b.retrieve_function();

    fun.get_mut(v1).set_kind(InstKind::Const(7));
    assert!(matches!(fun.get(v1).kind(), InstKind::Const(7)));
    assert!(matches!(fun.get(v2).kind(), InstKind::Const(1)));
    assert_eq!(fun.get(v1).id(), v1);

    fun.get_mut(entry).append_pred(entry);
    assert!(fun.get(entry).pred().contains(entry));
    assert_eq!(insts_of(&fun, entry), vec![v1, v2]);
}
