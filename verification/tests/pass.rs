use minic::irgen::IRGen;
use minic::parse::parse;
use minic::pass::count_ops;
use minic::pass::dce::DeadCodeElimination;
use minic::pass::folder::ConstantFolding;
use minic::tokenize::Tokenizer;

#[test]
fn pass_test_dead_code_elimination() {
    let input = r"
int main() {
  int x=0;
  x+1+2+3;
  return x;
}
  ";
    let it = Tokenizer::new(input);
    let funs = parse(it).unwrap();
    let module = IRGen::new("mod".to_string()).irgen(funs).unwrap();

    let fun_id = module.get_function_by_name("main").unwrap();
    let before = count_ops(module.get_function(fun_id));
    let module = DeadCodeElimination::new(module).run();
    let after = count_ops(module.get_function(fun_id));
    assert!(after < before);
}

#[test]
fn dce_test_dead_code_elimination() {
    let input = r"
int main() {
  int x=0;
  x+1+2+3;
  return x;
}
  ";
    let it = Tokenizer::new(input);
    let funs = parse(it).unwrap();
    let module = IRGen::new("mod".to_string()).irgen(funs).unwrap();

    let fun_id = module.get_function_by_name("main").unwrap();
    let before = count_ops(module.get_function(fun_id));
    let module = DeadCodeElimination::new(module).run();
    let after = count_ops(module.get_function(fun_id));
    assert!(after < before);
}

#[test]
fn test_constant_folding() {
    let input = r"
int main() {
  int x=4;
  1+2+3+x;
  return x;
}
  ";
    let it = Tokenizer::new(input);
    let funs = parse(it).unwrap();
    let module = IRGen::new("mod".to_string()).irgen(funs).unwrap();

    let fun_id = module.get_function_by_name("main").unwrap();
    let before = count_ops(module.get_function(fun_id));
    let module = ConstantFolding::new(module).run();
    let module = DeadCodeElimination::new(module).run();
    let after = count_ops(module.get_function(fun_id));
    assert!(after < before);
}
