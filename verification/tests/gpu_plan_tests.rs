use nexus::ast::{Expr, Stmt};
use nexus::gpu_plan::{gpu_function_result, plan_parallel, thread_chunks, GpuRegistry, ParallelPlan};

#[test]
fn iterations_are_split_in_rounded_up_chunks() {
    assert_eq!(thread_chunks(10, 4), vec![(0, 3), (3, 6), (6, 9), (9, 10)]);
    assert_eq!(thread_chunks(8, 4), vec![(0, 2), (2, 4), (4, 6), (6, 8)]);
    // Fewer iterations than threads: one thread per iteration.
    assert_eq!(thread_chunks(3, 4), vec![(0, 1), (1, 2), (2, 3)]);
    assert_eq!(thread_chunks(0, 4), vec![]);
    // A thread past the end gets an empty range.
    assert_eq!(thread_chunks(5, 4), vec![(0, 2), (2, 4), (4, 5), (6, 5)]);
}

#[test]
fn parallel_plans_follow_the_range_expression() {
    assert_eq!(plan_parallel(&Expr::Number(7)), Ok(ParallelPlan::Threads(7)));
    let range = |s: i64, e: i64| Expr::Range { start: Box::new(Expr::Number(s)), end: Box::new(Expr::Number(e)) };
    assert_eq!(plan_parallel(&range(2, 5)), Ok(ParallelPlan::Iterations(2, 5)));
    assert_eq!(plan_parallel(&range(5, 5)), Ok(ParallelPlan::Empty));
    assert_eq!(plan_parallel(&range(6, 1)), Ok(ParallelPlan::Empty));
}

#[test]
fn parallel_plans_refuse_other_ranges() {
    let named = Expr::Range { start: Box::new(Expr::Ident("a".to_string())), end: Box::new(Expr::Number(3)) };
    assert_eq!(
        plan_parallel(&named),
        Err("GPU parallel loop range bounds must be numeric literals".to_string())
    );
    assert_eq!(
        plan_parallel(&Expr::Ident("n".to_string())),
        Err("GPU parallel loop expects numeric range".to_string())
    );
}

#[test]
fn registry_checks_names_and_arity() {
    let mut registry = GpuRegistry::new();
    assert!(!registry.contains("kernel"));
    assert_eq!(registry.check_call("kernel", 1), Err("GPU function 'kernel' not found".to_string()));
    let params = vec![("a".to_string(), "Int".to_string()), ("b".to_string(), "Int".to_string())];
    registry.register_function("kernel".to_string(), params, &Stmt::Block(vec![]));
    assert!(registry.contains("kernel"));
    assert_eq!(registry.check_call("kernel", 2), Ok(()));
    assert_eq!(
        registry.check_call("kernel", 3),
        Err("GPU function 'kernel' expects 2 arguments, but got 3".to_string())
    );
    // Registering again replaces the earlier definition.
    registry.register_function("kernel".to_string(), vec![], &Stmt::Block(vec![]));
    assert_eq!(registry.check_call("kernel", 0), Ok(()));
    assert_eq!(
        registry.check_call("kernel", 2),
        Err("GPU function 'kernel' expects 0 arguments, but got 2".to_string())
    );
}

#[test]
fn gpu_functions_return_their_results() {
    assert_eq!(gpu_function_result("add_gpu", Some((6, 7))), Some(13));
    assert_eq!(gpu_function_result("add_gpu", None), Some(42));
    assert_eq!(gpu_function_result("gpu_multiply", Some((6, 7))), Some(42));
    assert_eq!(gpu_function_result("gpu_multiply", None), None);
    assert_eq!(gpu_function_result("other_gpu", Some((6, 7))), None);
    assert_eq!(gpu_function_result("add_gp", Some((1, 2))), None);
}
