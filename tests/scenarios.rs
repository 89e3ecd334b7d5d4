use rust_ffi_checker::block_state::BlockState;
use rust_ffi_checker::block_visitor::BlockVisitor;
use rust_ffi_checker::context::{GlobalContext, RunState};
use rust_ffi_checker::diagnosis::{BugType, Diagnosis, Seriousness};
use rust_ffi_checker::domain::AbstractDomain;
use rust_ffi_checker::ir::{BasicBlock, Callee, Constant, Function, Instruction, Operand, Terminator, Type};
use rust_ffi_checker::known_names::KnownNames;
use rust_ffi_checker::lattice::MemoryState;
use rust_ffi_checker::name::Name;
use rust_ffi_checker::option::AnalysisOption;
use rust_ffi_checker::taint_analysis::{FuncAnalysis, StaticAnalysis};

fn n(s: &str) -> Name {
    Name::Name(s.to_string())
}

fn local(s: &str) -> Operand {
    Operand::LocalOperand { name: n(s), ty: Type::Other }
}

fn global(sym: &str) -> Callee {
    Callee::Operand(Operand::ConstantOperand(Constant::GlobalReference {
        name: sym.to_string(),
        demangled: sym.to_string(),
    }))
}

fn call(sym: &str, args: &[&str], dest: Option<&str>) -> Instruction {
    Instruction::Call {
        function: global(sym),
        arguments: args.iter().map(|a| local(a)).collect(),
        dest: dest.map(n),
    }
}

fn function(name: &str, params: &[&str], instrs: Vec<Instruction>) -> Function {
    Function {
        name: name.to_string(),
        demangled_name: name.to_string(),
        parameters: params.iter().map(|p| n(p)).collect(),
        basic_blocks: vec![BasicBlock {
            name: n("start"),
            instrs,
            term: Terminator::Ret { return_operand: None },
            successors: vec![],
        }],
    }
}

fn known_names() -> KnownNames {
    KnownNames::new(
        vec!["__rust_alloc".to_string()],
        vec!["free".to_string(), "c_free".to_string()],
        vec!["llvm.dbg".to_string(), "__rust_dealloc".to_string()],
    )
}

fn options(entry: &str, ffi: &[&str]) -> AnalysisOption {
    let mut o = AnalysisOption::new();
    o.entry_points.push(entry.to_string());
    for f in ffi {
        o.ffi_functions.push(f.to_string());
    }
    o
}

fn run(functions: Vec<Function>, ffi: &[&str]) -> Vec<Diagnosis> {
    let ctx = GlobalContext::new(options("caller", ffi), functions, known_names());
    let mut analysis = StaticAnalysis::new(ctx);
    let missing = analysis.run();
    assert!(missing.is_empty());
    analysis.state.diagnoses
}

fn state_after(functions: Vec<Function>, ffi: &[&str]) -> BlockState {
    let ctx = GlobalContext::new(options("caller", ffi), functions, known_names());
    let mut state = RunState::new();
    let mut fa = FuncAnalysis::new(&ctx, &"caller".to_string()).unwrap();
    fa.iterate_to_fixpoint(&ctx, &mut state);
    fa.taint_domain.get(&n("start")).unwrap()
}

const BOX_INTO_RAW: &str = "alloc::boxed::Box<T,A>::into_raw";

#[test]
fn box_into_raw_then_foreign_free() {
    let f = function(
        "caller",
        &["b"],
        vec![call(BOX_INTO_RAW, &["b"], Some("p")), call("c_free", &["p"], None)],
    );
    let ds = run(vec![f], &["c_free"]);
    assert_eq!(ds.len(), 1);
    assert_eq!(ds[0].seriousness, Seriousness::High);
    assert_eq!(ds[0].bug_info.possible_bugs(), &vec![BugType::UseAfterFree, BugType::DoubleFree]);
    assert_eq!(ds[0].function_name, "caller");
}

#[test]
fn box_into_raw_leaks_to_unknown_foreign_callee() {
    let f = function(
        "caller",
        &["b"],
        vec![call(BOX_INTO_RAW, &["b"], Some("p")), call("c_func", &["p"], None)],
    );
    let ds = run(vec![f], &["c_func"]);
    assert_eq!(ds.len(), 1);
    assert_eq!(ds[0].seriousness, Seriousness::Medium);
    assert_eq!(ds[0].bug_info.possible_bugs(), &vec![BugType::MemoryLeakage]);
    assert!(!ds[0].bug_info.ffi_known());
    assert!(ds[0].bug_info.msg().as_ref().unwrap().contains("Forgotten"));
}

#[test]
fn borrowed_pointer_to_unknown_foreign_callee() {
    let f = function(
        "caller",
        &["v"],
        vec![call("alloc::vec::Vec<T,A>::as_mut_ptr", &["v"], Some("p")), call("c_func", &["p"], None)],
    );
    let ds = run(vec![f], &["c_func"]);
    assert_eq!(ds.len(), 1);
    assert_eq!(ds[0].seriousness, Seriousness::Low);
    assert_eq!(ds[0].bug_info.possible_bugs(), &vec![BugType::UseAfterFree]);
    assert!(ds[0].bug_info.msg().as_ref().unwrap().contains("Borrowed"));
}

#[test]
fn forget_then_as_ptr_stays_forgotten() {
    let instrs = vec![
        call("core::mem::forget", &["v"], None),
        call("alloc::vec::Vec<T,A>::as_ptr", &["v"], Some("q")),
    ];
    let s = state_after(vec![function("caller", &["v"], instrs)], &[]);
    assert_eq!(s.get_memory_state(&n("v")), MemoryState::Forgotten);
    assert_eq!(s.get_memory_state(&n("q")), MemoryState::Forgotten);

    let instrs = vec![
        call("core::mem::forget", &["v"], None),
        call("alloc::vec::Vec<T,A>::as_ptr", &["v"], Some("q")),
        call("c_func", &["q"], None),
    ];
    let ds = run(vec![function("caller", &["v"], instrs)], &["c_func"]);
    assert_eq!(ds.len(), 1);
    assert_eq!(ds[0].seriousness, Seriousness::Medium);
    assert_eq!(ds[0].bug_info.possible_bugs(), &vec![BugType::MemoryLeakage]);
}

#[test]
fn from_raw_parts_resets_forgotten_to_tainted() {
    let instrs = vec![
        call(BOX_INTO_RAW, &["b"], Some("p")),
        call("alloc::vec::Vec<T,A>::from_raw_parts", &["p", "len", "cap"], Some("v")),
    ];
    let s = state_after(vec![function("caller", &["b"], instrs)], &[]);
    assert_eq!(s.get_memory_state(&n("v")), MemoryState::Tainted);
    assert_eq!(s.get_memory_state(&n("p")), MemoryState::Tainted);
}

#[test]
fn function_pointer_call_with_tainted_argument() {
    let fp = Callee::Operand(Operand::LocalOperand {
        name: n("fp"),
        ty: Type::PointerType { pointee_type: Box::new(Type::FuncType) },
    });
    let instrs = vec![
        call("__rust_alloc", &["size"], Some("p")),
        Instruction::Call { function: fp, arguments: vec![local("p")], dest: None },
    ];
    let ds = run(vec![function("caller", &[], instrs)], &[]);
    assert_eq!(ds.len(), 1);
    assert_eq!(ds[0].seriousness, Seriousness::Low);
    assert_eq!(ds[0].bug_info.possible_bugs(), &vec![BugType::UseAfterFree]);
    assert_eq!(ds[0].function_name, "caller");
}

#[test]
fn unknown_argument_to_unknown_foreign_callee() {
    let instrs = vec![
        call("alloc::vec::Vec<T,A>::as_ptr", &["v"], Some("p")),
        call("core::mem::forget", &["w"], None),
        Instruction::ShuffleVector { operand0: local("p"), operand1: local("w"), dest: n("u") },
        call("c_func", &["u"], None),
    ];
    let ds = run(vec![function("caller", &["v", "w"], instrs)], &["c_func"]);
    assert_eq!(ds.len(), 1);
    assert_eq!(ds[0].seriousness, Seriousness::Medium);
    assert_eq!(ds[0].bug_info.possible_bugs(), &vec![BugType::UseAfterFree, BugType::MemoryLeakage]);
}

#[test]
fn callee_summary_carries_state_back() {
    // the callee forgets its parameter and returns it
    let callee = Function {
        name: "helper".to_string(),
        demangled_name: "helper".to_string(),
        parameters: vec![n("x")],
        basic_blocks: vec![BasicBlock {
            name: n("entry"),
            instrs: vec![call("core::mem::forget", &["x"], Some("y"))],
            term: Terminator::Ret { return_operand: Some(local("y")) },
            successors: vec![],
        }],
    };
    let caller = function(
        "caller",
        &[],
        vec![call("__rust_alloc", &["size"], Some("a")), call("helper", &["a"], Some("r"))],
    );
    let s = state_after(vec![caller, callee], &[]);
    assert_eq!(s.get_memory_state(&n("r")), MemoryState::Forgotten);
    assert_eq!(s.get_memory_state(&n("a")), MemoryState::Forgotten);
}

#[test]
fn loop_reaches_a_fixpoint() {
    // entry -> body -> body (loop) -> exit
    let f = Function {
        name: "caller".to_string(),
        demangled_name: "caller".to_string(),
        parameters: vec![],
        basic_blocks: vec![
            BasicBlock {
                name: n("entry"),
                instrs: vec![Instruction::Alloca {
                    allocated_type: Type::NamedStructType { name: "alloc::vec::Vec<u8>".to_string() },
                    dest: n("v"),
                }],
                term: Terminator::Other,
                successors: vec![n("body")],
            },
            BasicBlock {
                name: n("body"),
                instrs: vec![Instruction::Phi { incoming_values: vec![local("v"), local("w")], dest: n("w") }],
                term: Terminator::Other,
                successors: vec![n("body"), n("exit")],
            },
            BasicBlock {
                name: n("exit"),
                instrs: vec![],
                term: Terminator::Ret { return_operand: Some(local("w")) },
                successors: vec![],
            },
        ],
    };
    let ctx = GlobalContext::new(options("caller", &[]), vec![f], known_names());
    let mut state = RunState::new();
    let mut fa = FuncAnalysis::new(&ctx, &"caller".to_string()).unwrap();
    fa.iterate_to_fixpoint(&ctx, &mut state);
    assert!(fa.iteration < 200);
    assert_eq!(fa.ret_state, MemoryState::Tainted);
    assert_eq!(fa.get_state_after_call(&ctx).get_memory_state(&n("w")), MemoryState::Tainted);
}

#[test]
fn visitor_applies_transfer_functions() {
    let f = function(
        "caller",
        &[],
        vec![
            Instruction::Alloca {
                allocated_type: Type::NamedStructType { name: "alloc::string::String".to_string() },
                dest: n("s"),
            },
            Instruction::BitCast { operand: local("s"), dest: n("t") },
            Instruction::Arithmetic { operand0: local("t"), operand1: local("t"), dest: n("sum") },
            Instruction::Store { address: local("slot"), value: local("t") },
            Instruction::Load { address: local("zero"), dest: n("t") },
        ],
    );
    let ctx = GlobalContext::new(options("caller", &[]), vec![f], known_names());
    let mut state = RunState::new();
    let mut fa = FuncAnalysis::new(&ctx, &"caller".to_string()).unwrap();
    let mut v = BlockVisitor::new(&BlockState::new(), 0);
    let post = v.analyze(&mut fa, &ctx, &mut state);
    assert_eq!(post.get_memory_state(&n("s")), MemoryState::Tainted);
    assert_eq!(post.get_memory_state(&n("slot")), MemoryState::Tainted);
    assert_eq!(post.get_memory_state(&n("sum")), MemoryState::Untainted);
    assert_eq!(post.get_memory_state(&n("t")), MemoryState::Untainted);
    assert!(state.diagnoses.is_empty());
}

#[test]
fn abstract_domain_keeps_one_entry_per_block() {
    let mut d = AbstractDomain::new();
    assert!(d.get(&n("b")).is_none());
    let mut s = BlockState::new();
    s.set_tainted(&Name::Number(1), MemoryState::Tainted);
    d.insert(n("b"), BlockState::new());
    d.insert(n("b"), s);
    assert_eq!(d.get(&n("b")).unwrap().get_memory_state(&Name::Number(1)), MemoryState::Tainted);
    let mut e = AbstractDomain::new();
    e.insert(n("b"), BlockState::new());
    assert!(e.is_le(&d));
    assert!(!d.is_le(&e));
}

#[test]
fn selection_keeps_the_most_severe_per_function() {
    let f = function(
        "caller",
        &["b"],
        vec![
            call(BOX_INTO_RAW, &["b"], Some("p")),
            call("c_func", &["p"], None),
            call("c_free", &["p"], None),
        ],
    );
    let ctx = GlobalContext::new(options("caller", &["c_func"]), vec![f], known_names());
    let mut analysis = StaticAnalysis::new(ctx);
    analysis.run();
    assert_eq!(analysis.state.diagnoses.len(), 2);
    let picked = analysis.select_diagnoses();
    assert_eq!(picked.len(), 1);
    assert_eq!(picked[0].seriousness, Seriousness::High);
}

#[test]
fn unresolved_entry_points_are_returned() {
    let ctx = GlobalContext::new(options("nowhere", &[]), vec![function("caller", &[], vec![])], known_names());
    let mut analysis = StaticAnalysis::new(ctx);
    let missing = analysis.run();
    assert_eq!(missing, vec!["nowhere".to_string()]);
}

#[test]
fn visits_stop_at_the_iteration_bound() {
    let count = 250;
    let blocks: Vec<BasicBlock> = (0..count)
        .map(|i| BasicBlock {
            name: Name::Number(i),
            instrs: vec![],
            term: if i + 1 == count { Terminator::Ret { return_operand: None } } else { Terminator::Other },
            successors: if i + 1 == count { vec![] } else { vec![Name::Number(i + 1)] },
        })
        .collect();
    let f = Function {
        name: "caller".to_string(),
        demangled_name: "caller".to_string(),
        parameters: vec![],
        basic_blocks: blocks,
    };
    let ctx = GlobalContext::new(options("caller", &[]), vec![f], known_names());
    let mut state = RunState::new();
    let mut fa = FuncAnalysis::new(&ctx, &"caller".to_string()).unwrap();
    fa.iterate_to_fixpoint(&ctx, &mut state);
    assert_eq!(fa.iteration, 200);
    assert!(fa.taint_domain.get(&Name::Number(199)).is_some());
    assert!(fa.taint_domain.get(&Name::Number(249)).is_none());
}

#[test]
fn recursion_stops_at_the_depth_bound() {
    // `rec` calls itself with its tainted parameter, then hands it to free
    let rec = Function {
        name: "rec".to_string(),
        demangled_name: "rec".to_string(),
        parameters: vec![n("x")],
        basic_blocks: vec![BasicBlock {
            name: n("entry"),
            instrs: vec![call("rec", &["x"], None), call("free", &["x"], None)],
            term: Terminator::Ret { return_operand: None },
            successors: vec![],
        }],
    };
    let caller = function(
        "caller",
        &[],
        vec![call("__rust_alloc", &["size"], Some("a")), call("rec", &["a"], None)],
    );
    let ds = run(vec![caller, rec], &[]);
    assert_eq!(ds.len(), 1);
    assert_eq!(ds[0].function_name, "rec");
    assert_eq!(ds[0].seriousness, Seriousness::High);
}

#[test]
fn new_with_init_respects_the_depth_bound() {
    let ctx = GlobalContext::new(options("caller", &[]), vec![function("caller", &[], vec![])], known_names());
    let init = BlockState::new();
    assert!(FuncAnalysis::new_with_init(&ctx, &"caller".to_string(), &init, 19).is_some());
    let fresh = FuncAnalysis::new_with_init(&ctx, &"caller".to_string(), &init, 0).unwrap();
    assert_eq!(fresh.ret_state, MemoryState::Untainted);
    assert!(fresh.taint_domain.get(&n("start")).is_none());
    assert!(FuncAnalysis::new_with_init(&ctx, &"caller".to_string(), &init, 20).is_none());
    assert!(FuncAnalysis::new_with_init(&ctx, &"other".to_string(), &init, 2).is_none());
}
