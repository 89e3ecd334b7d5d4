use vstd::prelude::*;
use crate::block_state::{BlockState, Shape, state_in, set_tainted_shape, propagate_shape};
use crate::context::{GlobalContext, RunState, diagnosis_set};
use crate::diagnosis::{BugInfo, BugInfoModel, BugType, Diagnosis, DiagnosisModel, Seriousness};
use crate::ir::{Callee, Constant, Instruction, Operand, Terminator, Type, local_name, local_of, calls_function_pointer, direct_callee, is_function_pointer};
use crate::known_names::{Intrinsic, KnownNameType};
use crate::lattice::{MemoryState, state_le, state_join};
use crate::name::{Name, NameModel};
use crate::summary::{Summary, KeyModel, key_view, cache_extends};
use crate::taint_analysis::{FuncAnalysis, MAX_DEPTH, MAX_ITERATION, same_frame, join_returns, unique_names, settled};
use crate::text::{has_prefix, has_infix, starts_with, contains};

verus! {

/// Whether an `alloca` of this type builds a heap-owning container: the host's
/// growable vector, owned string or C string.
pub open spec fn heap_owning(t: Type) -> bool {
    match t {
        Type::NamedStructType { name } => has_prefix(name@, "alloc::vec::Vec"@) || has_prefix(
            name@,
            "alloc::string::String"@,
        ) || has_infix(name@, "std::ffi::c_str::CString"@),
        _ => false,
    }
}

/// The state of `from`, if it is an SSA value, carried over to `to`.
pub open spec fn flow(m: Shape, from: Operand, to: NameModel) -> Shape {
    match local_of(from) {
        Some(f) => propagate_shape(m, f, to),
        None => m,
    }
}

/// The state of the first tainted SSA value among `ops`, else `Untainted`.
pub open spec fn first_tainted(m: Shape, ops: Seq<Operand>) -> MemoryState
    decreases ops.len(),
{
    if ops.len() == 0 {
        MemoryState::Untainted
    } else if local_of(ops[0]) is Some && state_le(
        MemoryState::Tainted,
        state_in(m, local_of(ops[0])->0),
    ) {
        state_in(m, local_of(ops[0])->0)
    } else {
        first_tainted(m, ops.drop_first())
    }
}

/// The effect of an instruction other than a call.
pub open spec fn transfer(m: Shape, i: Instruction) -> Shape {
    match i {
        Instruction::Load { address, dest } => flow(m, address, dest@),
        Instruction::Store { address, value } => match local_of(address) {
            Some(a) => flow(m, value, a),
            None => m,
        },
        Instruction::BitCast { operand, dest } => flow(m, operand, dest@),
        Instruction::Trunc { operand, dest } => flow(m, operand, dest@),
        Instruction::ZExt { operand, dest } => flow(m, operand, dest@),
        Instruction::SExt { operand, dest } => flow(m, operand, dest@),
        Instruction::PtrToInt { operand, dest } => flow(m, operand, dest@),
        Instruction::IntToPtr { operand, dest } => flow(m, operand, dest@),
        Instruction::AddrSpaceCast { operand, dest } => flow(m, operand, dest@),
        Instruction::GetElementPtr { address, dest } => flow(m, address, dest@),
        Instruction::ExtractElement { vector, dest } => flow(m, vector, dest@),
        Instruction::ExtractValue { aggregate, dest } => flow(m, aggregate, dest@),
        Instruction::InsertElement { element, dest } => match local_of(element) {
            Some(e) => set_tainted_shape(m, dest@, state_in(m, e)),
            None => m,
        },
        Instruction::InsertValue { element, dest } => match local_of(element) {
            Some(e) => set_tainted_shape(m, dest@, state_in(m, e)),
            None => m,
        },
        Instruction::ShuffleVector { operand0, operand1, dest } => match (
            local_of(operand0),
            local_of(operand1),
        ) {
            (Some(a), Some(b)) => if state_le(MemoryState::Tainted, state_in(m, a)) || state_le(
                MemoryState::Tainted,
                state_in(m, b),
            ) {
                set_tainted_shape(m, dest@, state_join(state_in(m, a), state_in(m, b)))
            } else {
                set_tainted_shape(m, dest@, MemoryState::Untainted)
            },
            _ => m,
        },
        Instruction::Phi { incoming_values, dest } => set_tainted_shape(
            m,
            dest@,
            first_tainted(m, incoming_values@),
        ),
        Instruction::Alloca { allocated_type, dest } => if heap_owning(allocated_type) {
            set_tainted_shape(m, dest@, MemoryState::Tainted)
        } else {
            m
        },
        _ => m,
    }
}

/// The effect of a sequence of instructions none of which is a call.
pub open spec fn transfer_all(m: Shape, instrs: Seq<Instruction>) -> Shape
    decreases instrs.len(),
{
    if instrs.len() == 0 {
        m
    } else {
        transfer(transfer_all(m, instrs.drop_last()), instrs.last())
    }
}

/// No instruction of the sequence is a call.
pub open spec fn call_free(instrs: Seq<Instruction>) -> bool {
    forall|k: int| 0 <= k < instrs.len() ==> !(#[trigger] instrs[k] is Call)
}

/// `n` is raised to `s` where its state lies strictly below `s`.
pub open spec fn escalate(m: Shape, n: NameModel, s: MemoryState) -> Shape {
    if state_le(state_in(m, n), s) && state_in(m, n) != s {
        set_tainted_shape(m, n, s)
    } else {
        m
    }
}

/// The SSA value passed as argument `i`, if it is one.
pub open spec fn arg_local(args: Seq<Operand>, i: int) -> Option<NameModel> {
    if 0 <= i < args.len() {
        local_of(args[i])
    } else {
        None
    }
}

/// The state of `a` carried over to the call's result, if it has one.
pub open spec fn to_dest(m: Shape, a: NameModel, dest: Option<NameModel>) -> Shape {
    match dest {
        Some(d) => propagate_shape(m, a, d),
        None => m,
    }
}

/// The catalogued effect of a library call.
pub open spec fn intrinsic_shape(m: Shape, k: Intrinsic, args: Seq<Operand>, dest: Option<NameModel>) -> Shape {
    match k {
        Intrinsic::Memcpy | Intrinsic::IntoVec | Intrinsic::VecPush => match (
            arg_local(args, 0),
            arg_local(args, 1),
        ) {
            (Some(d), Some(s)) => propagate_shape(m, s, d),
            _ => m,
        },
        Intrinsic::Deref | Intrinsic::RcNew | Intrinsic::Unwrap => match (arg_local(args, 0), dest) {
            (Some(a), Some(d)) => propagate_shape(m, a, d),
            _ => m,
        },
        Intrinsic::CStringIntoRaw | Intrinsic::Forget | Intrinsic::BoxIntoRaw => match arg_local(
            args,
            0,
        ) {
            Some(a) => to_dest(escalate(m, a, MemoryState::Forgotten), a, dest),
            None => m,
        },
        Intrinsic::CStringAsCStr | Intrinsic::VecAsPtr => match arg_local(args, 0) {
            Some(a) => to_dest(escalate(m, a, MemoryState::Borrowed), a, dest),
            None => m,
        },
        Intrinsic::VecIntoRawParts => match arg_local(args, 1) {
            Some(a) => escalate(m, a, MemoryState::Forgotten),
            None => m,
        },
        Intrinsic::VecFromRawParts => match arg_local(args, 0) {
            Some(a) => to_dest(
                if state_in(m, a) == MemoryState::Forgotten {
                    set_tainted_shape(m, a, MemoryState::Tainted)
                } else {
                    m
                },
                a,
                dest,
            ),
            None => m,
        },
    }
}

/// The name of an optional result.
pub open spec fn dest_of(d: Option<Name>) -> Option<NameModel> {
    match d {
        Some(n) => Some(n@),
        None => None,
    }
}

/// The bugs and severity reported for an argument in state `s` passed to a
/// foreign function whose code is not available.
pub open spec fn unknown_ffi_report(s: MemoryState) -> Option<(Seq<BugType>, Seriousness)> {
    match s {
        MemoryState::Tainted => Some((seq![BugType::MemoryLeakage], Seriousness::Low)),
        MemoryState::Borrowed => Some((seq![BugType::UseAfterFree], Seriousness::Low)),
        MemoryState::Forgotten => Some((seq![BugType::MemoryLeakage], Seriousness::Medium)),
        MemoryState::Unknown => Some(
            (seq![BugType::UseAfterFree, BugType::MemoryLeakage], Seriousness::Medium),
        ),
        MemoryState::Untainted => None,
    }
}

/// The bugs and severity reported for an argument in state `s` passed
/// through a function pointer.
pub open spec fn pointer_call_report(s: MemoryState) -> Option<(Seq<BugType>, Seriousness)> {
    match s {
        MemoryState::Tainted => Some((seq![BugType::UseAfterFree], Seriousness::Low)),
        MemoryState::Borrowed => Some((seq![BugType::UseAfterFree], Seriousness::Low)),
        MemoryState::Forgotten => Some((seq![BugType::MemoryLeakage], Seriousness::Medium)),
        MemoryState::Unknown => Some(
            (seq![BugType::UseAfterFree, BugType::MemoryLeakage], Seriousness::Medium),
        ),
        MemoryState::Untainted => None,
    }
}

/// Whether some SSA-valued argument is at least tainted.
pub open spec fn some_tainted(m: Shape, args: Seq<Operand>) -> bool {
    exists|i: int| 0 <= i < args.len() && #[trigger] local_of(args[i]) is Some && state_le(
        MemoryState::Tainted,
        state_in(m, local_of(args[i])->0),
    )
}

/// How a call to `sym` (demangled `dem`) is handled: by the catalogue, with
/// declared foreign functions in place of ordinary ones.
pub open spec fn call_kind(ctx: &GlobalContext, sym: Seq<char>, dem: Seq<char>) -> KnownNameType {
    if ctx.known_names.classify(dem) == KnownNameType::Normal && ctx.ffi_list().contains(sym) {
        KnownNameType::FFISink
    } else {
        ctx.known_names.classify(dem)
    }
}

/// The explanation given for an argument in state `s`, passed to a foreign
/// function whose code is missing (`foreign`) or through a function pointer.
pub open spec fn report_text(foreign: bool, s: MemoryState) -> Seq<char> {
    if foreign {
        match s {
            MemoryState::Tainted => "FFI is unknown, argument is in state `Tainted`."@,
            MemoryState::Borrowed => "FFI is unknown, argument is in state `Borrowed`."@,
            MemoryState::Forgotten => "FFI is unknown, argument is in state `Forgotten`."@,
            _ => "FFI is unknown, argument is in state `Unknown`."@,
        }
    } else {
        match s {
            MemoryState::Tainted => "Call by function pointer, argument is `Tainted`."@,
            MemoryState::Borrowed => "Call by function pointer, argument is `Borrowed`."@,
            MemoryState::Forgotten => "Call by function pointer, argument is `Forgotten`."@,
            _ => "Call by function pointer, argument is `Unknown`."@,
        }
    }
}

/// The diagnosis, in function `fname`, for an argument in state `s`.
pub open spec fn argument_diagnosis(fname: Seq<char>, foreign: bool, s: MemoryState) -> Option<DiagnosisModel> {
    let report = if foreign {
        unknown_ffi_report(s)
    } else {
        pointer_call_report(s)
    };
    match report {
        Some((bugs, sev)) => Some(
            DiagnosisModel {
                seriousness: sev,
                bug_info: BugInfoModel { ffi_known: false, possible_bugs: bugs, msg: Some(report_text(foreign, s)) },
                function_name: fname,
            },
        ),
        None => None,
    }
}

/// The diagnoses for the first `n` arguments.
pub open spec fn argument_diagnoses(fname: Seq<char>, foreign: bool, m: Shape, args: Seq<Operand>, n: int) -> Set<DiagnosisModel> {
    Set::new(
        |d: DiagnosisModel|
            exists|k: int|
                0 <= k < n && k < args.len() && #[trigger] local_of(args[k]) is Some && argument_diagnosis(
                    fname,
                    foreign,
                    state_in(m, local_of(args[k])->0),
                ) == Some(d),
    )
}

/// The diagnosis, in function `fname`, for an argument left in state `s` by a
/// foreign function whose code was analysed.
pub open spec fn after_ffi_diagnosis(fname: Seq<char>, s: MemoryState) -> Option<DiagnosisModel> {
    let text = match s {
        MemoryState::Forgotten => Some("After the FFI finishes, argument is still in state `Forgotten`."@),
        MemoryState::Unknown => Some("After the FFI finishes, argument is still in state `Unknown`."@),
        _ => None,
    };
    match text {
        Some(t) => Some(
            DiagnosisModel {
                seriousness: Seriousness::Medium,
                bug_info: BugInfoModel { ffi_known: true, possible_bugs: seq![BugType::MemoryLeakage], msg: Some(t) },
                function_name: fname,
            },
        ),
        None => None,
    }
}

/// The diagnoses for the first `n` arguments after such a call.
pub open spec fn after_ffi_diagnoses(fname: Seq<char>, m: Shape, args: Seq<Operand>, n: int) -> Set<DiagnosisModel> {
    Set::new(
        |d: DiagnosisModel|
            exists|k: int|
                0 <= k < n && k < args.len() && #[trigger] local_of(args[k]) is Some && after_ffi_diagnosis(
                    fname,
                    state_in(m, local_of(args[k])->0),
                ) == Some(d),
    )
}

/// The diagnosis for a freed argument that carries taint.
pub open spec fn free_diagnosis(fname: Seq<char>) -> DiagnosisModel {
    DiagnosisModel {
        seriousness: Seriousness::High,
        bug_info: BugInfoModel {
            ffi_known: true,
            possible_bugs: seq![BugType::UseAfterFree, BugType::DoubleFree],
            msg: Some("Taint source meets taint sink."@),
        },
        function_name: fname,
    }
}

/// The argument states of a call, `None` for an argument that is no SSA value.
pub open spec fn arg_states(m: Shape, args: Seq<Operand>) -> Seq<Option<MemoryState>> {
    Seq::new(
        args.len(),
        |k: int|
            match local_of(args[k]) {
                Some(n) => Some(state_in(m, n)),
                None => None,
            },
    )
}

/// Each of the first `n` SSA-valued arguments takes the state that `end`
/// gives its formal parameter.
pub open spec fn write_back(m: Shape, args: Seq<Operand>, params: Seq<Name>, end: Shape, n: int) -> Shape
    decreases n,
{
    if n <= 0 {
        m
    } else {
        let m1 = write_back(m, args, params, end, n - 1);
        match local_of(args[n - 1]) {
            Some(a) => set_tainted_shape(m1, a, state_in(end, params[n - 1]@)),
            None => m1,
        }
    }
}

/// The state after a call whose summary is `(end, ret)`: the result takes
/// `ret`, then each SSA-valued argument takes its formal's state in `end`.
pub open spec fn apply_summary(
    m: Shape,
    args: Seq<Operand>,
    dest: Option<NameModel>,
    params: Seq<Name>,
    end: Shape,
    ret: MemoryState,
) -> Shape {
    let m1 = match dest {
        Some(d) => set_tainted_shape(m, d, ret),
        None => m,
    };
    write_back(m1, args, params, end, if args.len() < params.len() { args.len() as int } else { params.len() as int })
}

/// A call to a loaded function applies the summary that the cache holds for
/// the callee and the arguments' states, and changes nothing where there is
/// none (the depth bound was reached).
pub open spec fn summary_effect(
    ctx: &GlobalContext,
    sym: Seq<char>,
    args: Seq<Operand>,
    dest: Option<NameModel>,
    m0: Shape,
    m1: Shape,
    cache: Map<KeyModel, (Shape, MemoryState)>,
) -> bool {
    let key = (sym, arg_states(m0, args));
    if cache.contains_key(key) {
        m1 == apply_summary(
            m0,
            args,
            dest,
            ctx.functions@[ctx.function_named(sym)].parameters@,
            cache[key].0,
            cache[key].1,
        )
    } else {
        m1 == m0
    }
}

/// A call to a loaded function below the depth bound whose summary was not
/// cached leaves a summary computed by analysing the callee.
pub open spec fn fresh_summary(
    ctx: &GlobalContext,
    sym: Seq<char>,
    args: Seq<Operand>,
    m0: Shape,
    cache0: Map<KeyModel, (Shape, MemoryState)>,
    cache: Map<KeyModel, (Shape, MemoryState)>,
    depth: u32,
) -> bool {
    let key = (sym, arg_states(m0, args));
    depth + 1 < MAX_DEPTH && !cache0.contains_key(key) ==> cache.contains_key(key) && computed_summary(
        ctx,
        ctx.function_named(sym),
        arg_states(m0, args),
        cache[key].0,
    )
}

/// Some loaded function has symbol `sym`.
pub open spec fn is_loaded(ctx: &GlobalContext, sym: Seq<char>) -> bool {
    exists|i: int| 0 <= i < ctx.functions@.len() && #[trigger] ctx.functions@[i].name@ == sym
}

/// What a call to `sym` (demangled `dem`) does to the state `m0` and the
/// diagnoses `d0`, wherever the class of the callee fixes it. Calls analysed
/// through a summary are left open here.
pub open spec fn known_call_effect(
    ctx: &GlobalContext,
    fname: Seq<char>,
    sym: Seq<char>,
    dem: Seq<char>,
    args: Seq<Operand>,
    dest: Option<NameModel>,
    m0: Shape,
    m1: Shape,
    d0: Set<DiagnosisModel>,
    d1: Set<DiagnosisModel>,
    cache: Map<KeyModel, (Shape, MemoryState)>,
    cache0: Map<KeyModel, (Shape, MemoryState)>,
    depth: u32,
) -> bool {
    match call_kind(ctx, sym, dem) {
        KnownNameType::AllocSource => d1 == d0 && m1 == match dest {
            Some(d) => set_tainted_shape(m0, d, MemoryState::Tainted),
            None => m0,
        },
        KnownNameType::Ignore => m1 == m0 && d1 == d0,
        KnownNameType::Intrinsic(k) => m1 == intrinsic_shape(m0, k, args, dest) && d1 == d0,
        KnownNameType::FreeSink => m1 == m0 && d1 == if some_tainted(m0, args) {
            d0.insert(free_diagnosis(fname))
        } else {
            d0
        },
        KnownNameType::FFISink => if is_loaded(ctx, sym) {
            summary_effect(ctx, sym, args, dest, m0, m1, cache) && fresh_summary(ctx, sym, args, m0, cache0, cache, depth)
                && exists|dm: Set<DiagnosisModel>| #[trigger] d0.subset_of(dm) && d1 == dm.union(after_ffi_diagnoses(fname, m1, args, args.len() as int))
        } else {
            m1 == m0 && d1 == d0.union(argument_diagnoses(fname, true, m0, args, args.len() as int))
        },
        KnownNameType::Normal => if is_loaded(ctx, sym) {
            summary_effect(ctx, sym, args, dest, m0, m1, cache) && fresh_summary(ctx, sym, args, m0, cache0, cache, depth)
        } else {
            m1 == m0 && d1 == d0
        },
    }
}

/// What a call site does: by symbol as above; through a function pointer, a
/// report on each argument; otherwise nothing.
pub open spec fn call_site_effect(
    ctx: &GlobalContext,
    fname: Seq<char>,
    callee: Callee,
    args: Seq<Operand>,
    dest: Option<NameModel>,
    m0: Shape,
    m1: Shape,
    d0: Set<DiagnosisModel>,
    d1: Set<DiagnosisModel>,
    cache: Map<KeyModel, (Shape, MemoryState)>,
    cache0: Map<KeyModel, (Shape, MemoryState)>,
    depth: u32,
) -> bool {
    match direct_callee(callee) {
        Some((sym, dem)) => known_call_effect(ctx, fname, sym, dem, args, dest, m0, m1, d0, d1, cache, cache0, depth),
        None => m1 == m0 && d1 == if is_function_pointer(callee) {
            d0.union(argument_diagnoses(fname, false, m0, args, args.len() as int))
        } else {
            d0
        },
    }
}

/// The explanation for an argument left in state `s` by a foreign function
/// whose code was analysed, where it is reported.
fn after_ffi_report(s: MemoryState) -> (r: Option<&'static str>)
    ensures
        match r {
            Some(t) => after_ffi_diagnosis(Seq::empty(), s) matches Some(d) && d.bug_info.msg == Some(t@),
            None => after_ffi_diagnosis(Seq::empty(), s) is None,
        },
{
    match s {
        MemoryState::Forgotten => Some("After the FFI finishes, argument is still in state `Forgotten`."),
        MemoryState::Unknown => Some("After the FFI finishes, argument is still in state `Unknown`."),
        _ => None,
    }
}

/// The state on entry to a callee: each formal parameter with an argument
/// state takes it, in order, from an empty state.
pub open spec fn initial_shape(params: Seq<Name>, init: Seq<Option<MemoryState>>, n: int) -> Shape
    decreases n,
{
    if n <= 0 {
        Shape::empty()
    } else {
        let m = initial_shape(params, init, n - 1);
        match init[n - 1] {
            Some(st) => set_tainted_shape(m, params[n - 1]@, st),
            None => m,
        }
    }
}

/// `end` is the join of the returning blocks' states in `dom`, and `dom`,
/// unless the visit bound `it` was reached, settles every block of the callee
/// from its initial state.
pub open spec fn computed_summary_with(
    ctx: &GlobalContext,
    callee: int,
    init: Seq<Option<MemoryState>>,
    end: Shape,
    dom: Map<NameModel, Shape>,
    it: u32,
) -> bool {
    let f = ctx.functions@[callee];
    let start = initial_shape(
        f.parameters@,
        init,
        if init.len() < f.parameters@.len() { init.len() as int } else { f.parameters@.len() as int },
    );
    &&& it <= MAX_ITERATION
    &&& end == join_returns(dom, f.basic_blocks@, f.basic_blocks@.len() as int)
    &&& it < MAX_ITERATION && unique_names(f.basic_blocks@) ==> forall|b: int|
        0 <= b < f.basic_blocks@.len() ==> #[trigger] settled(start, dom, f.basic_blocks@, b)
}

/// The summary state `end` comes from an analysis of the callee from its
/// initial state.
pub open spec fn computed_summary(ctx: &GlobalContext, callee: int, init: Seq<Option<MemoryState>>, end: Shape) -> bool {
    exists|dom: Map<NameModel, Shape>, it: u32| #[trigger] computed_summary_with(ctx, callee, init, end, dom, it)
}

/// What one instruction does: a call as its call site says, anything else by
/// its transfer function.
pub open spec fn instr_effect(
    ctx: &GlobalContext,
    fname: Seq<char>,
    i: Instruction,
    m0: Shape,
    m1: Shape,
    d0: Set<DiagnosisModel>,
    d1: Set<DiagnosisModel>,
    cache: Map<KeyModel, (Shape, MemoryState)>,
    cache0: Map<KeyModel, (Shape, MemoryState)>,
    depth: u32,
) -> bool {
    match i {
        Instruction::Call { function, arguments, dest } => call_site_effect(
            ctx,
            fname,
            function,
            arguments@,
            dest_of(dest),
            m0,
            m1,
            d0,
            d1,
            cache,
            cache0,
            depth,
        ),
        _ => m1 == transfer(m0, i) && d1 == d0,
    }
}

/// The states `ms`, diagnoses `ds` and caches `cs` before and after each of
/// the first `n` instructions follow one another.
pub open spec fn chain_upto(
    ctx: &GlobalContext,
    fname: Seq<char>,
    instrs: Seq<Instruction>,
    ms: Seq<Shape>,
    ds: Seq<Set<DiagnosisModel>>,
    cs: Seq<Map<KeyModel, (Shape, MemoryState)>>,
    n: int,
    depth: u32,
) -> bool {
    &&& ms.len() == n + 1
    &&& ds.len() == n + 1
    &&& cs.len() == n + 1
    &&& forall|j: int| 0 <= j < n ==> #[trigger] instr_effect(ctx, fname, instrs[j], ms[j], ms[j + 1], ds[j], ds[j + 1], cs[j + 1], cs[j], depth)
}

/// What a terminator does to the state and the diagnoses: an invoke as its
/// call site says; anything else nothing.
pub open spec fn term_effect(
    ctx: &GlobalContext,
    fname: Seq<char>,
    t: Terminator,
    m0: Shape,
    m1: Shape,
    d0: Set<DiagnosisModel>,
    d1: Set<DiagnosisModel>,
    cache: Map<KeyModel, (Shape, MemoryState)>,
    cache0: Map<KeyModel, (Shape, MemoryState)>,
    depth: u32,
) -> bool {
    match t {
        Terminator::Invoke { function, arguments, result } => call_site_effect(
            ctx,
            fname,
            function,
            arguments@,
            Some(result@),
            m0,
            m1,
            d0,
            d1,
            cache,
            cache0,
            depth,
        ),
        _ => m1 == m0 && d1 == d0,
    }
}

/// The returned state after a terminator: a `ret` of an SSA value joins in
/// that value's state.
pub open spec fn ret_effect(t: Terminator, m: Shape, r0: MemoryState) -> MemoryState {
    match t {
        Terminator::Ret { return_operand: Some(op) } => match local_of(op) {
            Some(n) => state_join(r0, state_in(m, n)),
            None => r0,
        },
        _ => r0,
    }
}

/// The bugs, severity and explanation for an argument in state `s`.
fn argument_report(foreign: bool, s: MemoryState) -> (r: Option<(Vec<BugType>, Seriousness, &'static str)>)
    ensures
        match r {
            Some((b, v, m)) => (if foreign {
                unknown_ffi_report(s)
            } else {
                pointer_call_report(s)
            }) == Some((b@, v)) && m@ == report_text(foreign, s),
            None => (if foreign {
                unknown_ffi_report(s)
            } else {
                pointer_call_report(s)
            }) is None,
        },
{
    if foreign {
        match s {
            MemoryState::Tainted => Some((vec![BugType::MemoryLeakage], Seriousness::Low, "FFI is unknown, argument is in state `Tainted`.")),
            MemoryState::Borrowed => Some((vec![BugType::UseAfterFree], Seriousness::Low, "FFI is unknown, argument is in state `Borrowed`.")),
            MemoryState::Forgotten => Some((vec![BugType::MemoryLeakage], Seriousness::Medium, "FFI is unknown, argument is in state `Forgotten`.")),
            MemoryState::Unknown => Some((vec![BugType::UseAfterFree, BugType::MemoryLeakage], Seriousness::Medium, "FFI is unknown, argument is in state `Unknown`.")),
            MemoryState::Untainted => None,
        }
    } else {
        match s {
            MemoryState::Tainted => Some((vec![BugType::UseAfterFree], Seriousness::Low, "Call by function pointer, argument is `Tainted`.")),
            MemoryState::Borrowed => Some((vec![BugType::UseAfterFree], Seriousness::Low, "Call by function pointer, argument is `Borrowed`.")),
            MemoryState::Forgotten => Some((vec![BugType::MemoryLeakage], Seriousness::Medium, "Call by function pointer, argument is `Forgotten`.")),
            MemoryState::Unknown => Some((vec![BugType::UseAfterFree, BugType::MemoryLeakage], Seriousness::Medium, "Call by function pointer, argument is `Unknown`.")),
            MemoryState::Untainted => None,
        }
    }
}

/// Applies the transfer functions of one basic block to a state.
pub struct BlockVisitor {
    state: BlockState,
    block: usize,
}

impl BlockVisitor {
    /// The current state.
    pub closed spec fn current(&self) -> Shape {
        self.state@
    }

    /// The current state is well formed.
    pub closed spec fn wf(&self) -> bool {
        self.state.wf()
    }

    /// The index of the block, among its function's blocks.
    pub closed spec fn block(&self) -> usize {
        self.block
    }

    /// A visitor of block `block` starting from the state `pre`.
    pub fn new(pre: &BlockState, block: usize) -> (r: BlockVisitor)
        requires
            pre.wf(),
        ensures
            r.wf(),
            r.current() == pre@,
            r.block() == block,
    {
        BlockVisitor { state: pre.clone(), block }
    }

    /// Walks the block's instructions, then its terminator, and returns the
    /// state after the block.
    pub fn analyze(&mut self, fa: &mut FuncAnalysis, ctx: &GlobalContext, run: &mut RunState) -> (r: BlockState)
        requires
            old(self).wf(),
            old(fa).wf(ctx),
            old(run).wf(),
            old(self).block() < ctx.functions@[old(fa).function as int].basic_blocks@.len(),
        ensures
            r.wf(),
            r@ == final(self).current(),
            final(fa).wf(ctx),
            same_frame(*old(fa), *final(fa)),
            final(run).wf(),
            diagnosis_set(old(run).diagnoses@).subset_of(diagnosis_set(final(run).diagnoses@)),
            cache_extends(old(run).summary_cache@, final(run).summary_cache@),
            ({
                let bb = ctx.functions@[old(fa).function as int].basic_blocks@[old(self).block() as int];
                call_free(bb.instrs@) && !(bb.term is Invoke) ==> r@ == transfer_all(old(self).current(), bb.instrs@)
                    && diagnosis_set(final(run).diagnoses@) == diagnosis_set(old(run).diagnoses@)
            }),
            ({
                let bb = ctx.functions@[old(fa).function as int].basic_blocks@[old(self).block() as int];
                let fname = ctx.functions@[old(fa).function as int].demangled_name@;
                exists|ms: Seq<Shape>, ds: Seq<Set<DiagnosisModel>>, cs: Seq<Map<KeyModel, (Shape, MemoryState)>>|
                    #[trigger] chain_upto(ctx, fname, bb.instrs@, ms, ds, cs, bb.instrs@.len() as int, old(fa).depth)
                    && ms[0] == old(self).current() && ds[0] == diagnosis_set(old(run).diagnoses@) && cs[0] == old(run).summary_cache@
                    && term_effect(ctx, fname, bb.term, ms.last(), r@, ds.last(), diagnosis_set(final(run).diagnoses@), final(run).summary_cache@, cs.last(), old(fa).depth)
                    && final(fa).ret_state == ret_effect(bb.term, ms.last(), old(fa).ret_state)
            }),
        decreases MAX_DEPTH - old(fa).depth, 5nat,
    {
        let f = fa.function;
        let b = self.block;
        let n = ctx.functions[f].basic_blocks[b].instrs.len();
        let ghost fname = ctx.functions@[f as int].demangled_name@;
        let ghost mut ms: Seq<Shape> = seq![self.current()];
        let ghost mut ds: Seq<Set<DiagnosisModel>> = seq![diagnosis_set(run.diagnoses@)];
        let ghost mut cs: Seq<Map<KeyModel, (Shape, MemoryState)>> = seq![run.summary_cache@];
        let mut k: usize = 0;
        while k < n
            invariant
                self.wf(),
                fa.wf(ctx),
                fa.function == f,
                *fa == *old(fa),
                fname == ctx.functions@[f as int].demangled_name@,
                chain_upto(ctx, fname, ctx.functions@[f as int].basic_blocks@[b as int].instrs@, ms, ds, cs, k as int, old(fa).depth),
                cs[0] == old(run).summary_cache@,
                ms[0] == old(self).current(),
                ds[0] == diagnosis_set(old(run).diagnoses@),
                ms.last() == self.current(),
                ds.last() == diagnosis_set(run.diagnoses@),
                cs.last() == run.summary_cache@,
                same_frame(*old(fa), *fa),
                run.wf(),
                diagnosis_set(old(run).diagnoses@).subset_of(diagnosis_set(run.diagnoses@)),
                cache_extends(old(run).summary_cache@, run.summary_cache@),
                b < ctx.functions@[f as int].basic_blocks@.len(),
                b == old(self).block,
                self.block == b,
                n == ctx.functions@[f as int].basic_blocks@[b as int].instrs@.len(),
                k <= n,
                call_free(ctx.functions@[f as int].basic_blocks@[b as int].instrs@) ==> self.current() == transfer_all(
                    old(self).current(),
                    ctx.functions@[f as int].basic_blocks@[b as int].instrs@.take(k as int),
                ) && diagnosis_set(run.diagnoses@) == diagnosis_set(old(run).diagnoses@),
            decreases n - k,
        {
            let ghost instrs = ctx.functions@[f as int].basic_blocks@[b as int].instrs@;
            self.analyze_instruction(&ctx.functions[f].basic_blocks[b].instrs[k], fa, ctx, run);
            proof {
                let ms0 = ms;
                let ds0 = ds;
                let cs0 = cs;
                ms = ms.push(self.current());
                ds = ds.push(diagnosis_set(run.diagnoses@));
                cs = cs.push(run.summary_cache@);
                assert forall|j: int| 0 <= j < k + 1 implies #[trigger] instr_effect(ctx, fname, instrs[j], ms[j], ms[j + 1], ds[j], ds[j + 1], cs[j + 1], cs[j], old(fa).depth) by {
                    if j < k {
                        assert(ms[j] == ms0[j] && ms[j + 1] == ms0[j + 1] && ds[j] == ds0[j] && ds[j + 1] == ds0[j + 1] && cs[j + 1] == cs0[j + 1] && cs[j] == cs0[j]);
                    }
                }
                assert(instrs.take(k + 1).drop_last() =~= instrs.take(k as int));
                assert(instrs.take(k + 1).last() == instrs[k as int]);
            }
            k = k + 1;
        }
        proof {
            let instrs = ctx.functions@[f as int].basic_blocks@[b as int].instrs@;
            assert(instrs.take(n as int) =~= instrs);
        }
        let ghost mk = self.current();
        self.analyze_terminator(&ctx.functions[f].basic_blocks[b].term, fa, ctx, run);
        let r = self.state.clone();
        proof {
            let bb = ctx.functions@[f as int].basic_blocks@[b as int];
            assert(chain_upto(ctx, fname, bb.instrs@, ms, ds, cs, bb.instrs@.len() as int, old(fa).depth));
            assert(ms.last() == mk);
        }
        r
    }

    fn flow(&mut self, from: &Operand, to: &Name)
        requires
            old(self).wf(),
        ensures
            final(self).wf(),
            final(self).block == old(self).block,
            final(self).current() == flow(old(self).current(), *from, to@),
    {
        match local_name(from) {
            Some(n) => self.state.propagate_taint(n, to),
            None => {},
        }
    }

    fn overwrite(&mut self, element: &Operand, dest: &Name)
        requires
            old(self).wf(),
        ensures
            final(self).wf(),
            final(self).block == old(self).block,
            final(self).current() == match local_of(*element) {
                Some(e) => set_tainted_shape(old(self).current(), dest@, state_in(old(self).current(), e)),
                None => old(self).current(),
            },
    {
        match local_name(element) {
            Some(e) => {
                let s = self.state.get_memory_state(e);
                self.state.set_tainted(dest, s);
            },
            None => {},
        }
    }

    fn analyze_shufflevector(&mut self, operand0: &Operand, operand1: &Operand, dest: &Name)
        requires
            old(self).wf(),
        ensures
            final(self).wf(),
            final(self).block == old(self).block,
            final(self).current() == transfer(
                old(self).current(),
                Instruction::ShuffleVector { operand0: *operand0, operand1: *operand1, dest: *dest },
            ),
    {
        match (local_name(operand0), local_name(operand1)) {
            (Some(a), Some(b)) => {
                if self.state.is_tainted(a) || self.state.is_tainted(b) {
                    let sa = self.state.get_memory_state(a);
                    let sb = self.state.get_memory_state(b);
                    self.state.set_tainted(dest, sa.union(sb));
                } else {
                    self.state.set_tainted(dest, MemoryState::Untainted);
                }
            },
            _ => {},
        }
    }

    fn analyze_phi(&mut self, incoming_values: &Vec<Operand>, dest: &Name)
        requires
            old(self).wf(),
        ensures
            final(self).wf(),
            final(self).block == old(self).block,
            final(self).current() == set_tainted_shape(old(self).current(), dest@, first_tainted(old(self).current(), incoming_values@)),
    {
        let ghost m = self.state@;
        let mut chosen = MemoryState::Untainted;
        let mut found = false;
        let mut i: usize = 0;
        assert(incoming_values@.skip(0) =~= incoming_values@);
        while i < incoming_values.len() && !found
            invariant
                self.state.wf(),
                self.state@ == m,
                self.block == old(self).block,
                i <= incoming_values@.len(),
                found ==> chosen == first_tainted(m, incoming_values@),
                !found ==> chosen == MemoryState::Untainted && first_tainted(m, incoming_values@) == first_tainted(m, incoming_values@.skip(i as int)),
            decreases incoming_values@.len() - i,
        {
            let ghost rest = incoming_values@.skip(i as int);
            assert(rest[0] == incoming_values@[i as int]);
            assert(rest.drop_first() =~= incoming_values@.skip(i + 1));
            match local_name(&incoming_values[i]) {
                Some(v) => {
                    if self.state.is_tainted(v) {
                        chosen = self.state.get_memory_state(v);
                        found = true;
                    }
                },
                None => {},
            }
            i = i + 1;
        }
        proof {
            if !found {
                assert(incoming_values@.skip(i as int).len() == 0);
            }
        }
        self.state.set_tainted(dest, chosen);
    }

    fn analyze_alloca(&mut self, allocated_type: &Type, dest: &Name)
        requires
            old(self).wf(),
        ensures
            final(self).wf(),
            final(self).block == old(self).block,
            final(self).current() == if heap_owning(*allocated_type) {
                set_tainted_shape(old(self).current(), dest@, MemoryState::Tainted)
            } else {
                old(self).current()
            },
    {
        match allocated_type {
            Type::NamedStructType { name } => {
                if starts_with(name.as_str(), "alloc::vec::Vec") || starts_with(
                    name.as_str(),
                    "alloc::string::String",
                ) || contains(name.as_str(), "std::ffi::c_str::CString") {
                    self.state.set_tainted(dest, MemoryState::Tainted);
                }
            },
            _ => {},
        }
    }

    /// Applies one instruction; a call may analyse its callee.
    fn analyze_instruction(&mut self, instr: &Instruction, fa: &mut FuncAnalysis, ctx: &GlobalContext, run: &mut RunState)
        requires
            old(self).wf(),
            old(fa).wf(ctx),
            old(run).wf(),
        ensures
            final(self).wf(),
            final(self).block == old(self).block,
            final(fa).wf(ctx),
            same_frame(*old(fa), *final(fa)),
            final(run).wf(),
            diagnosis_set(old(run).diagnoses@).subset_of(diagnosis_set(final(run).diagnoses@)),
            cache_extends(old(run).summary_cache@, final(run).summary_cache@),
            match *instr {
                Instruction::Call { function, arguments, dest } => call_site_effect(
                    ctx,
                    ctx.functions@[old(fa).function as int].demangled_name@,
                    function,
                    arguments@,
                    dest_of(dest),
                    old(self).current(),
                    final(self).current(),
                    diagnosis_set(old(run).diagnoses@),
                    diagnosis_set(final(run).diagnoses@),
                    final(run).summary_cache@,
                    old(run).summary_cache@,
                    old(fa).depth,
                ),
                _ => final(self).current() == transfer(old(self).current(), *instr) && *final(run) == *old(run),
            },
            *final(fa) == *old(fa),
        decreases MAX_DEPTH - old(fa).depth, 4nat,
    {
        match instr {
            Instruction::Load { address, dest } => self.flow(address, dest),
            Instruction::Store { address, value } => match local_name(address) {
                Some(a) => self.flow(value, a),
                None => {},
            },
            Instruction::BitCast { operand, dest } => self.flow(operand, dest),
            Instruction::Trunc { operand, dest } => self.flow(operand, dest),
            Instruction::ZExt { operand, dest } => self.flow(operand, dest),
            Instruction::SExt { operand, dest } => self.flow(operand, dest),
            Instruction::PtrToInt { operand, dest } => self.flow(operand, dest),
            Instruction::IntToPtr { operand, dest } => self.flow(operand, dest),
            Instruction::AddrSpaceCast { operand, dest } => self.flow(operand, dest),
            Instruction::GetElementPtr { address, dest } => self.flow(address, dest),
            Instruction::ExtractElement { vector, dest } => self.flow(vector, dest),
            Instruction::ExtractValue { aggregate, dest } => self.flow(aggregate, dest),
            Instruction::InsertElement { element, dest } => self.overwrite(element, dest),
            Instruction::InsertValue { element, dest } => self.overwrite(element, dest),
            Instruction::ShuffleVector { operand0, operand1, dest } => self.analyze_shufflevector(
                operand0,
                operand1,
                dest,
            ),
            Instruction::Phi { incoming_values, dest } => self.analyze_phi(incoming_values, dest),
            Instruction::Alloca { allocated_type, dest } => self.analyze_alloca(allocated_type, dest),
            Instruction::Call { function, arguments, dest } => self.analyze_call(
                function,
                arguments,
                dest,
                fa,
                ctx,
                run,
            ),
            Instruction::Arithmetic { .. } => {},
            Instruction::Other => {},
        }
    }

    /// Applies the block's terminator.
    fn analyze_terminator(&mut self, term: &Terminator, fa: &mut FuncAnalysis, ctx: &GlobalContext, run: &mut RunState)
        requires
            old(self).wf(),
            old(fa).wf(ctx),
            old(run).wf(),
        ensures
            final(self).wf(),
            final(self).block == old(self).block,
            final(fa).wf(ctx),
            same_frame(*old(fa), *final(fa)),
            final(run).wf(),
            diagnosis_set(old(run).diagnoses@).subset_of(diagnosis_set(final(run).diagnoses@)),
            cache_extends(old(run).summary_cache@, final(run).summary_cache@),
            !(*term is Invoke) ==> final(self).current() == old(self).current() && *final(run) == *old(run),
            term_effect(
                ctx,
                ctx.functions@[old(fa).function as int].demangled_name@,
                *term,
                old(self).current(),
                final(self).current(),
                diagnosis_set(old(run).diagnoses@),
                diagnosis_set(final(run).diagnoses@),
                final(run).summary_cache@,
                old(run).summary_cache@,
                old(fa).depth,
            ),
            final(fa).ret_state == ret_effect(*term, old(self).current(), old(fa).ret_state),
            final(fa).function == old(fa).function,
        decreases MAX_DEPTH - old(fa).depth, 4nat,
    {
        match term {
            Terminator::Invoke { function, arguments, result } => {
                let dest = Some(result.clone());
                self.analyze_call(function, arguments, &dest, fa, ctx, run);
            },
            Terminator::Ret { return_operand } => {
                match return_operand {
                    Some(op) => match local_name(op) {
                        Some(n) => {
                            let s = self.state.get_memory_state(n);
                            fa.ret_state = fa.ret_state.union(s);
                        },
                        None => {},
                    },
                    None => {},
                }
            },
            _ => {},
        }
    }

    /// A call or invoke: by symbol, through a function pointer, or neither.
    fn analyze_call(
        &mut self,
        callee: &Callee,
        arguments: &Vec<Operand>,
        dest: &Option<Name>,
        fa: &mut FuncAnalysis,
        ctx: &GlobalContext,
        run: &mut RunState,
    )
        requires
            old(self).wf(),
            old(fa).wf(ctx),
            old(run).wf(),
        ensures
            final(self).wf(),
            final(self).block == old(self).block,
            final(fa).wf(ctx),
            *final(fa) == *old(fa),
            final(run).wf(),
            diagnosis_set(old(run).diagnoses@).subset_of(diagnosis_set(final(run).diagnoses@)),
            cache_extends(old(run).summary_cache@, final(run).summary_cache@),
            call_site_effect(
                ctx,
                ctx.functions@[old(fa).function as int].demangled_name@,
                *callee,
                arguments@,
                dest_of(*dest),
                old(self).current(),
                final(self).current(),
                diagnosis_set(old(run).diagnoses@),
                diagnosis_set(final(run).diagnoses@),
                final(run).summary_cache@,
                old(run).summary_cache@,
                old(fa).depth,
            ),
        decreases MAX_DEPTH - old(fa).depth, 3nat,
    {
        match callee {
            Callee::Operand(Operand::ConstantOperand(Constant::GlobalReference { name, demangled })) => {
                self.analyze_function(name, demangled, arguments, dest, fa, ctx, run);
            },
            _ => {
                if calls_function_pointer(callee) {
                    self.report_arguments(arguments, false, fa, ctx, run);
                }
            },
        }
    }

    /// Records a diagnosis in the function being analysed.
    fn generate_diagnosis(&self, bug_info: BugInfo, seriousness: Seriousness, fa: &FuncAnalysis, ctx: &GlobalContext, run: &mut RunState)
        requires
            fa.wf(ctx),
            old(run).wf(),
        ensures
            final(run).wf(),
            final(run).summary_cache == old(run).summary_cache,
            diagnosis_set(final(run).diagnoses@) == diagnosis_set(old(run).diagnoses@).insert(
                crate::diagnosis::DiagnosisModel {
                    seriousness,
                    bug_info: bug_info@,
                    function_name: ctx.functions@[fa.function as int].demangled_name@,
                },
            ),
    {
        let d = Diagnosis {
            seriousness,
            bug_info,
            function_name: ctx.functions[fa.function].demangled_name.clone(),
        };
        run.add_diagnosis(d);
    }

    /// Reports each SSA-valued argument by its state: for a call through a
    /// function pointer, or to a foreign function whose code is missing.
    fn report_arguments(&self, arguments: &Vec<Operand>, foreign: bool, fa: &FuncAnalysis, ctx: &GlobalContext, run: &mut RunState)
        requires
            self.wf(),
            fa.wf(ctx),
            old(run).wf(),
        ensures
            final(run).wf(),
            final(run).summary_cache == old(run).summary_cache,
            diagnosis_set(final(run).diagnoses@) == diagnosis_set(old(run).diagnoses@).union(
                argument_diagnoses(ctx.functions@[fa.function as int].demangled_name@, foreign, self.current(), arguments@, arguments@.len() as int),
            ),
    {
        let ghost fname = ctx.functions@[fa.function as int].demangled_name@;
        let ghost m = self.current();
        let mut i: usize = 0;
        assert(argument_diagnoses(fname, foreign, m, arguments@, 0) =~= Set::<DiagnosisModel>::empty());
        assert(diagnosis_set(old(run).diagnoses@).union(Set::<DiagnosisModel>::empty()) =~= diagnosis_set(old(run).diagnoses@));
        while i < arguments.len()
            invariant
                self.wf(),
                fa.wf(ctx),
                run.wf(),
                m == self.current(),
                fname == ctx.functions@[fa.function as int].demangled_name@,
                run.summary_cache == old(run).summary_cache,
                diagnosis_set(run.diagnoses@) == diagnosis_set(old(run).diagnoses@).union(
                    argument_diagnoses(fname, foreign, m, arguments@, i as int),
                ),
                i <= arguments@.len(),
            decreases arguments@.len() - i,
        {
            let ghost before = diagnosis_set(run.diagnoses@);
            match local_name(&arguments[i]) {
                Some(n) => {
                    let s = self.state.get_memory_state(n);
                    let report = argument_report(foreign, s);
                    match report {
                        Some((bugs, sev, msg)) => {
                            let info = BugInfo::new(false, bugs, Some(String::from_str(msg)));
                            assert(Some(DiagnosisModel { seriousness: sev, bug_info: info@, function_name: fname }) == argument_diagnosis(fname, foreign, s));
                            self.generate_diagnosis(info, sev, fa, ctx, run);
                        },
                        None => {
                            assert(argument_diagnosis(fname, foreign, s) is None);
                        },
                    }
                },
                None => {},
            }
            proof {
                assert(argument_diagnoses(fname, foreign, m, arguments@, i + 1) =~= argument_diagnoses(fname, foreign, m, arguments@, i as int).union(
                    match (local_of(arguments@[i as int]), ) {
                        (Some(v), ) => match argument_diagnosis(fname, foreign, state_in(m, v)) {
                            Some(d) => Set::<DiagnosisModel>::empty().insert(d),
                            None => Set::<DiagnosisModel>::empty(),
                        },
                        _ => Set::<DiagnosisModel>::empty(),
                    },
                ));
                assert(diagnosis_set(run.diagnoses@) =~= diagnosis_set(old(run).diagnoses@).union(
                    argument_diagnoses(fname, foreign, m, arguments@, i + 1),
                ));
            }
            i = i + 1;
        }
    }

    /// Reports each SSA-valued argument left `Forgotten` or `Unknown` by a
    /// foreign function whose code was analysed.
    fn report_after_ffi(&self, arguments: &Vec<Operand>, fa: &FuncAnalysis, ctx: &GlobalContext, run: &mut RunState)
        requires
            self.wf(),
            fa.wf(ctx),
            old(run).wf(),
        ensures
            final(run).wf(),
            final(run).summary_cache == old(run).summary_cache,
            diagnosis_set(final(run).diagnoses@) == diagnosis_set(old(run).diagnoses@).union(
                after_ffi_diagnoses(ctx.functions@[fa.function as int].demangled_name@, self.current(), arguments@, arguments@.len() as int),
            ),
    {
        let ghost fname = ctx.functions@[fa.function as int].demangled_name@;
        let ghost m = self.current();
        let mut i: usize = 0;
        assert(after_ffi_diagnoses(fname, m, arguments@, 0) =~= Set::<DiagnosisModel>::empty());
        assert(diagnosis_set(old(run).diagnoses@).union(Set::<DiagnosisModel>::empty()) =~= diagnosis_set(old(run).diagnoses@));
        while i < arguments.len()
            invariant
                self.wf(),
                fa.wf(ctx),
                run.wf(),
                m == self.current(),
                fname == ctx.functions@[fa.function as int].demangled_name@,
                run.summary_cache == old(run).summary_cache,
                diagnosis_set(run.diagnoses@) == diagnosis_set(old(run).diagnoses@).union(
                    after_ffi_diagnoses(fname, m, arguments@, i as int),
                ),
                i <= arguments@.len(),
            decreases arguments@.len() - i,
        {
            match local_name(&arguments[i]) {
                Some(n) => {
                    let s = self.state.get_memory_state(n);
                    match after_ffi_report(s) {
                        Some(t) => {
                            let bugs = vec![BugType::MemoryLeakage];
                            assert(bugs@ == seq![BugType::MemoryLeakage]);
                            let info = BugInfo::new(true, bugs, Some(String::from_str(t)));
                            assert(info@.msg == Some(t@));
                            assert(info@.possible_bugs == seq![BugType::MemoryLeakage]);
                            assert(Some(DiagnosisModel { seriousness: Seriousness::Medium, bug_info: info@, function_name: fname }) == after_ffi_diagnosis(fname, s));
                            self.generate_diagnosis(info, Seriousness::Medium, fa, ctx, run);
                        },
                        None => {
                            assert(after_ffi_diagnosis(fname, s) is None);
                        },
                    }
                },
                None => {},
            }
            proof {
                assert(after_ffi_diagnoses(fname, m, arguments@, i + 1) =~= after_ffi_diagnoses(fname, m, arguments@, i as int).union(
                    match (local_of(arguments@[i as int]), ) {
                        (Some(v), ) => match after_ffi_diagnosis(fname, state_in(m, v)) {
                            Some(d) => Set::<DiagnosisModel>::empty().insert(d),
                            None => Set::<DiagnosisModel>::empty(),
                        },
                        _ => Set::<DiagnosisModel>::empty(),
                    },
                ));
                assert(diagnosis_set(run.diagnoses@) =~= diagnosis_set(old(run).diagnoses@).union(
                    after_ffi_diagnoses(fname, m, arguments@, i + 1),
                ));
            }
            i = i + 1;
        }
    }

    /// Whether some SSA-valued argument is at least tainted.
    fn any_tainted(&self, arguments: &Vec<Operand>) -> (r: bool)
        requires
            self.wf(),
        ensures
            r == some_tainted(self.current(), arguments@),
    {
        let mut i: usize = 0;
        while i < arguments.len()
            invariant
                self.wf(),
                i <= arguments@.len(),
                forall|k: int| 0 <= k < i ==> !(#[trigger] local_of(arguments@[k]) is Some && state_le(
                    MemoryState::Tainted,
                    state_in(self.current(), local_of(arguments@[k])->0),
                )),
            decreases arguments@.len() - i,
        {
            match local_name(&arguments[i]) {
                Some(n) => {
                    if self.state.is_tainted(n) {
                        assert(local_of(arguments@[i as int]) is Some);
                        return true;
                    }
                },
                None => {},
            }
            i = i + 1;
        }
        false
    }

    /// Raises `n` to `s` where its state lies strictly below `s`.
    fn escalate(&mut self, n: &Name, s: MemoryState)
        requires
            old(self).wf(),
        ensures
            final(self).wf(),
            final(self).block == old(self).block,
            final(self).current() == escalate(old(self).current(), n@, s),
    {
        if self.state.get_memory_state(n).is_lt(&s) {
            self.state.set_tainted(n, s);
        }
    }

    fn to_dest(&mut self, a: &Name, dest: &Option<Name>)
        requires
            old(self).wf(),
        ensures
            final(self).wf(),
            final(self).block == old(self).block,
            final(self).current() == to_dest(old(self).current(), a@, dest_of(*dest)),
    {
        match dest {
            Some(d) => self.state.propagate_taint(a, d),
            None => {},
        }
    }

    fn arg(arguments: &Vec<Operand>, i: usize) -> (r: Option<&Name>)
        ensures
            match r {
                Some(n) => arg_local(arguments@, i as int) == Some(n@),
                None => arg_local(arguments@, i as int) is None,
            },
    {
        if i < arguments.len() {
            local_name(&arguments[i])
        } else {
            None
        }
    }

    /// Applies the catalogued effect of a library call.
    fn handle_intrinsic(&mut self, intrinsic: Intrinsic, arguments: &Vec<Operand>, dest: &Option<Name>)
        requires
            old(self).wf(),
        ensures
            final(self).wf(),
            final(self).block == old(self).block,
            final(self).current() == intrinsic_shape(old(self).current(), intrinsic, arguments@, dest_of(*dest)),
    {
        match intrinsic {
            Intrinsic::Memcpy | Intrinsic::IntoVec | Intrinsic::VecPush => {
                match (Self::arg(arguments, 0), Self::arg(arguments, 1)) {
                    (Some(d), Some(s)) => self.state.propagate_taint(s, d),
                    _ => {},
                }
            },
            Intrinsic::Deref | Intrinsic::RcNew | Intrinsic::Unwrap => {
                match (Self::arg(arguments, 0), dest) {
                    (Some(a), Some(d)) => self.state.propagate_taint(a, d),
                    _ => {},
                }
            },
            Intrinsic::CStringIntoRaw | Intrinsic::Forget | Intrinsic::BoxIntoRaw => {
                match Self::arg(arguments, 0) {
                    Some(a) => {
                        self.escalate(a, MemoryState::Forgotten);
                        self.to_dest(a, dest);
                    },
                    None => {},
                }
            },
            Intrinsic::CStringAsCStr | Intrinsic::VecAsPtr => {
                match Self::arg(arguments, 0) {
                    Some(a) => {
                        self.escalate(a, MemoryState::Borrowed);
                        self.to_dest(a, dest);
                    },
                    None => {},
                }
            },
            Intrinsic::VecIntoRawParts => {
                match Self::arg(arguments, 1) {
                    Some(a) => self.escalate(a, MemoryState::Forgotten),
                    None => {},
                }
            },
            Intrinsic::VecFromRawParts => {
                match Self::arg(arguments, 0) {
                    Some(a) => {
                        if self.state.get_memory_state(a) == MemoryState::Forgotten {
                            self.state.set_tainted(a, MemoryState::Tainted);
                        }
                        self.to_dest(a, dest);
                    },
                    None => {},
                }
            },
        }
    }

    /// Handles a call by the class of its callee.
    fn analyze_function(
        &mut self,
        func_name: &String,
        demangled: &String,
        arguments: &Vec<Operand>,
        dest: &Option<Name>,
        fa: &mut FuncAnalysis,
        ctx: &GlobalContext,
        run: &mut RunState,
    )
        requires
            old(self).wf(),
            old(fa).wf(ctx),
            old(run).wf(),
        ensures
            final(self).wf(),
            final(self).block == old(self).block,
            final(fa).wf(ctx),
            *final(fa) == *old(fa),
            final(run).wf(),
            diagnosis_set(old(run).diagnoses@).subset_of(diagnosis_set(final(run).diagnoses@)),
            cache_extends(old(run).summary_cache@, final(run).summary_cache@),
            known_call_effect(
                ctx,
                ctx.functions@[old(fa).function as int].demangled_name@,
                func_name@,
                demangled@,
                arguments@,
                dest_of(*dest),
                old(self).current(),
                final(self).current(),
                diagnosis_set(old(run).diagnoses@),
                diagnosis_set(final(run).diagnoses@),
                final(run).summary_cache@,
                old(run).summary_cache@,
                old(fa).depth,
            ),
        decreases MAX_DEPTH - old(fa).depth, 2nat,
    {
        let t = ctx.known_names.get_type(demangled);
        let kind = match t {
            KnownNameType::Normal => if ctx.is_ffi_function(func_name.as_str()) {
                KnownNameType::FFISink
            } else {
                KnownNameType::Normal
            },
            _ => t,
        };
        match kind {
            KnownNameType::FFISink => {
                match ctx.find_function(func_name.as_str()) {
                    Some(_) => {
                        self.analyze_normal_function(func_name, arguments, dest, fa, ctx, run);
                        let ghost dm = diagnosis_set(run.diagnoses@);
                        self.report_after_ffi(arguments, fa, ctx, run);
                        assert(diagnosis_set(old(run).diagnoses@).subset_of(dm));
                    },
                    None => self.report_arguments(arguments, true, fa, ctx, run),
                }
            },
            KnownNameType::AllocSource => {
                match dest {
                    Some(d) => self.state.set_tainted(d, MemoryState::Tainted),
                    None => {},
                }
            },
            KnownNameType::FreeSink => {
                if self.any_tainted(arguments) {
                    let info = BugInfo::new(
                        true,
                        vec![BugType::UseAfterFree, BugType::DoubleFree],
                        Some(String::from_str("Taint source meets taint sink.")),
                    );
                    self.generate_diagnosis(info, Seriousness::High, fa, ctx, run);
                }
            },
            KnownNameType::Intrinsic(intrinsic) => self.handle_intrinsic(intrinsic, arguments, dest),
            KnownNameType::Normal => self.analyze_normal_function(func_name, arguments, dest, fa, ctx, run),
            KnownNameType::Ignore => {},
        }
    }

    /// Analyses a call to a function whose code is loaded, through its
    /// summary for the arguments' states, then applies the summary.
    #[verifier::rlimit(40)]
    fn analyze_normal_function(
        &mut self,
        func_name: &String,
        arguments: &Vec<Operand>,
        dest: &Option<Name>,
        fa: &mut FuncAnalysis,
        ctx: &GlobalContext,
        run: &mut RunState,
    )
        requires
            old(self).wf(),
            old(fa).wf(ctx),
            old(run).wf(),
        ensures
            final(self).wf(),
            final(self).block == old(self).block,
            final(fa).wf(ctx),
            *final(fa) == *old(fa),
            final(run).wf(),
            diagnosis_set(old(run).diagnoses@).subset_of(diagnosis_set(final(run).diagnoses@)),
            cache_extends(old(run).summary_cache@, final(run).summary_cache@),
            !is_loaded(ctx, func_name@) ==> final(self).current() == old(self).current() && *final(run) == *old(run),
            is_loaded(ctx, func_name@) ==> summary_effect(ctx, func_name@, arguments@, dest_of(*dest), old(self).current(), final(self).current(), final(run).summary_cache@),
            is_loaded(ctx, func_name@) && old(fa).depth + 1 < MAX_DEPTH
                && !old(run).summary_cache@.contains_key((func_name@, arg_states(old(self).current(), arguments@)))
                ==> final(run).summary_cache@.contains_key((func_name@, arg_states(old(self).current(), arguments@)))
                && computed_summary(
                    ctx,
                    ctx.function_named(func_name@),
                    arg_states(old(self).current(), arguments@),
                    final(run).summary_cache@[(func_name@, arg_states(old(self).current(), arguments@))].0,
                ),
        decreases MAX_DEPTH - old(fa).depth, 1nat,
    {
        let callee = match ctx.find_function(func_name.as_str()) {
            Some(i) => i,
            None => return,
        };
        let ghost m0 = self.current();
        let ghost args = arguments@;
        let mut init: Vec<Option<MemoryState>> = Vec::new();
        let mut i: usize = 0;
        while i < arguments.len()
            invariant
                self.wf(),
                self.current() == m0,
                args == arguments@,
                i <= arguments@.len(),
                init@ == arg_states(m0, args).take(i as int),
            decreases arguments@.len() - i,
        {
            match local_name(&arguments[i]) {
                Some(n) => init.push(Some(self.state.get_memory_state(n))),
                None => init.push(None),
            }
            assert(init@ =~= arg_states(m0, args).take(i + 1));
            i = i + 1;
        }
        assert(init@ =~= arg_states(m0, args));
        match self.get_function_summary(callee, init, fa, ctx, run) {
            Some((end_state, ret_state)) => {
                match dest {
                    Some(d) => self.state.set_tainted(d, ret_state),
                    None => {},
                }
                let ghost m1 = self.current();
                let params = &ctx.functions[callee].parameters;
                let mut k: usize = 0;
                while k < arguments.len() && k < params.len()
                    invariant
                        self.wf(),
                        self.block == old(self).block,
                        end_state.wf(),
                        args == arguments@,
                        params == &ctx.functions@[callee as int].parameters,
                        k <= arguments@.len(),
                        k <= params@.len(),
                        self.current() == write_back(m1, args, params@, end_state@, k as int),
                    decreases arguments@.len() - k,
                {
                    match local_name(&arguments[k]) {
                        Some(n) => {
                            let s = end_state.get_memory_state(&params[k]);
                            self.state.set_tainted(n, s);
                        },
                        None => {},
                    }
                    k = k + 1;
                }
            },
            None => {},
        }
    }

    /// The summary of function `callee` for the given argument states: the
    /// cached one, or one computed by a nested analysis one level deeper.
    #[verifier::rlimit(80)]
    fn get_function_summary(
        &self,
        callee: usize,
        init: Vec<Option<MemoryState>>,
        fa: &FuncAnalysis,
        ctx: &GlobalContext,
        run: &mut RunState,
    ) -> (r: Option<Summary>)
        requires
            fa.wf(ctx),
            callee < ctx.functions@.len(),
            callee as int == ctx.function_named(ctx.functions@[callee as int].name@),
            old(run).wf(),
        ensures
            final(run).wf(),
            diagnosis_set(old(run).diagnoses@).subset_of(diagnosis_set(final(run).diagnoses@)),
            cache_extends(old(run).summary_cache@, final(run).summary_cache@),
            r matches Some(s) ==> s.0.wf(),
            old(run).summary_cache@.contains_key((ctx.functions@[callee as int].name@, init@)) ==> (*final(run) == *old(run)
                && (r matches Some(s) && (s.0@, s.1) == old(run).summary_cache@[(ctx.functions@[callee as int].name@, init@)])),
            !old(run).summary_cache@.contains_key((ctx.functions@[callee as int].name@, init@)) ==> (r is Some <==> fa.depth + 1 < MAX_DEPTH),
            match r {
                Some(s) => final(run).summary_cache@.contains_key((ctx.functions@[callee as int].name@, init@))
                    && final(run).summary_cache@[(ctx.functions@[callee as int].name@, init@)] == (s.0@, s.1),
                None => !final(run).summary_cache@.contains_key((ctx.functions@[callee as int].name@, init@)),
            },
            !old(run).summary_cache@.contains_key((ctx.functions@[callee as int].name@, init@)) ==> (r matches Some(s)
                ==> computed_summary(ctx, callee as int, init@, s.0@)),
        decreases MAX_DEPTH - fa.depth, 0nat,
    {
        let key = (ctx.functions[callee].name.clone(), init);
        match run.summary_cache.get(&key) {
            Some(s) => return Some(s),
            None => {},
        }
        let mut init_state = BlockState::new();
        let params = &ctx.functions[callee].parameters;
        let mut i: usize = 0;
        while i < key.1.len() && i < params.len()
            invariant
                init_state.wf(),
                params == &ctx.functions@[callee as int].parameters,
                i <= key.1@.len(),
                i <= params@.len(),
                init_state@ == initial_shape(params@, key.1@, i as int),
            decreases key.1@.len() - i,
        {
            match key.1[i] {
                Some(s) => init_state.set_tainted(&params[i], s),
                None => {},
            }
            i = i + 1;
        }
        match FuncAnalysis::new_with_init(ctx, &key.0, &init_state, fa.depth + 1) {
            Some(mut sub) => {
                sub.iterate_to_fixpoint(ctx, run);
                let state = sub.get_state_after_call(ctx);
                let ret_state = sub.ret_state;
                run.summary_cache.insert(&key, (state.clone(), ret_state));
                proof {
                    let blocks = ctx.functions@[callee as int].basic_blocks@;
                    assert(sub.taint_domain@ == sub.taint_domain@);
                    assert(computed_summary_with(ctx, callee as int, key.1@, state@, sub.taint_domain@, sub.iteration));
                }
                Some((state, ret_state))
            },
            None => None,
        }
    }
}

} // verus!
