use vstd::prelude::*;
use crate::diagnosis::{Diagnosis, DiagnosisModel};
use crate::ir::Function;
use crate::known_names::KnownNames;
use crate::option::AnalysisOption;
use crate::summary::SummaryCache;
use crate::text::same_text;

verus! {

/// What every function analysis reads: the loaded functions, the options and
/// the catalogue of known names.
pub struct GlobalContext {
    /// The functions whose bitcode was loaded, looked up by symbol.
    pub functions: Vec<Function>,
    pub analysis_option: AnalysisOption,
    pub known_names: KnownNames,
}

/// What every function analysis adds to: the summaries computed so far and
/// the diagnoses found.
pub struct RunState {
    pub summary_cache: SummaryCache,
    /// Each diagnosis once.
    pub diagnoses: Vec<Diagnosis>,
}

/// The diagnoses of a run, as a set.
pub open spec fn diagnosis_set(d: Seq<Diagnosis>) -> Set<DiagnosisModel> {
    Set::new(|x: DiagnosisModel| exists|i: int| 0 <= i < d.len() && #[trigger] d[i]@ == x)
}

impl GlobalContext {
    /// A context over the given functions.
    pub fn new(options: AnalysisOption, functions: Vec<Function>, known_names: KnownNames) -> (r: GlobalContext)
        ensures
            r.functions == functions,
            r.analysis_option == options,
            r.known_names == known_names,
    {
        GlobalContext { functions, analysis_option: options, known_names }
    }

    /// The symbols of the declared foreign functions.
    pub open spec fn ffi_list(&self) -> Seq<Seq<char>> {
        self.analysis_option.ffi_functions@.map_values(|s: String| s@)
    }

    /// Whether the symbol is a declared foreign function.
    pub fn is_ffi_function(&self, func_name: &str) -> (r: bool)
        ensures
            r == self.ffi_list().contains(func_name@),
    {
        let v = &self.analysis_option.ffi_functions;
        let mut i: usize = 0;
        while i < v.len()
            invariant
                v == &self.analysis_option.ffi_functions,
                i <= v@.len(),
                forall|k: int| 0 <= k < i ==> self.ffi_list()[k] != func_name@,
            decreases v@.len() - i,
        {
            if same_text(v[i].as_str(), func_name) {
                assert(self.ffi_list()[i as int] == func_name@);
                return true;
            }
            i = i + 1;
        }
        false
    }

    /// The index of the first loaded function with symbol `f`.
    pub open spec fn function_named(&self, f: Seq<char>) -> int {
        choose|i: int| 0 <= i < self.functions@.len() && #[trigger] self.functions@[i].name@ == f && forall|j: int|
            0 <= j < i ==> #[trigger] self.functions@[j].name@ != f
    }

    /// The index of the function with symbol `func_name`, if it was loaded.
    pub fn find_function(&self, func_name: &str) -> (r: Option<usize>)
        ensures
            match r {
                Some(i) => i < self.functions@.len() && self.functions@[i as int].name@ == func_name@
                    && i as int == self.function_named(func_name@),
                None => forall|i: int| 0 <= i < self.functions@.len() ==> #[trigger] self.functions@[i].name@ != func_name@,
            },
    {
        let mut i: usize = 0;
        while i < self.functions.len()
            invariant
                i <= self.functions@.len(),
                forall|k: int| 0 <= k < i ==> #[trigger] self.functions@[k].name@ != func_name@,
            decreases self.functions@.len() - i,
        {
            if same_text(self.functions[i].name.as_str(), func_name) {
                let ghost c = self.function_named(func_name@);
                assert(c == i) by {
                    assert(0 <= i < self.functions@.len() && self.functions@[i as int].name@ == func_name@ && forall|j: int|
                        0 <= j < i ==> #[trigger] self.functions@[j].name@ != func_name@);
                    if c < i {
                        assert(self.functions@[c].name@ != func_name@);
                    } else if c > i {
                        assert(self.functions@[i as int].name@ != func_name@);
                    }
                }
                return Some(i);
            }
            i = i + 1;
        }
        None
    }
}

impl RunState {
    /// A run with nothing computed yet.
    pub fn new() -> (r: RunState)
        ensures
            r.wf(),
            r.diagnoses@.len() == 0,
    {
        RunState { summary_cache: SummaryCache::new(), diagnoses: Vec::new() }
    }

    /// The stored summaries are well formed.
    pub open spec fn wf(&self) -> bool {
        self.summary_cache.wf()
    }

    /// Records a diagnosis unless it is already there.
    pub fn add_diagnosis(&mut self, d: Diagnosis)
        requires
            old(self).wf(),
        ensures
            final(self).wf(),
            final(self).summary_cache == old(self).summary_cache,
            diagnosis_set(final(self).diagnoses@) == diagnosis_set(old(self).diagnoses@).insert(d@),
    {
        let ghost before = self.diagnoses@;
        let ghost dv = d@;
        let mut i: usize = 0;
        while i < self.diagnoses.len()
            invariant
                self.wf(),
                dv == d@,
                self.diagnoses@ == before,
                i <= before.len(),
                forall|k: int| 0 <= k < i ==> #[trigger] before[k]@ != dv,
            decreases before.len() - i,
        {
            if self.diagnoses[i].same(&d) {
                assert(diagnosis_set(before).insert(dv) =~= diagnosis_set(before)) by {
                    assert(diagnosis_set(before).contains(before[i as int]@));
                }
                return;
            }
            i = i + 1;
        }
        self.diagnoses.push(d);
        assert(diagnosis_set(self.diagnoses@) =~= diagnosis_set(before).insert(dv)) by {
            assert(self.diagnoses@[before.len() as int]@ == dv);
            assert forall|x: DiagnosisModel| diagnosis_set(self.diagnoses@).contains(x) implies diagnosis_set(before).insert(dv).contains(x) by {
                let k = choose|k: int| 0 <= k < self.diagnoses@.len() && #[trigger] self.diagnoses@[k]@ == x;
                if k < before.len() {
                    assert(before[k] == self.diagnoses@[k]);
                }
            }
            assert forall|x: DiagnosisModel| diagnosis_set(before).contains(x) implies diagnosis_set(self.diagnoses@).contains(x) by {
                let k = choose|k: int| 0 <= k < before.len() && #[trigger] before[k]@ == x;
                assert(self.diagnoses@[k] == before[k]);
            }
        }
    }
}

} // verus!
