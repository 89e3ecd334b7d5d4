use vstd::prelude::*;

verus! {

/// A kind of memory bug.
#[derive(Clone, Copy, Debug, PartialEq, Eq, Hash, Structural)]
pub enum BugType {
    UseAfterFree,
    DoubleFree,
    MemoryLeakage,
}

/// How serious a diagnosis is, from `Low` to `High`.
#[derive(Clone, Copy, Debug, PartialEq, Eq, Hash, Structural)]
pub enum Seriousness {
    Low,
    Medium,
    High,
}

/// The position of a severity in `Low < Medium < High`.
pub open spec fn rank(s: Seriousness) -> int {
    match s {
        Seriousness::Low => 0,
        Seriousness::Medium => 1,
        Seriousness::High => 2,
    }
}

impl Seriousness {
    /// Whether `self` is at least as serious as `other`.
    pub fn at_least(&self, other: &Seriousness) -> (r: bool)
        ensures
            r == (rank(*self) >= rank(*other)),
    {
        match (*self, *other) {
            (Seriousness::High, _) => true,
            (Seriousness::Medium, Seriousness::High) => false,
            (Seriousness::Medium, _) => true,
            (Seriousness::Low, Seriousness::Low) => true,
            (Seriousness::Low, _) => false,
        }
    }
}

/// What `partial_cmp` answers for two severities: they are totally ordered.
pub open spec fn rank_cmp(a: Seriousness, b: Seriousness) -> Option<core::cmp::Ordering> {
    if rank(a) < rank(b) {
        Some(core::cmp::Ordering::Less)
    } else if rank(a) == rank(b) {
        Some(core::cmp::Ordering::Equal)
    } else {
        Some(core::cmp::Ordering::Greater)
    }
}

impl PartialOrd for Seriousness {
    fn partial_cmp(&self, other: &Seriousness) -> (r: Option<core::cmp::Ordering>)
        ensures
            r == rank_cmp(*self, *other),
    {
        if *self == *other {
            Some(core::cmp::Ordering::Equal)
        } else if other.at_least(self) {
            Some(core::cmp::Ordering::Less)
        } else {
            Some(core::cmp::Ordering::Greater)
        }
    }
}

impl vstd::std_specs::cmp::PartialOrdSpecImpl for Seriousness {
    open spec fn obeys_partial_cmp_spec() -> bool {
        true
    }

    open spec fn partial_cmp_spec(&self, other: &Seriousness) -> Option<core::cmp::Ordering> {
        rank_cmp(*self, *other)
    }
}

/// What a diagnosis says: whether the foreign callee's code was analysed, the
/// bugs that may follow, and an explanation.
#[derive(Debug, Hash)]
pub struct BugInfo {
    ffi_known: bool,
    possible_bugs: Vec<BugType>,
    msg: Option<String>,
}

/// The value of a [`BugInfo`].
pub struct BugInfoModel {
    pub ffi_known: bool,
    pub possible_bugs: Seq<BugType>,
    pub msg: Option<Seq<char>>,
}

/// The text of an optional string.
pub open spec fn opt_text(m: Option<String>) -> Option<Seq<char>> {
    match m {
        Some(t) => Some(t@),
        None => None,
    }
}

impl View for BugInfo {
    type V = BugInfoModel;

    closed spec fn view(&self) -> BugInfoModel {
        BugInfoModel {
            ffi_known: self.ffi_known,
            possible_bugs: self.possible_bugs@,
            msg: opt_text(self.msg),
        }
    }
}

fn copy_bugs(v: &Vec<BugType>) -> (r: Vec<BugType>)
    ensures
        r@ == v@,
{
    let mut r: Vec<BugType> = Vec::new();
    let mut i: usize = 0;
    while i < v.len()
        invariant
            i <= v@.len(),
            r@ == v@.take(i as int),
        decreases v@.len() - i,
    {
        r.push(v[i]);
        assert(r@ =~= v@.take(i + 1));
        i = i + 1;
    }
    assert(r@ =~= v@);
    r
}

fn same_bugs(a: &Vec<BugType>, b: &Vec<BugType>) -> (r: bool)
    ensures
        r == (a@ == b@),
{
    if a.len() != b.len() {
        return false;
    }
    let mut i: usize = 0;
    while i < a.len()
        invariant
            a@.len() == b@.len(),
            i <= a@.len(),
            forall|k: int| 0 <= k < i ==> a@[k] == b@[k],
        decreases a@.len() - i,
    {
        if a[i] != b[i] {
            return false;
        }
        i = i + 1;
    }
    assert(a@ =~= b@);
    true
}

impl Clone for BugInfo {
    fn clone(&self) -> (r: BugInfo)
        ensures
            r@ == self@,
    {
        BugInfo {
            ffi_known: self.ffi_known,
            possible_bugs: copy_bugs(&self.possible_bugs),
            msg: match &self.msg {
                Some(m) => Some(m.clone()),
                None => None,
            },
        }
    }
}

impl PartialEq for BugInfo {
    fn eq(&self, other: &BugInfo) -> (r: bool)
        ensures
            r == (self@ == other@),
    {
        let msg_eq = match (&self.msg, &other.msg) {
            (Some(a), Some(b)) => *a == *b,
            (None, None) => true,
            _ => false,
        };
        self.ffi_known == other.ffi_known && same_bugs(&self.possible_bugs, &other.possible_bugs)
            && msg_eq
    }
}

impl vstd::std_specs::cmp::PartialEqSpecImpl for BugInfo {
    open spec fn obeys_eq_spec() -> bool {
        true
    }

    open spec fn eq_spec(&self, other: &BugInfo) -> bool {
        self@ == other@
    }
}

impl Eq for BugInfo {

}

impl BugInfo {
    pub fn new(ffi_known: bool, possible_bugs: Vec<BugType>, msg: Option<String>) -> (r: BugInfo)
        ensures
            r@ == (BugInfoModel { ffi_known, possible_bugs: possible_bugs@, msg: opt_text(msg) }),
    {
        BugInfo { ffi_known, possible_bugs, msg }
    }

    /// Whether the foreign callee's code was analysed.
    pub fn ffi_known(&self) -> (r: bool)
        ensures
            r == self@.ffi_known,
    {
        self.ffi_known
    }

    /// The bugs that may follow.
    pub fn possible_bugs(&self) -> (r: &Vec<BugType>)
        ensures
            r@ == self@.possible_bugs,
    {
        &self.possible_bugs
    }

    /// The explanation, if any.
    pub fn msg(&self) -> (r: &Option<String>)
        ensures
            opt_text(*r) == self@.msg,
    {
        &self.msg
    }
}

/// A possible bug found in a function.
#[derive(Debug, Hash)]
pub struct Diagnosis {
    pub seriousness: Seriousness,
    pub bug_info: BugInfo,
    pub function_name: String,
}

/// The value of a [`Diagnosis`].
pub struct DiagnosisModel {
    pub seriousness: Seriousness,
    pub bug_info: BugInfoModel,
    pub function_name: Seq<char>,
}

impl View for Diagnosis {
    type V = DiagnosisModel;

    open spec fn view(&self) -> DiagnosisModel {
        DiagnosisModel {
            seriousness: self.seriousness,
            bug_info: self.bug_info@,
            function_name: self.function_name@,
        }
    }
}

impl Clone for Diagnosis {
    fn clone(&self) -> (r: Diagnosis)
        ensures
            r@ == self@,
    {
        Diagnosis {
            seriousness: self.seriousness,
            bug_info: self.bug_info.clone(),
            function_name: self.function_name.clone(),
        }
    }
}

impl Diagnosis {
    /// Whether the two diagnoses say the same thing.
    pub fn same(&self, other: &Diagnosis) -> (r: bool)
        ensures
            r == (self@ == other@),
    {
        self.seriousness == other.seriousness && self.bug_info == other.bug_info
            && self.function_name == other.function_name
    }
}

impl PartialEq for Diagnosis {
    fn eq(&self, other: &Diagnosis) -> (r: bool)
        ensures
            r == (self@ == other@),
    {
        self.seriousness == other.seriousness && self.bug_info == other.bug_info
            && self.function_name == other.function_name
    }
}

impl vstd::std_specs::cmp::PartialEqSpecImpl for Diagnosis {
    open spec fn obeys_eq_spec() -> bool {
        true
    }

    open spec fn eq_spec(&self, other: &Diagnosis) -> bool {
        self@ == other@
    }
}

impl Eq for Diagnosis {

}

} // verus!
