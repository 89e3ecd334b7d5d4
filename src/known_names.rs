use vstd::prelude::*;
use crate::text::{has_prefix, has_suffix, has_infix, starts_with, ends_with, contains, same_text};

verus! {

/// How a call to a function is handled.
#[derive(Clone, Copy, Debug, PartialEq, Eq, Structural)]
pub enum KnownNameType {
    /// Allocates host-managed memory.
    AllocSource,
    /// Frees memory.
    FreeSink,
    /// A declared foreign function.
    FFISink,
    /// Has no effect on the analysis, e.g. `llvm.dbg.declare`.
    Ignore,
    /// A library call whose effect is modelled directly.
    Intrinsic(Intrinsic),
    /// Analysed like any other function.
    Normal,
}

/// Library calls whose effect on their arguments is modelled directly.
#[derive(Clone, Copy, Debug, PartialEq, Eq, Structural)]
pub enum Intrinsic {
    Memcpy,
    IntoVec,
    Deref,
    RcNew,
    Unwrap,
    CStringIntoRaw,
    CStringAsCStr,
    Forget,
    VecIntoRawParts,
    VecAsPtr,
    VecFromRawParts,
    VecPush,
    BoxIntoRaw,
}

/// The catalogued effect of a demangled function name, if it has one.
pub open spec fn intrinsic_of(f: Seq<char>) -> Option<Intrinsic> {
    if has_prefix(f, "llvm.memcpy"@) {
        Some(Intrinsic::Memcpy)
    } else if has_suffix(f, "into_vec"@) {
        Some(Intrinsic::IntoVec)
    } else if has_suffix(f, "::deref_mut"@) || has_suffix(f, "::deref"@) {
        Some(Intrinsic::Deref)
    } else if f == "alloc::rc::Rc<T>::new"@ {
        Some(Intrinsic::RcNew)
    } else if f == "core::result::Result<T,E>::unwrap"@ {
        Some(Intrinsic::Unwrap)
    } else if f == "std::ffi::c_str::CString::into_raw"@ {
        Some(Intrinsic::CStringIntoRaw)
    } else if f == "std::ffi::c_str::CString::as_c_str"@ || f == "std::ffi::c_str::CString::as_bytes"@
        || f == "std::ffi::c_str::CString::as_bytes_with_nul"@ {
        Some(Intrinsic::CStringAsCStr)
    } else if f == "alloc::boxed::Box<T,A>::into_raw"@ {
        Some(Intrinsic::BoxIntoRaw)
    } else if f == "core::mem::forget"@ {
        Some(Intrinsic::Forget)
    } else if f == "alloc::vec::Vec<T,A>::into_raw_parts"@ || f
        == "alloc::vec::Vec<T,A>::into_raw_parts_with_alloc"@ {
        Some(Intrinsic::VecIntoRawParts)
    } else if f == "alloc::vec::Vec<T,A>::as_mut_ptr"@ || f == "alloc::vec::Vec<T,A>::as_ptr"@ || f
        == "alloc::vec::Vec<T,A>::as_mut_slice"@ || f == "alloc::vec::Vec<T,A>::as_slice"@ {
        Some(Intrinsic::VecAsPtr)
    } else if has_suffix(f, "from_raw_parts"@) || has_suffix(f, "from_raw_parts_mut"@) {
        Some(Intrinsic::VecFromRawParts)
    } else if f == "alloc::vec::Vec<T,A>::push"@ {
        Some(Intrinsic::VecPush)
    } else {
        None
    }
}

/// The configured names that classify functions.
pub struct KnownNames {
    alloc_sources: Vec<String>,
    free_sinks: Vec<String>,
    should_ignore: Vec<String>,
}

/// The texts of a list of strings.
pub open spec fn texts(v: Seq<String>) -> Seq<Seq<char>> {
    v.map_values(|s: String| s@)
}

/// Whether `f` is one of the texts of `v`.
fn listed(v: &Vec<String>, f: &str) -> (r: bool)
    ensures
        r == texts(v@).contains(f@),
{
    let mut i: usize = 0;
    while i < v.len()
        invariant
            i <= v@.len(),
            forall|k: int| 0 <= k < i ==> texts(v@)[k] != f@,
        decreases v@.len() - i,
    {
        if same_text(v[i].as_str(), f) {
            assert(texts(v@)[i as int] == f@);
            return true;
        }
        i = i + 1;
    }
    false
}

impl KnownNames {
    /// Demangled names of the host allocator's entry points.
    pub closed spec fn alloc_list(&self) -> Seq<Seq<char>> {
        texts(self.alloc_sources@)
    }

    /// Demangled names of deallocators.
    pub closed spec fn free_list(&self) -> Seq<Seq<char>> {
        texts(self.free_sinks@)
    }

    /// Substrings of names to skip.
    pub closed spec fn ignore_list(&self) -> Seq<Seq<char>> {
        texts(self.should_ignore@)
    }

    /// Whether the name contains one of the substrings to skip.
    pub open spec fn ignored(&self, f: Seq<char>) -> bool {
        exists|i: int| 0 <= i < self.ignore_list().len() && has_infix(f, #[trigger] self.ignore_list()[i])
    }

    /// How a demangled name is classified, before the list of foreign
    /// functions is consulted.
    pub open spec fn classify(&self, f: Seq<char>) -> KnownNameType {
        if self.alloc_list().contains(f) {
            KnownNameType::AllocSource
        } else if self.free_list().contains(f) {
            KnownNameType::FreeSink
        } else if self.ignored(f) {
            KnownNameType::Ignore
        } else if intrinsic_of(f) is Some {
            KnownNameType::Intrinsic(intrinsic_of(f)->0)
        } else {
            KnownNameType::Normal
        }
    }

    /// A catalogue with the given allocator entry points, deallocators and
    /// substrings to skip.
    pub fn new(alloc_sources: Vec<String>, free_sinks: Vec<String>, should_ignore: Vec<String>) -> (r: KnownNames)
        ensures
            r.alloc_list() == texts(alloc_sources@),
            r.free_list() == texts(free_sinks@),
            r.ignore_list() == texts(should_ignore@),
    {
        KnownNames { alloc_sources, free_sinks, should_ignore }
    }

    /// Classifies a demangled function name.
    pub fn get_type(&self, func_name: &String) -> (r: KnownNameType)
        ensures
            r == self.classify(func_name@),
    {
        if self.is_alloc_source(func_name) {
            KnownNameType::AllocSource
        } else if self.is_free_sink(func_name) {
            KnownNameType::FreeSink
        } else if self.should_ignore(func_name) {
            KnownNameType::Ignore
        } else {
            match self.get_intrinsic(func_name) {
                Some(intrinsic) => KnownNameType::Intrinsic(intrinsic),
                None => KnownNameType::Normal,
            }
        }
    }

    /// Whether the demangled name is a source of host allocations.
    pub fn is_alloc_source(&self, func_name: &String) -> (r: bool)
        ensures
            r == self.alloc_list().contains(func_name@),
    {
        listed(&self.alloc_sources, func_name.as_str())
    }

    /// Whether the demangled name is a deallocator.
    pub fn is_free_sink(&self, func_name: &String) -> (r: bool)
        ensures
            r == self.free_list().contains(func_name@),
    {
        listed(&self.free_sinks, func_name.as_str())
    }

    /// Whether the name contains one of the substrings to skip.
    pub fn should_ignore(&self, func_name: &String) -> (r: bool)
        ensures
            r == self.ignored(func_name@),
    {
        let mut i: usize = 0;
        while i < self.should_ignore.len()
            invariant
                i <= self.should_ignore@.len(),
                forall|k: int| 0 <= k < i ==> !has_infix(func_name@, #[trigger] self.ignore_list()[k]),
            decreases self.should_ignore@.len() - i,
        {
            if contains(func_name.as_str(), self.should_ignore[i].as_str()) {
                assert(has_infix(func_name@, self.ignore_list()[i as int]));
                return true;
            }
            i = i + 1;
        }
        false
    }

    /// The catalogued effect of the demangled name, if any.
    pub fn get_intrinsic(&self, func_name: &String) -> (r: Option<Intrinsic>)
        ensures
            r == intrinsic_of(func_name@),
    {
        let f = func_name.as_str();
        if starts_with(f, "llvm.memcpy") {
            Some(Intrinsic::Memcpy)
        } else if ends_with(f, "into_vec") {
            Some(Intrinsic::IntoVec)
        } else if ends_with(f, "::deref_mut") || ends_with(f, "::deref") {
            Some(Intrinsic::Deref)
        } else if same_text(f, "alloc::rc::Rc<T>::new") {
            Some(Intrinsic::RcNew)
        } else if same_text(f, "core::result::Result<T,E>::unwrap") {
            Some(Intrinsic::Unwrap)
        } else if same_text(f, "std::ffi::c_str::CString::into_raw") {
            Some(Intrinsic::CStringIntoRaw)
        } else if same_text(f, "std::ffi::c_str::CString::as_c_str") || same_text(
            f,
            "std::ffi::c_str::CString::as_bytes",
        ) || same_text(f, "std::ffi::c_str::CString::as_bytes_with_nul") {
            Some(Intrinsic::CStringAsCStr)
        } else if same_text(f, "alloc::boxed::Box<T,A>::into_raw") {
            Some(Intrinsic::BoxIntoRaw)
        } else if same_text(f, "core::mem::forget") {
            Some(Intrinsic::Forget)
        } else if same_text(f, "alloc::vec::Vec<T,A>::into_raw_parts") || same_text(
            f,
            "alloc::vec::Vec<T,A>::into_raw_parts_with_alloc",
        ) {
            Some(Intrinsic::VecIntoRawParts)
        } else if same_text(f, "alloc::vec::Vec<T,A>::as_mut_ptr") || same_text(
            f,
            "alloc::vec::Vec<T,A>::as_ptr",
        ) || same_text(f, "alloc::vec::Vec<T,A>::as_mut_slice") || same_text(
            f,
            "alloc::vec::Vec<T,A>::as_slice",
        ) {
            Some(Intrinsic::VecAsPtr)
        } else if ends_with(f, "from_raw_parts") || ends_with(f, "from_raw_parts_mut") {
            Some(Intrinsic::VecFromRawParts)
        } else if same_text(f, "alloc::vec::Vec<T,A>::push") {
            Some(Intrinsic::VecPush)
        } else {
            None
        }
    }
}

impl Default for KnownNames {
    fn default() -> (r: KnownNames)
        ensures
            r.alloc_list() == seq![
                "alloc::alloc::exchange_malloc"@,
                "__rust_alloc"@,
                "__rust_realloc"@,
                "__rust_alloc_zeroed"@,
                "<alloc::alloc::Global as core::alloc::AllocRef>::alloc"@,
            ],
            r.free_list() == seq!["free"@, "free_rbox_raw"@],
            r.ignore_list() == seq!["llvm.dbg"@, "__rust_dealloc"@, "lang_start_internal"@],
    {
        let alloc_sources = vec![
            String::from_str("alloc::alloc::exchange_malloc"),
            String::from_str("__rust_alloc"),
            String::from_str("__rust_realloc"),
            String::from_str("__rust_alloc_zeroed"),
            String::from_str("<alloc::alloc::Global as core::alloc::AllocRef>::alloc"),
        ];
        let free_sinks = vec![String::from_str("free"), String::from_str("free_rbox_raw")];
        let should_ignore = vec![
            String::from_str("llvm.dbg"),
            String::from_str("__rust_dealloc"),
            String::from_str("lang_start_internal"),
        ];
        let r = KnownNames { alloc_sources, free_sinks, should_ignore };
        assert(r.alloc_list() =~= seq![
            "alloc::alloc::exchange_malloc"@,
            "__rust_alloc"@,
            "__rust_realloc"@,
            "__rust_alloc_zeroed"@,
            "<alloc::alloc::Global as core::alloc::AllocRef>::alloc"@,
        ]);
        assert(r.free_list() =~= seq!["free"@, "free_rbox_raw"@]);
        assert(r.ignore_list() =~= seq!["llvm.dbg"@, "__rust_dealloc"@, "lang_start_internal"@]);
        r
    }
}

} // verus!
