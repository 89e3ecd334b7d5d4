use rust_ffi_checker::known_names::{Intrinsic, KnownNameType, KnownNames};
use rust_ffi_checker::option::{AnalysisOption, OptionError};
use rust_ffi_checker::diagnosis::{BugInfo, BugType, Seriousness};

fn s(x: &str) -> String {
    x.to_string()
}

#[test]
fn classification_follows_the_catalogue() {
    let k = KnownNames::default();
    assert_eq!(k.get_type(&s("__rust_alloc")), KnownNameType::AllocSource);
    assert_eq!(k.get_type(&s("free")), KnownNameType::FreeSink);
    assert_eq!(k.get_type(&s("llvm.dbg.declare")), KnownNameType::Ignore);
    assert_eq!(k.get_type(&s("std::rt::lang_start_internal")), KnownNameType::Ignore);
    assert_eq!(k.get_type(&s("llvm.memcpy.p0i8.p0i8.i64")), KnownNameType::Intrinsic(Intrinsic::Memcpy));
    assert_eq!(k.get_type(&s("alloc::slice::<impl [T]>::into_vec")), KnownNameType::Intrinsic(Intrinsic::IntoVec));
    assert_eq!(
        k.get_type(&s("<alloc::string::String as core::ops::deref::DerefMut>::deref_mut")),
        KnownNameType::Intrinsic(Intrinsic::Deref)
    );
    assert_eq!(k.get_type(&s("alloc::rc::Rc<T>::new")), KnownNameType::Intrinsic(Intrinsic::RcNew));
    assert_eq!(k.get_type(&s("core::result::Result<T,E>::unwrap")), KnownNameType::Intrinsic(Intrinsic::Unwrap));
    assert_eq!(
        k.get_type(&s("std::ffi::c_str::CString::into_raw")),
        KnownNameType::Intrinsic(Intrinsic::CStringIntoRaw)
    );
    assert_eq!(
        k.get_type(&s("std::ffi::c_str::CString::as_bytes_with_nul")),
        KnownNameType::Intrinsic(Intrinsic::CStringAsCStr)
    );
    assert_eq!(k.get_type(&s("alloc::boxed::Box<T,A>::into_raw")), KnownNameType::Intrinsic(Intrinsic::BoxIntoRaw));
    assert_eq!(k.get_type(&s("core::mem::forget")), KnownNameType::Intrinsic(Intrinsic::Forget));
    assert_eq!(
        k.get_type(&s("alloc::vec::Vec<T,A>::into_raw_parts")),
        KnownNameType::Intrinsic(Intrinsic::VecIntoRawParts)
    );
    assert_eq!(k.get_type(&s("alloc::vec::Vec<T,A>::as_slice")), KnownNameType::Intrinsic(Intrinsic::VecAsPtr));
    assert_eq!(
        k.get_type(&s("core::slice::raw::from_raw_parts_mut")),
        KnownNameType::Intrinsic(Intrinsic::VecFromRawParts)
    );
    assert_eq!(k.get_type(&s("alloc::vec::Vec<T,A>::push")), KnownNameType::Intrinsic(Intrinsic::VecPush));
    assert_eq!(k.get_type(&s("my_crate::work")), KnownNameType::Normal);
    assert_eq!(k.get_type(&s("")), KnownNameType::Normal);
}

#[test]
fn list_checks_are_exact() {
    let k = KnownNames::default();
    assert!(k.is_alloc_source(&s("alloc::alloc::exchange_malloc")));
    assert!(!k.is_alloc_source(&s("alloc::alloc::exchange_malloc2")));
    assert!(k.is_free_sink(&s("free_rbox_raw")));
    assert!(!k.is_free_sink(&s("c_free")));
    assert!(k.should_ignore(&s("x__rust_deallocy")));
    assert!(!k.should_ignore(&s("llvm.memcpy")));
    assert_eq!(k.get_intrinsic(&s("core::mem::forget2")), None);
    assert_eq!(k.get_intrinsic(&s("x::deref")), Some(Intrinsic::Deref));
}

#[test]
fn entry_file_lines() {
    let mut o = AnalysisOption::new();
    o.add_entry_line("Entry: main");
    o.add_entry_line("FFI: c_func");
    o.add_entry_line("Other: x");
    assert_eq!(o.entry_points, vec![s("main")]);
    assert_eq!(o.ffi_functions, vec![s("c_func")]);
}

#[test]
fn command_line_flags() {
    let args = vec![s("analyzer"), s("--entry"), s("run"), s("--bitcode"), s("a.bc"), s("--precision_filter"), s("mid")];
    let o = AnalysisOption::from_args(&args, AnalysisOption::new()).unwrap();
    assert_eq!(o.entry_points, vec![s("run")]);
    assert_eq!(o.bitcode_file_paths, vec![s("a.bc")]);
    assert_eq!(o.precision_threshold, Seriousness::Medium);
    let args = vec![s("--precision_filter"), s("bogus")];
    let o = AnalysisOption::from_args(&args, AnalysisOption::new()).unwrap();
    assert_eq!(o.precision_threshold, Seriousness::Low);
    let args = vec![s("--precision_filter"), s("high")];
    assert_eq!(AnalysisOption::from_args(&args, AnalysisOption::new()).unwrap().precision_threshold, Seriousness::High);
    match AnalysisOption::from_args(&vec![s("--entry")], AnalysisOption::new()) {
        Err(OptionError::MissingValue(f)) => assert_eq!(f, s("--entry")),
        Ok(_) => panic!("a flag without its value is an error"),
    }
}

#[test]
fn bug_info_keeps_its_fields() {
    let b = BugInfo::new(true, vec![BugType::DoubleFree], Some(s("m")));
    assert!(b.ffi_known());
    assert_eq!(b.possible_bugs(), &vec![BugType::DoubleFree]);
    assert_eq!(b.msg(), &Some(s("m")));
    assert!(Seriousness::High.at_least(&Seriousness::Medium));
    assert!(!Seriousness::Low.at_least(&Seriousness::Medium));
}

#[test]
fn severities_are_ordered() {
    assert!(Seriousness::Low < Seriousness::Medium);
    assert!(Seriousness::Medium < Seriousness::High);
    assert!(Seriousness::High >= Seriousness::High);
    assert!(!(Seriousness::High < Seriousness::Low));
}
