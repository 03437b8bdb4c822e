use princess::demangle::{choose_demangled, demangle_name, group_key};

#[test]
fn plain_c_names_are_untouched() {
    assert_eq!(demangle_name("refkernel_fault_probe"), "refkernel_fault_probe");
    assert_eq!(demangle_name("main"), "main");
    assert_eq!(demangle_name(""), "");
    assert_eq!(demangle_name("_start"), "_start");
}

#[test]
fn rust_legacy_mangling_loses_only_the_hash() {
    let name = "_ZN4core3fmt9Formatter3pad17h0123456789abcdefE";
    let demangled = demangle_name(name);
    assert!(demangled.contains("core::fmt::Formatter::pad"), "got {demangled}");
    assert!(!demangled.contains("17h0123456789abcdef"), "the hash must be dropped: {demangled}");
}

#[test]
fn rust_v0_mangling_is_understood() {
    let name = "_RNvCsfJh2wXCkyFt_13princess_demo11generic_add";
    let demangled = demangle_name(name);
    assert_ne!(demangled, name, "v0 must demangle, got the input back");
    assert!(demangled.contains("generic_add"), "got {demangled}");
    assert!(demangled.contains("princess_demo"), "the module path must survive: {demangled}");
}

#[test]
fn a_malformed_v0_symbol_is_returned_verbatim_not_half_demangled() {
    let name = "_RINvCsfJh2wXCkyFt_13princess_demo11generic_add";
    assert_eq!(demangle_name(name), name);
}

#[test]
fn cpp_itanium_mangling_is_understood() {
    let demangled = demangle_name("_ZNK4Base1fEi");
    assert!(demangled.contains("Base::f"), "got {demangled}");
    assert!(demangled.contains("const"), "got {demangled}");

    let destructor = demangle_name("_ZN7DerivedD0Ev");
    assert!(destructor.contains("Derived::~Derived"), "got {destructor}");
}

#[test]
fn cpp_return_type_is_suppressed() {
    assert_eq!(demangle_name("_Z3fooi"), "foo(int)");
    let with_return = demangle_name("_Z3bari");
    assert_eq!(with_return, "bar(int)", "got {with_return}");
}

#[test]
fn group_key_folds_variants_but_demangle_keeps_them() {
    assert_eq!(group_key("foo.llvm.1234"), "foo");
    assert_eq!(group_key("foo.cold"), "foo");
    assert_eq!(group_key("foo.cold.1"), "foo");
    assert_eq!(group_key("foo"), "foo");
    assert_eq!(group_key("bar.cold.llvm.77"), "bar");
    assert!(demangle_name("_ZN7DerivedD2Ev").contains("~Derived"));
}

#[test]
fn the_dispatch_prefers_rust_then_itanium_then_the_name() {
    let some = |s: &str| Some(s.to_string());
    assert_eq!(choose_demangled("_ZN3fooE", some("rust"), some("cpp")), "rust");
    assert_eq!(choose_demangled("_ZN3fooE", None, some("cpp")), "cpp");
    assert_eq!(choose_demangled("_R3foo", None, some("cpp")), "_R3foo");
    assert_eq!(choose_demangled("__Z3foo", some("rust"), some("cpp")), "cpp");
    assert_eq!(choose_demangled("plain", some("rust"), some("cpp")), "plain");
    assert_eq!(choose_demangled("", some("rust"), some("cpp")), "");
}

#[test]
fn group_keys_are_clean_prefixes_that_fold_to_themselves() {
    for name in ["foo.llvm.1234", "foo.cold", "foo.cold.1", "foo", "a.cold.llvm.9", ".llvm.x", ""] {
        let key = group_key(name);
        assert!(name.starts_with(key));
        assert!(!key.contains(".llvm.") && !key.contains(".cold"));
        assert_eq!(group_key(key), key);
    }
    assert_eq!(group_key("foo.llvm.1234"), "foo");
    assert_eq!(group_key("foo.cold.1"), "foo");
}
