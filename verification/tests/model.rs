use ketch::config::parse_string;
use ketch::project::{render_standard, BuildScript, Project, ProjectType, Standard, Std};

fn build(text: &str) -> Result<Project, ketch::errors::Error> {
    Project::from_config(parse_string(text).unwrap())
}

#[test]
fn minimal_project_gets_defaults() {
    let p = build("(name hello)(version 0.1.0)").unwrap();
    assert_eq!(p.name, "hello");
    assert_eq!(p.version, "0.1.0");
    assert_eq!(p.compiler, "cc");
    assert_eq!(
        p.flags,
        vec![
            "-Wall".to_string(),
            "-Wextra".to_string(),
            "-Wwrite-strings".to_string(),
            "-Werror=discarded-qualifiers".to_string()
        ]
    );
    assert_eq!(p.ptype, ProjectType::Binary);
    assert_eq!(p.build_script, BuildScript::Absent);
    assert_eq!(render_standard(p.standard), "c99");
}

#[test]
fn missing_name_is_an_error() {
    let e = build("(version 0.1.0)").unwrap_err();
    assert_eq!(e.0, "Key `name` must be a single string.");
}

#[test]
fn two_identifiers_under_name_is_an_error() {
    let e = build("(name a b)(version 0.1.0)").unwrap_err();
    assert_eq!(e.0, "Key `name` must be a single string.");
}

#[test]
fn missing_version_is_an_error() {
    let e = build("(name a)").unwrap_err();
    assert_eq!(e.0, "Key `version` must be a single string.");
}

#[test]
fn gnu23_renders_as_gnu2x() {
    let p = build("(name a)(version 1)(standard gnu23)").unwrap();
    assert_eq!(render_standard(p.standard), "gnu2x");
    assert_eq!(
        p.standard,
        Standard {
            dialect: Std::C23,
            gnu_extensions: true
        }
    );
}

#[test]
fn c23_renders_as_c2x() {
    let p = build("(name a)(version 1)(standard c23)").unwrap();
    assert_eq!(render_standard(p.standard), "c2x");
}

#[test]
fn ansi_means_c89_without_extensions() {
    let p = build("(name a)(version 1)(standard ansi)").unwrap();
    assert_eq!(
        p.standard,
        Standard {
            dialect: Std::C89,
            gnu_extensions: false
        }
    );
    assert_eq!(render_standard(p.standard), "c89");
}

#[test]
fn every_valid_standard_token() {
    for (token, rendered) in [
        ("c89", "c89"),
        ("c99", "c99"),
        ("c11", "c11"),
        ("c17", "c17"),
        ("c23", "c2x"),
        ("gnu89", "gnu89"),
        ("gnu99", "gnu99"),
        ("gnu11", "gnu11"),
        ("gnu17", "gnu17"),
        ("gnu23", "gnu2x"),
    ] {
        let p = build(&format!("(name a)(version 1)(standard {})", token)).unwrap();
        assert_eq!(render_standard(p.standard), rendered);
    }
}

#[test]
fn invalid_standard_enumerates_the_valid_tokens() {
    let e = build("(name a)(version 1)(standard c2x)").unwrap_err();
    assert_eq!(
        e.0,
        "`c2x` is not a valid C standard. Valid standards are: ansi, c89, gnu89, c99, gnu99, c11, gnu11, c17, gnu17, c23, gnu23"
    );
}

#[test]
fn custom_compiler() {
    let p = build("(name a)(version 1)(cc clang)").unwrap();
    assert_eq!(p.compiler, "clang");
}

#[test]
fn flags_replace_the_defaults() {
    let p = build("(name a)(version 1)(flags -O2 -g)").unwrap();
    assert_eq!(p.flags, vec!["-O2".to_string(), "-g".to_string()]);
}

#[test]
fn empty_flags_list_means_no_flags() {
    let p = build("(name a)(version 1)(flags)").unwrap();
    assert_eq!(p.flags, Vec::<String>::new());
}

#[test]
fn nested_form_under_flags_is_an_error() {
    let e = build("(name a)(version 1)(flags -O2 (x y))").unwrap_err();
    assert_eq!(e.0, "Each flag must be an identifier.");
}

#[test]
fn project_types() {
    for (token, ptype) in [
        ("binary", ProjectType::Binary),
        ("shared", ProjectType::Shared),
        ("static", ProjectType::Static),
    ] {
        let p = build(&format!("(name a)(version 1)(type {})", token)).unwrap();
        assert_eq!(p.ptype, ptype);
    }
}

#[test]
fn invalid_project_type_enumerates_the_options() {
    let e = build("(name a)(version 1)(type dynamic)").unwrap_err();
    assert_eq!(
        e.0,
        "`dynamic` is not a valid project type. Available project types: binary, shared, static."
    );
}

#[test]
fn build_script_timings() {
    for (token, timing) in [
        ("before", BuildScript::Before),
        ("repeat", BuildScript::Repeat),
        ("after", BuildScript::After),
    ] {
        let p = build(&format!("(name a)(version 1)(buildscript {})", token)).unwrap();
        assert_eq!(p.build_script, timing);
    }
}

#[test]
fn invalid_build_script_timing_is_an_error() {
    let e = build("(name a)(version 1)(buildscript sometimes)").unwrap_err();
    assert_eq!(
        e.0,
        "`sometimes` is not a valid build script timing. Available timings: before, repeat, after."
    );
}

#[test]
fn duplicate_keys_are_shadowed() {
    let p = build("(name first)(version 1)(name second)").unwrap();
    assert_eq!(p.name, "first");
}

#[test]
fn diagnostic_rendering() {
    let p = build("(name hello)(version 0.1.0)(flags -O2)(standard gnu23)(type static)").unwrap();
    assert_eq!(
        p.render(),
        "CC       cc\nCFLAGS   -O2 -std=gnu2x\nTYPE     STATIC\nNAME     hello\nVERSION  0.1.0"
    );
}
