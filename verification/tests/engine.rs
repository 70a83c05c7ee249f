use xiyi_compiler::ast::{Item, Program};
use xiyi_compiler::engine::config::{
    parse_emit, parse_raw, Args, CompilerConfig, Emit, RawAction, StdlibSource, USAGE,
};
use xiyi_compiler::engine::drive::{
    after_build, after_print, after_run, after_search, cache_key, printed_source, profile,
    PrintFailure, CARGO_TOML,
};
use xiyi_compiler::engine::error::Error;
use xiyi_compiler::engine::modules::{collect_module_files, module_label};
use xiyi_compiler::engine::pipeline::{
    compile, load_stdlib, merge_with_conflict_check, parse_source, Compiler, Listing, Named,
    SourceFile,
};

fn args(list: &[&str]) -> Vec<String> {
    let mut all = vec!["xiyi".to_string()];
    all.extend(list.iter().map(|s| s.to_string()));
    all
}

fn config(list: &[&str]) -> CompilerConfig {
    match Args::from_args(&args(list), Some("/inferred".to_string()), None) {
        Ok(Args::Compile(c)) => c,
        other => panic!("{:?}", other),
    }
}

fn usage(list: &[&str]) -> String {
    match parse_raw(&args(list)) {
        Err(Error::Usage(m)) => m,
        other => panic!("{:?}", other),
    }
}

#[test]
fn options_in_both_forms() {
    let c = config(&["a.xiyi", "--stdlib", "/std", "-o", "out", "--emit", "rust", "--release"]);
    assert_eq!(c.filename, "a.xiyi");
    assert_eq!(c.stdlib_path, "/std");
    assert_eq!(c.stdlib_source, StdlibSource::Explicit);
    assert_eq!(c.output, Some("out".to_string()));
    assert_eq!(c.emit, Emit::Rust);
    assert!(c.release);
    let c = config(&["--stdlib=/std", "-o=x=y", "--emit=exe", "a.xiyi"]);
    assert_eq!(c.stdlib_path, "/std");
    assert_eq!(c.output, Some("x=y".to_string()));
    assert_eq!(c.emit, Emit::Exe);
    assert!(!c.release);
    assert_eq!(config(&["--output=z", "a"]).output, Some("z".to_string()));
}

#[test]
fn what_is_not_given_has_a_default() {
    let c = config(&["a.xiyi"]);
    assert_eq!(c.stdlib_path, "/inferred");
    assert_eq!(c.stdlib_source, StdlibSource::Inferred);
    assert_eq!(c.output, None);
    assert_eq!(c.emit, Emit::Exe);
    assert_eq!(
        c.stdlib_notice(),
        Some("未指定 --stdlib，使用推断出的标准库路径: /inferred".to_string())
    );
    match Args::from_args(&args(&["a"]), None, Some("/cwd/Standard".to_string())) {
        Ok(Args::Compile(c)) => {
            assert_eq!(c.stdlib_source, StdlibSource::Fallback);
            assert_eq!(
                c.stdlib_notice(),
                Some(
                    "未指定 --stdlib，推断失败，使用当前目录下的兜底标准库路径: /cwd/Standard"
                        .to_string()
                )
            );
        }
        other => panic!("{:?}", other),
    }
    assert_eq!(config(&["a", "--stdlib=/s"]).stdlib_notice(), None);
}

#[test]
fn help_and_version_come_first() {
    let none = || None::<String>;
    assert!(matches!(Args::from_args(&args(&["-h", "--nope"]), none(), none()), Ok(Args::Help)));
    assert!(matches!(Args::from_args(&args(&["--help"]), none(), none()), Ok(Args::Help)));
    assert!(matches!(Args::from_args(&args(&["-V"]), none(), none()), Ok(Args::Version)));
    assert!(matches!(Args::from_args(&args(&["a", "--version", "b"]), none(), none()), Ok(Args::Version)));
    assert!(USAGE.starts_with("xiyi - 希夷语言编译器\n\n用法:\n  xiyi [选项] <FILE>\n"));
}

#[test]
fn behind_the_separator_are_files() {
    assert_eq!(config(&["--", "-weird"]).filename, "-weird");
    assert_eq!(config(&["--", "--help"]).filename, "--help");
    assert_eq!(config(&["-"]).filename, "-");
}

#[test]
fn wrong_arguments_are_named() {
    assert_eq!(usage(&["--nope"]), "未知选项: --nope");
    assert_eq!(usage(&["-x"]), "未知选项: -x");
    assert_eq!(usage(&["--nope=1"]), "未知选项: --nope");
    assert_eq!(usage(&["-x=1"]), "未知选项: -x=1");
    assert_eq!(usage(&["--stdlib="]), "--stdlib 需要一个值");
    assert_eq!(usage(&["-o="]), "-o 需要一个值");
    assert_eq!(usage(&["a", "--emit"]), "--emit 需要一个值");
    assert_eq!(usage(&["a", "b"]), "多余的位置参数: b（只接受一个源文件）");
    assert_eq!(usage(&["--", "a", "b"]), "多余的位置参数: b（只接受一个源文件）");
    assert_eq!(usage(&["--emit=c"]), "未知的 --emit 取值: c（可选: rust, exe）");
}

#[test]
fn options_are_given_once() {
    assert_eq!(usage(&["--stdlib", "a", "--stdlib=b"]), "--stdlib 重复指定");
    assert_eq!(usage(&["-o", "a", "--output", "b"]), "--output 重复指定");
    assert_eq!(usage(&["--emit=rust", "--emit", "rust"]), "--emit 重复指定");
}

#[test]
fn a_file_and_a_library_are_needed() {
    let e = Args::from_args(&args(&[]), None, None).unwrap_err();
    assert_eq!(e.to_text(), "未指定输入文件");
    let e = Args::from_args(&args(&["a"]), None, None).unwrap_err();
    assert_eq!(
        e.to_text(),
        "未指定 --stdlib，且无法从可执行文件位置推断标准库目录；请显式传入 --stdlib <path>"
    );
    assert!(matches!(parse_emit("rust"), Ok(Emit::Rust)));
    assert_eq!(parse_raw(&args(&["-V"])).unwrap().action, RawAction::Version);
}

#[test]
fn errors_in_words_and_exit_codes() {
    let s = |t: &str| t.to_string();
    let all = vec![
        (Error::Usage(s("u")), "u", 1),
        (Error::Io { path: s("p"), source: s("no") }, "I/O error on p: no", 2),
        (Error::Parse { file: s("f"), message: s("m") }, "parse error in f: m", 2),
        (Error::Type(s("t")), "type error: t", 2),
        (Error::Elaborate(s("e")), "elaboration error: e", 2),
        (Error::Mir(s("m")), "MIR error: m", 2),
        (Error::Borrow(s("b")), "borrow error: b", 2),
        (
            Error::DuplicateDef { name: s("n"), first: s("a"), second: s("b") },
            "duplicate definition `n` in a and b",
            2,
        ),
        (Error::Build(s("b")), "build error: b", 3),
        (Error::Run(s("r")), "run error: r", 4),
    ];
    for (e, text, code) in all {
        assert_eq!(e.to_text(), text);
        assert_eq!(e.exit_code(), code);
    }
}

fn names(list: &[&str]) -> Vec<String> {
    list.iter().map(|s| s.to_string()).collect()
}

#[test]
fn modules_load_by_name_and_lib_last() {
    let found = collect_module_files(names(&[
        "vec.xiyi",
        "lib.xiyi",
        "readme.md",
        "option.xiyi",
        ".xiyi",
        "a.b.xiyi",
        "xiyi",
        "中.xiyi",
    ]));
    assert_eq!(found, names(&["a.b.xiyi", "option.xiyi", "vec.xiyi", "中.xiyi", "lib.xiyi"]));
    assert_eq!(collect_module_files(names(&["x.txt"])), names(&[]));
}

#[test]
fn modules_load_the_same_however_they_are_listed() {
    let a = collect_module_files(names(&["b.xiyi", "lib.xiyi", "a.xiyi", "ab.xiyi"]));
    let b = collect_module_files(names(&["ab.xiyi", "a.xiyi", "b.xiyi", "lib.xiyi"]));
    assert_eq!(a, b);
    assert_eq!(a, names(&["a.xiyi", "ab.xiyi", "b.xiyi", "lib.xiyi"]));
}

#[test]
fn labels_are_names_without_extension() {
    assert_eq!(module_label("vec.xiyi"), "vec");
    assert_eq!(module_label("a.b.xiyi"), "a.b");
    assert_eq!(module_label(".xiyi"), ".xiyi");
    assert_eq!(module_label("plain"), "plain");
    assert_eq!(module_label(".."), "<unknown>");
    assert_eq!(module_label(""), "<unknown>");
}

fn file(name: &str, content: &str) -> SourceFile {
    SourceFile {
        path: format!("/std/{}", name),
        name: name.to_string(),
        content: Ok(content.to_string()),
    }
}

fn items(source: &str) -> Vec<Item> {
    parse_source(source).unwrap().items
}

fn item_names(p: &Program) -> Vec<String> {
    p.items.iter().map(|i| i.name().unwrap().to_string()).collect()
}

#[test]
fn the_library_loads_in_order() {
    let list = Listing::Files(vec![file("a.xiyi", "fn f() {} fn g() {}"), file("b.xiyi", "fn h() {}")]);
    let found = load_stdlib("/std", list).unwrap();
    let all: Vec<&str> = found.iter().map(|i| i.name().unwrap()).collect();
    assert_eq!(all, vec!["f", "g", "h"]);
    assert_eq!(load_stdlib("/std", Listing::Files(vec![])).unwrap().len(), 0);
}

#[test]
fn the_library_defines_each_name_once() {
    let list = Listing::Files(vec![file("a.xiyi", "fn f() {}"), file("b.xiyi", "fn f() {}")]);
    assert_eq!(
        load_stdlib("/std", list).unwrap_err().to_text(),
        "duplicate definition `f` in a and b"
    );
    let list = Listing::Files(vec![file("a.xiyi", "fn f() {} fn f() {}")]);
    assert_eq!(
        load_stdlib("/std", list).unwrap_err().to_text(),
        "duplicate definition `f` in a and a"
    );
}

#[test]
fn a_library_that_cannot_be_read() {
    assert_eq!(
        load_stdlib("/std/src", Listing::Missing).unwrap_err().to_text(),
        "stdlib source directory not found: /std/src"
    );
    assert_eq!(
        load_stdlib("/std/src", Listing::Unreadable("denied".to_string())).unwrap_err().to_text(),
        "I/O error on /std/src: denied"
    );
    let gone = SourceFile {
        path: "/std/x.xiyi".to_string(),
        name: "x.xiyi".to_string(),
        content: Err("gone".to_string()),
    };
    assert_eq!(
        load_stdlib("/std", Listing::Files(vec![gone])).unwrap_err().to_text(),
        "I/O error on /std/x.xiyi: gone"
    );
    let broken = Listing::Files(vec![file("x.xiyi", "fn $")]);
    assert_eq!(
        load_stdlib("/std", broken).unwrap_err().to_text(),
        "parse error in x: unrecognized character '$' (U+0024) (line 1, column 4)"
    );
}

#[test]
fn the_user_may_not_take_a_library_name() {
    let p = merge_with_conflict_check(items("fn f() {}"), items("fn g() {}"), "m.xiyi").unwrap();
    assert_eq!(item_names(&p), vec!["f", "g"]);
    let e = merge_with_conflict_check(items("fn f() {}"), items("fn g() {} fn f() {}"), "m.xiyi");
    assert_eq!(
        e.unwrap_err().to_text(),
        "duplicate definition `f` in 标准库 and m.xiyi"
    );
    assert!(merge_with_conflict_check(vec![], items("fn g() {} fn g() {}"), "m").is_ok());
}

const SOURCE: &str = "fn main() -> i32 { let x: i32 = 10; x }";

fn parsed() -> Compiler {
    let mut c = Compiler::new();
    c.parse("m.xiyi", Ok(SOURCE.to_string()), "/std", Listing::Files(vec![])).unwrap();
    c
}

#[test]
fn stages_run_in_order() {
    let mut c = parsed();
    assert!(c.program().is_some());
    assert!(c.hir().is_none());
    c.type_check().unwrap();
    let hir = {
        let h = c.elaborate_input().unwrap();
        assert_eq!(h.fns.len(), 1);
        parsed_hir()
    };
    c.elaborate(Ok(hir)).unwrap();
    assert!(c.mir().is_none());
    c.lower().unwrap();
    assert_eq!(c.cleanup_input().unwrap().fns.len(), 1);
    c.cleanup(lowered_mir()).unwrap();
    assert!(c.borrow_check_input().is_ok());
    c.borrow_check(Ok(())).unwrap();
    assert!(c.optimize_input().is_ok());
    c.optimize(lowered_mir()).unwrap();
    assert_eq!(c.codegen_input().unwrap().fns.len(), 1);
    assert_eq!(c.codegen("code".to_string()).unwrap(), "code");
    assert_eq!(c.codegen("again".to_string()).unwrap(), "again");
}

fn parsed_hir() -> xiyi_compiler::hir::HirProgram {
    let p = parse_source(SOURCE).unwrap();
    xiyi_compiler::semantic::TypeChecker::new().check_program(&p).unwrap()
}

fn lowered_mir() -> xiyi_compiler::mir::MirProgram {
    xiyi_compiler::state::MirBuilder::build(&parsed_hir()).unwrap()
}

#[test]
fn stages_out_of_order_are_refused() {
    let mut c = Compiler::new();
    assert_eq!(
        c.type_check().unwrap_err().to_text(),
        "阶段顺序错误：无法执行 type_check；当前阶段为 empty，需要先完成 parsed （顺序：parse → type_check → elaborate → lower → cleanup → borrow_check → optimize → codegen）"
    );
    let mut c = parsed();
    assert!(c.elaborate_input().is_err());
    assert!(c.elaborate(Ok(parsed_hir())).is_err());
    assert!(c.lower().unwrap_err().to_text().contains("无法执行 lower；当前阶段为 parsed，需要先完成 elaborated"));
    assert!(c.cleanup(lowered_mir()).is_err());
    assert!(c.cleanup_input().is_err());
    assert!(c.borrow_check(Ok(())).is_err());
    assert!(c.borrow_check_input().is_err());
    assert!(c.optimize(lowered_mir()).is_err());
    assert!(c.optimize_input().is_err());
    assert!(c.codegen_input().is_err());
    assert!(c.codegen("code".to_string()).is_err());
    c.type_check().unwrap();
    assert!(c.type_check().is_err());
}

#[test]
fn a_stage_that_fails_changes_nothing() {
    let mut c = parsed();
    c.type_check().unwrap();
    assert_eq!(
        c.elaborate(Err("no".to_string())).unwrap_err().to_text(),
        "elaboration error: no"
    );
    assert!(c.hir().is_some());
    c.elaborate(Ok(parsed_hir())).unwrap();
    c.lower().unwrap();
    c.cleanup(lowered_mir()).unwrap();
    assert_eq!(c.borrow_check(Err("twice".to_string())).unwrap_err().to_text(), "borrow error: twice");
    c.borrow_check(Ok(())).unwrap();
    let e = c.parse("m", Err("gone".to_string()), "/std", Listing::Files(vec![])).unwrap_err();
    assert_eq!(e.to_text(), "I/O error on m: gone");
    assert!(c.mir().is_some());
    assert!(c.optimize(lowered_mir()).is_ok());
}

#[test]
fn a_new_source_starts_again() {
    let mut c = parsed();
    c.type_check().unwrap();
    c.elaborate(Ok(parsed_hir())).unwrap();
    c.lower().unwrap();
    c.parse("n.xiyi", Ok("fn other() {}".to_string()), "/std", Listing::Files(vec![])).unwrap();
    assert!(c.hir().is_none());
    assert!(c.mir().is_none());
    assert_eq!(item_names(c.program().unwrap()), vec!["other"]);
    assert!(c.type_check().is_ok());
}

/// Compiles a source with passes that fail or break the program where they are told.
fn compile_with(source: &str, failing: &str) -> Result<String, Error> {
    compile(
        "m.xiyi",
        Ok(source.to_string()),
        "/std",
        Listing::Files(vec![]),
        |mut hir| {
            if failing == "lower" {
                hir.fns[0].body.stmts = vec![xiyi_compiler::hir::HirStmt::Break];
            }
            if failing == "elaborate" { Err("no".to_string()) } else { Ok(hir) }
        },
        |mut mir| {
            mir.fns[0].name.push_str("_cleaned");
            mir
        },
        |mir| {
            assert_eq!(mir.fns[0].name, "main_cleaned");
            if failing == "borrow_check" { Err("twice".to_string()) } else { Ok(()) }
        },
        |mut mir| {
            mir.fns[0].name.push_str("_optimized");
            mir
        },
        |mir| format!("// {}", mir.fns[0].name),
    )
}

#[test]
fn a_compilation_runs_every_stage() {
    assert_eq!(compile_with(SOURCE, "").unwrap(), "// main_cleaned_optimized");
}

#[test]
fn a_library_of_methods_compiles() {
    let mut c = Compiler::new();
    let library = file(
        "point.xiyi",
        "struct Point { x: i32 } implement Point { fn get(&self) -> i32 { self.x } }",
    );
    let source = "fn main() -> i32 { let p = Point { x: 1 }; if p.get() < 2 { panic() } else { panic() } }";
    c.parse("m.xiyi", Ok(source.to_string()), "/std", Listing::Files(vec![library])).unwrap();
    c.type_check().unwrap();
    let hir = c.elaborate_input().unwrap().dup();
    c.elaborate(Ok(hir)).unwrap();
    c.lower().unwrap();
    let names: Vec<&str> = c.mir().unwrap().fns.iter().map(|f| f.name.as_str()).collect();
    assert_eq!(names, vec!["main", "get"]);
}

#[test]
fn the_first_error_is_passed_on() {
    let bad = "fn main() -> i32 { let x: bool = 10; x }";
    let text = |source: &str, failing: &str| compile_with(source, failing).unwrap_err().to_text();
    assert!(text("fn", "elaborate").starts_with("parse error in m.xiyi: "));
    assert_eq!(text(bad, "elaborate"), "type error: type mismatch in the definition of `x`");
    assert_eq!(text(SOURCE, "elaborate"), "elaboration error: no");
    assert!(text(SOURCE, "lower").starts_with("MIR error: internal error"));
    assert_eq!(text(SOURCE, "borrow_check"), "borrow error: twice");
}

#[test]
fn printed_source_ends_in_one_line_break() {
    assert_eq!(printed_source("fn main() {}"), "fn main() {}\n");
    assert_eq!(printed_source("fn main() {}\n"), "fn main() {}\n");
    assert_eq!(printed_source("a\n\n"), "a\n\n");
    assert_eq!(printed_source(""), "\n");
}

#[test]
fn the_cache_key_is_fixed() {
    let c = config(&["main.xiyi", "--stdlib=/std"]);
    assert_eq!(cache_key(&c), "174f753252f5b179");
    assert_ne!(cache_key(&config(&["other.xiyi", "--stdlib=/std"])), cache_key(&c));
    assert_ne!(cache_key(&config(&["main.xiyi", "--stdlib=/st"])), cache_key(&c));
    assert_eq!(cache_key(&config(&["main.xiyi", "--stdlib=/std", "--release"])), cache_key(&c));
    assert!(CARGO_TOML.starts_with("[package]\nname = \"xiyi_output\"\n"));
}

#[test]
fn what_the_build_and_the_run_come_to() {
    assert_eq!(profile(true), "release");
    assert_eq!(profile(false), "debug");
    assert!(matches!(after_print(Ok(())), Ok(0)));
    assert!(matches!(after_print(Err(PrintFailure::BrokenPipe)), Ok(0)));
    let e = after_print(Err(PrintFailure::Other("full".to_string()))).unwrap_err();
    assert_eq!(e.to_text(), "run error: failed to write stdout: full");
    assert!(after_build(Ok(true)).is_ok());
    assert_eq!(after_build(Ok(false)).unwrap_err().to_text(), "build error: cargo build failed");
    let e = after_build(Err("none".to_string())).unwrap_err();
    assert_eq!(e.to_text(), "build error: failed to run cargo: none");
    assert!(after_search(true, "/x").is_ok());
    assert_eq!(
        after_search(false, "/x").unwrap_err().to_text(),
        "build error: executable not found after build: /x"
    );
    assert!(matches!(after_run("/x", Ok(Some(7))), Ok(7)));
    assert!(matches!(after_run("/x", Ok(None)), Ok(1)));
    let e = after_run("/x", Err("none".to_string())).unwrap_err();
    assert_eq!(e.to_text(), "run error: failed to run /x: none");
}

fn sorted(list: &[&str]) -> String {
    format!("{:?}", parse_raw(&args(list)))
}

#[test]
fn an_equals_sign_or_a_blank_mean_the_same() {
    for name in ["--stdlib", "--output", "--emit", "-o"] {
        for value in ["rust", "/p", "--", "a=b"] {
            let joined = format!("{}={}", name, value);
            for behind in [vec![], vec!["b"], vec!["-o", "q"], vec!["--", "-x"]] {
                let mut one = vec!["a", "--release", joined.as_str()];
                one.extend(&behind);
                let mut two = vec!["a", "--release", name, value];
                two.extend(&behind);
                assert_eq!(sorted(&one), sorted(&two));
            }
        }
    }
}

#[test]
fn help_is_answered_wherever_it_stands() {
    let asked = |list: &[&str]| Args::from_args(&args(list), None, None);
    assert!(matches!(asked(&["a", "-o", "x", "--help", "--what"]), Ok(Args::Help)));
    assert!(matches!(asked(&["--release", "-V", "-h"]), Ok(Args::Version)));
    assert!(asked(&["--what", "--help"]).is_err());
    assert!(asked(&["a", "--", "--help"]).is_err());
    assert!(asked(&["-o", "--help"]).is_err());
}

#[test]
fn the_cache_key_is_made_of_digits() {
    for name in ["a", "b.xiyi", "中"] {
        let key = cache_key(&config(&[name]));
        assert_eq!(key.len(), 16);
        assert!(key.chars().all(|c| c.is_ascii_digit() || ('a'..='f').contains(&c)));
    }
}
