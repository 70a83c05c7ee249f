//! The command line and what it asks for.
use crate::text::{Chars, chars_of, join2, join3, text_of};
use super::error::{Error, ErrorView};
use vstd::prelude::*;

verus! {

/// How far to compile.
#[derive(Clone, Copy, PartialEq, Eq, Structural, Debug)]
pub enum Emit {
    /// To the generated source, which is printed.
    Rust,
    /// To an executable, which is run.
    Exe,
}

/// The text of `--help`.
pub const USAGE: &'static str = "xiyi - 希夷语言编译器\n\n用法:\n  xiyi [选项] <FILE>\n\n选项:\n      --stdlib <PATH>   标准库根目录在此，不传则从可执行文件位置推断\n  -o, --output <PATH>   把构建出的可执行文件另存到这个路径\n      --release         用 release 模式构建（cargo build --release）\n      --emit <KIND>     编译到哪一步为止 [默认: exe]（可选: rust, exe）\n  -h, --help            打印本帮助\n  -V, --version         打印版本号\n\n  --                    之后一律作为位置参数（用于文件名以 - 开头的情况）\n";

/// Where the path of the standard library comes from.
#[derive(Clone, Copy, PartialEq, Eq, Structural, Debug)]
pub enum StdlibSource {
    /// The command line.
    Explicit,
    /// The place of the executable.
    Inferred,
    /// The working directory.
    Fallback,
}

/// What the command line asks for.
#[derive(Debug)]
pub enum Args {
    Compile(CompilerConfig),
    Help,
    Version,
}

/// All that a compilation goes by.
#[derive(Debug)]
pub struct CompilerConfig {
    pub filename: String,
    pub stdlib_path: String,
    pub stdlib_source: StdlibSource,
    pub output: Option<String>,
    pub release: bool,
    pub emit: Emit,
}

/// Which of its three uses the compiler is called for.
#[derive(Clone, Copy, PartialEq, Eq, Structural, Debug)]
pub enum RawAction {
    Compile,
    Help,
    Version,
}

/// The command line, sorted.
#[derive(Debug)]
pub struct RawArgs {
    pub action: RawAction,
    pub filename: Option<String>,
    pub stdlib: Option<String>,
    pub output: Option<String>,
    pub release: bool,
    pub emit: Emit,
    pub emit_was_set: bool,
}

/// A `RawArgs` as a mathematical value.
pub struct RawArgsView {
    pub action: RawAction,
    pub filename: Option<Chars>,
    pub stdlib: Option<Chars>,
    pub output: Option<Chars>,
    pub release: bool,
    pub emit: Emit,
    pub emit_was_set: bool,
}

/// A `CompilerConfig` as a mathematical value.
pub struct CompilerConfigView {
    pub filename: Chars,
    pub stdlib_path: Chars,
    pub stdlib_source: StdlibSource,
    pub output: Option<Chars>,
    pub release: bool,
    pub emit: Emit,
}

/// An `Args` as a mathematical value.
pub enum ArgsView {
    Compile(CompilerConfigView),
    Help,
    Version,
}

/// A text that may be missing.
pub open spec fn maybe_text(t: Option<String>) -> Option<Chars> {
    match t {
        Some(s) => Some(s@),
        None => None,
    }
}

/// The texts of a list.
pub open spec fn texts(list: Seq<String>) -> Seq<Chars> {
    Seq::new(list.len(), |i: int| list[i]@)
}

impl View for RawArgs {
    type V = RawArgsView;

    open spec fn view(&self) -> RawArgsView {
        RawArgsView {
            action: self.action,
            filename: maybe_text(self.filename),
            stdlib: maybe_text(self.stdlib),
            output: maybe_text(self.output),
            release: self.release,
            emit: self.emit,
            emit_was_set: self.emit_was_set,
        }
    }
}

impl View for CompilerConfig {
    type V = CompilerConfigView;

    open spec fn view(&self) -> CompilerConfigView {
        CompilerConfigView {
            filename: self.filename@,
            stdlib_path: self.stdlib_path@,
            stdlib_source: self.stdlib_source,
            output: maybe_text(self.output),
            release: self.release,
            emit: self.emit,
        }
    }
}

impl View for Args {
    type V = ArgsView;

    open spec fn view(&self) -> ArgsView {
        match *self {
            Args::Compile(config) => ArgsView::Compile(config@),
            Args::Help => ArgsView::Help,
            Args::Version => ArgsView::Version,
        }
    }
}

/// What a single argument is, before `--`.
pub enum ArgKindView {
    /// `--`: all that follows are files.
    Separator,
    Help,
    Version,
    Release,
    /// `--name=value` or `-o=value`.
    Joined(Chars, Chars),
    /// An option whose value is the next argument.
    Spaced,
    Unknown,
    File,
}

#[derive(Debug)]
enum ArgKind {
    Separator,
    Help,
    Version,
    Release,
    Joined(String, String),
    Spaced,
    Unknown,
    File,
}

impl View for ArgKind {
    type V = ArgKindView;

    closed spec fn view(&self) -> ArgKindView {
        match *self {
            ArgKind::Separator => ArgKindView::Separator,
            ArgKind::Help => ArgKindView::Help,
            ArgKind::Version => ArgKindView::Version,
            ArgKind::Release => ArgKindView::Release,
            ArgKind::Joined(name, value) => ArgKindView::Joined(name@, value@),
            ArgKind::Spaced => ArgKindView::Spaced,
            ArgKind::Unknown => ArgKindView::Unknown,
            ArgKind::File => ArgKindView::File,
        }
    }
}

/// Whether a text starts with another.
pub open spec fn starts_with(s: Chars, prefix: Chars) -> bool {
    s.len() >= prefix.len() && s.take(prefix.len() as int) == prefix
}

/// The first place of a character at `i` or after it, or the end.
pub open spec fn find_from(s: Chars, c: char, i: int) -> int
    decreases s.len() - i,
{
    if i >= s.len() || s[i] == c {
        i
    } else {
        find_from(s, c, i + 1)
    }
}

/// Whether an argument is an option that takes a value.
pub open spec fn takes_value(arg: Chars) -> bool {
    arg == "--stdlib"@ || arg == "-o"@ || arg == "--output"@ || arg == "--emit"@
}

/// What an argument is.
pub open spec fn arg_kind(arg: Chars) -> ArgKindView {
    let eq = find_from(arg, '=', 0);
    if arg == "--"@ {
        ArgKindView::Separator
    } else if arg == "-h"@ || arg == "--help"@ {
        ArgKindView::Help
    } else if arg == "-V"@ || arg == "--version"@ {
        ArgKindView::Version
    } else if arg == "--release"@ {
        ArgKindView::Release
    } else if eq < arg.len() && starts_with(arg, seq!['-', '-']) {
        ArgKindView::Joined(arg.take(eq), arg.skip(eq + 1))
    } else if starts_with(arg, seq!['-', 'o', '=']) {
        ArgKindView::Joined("-o"@, arg.skip(3))
    } else if takes_value(arg) {
        ArgKindView::Spaced
    } else if arg.len() > 1 && arg[0] == '-' {
        ArgKindView::Unknown
    } else {
        ArgKindView::File
    }
}

/// With the one file to compile.
pub open spec fn with_file(raw: RawArgsView, arg: Chars) -> Result<RawArgsView, ErrorView> {
    match raw.filename {
        Some(_) => Err(
            ErrorView::Usage("多余的位置参数: "@ + arg + "（只接受一个源文件）"@),
        ),
        None => Ok(RawArgsView { filename: Some(arg), ..raw }),
    }
}

/// The value of `--emit`.
pub open spec fn emit_of(value: Chars) -> Result<Emit, ErrorView> {
    if value == "rust"@ {
        Ok(Emit::Rust)
    } else if value == "exe"@ {
        Ok(Emit::Exe)
    } else {
        Err(ErrorView::Usage("未知的 --emit 取值: "@ + value + "（可选: rust, exe）"@))
    }
}

/// With an option that takes a value; each is given at most once.
pub open spec fn with_option(raw: RawArgsView, name: Chars, value: Chars) -> Result<
    RawArgsView,
    ErrorView,
> {
    if name == "--stdlib"@ {
        match raw.stdlib {
            Some(_) => Err(ErrorView::Usage("--stdlib 重复指定"@)),
            None => Ok(RawArgsView { stdlib: Some(value), ..raw }),
        }
    } else if name == "--output"@ || name == "-o"@ {
        match raw.output {
            Some(_) => Err(ErrorView::Usage("--output 重复指定"@)),
            None => Ok(RawArgsView { output: Some(value), ..raw }),
        }
    } else if name == "--emit"@ {
        if raw.emit_was_set {
            Err(ErrorView::Usage("--emit 重复指定"@))
        } else {
            match emit_of(value) {
                Err(e) => Err(e),
                Ok(emit) => Ok(RawArgsView { emit, emit_was_set: true, ..raw }),
            }
        }
    } else {
        Err(ErrorView::Usage("未知选项: "@ + name))
    }
}

/// What an empty command line asks for.
pub open spec fn no_args() -> RawArgsView {
    RawArgsView {
        action: RawAction::Compile,
        filename: None,
        stdlib: None,
        output: None,
        release: false,
        emit: Emit::Exe,
        emit_was_set: false,
    }
}

/// The arguments from the `i`-th on; `files_only` behind a `--`.
pub open spec fn args_from(args: Seq<Chars>, i: nat, raw: RawArgsView, files_only: bool) -> Result<
    RawArgsView,
    ErrorView,
>
    decreases args.len() - i,
{
    if i >= args.len() {
        Ok(raw)
    } else {
        let arg = args[i as int];
        if files_only {
            match with_file(raw, arg) {
                Err(e) => Err(e),
                Ok(raw1) => args_from(args, i + 1, raw1, true),
            }
        } else {
            match arg_kind(arg) {
                ArgKindView::Separator => args_from(args, i + 1, raw, true),
                ArgKindView::Help => Ok(RawArgsView { action: RawAction::Help, ..raw }),
                ArgKindView::Version => Ok(RawArgsView { action: RawAction::Version, ..raw }),
                ArgKindView::Release => args_from(
                    args,
                    i + 1,
                    RawArgsView { release: true, ..raw },
                    false,
                ),
                ArgKindView::Joined(name, value) => if value.len() == 0 {
                    Err(ErrorView::Usage(name + " 需要一个值"@))
                } else {
                    match with_option(raw, name, value) {
                        Err(e) => Err(e),
                        Ok(raw1) => args_from(args, i + 1, raw1, false),
                    }
                },
                ArgKindView::Spaced => if i + 1 >= args.len() {
                    Err(ErrorView::Usage(arg + " 需要一个值"@))
                } else {
                    match with_option(raw, arg, args[(i + 1) as int]) {
                        Err(e) => Err(e),
                        Ok(raw1) => args_from(args, i + 2, raw1, false),
                    }
                },
                ArgKindView::Unknown => Err(ErrorView::Usage("未知选项: "@ + arg)),
                ArgKindView::File => match with_file(raw, arg) {
                    Err(e) => Err(e),
                    Ok(raw1) => args_from(args, i + 1, raw1, false),
                },
            }
        }
    }
}

/// The whole command line, behind the program's own name.
pub open spec fn raw_args(args: Seq<Chars>) -> Result<RawArgsView, ErrorView> {
    args_from(args, 1, no_args(), false)
}

/// The configuration, given the paths where the standard library may be when the
/// command line gives none.
pub open spec fn resolved(
    raw: RawArgsView,
    inferred: Option<Chars>,
    fallback: Option<Chars>,
) -> Result<CompilerConfigView, ErrorView> {
    match raw.filename {
        None => Err(ErrorView::Usage("未指定输入文件"@)),
        Some(filename) => {
            let found = match (raw.stdlib, inferred, fallback) {
                (Some(p), _, _) => Some((p, StdlibSource::Explicit)),
                (None, Some(p), _) => Some((p, StdlibSource::Inferred)),
                (None, None, Some(p)) => Some((p, StdlibSource::Fallback)),
                (None, None, None) => None,
            };
            match found {
                None => Err(
                    ErrorView::Usage(
                        "未指定 --stdlib，且无法从可执行文件位置推断标准库目录；请显式传入 --stdlib <path>"@,
                    ),
                ),
                Some((stdlib_path, stdlib_source)) => Ok(
                    CompilerConfigView {
                        filename,
                        stdlib_path,
                        stdlib_source,
                        output: raw.output,
                        release: raw.release,
                        emit: raw.emit,
                    },
                ),
            }
        },
    }
}

/// What the command line asks for, given the paths where the standard library may
/// be when the command line gives none.
pub open spec fn asked(
    args: Seq<Chars>,
    inferred: Option<Chars>,
    fallback: Option<Chars>,
) -> Result<ArgsView, ErrorView> {
    match raw_args(args) {
        Err(e) => Err(e),
        Ok(raw) => match raw.action {
            RawAction::Help => Ok(ArgsView::Help),
            RawAction::Version => Ok(ArgsView::Version),
            RawAction::Compile => match resolved(raw, inferred, fallback) {
                Err(e) => Err(e),
                Ok(config) => Ok(ArgsView::Compile(config)),
            },
        },
    }
}

/// The first place of `=`, or the end.
fn find_equals(chars: &Vec<char>) -> (r: usize)
    ensures
        r == find_from(chars@, '=', 0),
        r <= chars.len(),
{
    let mut i: usize = 0;
    while i < chars.len() && chars[i] != '='
        invariant
            i <= chars.len(),
            find_from(chars@, '=', 0) == find_from(chars@, '=', i as int),
        decreases chars.len() - i,
    {
        i = i + 1;
    }
    i
}

/// What an argument is.
#[verifier::spinoff_prover]
fn kind_of(arg: &str) -> (r: ArgKind)
    ensures
        r@ == arg_kind(arg@),
{
    if arg.eq("--") {
        return ArgKind::Separator;
    }
    if arg.eq("-h") || arg.eq("--help") {
        return ArgKind::Help;
    }
    if arg.eq("-V") || arg.eq("--version") {
        return ArgKind::Version;
    }
    if arg.eq("--release") {
        return ArgKind::Release;
    }
    let chars = chars_of(arg);
    let n: usize = chars.len();
    let eq: usize = find_equals(&chars);
    let long: bool = n >= 2 && chars[0] == '-' && chars[1] == '-';
    assert(long == starts_with(arg@, seq!['-', '-'])) by {
        if n >= 2 {
            assert(arg@.take(2)[0] == arg@[0] && arg@.take(2)[1] == arg@[1]);
            if long {
                assert(arg@.take(2) =~= seq!['-', '-']);
            }
        }
    }
    if eq < n && long {
        let name = text_of(&chars, 0, eq);
        let value = text_of(&chars, eq + 1, n);
        assert(name@ =~= arg@.take(eq as int));
        assert(value@ =~= arg@.skip(eq + 1));
        return ArgKind::Joined(name, value);
    }
    let short: bool = n >= 3 && chars[0] == '-' && chars[1] == 'o' && chars[2] == '=';
    assert(short == starts_with(arg@, seq!['-', 'o', '='])) by {
        if n >= 3 {
            let t = arg@.take(3);
            assert(t[0] == arg@[0] && t[1] == arg@[1] && t[2] == arg@[2]);
            if short {
                assert(t =~= seq!['-', 'o', '=']);
            }
        }
    }
    if short {
        let value = text_of(&chars, 3, n);
        assert(value@ =~= arg@.skip(3));
        return ArgKind::Joined("-o".to_string(), value);
    }
    if arg.eq("--stdlib") || arg.eq("-o") || arg.eq("--output") || arg.eq("--emit") {
        return ArgKind::Spaced;
    }
    if n > 1 && chars[0] == '-' {
        return ArgKind::Unknown;
    }
    ArgKind::File
}

/// Takes the one file to compile.
fn push_filename(slot: &mut Option<String>, arg: &str) -> (r: Result<(), Error>)
    ensures
        match *old(slot) {
            Some(_) => r matches Err(e) && e@ == ErrorView::Usage(
                "多余的位置参数: "@ + arg@ + "（只接受一个源文件）"@,
            ) && *final(slot) == *old(slot),
            None => r is Ok && maybe_text(*final(slot)) == Some(arg@),
        },
{
    if slot.is_some() {
        return Err(
            Error::Usage(join3("多余的位置参数: ", arg, "（只接受一个源文件）")),
        );
    }
    *slot = Some(arg.to_string());
    Ok(())
}

/// Takes a value that may be given once.
pub fn set_once<T>(slot: &mut Option<T>, value: T, duplicate_msg: &str) -> (r: Result<(), Error>)
    ensures
        match *old(slot) {
            Some(_) => r matches Err(e) && e@ == ErrorView::Usage(duplicate_msg@) && *final(slot)
                == *old(slot),
            None => r is Ok && *final(slot) == Some(value),
        },
{
    if slot.is_some() {
        return Err(Error::Usage(duplicate_msg.to_string()));
    }
    *slot = Some(value);
    Ok(())
}

/// The value of `--emit`.
pub fn parse_emit(value: &str) -> (r: Result<Emit, Error>)
    ensures
        match r {
            Ok(e) => emit_of(value@) == Ok::<Emit, ErrorView>(e),
            Err(e) => emit_of(value@) == Err::<Emit, ErrorView>(e@),
        },
{
    if value.eq("rust") {
        Ok(Emit::Rust)
    } else if value.eq("exe") {
        Ok(Emit::Exe)
    } else {
        Err(Error::Usage(join3("未知的 --emit 取值: ", value, "（可选: rust, exe）")))
    }
}

impl RawArgs {
    /// What an empty command line asks for.
    pub fn new() -> (r: RawArgs)
        ensures
            r@ == no_args(),
    {
        RawArgs {
            action: RawAction::Compile,
            filename: None,
            stdlib: None,
            output: None,
            release: false,
            emit: Emit::Exe,
            emit_was_set: false,
        }
    }

    /// Takes an option that has a value.
    #[verifier::spinoff_prover]
    fn set_option(&mut self, name: &str, value: &str) -> (r: Result<(), Error>)
        ensures
            match r {
                Ok(_) => with_option(old(self)@, name@, value@) == Ok::<RawArgsView, ErrorView>(
                    final(self)@,
                ),
                Err(e) => with_option(old(self)@, name@, value@) == Err::<RawArgsView, ErrorView>(
                    e@,
                ),
            },
    {
        if name.eq("--stdlib") {
            return set_once(&mut self.stdlib, value.to_string(), "--stdlib 重复指定");
        }
        if name.eq("--output") || name.eq("-o") {
            return set_once(&mut self.output, value.to_string(), "--output 重复指定");
        }
        if name.eq("--emit") {
            if self.emit_was_set {
                return Err(Error::Usage("--emit 重复指定".to_string()));
            }
            return match parse_emit(value) {
                Err(e) => Err(e),
                Ok(emit) => {
                    self.emit = emit;
                    self.emit_was_set = true;
                    Ok(())
                },
            };
        }
        Err(Error::Usage(join2("未知选项: ", name)))
    }
}

/// Sorts the command line.
#[verifier::spinoff_prover]
#[verifier::rlimit(60)]
pub fn parse_raw(args: &[String]) -> (r: Result<RawArgs, Error>)
    ensures
        match r {
            Ok(raw) => raw_args(texts(args@)) == Ok::<RawArgsView, ErrorView>(raw@),
            Err(e) => raw_args(texts(args@)) == Err::<RawArgsView, ErrorView>(e@),
        },
{
    let ghost all = texts(args@);
    let mut raw = RawArgs::new();
    let mut positional_only: bool = false;
    let mut i: usize = 1;
    while i < args.len()
        invariant
            1 <= i,
            all == texts(args@),
            raw_args(all) == args_from(all, i as nat, raw@, positional_only),
        decreases args.len() - i,
    {
        let arg: &str = args[i].as_str();
        assert(all[i as int] == arg@);
        if positional_only {
            if let Err(e) = push_filename(&mut raw.filename, arg) {
                return Err(e);
            }
            i = i + 1;
            continue;
        }
        match kind_of(arg) {
            ArgKind::Separator => {
                positional_only = true;
                i = i + 1;
            },
            ArgKind::Help => {
                raw.action = RawAction::Help;
                return Ok(raw);
            },
            ArgKind::Version => {
                raw.action = RawAction::Version;
                return Ok(raw);
            },
            ArgKind::Release => {
                raw.release = true;
                i = i + 1;
            },
            ArgKind::Joined(name, value) => {
                proof {
                    reveal_strlit("");
                    assert(value@.len() == 0 ==> value@ =~= ""@);
                }
                if value.as_str().eq("") {
                    return Err(Error::Usage(join2(name.as_str(), " 需要一个值")));
                }
                if let Err(e) = raw.set_option(name.as_str(), value.as_str()) {
                    return Err(e);
                }
                i = i + 1;
            },
            ArgKind::Spaced => {
                if args.len() - i <= 1 {
                    return Err(Error::Usage(join2(arg, " 需要一个值")));
                }
                let value: &str = args[i + 1].as_str();
                assert(all[i + 1] == value@);
                if let Err(e) = raw.set_option(arg, value) {
                    return Err(e);
                }
                i = i + 2;
            },
            ArgKind::Unknown => {
                return Err(Error::Usage(join2("未知选项: ", arg)));
            },
            ArgKind::File => {
                if let Err(e) = push_filename(&mut raw.filename, arg) {
                    return Err(e);
                }
                i = i + 1;
            },
        }
    }
    Ok(raw)
}

impl Args {
    /// What the command line asks for. `inferred` is the standard library's path by
    /// the place of the executable, `fallback` the one in the working directory.
    pub fn from_args(
        args: &[String],
        inferred: Option<String>,
        fallback: Option<String>,
    ) -> (r: Result<Args, Error>)
        ensures
            match r {
                Ok(a) => asked(texts(args@), maybe_text(inferred), maybe_text(fallback)) == Ok::<
                    ArgsView,
                    ErrorView,
                >(a@),
                Err(e) => asked(texts(args@), maybe_text(inferred), maybe_text(fallback)) == Err::<
                    ArgsView,
                    ErrorView,
                >(e@),
            },
    {
        let raw = match parse_raw(args) {
            Err(e) => {
                return Err(e);
            },
            Ok(raw) => raw,
        };
        match raw.action {
            RawAction::Help => Ok(Args::Help),
            RawAction::Version => Ok(Args::Version),
            RawAction::Compile => match CompilerConfig::resolve(raw, inferred, fallback) {
                Err(e) => Err(e),
                Ok(config) => Ok(Args::Compile(config)),
            },
        }
    }
}

impl CompilerConfig {
    /// The configuration that a sorted command line gives.
    pub fn resolve(raw: RawArgs, inferred: Option<String>, fallback: Option<String>) -> (r: Result<
        CompilerConfig,
        Error,
    >)
        ensures
            match r {
                Ok(c) => resolved(raw@, maybe_text(inferred), maybe_text(fallback)) == Ok::<
                    CompilerConfigView,
                    ErrorView,
                >(c@),
                Err(e) => resolved(raw@, maybe_text(inferred), maybe_text(fallback)) == Err::<
                    CompilerConfigView,
                    ErrorView,
                >(e@),
            },
    {
        let filename: String = match raw.filename {
            None => {
                return Err(Error::Usage("未指定输入文件".to_string()));
            },
            Some(f) => f,
        };
        let (stdlib_path, stdlib_source): (String, StdlibSource) = match raw.stdlib {
            Some(p) => (p, StdlibSource::Explicit),
            None => match inferred {
                Some(p) => (p, StdlibSource::Inferred),
                None => match fallback {
                    Some(p) => (p, StdlibSource::Fallback),
                    None => {
                        return Err(
                            Error::Usage(
                                "未指定 --stdlib，且无法从可执行文件位置推断标准库目录；请显式传入 --stdlib <path>".to_string(),
                            ),
                        );
                    },
                },
            },
        };
        Ok(
            CompilerConfig {
                filename,
                stdlib_path,
                stdlib_source,
                output: raw.output,
                release: raw.release,
                emit: raw.emit,
            },
        )
    }

    /// What to tell the user of the standard library's path: nothing where the
    /// command line gives it.
    pub fn stdlib_notice(&self) -> (r: Option<String>)
        ensures
            maybe_text(r) == (match self.stdlib_source {
                StdlibSource::Explicit => None,
                StdlibSource::Inferred => Some(
                    "未指定 --stdlib，使用推断出的标准库路径: "@ + self.stdlib_path@,
                ),
                StdlibSource::Fallback => Some(
                    "未指定 --stdlib，推断失败，使用当前目录下的兜底标准库路径: "@ + self.stdlib_path@,
                ),
            }),
    {
        match self.stdlib_source {
            StdlibSource::Explicit => None,
            StdlibSource::Inferred => Some(
                join2(
                    "未指定 --stdlib，使用推断出的标准库路径: ",
                    self.stdlib_path.as_str(),
                ),
            ),
            StdlibSource::Fallback => Some(
                join2(
                    "未指定 --stdlib，推断失败，使用当前目录下的兜底标准库路径: ",
                    self.stdlib_path.as_str(),
                ),
            ),
        }
    }
}

/// Whether no argument behind the program's own name is `--`.
pub open spec fn without_separator(args: Seq<Chars>) -> bool {
    forall|k: int| 1 <= k < args.len() ==> #[trigger] args[k] != "--"@
}

/// Arguments that sort on their own are sorted alike before others: the rest is read
/// behind them, unless one of them ended the parse.
proof fn lemma_sorted_before(
    a: Seq<Chars>,
    rest: Seq<Chars>,
    i: nat,
    raw: RawArgsView,
    sorted: RawArgsView,
)
    requires
        1 <= i <= a.len(),
        without_separator(a),
        raw.action is Compile,
        args_from(a, i, raw, false) == Ok::<RawArgsView, ErrorView>(sorted),
    ensures
        args_from(a + rest, i, raw, false) == (if sorted.action is Compile {
            args_from(a + rest, a.len(), sorted, false)
        } else {
            Ok(sorted)
        }),
    decreases a.len() - i,
{
    let all = a + rest;
    if i < a.len() {
        let arg = a[i as int];
        assert(all[i as int] == arg);
        match arg_kind(arg) {
            ArgKindView::Separator => {},
            ArgKindView::Help => {},
            ArgKindView::Version => {},
            ArgKindView::Release => {
                lemma_sorted_before(a, rest, i + 1, RawArgsView { release: true, ..raw }, sorted);
            },
            ArgKindView::Joined(name, value) => {
                lemma_sorted_before(a, rest, i + 1, with_option(raw, name, value)->Ok_0, sorted);
            },
            ArgKindView::Spaced => {
                assert(all[i as int + 1] == a[i as int + 1]);
                lemma_sorted_before(a, rest, i + 2, with_option(raw, arg, a[i as int + 1])->Ok_0, sorted);
            },
            ArgKindView::Unknown => {},
            ArgKindView::File => {
                lemma_sorted_before(a, rest, i + 1, with_file(raw, arg)->Ok_0, sorted);
            },
        }
    }
}

/// What arguments come to does not depend on those before them, but for what has
/// been sorted by then.
proof fn lemma_sorted_behind(
    a: Seq<Chars>,
    b: Seq<Chars>,
    rest: Seq<Chars>,
    k: nat,
    raw: RawArgsView,
    files_only: bool,
)
    requires
        k <= rest.len(),
    ensures
        args_from(a + rest, a.len() + k, raw, files_only) == args_from(
            b + rest,
            b.len() + k,
            raw,
            files_only,
        ),
    decreases rest.len() - k,
{
    let x = a + rest;
    let y = b + rest;
    if k < rest.len() {
        let arg = rest[k as int];
        assert(x[a.len() as int + k] == arg && y[b.len() as int + k] == arg);
        if files_only {
            if let Ok(raw1) = with_file(raw, arg) {
                lemma_sorted_behind(a, b, rest, k + 1, raw1, true);
            }
        } else {
            match arg_kind(arg) {
                ArgKindView::Separator => {
                    lemma_sorted_behind(a, b, rest, k + 1, raw, true);
                },
                ArgKindView::Release => {
                    lemma_sorted_behind(
                        a,
                        b,
                        rest,
                        k + 1,
                        RawArgsView { release: true, ..raw },
                        false,
                    );
                },
                ArgKindView::Joined(name, value) => {
                    if let Ok(raw1) = with_option(raw, name, value) {
                        lemma_sorted_behind(a, b, rest, k + 1, raw1, false);
                    }
                },
                ArgKindView::Spaced => {
                    if k + 1 < rest.len() {
                        assert(x[a.len() as int + k + 1] == rest[k as int + 1]);
                        assert(y[b.len() as int + k + 1] == rest[k as int + 1]);
                        if let Ok(raw1) = with_option(raw, arg, rest[k as int + 1]) {
                            lemma_sorted_behind(a, b, rest, k + 2, raw1, false);
                        }
                    }
                },
                ArgKindView::File => {
                    if let Ok(raw1) = with_file(raw, arg) {
                        lemma_sorted_behind(a, b, rest, k + 1, raw1, false);
                    }
                },
                _ => {},
            }
        }
    }
}

/// A call for help that comes before `--` and before anything wrong is answered,
/// whatever the arguments behind it are; and so is one for the version.
pub proof fn help_ends_the_parse(
    before: Seq<Chars>,
    arg: Chars,
    behind: Seq<Chars>,
    inferred: Option<Chars>,
    fallback: Option<Chars>,
)
    requires
        before.len() > 0,
        without_separator(before),
        raw_args(before) matches Ok(raw) && raw.action is Compile,
    ensures
        arg == "-h"@ || arg == "--help"@ ==> asked(before.push(arg) + behind, inferred, fallback)
            == Ok::<ArgsView, ErrorView>(ArgsView::Help),
        arg == "-V"@ || arg == "--version"@ ==> asked(
            before.push(arg) + behind,
            inferred,
            fallback,
        ) == Ok::<ArgsView, ErrorView>(ArgsView::Version),
{
    let raw = raw_args(before)->Ok_0;
    let rest = seq![arg] + behind;
    assert(before.push(arg) + behind =~= before + rest);
    let all = before + rest;
    lemma_sorted_before(before, rest, 1, no_args(), raw);
    assert(all[before.len() as int] == arg);
    lemma_arg_kinds();
    if arg == "-h"@ || arg == "--help"@ {
        assert(args_from(all, before.len(), raw, false) == Ok::<RawArgsView, ErrorView>(
            RawArgsView { action: RawAction::Help, ..raw },
        ));
    }
    if arg == "-V"@ || arg == "--version"@ {
        assert(args_from(all, before.len(), raw, false) == Ok::<RawArgsView, ErrorView>(
            RawArgsView { action: RawAction::Version, ..raw },
        ));
    }
}

/// What the arguments are that are known by their whole text.
pub(super) proof fn lemma_arg_kinds()
    ensures
        arg_kind("-h"@) is Help,
        arg_kind("--help"@) is Help,
        arg_kind("-V"@) is Version,
        arg_kind("--version"@) is Version,
        forall|name: Chars| #[trigger] takes_value(name) ==> arg_kind(name) is Spaced,
{
    reveal_strlit("--");
    reveal_strlit("-h");
    reveal_strlit("--help");
    reveal_strlit("-V");
    reveal_strlit("--version");
    reveal_strlit("--release");
    reveal_strlit("--stdlib");
    reveal_strlit("-o");
    reveal_strlit("--output");
    reveal_strlit("--emit");
    assert("--"@[1] == '-' && "-h"@[1] == 'h' && "-V"@[1] == 'V' && "-o"@[1] == 'o');
    assert("--help"@[2] == 'h' && "--emit"@[2] == 'e');
    assert("--stdlib"@[2] == 's' && "--output"@[2] == 'o');
    assert("--version"@[2] == 'v' && "--release"@[2] == 'r');
    assert forall|name: Chars| #[trigger] takes_value(name) implies arg_kind(name) is Spaced by {
        lemma_option_has_no_equals(name);
        lemma_no_equals(name, 0);
        if starts_with(name, seq!['-', 'o', '=']) {
            assert(name.take(3)[2] == name[2]);
        }
    }
}

/// The name of an option holds no `=`.
proof fn lemma_option_has_no_equals(name: Chars)
    requires
        takes_value(name),
    ensures
        forall|k: int| 0 <= k < name.len() ==> #[trigger] name[k] != '=',
{
    reveal_strlit("--stdlib");
    reveal_strlit("-o");
    reveal_strlit("--output");
    reveal_strlit("--emit");
}

proof fn lemma_no_equals(s: Chars, i: int)
    requires
        0 <= i <= s.len(),
        forall|k: int| 0 <= k < s.len() ==> #[trigger] s[k] != '=',
    ensures
        find_from(s, '=', i) == s.len(),
    decreases s.len() - i,
{
    if i < s.len() {
        lemma_no_equals(s, i + 1);
    }
}

proof fn lemma_first_equals(s: Chars, n: int, i: int)
    requires
        0 <= i <= n < s.len(),
        s[n] == '=',
        forall|k: int| 0 <= k < n ==> #[trigger] s[k] != '=',
    ensures
        find_from(s, '=', i) == n,
    decreases n - i,
{
    if i < n {
        lemma_first_equals(s, n, i + 1);
    }
}

/// An option with its value behind `=`.
pub open spec fn joined_option(name: Chars, value: Chars) -> Chars {
    name + seq!['='] + value
}

pub(super) proof fn lemma_joined_kind(name: Chars, value: Chars)
    requires
        takes_value(name),
    ensures
        arg_kind(joined_option(name, value)) == ArgKindView::Joined(name, value),
{
    let arg = joined_option(name, value);
    let n = name.len() as int;
    lemma_option_has_no_equals(name);
    assert(arg[n] == '=');
    assert forall|k: int| 0 <= k < n implies #[trigger] arg[k] != '=' by {
        assert(arg[k] == name[k]);
    }
    lemma_first_equals(arg, n, 0);
    assert(arg.take(n) =~= name);
    assert(arg.skip(n + 1) =~= value);
    reveal_strlit("--");
    reveal_strlit("-h");
    reveal_strlit("--help");
    reveal_strlit("-V");
    reveal_strlit("--version");
    reveal_strlit("--release");
    reveal_strlit("--stdlib");
    reveal_strlit("-o");
    reveal_strlit("--output");
    reveal_strlit("--emit");
    assert(arg[0] == name[0] && arg[1] == name[1]);
    if name == "-o"@ {
        assert(arg.take(2)[1] == 'o');
        assert(seq!['-', '-'][1] == '-');
        assert(!starts_with(arg, seq!['-', '-']));
        assert(arg.take(3) =~= seq!['-', 'o', '=']);
        assert(arg.skip(3) =~= value);
    } else {
        assert(arg.take(2) =~= seq!['-', '-']);
    }
}

/// An option and its value mean the same as one argument with `=` between them and
/// as two arguments, wherever they stand before `--` and behind arguments with
/// nothing wrong.
pub proof fn joined_and_spaced_mean_the_same(
    before: Seq<Chars>,
    name: Chars,
    value: Chars,
    behind: Seq<Chars>,
)
    requires
        before.len() > 0,
        without_separator(before),
        raw_args(before) is Ok,
        takes_value(name),
        value.len() > 0,
    ensures
        raw_args(before.push(joined_option(name, value)) + behind) == raw_args(
            before.push(name).push(value) + behind,
        ),
{
    let raw = raw_args(before)->Ok_0;
    let one = joined_option(name, value);
    let x = before.push(one) + behind;
    let y = before.push(name).push(value) + behind;
    let n = before.len();
    assert(x =~= before + (seq![one] + behind));
    assert(y =~= before + (seq![name, value] + behind));
    lemma_sorted_before(before, seq![one] + behind, 1, no_args(), raw);
    lemma_sorted_before(before, seq![name, value] + behind, 1, no_args(), raw);
    lemma_joined_kind(name, value);
    lemma_arg_kinds();
    assert(x[n as int] == one);
    assert(y[n as int] == name && y[n as int + 1] == value);
    if let Ok(raw1) = with_option(raw, name, value) {
        lemma_sorted_behind(
            before.push(one),
            before.push(name).push(value),
            behind,
            0,
            raw1,
            false,
        );
    }
}

/// Behind a `--`, an argument is a file whatever it looks like.
pub proof fn behind_the_separator_is_a_file(before: Seq<Chars>, file: Chars)
    requires
        before.len() > 0,
        without_separator(before),
        raw_args(before) matches Ok(raw) && raw.action is Compile,
    ensures
        raw_args(before.push("--"@).push(file)) == with_file(raw_args(before)->Ok_0, file),
{
    let raw = raw_args(before)->Ok_0;
    let rest = seq!["--"@, file];
    let all = before + rest;
    let n = before.len();
    assert(before.push("--"@).push(file) =~= all);
    lemma_sorted_before(before, rest, 1, no_args(), raw);
    assert(all[n as int] == "--"@ && all[n as int + 1] == file);
    assert(args_from(all, n, raw, false) == args_from(all, n + 1, raw, true));
    if let Ok(raw1) = with_file(raw, file) {
        assert(args_from(all, n + 2, raw1, true) == Ok::<RawArgsView, ErrorView>(raw1));
    }
}

/// The path that the command line gives is taken before any other.
pub proof fn explicit_stdlib_is_taken(
    raw: RawArgsView,
    inferred: Option<Chars>,
    fallback: Option<Chars>,
)
    requires
        raw.filename is Some,
        raw.stdlib is Some,
    ensures
        resolved(raw, inferred, fallback) matches Ok(config) && config.stdlib_path
            == raw.stdlib->Some_0 && config.stdlib_source == StdlibSource::Explicit,
{
}

} // verus!
