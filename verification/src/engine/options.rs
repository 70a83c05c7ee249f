//! What a command line says, read off the places of its arguments.
use crate::text::Chars;
use super::config::{
    arg_kind, ArgKindView, args_from, ArgsView, asked, Emit, joined_option, lemma_arg_kinds,
    lemma_joined_kind, no_args, raw_args, RawArgsView, resolved, starts_with, StdlibSource,
    takes_value, with_file, with_option,
};
use vstd::prelude::*;

verus! {

/// Whether an argument asks for a value behind it.
pub open spec fn wants_value(arg: Chars) -> bool {
    ||| arg == "--stdlib"@
    ||| arg == "--output"@
    ||| arg == "-o"@
    ||| arg == "--emit"@
}

/// Whether the `k`-th argument stands for itself: it is not the value of the one
/// before it.
pub open spec fn own(args: Seq<Chars>, k: int) -> bool
    decreases k,
{
    k >= 1 && (k == 1 || !(own(args, k - 1) && wants_value(args[k - 1])))
}

/// Whether a `--` stands among the first `n` arguments for itself.
pub open spec fn separated(args: Seq<Chars>, n: int) -> bool {
    exists|j: int| 1 <= j < n && j < args.len() && #[trigger] own(args, j) && args[j] == "--"@
}

/// Whether the `k`-th argument may be an option: it stands for itself, before `--`.
pub open spec fn plain(args: Seq<Chars>, k: int) -> bool {
    1 <= k < args.len() && own(args, k) && !separated(args, k)
}

/// Whether the `k`-th argument gives a value to an option, behind it or behind `=`.
pub open spec fn gives(args: Seq<Chars>, k: int, name: Chars, value: Chars) -> bool {
    plain(args, k) && ((args[k] == name && k + 1 < args.len() && args[k + 1] == value) || (
    args[k] == joined_option(name, value) && value.len() > 0))
}

/// Whether the `k`-th argument is a file: one that is no option before `--`, or any
/// behind it.
pub open spec fn names_file(args: Seq<Chars>, k: int, file: Chars) -> bool {
    &&& 1 <= k < args.len()
    &&& args[k] == file
    &&& separated(args, k) || (own(args, k) && (file.len() <= 1 || file[0] != '-'))
}

/// Whether one of the first `n` arguments is `--release`.
pub open spec fn says_release(args: Seq<Chars>, n: int) -> bool {
    exists|k: int| 1 <= k < n && #[trigger] plain(args, k) && args[k] == "--release"@
}

/// Whether one of the first `n` arguments gives a value to the option.
pub open spec fn says(args: Seq<Chars>, n: int, name: Chars, value: Chars) -> bool {
    exists|k: int| 1 <= k < n && #[trigger] gives(args, k, name, value)
}

/// Whether one of the first `n` arguments gives the output, by either name.
pub open spec fn says_output(args: Seq<Chars>, n: int, value: Chars) -> bool {
    says(args, n, "--output"@, value) || says(args, n, "-o"@, value)
}

/// Whether one of the first `n` arguments is the file.
pub open spec fn says_file(args: Seq<Chars>, n: int, file: Chars) -> bool {
    exists|k: int| 1 <= k < n && #[trigger] names_file(args, k, file)
}

/// That sorted arguments hold what the first `n` say, and nothing else.
pub open spec fn says_all(args: Seq<Chars>, n: int, raw: RawArgsView) -> bool {
    &&& raw.release <==> says_release(args, n)
    &&& forall|v: Chars|
        raw.output == Some(v) <==> #[trigger] says_output(args, n, v)
    &&& forall|v: Chars| raw.stdlib == Some(v) <==> #[trigger] says(args, n, "--stdlib"@, v)
    &&& raw.emit == Emit::Rust <==> says(args, n, "--emit"@, "rust"@)
    &&& raw.emit_was_set <==> says(args, n, "--emit"@, "rust"@) || says(
        args,
        n,
        "--emit"@,
        "exe"@,
    )
    &&& forall|f: Chars| raw.filename == Some(f) <==> #[trigger] says_file(args, n, f)
}

/// What a text can be, at most one of these.
proof fn lemma_options_differ()
    ensures
        forall|a: Chars| #[trigger] wants_value(a) == takes_value(a),
        !wants_value("--"@),
        !wants_value("--release"@),
        arg_kind("--"@) is Separator,
        arg_kind("--release"@) is Release,
        "--"@ != "--release"@,
        "--output"@ != "-o"@,
        "--output"@ != "--stdlib"@,
        "--output"@ != "--emit"@,
        "--stdlib"@ != "-o"@,
        "--stdlib"@ != "--emit"@,
        "-o"@ != "--emit"@,
        "rust"@ != "exe"@,
        "rust"@.len() > 0,
        "exe"@.len() > 0,
{
    reveal_strlit("--");
    reveal_strlit("-h");
    reveal_strlit("--help");
    reveal_strlit("-V");
    reveal_strlit("--version");
    reveal_strlit("--release");
    reveal_strlit("--stdlib");
    reveal_strlit("-o");
    reveal_strlit("--output");
    reveal_strlit("--emit");
    reveal_strlit("rust");
    reveal_strlit("exe");
    assert("--release"@[2] == 'r' && "--emit"@[2] == 'e');
    assert("--stdlib"@[2] == 's' && "--output"@[2] == 'o');
    assert("--version"@[2] == 'v');
    assert("-o"@[1] == 'o' && "--"@[1] == '-');
    assert("--output"@[1] == '-' && "--stdlib"@[1] == '-' && "--emit"@[1] == '-');
}

proof fn lemma_find(s: Chars, i: int)
    requires
        0 <= i <= s.len(),
    ensures
        i <= super::config::find_from(s, '=', i) <= s.len(),
        super::config::find_from(s, '=', i) < s.len() ==> s[super::config::find_from(s, '=', i)] == '=',
    decreases s.len() - i,
{
    if i < s.len() && s[i] != '=' {
        lemma_find(s, i + 1);
    }
}

/// What each kind of argument looks like.
#[verifier::spinoff_prover]
proof fn lemma_kind_shows(arg: Chars)
    ensures
        match arg_kind(arg) {
            ArgKindView::Separator => arg == "--"@,
            ArgKindView::Help => true,
            ArgKindView::Version => true,
            ArgKindView::Release => arg == "--release"@,
            ArgKindView::Joined(name, value) => arg == joined_option(name, value),
            ArgKindView::Spaced => wants_value(arg),
            ArgKindView::Unknown => arg.len() > 1 && arg[0] == '-',
            ArgKindView::File => arg.len() <= 1 || arg[0] != '-',
        },
        !(arg_kind(arg) is File) ==> arg.len() > 1 && arg[0] == '-',
        forall|name: Chars, value: Chars|
            wants_value(name) && arg == #[trigger] joined_option(name, value) ==> arg_kind(arg)
                == ArgKindView::Joined(name, value),
        wants_value(arg) ==> arg_kind(arg) is Spaced,
        arg == "--"@ ==> arg_kind(arg) is Separator,
        arg == "--release"@ ==> arg_kind(arg) is Release,
{
    lemma_options_differ();
    lemma_arg_kinds();
    assert forall|name: Chars, value: Chars|
        wants_value(name) && arg == #[trigger] joined_option(name, value) implies arg_kind(arg)
        == ArgKindView::Joined(name, value) by {
        lemma_joined_kind(name, value);
    }
    assert(wants_value(arg) == takes_value(arg));
    reveal_strlit("--");
    reveal_strlit("-h");
    reveal_strlit("--help");
    reveal_strlit("-V");
    reveal_strlit("--version");
    reveal_strlit("--release");
    reveal_strlit("--stdlib");
    reveal_strlit("-o");
    reveal_strlit("--output");
    reveal_strlit("--emit");
    lemma_find(arg, 0);
    let eq = super::config::find_from(arg, '=', 0);
    let two = seq!['-', '-'];
    let three = seq!['-', 'o', '='];
    if starts_with(arg, two) {
        assert(arg.take(2)[0] == arg[0]);
        assert(two[0] == '-');
    }
    if starts_with(arg, three) {
        assert(arg.take(3)[0] == arg[0]);
        assert(three[0] == '-');
        assert("-o"@ + seq!['='] =~= three);
        assert(arg =~= joined_option("-o"@, arg.skip(3)));
    }
    if eq < arg.len() {
        assert(arg =~= joined_option(arg.take(eq), arg.skip(eq + 1)));
    }
}

/// The argument at `i` adds what it says to what those before it say.
#[verifier::spinoff_prover]
#[verifier::rlimit(60)]
proof fn lemma_step(args: Seq<Chars>, i: int, raw: RawArgsView)
    requires
        1 <= i < args.len(),
        own(args, i),
        !separated(args, i),
        says_all(args, i, raw),
    ensures
        match arg_kind(args[i]) {
            ArgKindView::Separator => says_all(args, i + 1, raw) && separated(args, i + 1),
            ArgKindView::Release => says_all(
                args,
                i + 1,
                RawArgsView { release: true, ..raw },
            ) && own(args, i + 1) && !separated(args, i + 1),
            ArgKindView::Joined(name, value) => value.len() > 0 ==> match with_option(
                raw,
                name,
                value,
            ) {
                Ok(raw1) => says_all(args, i + 1, raw1) && own(args, i + 1) && !separated(
                    args,
                    i + 1,
                ),
                Err(_) => true,
            },
            ArgKindView::Spaced => i + 1 < args.len() ==> match with_option(
                raw,
                args[i],
                args[i + 1],
            ) {
                Ok(raw1) => says_all(args, i + 2, raw1) && own(args, i + 2) && !separated(
                    args,
                    i + 2,
                ),
                Err(_) => true,
            },
            ArgKindView::File => match with_file(raw, args[i]) {
                Ok(raw1) => says_all(args, i + 1, raw1) && own(args, i + 1) && !separated(
                    args,
                    i + 1,
                ),
                Err(_) => true,
            },
            _ => true,
        },
{
    let arg = args[i];
    lemma_options_differ();
    lemma_kind_shows(arg);
    assert(plain(args, i));
    assert(own(args, i + 1) == !wants_value(arg));
    assert(own(args, i + 2) == !(own(args, i + 1) && wants_value(args[i + 1])));
    let n = match arg_kind(arg) {
        ArgKindView::Spaced => i + 2,
        _ => i + 1,
    };
    assert forall|name: Chars, v: Chars| #[trigger] says(args, n, name, v) == (says(
        args,
        i,
        name,
        v,
    ) || gives(args, i, name, v)) by {
        if says(args, i, name, v) {
            let k = choose|k: int| 1 <= k < i && #[trigger] gives(args, k, name, v);
            assert(gives(args, k, name, v));
        }
    }
    assert(says_release(args, n) == (says_release(args, i) || arg == "--release"@)) by {
        if says_release(args, i) {
            let k = choose|k: int| 1 <= k < i && #[trigger] plain(args, k) && args[k] == "--release"@;
            assert(plain(args, k));
        }
    }
    assert forall|f: Chars| #[trigger] says_file(args, n, f) == (says_file(args, i, f) || (arg
        == f && (f.len() <= 1 || f[0] != '-'))) by {
        if says_file(args, i, f) {
            let k = choose|k: int| 1 <= k < i && #[trigger] names_file(args, k, f);
            assert(names_file(args, k, f));
        }
        if arg == f && (f.len() <= 1 || f[0] != '-') {
            assert(names_file(args, i, f));
        }
    }
    assert(separated(args, n) == (arg == "--"@));
    assert forall|name: Chars, v: Chars| wants_value(name) implies #[trigger] gives(args, i, name, v)
        == (match arg_kind(arg) {
        ArgKindView::Joined(name1, v1) => name == name1 && v == v1 && v.len() > 0,
        ArgKindView::Spaced => name == arg && i + 1 < args.len() && v == args[i + 1],
        _ => false,
    }) by {
        if arg == joined_option(name, v) {
            assert(arg_kind(arg) == ArgKindView::Joined(name, v));
        }
    }
    assert(wants_value("--output"@) && wants_value("-o"@) && wants_value("--stdlib"@)
        && wants_value("--emit"@));
    if let Some(v) = raw.output {
        assert(says_output(args, i, v));
    }
    if let Some(v) = raw.stdlib {
        assert(says(args, i, "--stdlib"@, v));
    }
    assert forall|v: Chars| #[trigger] says_output(args, n, v) == (says_output(args, i, v) || gives(
        args,
        i,
        "--output"@,
        v,
    ) || gives(args, i, "-o"@, v)) by {}
    match arg_kind(arg) {
        ArgKindView::Joined(name, value) => {
            if value.len() > 0 && with_option(raw, name, value) is Ok {
                assert(says_all(args, n, with_option(raw, name, value)->Ok_0));
            }
        },
        ArgKindView::Spaced => {
            if i + 1 < args.len() && with_option(raw, arg, args[i + 1]) is Ok {
                assert(says_all(args, n, with_option(raw, arg, args[i + 1])->Ok_0));
            }
        },
        ArgKindView::File => {
            if with_file(raw, arg) is Ok {
                assert(says_all(args, n, with_file(raw, arg)->Ok_0));
            }
        },
        ArgKindView::Separator => {
            assert(says_all(args, n, raw));
        },
        _ => {},
    }
}

/// The same of an argument behind `--`.
proof fn lemma_step_behind(args: Seq<Chars>, i: int, raw: RawArgsView)
    requires
        1 <= i < args.len(),
        separated(args, i),
        says_all(args, i, raw),
        with_file(raw, args[i]) is Ok,
    ensures
        says_all(args, i + 1, with_file(raw, args[i])->Ok_0),
        separated(args, i + 1),
{
    assert forall|name: Chars, v: Chars| #[trigger] says(args, i + 1, name, v) == says(
        args,
        i,
        name,
        v,
    ) by {
        if says(args, i, name, v) {
            let k = choose|k: int| 1 <= k < i && #[trigger] gives(args, k, name, v);
            assert(gives(args, k, name, v));
        }
    }
    assert forall|v: Chars| #[trigger] says_output(args, i + 1, v) == says_output(args, i, v) by {}
    assert(says_release(args, i + 1) == says_release(args, i)) by {
        if says_release(args, i) {
            let k = choose|k: int| 1 <= k < i && #[trigger] plain(args, k) && args[k] == "--release"@;
            assert(plain(args, k));
        }
    }
    assert forall|f: Chars| #[trigger] says_file(args, i + 1, f) == (says_file(args, i, f)
        || args[i] == f) by {
        if says_file(args, i, f) {
            let k = choose|k: int| 1 <= k < i && #[trigger] names_file(args, k, f);
            assert(names_file(args, k, f));
        }
        assert(names_file(args, i, args[i]));
    }
}

proof fn lemma_says(args: Seq<Chars>, i: nat, raw: RawArgsView, files_only: bool)
    requires
        1 <= i,
        raw.action is Compile,
        says_all(args, i as int, raw),
        files_only == separated(args, i as int),
        !files_only ==> own(args, i as int),
    ensures
        args_from(args, i, raw, files_only) matches Ok(r) ==> r.action is Compile ==> says_all(
            args,
            args.len() as int,
            r,
        ),
    decreases args.len() - i,
{
    if i < args.len() {
        let arg = args[i as int];
        if files_only {
            if let Ok(raw1) = with_file(raw, arg) {
                lemma_step_behind(args, i as int, raw);
                lemma_says(args, i + 1, raw1, true);
            }
        } else {
            lemma_step(args, i as int, raw);
            match arg_kind(arg) {
                ArgKindView::Separator => lemma_says(args, i + 1, raw, true),
                ArgKindView::Release => lemma_says(
                    args,
                    i + 1,
                    RawArgsView { release: true, ..raw },
                    false,
                ),
                ArgKindView::Joined(name, value) => {
                    if value.len() > 0 {
                        if let Ok(raw1) = with_option(raw, name, value) {
                            lemma_says(args, i + 1, raw1, false);
                        }
                    }
                },
                ArgKindView::Spaced => {
                    if i + 1 < args.len() {
                        if let Ok(raw1) = with_option(raw, arg, args[i as int + 1]) {
                            lemma_says(args, i + 2, raw1, false);
                        }
                    }
                },
                ArgKindView::File => {
                    if let Ok(raw1) = with_file(raw, arg) {
                        lemma_says(args, i + 1, raw1, false);
                    }
                },
                _ => {},
            }
        }
    } else {
        lemma_says_end(args, i as int, raw);
    }
}

/// There is nothing behind the last argument.
proof fn lemma_says_end(args: Seq<Chars>, i: int, raw: RawArgsView)
    requires
        args.len() <= i,
        says_all(args, i, raw),
    ensures
        says_all(args, args.len() as int, raw),
{
    let n = args.len() as int;
    assert forall|name: Chars, v: Chars| #[trigger] says(args, n, name, v) == says(
        args,
        i,
        name,
        v,
    ) by {
        if says(args, i, name, v) {
            let k = choose|k: int| 1 <= k < i && #[trigger] gives(args, k, name, v);
            assert(gives(args, k, name, v) && k < n);
        }
    }
    assert forall|v: Chars| #[trigger] says_output(args, n, v) == says_output(args, i, v) by {}
    assert(says_release(args, n) == says_release(args, i));
    assert forall|f: Chars| #[trigger] says_file(args, n, f) == says_file(args, i, f) by {
        if says_file(args, i, f) {
            let k = choose|k: int| 1 <= k < i && #[trigger] names_file(args, k, f);
            assert(names_file(args, k, f) && k < n);
        }
    }
}

/// A command line that is sorted as a compilation holds just what its arguments say:
/// `--release` where an argument before `--` that is no option's value says so; the
/// output, the standard library and the kind of result that an option gives, before or
/// behind `=`; and the file that is no option or stands behind `--`. None of these
/// depends on another.
pub proof fn sorted_arguments_are_what_they_say(args: Seq<Chars>)
    ensures
        raw_args(args) matches Ok(raw) ==> raw.action is Compile ==> says_all(
            args,
            args.len() as int,
            raw,
        ),
{
    lemma_options_differ();
    lemma_says(args, 1, no_args(), false);
}

/// A command line that is accepted as a compilation is configured as its arguments say;
/// resolving it looks for the standard library and changes nothing else.
pub proof fn configuration_is_what_the_arguments_say(
    args: Seq<Chars>,
    inferred: Option<Chars>,
    fallback: Option<Chars>,
)
    ensures
        asked(args, inferred, fallback) matches Ok(ArgsView::Compile(config)) ==> {
            let n = args.len() as int;
            &&& config.release <==> says_release(args, n)
            &&& forall|v: Chars|
                config.output == Some(v) <==> #[trigger] says_output(args, n, v)
            &&& config.emit == Emit::Rust <==> says(args, n, "--emit"@, "rust"@)
            &&& forall|f: Chars| config.filename == f <==> #[trigger] says_file(args, n, f)
            &&& forall|v: Chars| #[trigger]
                says(args, n, "--stdlib"@, v) ==> config.stdlib_path == v && config.stdlib_source
                    == StdlibSource::Explicit
            &&& (forall|v: Chars| !#[trigger] says(args, n, "--stdlib"@, v)) ==> (match inferred {
                Some(p) => config.stdlib_path == p && config.stdlib_source
                    == StdlibSource::Inferred,
                None => fallback == Some(config.stdlib_path) && config.stdlib_source
                    == StdlibSource::Fallback,
            })
        },
{
    sorted_arguments_are_what_they_say(args);
    if let Ok(raw) = raw_args(args) {
        if let Some(p) = raw.stdlib {
            if raw.action is Compile {
                assert(says(args, args.len() as int, "--stdlib"@, p));
            }
        }
    }
}

/// Resolving sorted arguments keeps what they hold: the file, the output, the mode of
/// the build and the kind of result.
pub proof fn resolving_keeps_what_was_sorted(
    raw: RawArgsView,
    inferred: Option<Chars>,
    fallback: Option<Chars>,
)
    ensures
        resolved(raw, inferred, fallback) matches Ok(config) ==> config.release == raw.release
            && config.output == raw.output && config.emit == raw.emit && raw.filename == Some(
            config.filename,
        ),
        resolved(raw, inferred, fallback) is Ok <==> raw.filename is Some && (raw.stdlib is Some
            || inferred is Some || fallback is Some),
{
}

} // verus!
