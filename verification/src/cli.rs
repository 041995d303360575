//! The command-line surface: recognised flags, their values, and the usage text.

use vstd::prelude::*;
use vstd::string::*;

verus! {

/// What the command line asked for, before any default is applied.
pub struct Args {
    pub root_dir: Option<String>,
    pub src_dir: Option<String>,
    pub types_dir: Option<String>,
    pub out_path: Option<String>,
    pub generator_version: Option<String>,
    pub fail_on_warning: bool,
    pub help: bool,
}

/// The mathematical content of [`Args`].
pub struct ArgsView {
    pub root_dir: Option<Seq<char>>,
    pub src_dir: Option<Seq<char>>,
    pub types_dir: Option<Seq<char>>,
    pub out_path: Option<Seq<char>>,
    pub generator_version: Option<Seq<char>>,
    pub fail_on_warning: bool,
    pub help: bool,
}

/// The view of an optional text.
pub open spec fn text_of(s: Option<String>) -> Option<Seq<char>> {
    match s {
        Some(t) => Some(t@),
        None => None,
    }
}

impl View for Args {
    type V = ArgsView;

    open spec fn view(&self) -> ArgsView {
        ArgsView {
            root_dir: text_of(self.root_dir),
            src_dir: text_of(self.src_dir),
            types_dir: text_of(self.types_dir),
            out_path: text_of(self.out_path),
            generator_version: text_of(self.generator_version),
            fail_on_warning: self.fail_on_warning,
            help: self.help,
        }
    }
}

/// The state before any argument has been read: nothing set, both flags off.
pub open spec fn no_args() -> ArgsView {
    ArgsView {
        root_dir: None,
        src_dir: None,
        types_dir: None,
        out_path: None,
        generator_version: None,
        fail_on_warning: false,
        help: false,
    }
}

/// The flags that take a value, in the order in which they are tried.
pub enum ValueFlag {
    Root,
    Src,
    Types,
    Out,
    GeneratorVersion,
}

impl ValueFlag {
    /// How the flag is written on the command line.
    pub open spec fn spelling(self) -> Seq<char> {
        match self {
            ValueFlag::Root => "--root"@,
            ValueFlag::Src => "--src"@,
            ValueFlag::Types => "--types"@,
            ValueFlag::Out => "--out"@,
            ValueFlag::GeneratorVersion => "--generator-version"@,
        }
    }

    /// The message for the flag in last position, with no value behind it.
    pub open spec fn missing_value(self) -> Seq<char> {
        match self {
            ValueFlag::Root => "--root requires a value"@,
            ValueFlag::Src => "--src requires a value"@,
            ValueFlag::Types => "--types requires a value"@,
            ValueFlag::Out => "--out requires a value"@,
            ValueFlag::GeneratorVersion => "--generator-version requires a value"@,
        }
    }

    /// `acc` with `value` recorded for the flag.
    pub open spec fn store(self, acc: ArgsView, value: Seq<char>) -> ArgsView {
        match self {
            ValueFlag::Root => ArgsView { root_dir: Some(value), ..acc },
            ValueFlag::Src => ArgsView { src_dir: Some(value), ..acc },
            ValueFlag::Types => ArgsView { types_dir: Some(value), ..acc },
            ValueFlag::Out => ArgsView { out_path: Some(value), ..acc },
            ValueFlag::GeneratorVersion => ArgsView { generator_version: Some(value), ..acc },
        }
    }
}

/// Which value-taking flag an argument spells, if any.
pub open spec fn value_flag_of(arg: Seq<char>) -> Option<ValueFlag> {
    if arg == ValueFlag::Root.spelling() {
        Some(ValueFlag::Root)
    } else if arg == ValueFlag::Src.spelling() {
        Some(ValueFlag::Src)
    } else if arg == ValueFlag::Types.spelling() {
        Some(ValueFlag::Types)
    } else if arg == ValueFlag::Out.spelling() {
        Some(ValueFlag::Out)
    } else if arg == ValueFlag::GeneratorVersion.spelling() {
        Some(ValueFlag::GeneratorVersion)
    } else {
        None
    }
}

/// The message for an argument that is no flag.
pub open spec fn unknown_argument(arg: Seq<char>) -> Seq<char> {
    "Unknown argument: "@ + arg
}

/// Reads `argv` from position `i` on, starting from `acc`.
///
/// A value-taking flag consumes the argument after it, whatever that argument
/// looks like, and a later occurrence replaces an earlier one. The first
/// argument that is neither a flag nor consumed as a value ends the parse with
/// an error, as does a value-taking flag in last position.
pub open spec fn parse_from(argv: Seq<Seq<char>>, i: int, acc: ArgsView) -> Result<
    ArgsView,
    Seq<char>,
>
    decreases argv.len() - i,
{
    if i < 0 || i >= argv.len() {
        Ok(acc)
    } else {
        match value_flag_of(argv[i]) {
            Some(flag) => {
                if i + 1 < argv.len() {
                    parse_from(argv, i + 2, flag.store(acc, argv[i + 1]))
                } else {
                    Err(flag.missing_value())
                }
            },
            None => {
                if argv[i] == "--fail-on-warning"@ {
                    parse_from(argv, i + 1, ArgsView { fail_on_warning: true, ..acc })
                } else if argv[i] == "-h"@ || argv[i] == "--help"@ {
                    parse_from(argv, i + 1, ArgsView { help: true, ..acc })
                } else {
                    Err(unknown_argument(argv[i]))
                }
            },
        }
    }
}

/// The meaning of a whole argument list (the program name not included).
pub open spec fn parse_spec(argv: Seq<Seq<char>>) -> Result<ArgsView, Seq<char>> {
    parse_from(argv, 0, no_args())
}

/// How a parse result relates to the one that [`parse_spec`] gives.
pub open spec fn parse_result_matches(
    r: Result<Args, String>,
    expected: Result<ArgsView, Seq<char>>,
) -> bool {
    match r {
        Ok(a) => expected == Ok::<ArgsView, Seq<char>>(a@),
        Err(e) => expected == Err::<ArgsView, Seq<char>>(e@),
    }
}

fn is_literal(arg: &String, lit: &str) -> (r: bool)
    ensures
        r == (arg@ == lit@),
{
    let owned = String::from_str(lit);
    *arg == owned
}

/// Parses the arguments that follow the program name.
pub fn parse_args(argv: &Vec<String>) -> (r: Result<Args, String>)
    ensures
        parse_result_matches(r, parse_spec(argv.deep_view())),
{
    let mut args = Args {
        root_dir: None,
        src_dir: None,
        types_dir: None,
        out_path: None,
        generator_version: None,
        fail_on_warning: false,
        help: false,
    };
    let ghost all = argv.deep_view();
    let mut i: usize = 0;
    while i < argv.len()
        invariant
            i <= argv.len(),
            all == argv.deep_view(),
            all.len() == argv.len(),
            parse_spec(all) == parse_from(all, i as int, args@),
        decreases argv.len() - i,
    {
        let arg = &argv[i];
        assert(all[i as int] == arg@);
        let is_root = is_literal(arg, "--root");
        let is_src = is_literal(arg, "--src");
        let is_types = is_literal(arg, "--types");
        let is_out = is_literal(arg, "--out");
        let is_version = is_literal(arg, "--generator-version");
        if is_root || is_src || is_types || is_out || is_version {
            if i + 1 < argv.len() {
                let value = argv[i + 1].clone();
                assert(all[i + 1] == value@);
                if is_root {
                    args.root_dir = Some(value);
                } else if is_src {
                    args.src_dir = Some(value);
                } else if is_types {
                    args.types_dir = Some(value);
                } else if is_out {
                    args.out_path = Some(value);
                } else {
                    args.generator_version = Some(value);
                }
                i = i + 2;
            } else if is_root {
                return Err(String::from_str("--root requires a value"));
            } else if is_src {
                return Err(String::from_str("--src requires a value"));
            } else if is_types {
                return Err(String::from_str("--types requires a value"));
            } else if is_out {
                return Err(String::from_str("--out requires a value"));
            } else {
                return Err(String::from_str("--generator-version requires a value"));
            }
        } else if is_literal(arg, "--fail-on-warning") {
            args.fail_on_warning = true;
            i = i + 1;
        } else if is_literal(arg, "-h") || is_literal(arg, "--help") {
            args.help = true;
            i = i + 1;
        } else {
            return Err(String::from_str("Unknown argument: ").concat(arg.as_str()));
        }
    }
    Ok(args)
}

/// The usage text, one line per entry, as it is shown for `--help` and after a
/// usage error.
pub open spec fn usage_text() -> Seq<char> {
    "luau-docgen\n\nUsage:\n  luau-docgen --out <path> [--root <dir>] [--src <dir>] [--types <dir>]\n\nOptions:\n  --root <dir>             Root directory (default: cwd)\n  --src <dir>              Source directory (default: <root>/src)\n  --types <dir>            Optional types directory\n  --out <path>             Output JSON path (default: reference.json)\n  --generator-version <v>  Generator version string\n  --fail-on-warning        Exit with non-zero when warnings exist\n"@
}

/// Returns the usage text.
pub fn usage() -> (s: String)
    ensures
        s@ == usage_text(),
{
    String::from_str(
        "luau-docgen\n\nUsage:\n  luau-docgen --out <path> [--root <dir>] [--src <dir>] [--types <dir>]\n\nOptions:\n  --root <dir>             Root directory (default: cwd)\n  --src <dir>              Source directory (default: <root>/src)\n  --types <dir>            Optional types directory\n  --out <path>             Output JSON path (default: reference.json)\n  --generator-version <v>  Generator version string\n  --fail-on-warning        Exit with non-zero when warnings exist\n",
    )
}

/// The line that reports a usage error, without a line terminator.
pub open spec fn error_line_text(message: Seq<char>) -> Seq<char> {
    "[luau-docgen] "@ + message
}

/// Returns the line that reports the usage error `message`.
pub fn error_line(message: &String) -> (s: String)
    ensures
        s@ == error_line_text(message@),
{
    String::from_str("[luau-docgen] ").concat(message.as_str())
}

} // verus!
