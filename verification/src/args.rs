//! The command line of the renderer.
use vstd::prelude::*;
use vstd::string::*;
use crate::text;

verus! {

/// The usage text that `-h` and `--help` print.
pub const USAGE: &'static str = "Usage: raytracer [OPTIONS] <CONFIG>

Arguments:
  <CONFIG>              Path to scene configuration file (TOML)

Options:
  -o, --output <FILE>           Output PPM filename (default: <CONFIG_NAME>.ppm)
  --width <SIZE>                Image width in pixels (default: from config)
  --height <SIZE>               Image height in pixels (default: from config)
  --samples <N>                 Samples per pixel for adaptive supersampling (default: 16)
  --variance-threshold <VAL>    Variance threshold for adaptive sampling (default: 0.01)
  -h, --help                    Show this help message

Examples:
  raytracer config/simple.toml
  raytracer config/example.toml -o render.ppm
  raytracer config/simple.toml --samples 32 --variance-threshold 0.005
  raytracer config/simple.toml --width 400 --height 300";

/// What the command line asks for. The variance threshold is kept as the
/// text that was given, which reads as a floating-point number.
#[derive(Debug, Clone)]
pub struct Args {
    pub config: String,
    pub output: Option<String>,
    pub width: Option<usize>,
    pub height: Option<usize>,
    pub samples_per_pixel: Option<usize>,
    pub variance_threshold: Option<String>,
}

/// The contents of an `Args`, as plain values.
pub ghost struct ArgsView {
    pub config: Seq<char>,
    pub output: Option<Seq<char>>,
    pub width: Option<usize>,
    pub height: Option<usize>,
    pub samples_per_pixel: Option<usize>,
    pub variance_threshold: Option<Seq<char>>,
}

pub open spec fn text_view(o: Option<String>) -> Option<Seq<char>> {
    match o {
        Some(s) => Some(s@),
        None => None,
    }
}

impl View for Args {
    type V = ArgsView;

    open spec fn view(&self) -> ArgsView {
        ArgsView {
            config: self.config@,
            output: text_view(self.output),
            width: self.width,
            height: self.height,
            samples_per_pixel: self.samples_per_pixel,
            variance_threshold: text_view(self.variance_threshold),
        }
    }
}

pub open spec fn no_options() -> ArgsView {
    ArgsView {
        config: seq![],
        output: None,
        width: None,
        height: None,
        samples_per_pixel: None,
        variance_threshold: None,
    }
}

/// A size option's value: `Ok` with the number its text reads as, or the
/// error `<what><text>`.
pub open spec fn size_value(text: Seq<char>, what: Seq<char>) -> Result<usize, Seq<char>> {
    match text::parse_unsigned(text, usize::MAX as nat) {
        Some(v) => Ok(v as usize),
        None => Err(what + text),
    }
}

/// Reading the arguments from position `i` on, with `st` read so far.
/// `numeric[j]` tells whether argument `j` reads as a floating-point number.
pub open spec fn parse_from(
    args: Seq<Seq<char>>,
    numeric: Seq<bool>,
    i: nat,
    st: ArgsView,
) -> Result<ArgsView, Seq<char>>
    decreases args.len() - i,
{
    if i >= args.len() {
        if st.config.len() == 0 {
            Err("Config file is required"@)
        } else {
            Ok(st)
        }
    } else {
        let arg = args[i as int];
        let has_value = i + 1 < args.len();
        let value = args[i + 1 as int];
        if arg == "-h"@ || arg == "--help"@ {
            Err(USAGE@)
        } else if arg == "-o"@ || arg == "--output"@ || arg == "--width"@ || arg == "--height"@
            || arg == "--samples"@ || arg == "--variance-threshold"@ {
            if !has_value {
                Err(arg + " requires a value"@)
            } else if arg == "-o"@ || arg == "--output"@ {
                parse_from(args, numeric, i + 2, ArgsView { output: Some(value), ..st })
            } else if arg == "--width"@ {
                match size_value(value, "Invalid width: "@) {
                    Ok(v) => parse_from(args, numeric, i + 2, ArgsView { width: Some(v), ..st }),
                    Err(e) => Err(e),
                }
            } else if arg == "--height"@ {
                match size_value(value, "Invalid height: "@) {
                    Ok(v) => parse_from(args, numeric, i + 2, ArgsView { height: Some(v), ..st }),
                    Err(e) => Err(e),
                }
            } else if arg == "--samples"@ {
                match size_value(value, "Invalid samples: "@) {
                    Ok(v) => parse_from(
                        args,
                        numeric,
                        i + 2,
                        ArgsView { samples_per_pixel: Some(v), ..st },
                    ),
                    Err(e) => Err(e),
                }
            } else if numeric[i + 1 as int] {
                parse_from(args, numeric, i + 2, ArgsView { variance_threshold: Some(value), ..st })
            } else {
                Err("Invalid variance threshold: "@ + value)
            }
        } else if arg.len() > 0 && arg[0] == '-' {
            Err("Unknown option: "@ + arg)
        } else if st.config.len() == 0 {
            parse_from(args, numeric, i + 1, ArgsView { config: arg, ..st })
        } else {
            Err("Multiple config files specified"@)
        }
    }
}

/// What the renderer makes of its command line `args` (the program's name
/// first).
pub open spec fn parse_args(args: Seq<Seq<char>>, numeric: Seq<bool>) -> Result<
    ArgsView,
    Seq<char>,
> {
    if args.len() < 2 {
        Err(USAGE@)
    } else {
        parse_from(args, numeric, 1, no_options())
    }
}

/// Reading on from any point ends, where it succeeds, with a configuration
/// file named.
proof fn lemma_parse_from_has_config(
    args: Seq<Seq<char>>,
    numeric: Seq<bool>,
    i: nat,
    st: ArgsView,
)
    ensures
        parse_from(args, numeric, i, st) matches Ok(a) ==> a.config.len() > 0,
    decreases args.len() - i,
{
    if i < args.len() {
        let st_output = ArgsView { output: Some(args[i + 1 as int]), ..st };
        let st_config = ArgsView { config: args[i as int], ..st };
        lemma_parse_from_has_config(args, numeric, i + 1, st_config);
        if i + 1 < args.len() {
            lemma_parse_from_has_config(args, numeric, i + 2, st_output);
            let value = args[i + 1 as int];
            if let Ok(v) = size_value(value, "Invalid width: "@) {
                lemma_parse_from_has_config(args, numeric, i + 2, ArgsView { width: Some(v), ..st });
            }
            if let Ok(v) = size_value(value, "Invalid height: "@) {
                lemma_parse_from_has_config(args, numeric, i + 2, ArgsView { height: Some(v), ..st });
            }
            if let Ok(v) = size_value(value, "Invalid samples: "@) {
                lemma_parse_from_has_config(
                    args,
                    numeric,
                    i + 2,
                    ArgsView { samples_per_pixel: Some(v), ..st },
                );
            }
            lemma_parse_from_has_config(
                args,
                numeric,
                i + 2,
                ArgsView { variance_threshold: Some(value), ..st },
            );
        }
    }
}

/// A command line that reads without error always names a configuration
/// file.
pub proof fn lemma_parsed_args_name_config(args: Seq<Seq<char>>, numeric: Seq<bool>)
    ensures
        parse_args(args, numeric) matches Ok(a) ==> a.config.len() > 0,
{
    lemma_parse_from_has_config(args, numeric, 1, no_options());
}

/// Whether `name` stands nowhere in `args` from position `j` on.
pub open spec fn absent_from(args: Seq<Seq<char>>, j: nat, name: Seq<char>) -> bool {
    forall|k: int| j <= k < args.len() ==> #[trigger] args[k] != name
}

/// Reading on from position `j` keeps each option that is not given again
/// from there on as it was, and keeps a configuration file already named.
pub proof fn lemma_fields_kept(args: Seq<Seq<char>>, numeric: Seq<bool>, j: nat, st: ArgsView)
    ensures
        parse_from(args, numeric, j, st) matches Ok(a) ==> {
            &&& absent_from(args, j, "--width"@) ==> a.width == st.width
            &&& absent_from(args, j, "--height"@) ==> a.height == st.height
            &&& absent_from(args, j, "--samples"@) ==> a.samples_per_pixel == st.samples_per_pixel
            &&& absent_from(args, j, "--variance-threshold"@) ==> a.variance_threshold
                == st.variance_threshold
            &&& absent_from(args, j, "-o"@) && absent_from(args, j, "--output"@) ==> a.output
                == st.output
            &&& st.config.len() > 0 ==> a.config == st.config
        },
    decreases args.len() - j,
{
    if j < args.len() {
        let arg = args[j as int];
        let value = args[j + 1 as int];
        lemma_fields_kept(args, numeric, j + 1, ArgsView { config: arg, ..st });
        if j + 1 < args.len() {
            lemma_fields_kept(args, numeric, j + 2, ArgsView { output: Some(value), ..st });
            if let Ok(v) = size_value(value, "Invalid width: "@) {
                lemma_fields_kept(args, numeric, j + 2, ArgsView { width: Some(v), ..st });
            }
            if let Ok(v) = size_value(value, "Invalid height: "@) {
                lemma_fields_kept(args, numeric, j + 2, ArgsView { height: Some(v), ..st });
            }
            if let Ok(v) = size_value(value, "Invalid samples: "@) {
                lemma_fields_kept(
                    args,
                    numeric,
                    j + 2,
                    ArgsView { samples_per_pixel: Some(v), ..st },
                );
            }
            lemma_fields_kept(
                args,
                numeric,
                j + 2,
                ArgsView { variance_threshold: Some(value), ..st },
            );
        }
    }
}

proof fn lemma_option_names_differ()
    ensures
        "--width"@ != "-h"@,
        "--width"@ != "--help"@,
        "--width"@ != "-o"@,
        "--width"@ != "--output"@,
        "--height"@ != "-h"@,
        "--height"@ != "--help"@,
        "--height"@ != "-o"@,
        "--height"@ != "--output"@,
        "--height"@ != "--width"@,
        "--samples"@ != "-h"@,
        "--samples"@ != "--help"@,
        "--samples"@ != "-o"@,
        "--samples"@ != "--output"@,
        "--samples"@ != "--width"@,
        "--samples"@ != "--height"@,
        "--variance-threshold"@ != "-h"@,
        "--variance-threshold"@ != "--help"@,
        "--variance-threshold"@ != "-o"@,
        "--variance-threshold"@ != "--output"@,
        "--variance-threshold"@ != "--width"@,
        "--variance-threshold"@ != "--height"@,
        "--variance-threshold"@ != "--samples"@,
        "-o"@ != "-h"@,
        "-o"@ != "--help"@,
        "--output"@ != "-h"@,
        "--output"@ != "--help"@,
{
    reveal_strlit("-h");
    reveal_strlit("--help");
    reveal_strlit("-o");
    reveal_strlit("--output");
    reveal_strlit("--width");
    reveal_strlit("--height");
    reveal_strlit("--samples");
    reveal_strlit("--variance-threshold");
    assert("--height"@[2] != "--output"@[2]);
    assert("--width"@[2] != "--help"@[2]);
    assert("--height"@[4] != "--help"@[4]);
    assert("--variance-threshold"@[2] != "--samples"@[2]);
    assert("-o"@[1] != "-h"@[1]);
}

/// Each option reads its value into its own field and nothing else, and
/// reading goes on after the value: `--width`, `--height` and `--samples`
/// take a size, `-o` and `--output` any text, and `--variance-threshold` a
/// text that reads as a number.
pub proof fn lemma_option_step(args: Seq<Seq<char>>, numeric: Seq<bool>, i: nat, st: ArgsView)
    requires
        i + 1 < args.len(),
    ensures
        ({
            let arg = args[i as int];
            let value = args[(i + 1) as int];
            let size = text::parse_unsigned(value, usize::MAX as nat);
            &&& arg == "--width"@ && size is Some ==> parse_from(args, numeric, i, st) == parse_from(
                args,
                numeric,
                i + 2,
                ArgsView { width: Some(size->0 as usize), ..st },
            )
            &&& arg == "--height"@ && size is Some ==> parse_from(args, numeric, i, st)
                == parse_from(args, numeric, i + 2, ArgsView { height: Some(size->0 as usize), ..st })
            &&& arg == "--samples"@ && size is Some ==> parse_from(args, numeric, i, st)
                == parse_from(
                args,
                numeric,
                i + 2,
                ArgsView { samples_per_pixel: Some(size->0 as usize), ..st },
            )
            &&& (arg == "-o"@ || arg == "--output"@) ==> parse_from(args, numeric, i, st)
                == parse_from(args, numeric, i + 2, ArgsView { output: Some(value), ..st })
            &&& arg == "--variance-threshold"@ && numeric[(i + 1) as int] ==> parse_from(args, numeric, i, st)
                == parse_from(
                args,
                numeric,
                i + 2,
                ArgsView { variance_threshold: Some(value), ..st },
            )
        }),
{
    lemma_option_names_differ();
}

/// A `--width` whose value reads as a size `v`, and that is not given again
/// later, makes the width of a command line that reads without error `v`,
/// whatever was read before it (a configuration file named or not); the
/// same holds of `--height` and the height.
pub proof fn lemma_size_option_lands(
    args: Seq<Seq<char>>,
    numeric: Seq<bool>,
    i: nat,
    st: ArgsView,
    v: nat,
)
    requires
        i + 1 < args.len(),
        text::parse_unsigned(args[(i + 1) as int], usize::MAX as nat) == Some(v),
    ensures
        parse_from(args, numeric, i, st) matches Ok(a) ==> {
            &&& args[i as int] == "--width"@ && absent_from(args, i + 2, "--width"@) ==> a.width
                == Some(v as usize)
            &&& args[i as int] == "--width"@ && absent_from(args, i + 2, "--height"@) ==> a.height
                == st.height
            &&& args[i as int] == "--height"@ && absent_from(args, i + 2, "--height"@) ==> a.height
                == Some(v as usize)
            &&& args[i as int] == "--height"@ && absent_from(args, i + 2, "--width"@) ==> a.width
                == st.width
        },
{
    lemma_option_step(args, numeric, i, st);
    lemma_fields_kept(args, numeric, i + 2, ArgsView { width: Some(v as usize), ..st });
    lemma_fields_kept(args, numeric, i + 2, ArgsView { height: Some(v as usize), ..st });
}

/// A first argument that does not start with `-` names the configuration
/// file, and reading goes on from the second argument.
pub proof fn lemma_config_first(args: Seq<Seq<char>>, numeric: Seq<bool>)
    requires
        args.len() >= 2,
        !(args[1].len() > 0 && args[1][0] == '-'),
    ensures
        parse_args(args, numeric) == parse_from(
            args,
            numeric,
            2,
            ArgsView { config: args[1], ..no_options() },
        ),
{
    reveal_strlit("-h");
    reveal_strlit("--help");
    reveal_strlit("-o");
    reveal_strlit("--output");
    reveal_strlit("--width");
    reveal_strlit("--height");
    reveal_strlit("--samples");
    reveal_strlit("--variance-threshold");
    let arg = args[1];
    assert(arg != "-h"@ && arg != "--help"@ && arg != "-o"@ && arg != "--output"@ && arg
        != "--width"@ && arg != "--height"@ && arg != "--samples"@ && arg
        != "--variance-threshold"@) by {
        assert("-h"@[0] == '-' && "--help"@[0] == '-' && "-o"@[0] == '-' && "--output"@[0] == '-'
            && "--width"@[0] == '-' && "--height"@[0] == '-' && "--samples"@[0] == '-'
            && "--variance-threshold"@[0] == '-');
    }
}

fn read_size(text: &str, what: &str) -> (r: Result<usize, String>)
    ensures
        match r {
            Ok(v) => size_value(text@, what@) == Ok::<usize, Seq<char>>(v),
            Err(e) => size_value(text@, what@) == Err::<usize, Seq<char>>(e@),
        },
{
    match text::parse_unsigned_text(text, usize::MAX as u64) {
        Some(v) => Ok(v as usize),
        None => {
            let mut e = what.to_owned();
            e.append(text);
            Err(e)
        },
    }
}

impl Args {
    /// The usage text.
    pub fn help() -> (s: String)
        ensures
            s@ == USAGE@,
    {
        USAGE.to_owned()
    }

    /// Reads the command line `args`, the program's name first;
    /// `reads_as_number[j]` tells whether `args[j]` reads as a
    /// floating-point number.
    pub fn parse(args: &Vec<String>, reads_as_number: &Vec<bool>) -> (r: Result<Args, String>)
        requires
            reads_as_number@.len() == args@.len(),
        ensures
            match r {
                Ok(a) => parse_args(text::string_views(args@), reads_as_number@) == Ok::<
                    ArgsView,
                    Seq<char>,
                >(a@),
                Err(e) => parse_args(text::string_views(args@), reads_as_number@) == Err::<
                    ArgsView,
                    Seq<char>,
                >(e@),
            },
    {
        let ghost v = text::string_views(args@);
        let ghost numeric = reads_as_number@;
        let n = args.len();
        if n < 2 {
            return Err(Self::help());
        }
        let mut current = Args {
            config: String::new(),
            output: None,
            width: None,
            height: None,
            samples_per_pixel: None,
            variance_threshold: None,
        };
        assert(current@ == no_options());
        let mut i: usize = 1;
        while i < n
            invariant
                n == args@.len(),
                n == numeric.len(),
                numeric == reads_as_number@,
                v == text::string_views(args@),
                1 <= i <= n,
                parse_args(v, numeric) == parse_from(v, numeric, i as nat, current@),
            decreases n - i,
        {
            let arg = args[i].as_str();
            assert(v[i as int] == arg@);
            if i + 1 < n {
                assert(v[i + 1] == args@[i + 1]@);
            }
            if text::same_text(arg, "-h") || text::same_text(arg, "--help") {
                return Err(Self::help());
            }
            let is_output = text::same_text(arg, "-o") || text::same_text(arg, "--output");
            let is_width = text::same_text(arg, "--width");
            let is_height = text::same_text(arg, "--height");
            let is_samples = text::same_text(arg, "--samples");
            let is_variance = text::same_text(arg, "--variance-threshold");
            if is_output || is_width || is_height || is_samples || is_variance {
                if i + 1 >= n {
                    let mut e = arg.to_owned();
                    e.append(" requires a value");
                    return Err(e);
                }
                let value = args[i + 1].as_str();
                if is_output {
                    current.output = Some(value.to_owned());
                } else if is_width {
                    match read_size(value, "Invalid width: ") {
                        Ok(w) => {
                            current.width = Some(w);
                        },
                        Err(e) => {
                            return Err(e);
                        },
                    }
                } else if is_height {
                    match read_size(value, "Invalid height: ") {
                        Ok(h) => {
                            current.height = Some(h);
                        },
                        Err(e) => {
                            return Err(e);
                        },
                    }
                } else if is_samples {
                    match read_size(value, "Invalid samples: ") {
                        Ok(s) => {
                            current.samples_per_pixel = Some(s);
                        },
                        Err(e) => {
                            return Err(e);
                        },
                    }
                } else if reads_as_number[i + 1] {
                    current.variance_threshold = Some(value.to_owned());
                } else {
                    let mut e = "Invalid variance threshold: ".to_owned();
                    e.append(value);
                    return Err(e);
                }
                i += 2;
            } else {
                if arg.unicode_len() > 0 && arg.get_char(0) == '-' {
                    let mut e = "Unknown option: ".to_owned();
                    e.append(arg);
                    return Err(e);
                }
                if current.config.as_str().unicode_len() == 0 {
                    current.config = arg.to_owned();
                } else {
                    return Err("Multiple config files specified".to_owned());
                }
                i += 1;
            }
        }
        if current.config.as_str().unicode_len() == 0 {
            return Err("Config file is required".to_owned());
        }
        Ok(current)
    }
}

} // verus!
