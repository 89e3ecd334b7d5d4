use vstd::prelude::*;
use crate::diagnosis::Seriousness;
use crate::known_names::texts;
use crate::text::{has_prefix, starts_with, same_text};

verus! {

/// What the analysis is asked to do.
#[derive(Debug)]
pub struct AnalysisOption {
    /// Crates whose functions are reported.
    pub crate_names: Vec<String>,
    /// Names of the functions the analysis starts from.
    pub entry_points: Vec<String>,
    /// Symbols of the declared foreign functions.
    pub ffi_functions: Vec<String>,
    /// Bitcode files to load.
    pub bitcode_file_paths: Vec<String>,
    /// The least severity reported.
    pub precision_threshold: Seriousness,
}

/// A command line flag that lacks its value.
#[derive(Debug)]
pub enum OptionError {
    MissingValue(String),
}

/// The parts of the options that the command line changes.
pub struct ArgsModel {
    pub entry_points: Seq<Seq<char>>,
    pub bitcode_file_paths: Seq<Seq<char>>,
    pub precision_threshold: Seriousness,
}

/// The severity a `--precision_filter` value names; anything unknown is `Low`.
pub open spec fn threshold_of(v: Seq<char>) -> Seriousness {
    if v == "high"@ {
        Seriousness::High
    } else if v == "mid"@ {
        Seriousness::Medium
    } else {
        Seriousness::Low
    }
}

/// Whether argument `a` is a flag that takes a value.
pub open spec fn takes_value(a: Seq<char>) -> bool {
    a == "--entry"@ || a == "--bitcode"@ || a == "--precision_filter"@
}

/// The effect of argument `i`, read as a flag with the next argument as its
/// value.
pub open spec fn arg_step(args: Seq<Seq<char>>, i: int, o: ArgsModel) -> ArgsModel {
    if i + 1 < args.len() && args[i] == "--entry"@ {
        ArgsModel { entry_points: o.entry_points.push(args[i + 1]), ..o }
    } else if i + 1 < args.len() && args[i] == "--bitcode"@ {
        ArgsModel { bitcode_file_paths: o.bitcode_file_paths.push(args[i + 1]), ..o }
    } else if i + 1 < args.len() && args[i] == "--precision_filter"@ {
        ArgsModel { precision_threshold: threshold_of(args[i + 1]), ..o }
    } else {
        o
    }
}

/// The effect of the first `n` arguments.
pub open spec fn args_upto(args: Seq<Seq<char>>, n: int, o: ArgsModel) -> ArgsModel
    decreases n,
{
    if n <= 0 {
        o
    } else {
        arg_step(args, n - 1, args_upto(args, n - 1, o))
    }
}

fn threshold(v: &str) -> (r: Seriousness)
    ensures
        r == threshold_of(v@),
{
    if same_text(v, "high") {
        Seriousness::High
    } else if same_text(v, "mid") {
        Seriousness::Medium
    } else {
        Seriousness::Low
    }
}

impl AnalysisOption {
    /// Options with nothing to analyse, reporting every severity.
    pub fn new() -> (r: AnalysisOption)
        ensures
            r.crate_names@.len() == 0,
            r.entry_points@.len() == 0,
            r.ffi_functions@.len() == 0,
            r.bitcode_file_paths@.len() == 0,
            r.precision_threshold == Seriousness::Low,
    {
        AnalysisOption {
            crate_names: Vec::new(),
            entry_points: Vec::new(),
            ffi_functions: Vec::new(),
            bitcode_file_paths: Vec::new(),
            precision_threshold: Seriousness::Low,
        }
    }

    /// The parts of the options that the command line changes.
    pub open spec fn args_model(&self) -> ArgsModel {
        ArgsModel {
            entry_points: texts(self.entry_points@),
            bitcode_file_paths: texts(self.bitcode_file_paths@),
            precision_threshold: self.precision_threshold,
        }
    }

    /// Reads a line of an entry-point file: `Entry: <symbol>` adds an entry
    /// point, `FFI: <symbol>` a foreign function; other lines are skipped.
    pub fn add_entry_line(&mut self, line: &str)
        ensures
            final(self).crate_names == old(self).crate_names,
            final(self).bitcode_file_paths == old(self).bitcode_file_paths,
            final(self).precision_threshold == old(self).precision_threshold,
            texts(final(self).entry_points@) == if has_prefix(line@, "Entry: "@) {
                texts(old(self).entry_points@).push(line@.skip(7))
            } else {
                texts(old(self).entry_points@)
            },
            texts(final(self).ffi_functions@) == if !has_prefix(line@, "Entry: "@) && has_prefix(line@, "FFI: "@) {
                texts(old(self).ffi_functions@).push(line@.skip(5))
            } else {
                texts(old(self).ffi_functions@)
            },
    {
        proof {
            reveal_strlit("Entry: ");
            reveal_strlit("FFI: ");
        }
        if starts_with(line, "Entry: ") {
            let n = line.unicode_len();
            let rest = line.substring_char(7, n).to_owned();
            self.entry_points.push(rest);
            assert(texts(self.entry_points@) =~= texts(old(self).entry_points@).push(line@.skip(7)));
        } else if starts_with(line, "FFI: ") {
            let n = line.unicode_len();
            let rest = line.substring_char(5, n).to_owned();
            self.ffi_functions.push(rest);
            assert(texts(self.ffi_functions@) =~= texts(old(self).ffi_functions@).push(line@.skip(5)));
        }
    }

    /// Applies the command line to `defaults`: `--entry <symbol>` and
    /// `--bitcode <path>` append, `--precision_filter {low|mid|high}` sets the
    /// least severity reported (an unknown value means `low`). Fails where a
    /// flag that takes a value comes last.
    pub fn from_args(args: &Vec<String>, defaults: AnalysisOption) -> (r: Result<AnalysisOption, OptionError>)
        ensures
            match r {
                Ok(o) => o.crate_names == defaults.crate_names && o.ffi_functions == defaults.ffi_functions
                    && o.args_model() == args_upto(texts(args@), args@.len() as int, defaults.args_model())
                    && (args@.len() == 0 || !takes_value(args@[args@.len() - 1]@)),
                Err(OptionError::MissingValue(f)) => args@.len() > 0 && f@ == args@[args@.len() - 1]@
                    && takes_value(f@),
            },
    {
        let n = args.len();
        if n > 0 {
            let last = args[n - 1].as_str();
            if same_text(last, "--entry") || same_text(last, "--bitcode") || same_text(last, "--precision_filter") {
                return Err(OptionError::MissingValue(args[n - 1].clone()));
            }
        }
        let ghost a = texts(args@);
        let mut res = defaults;
        let mut i: usize = 0;
        while i < n
            invariant
                n == args@.len(),
                a == texts(args@),
                i <= n,
                res.crate_names == defaults.crate_names,
                res.ffi_functions == defaults.ffi_functions,
                res.args_model() == args_upto(a, i as int, defaults.args_model()),
            decreases n - i,
        {
            let arg = args[i].as_str();
            assert(a[i as int] == arg@);
            if i + 1 < n {
                assert(a[i + 1] == args@[i + 1]@);
                if same_text(arg, "--entry") {
                    res.entry_points.push(args[i + 1].clone());
                    assert(texts(res.entry_points@) =~= args_upto(a, i as int, defaults.args_model()).entry_points.push(a[i + 1]));
                } else if same_text(arg, "--bitcode") {
                    res.bitcode_file_paths.push(args[i + 1].clone());
                    assert(texts(res.bitcode_file_paths@) =~= args_upto(a, i as int, defaults.args_model()).bitcode_file_paths.push(a[i + 1]));
                } else if same_text(arg, "--precision_filter") {
                    res.precision_threshold = threshold(args[i + 1].as_str());
                }
            }
            i = i + 1;
        }
        Ok(res)
    }
}

} // verus!
