use vstd::prelude::*;

use crate::numbers::{number_error_text, parse_i64, parse_integer, parse_usize, NumberError};
use crate::text::{ascii_lower, ascii_lowercase, blank, chars_of, chars_equal, is_blank, push_str, same_text};

verus! {

/// The start marker of the generated block, unless another is given.
pub const DEFAULT_START: &'static str = "<!-- RECENT_PRS_START -->";

/// The end marker of the generated block, unless another is given.
pub const DEFAULT_END: &'static str = "<!-- RECENT_PRS_END -->";

/// What a run does.
#[derive(Clone, Debug)]
pub struct Config {
    pub readme: String,
    pub marker_start: String,
    pub marker_end: String,
    pub include_private: bool,
    pub repo_limit: usize,
    pub max_prs_per_repo: usize,
    pub lookback_days: i64,
    pub max_pages: usize,
    pub output_only: bool,
    pub check: bool,
}

/// A configuration with its texts taken as character sequences.
pub struct ConfigView {
    pub readme: Seq<char>,
    pub marker_start: Seq<char>,
    pub marker_end: Seq<char>,
    pub include_private: bool,
    pub repo_limit: usize,
    pub max_prs_per_repo: usize,
    pub lookback_days: i64,
    pub max_pages: usize,
    pub output_only: bool,
    pub check: bool,
}

impl View for Config {
    type V = ConfigView;

    open spec fn view(&self) -> ConfigView {
        ConfigView {
            readme: self.readme@,
            marker_start: self.marker_start@,
            marker_end: self.marker_end@,
            include_private: self.include_private,
            repo_limit: self.repo_limit,
            max_prs_per_repo: self.max_prs_per_repo,
            lookback_days: self.lookback_days,
            max_pages: self.max_pages,
            output_only: self.output_only,
            check: self.check,
        }
    }
}

/// The values of the action's input variables, each absent where the variable is
/// not set (or not Unicode).
#[derive(Clone, Debug)]
pub struct Environment {
    pub readme_path: Option<String>,
    pub marker_start: Option<String>,
    pub marker_end: Option<String>,
    pub include_private: Option<String>,
    pub repo_limit: Option<String>,
    pub max_prs_per_repo: Option<String>,
    pub lookback_days: Option<String>,
    pub max_pages: Option<String>,
    pub output_only: Option<String>,
}

/// An optional text taken as a character sequence.
pub open spec fn text_opt(t: Option<String>) -> Option<Seq<char>> {
    match t {
        Some(s) => Some(s@),
        None => None,
    }
}

/// What the command line asks for.
pub enum Command {
    Run(Config),
    Help,
}

/// A command with its configuration taken by its view.
pub enum CommandView {
    Run(ConfigView),
    Help,
}

/// The view of a command.
pub open spec fn command_view(c: Command) -> CommandView {
    match c {
        Command::Run(config) => CommandView::Run(config@),
        Command::Help => CommandView::Help,
    }
}

/// A `Result` whose texts are taken as character sequences.
pub open spec fn result_view<T>(r: Result<T, String>) -> Result<T, Seq<char>> {
    match r {
        Ok(v) => Ok(v),
        Err(m) => Err(m@),
    }
}

/// A number setting: absent or blank gives the default, anything else must be a
/// `usize`, and its parse error is the message.
pub open spec fn usize_setting(value: Option<Seq<char>>, default: usize) -> Result<usize, Seq<char>> {
    match value {
        None => Ok(default),
        Some(v) => if blank(v) {
            Ok(default)
        } else {
            match parse_integer(v, 0, usize::MAX as int) {
                Ok(n) => Ok(n as usize),
                Err(e) => Err(number_error_text(e)),
            }
        },
    }
}

/// A day count setting: absent gives the default, anything else must be an `i64`.
pub open spec fn i64_setting(value: Option<Seq<char>>, default: i64) -> Result<i64, Seq<char>> {
    match value {
        None => Ok(default),
        Some(v) => match parse_integer(v, i64::MIN as int, i64::MAX as int) {
            Ok(n) => Ok(n as i64),
            Err(e) => Err(number_error_text(e)),
        },
    }
}

/// A switch setting: absent gives the default; otherwise, ignoring ASCII case,
/// `1`, `true`, `yes`, `on` switch it on and `0`, `false`, `no`, `off` off.
pub open spec fn bool_setting(name: Seq<char>, value: Option<Seq<char>>, default: bool) -> Result<
    bool,
    Seq<char>,
> {
    match value {
        None => Ok(default),
        Some(v) => {
            let l = ascii_lower(v);
            if l == "1"@ || l == "true"@ || l == "yes"@ || l == "on"@ {
                Ok(true)
            } else if l == "0"@ || l == "false"@ || l == "no"@ || l == "off"@ {
                Ok(false)
            } else {
                Err(name + " must be true or false"@)
            }
        },
    }
}

/// A switch reads every spelling that the action documents, in any ASCII case:
/// `1`, `true`, `yes`, `on` give `true`, and `0`, `false`, `no`, `off` give
/// `false`, whatever the default.
pub proof fn lemma_switch_spellings(name: Seq<char>, v: Seq<char>, default: bool)
    ensures
        ascii_lower(v) == "1"@ || ascii_lower(v) == "true"@ || ascii_lower(v) == "yes"@
            || ascii_lower(v) == "on"@ ==> bool_setting(name, Some(v), default) == Ok::<
            bool,
            Seq<char>,
        >(true),
        ascii_lower(v) == "0"@ || ascii_lower(v) == "false"@ || ascii_lower(v) == "no"@
            || ascii_lower(v) == "off"@ ==> bool_setting(name, Some(v), default) == Ok::<
            bool,
            Seq<char>,
        >(false),
{
    reveal_strlit("1");
    reveal_strlit("true");
    reveal_strlit("yes");
    reveal_strlit("on");
    reveal_strlit("0");
    reveal_strlit("false");
    reveal_strlit("no");
    reveal_strlit("off");
    let l = ascii_lower(v);
    assert("0"@[0] != "1"@[0]);
    assert("no"@[0] != "on"@[0]);
    assert("off"@[0] != "yes"@[0]);
    assert("0"@.len() != "true"@.len() && "0"@.len() != "yes"@.len() && "0"@.len() != "on"@.len());
    assert("false"@.len() != "1"@.len() && "false"@.len() != "true"@.len());
    assert("false"@.len() != "yes"@.len() && "false"@.len() != "on"@.len());
    assert("no"@.len() != "1"@.len() && "no"@.len() != "true"@.len() && "no"@.len() != "yes"@.len());
    assert("off"@.len() != "1"@.len() && "off"@.len() != "true"@.len() && "off"@.len() != "on"@.len());
}

/// Reads a number setting.
pub fn env_usize(value: &Option<String>, default: usize) -> (r: Result<usize, String>)
    ensures
        result_view(r) == usize_setting(text_opt(*value), default),
{
    match value {
        None => Ok(default),
        Some(v) => {
            if is_blank(v.as_str()) {
                Ok(default)
            } else {
                match parse_usize(v.as_str()) {
                    Ok(n) => Ok(n),
                    Err(e) => Err(error_message(e)),
                }
            }
        },
    }
}

/// Reads a day count setting.
pub fn env_i64(value: &Option<String>, default: i64) -> (r: Result<i64, String>)
    ensures
        result_view(r) == i64_setting(text_opt(*value), default),
{
    match value {
        None => Ok(default),
        Some(v) => match parse_i64(v.as_str()) {
            Ok(n) => Ok(n),
            Err(e) => Err(error_message(e)),
        },
    }
}

/// The message of a parse error, as a `String`.
fn error_message(e: NumberError) -> (r: String)
    ensures
        r@ == number_error_text(e),
{
    let mut r = String::new();
    push_str(&mut r, e.message());
    r
}

/// Whether the characters are those of `word`.
fn is_word(chars: &Vec<char>, word: &str) -> (r: bool)
    ensures
        r == (chars@ == word@),
{
    let w = chars_of(word);
    chars_equal(chars, &w)
}

/// Reads a switch setting; `name` is the variable's name, for the message.
pub fn env_bool(name: &str, value: &Option<String>, default: bool) -> (r: Result<bool, String>)
    ensures
        result_view(r) == bool_setting(name@, text_opt(*value), default),
{
    match value {
        None => Ok(default),
        Some(v) => {
            let l = ascii_lowercase(v.as_str());
            if is_word(&l, "1") || is_word(&l, "true") || is_word(&l, "yes") || is_word(&l, "on") {
                Ok(true)
            } else if is_word(&l, "0") || is_word(&l, "false") || is_word(&l, "no") || is_word(
                &l,
                "off",
            ) {
                Ok(false)
            } else {
                let mut message = String::new();
                push_str(&mut message, name);
                push_str(&mut message, " must be true or false");
                Err(message)
            }
        },
    }
}

/// The configuration that the input variables give, or the first message of a
/// setting that does not read.
pub open spec fn config_from_environment(env: Environment) -> Result<ConfigView, Seq<char>> {
    let readme = match text_opt(env.readme_path) {
        Some(p) => p,
        None => "README.md"@,
    };
    let marker_start = match text_opt(env.marker_start) {
        Some(m) => m,
        None => DEFAULT_START@,
    };
    let marker_end = match text_opt(env.marker_end) {
        Some(m) => m,
        None => DEFAULT_END@,
    };
    match bool_setting("INPUT_INCLUDE_PRIVATE"@, text_opt(env.include_private), false) {
        Err(m) => Err(m),
        Ok(include_private) => match usize_setting(text_opt(env.repo_limit), 6) {
            Err(m) => Err(m),
            Ok(repo_limit) => match usize_setting(text_opt(env.max_prs_per_repo), 3) {
                Err(m) => Err(m),
                Ok(max_prs_per_repo) => match i64_setting(text_opt(env.lookback_days), 365) {
                    Err(m) => Err(m),
                    Ok(lookback_days) => match usize_setting(text_opt(env.max_pages), 10) {
                        Err(m) => Err(m),
                        Ok(max_pages) => match bool_setting(
                            "INPUT_OUTPUT_ONLY"@,
                            text_opt(env.output_only),
                            false,
                        ) {
                            Err(m) => Err(m),
                            Ok(output_only) => Ok(
                                ConfigView {
                                    readme,
                                    marker_start,
                                    marker_end,
                                    include_private,
                                    repo_limit,
                                    max_prs_per_repo,
                                    lookback_days,
                                    max_pages,
                                    output_only,
                                    check: false,
                                },
                            ),
                        },
                    },
                },
            },
        },
    }
}

/// With no input variables set, a run reads `README.md` between the default
/// markers and shows at most 6 repositories, 3 pull requests of each, merged in
/// the last 365 days, from at most 10 pages, public repositories only, and
/// edits the README.
pub proof fn lemma_default_settings(env: Environment)
    requires
        env.readme_path is None,
        env.marker_start is None,
        env.marker_end is None,
        env.include_private is None,
        env.repo_limit is None,
        env.max_prs_per_repo is None,
        env.lookback_days is None,
        env.max_pages is None,
        env.output_only is None,
    ensures
        config_from_environment(env) == Ok::<ConfigView, Seq<char>>(
            ConfigView {
                readme: "README.md"@,
                marker_start: "<!-- RECENT_PRS_START -->"@,
                marker_end: "<!-- RECENT_PRS_END -->"@,
                include_private: false,
                repo_limit: 6,
                max_prs_per_repo: 3,
                lookback_days: 365,
                max_pages: 10,
                output_only: false,
                check: false,
            },
        ),
{
}

/// The arguments as character sequences.
pub open spec fn arg_views(args: Seq<String>) -> Seq<Seq<char>> {
    args.map_values(|a: String| a@)
}

/// A run needs room for at least one repository and one pull request of each.
pub open spec fn checked_config(config: ConfigView) -> Result<CommandView, Seq<char>> {
    if config.repo_limit == 0 {
        Err("repo-limit must be greater than 0"@)
    } else if config.max_prs_per_repo == 0 {
        Err("max-prs-per-repo must be greater than 0"@)
    } else {
        Ok(CommandView::Run(config))
    }
}

/// The value of a number flag.
pub open spec fn usize_value(v: Seq<char>) -> Result<usize, Seq<char>> {
    match parse_integer(v, 0, usize::MAX as int) {
        Ok(n) => Ok(n as usize),
        Err(e) => Err(number_error_text(e)),
    }
}

/// The value of a day count flag.
pub open spec fn i64_value(v: Seq<char>) -> Result<i64, Seq<char>> {
    match parse_integer(v, i64::MIN as int, i64::MAX as int) {
        Ok(n) => Ok(n as i64),
        Err(e) => Err(number_error_text(e)),
    }
}

/// The flags from position `pos` on applied to `config` in turn; `--help` (or
/// `-h`) stops there and asks for help.
pub open spec fn apply_args(config: ConfigView, args: Seq<Seq<char>>, pos: int) -> Result<
    CommandView,
    Seq<char>,
>
    decreases args.len() - pos,
{
    if pos < 0 || pos >= args.len() {
        checked_config(config)
    } else {
        let arg = args[pos];
        let has_value = pos + 1 < args.len();
        let value = args[pos + 1];
        let missing = Err("Missing value for "@ + arg);
        if arg == "--readme"@ {
            if has_value {
                apply_args(ConfigView { readme: value, ..config }, args, pos + 2)
            } else {
                missing
            }
        } else if arg == "--marker-start"@ {
            if has_value {
                apply_args(ConfigView { marker_start: value, ..config }, args, pos + 2)
            } else {
                missing
            }
        } else if arg == "--marker-end"@ {
            if has_value {
                apply_args(ConfigView { marker_end: value, ..config }, args, pos + 2)
            } else {
                missing
            }
        } else if arg == "--include-private"@ {
            apply_args(ConfigView { include_private: true, ..config }, args, pos + 1)
        } else if arg == "--repo-limit"@ {
            if has_value {
                match usize_value(value) {
                    Ok(n) => apply_args(ConfigView { repo_limit: n, ..config }, args, pos + 2),
                    Err(m) => Err(m),
                }
            } else {
                missing
            }
        } else if arg == "--max-prs-per-repo"@ {
            if has_value {
                match usize_value(value) {
                    Ok(n) => apply_args(ConfigView { max_prs_per_repo: n, ..config }, args, pos + 2),
                    Err(m) => Err(m),
                }
            } else {
                missing
            }
        } else if arg == "--lookback-days"@ {
            if has_value {
                match i64_value(value) {
                    Ok(n) => apply_args(ConfigView { lookback_days: n, ..config }, args, pos + 2),
                    Err(m) => Err(m),
                }
            } else {
                missing
            }
        } else if arg == "--max-pages"@ {
            if has_value {
                match usize_value(value) {
                    Ok(n) => apply_args(ConfigView { max_pages: n, ..config }, args, pos + 2),
                    Err(m) => Err(m),
                }
            } else {
                missing
            }
        } else if arg == "--output-only"@ {
            apply_args(ConfigView { output_only: true, ..config }, args, pos + 1)
        } else if arg == "--check"@ {
            apply_args(ConfigView { check: true, ..config }, args, pos + 1)
        } else if arg == "--help"@ || arg == "-h"@ {
            Ok(CommandView::Help)
        } else {
            Err("Unknown argument: "@ + arg)
        }
    }
}

/// What the input variables and the command line ask for, or the message of the
/// first thing that does not read.
pub open spec fn parsed_command(env: Environment, args: Seq<Seq<char>>) -> Result<
    CommandView,
    Seq<char>,
> {
    match config_from_environment(env) {
        Err(m) => Err(m),
        Ok(config) => apply_args(config, args, 0),
    }
}

/// The argument at `pos`, which is the value of `flag`.
pub fn next_value(args: &Vec<String>, pos: usize, flag: &str) -> (r: Result<String, String>)
    ensures
        r matches Ok(v) ==> pos < args.len() && v@ == args@[pos as int]@,
        r matches Err(m) ==> pos >= args.len() && m@ == "Missing value for "@ + flag@,
{
    if pos < args.len() {
        Ok(args[pos].clone())
    } else {
        let mut m = String::new();
        push_str(&mut m, "Missing value for ");
        push_str(&mut m, flag);
        Err(m)
    }
}

/// A text, copied.
fn copy_text(s: &str) -> (r: String)
    ensures
        r@ == s@,
{
    let mut r = String::new();
    push_str(&mut r, s);
    r
}

/// The configuration that the input variables give.
pub fn parse_environment(env: &Environment) -> (r: Result<Config, String>)
    ensures
        r matches Ok(c) ==> config_from_environment(*env) == Ok::<ConfigView, Seq<char>>(c@),
        r matches Err(m) ==> config_from_environment(*env) == Err::<ConfigView, Seq<char>>(m@),
{
    let readme = match &env.readme_path {
        Some(p) => p.clone(),
        None => copy_text("README.md"),
    };
    let marker_start = match &env.marker_start {
        Some(m) => m.clone(),
        None => copy_text(DEFAULT_START),
    };
    let marker_end = match &env.marker_end {
        Some(m) => m.clone(),
        None => copy_text(DEFAULT_END),
    };
    let include_private = match env_bool("INPUT_INCLUDE_PRIVATE", &env.include_private, false) {
        Ok(b) => b,
        Err(m) => return Err(m),
    };
    let repo_limit = match env_usize(&env.repo_limit, 6) {
        Ok(n) => n,
        Err(m) => return Err(m),
    };
    let max_prs_per_repo = match env_usize(&env.max_prs_per_repo, 3) {
        Ok(n) => n,
        Err(m) => return Err(m),
    };
    let lookback_days = match env_i64(&env.lookback_days, 365) {
        Ok(n) => n,
        Err(m) => return Err(m),
    };
    let max_pages = match env_usize(&env.max_pages, 10) {
        Ok(n) => n,
        Err(m) => return Err(m),
    };
    let output_only = match env_bool("INPUT_OUTPUT_ONLY", &env.output_only, false) {
        Ok(b) => b,
        Err(m) => return Err(m),
    };
    Ok(
        Config {
            readme,
            marker_start,
            marker_end,
            include_private,
            repo_limit,
            max_prs_per_repo,
            lookback_days,
            max_pages,
            output_only,
            check: false,
        },
    )
}

/// What the input variables and the command line ask for: the flags override the
/// variables, in order; `--help` asks for help; the limits must be positive.
pub fn parse_args(env: &Environment, args: &Vec<String>) -> (r: Result<Command, String>)
    ensures
        r matches Ok(c) ==> parsed_command(*env, arg_views(args@)) == Ok::<CommandView, Seq<char>>(
            command_view(c),
        ),
        r matches Err(m) ==> parsed_command(*env, arg_views(args@)) == Err::<
            CommandView,
            Seq<char>,
        >(m@),
{
    let ghost views = arg_views(args@);
    let mut config = match parse_environment(env) {
        Ok(c) => c,
        Err(m) => return Err(m),
    };
    let mut pos: usize = 0;
    while pos < args.len()
        invariant
            pos <= args.len(),
            views == arg_views(args@),
            parsed_command(*env, views) == apply_args(config@, views, pos as int),
        decreases args.len() - pos,
    {
        let arg = &args[pos];
        assert(views[pos as int] == arg@);
        if pos + 1 < args.len() {
            assert(views[pos + 1] == args@[pos + 1]@);
        }
        if same_text(arg.as_str(), "--readme") {
            match next_value(args, pos + 1, "--readme") {
                Ok(v) => {
                    config.readme = v;
                    pos = pos + 2;
                },
                Err(m) => return Err(m),
            }
        } else if same_text(arg.as_str(), "--marker-start") {
            match next_value(args, pos + 1, "--marker-start") {
                Ok(v) => {
                    config.marker_start = v;
                    pos = pos + 2;
                },
                Err(m) => return Err(m),
            }
        } else if same_text(arg.as_str(), "--marker-end") {
            match next_value(args, pos + 1, "--marker-end") {
                Ok(v) => {
                    config.marker_end = v;
                    pos = pos + 2;
                },
                Err(m) => return Err(m),
            }
        } else if same_text(arg.as_str(), "--include-private") {
            config.include_private = true;
            pos = pos + 1;
        } else if same_text(arg.as_str(), "--repo-limit") {
            match next_value(args, pos + 1, "--repo-limit") {
                Ok(v) => match parse_usize(v.as_str()) {
                    Ok(n) => {
                        config.repo_limit = n;
                        pos = pos + 2;
                    },
                    Err(e) => return Err(error_message(e)),
                },
                Err(m) => return Err(m),
            }
        } else if same_text(arg.as_str(), "--max-prs-per-repo") {
            match next_value(args, pos + 1, "--max-prs-per-repo") {
                Ok(v) => match parse_usize(v.as_str()) {
                    Ok(n) => {
                        config.max_prs_per_repo = n;
                        pos = pos + 2;
                    },
                    Err(e) => return Err(error_message(e)),
                },
                Err(m) => return Err(m),
            }
        } else if same_text(arg.as_str(), "--lookback-days") {
            match next_value(args, pos + 1, "--lookback-days") {
                Ok(v) => match parse_i64(v.as_str()) {
                    Ok(n) => {
                        config.lookback_days = n;
                        pos = pos + 2;
                    },
                    Err(e) => return Err(error_message(e)),
                },
                Err(m) => return Err(m),
            }
        } else if same_text(arg.as_str(), "--max-pages") {
            match next_value(args, pos + 1, "--max-pages") {
                Ok(v) => match parse_usize(v.as_str()) {
                    Ok(n) => {
                        config.max_pages = n;
                        pos = pos + 2;
                    },
                    Err(e) => return Err(error_message(e)),
                },
                Err(m) => return Err(m),
            }
        } else if same_text(arg.as_str(), "--output-only") {
            config.output_only = true;
            pos = pos + 1;
        } else if same_text(arg.as_str(), "--check") {
            config.check = true;
            pos = pos + 1;
        } else if same_text(arg.as_str(), "--help") || same_text(arg.as_str(), "-h") {
            return Ok(Command::Help);
        } else {
            let mut m = String::new();
            push_str(&mut m, "Unknown argument: ");
            push_str(&mut m, arg.as_str());
            return Err(m);
        }
    }
    if config.repo_limit == 0 {
        return Err(copy_text("repo-limit must be greater than 0"));
    }
    if config.max_prs_per_repo == 0 {
        return Err(copy_text("max-prs-per-repo must be greater than 0"));
    }
    Ok(Command::Run(config))
}

} // verus!
